use crate::account::AccountId;
use crate::error::StreamError;
use crate::fees::{
    asset_fee, fee_amount, fee_for, fee_of, with_asset_fee, FeeEntry, FeeLedger, FEE_BPS_DIVISOR,
};
use crate::model::{
    cancel_outcome, claim_outcome, created, creation_error, deletion_failure,
    first_deletion_failure, follows, ledger_wf, locked_with, names, pause_outcome, pending_wf,
    removal_refused, rescheduled, resolve_outcome, resume_outcome, update_outcome, validation_error,
    with_stream, withdraw_outcome, LedgerView, PendingTransfer, Transfer, TransferKind,
};
use crate::stream::{
    cancelled_at, claimed, collected_at, fresh_stream, lemma_cancelled_wf, lemma_claimed_wf,
    lemma_collected_wf, lemma_paused_wf, lemma_refunded_wf, lemma_resumed_wf, lemma_wf_later,
    paused_at, refunded_at, resumed_at, stream_wf, Stream, MAX_RATE,
};
use std::collections::HashMap;
use vstd::prelude::*;

verus! {

/// The name under which `view_claimable_fee` lists the native-asset fees.
pub const NATIVE_FEE_NAME: &'static str = "native.testnet";

/// The token account recorded for native-asset streams.
pub const NATIVE_NEAR_CONTRACT_ID: &'static str = "near.near";

broadcast use vstd::std_specs::hash::group_hash_axioms;

/// The ledger: the stream store, the journal of transfers in flight, the
/// fee ledger and the configuration.
pub struct Contract {
    current_id: u64,
    streams: HashMap<u64, Stream>,
    pending: HashMap<u64, PendingTransfer>,
    owner_id: AccountId,
    manager_id: AccountId,
    whitelisted_tokens: Vec<AccountId>,
    fee_receiver: AccountId,
    fee_rate: u64,
    max_fee_rate: u64,
    fees: FeeLedger,
    clock: u64,
}

impl View for Contract {
    type V = LedgerView;

    closed spec fn view(&self) -> LedgerView {
        LedgerView {
            current_id: self.current_id,
            streams: self.streams@,
            pending: self.pending@,
            fees: self.fees@,
            fee_rate: self.fee_rate,
            max_fee_rate: self.max_fee_rate,
            clock: self.clock,
            owner: self.owner_id@,
            manager: self.manager_id@,
            fee_receiver: self.fee_receiver@,
            whitelist: names(self.whitelisted_tokens@),
        }
    }
}

/// Moving the clock forward keeps the ledger consistent.
proof fn lemma_ledger_later(v: LedgerView, now: u64)
    requires
        ledger_wf(v),
        v.clock <= now,
    ensures
        ledger_wf(LedgerView { clock: now, ..v }),
{
    assert forall|id: u64| #[trigger] v.streams.contains_key(id) implies stream_wf(
        v.streams[id],
        now,
    ) by {
        lemma_wf_later(v.streams[id], v.clock, now);
    }
    assert forall|id: u64| #[trigger] v.pending.contains_key(id) implies stream_wf(
        v.pending[id].prior,
        now,
    ) by {
        lemma_wf_later(v.pending[id].prior, v.clock, now);
    }
}

/// The identifiers among the first `upto` of `ids`.
pub open spec fn id_set(ids: Seq<u64>, upto: int) -> Set<u64> {
    Set::new(|k: u64| exists|q: int| 0 <= q < upto && ids[q] == k)
}

/// When every identifier before position `i` can be deleted, the first
/// failure of the whole deletion is the first failure from `i` on.
proof fn lemma_first_failure_at(v: LedgerView, ids: Seq<u64>, now: u64, i: int)
    requires
        0 <= i <= ids.len(),
        forall|k: int| 0 <= k < i ==> deletion_failure(v, ids, now, k) is None,
    ensures
        first_deletion_failure(v, ids, now, 0) == first_deletion_failure(v, ids, now, i),
    decreases i,
{
    if i > 0 {
        lemma_first_failure_from(v, ids, now, 0, i);
    }
}

proof fn lemma_first_failure_from(v: LedgerView, ids: Seq<u64>, now: u64, s: int, i: int)
    requires
        0 <= s <= i <= ids.len(),
        forall|k: int| s <= k < i ==> deletion_failure(v, ids, now, k) is None,
    ensures
        first_deletion_failure(v, ids, now, s) == first_deletion_failure(v, ids, now, i),
    decreases i - s,
{
    if s < i {
        lemma_first_failure_from(v, ids, now, s + 1, i);
    }
}

/// Changing only the list of accepted tokens keeps the ledger consistent.
proof fn lemma_whitelist_change(v: LedgerView, w: Seq<Seq<char>>)
    requires
        ledger_wf(v),
        w.no_duplicates(),
    ensures
        ledger_wf(LedgerView { whitelist: w, ..v }),
{
    let v2 = LedgerView { whitelist: w, ..v };
    assert forall|id: u64| #[trigger] v2.streams.contains_key(id) implies {
        &&& stream_wf(v2.streams[id], v2.clock)
        &&& v2.streams[id].id == id
        &&& id < v2.current_id
        &&& (v2.streams[id].locked <==> v2.pending.contains_key(id))
    } by {
        assert(v.streams.contains_key(id));
    }
    assert forall|id: u64| #[trigger] v2.pending.contains_key(id) implies {
        &&& v2.streams.contains_key(id)
        &&& pending_wf(v2.pending[id], v2.streams[id], v2.clock)
    } by {
        assert(v.pending.contains_key(id));
    }
    assert forall|t: Seq<char>| #[trigger] v2.fees.tokens.contains_key(t) && 0 <= v2.fees.tokens[t]
        <= u128::MAX by {
        assert(v.fees.tokens.contains_key(t));
    }
}

impl Contract {
    /// The ledger is consistent.
    pub closed spec fn wf(&self) -> bool {
        &&& self.fees.wf()
        &&& ledger_wf(self@)
    }

    /// A ledger with no streams, the given administrators, and a fee rate of
    /// `fee_rate` basis points that may later be raised up to `max_fee_rate`.
    pub fn new(
        owner_id: AccountId,
        manager_id: AccountId,
        fee_receiver: AccountId,
        fee_rate: u64,
        max_fee_rate: u64,
    ) -> (r: Result<Contract, StreamError>)
        ensures
            (r is Err) == (max_fee_rate > FEE_BPS_DIVISOR || fee_rate > max_fee_rate),
            r is Err ==> r == Err::<Contract, StreamError>(StreamError::InvalidFeeRate),
            r matches Ok(c) ==> {
                &&& c.wf()
                &&& c@.current_id == 1
                &&& c@.streams == Map::<u64, Stream>::empty()
                &&& c@.pending == Map::<u64, PendingTransfer>::empty()
                &&& c@.fees.native == 0
                &&& forall|t: Seq<char>| #[trigger] c@.fees.tokens[t] == 0
                &&& c@.fee_rate == fee_rate
                &&& c@.max_fee_rate == max_fee_rate
                &&& c@.clock == 0
                &&& c@.owner == owner_id@
                &&& c@.manager == manager_id@
                &&& c@.fee_receiver == fee_receiver@
                &&& c@.whitelist == Seq::<Seq<char>>::empty()
            },
    {
        if max_fee_rate > FEE_BPS_DIVISOR || fee_rate > max_fee_rate {
            return Err(StreamError::InvalidFeeRate);
        }
        let c = Contract {
            current_id: 1,
            streams: HashMap::new(),
            pending: HashMap::new(),
            owner_id,
            manager_id,
            whitelisted_tokens: Vec::new(),
            fee_receiver,
            fee_rate,
            max_fee_rate,
            fees: FeeLedger::new(),
            clock: 0,
        };
        assert(c@.whitelist =~= Seq::<Seq<char>>::empty());
        proof {
            c.fees.lemma_bounded();
            assert forall|t: Seq<char>| #[trigger] c@.fees.tokens.contains_key(t) && 0
                <= c@.fees.tokens[t] <= u128::MAX by {
                assert(asset_fee(c@.fees, false, t) == c@.fees.tokens[t]);
            }
        }
        Ok(c)
    }

    /// Whether `account` is an accepted fungible-token contract.
    pub fn valid_ft_sender(&self, account: &AccountId) -> (r: bool)
        ensures
            r == self@.whitelist.contains(account@),
    {
        let mut i: usize = 0;
        while i < self.whitelisted_tokens.len()
            invariant
                i <= self.whitelisted_tokens@.len(),
                forall|j: int| 0 <= j < i ==> self.whitelisted_tokens@[j]@ != account@,
            decreases self.whitelisted_tokens@.len() - i,
        {
            if self.whitelisted_tokens[i] == *account {
                assert(self@.whitelist[i as int] == account@);
                return true;
            }
            i = i + 1;
        }
        proof {
            if self@.whitelist.contains(account@) {
                let j = choose|j: int| 0 <= j < self@.whitelist.len() && self@.whitelist[j] == account@;
                assert(self.whitelisted_tokens@[j]@ == account@);
            }
        }
        false
    }

    /// The fee withheld, at the configured rate, from a payout of `amount`.
    pub fn calculate_fee_amount(&self, amount: u128) -> (r: u128)
        requires
            self.wf(),
        ensures
            r == fee_for(amount as int, self@.fee_rate as int),
    {
        fee_amount(amount, self.fee_rate)
    }

    /// Builds the stream that the given parameters describe, or says why
    /// they are refused: sender and receiver must differ, the start may not
    /// lie before `now` nor after the end, and the rate must be positive and
    /// below the ceiling. The balance is the rate times the duration.
    pub fn validate_stream(
        &self,
        stream_id: u64,
        sender: &AccountId,
        receiver: &AccountId,
        stream_rate: u128,
        start: u64,
        end: u64,
        can_cancel: bool,
        can_update: bool,
        is_native: bool,
        contract_id: &AccountId,
        now: u64,
    ) -> (r: Result<Stream, StreamError>)
        ensures
            match validation_error(self@, sender@, receiver@, stream_rate, start, end, now) {
                Some(e) => r == Err::<Stream, StreamError>(e),
                None => r matches Ok(s) && fresh_stream(
                    s,
                    stream_id,
                    sender@,
                    receiver@,
                    stream_rate,
                    start,
                    end,
                    can_cancel,
                    can_update,
                    is_native,
                    if is_native {
                        NATIVE_NEAR_CONTRACT_ID@
                    } else {
                        contract_id@
                    },
                    now,
                ),
            },
    {
        if now < self.clock {
            return Err(StreamError::ClockWentBackwards);
        }
        if *receiver == *sender {
            return Err(StreamError::SameSenderAndReceiver);
        }
        if start < now {
            return Err(StreamError::StartInPast);
        }
        if end < start {
            return Err(StreamError::EndBeforeStart);
        }
        if stream_rate == 0 {
            return Err(StreamError::ZeroRate);
        }
        if stream_rate >= MAX_RATE {
            return Err(StreamError::RateTooHigh);
        }
        let stream_amount = match stream_rate.checked_mul((end - start) as u128) {
            Some(a) => a,
            None => return Err(StreamError::AmountOverflow),
        };
        let token = if is_native {
            AccountId::new(NATIVE_NEAR_CONTRACT_ID.to_owned())
        } else {
            contract_id.clone()
        };
        Ok(
            Stream {
                id: stream_id,
                sender: sender.clone(),
                receiver: receiver.clone(),
                balance: stream_amount,
                rate: stream_rate,
                created: now,
                start_time: start,
                end_time: end,
                withdraw_time: start,
                is_paused: false,
                is_cancelled: false,
                paused_time: 0,
                contract_id: token,
                can_update,
                can_cancel,
                is_native,
                locked: false,
                paused_amount: 0,
                total_amount: stream_amount,
                withdrawn_amount: 0,
            },
        )
    }

    /// Validates and stores a new stream funded by `deposit`.
    fn insert_stream(
        &mut self,
        sender: &AccountId,
        receiver: &AccountId,
        stream_rate: u128,
        start: u64,
        end: u64,
        can_cancel: bool,
        can_update: bool,
        deposit: u128,
        is_native: bool,
        contract_id: &AccountId,
        now: u64,
    ) -> (r: Result<u64, StreamError>)
        requires
            old(self).wf(),
        ensures
            final(self).wf(),
            match creation_error(old(self)@, sender@, receiver@, stream_rate, start, end, deposit, now) {
                Some(e) => r == Err::<u64, StreamError>(e) && final(self)@ == old(self)@,
                None => r == Ok::<u64, StreamError>(old(self)@.current_id) && created(
                    old(self)@,
                    final(self)@,
                    sender@,
                    receiver@,
                    stream_rate,
                    start,
                    end,
                    can_cancel,
                    can_update,
                    is_native,
                    if is_native {
                        NATIVE_NEAR_CONTRACT_ID@
                    } else {
                        contract_id@
                    },
                    now,
                ),
            },
    {
        let id = self.current_id;
        let stream = match self.validate_stream(
            id,
            sender,
            receiver,
            stream_rate,
            start,
            end,
            can_cancel,
            can_update,
            is_native,
            contract_id,
            now,
        ) {
            Ok(s) => s,
            Err(e) => return Err(e),
        };
        if id == u64::MAX {
            return Err(StreamError::IdsExhausted);
        }
        if deposit != stream.balance {
            return Err(StreamError::DepositMismatch);
        }
        let ghost v = self@;
        let ghost fresh = stream;
        self.streams.insert(id, stream);
        self.current_id = id + 1;
        self.clock = now;
        proof {
            let v2 = self@;
            lemma_ledger_later(v, now);
            let vl = LedgerView { clock: now, ..v };
            assert(v2.streams[id] == fresh);
            assert(!v.pending.contains_key(id));
            assert forall|k: u64| #[trigger] v2.streams.contains_key(k) implies {
                &&& stream_wf(v2.streams[k], v2.clock)
                &&& v2.streams[k].id == k
                &&& k < v2.current_id
                &&& (v2.streams[k].locked <==> v2.pending.contains_key(k))
            } by {
                if k != id {
                    assert(vl.streams.contains_key(k));
                }
            }
            assert forall|k: u64| #[trigger] v2.pending.contains_key(k) implies {
                &&& v2.streams.contains_key(k)
                &&& pending_wf(v2.pending[k], v2.streams[k], v2.clock)
            } by {
                assert(vl.pending.contains_key(k));
            }
        }
        Ok(id)
    }

    /// Creates a native-asset stream from `caller` to `receiver`, funded by
    /// `attached_deposit`, which must equal the rate times the duration.
    /// Returns the new stream's identifier.
    pub fn create_stream(
        &mut self,
        caller: &AccountId,
        receiver: &AccountId,
        stream_rate: u128,
        start: u64,
        end: u64,
        can_cancel: bool,
        can_update: bool,
        attached_deposit: u128,
        now: u64,
    ) -> (r: Result<u64, StreamError>)
        requires
            old(self).wf(),
        ensures
            final(self).wf(),
            match creation_error(old(self)@, caller@, receiver@, stream_rate, start, end, attached_deposit, now) {
                Some(e) => r == Err::<u64, StreamError>(e) && final(self)@ == old(self)@,
                None => r == Ok::<u64, StreamError>(old(self)@.current_id) && created(
                    old(self)@,
                    final(self)@,
                    caller@,
                    receiver@,
                    stream_rate,
                    start,
                    end,
                    can_cancel,
                    can_update,
                    true,
                    NATIVE_NEAR_CONTRACT_ID@,
                    now,
                ),
            },
    {
        let native = AccountId::new(NATIVE_NEAR_CONTRACT_ID.to_owned());
        self.insert_stream(
            caller,
            receiver,
            stream_rate,
            start,
            end,
            can_cancel,
            can_update,
            attached_deposit,
            true,
            &native,
            now,
        )
    }

    /// Creates a stream of the fungible token `token` from `sender` to
    /// `receiver`, funded by the `amount` of tokens transferred in, which
    /// must equal the rate times the duration. The token must be accepted.
    /// Returns the new stream's identifier.
    pub fn ft_create_stream(
        &mut self,
        token: &AccountId,
        sender: &AccountId,
        amount: u128,
        receiver: &AccountId,
        stream_rate: u128,
        start: u64,
        end: u64,
        can_cancel: bool,
        can_update: bool,
        now: u64,
    ) -> (r: Result<u64, StreamError>)
        requires
            old(self).wf(),
        ensures
            final(self).wf(),
            !old(self)@.whitelist.contains(token@) ==> r == Err::<u64, StreamError>(
                StreamError::TokenNotAccepted,
            ) && final(self)@ == old(self)@,
            old(self)@.whitelist.contains(token@) ==> match creation_error(
                old(self)@,
                sender@,
                receiver@,
                stream_rate,
                start,
                end,
                amount,
                now,
            ) {
                Some(e) => r == Err::<u64, StreamError>(e) && final(self)@ == old(self)@,
                None => r == Ok::<u64, StreamError>(old(self)@.current_id) && created(
                    old(self)@,
                    final(self)@,
                    sender@,
                    receiver@,
                    stream_rate,
                    start,
                    end,
                    can_cancel,
                    can_update,
                    false,
                    token@,
                    now,
                ),
            },
    {
        if !self.valid_ft_sender(token) {
            return Err(StreamError::TokenNotAccepted);
        }
        self.insert_stream(
            sender,
            receiver,
            stream_rate,
            start,
            end,
            can_cancel,
            can_update,
            amount,
            false,
            token,
            now,
        )
    }

    /// Changes the schedule of native stream `stream_id` before it starts,
    /// on behalf of `caller`, who must be its sender. Each of `start`,
    /// `end` and `rate` that is given replaces the current one. When the new
    /// schedule needs more than the balance, `attached_deposit` must cover
    /// the difference and is added to the balance; otherwise it must be
    /// exactly one unit.
    pub fn update(
        &mut self,
        stream_id: u64,
        caller: &AccountId,
        start: Option<u64>,
        end: Option<u64>,
        rate: Option<u128>,
        attached_deposit: u128,
        now: u64,
    ) -> (r: Result<(), StreamError>)
        requires
            old(self).wf(),
        ensures
            final(self).wf(),
            follows(
                old(self)@,
                final(self)@,
                r,
                update_outcome(old(self)@, stream_id, caller@, start, end, rate, attached_deposit, now),
            ),
    {
        if now < self.clock {
            return Err(StreamError::ClockWentBackwards);
        }
        let s = match self.streams.get(&stream_id) {
            Some(s) => s,
            None => return Err(StreamError::StreamNotFound),
        };
        if !s.is_native {
            return Err(StreamError::NotNative);
        }
        if s.locked {
            return Err(StreamError::Locked);
        }
        if !(*caller == s.sender) {
            return Err(StreamError::Unauthorized);
        }
        if !s.can_update {
            return Err(StreamError::CannotUpdate);
        }
        if s.is_cancelled {
            return Err(StreamError::AlreadyCancelled);
        }
        let rt = match rate {
            Some(x) => x,
            None => s.rate,
        };
        let st = match start {
            Some(x) => x,
            None => s.start_time,
        };
        let en = match end {
            Some(x) => x,
            None => s.end_time,
        };
        if s.start_time <= now {
            return Err(StreamError::AlreadyStarted);
        }
        if st >= en {
            return Err(StreamError::StartNotBeforeEnd);
        }
        if st != s.start_time && st < now {
            return Err(StreamError::StartInPast);
        }
        if rt == 0 {
            return Err(StreamError::ZeroRate);
        }
        if rt >= MAX_RATE {
            return Err(StreamError::RateTooHigh);
        }
        let amount = match rt.checked_mul((en - st) as u128) {
            Some(a) => a,
            None => return Err(StreamError::AmountOverflow),
        };
        let added: u128 = if amount > s.balance {
            if attached_deposit < amount - s.balance {
                return Err(StreamError::InsufficientDeposit);
            }
            if attached_deposit > u128::MAX - s.balance || attached_deposit > u128::MAX
                - s.total_amount {
                return Err(StreamError::AmountOverflow);
            }
            attached_deposit
        } else {
            if attached_deposit != 1 {
                return Err(StreamError::OneUnitRequired);
            }
            0
        };
        let mut s2 = s.clone();
        s2.start_time = st;
        s2.withdraw_time = st;
        s2.end_time = en;
        s2.rate = rt;
        s2.balance = s.balance + added;
        s2.total_amount = s.total_amount + added;
        proof {
            assert(s2 == rescheduled(*s, st, en, rt, added as int));
            assert(stream_wf(*s, self.clock));
            assert(stream_wf(s2, now));
        }
        self.replace_stream(stream_id, s2, now);
        Ok(())
    }

    pub(crate) proof fn lemma_wf_model(&self)
        requires
            self.wf(),
        ensures
            ledger_wf(self@),
    {
    }

    /// The stream stored under `id`, if any.
    pub(crate) fn stream_ref(&self, id: u64) -> (r: Option<&Stream>)
        ensures
            r == if self@.streams.contains_key(id) {
                Some(&self@.streams[id])
            } else {
                None
            },
    {
        self.streams.get(&id)
    }

    pub(crate) fn streams_len(&self) -> (r: usize)
        ensures
            r == self@.streams.len(),
    {
        self.streams.len()
    }

    /// The identifier the next stream will get.
    pub(crate) fn next_id(&self) -> (r: u64)
        ensures
            r == self@.current_id,
    {
        self.current_id
    }

    /// Stream `id` becomes `s2`, locked, with its prior state journaled and
    /// `fee` credited to its asset.
    fn lock(&mut self, id: u64, s2: Stream, prior: Stream, kind: TransferKind, fee: u128, now: u64)
        requires
            old(self).wf(),
            old(self)@.streams.contains_key(id),
            prior == old(self)@.streams[id],
            !prior.locked,
            old(self)@.clock <= now,
            stream_wf(s2, now),
            s2.id == id,
            s2.is_native == prior.is_native,
            s2.contract_id == prior.contract_id,
            asset_fee(old(self)@.fees, prior.is_native, prior.contract_id@) + fee <= u128::MAX,
        ensures
            final(self).wf(),
            final(self)@ == locked_with(old(self)@, id, s2, kind, fee as int, now),
    {
        let ghost v = self@;
        proof {
            lemma_ledger_later(v, now);
            lemma_wf_later(prior, v.clock, now);
            self.fees.lemma_bounded();
        }
        let cur = self.fees.get(prior.is_native, &prior.contract_id);
        if fee > 0 {
            self.fees.set(prior.is_native, &prior.contract_id, cur + fee);
        } else {
            assert(v.fees.tokens.insert(prior.contract_id@, v.fees.tokens[prior.contract_id@])
                =~= v.fees.tokens);
        }
        let mut locked_stream = s2;
        locked_stream.locked = true;
        self.streams.insert(id, locked_stream);
        self.pending.insert(id, PendingTransfer { kind, prior, fee });
        self.clock = now;
        proof {
            let v2 = self@;
            let vl = LedgerView { clock: now, ..v };
            assert(v2 == locked_with(v, id, s2, kind, fee as int, now));
            self.fees.lemma_bounded();
            assert(asset_fee(v2.fees, true, seq![]) == v2.fees.native);
            assert forall|t: Seq<char>| #[trigger] v2.fees.tokens.contains_key(t) && 0
                <= v2.fees.tokens[t] <= u128::MAX by {
                assert(asset_fee(v2.fees, false, t) == v2.fees.tokens[t]);
            }
            assert(v2.fee_rate <= v2.max_fee_rate <= FEE_BPS_DIVISOR);
            assert(0 <= v2.fees.native <= u128::MAX);
            assert forall|k: u64| #[trigger] v2.streams.contains_key(k) implies {
                &&& stream_wf(v2.streams[k], v2.clock)
                &&& v2.streams[k].id == k
                &&& k < v2.current_id
                &&& (v2.streams[k].locked <==> v2.pending.contains_key(k))
            } by {
                if k != id {
                    assert(vl.streams.contains_key(k));
                } else {
                    assert(v.streams.contains_key(id));
                }
            }
            assert forall|k: u64| #[trigger] v2.pending.contains_key(k) implies {
                &&& v2.streams.contains_key(k)
                &&& pending_wf(v2.pending[k], v2.streams[k], v2.clock)
            } by {
                if k != id {
                    assert(vl.pending.contains_key(k));
                } else {
                    assert(v.streams.contains_key(id));
                }
            }
            assert(self.fees.wf());
            assert(v2.whitelist == v.whitelist);
            assert(ledger_wf(v2));
        }
    }

    /// Withdraws from stream `stream_id` at `now` on behalf of `caller`.
    ///
    /// The receiver collects everything accrued since the last withdrawal,
    /// less the platform fee; the sender, once the stream has ended, takes
    /// back what is not owed to the receiver. On success the stream is
    /// locked until the outcome of the returned transfer is reported to
    /// `internal_resolve_withdraw_stream`.
    pub fn withdraw(&mut self, stream_id: u64, caller: &AccountId, now: u64) -> (r: Result<
        Transfer,
        StreamError,
    >)
        requires
            old(self).wf(),
        ensures
            final(self).wf(),
            follows(old(self)@, final(self)@, r, withdraw_outcome(old(self)@, stream_id, caller@, now)),
    {
        if now < self.clock {
            return Err(StreamError::ClockWentBackwards);
        }
        let s = match self.streams.get(&stream_id) {
            Some(s) => s,
            None => return Err(StreamError::StreamNotFound),
        };
        if s.locked {
            return Err(StreamError::Locked);
        }
        if s.balance == 0 {
            return Err(StreamError::NoBalance);
        }
        if s.is_cancelled {
            return Err(StreamError::AlreadyCancelled);
        }
        if now <= s.start_time {
            return Err(StreamError::NotStarted);
        }
        let is_sender = *caller == s.sender;
        if !is_sender && !(*caller == s.receiver) {
            return Err(StreamError::Unauthorized);
        }
        proof {
            lemma_wf_later(*s, self.clock, now);
            self.fees.lemma_bounded();
        }
        if is_sender {
            if now <= s.end_time {
                return Err(StreamError::NotEnded);
            }
            let refund = s.refundable_to_sender(now);
            if refund == 0 {
                return Err(StreamError::AlreadyWithdrawn);
            }
            proof {
                lemma_refunded_wf(*s, now);
            }
            let prior = s.clone();
            let mut s2 = s.clone();
            s2.balance = s.balance - refund;
            let t = Transfer {
                stream_id,
                recipient: s.sender.clone(),
                amount: refund,
                is_native: s.is_native,
                contract_id: s.contract_id.clone(),
            };
            assert(s2 == refunded_at(prior, now));
            self.lock(stream_id, s2, prior, TransferKind::Withdraw, 0, now);
            Ok(t)
        } else {
            if now >= s.end_time && s.withdraw_time >= s.end_time {
                return Err(StreamError::AlreadyWithdrawn);
            }
            let owed = s.withdrawable_by_receiver(now);
            if owed == 0 {
                return Err(StreamError::NothingToWithdraw);
            }
            let fee = fee_amount(owed, self.fee_rate);
            let cur = self.fees.get(s.is_native, &s.contract_id);
            if fee > u128::MAX - cur {
                return Err(StreamError::AmountOverflow);
            }
            proof {
                lemma_collected_wf(*s, now);
            }
            let (_, boundary) = s.receiver_interval(now);
            let prior = s.clone();
            let mut s2 = s.clone();
            s2.balance = s.balance - owed;
            s2.withdraw_time = boundary;
            s2.withdrawn_amount = s.withdrawn_amount + owed;
            let t = Transfer {
                stream_id,
                recipient: s.receiver.clone(),
                amount: owed - fee,
                is_native: s.is_native,
                contract_id: s.contract_id.clone(),
            };
            assert(s2 == collected_at(prior, now));
            self.lock(stream_id, s2, prior, TransferKind::Withdraw, fee, now);
            Ok(t)
        }
    }

    /// Stream `id`, which is not locked, becomes `s2`, and the clock moves to `now`.
    fn replace_stream(&mut self, id: u64, s2: Stream, now: u64)
        requires
            old(self).wf(),
            old(self)@.streams.contains_key(id),
            !old(self)@.streams[id].locked,
            old(self)@.clock <= now,
            stream_wf(s2, now),
            s2.id == id,
            !s2.locked,
        ensures
            final(self).wf(),
            final(self)@ == with_stream(old(self)@, id, s2, now),
    {
        let ghost v = self@;
        proof {
            lemma_ledger_later(v, now);
        }
        self.streams.insert(id, s2);
        self.clock = now;
        proof {
            let v2 = self@;
            let vl = LedgerView { clock: now, ..v };
            assert forall|k: u64| #[trigger] v2.streams.contains_key(k) implies {
                &&& stream_wf(v2.streams[k], v2.clock)
                &&& v2.streams[k].id == k
                &&& k < v2.current_id
                &&& (v2.streams[k].locked <==> v2.pending.contains_key(k))
            } by {
                if k != id {
                    assert(vl.streams.contains_key(k));
                } else {
                    assert(v.streams.contains_key(id));
                }
            }
            assert forall|k: u64| #[trigger] v2.pending.contains_key(k) implies {
                &&& v2.streams.contains_key(k)
                &&& pending_wf(v2.pending[k], v2.streams[k], v2.clock)
            } by {
                assert(vl.pending.contains_key(k));
                if k == id {
                    assert(v.streams.contains_key(id));
                }
            }
        }
    }

    /// Cancels stream `stream_id` at `now` on behalf of `caller`, who must be
    /// its sender. The receiver is paid what accrued, less the platform fee;
    /// the rest of the balance stays in the stream for the sender to
    /// `claim`. When nothing accrued, the cancellation is final at once and
    /// no transfer is returned; otherwise the stream is locked until the
    /// outcome of the returned transfer is reported to
    /// `internal_resolve_cancel_stream`.
    pub fn cancel(&mut self, stream_id: u64, caller: &AccountId, now: u64) -> (r: Result<
        Option<Transfer>,
        StreamError,
    >)
        requires
            old(self).wf(),
        ensures
            final(self).wf(),
            follows(old(self)@, final(self)@, r, cancel_outcome(old(self)@, stream_id, caller@, now)),
    {
        if now < self.clock {
            return Err(StreamError::ClockWentBackwards);
        }
        let s = match self.streams.get(&stream_id) {
            Some(s) => s,
            None => return Err(StreamError::StreamNotFound),
        };
        if s.locked {
            return Err(StreamError::Locked);
        }
        if !s.can_cancel {
            return Err(StreamError::CannotCancel);
        }
        if !(*caller == s.sender) {
            return Err(StreamError::Unauthorized);
        }
        if s.end_time <= now {
            return Err(StreamError::AlreadyEnded);
        }
        if s.is_cancelled {
            return Err(StreamError::AlreadyCancelled);
        }
        proof {
            lemma_wf_later(*s, self.clock, now);
            lemma_cancelled_wf(*s, now);
            self.fees.lemma_bounded();
        }
        let owed = s.withdrawable_by_receiver(now);
        let (_, boundary) = s.receiver_interval(now);
        let prior = s.clone();
        let mut s2 = s.clone();
        s2.balance = s.balance - owed;
        s2.withdraw_time = boundary;
        s2.withdrawn_amount = s.withdrawn_amount + owed;
        s2.is_cancelled = true;
        assert(s2 == cancelled_at(prior, now));
        if owed == 0 {
            self.replace_stream(stream_id, s2, now);
            return Ok(None);
        }
        let fee = fee_amount(owed, self.fee_rate);
        let cur = self.fees.get(prior.is_native, &prior.contract_id);
        if fee > u128::MAX - cur {
            return Err(StreamError::AmountOverflow);
        }
        let t = Transfer {
            stream_id,
            recipient: prior.receiver.clone(),
            amount: owed - fee,
            is_native: prior.is_native,
            contract_id: prior.contract_id.clone(),
        };
        self.lock(stream_id, s2, prior, TransferKind::Cancel, fee, now);
        Ok(Some(t))
    }

    /// Pays the whole remaining balance of cancelled stream `stream_id` back
    /// to `caller`, who must be its sender. The stream is locked until the
    /// outcome of the returned transfer is reported to
    /// `internal_resolve_claim_stream`.
    pub fn claim(&mut self, stream_id: u64, caller: &AccountId) -> (r: Result<Transfer, StreamError>)
        requires
            old(self).wf(),
        ensures
            final(self).wf(),
            follows(old(self)@, final(self)@, r, claim_outcome(old(self)@, stream_id, caller@)),
    {
        let s = match self.streams.get(&stream_id) {
            Some(s) => s,
            None => return Err(StreamError::StreamNotFound),
        };
        if s.locked {
            return Err(StreamError::Locked);
        }
        if !(*caller == s.sender) {
            return Err(StreamError::Unauthorized);
        }
        if !s.is_cancelled {
            return Err(StreamError::NotCancelled);
        }
        if s.balance == 0 {
            return Err(StreamError::NoBalance);
        }
        proof {
            lemma_claimed_wf(*s, self.clock);
            self.fees.lemma_bounded();
        }
        let prior = s.clone();
        let mut s2 = s.clone();
        s2.balance = 0;
        let t = Transfer {
            stream_id,
            recipient: s.sender.clone(),
            amount: s.balance,
            is_native: s.is_native,
            contract_id: s.contract_id.clone(),
        };
        assert(s2 == claimed(prior));
        let now = self.clock;
        self.lock(stream_id, s2, prior, TransferKind::Claim, 0, now);
        Ok(t)
    }

    /// Pauses stream `stream_id` at `now` on behalf of `caller`, who must be
    /// its sender. Nothing accrues to the receiver while it is paused.
    pub fn pause(&mut self, stream_id: u64, caller: &AccountId, now: u64) -> (r: Result<(), StreamError>)
        requires
            old(self).wf(),
        ensures
            final(self).wf(),
            follows(old(self)@, final(self)@, r, pause_outcome(old(self)@, stream_id, caller@, now)),
    {
        if now < self.clock {
            return Err(StreamError::ClockWentBackwards);
        }
        let s = match self.streams.get(&stream_id) {
            Some(s) => s,
            None => return Err(StreamError::StreamNotFound),
        };
        if s.locked {
            return Err(StreamError::Locked);
        }
        if !(*caller == s.sender) {
            return Err(StreamError::Unauthorized);
        }
        if s.is_cancelled {
            return Err(StreamError::AlreadyCancelled);
        }
        if s.is_paused {
            return Err(StreamError::AlreadyPaused);
        }
        if !(s.start_time < now && now < s.end_time) {
            return Err(StreamError::OutsidePauseWindow);
        }
        proof {
            lemma_wf_later(*s, self.clock, now);
            lemma_paused_wf(*s, now);
        }
        let mut s2 = s.clone();
        s2.is_paused = true;
        s2.paused_time = now;
        assert(s2 == paused_at(*s, now));
        self.replace_stream(stream_id, s2, now);
        Ok(())
    }

    /// Resumes paused stream `stream_id` at `now` on behalf of `caller`, who
    /// must be its sender. The receiver's credited boundary moves past the
    /// paused interval, so the paused time never accrues.
    pub fn resume(&mut self, stream_id: u64, caller: &AccountId, now: u64) -> (r: Result<(), StreamError>)
        requires
            old(self).wf(),
        ensures
            final(self).wf(),
            follows(old(self)@, final(self)@, r, resume_outcome(old(self)@, stream_id, caller@, now)),
    {
        if now < self.clock {
            return Err(StreamError::ClockWentBackwards);
        }
        let s = match self.streams.get(&stream_id) {
            Some(s) => s,
            None => return Err(StreamError::StreamNotFound),
        };
        if s.locked {
            return Err(StreamError::Locked);
        }
        if !(*caller == s.sender) {
            return Err(StreamError::Unauthorized);
        }
        if !s.is_paused {
            return Err(StreamError::NotPaused);
        }
        if s.is_cancelled {
            return Err(StreamError::AlreadyCancelled);
        }
        proof {
            lemma_wf_later(*s, self.clock, now);
            lemma_resumed_wf(*s, now);
        }
        let until = if now < s.end_time {
            now
        } else {
            s.end_time
        };
        let skipped = until - s.paused_time;
        let mut s2 = s.clone();
        s2.is_paused = false;
        s2.paused_time = 0;
        s2.withdraw_time = s.withdraw_time + skipped;
        s2.paused_amount = s.paused_amount + s.rate * (skipped as u128);
        assert(s2 == resumed_at(*s, now));
        self.replace_stream(stream_id, s2, now);
        Ok(())
    }

    /// Reports the outcome of a transfer of kind `kind` for stream `id`.
    fn resolve(&mut self, id: u64, kind: TransferKind, succeeded: bool) -> (r: Result<bool, StreamError>)
        requires
            old(self).wf(),
        ensures
            final(self).wf(),
            follows(old(self)@, final(self)@, r, resolve_outcome(old(self)@, id, kind, succeeded)),
    {
        let ghost v = self@;
        let matches_kind = match self.pending.get(&id) {
            Some(p) => p.kind == kind,
            None => false,
        };
        if !matches_kind {
            return Err(StreamError::NoPendingTransfer);
        }
        assert(v.streams.contains_key(id));
        let p = match self.pending.remove(&id) {
            Some(p) => p,
            None => return Err(StreamError::NoPendingTransfer),
        };
        proof {
            self.fees.lemma_bounded();
        }
        if succeeded {
            let mut s = match self.streams.remove(&id) {
                Some(s) => s,
                None => return Err(StreamError::NoPendingTransfer),
            };
            s.locked = false;
            self.streams.insert(id, s);
            assert(self@.streams =~= v.streams.insert(id, Stream { locked: false, ..v.streams[id] }));
        } else {
            let cur = self.fees.get(p.prior.is_native, &p.prior.contract_id);
            let back = if cur >= p.fee {
                cur - p.fee
            } else {
                0
            };
            self.fees.set(p.prior.is_native, &p.prior.contract_id, back);
            self.streams.insert(id, p.prior);
        }
        assert(self@.pending =~= v.pending.remove(id));
        proof {
            let v2 = self@;
            self.fees.lemma_bounded();
            assert forall|t: Seq<char>| #[trigger] v2.fees.tokens.contains_key(t) && 0
                <= v2.fees.tokens[t] <= u128::MAX by {
                assert(asset_fee(v2.fees, false, t) == v2.fees.tokens[t]);
            }
            assert(asset_fee(v2.fees, true, seq![]) == v2.fees.native);
            assert(v.streams.contains_key(id));
            assert(v2.streams.dom() =~= v.streams.dom());
            assert forall|k: u64| #[trigger] v2.streams.contains_key(k) implies {
                &&& stream_wf(v2.streams[k], v2.clock)
                &&& v2.streams[k].id == k
                &&& k < v2.current_id
                &&& (v2.streams[k].locked <==> v2.pending.contains_key(k))
            } by {
                assert(v.streams.contains_key(k));
            }
            assert forall|k: u64| #[trigger] v2.pending.contains_key(k) implies {
                &&& v2.streams.contains_key(k)
                &&& pending_wf(v2.pending[k], v2.streams[k], v2.clock)
            } by {
                assert(v.pending.contains_key(k));
            }
        }
        Ok(succeeded)
    }

    /// Reports the outcome of the transfer started by `withdraw`. On
    /// failure the stream and the fee ledger return exactly to their state
    /// before the withdrawal. Returns whether the transfer succeeded.
    pub fn internal_resolve_withdraw_stream(&mut self, stream_id: u64, succeeded: bool) -> (r: Result<
        bool,
        StreamError,
    >)
        requires
            old(self).wf(),
        ensures
            final(self).wf(),
            follows(
                old(self)@,
                final(self)@,
                r,
                resolve_outcome(old(self)@, stream_id, TransferKind::Withdraw, succeeded),
            ),
    {
        self.resolve(stream_id, TransferKind::Withdraw, succeeded)
    }

    /// Reports the outcome of the transfer started by `cancel`. On failure
    /// the cancellation is undone exactly.
    pub fn internal_resolve_cancel_stream(&mut self, stream_id: u64, succeeded: bool) -> (r: Result<
        bool,
        StreamError,
    >)
        requires
            old(self).wf(),
        ensures
            final(self).wf(),
            follows(
                old(self)@,
                final(self)@,
                r,
                resolve_outcome(old(self)@, stream_id, TransferKind::Cancel, succeeded),
            ),
    {
        self.resolve(stream_id, TransferKind::Cancel, succeeded)
    }

    /// Reports the outcome of the transfer started by `claim`. On failure
    /// the balance returns to the stream.
    pub fn internal_resolve_claim_stream(&mut self, stream_id: u64, succeeded: bool) -> (r: Result<
        bool,
        StreamError,
    >)
        requires
            old(self).wf(),
        ensures
            final(self).wf(),
            follows(
                old(self)@,
                final(self)@,
                r,
                resolve_outcome(old(self)@, stream_id, TransferKind::Claim, succeeded),
            ),
    {
        self.resolve(stream_id, TransferKind::Claim, succeeded)
    }

    /// Confirms the transfer in flight for stream `stream_id`, whatever
    /// started it, as succeeded. Returns whether one was in flight.
    pub fn unlock(&mut self, stream_id: u64) -> (r: bool)
        requires
            old(self).wf(),
        ensures
            final(self).wf(),
            r == old(self)@.pending.contains_key(stream_id),
            r ==> follows(
                old(self)@,
                final(self)@,
                Ok::<bool, StreamError>(true),
                resolve_outcome(old(self)@, stream_id, old(self)@.pending[stream_id].kind, true),
            ),
            !r ==> final(self)@ == old(self)@,
    {
        let kind = match self.pending.get(&stream_id) {
            Some(p) => p.kind,
            None => return false,
        };
        let _ = self.resolve(stream_id, kind, true);
        true
    }


    /// The fee recorded for one asset becomes `value`.
    fn set_fee(&mut self, is_native: bool, token: &AccountId, value: u128)
        requires
            old(self).wf(),
        ensures
            final(self).wf(),
            final(self)@ == (LedgerView {
                fees: with_asset_fee(old(self)@.fees, is_native, token@, value as int),
                ..old(self)@
            }),
    {
        self.fees.set(is_native, token, value);
        proof {
            let v2 = self@;
            self.fees.lemma_bounded();
            assert(asset_fee(v2.fees, true, seq![]) == v2.fees.native);
            assert forall|t: Seq<char>| #[trigger] v2.fees.tokens.contains_key(t) && 0
                <= v2.fees.tokens[t] <= u128::MAX by {
                assert(asset_fee(v2.fees, false, t) == v2.fees.tokens[t]);
            }
        }
    }

    /// Succeeds when `caller` is the owner of the ledger.
    pub fn assert_owner(&self, caller: &AccountId) -> (r: Result<(), StreamError>)
        ensures
            r == if caller@ == self@.owner {
                Ok::<(), StreamError>(())
            } else {
                Err(StreamError::NotOwner)
            },
    {
        if *caller == self.owner_id {
            Ok(())
        } else {
            Err(StreamError::NotOwner)
        }
    }

    /// The owner of the ledger.
    pub fn get_owner(&self) -> (r: AccountId)
        ensures
            r@ == self@.owner,
    {
        self.owner_id.clone()
    }

    /// Succeeds when `caller` is the manager of the ledger.
    pub fn assert_manager(&self, caller: &AccountId) -> (r: Result<(), StreamError>)
        ensures
            r == if caller@ == self@.manager {
                Ok::<(), StreamError>(())
            } else {
                Err(StreamError::NotManager)
            },
    {
        if *caller == self.manager_id {
            Ok(())
        } else {
            Err(StreamError::NotManager)
        }
    }

    /// The owner hands ownership to `owner_id`.
    pub fn set_owner(&mut self, caller: &AccountId, owner_id: AccountId) -> (r: Result<(), StreamError>)
        requires
            old(self).wf(),
        ensures
            final(self).wf(),
            caller@ != old(self)@.owner ==> r == Err::<(), StreamError>(StreamError::NotOwner)
                && final(self)@ == old(self)@,
            caller@ == old(self)@.owner ==> r == Ok::<(), StreamError>(()) && final(self)@
                == (LedgerView { owner: owner_id@, ..old(self)@ }),
    {
        self.assert_owner(caller)?;
        self.owner_id = owner_id;
        Ok(())
    }

    /// The owner sets the fee rate, which may not exceed the maximum.
    pub fn change_fee_rate(&mut self, caller: &AccountId, new_rate: u64) -> (r: Result<(), StreamError>)
        requires
            old(self).wf(),
        ensures
            final(self).wf(),
            r == if caller@ != old(self)@.owner {
                Err::<(), StreamError>(StreamError::NotOwner)
            } else if new_rate > old(self)@.max_fee_rate {
                Err(StreamError::FeeRateAboveMax)
            } else {
                Ok(())
            },
            r is Ok ==> final(self)@ == (LedgerView { fee_rate: new_rate, ..old(self)@ }),
            r is Err ==> final(self)@ == old(self)@,
    {
        self.assert_owner(caller)?;
        if new_rate > self.max_fee_rate {
            return Err(StreamError::FeeRateAboveMax);
        }
        self.fee_rate = new_rate;
        Ok(())
    }

    /// The owner names a new fee receiver.
    pub fn change_fee_receiver(&mut self, caller: &AccountId, new_receiver: AccountId) -> (r: Result<
        (),
        StreamError,
    >)
        requires
            old(self).wf(),
        ensures
            final(self).wf(),
            caller@ != old(self)@.owner ==> r == Err::<(), StreamError>(StreamError::NotOwner)
                && final(self)@ == old(self)@,
            caller@ == old(self)@.owner ==> r == Ok::<(), StreamError>(()) && final(self)@
                == (LedgerView { fee_receiver: new_receiver@, ..old(self)@ }),
    {
        self.assert_owner(caller)?;
        self.fee_receiver = new_receiver;
        Ok(())
    }

    /// The accepted fungible-token contracts.
    pub fn get_whitelisted_tokens(&self) -> (r: Vec<AccountId>)
        ensures
            names(r@) == self@.whitelist,
    {
        let mut out: Vec<AccountId> = Vec::new();
        let mut i: usize = 0;
        while i < self.whitelisted_tokens.len()
            invariant
                i <= self.whitelisted_tokens@.len(),
                out@ == self.whitelisted_tokens@.subrange(0, i as int),
            decreases self.whitelisted_tokens@.len() - i,
        {
            out.push(self.whitelisted_tokens[i].clone());
            i = i + 1;
            assert(out@ =~= self.whitelisted_tokens@.subrange(0, i as int));
        }
        assert(out@ =~= self.whitelisted_tokens@);
        out
    }

    /// The owner adds `tokens` to the accepted fungible-token contracts.
    pub fn extend_whitelisted_tokens(&mut self, caller: &AccountId, tokens: Vec<AccountId>) -> (r:
        Result<(), StreamError>)
        requires
            old(self).wf(),
        ensures
            final(self).wf(),
            caller@ != old(self)@.owner ==> r == Err::<(), StreamError>(StreamError::NotOwner)
                && final(self)@ == old(self)@,
            caller@ == old(self)@.owner ==> {
                &&& r == Ok::<(), StreamError>(())
                &&& final(self)@ == (LedgerView { whitelist: final(self)@.whitelist, ..old(self)@ })
                &&& forall|t: Seq<char>|
                    #[trigger] final(self)@.whitelist.contains(t) <==> old(self)@.whitelist.contains(t)
                        || names(tokens@).contains(t)
            },
    {
        self.assert_owner(caller)?;
        let ghost v = self@;
        let ghost n = names(tokens@);
        let mut i: usize = 0;
        while i < tokens.len()
            invariant
                self.wf(),
                n == names(tokens@),
                i <= tokens@.len(),
                self@ == (LedgerView { whitelist: self@.whitelist, ..v }),
                forall|t: Seq<char>|
                    #[trigger] self@.whitelist.contains(t) <==> v.whitelist.contains(t) || exists|
                        j: int,
                    |
                        0 <= j < i && n[j] == t,
            decreases tokens@.len() - i,
        {
            let ghost before = self@.whitelist;
            let ghost cur = self@;
            let ghost x = n[i as int];
            assert(x == tokens@[i as int]@);
            if !self.valid_ft_sender(&tokens[i]) {
                self.whitelisted_tokens.push(tokens[i].clone());
                assert(self@.whitelist =~= before.push(x));
                proof {
                    lemma_whitelist_change(cur, self@.whitelist);
                }
            }
            proof {
                assert forall|t: Seq<char>| #[trigger]
                    self@.whitelist.contains(t) <==> v.whitelist.contains(t) || exists|j: int|
                        0 <= j < i + 1 && n[j] == t by {
                    if self@.whitelist.contains(t) {
                        if !before.contains(t) {
                            let k = choose|k: int|
                                0 <= k < self@.whitelist.len() && self@.whitelist[k] == t;
                            assert(k == before.len());
                            assert(n[i as int] == t);
                        }
                    }
                    if exists|j: int| 0 <= j < i + 1 && n[j] == t {
                        let j = choose|j: int| 0 <= j < i + 1 && n[j] == t;
                        if j == i {
                            if before.contains(t) {
                            } else {
                                assert(self@.whitelist[before.len() as int] == t);
                            }
                        }
                    }
                    if before.contains(t) {
                        let k = choose|k: int| 0 <= k < before.len() && before[k] == t;
                        assert(self@.whitelist[k] == t);
                    }
                }
            }
            i = i + 1;
        }
        proof {
            assert forall|t: Seq<char>| #[trigger]
                self@.whitelist.contains(t) <==> v.whitelist.contains(t) || n.contains(t) by {
                if n.contains(t) {
                    let j = choose|j: int| 0 <= j < n.len() && n[j] == t;
                }
            }
        }
        Ok(())
    }

    /// Whether one of `tokens` is named `account`.
    fn names_contain(tokens: &Vec<AccountId>, account: &AccountId) -> (r: bool)
        ensures
            r == names(tokens@).contains(account@),
    {
        let ghost n = names(tokens@);
        let mut i: usize = 0;
        while i < tokens.len()
            invariant
                n == names(tokens@),
                i <= tokens@.len(),
                forall|j: int| 0 <= j < i ==> n[j] != account@,
            decreases tokens@.len() - i,
        {
            assert(n[i as int] == tokens@[i as int]@);
            if tokens[i] == *account {
                return true;
            }
            i = i + 1;
        }
        false
    }

    /// The owner removes `tokens` from the accepted fungible-token
    /// contracts. Each must be on the list when its turn comes, so a token
    /// that is not listed, or is named twice, makes the whole removal fail.
    pub fn remove_whitelisted_tokens(&mut self, caller: &AccountId, tokens: Vec<AccountId>) -> (r:
        Result<(), StreamError>)
        requires
            old(self).wf(),
        ensures
            final(self).wf(),
            ({
                let n = names(tokens@);
                &&& r == if caller@ != old(self)@.owner {
                    Err::<(), StreamError>(StreamError::NotOwner)
                } else if removal_refused(old(self)@.whitelist, n) {
                    Err(StreamError::TokenNotListed)
                } else {
                    Ok(())
                }
                &&& r is Err ==> final(self)@ == old(self)@
                &&& r is Ok ==> {
                    &&& final(self)@ == (LedgerView { whitelist: final(self)@.whitelist, ..old(self)@ })
                    &&& forall|t: Seq<char>|
                        #[trigger] final(self)@.whitelist.contains(t) <==> old(
                            self,
                        )@.whitelist.contains(t) && !n.contains(t)
                }
            }),
    {
        self.assert_owner(caller)?;
        let ghost v = self@;
        let ghost n = names(tokens@);
        let mut i: usize = 0;
        while i < tokens.len()
            invariant
                self.wf(),
                self@ == v,
                v == old(self)@,
                caller@ == v.owner,
                n == names(tokens@),
                i <= tokens@.len(),
                forall|k: int|
                    0 <= k < i ==> v.whitelist.contains(#[trigger] n[k]) && !exists|j: int|
                        0 <= j < k && n[j] == n[k],
            decreases tokens@.len() - i,
        {
            assert(n[i as int] == tokens@[i as int]@);
            if !self.valid_ft_sender(&tokens[i]) {
                assert(!v.whitelist.contains(n[i as int]));
                assert(removal_refused(v.whitelist, n));
                return Err(StreamError::TokenNotListed);
            }
            let mut j: usize = 0;
            while j < i
                invariant
                    self.wf(),
                    self@ == v,
                    v == old(self)@,
                    caller@ == v.owner,
                    i < tokens@.len(),
                    n == names(tokens@),
                    j <= i,
                    forall|m: int| 0 <= m < j ==> n[m] != n[i as int],
                decreases i - j,
            {
                assert(n[j as int] == tokens@[j as int]@);
                if tokens[j] == tokens[i] {
                    assert(n[j as int] == n[i as int]);
                    assert(removal_refused(v.whitelist, n)) by {
                        assert(0 <= j < i && n[j as int] == n[i as int]);
                        assert(v.whitelist.contains(n[i as int]) ==> exists|p: int|
                            0 <= p < i && n[p] == n[i as int]);
                    }
                    return Err(StreamError::TokenNotListed);
                }
                j = j + 1;
            }
            i = i + 1;
        }
        let ghost w = self.whitelisted_tokens@;
        let mut kept: Vec<AccountId> = Vec::new();
        let mut k: usize = 0;
        while k < self.whitelisted_tokens.len()
            invariant
                self.wf(),
                self@ == v,
                w == self.whitelisted_tokens@,
                v.whitelist == names(w),
                n == names(tokens@),
                k <= w.len(),
                names(kept@).no_duplicates(),
                forall|t: Seq<char>|
                    #[trigger] names(kept@).contains(t) <==> (exists|m: int|
                        0 <= m < k && v.whitelist[m] == t) && !n.contains(t),
            decreases w.len() - k,
        {
            let ghost before = names(kept@);
            let ghost x = v.whitelist[k as int];
            assert(x == w[k as int]@);
            if !Self::names_contain(&tokens, &self.whitelisted_tokens[k]) {
                kept.push(self.whitelisted_tokens[k].clone());
                assert(names(kept@) =~= before.push(x));
                assert(!before.contains(x)) by {
                    if before.contains(x) {
                        let m = choose|m: int| 0 <= m < k && v.whitelist[m] == x;
                        assert(v.whitelist[m] == v.whitelist[k as int]);
                    }
                }
            }
            proof {
                let after = names(kept@);
                assert forall|t: Seq<char>| #[trigger]
                    after.contains(t) <==> (exists|m: int| 0 <= m < k + 1 && v.whitelist[m] == t)
                        && !n.contains(t) by {
                    if after.contains(t) && !before.contains(t) {
                        let q = choose|q: int| 0 <= q < after.len() && after[q] == t;
                        assert(q == before.len());
                        assert(v.whitelist[k as int] == t);
                    }
                    if before.contains(t) {
                        let q = choose|q: int| 0 <= q < before.len() && before[q] == t;
                        assert(after[q] == t);
                        let m = choose|m: int| 0 <= m < k && v.whitelist[m] == t;
                        assert(0 <= m < k + 1 && v.whitelist[m] == t);
                    }
                    if (exists|m: int| 0 <= m < k + 1 && v.whitelist[m] == t) && !n.contains(t) {
                        let m = choose|m: int| 0 <= m < k + 1 && v.whitelist[m] == t;
                        if m < k {
                            assert(before.contains(t));
                            let q = choose|q: int| 0 <= q < before.len() && before[q] == t;
                            assert(after[q] == t);
                        } else {
                            assert(after[after.len() - 1] == t);
                        }
                    }
                }
            }
            k = k + 1;
        }
        let ghost cur = self@;
        self.whitelisted_tokens = kept;
        proof {
            lemma_whitelist_change(cur, self@.whitelist);
            assert forall|t: Seq<char>| #[trigger]
                self@.whitelist.contains(t) <==> v.whitelist.contains(t) && !n.contains(t) by {
                if v.whitelist.contains(t) {
                    let m = choose|m: int| 0 <= m < v.whitelist.len() && v.whitelist[m] == t;
                }
            }
            if removal_refused(v.whitelist, n) {
                let i = choose|i: int|
                    0 <= i < n.len() && (!v.whitelist.contains(#[trigger] n[i]) || exists|j: int|
                        0 <= j < i && n[j] == n[i]);
                assert(v.whitelist.contains(n[i]));
            }
        }
        Ok(())
    }

    /// The fee receiver takes the accumulated native-asset fees; the
    /// returned amount is to be transferred to it, and the outcome reported
    /// to `internal_resolve_claim_fee_native`.
    pub fn claim_fee_native(&mut self, caller: &AccountId) -> (r: Result<u128, StreamError>)
        requires
            old(self).wf(),
        ensures
            final(self).wf(),
            caller@ != old(self)@.fee_receiver ==> r == Err::<u128, StreamError>(
                StreamError::NotFeeReceiver,
            ) && final(self)@ == old(self)@,
            caller@ == old(self)@.fee_receiver ==> r == Ok::<u128, StreamError>(
                old(self)@.fees.native as u128,
            ) && final(self)@ == (LedgerView {
                fees: with_asset_fee(old(self)@.fees, true, caller@, 0),
                ..old(self)@
            }),
    {
        if !(*caller == self.fee_receiver) {
            return Err(StreamError::NotFeeReceiver);
        }
        let amount = self.fees.get(true, caller);
        self.set_fee(true, caller, 0);
        Ok(amount)
    }

    /// Reports the outcome of the transfer of `amount` claimed by
    /// `claim_fee_native`: on failure the amount returns to the ledger.
    pub fn internal_resolve_claim_fee_native(&mut self, amount: u128, succeeded: bool) -> (r: Result<
        bool,
        StreamError,
    >)
        requires
            old(self).wf(),
        ensures
            final(self).wf(),
            succeeded ==> r == Ok::<bool, StreamError>(true) && final(self)@ == old(self)@,
            !succeeded && old(self)@.fees.native + amount > u128::MAX ==> r == Err::<
                bool,
                StreamError,
            >(StreamError::AmountOverflow) && final(self)@ == old(self)@,
            !succeeded && old(self)@.fees.native + amount <= u128::MAX ==> r == Ok::<
                bool,
                StreamError,
            >(false) && final(self)@.fees.native == old(self)@.fees.native + amount
                && final(self)@ == (LedgerView { fees: final(self)@.fees, ..old(self)@ })
                && final(self)@.fees.tokens == old(self)@.fees.tokens,
    {
        if succeeded {
            return Ok(true);
        }
        let nobody = AccountId::new(String::new());
        let cur = self.fees.get(true, &nobody);
        if amount > u128::MAX - cur {
            return Err(StreamError::AmountOverflow);
        }
        self.set_fee(true, &nobody, cur + amount);
        Ok(false)
    }

    /// The fee receiver takes the accumulated fees of token `contract_id`;
    /// the returned amount is to be transferred to it, and the outcome
    /// reported to `internal_resolve_claim_fee_ft`.
    pub fn claim_fee_ft(&mut self, caller: &AccountId, contract_id: &AccountId) -> (r: Result<
        u128,
        StreamError,
    >)
        requires
            old(self).wf(),
        ensures
            final(self).wf(),
            caller@ != old(self)@.fee_receiver ==> r == Err::<u128, StreamError>(
                StreamError::NotFeeReceiver,
            ) && final(self)@ == old(self)@,
            caller@ == old(self)@.fee_receiver ==> r == Ok::<u128, StreamError>(
                old(self)@.fees.tokens[contract_id@] as u128,
            ) && final(self)@ == (LedgerView {
                fees: with_asset_fee(old(self)@.fees, false, contract_id@, 0),
                ..old(self)@
            }),
    {
        if !(*caller == self.fee_receiver) {
            return Err(StreamError::NotFeeReceiver);
        }
        let amount = self.fees.get(false, contract_id);
        self.set_fee(false, contract_id, 0);
        Ok(amount)
    }

    /// Reports the outcome of the transfer of `amount` claimed by
    /// `claim_fee_ft` for token `contract_id`: on failure the amount
    /// returns to the ledger.
    pub fn internal_resolve_claim_fee_ft(&mut self, contract_id: &AccountId, amount: u128, succeeded: bool) -> (r:
        Result<bool, StreamError>)
        requires
            old(self).wf(),
        ensures
            final(self).wf(),
            succeeded ==> r == Ok::<bool, StreamError>(true) && final(self)@ == old(self)@,
            !succeeded && old(self)@.fees.tokens[contract_id@] + amount > u128::MAX ==> r == Err::<
                bool,
                StreamError,
            >(StreamError::AmountOverflow) && final(self)@ == old(self)@,
            !succeeded && old(self)@.fees.tokens[contract_id@] + amount <= u128::MAX ==> r == Ok::<
                bool,
                StreamError,
            >(false) && final(self)@ == (LedgerView {
                fees: with_asset_fee(
                    old(self)@.fees,
                    false,
                    contract_id@,
                    old(self)@.fees.tokens[contract_id@] + amount,
                ),
                ..old(self)@
            }),
    {
        if succeeded {
            return Ok(true);
        }
        let cur = self.fees.get(false, contract_id);
        if amount > u128::MAX - cur {
            return Err(StreamError::AmountOverflow);
        }
        self.set_fee(false, contract_id, cur + amount);
        Ok(false)
    }

    /// The accumulated fees: one entry per token, then the native-asset
    /// fees under the name `native.testnet`.
    pub fn view_claimable_fee(&self) -> (r: Vec<FeeEntry>)
        requires
            self.wf(),
        ensures
            r@.len() >= 1,
            forall|t: Seq<char>| #[trigger] fee_of(r@.drop_last(), t) == self@.fees.tokens[t],
            r@.last().token@ == NATIVE_FEE_NAME@,
            r@.last().amount == self@.fees.native,
    {
        let mut out = self.fees.token_entries();
        let ghost tokens = out@;
        let nobody = AccountId::new(String::new());
        let native = self.fees.get(true, &nobody);
        out.push(FeeEntry { token: AccountId::new(NATIVE_FEE_NAME.to_owned()), amount: native });
        assert(out@.drop_last() =~= tokens);
        out
    }

    /// The manager deletes the streams `stream_ids`, each of which must have
    /// ended before `now`, hold no balance and have no transfer in flight.
    /// An identifier that is unknown, or named twice, makes the whole
    /// deletion fail.
    pub fn delete_streams(&mut self, caller: &AccountId, stream_ids: Vec<u64>, now: u64) -> (r: Result<
        (),
        StreamError,
    >)
        requires
            old(self).wf(),
        ensures
            final(self).wf(),
            r == if caller@ != old(self)@.manager {
                Err::<(), StreamError>(StreamError::NotManager)
            } else if now < old(self)@.clock {
                Err(StreamError::ClockWentBackwards)
            } else {
                match first_deletion_failure(old(self)@, stream_ids@, now, 0) {
                    Some(e) => Err(e),
                    None => Ok(()),
                }
            },
            r is Err ==> final(self)@ == old(self)@,
            r is Ok ==> final(self)@ == (LedgerView {
                streams: old(self)@.streams.remove_keys(stream_ids@.to_set()),
                clock: now,
                ..old(self)@
            }),
    {
        self.assert_manager(caller)?;
        if now < self.clock {
            return Err(StreamError::ClockWentBackwards);
        }
        let ghost v = self@;
        let ghost ids = stream_ids@;
        let mut i: usize = 0;
        while i < stream_ids.len()
            invariant
                self.wf(),
                self@ == v,
                v == old(self)@,
                caller@ == v.manager,
                v.clock <= now,
                ids == stream_ids@,
                i <= ids.len(),
                forall|k: int| 0 <= k < i ==> deletion_failure(v, ids, now, k) is None,
            decreases ids.len() - i,
        {
            let id = stream_ids[i];
            let mut j: usize = 0;
            while j < i
                invariant
                    self.wf(),
                    self@ == v,
                    v == old(self)@,
                    caller@ == v.manager,
                    v.clock <= now,
                    forall|k: int| 0 <= k < i ==> deletion_failure(v, ids, now, k) is None,
                    ids == stream_ids@,
                    i < ids.len(),
                    id == ids[i as int],
                    j <= i,
                    forall|m: int| 0 <= m < j ==> ids[m] != id,
                decreases i - j,
            {
                if stream_ids[j] == id {
                    proof {
                        assert(0 <= j < i && ids[j as int] == ids[i as int]);
                        assert(deletion_failure(v, ids, now, i as int) == Some(
                            StreamError::StreamNotFound,
                        ));
                        lemma_first_failure_at(v, ids, now, i as int);
                    }
                    return Err(StreamError::StreamNotFound);
                }
                j = j + 1;
            }
            let failure = match self.stream_ref(id) {
                None => Some(StreamError::StreamNotFound),
                Some(s) => if s.locked {
                    Some(StreamError::Locked)
                } else if !(s.end_time < now && s.balance == 0) {
                    Some(StreamError::NotRemovable)
                } else {
                    None
                },
            };
            assert(failure == deletion_failure(v, ids, now, i as int));
            if let Some(e) = failure {
                proof {
                    lemma_first_failure_at(v, ids, now, i as int);
                }
                return Err(e);
            }
            i = i + 1;
        }
        proof {
            lemma_first_failure_at(v, ids, now, ids.len() as int);
            lemma_ledger_later(v, now);
        }
        self.clock = now;
        assert(self@.streams =~= v.streams.remove_keys(id_set(ids, 0)));
        let mut i: usize = 0;
        while i < stream_ids.len()
            invariant
                ids == stream_ids@,
                i <= ids.len(),
                forall|k: int| 0 <= k < ids.len() ==> deletion_failure(v, ids, now, k) is None,
                ledger_wf(LedgerView { clock: now, ..v }),
                self.fees.wf(),
                self@ == (LedgerView {
                    streams: v.streams.remove_keys(id_set(ids, i as int)),
                    clock: now,
                    ..v
                }),
            decreases ids.len() - i,
        {
            let ghost before = self@.streams;
            self.streams.remove(&stream_ids[i]);
            assert(id_set(ids, i + 1) =~= id_set(ids, i as int).insert(ids[i as int])) by {
                assert forall|k: u64| id_set(ids, i + 1).contains(k) implies id_set(
                    ids,
                    i as int,
                ).insert(ids[i as int]).contains(k) by {
                    let q = choose|q: int| 0 <= q < i + 1 && ids[q] == k;
                    if q < i {
                        assert(id_set(ids, i as int).contains(k));
                    }
                }
                assert forall|k: u64| id_set(ids, i as int).insert(ids[i as int]).contains(k) implies id_set(
                    ids,
                    i + 1,
                ).contains(k) by {
                    if k == ids[i as int] {
                        assert(0 <= i < i + 1 && ids[i as int] == k);
                    } else {
                        let q = choose|q: int| 0 <= q < i && ids[q] == k;
                        assert(0 <= q < i + 1 && ids[q] == k);
                    }
                }
            }
            assert(self@.streams =~= v.streams.remove_keys(id_set(ids, i + 1)));
            i = i + 1;
        }
        assert(id_set(ids, ids.len() as int) =~= ids.to_set());
        proof {
            let v2 = self@;
            let vl = LedgerView { clock: now, ..v };
            assert forall|k: u64| #[trigger] v2.streams.contains_key(k) implies {
                &&& stream_wf(v2.streams[k], v2.clock)
                &&& v2.streams[k].id == k
                &&& k < v2.current_id
                &&& (v2.streams[k].locked <==> v2.pending.contains_key(k))
            } by {
                assert(vl.streams.contains_key(k));
            }
            assert forall|k: u64| #[trigger] v2.pending.contains_key(k) implies {
                &&& v2.streams.contains_key(k)
                &&& pending_wf(v2.pending[k], v2.streams[k], v2.clock)
            } by {
                assert(vl.pending.contains_key(k));
                assert(v.streams[k].locked);
                if id_set(ids, ids.len() as int).contains(k) {
                    let q = choose|q: int| 0 <= q < ids.len() && ids[q] == k;
                    assert(deletion_failure(v, ids, now, q) is None);
                }
            }
            assert forall|t: Seq<char>| #[trigger] v2.fees.tokens.contains_key(t) && 0
                <= v2.fees.tokens[t] <= u128::MAX by {
                assert(vl.fees.tokens.contains_key(t));
            }
        }
        Ok(())
    }
}

} // verus!
