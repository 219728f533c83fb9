//! The ledger as a state machine over mathematical values: each operation
//! is a function from a state and its inputs to either an error, which
//! leaves the state as it was, or a new state and a result.
use crate::account::AccountId;
use crate::error::StreamError;
use crate::fees::{asset_fee, fee_for, with_asset_fee, FeeView, FEE_BPS_DIVISOR};
use crate::stream::{
    cancelled_at, claimed, collected_at, fresh_stream, paused_at, receiver_owed, refunded_at,
    resumed_at, sender_refund, stream_wf, Stream, MAX_RATE,
};
use vstd::prelude::*;

verus! {

/// Which operation started a transfer.
#[derive(Clone, Copy, Debug, PartialEq, Eq, Structural)]
pub enum TransferKind {
    Withdraw,
    Cancel,
    Claim,
}

/// A transfer that the caller of the ledger must now perform. Its outcome
/// is reported back through the matching `internal_resolve_*` operation.
pub struct Transfer {
    pub stream_id: u64,
    pub recipient: AccountId,
    pub amount: u128,
    pub is_native: bool,
    /// The token contract, for a fungible-asset stream.
    pub contract_id: AccountId,
}

/// The journal entry of a transfer in flight: the stream as it was before
/// the attempt, and the fee credited by it.
pub struct PendingTransfer {
    pub kind: TransferKind,
    pub prior: Stream,
    pub fee: u128,
}

/// The state of the ledger.
pub struct LedgerView {
    pub current_id: u64,
    pub streams: Map<u64, Stream>,
    pub pending: Map<u64, PendingTransfer>,
    pub fees: FeeView,
    pub fee_rate: u64,
    pub max_fee_rate: u64,
    /// The latest time an operation ran at.
    pub clock: u64,
    pub owner: Seq<char>,
    pub manager: Seq<char>,
    pub fee_receiver: Seq<char>,
    pub whitelist: Seq<Seq<char>>,
}

pub open spec fn pending_wf(p: PendingTransfer, s: Stream, t: u64) -> bool {
    &&& stream_wf(p.prior, t)
    &&& !p.prior.locked
    &&& p.prior.id == s.id
    &&& p.prior.is_native == s.is_native
    &&& p.prior.contract_id == s.contract_id
}

/// The invariant of the ledger.
pub open spec fn ledger_wf(v: LedgerView) -> bool {
    &&& v.fee_rate <= v.max_fee_rate <= FEE_BPS_DIVISOR
    &&& v.whitelist.no_duplicates()
    &&& 0 <= v.fees.native <= u128::MAX
    &&& forall|t: Seq<char>| #[trigger]
        v.fees.tokens.contains_key(t) && 0 <= v.fees.tokens[t] <= u128::MAX
    &&& forall|id: u64| #[trigger]
        v.streams.contains_key(id) ==> {
            &&& stream_wf(v.streams[id], v.clock)
            &&& v.streams[id].id == id
            &&& id < v.current_id
            &&& (v.streams[id].locked <==> v.pending.contains_key(id))
        }
    &&& forall|id: u64| #[trigger]
        v.pending.contains_key(id) ==> {
            &&& v.streams.contains_key(id)
            &&& pending_wf(v.pending[id], v.streams[id], v.clock)
        }
}

/// The fee ledger with `fee` added for the stream's asset.
pub open spec fn credit_fee(fees: FeeView, s: Stream, fee: int) -> FeeView {
    with_asset_fee(
        fees,
        s.is_native,
        s.contract_id@,
        asset_fee(fees, s.is_native, s.contract_id@) + fee,
    )
}

/// The fee ledger with `fee` taken back from the stream's asset, down to zero.
pub open spec fn refund_fee(fees: FeeView, s: Stream, fee: int) -> FeeView {
    let cur = asset_fee(fees, s.is_native, s.contract_id@);
    with_asset_fee(fees, s.is_native, s.contract_id@, if cur >= fee { cur - fee } else { 0 })
}

/// The state after stream `id` becomes `s2`, with a transfer in flight.
pub open spec fn locked_with(
    v: LedgerView,
    id: u64,
    s2: Stream,
    kind: TransferKind,
    fee: int,
    now: u64,
) -> LedgerView {
    LedgerView {
        streams: v.streams.insert(id, Stream { locked: true, ..s2 }),
        pending: v.pending.insert(id, PendingTransfer { kind, prior: v.streams[id], fee: fee as u128 }),
        fees: credit_fee(v.fees, v.streams[id], fee),
        clock: now,
        ..v
    }
}

pub open spec fn payout(id: u64, s: Stream, to: AccountId, amount: int) -> Transfer {
    Transfer {
        stream_id: id,
        recipient: to,
        amount: amount as u128,
        is_native: s.is_native,
        contract_id: s.contract_id,
    }
}

/// Withdrawal by the receiver of what accrued, or by the sender, after the
/// end, of what is not owed to the receiver.
pub open spec fn withdraw_outcome(v: LedgerView, id: u64, caller: Seq<char>, now: u64) -> Result<
    (LedgerView, Transfer),
    StreamError,
> {
    let s = v.streams[id];
    if now < v.clock {
        Err(StreamError::ClockWentBackwards)
    } else if !v.streams.contains_key(id) {
        Err(StreamError::StreamNotFound)
    } else if s.locked {
        Err(StreamError::Locked)
    } else if s.balance == 0 {
        Err(StreamError::NoBalance)
    } else if s.is_cancelled {
        Err(StreamError::AlreadyCancelled)
    } else if now <= s.start_time {
        Err(StreamError::NotStarted)
    } else if caller != s.sender@ && caller != s.receiver@ {
        Err(StreamError::Unauthorized)
    } else if caller == s.sender@ {
        if now <= s.end_time {
            Err(StreamError::NotEnded)
        } else if sender_refund(s, now) <= 0 {
            Err(StreamError::AlreadyWithdrawn)
        } else {
            Ok(
                (
                    locked_with(v, id, refunded_at(s, now), TransferKind::Withdraw, 0, now),
                    payout(id, s, s.sender, sender_refund(s, now)),
                ),
            )
        }
    } else {
        let owed = receiver_owed(s, now);
        let fee = fee_for(owed, v.fee_rate as int);
        if now >= s.end_time && s.withdraw_time >= s.end_time {
            Err(StreamError::AlreadyWithdrawn)
        } else if owed == 0 {
            Err(StreamError::NothingToWithdraw)
        } else if asset_fee(v.fees, s.is_native, s.contract_id@) + fee > u128::MAX {
            Err(StreamError::AmountOverflow)
        } else {
            Ok(
                (
                    locked_with(v, id, collected_at(s, now), TransferKind::Withdraw, fee, now),
                    payout(id, s, s.receiver, owed - fee),
                ),
            )
        }
    }
}

/// The state with stream `id` replaced by `s2` and the clock at `now`.
pub open spec fn with_stream(v: LedgerView, id: u64, s2: Stream, now: u64) -> LedgerView {
    LedgerView { streams: v.streams.insert(id, s2), clock: now, ..v }
}

/// Cancellation by the sender before the end: the receiver is paid what
/// accrued, less the fee; the rest stays for the sender to claim.
pub open spec fn cancel_outcome(v: LedgerView, id: u64, caller: Seq<char>, now: u64) -> Result<
    (LedgerView, Option<Transfer>),
    StreamError,
> {
    let s = v.streams[id];
    let owed = receiver_owed(s, now);
    let fee = fee_for(owed, v.fee_rate as int);
    if now < v.clock {
        Err(StreamError::ClockWentBackwards)
    } else if !v.streams.contains_key(id) {
        Err(StreamError::StreamNotFound)
    } else if s.locked {
        Err(StreamError::Locked)
    } else if !s.can_cancel {
        Err(StreamError::CannotCancel)
    } else if caller != s.sender@ {
        Err(StreamError::Unauthorized)
    } else if s.end_time <= now {
        Err(StreamError::AlreadyEnded)
    } else if s.is_cancelled {
        Err(StreamError::AlreadyCancelled)
    } else if owed == 0 {
        Ok((with_stream(v, id, cancelled_at(s, now), now), None))
    } else if asset_fee(v.fees, s.is_native, s.contract_id@) + fee > u128::MAX {
        Err(StreamError::AmountOverflow)
    } else {
        Ok(
            (
                locked_with(v, id, cancelled_at(s, now), TransferKind::Cancel, fee, now),
                Some(payout(id, s, s.receiver, owed - fee)),
            ),
        )
    }
}

/// The sender takes the whole remaining balance of a cancelled stream.
pub open spec fn claim_outcome(v: LedgerView, id: u64, caller: Seq<char>) -> Result<
    (LedgerView, Transfer),
    StreamError,
> {
    let s = v.streams[id];
    if !v.streams.contains_key(id) {
        Err(StreamError::StreamNotFound)
    } else if s.locked {
        Err(StreamError::Locked)
    } else if caller != s.sender@ {
        Err(StreamError::Unauthorized)
    } else if !s.is_cancelled {
        Err(StreamError::NotCancelled)
    } else if s.balance == 0 {
        Err(StreamError::NoBalance)
    } else {
        Ok(
            (
                locked_with(v, id, claimed(s), TransferKind::Claim, 0, v.clock),
                payout(id, s, s.sender, s.balance as int),
            ),
        )
    }
}

/// The sender pauses a running stream.
pub open spec fn pause_outcome(v: LedgerView, id: u64, caller: Seq<char>, now: u64) -> Result<
    (LedgerView, ()),
    StreamError,
> {
    let s = v.streams[id];
    if now < v.clock {
        Err(StreamError::ClockWentBackwards)
    } else if !v.streams.contains_key(id) {
        Err(StreamError::StreamNotFound)
    } else if s.locked {
        Err(StreamError::Locked)
    } else if caller != s.sender@ {
        Err(StreamError::Unauthorized)
    } else if s.is_cancelled {
        Err(StreamError::AlreadyCancelled)
    } else if s.is_paused {
        Err(StreamError::AlreadyPaused)
    } else if !(s.start_time < now && now < s.end_time) {
        Err(StreamError::OutsidePauseWindow)
    } else {
        Ok((with_stream(v, id, paused_at(s, now), now), ()))
    }
}

/// The sender resumes a paused stream.
pub open spec fn resume_outcome(v: LedgerView, id: u64, caller: Seq<char>, now: u64) -> Result<
    (LedgerView, ()),
    StreamError,
> {
    let s = v.streams[id];
    if now < v.clock {
        Err(StreamError::ClockWentBackwards)
    } else if !v.streams.contains_key(id) {
        Err(StreamError::StreamNotFound)
    } else if s.locked {
        Err(StreamError::Locked)
    } else if caller != s.sender@ {
        Err(StreamError::Unauthorized)
    } else if !s.is_paused {
        Err(StreamError::NotPaused)
    } else if s.is_cancelled {
        Err(StreamError::AlreadyCancelled)
    } else {
        Ok((with_stream(v, id, resumed_at(s, now), now), ()))
    }
}

/// The outcome of a transfer of kind `kind` for stream `id` is reported:
/// on success the stream is unlocked; on failure the stream returns to its
/// journaled prior state and the fee credited by the attempt is taken back.
pub open spec fn resolve_outcome(v: LedgerView, id: u64, kind: TransferKind, succeeded: bool) -> Result<
    (LedgerView, bool),
    StreamError,
> {
    let p = v.pending[id];
    if !v.pending.contains_key(id) || p.kind != kind {
        Err(StreamError::NoPendingTransfer)
    } else if succeeded {
        Ok(
            (
                LedgerView {
                    streams: v.streams.insert(id, Stream { locked: false, ..v.streams[id] }),
                    pending: v.pending.remove(id),
                    ..v
                },
                true,
            ),
        )
    } else {
        Ok(
            (
                LedgerView {
                    streams: v.streams.insert(id, p.prior),
                    pending: v.pending.remove(id),
                    fees: refund_fee(v.fees, p.prior, p.fee as int),
                    ..v
                },
                false,
            ),
        )
    }
}

/// Why stream parameters are refused at `now`, checked in order; `None`
/// when they are valid.
pub open spec fn validation_error(
    v: LedgerView,
    sender: Seq<char>,
    receiver: Seq<char>,
    rate: u128,
    start: u64,
    end: u64,
    now: u64,
) -> Option<StreamError> {
    if now < v.clock {
        Some(StreamError::ClockWentBackwards)
    } else if receiver == sender {
        Some(StreamError::SameSenderAndReceiver)
    } else if start < now {
        Some(StreamError::StartInPast)
    } else if end < start {
        Some(StreamError::EndBeforeStart)
    } else if rate == 0 {
        Some(StreamError::ZeroRate)
    } else if rate >= MAX_RATE {
        Some(StreamError::RateTooHigh)
    } else if rate * (end - start) > u128::MAX {
        Some(StreamError::AmountOverflow)
    } else {
        None
    }
}

/// Why creating a stream with `deposit` is refused; `None` when it succeeds.
pub open spec fn creation_error(
    v: LedgerView,
    sender: Seq<char>,
    receiver: Seq<char>,
    rate: u128,
    start: u64,
    end: u64,
    deposit: u128,
    now: u64,
) -> Option<StreamError> {
    if validation_error(v, sender, receiver, rate, start, end, now) is Some {
        validation_error(v, sender, receiver, rate, start, end, now)
    } else if v.current_id == u64::MAX {
        Some(StreamError::IdsExhausted)
    } else if deposit != rate * (end - start) {
        Some(StreamError::DepositMismatch)
    } else {
        None
    }
}

/// `v2` is `v` with one new stream under the next identifier.
pub open spec fn created(
    v: LedgerView,
    v2: LedgerView,
    sender: Seq<char>,
    receiver: Seq<char>,
    rate: u128,
    start: u64,
    end: u64,
    can_cancel: bool,
    can_update: bool,
    is_native: bool,
    contract: Seq<char>,
    now: u64,
) -> bool {
    let id = v.current_id;
    &&& v2 == LedgerView {
        streams: v.streams.insert(id, v2.streams[id]),
        current_id: (id + 1) as u64,
        clock: now,
        ..v
    }
    &&& fresh_stream(
        v2.streams[id],
        id,
        sender,
        receiver,
        rate,
        start,
        end,
        can_cancel,
        can_update,
        is_native,
        contract,
        now,
    )
}

/// The stream with a new schedule, topped up by `added`.
pub open spec fn rescheduled(s: Stream, start: u64, end: u64, rate: u128, added: int) -> Stream {
    Stream {
        start_time: start,
        withdraw_time: start,
        end_time: end,
        rate,
        balance: (s.balance + added) as u128,
        total_amount: (s.total_amount + added) as u128,
        ..s
    }
}

/// The sender changes the schedule of a native stream that has not started,
/// topping its balance up by `deposit` when the new schedule needs more.
pub open spec fn update_outcome(
    v: LedgerView,
    id: u64,
    caller: Seq<char>,
    start: Option<u64>,
    end: Option<u64>,
    rate: Option<u128>,
    deposit: u128,
    now: u64,
) -> Result<(LedgerView, ()), StreamError> {
    let s = v.streams[id];
    let st = match start {
        Some(x) => x,
        None => s.start_time,
    };
    let en = match end {
        Some(x) => x,
        None => s.end_time,
    };
    let rt = match rate {
        Some(x) => x,
        None => s.rate,
    };
    let amount = rt * (en - st);
    if now < v.clock {
        Err(StreamError::ClockWentBackwards)
    } else if !v.streams.contains_key(id) {
        Err(StreamError::StreamNotFound)
    } else if !s.is_native {
        Err(StreamError::NotNative)
    } else if s.locked {
        Err(StreamError::Locked)
    } else if caller != s.sender@ {
        Err(StreamError::Unauthorized)
    } else if !s.can_update {
        Err(StreamError::CannotUpdate)
    } else if s.is_cancelled {
        Err(StreamError::AlreadyCancelled)
    } else if s.start_time <= now {
        Err(StreamError::AlreadyStarted)
    } else if st >= en {
        Err(StreamError::StartNotBeforeEnd)
    } else if st != s.start_time && st < now {
        Err(StreamError::StartInPast)
    } else if rt == 0 {
        Err(StreamError::ZeroRate)
    } else if rt >= MAX_RATE {
        Err(StreamError::RateTooHigh)
    } else if amount > u128::MAX {
        Err(StreamError::AmountOverflow)
    } else if amount > s.balance {
        if deposit < amount - s.balance {
            Err(StreamError::InsufficientDeposit)
        } else if s.balance + deposit > u128::MAX || s.total_amount + deposit > u128::MAX {
            Err(StreamError::AmountOverflow)
        } else {
            Ok((with_stream(v, id, rescheduled(s, st, en, rt, deposit as int), now), ()))
        }
    } else if deposit != 1 {
        Err(StreamError::OneUnitRequired)
    } else {
        Ok((with_stream(v, id, rescheduled(s, st, en, rt, 0), now), ()))
    }
}

/// The account names of `tokens`.
pub open spec fn names(tokens: Seq<AccountId>) -> Seq<Seq<char>> {
    tokens.map_values(|a: AccountId| a@)
}

/// Why deleting `ids[i]` fails once the identifiers before it are deleted.
pub open spec fn deletion_failure(v: LedgerView, ids: Seq<u64>, now: u64, i: int) -> Option<
    StreamError,
> {
    let id = ids[i];
    let s = v.streams[id];
    if !v.streams.contains_key(id) || exists|j: int| 0 <= j < i && ids[j] == id {
        Some(StreamError::StreamNotFound)
    } else if s.locked {
        Some(StreamError::Locked)
    } else if !(s.end_time < now && s.balance == 0) {
        Some(StreamError::NotRemovable)
    } else {
        None
    }
}

/// The first failure when deleting `ids` from position `i` on.
pub open spec fn first_deletion_failure(v: LedgerView, ids: Seq<u64>, now: u64, i: int) -> Option<
    StreamError,
>
    decreases ids.len() - i,
{
    if i >= ids.len() || i < 0 {
        None
    } else if deletion_failure(v, ids, now, i) is Some {
        deletion_failure(v, ids, now, i)
    } else {
        first_deletion_failure(v, ids, now, i + 1)
    }
}

/// Removing the tokens named `n`, one after another, from the list `w`
/// meets one that is not listed at its turn.
pub open spec fn removal_refused(w: Seq<Seq<char>>, n: Seq<Seq<char>>) -> bool {
    exists|i: int|
        0 <= i < n.len() && (!w.contains(#[trigger] n[i]) || exists|j: int| 0 <= j < i && n[j] == n[i])
}

/// The result of an operation agrees with its outcome in the model.
pub open spec fn follows<R>(
    pre: LedgerView,
    post: LedgerView,
    r: Result<R, StreamError>,
    o: Result<(LedgerView, R), StreamError>,
) -> bool {
    match o {
        Ok((v, x)) => post == v && r == Ok::<R, StreamError>(x),
        Err(e) => post == pre && r == Err::<R, StreamError>(e),
    }
}

} // verus!
