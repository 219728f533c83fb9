//! Properties that relate several operations of the ledger, proved over
//! the model that the operations' contracts are stated in.
use crate::fees::{fee_for, FEE_BPS_DIVISOR};
use crate::model::{
    cancel_outcome, claim_outcome, ledger_wf, locked_with, pause_outcome, resolve_outcome,
    resume_outcome, withdraw_outcome, LedgerView, TransferKind,
};
use crate::stream::{lifetime_payout, min_time, Stream};
use crate::error::StreamError;
use vstd::prelude::*;

verus! {

/// No stream of a consistent ledger holds more than was deposited into it.
/// Every operation keeps the ledger consistent, so this holds at all times.
pub proof fn lemma_balance_within_deposit(v: LedgerView, id: u64)
    requires
        ledger_wf(v),
        v.streams.contains_key(id),
    ensures
        0 <= v.streams[id].balance <= v.streams[id].total_amount,
{
}

/// A tentative mutation that locks stream `id`, followed by the report that
/// its transfer failed, restores the streams, the journal and the fee ledger
/// exactly; only the clock has moved on.
proof fn lemma_locked_rollback(
    v: LedgerView,
    id: u64,
    s2: Stream,
    kind: TransferKind,
    fee: int,
    now: u64,
)
    requires
        ledger_wf(v),
        v.streams.contains_key(id),
        !v.streams[id].locked,
        0 <= fee,
        v.streams[id].is_native ==> v.fees.native + fee <= u128::MAX,
        !v.streams[id].is_native ==> v.fees.tokens[v.streams[id].contract_id@] + fee <= u128::MAX,
    ensures
        resolve_outcome(locked_with(v, id, s2, kind, fee, now), id, kind, false) == Ok::<
            (LedgerView, bool),
            StreamError,
        >((LedgerView { clock: now, ..v }, false)),
{
    let v1 = locked_with(v, id, s2, kind, fee, now);
    let s = v.streams[id];
    assert(!v.pending.contains_key(id));
    assert(v.fees.tokens.contains_key(s.contract_id@));
    let v2 = resolve_outcome(v1, id, kind, false)->Ok_0.0;
    assert(v2.streams =~= v.streams);
    assert(v2.pending =~= v.pending);
    assert(v2.fees.tokens =~= v.fees.tokens);
    assert(v2 =~= LedgerView { clock: now, ..v });
}

/// A withdrawal whose transfer fails leaves every stream, the journal and
/// the fee ledger exactly as they were before the withdrawal.
pub proof fn lemma_withdraw_rollback(v: LedgerView, id: u64, caller: Seq<char>, now: u64)
    requires
        ledger_wf(v),
        withdraw_outcome(v, id, caller, now) is Ok,
    ensures
        ({
            let v1 = withdraw_outcome(v, id, caller, now)->Ok_0.0;
            resolve_outcome(v1, id, TransferKind::Withdraw, false) == Ok::<
                (LedgerView, bool),
                StreamError,
            >((LedgerView { clock: now, ..v }, false))
        }),
{
    let s = v.streams[id];
    assert(v.fees.tokens.contains_key(s.contract_id@));
    if caller == s.sender@ {
        lemma_locked_rollback(v, id, crate::stream::refunded_at(s, now), TransferKind::Withdraw, 0, now);
    } else {
        let fee = fee_for(crate::stream::receiver_owed(s, now), v.fee_rate as int);
        assert(0 <= fee) by (nonlinear_arith)
            requires
                fee == fee_for(crate::stream::receiver_owed(s, now), v.fee_rate as int),
                0 <= crate::stream::receiver_owed(s, now),
                0 <= v.fee_rate,
        ;
        lemma_locked_rollback(v, id, crate::stream::collected_at(s, now), TransferKind::Withdraw, fee, now);
    }
}

/// A cancellation whose transfer fails is undone exactly: the stream is
/// running again with its balance, credited time and payouts restored, and
/// the fee ledger is as before.
pub proof fn lemma_cancel_rollback(v: LedgerView, id: u64, caller: Seq<char>, now: u64)
    requires
        ledger_wf(v),
        cancel_outcome(v, id, caller, now) matches Ok((_, Some(_))),
    ensures
        ({
            let v1 = cancel_outcome(v, id, caller, now)->Ok_0.0;
            resolve_outcome(v1, id, TransferKind::Cancel, false) == Ok::<
                (LedgerView, bool),
                StreamError,
            >((LedgerView { clock: now, ..v }, false))
        }),
{
    let s = v.streams[id];
    assert(v.fees.tokens.contains_key(s.contract_id@));
    let fee = fee_for(crate::stream::receiver_owed(s, now), v.fee_rate as int);
    assert(0 <= fee) by (nonlinear_arith)
        requires
            fee == fee_for(crate::stream::receiver_owed(s, now), v.fee_rate as int),
            0 <= crate::stream::receiver_owed(s, now),
            0 <= v.fee_rate,
    ;
    lemma_locked_rollback(v, id, crate::stream::cancelled_at(s, now), TransferKind::Cancel, fee, now);
}

/// A claim whose transfer fails returns the whole balance to the stream and
/// changes nothing else.
pub proof fn lemma_claim_rollback(v: LedgerView, id: u64, caller: Seq<char>)
    requires
        ledger_wf(v),
        claim_outcome(v, id, caller) is Ok,
    ensures
        ({
            let v1 = claim_outcome(v, id, caller)->Ok_0.0;
            resolve_outcome(v1, id, TransferKind::Claim, false) == Ok::<
                (LedgerView, bool),
                StreamError,
            >((v, false))
        }),
{
    let s = v.streams[id];
    assert(v.fees.tokens.contains_key(s.contract_id@));
    lemma_locked_rollback(v, id, crate::stream::claimed(s), TransferKind::Claim, 0, v.clock);
    assert(LedgerView { clock: v.clock, ..v } == v);
}

/// Once a withdrawal has started a transfer, every further withdrawal from
/// that stream is refused, as locked, until the transfer's outcome is
/// reported (or, given an earlier time, because the clock went backwards).
pub proof fn lemma_no_double_withdraw(
    v: LedgerView,
    id: u64,
    caller: Seq<char>,
    now: u64,
    caller2: Seq<char>,
    now2: u64,
)
    requires
        ledger_wf(v),
        withdraw_outcome(v, id, caller, now) is Ok,
    ensures
        ({
            let v1 = withdraw_outcome(v, id, caller, now)->Ok_0.0;
            &&& v1.streams[id].locked
            &&& withdraw_outcome(v1, id, caller2, now2) is Err
            &&& now <= now2 ==> withdraw_outcome(v1, id, caller2, now2) == Err::<
                (LedgerView, crate::model::Transfer),
                StreamError,
            >(StreamError::Locked)
        }),
{
}

/// Pausing at `p` and resuming at `r` lowers what the receiver collects
/// over the stream's life by exactly the rate times the paused time
/// `min(r, end) - p`, compared with never pausing.
pub proof fn lemma_pause_resume_payout(
    v: LedgerView,
    id: u64,
    sender: Seq<char>,
    p: u64,
    r: u64,
)
    requires
        ledger_wf(v),
        pause_outcome(v, id, sender, p) is Ok,
        resume_outcome(pause_outcome(v, id, sender, p)->Ok_0.0, id, sender, r) is Ok,
    ensures
        ({
            let s = v.streams[id];
            let v1 = pause_outcome(v, id, sender, p)->Ok_0.0;
            let v2 = resume_outcome(v1, id, sender, r)->Ok_0.0;
            lifetime_payout(v2.streams[id]) == lifetime_payout(s) - s.rate * (min_time(
                r,
                s.end_time,
            ) - p)
        }),
{
    let s = v.streams[id];
    let d = min_time(r, s.end_time) - p;
    assert(p <= r);
    assert(s.withdraw_time + d <= s.end_time);
    let w = s.withdraw_time as int;
    let rate = s.rate as int;
    assert(rate * (s.end_time - (w + d)) == rate * (s.end_time - w) - rate * d) by (nonlinear_arith);
}

/// Cancelling a stream before it starts pays the receiver nothing and
/// starts no transfer; the whole balance stays for the sender, and the
/// sender's claim then pays out all of it.
pub proof fn lemma_cancel_before_start(v: LedgerView, id: u64, sender: Seq<char>, now: u64)
    requires
        ledger_wf(v),
        cancel_outcome(v, id, sender, now) is Ok,
        now < v.streams[id].start_time,
    ensures
        ({
            let s = v.streams[id];
            let v1 = cancel_outcome(v, id, sender, now)->Ok_0.0;
            &&& cancel_outcome(v, id, sender, now)->Ok_0.1 is None
            &&& v1.streams[id].balance == s.balance
            &&& v1.streams[id].withdrawn_amount == s.withdrawn_amount
            &&& v1.fees == v.fees
            &&& s.balance > 0 ==> (claim_outcome(v1, id, sender) matches Ok((_, t)) && t.amount
                == s.balance && t.recipient == s.sender)
        }),
{
    let s = v.streams[id];
    assert(v.streams.contains_key(id));
    assert(crate::stream::receiver_elapsed(s, now) == 0);
    assert(crate::stream::receiver_owed(s, now) == 0);
    let v1 = cancel_outcome(v, id, sender, now)->Ok_0.0;
    assert(v1.streams[id] == crate::stream::cancelled_at(s, now));
}

/// A payout whose fee, at the configured rate, is less than one unit
/// carries no fee; a larger one carries exactly the floor of the rate
/// times the amount.
pub proof fn lemma_fee_threshold(amount: int, fee_rate: int)
    requires
        0 <= amount,
        0 <= fee_rate,
    ensures
        amount * fee_rate < FEE_BPS_DIVISOR ==> fee_for(amount, fee_rate) == 0,
        fee_for(amount, fee_rate) * FEE_BPS_DIVISOR <= amount * fee_rate,
        amount * fee_rate < (fee_for(amount, fee_rate) + 1) * FEE_BPS_DIVISOR,
{
    let d = FEE_BPS_DIVISOR as int;
    vstd::arithmetic::div_mod::lemma_fundamental_div_mod(amount * fee_rate, d);
    assert(0 <= amount * fee_rate) by (nonlinear_arith)
        requires
            0 <= amount,
            0 <= fee_rate,
    ;
    if amount * fee_rate < d {
        vstd::arithmetic::div_mod::lemma_basic_div(amount * fee_rate, d);
    }
}

} // verus!
