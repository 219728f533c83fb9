use crate::account::AccountId;
use vstd::prelude::*;

verus! {

/// The ceiling on a stream's rate, in the asset's smallest unit per second.
pub const MAX_RATE: u128 = 10_000_000_000_000_000_000_000_000;

/// A time-bounded, rate-based entitlement of a receiver to funds deposited
/// by a sender.
pub struct Stream {
    pub id: u64,
    pub sender: AccountId,
    pub receiver: AccountId,
    /// Funds still held for this stream.
    pub balance: u128,
    /// Amount accrued to the receiver per second.
    pub rate: u128,
    pub created: u64,
    pub start_time: u64,
    pub end_time: u64,
    /// The time up to which the receiver has been credited.
    pub withdraw_time: u64,
    pub is_paused: bool,
    pub is_cancelled: bool,
    /// When the stream was last paused; zero while it runs.
    pub paused_time: u64,
    /// The token contract of a fungible-asset stream.
    pub contract_id: AccountId,
    pub can_update: bool,
    pub can_cancel: bool,
    pub is_native: bool,
    /// Set while a transfer initiated by this stream is in flight.
    pub locked: bool,
    /// What the receiver forwent through pauses.
    pub paused_amount: u128,
    /// Everything the sender deposited into the stream.
    pub total_amount: u128,
    /// Everything paid to the receiver.
    pub withdrawn_amount: u128,
}

impl Clone for Stream {
    fn clone(&self) -> (r: Self)
        ensures
            r == *self,
    {
        Stream {
            id: self.id,
            sender: self.sender.clone(),
            receiver: self.receiver.clone(),
            balance: self.balance,
            rate: self.rate,
            created: self.created,
            start_time: self.start_time,
            end_time: self.end_time,
            withdraw_time: self.withdraw_time,
            is_paused: self.is_paused,
            is_cancelled: self.is_cancelled,
            paused_time: self.paused_time,
            contract_id: self.contract_id.clone(),
            can_update: self.can_update,
            can_cancel: self.can_cancel,
            is_native: self.is_native,
            locked: self.locked,
            paused_amount: self.paused_amount,
            total_amount: self.total_amount,
            withdrawn_amount: self.withdrawn_amount,
        }
    }
}

pub open spec fn min_time(a: u64, b: u64) -> u64 {
    if a < b {
        a
    } else {
        b
    }
}

/// The time up to which the receiver's credit runs at `now`: the pause
/// time while paused, else `now` capped at the end of the stream.
pub open spec fn accrual_boundary(s: Stream, now: u64) -> u64 {
    if s.is_paused {
        s.paused_time
    } else {
        min_time(now, s.end_time)
    }
}

/// The receiver's credited boundary after collecting at `now`.
pub open spec fn advanced_withdraw_time(s: Stream, now: u64) -> u64 {
    if now <= s.start_time {
        s.withdraw_time
    } else {
        accrual_boundary(s, now)
    }
}

/// The time accrued to the receiver and not yet withdrawn, at `now`.
pub open spec fn receiver_elapsed(s: Stream, now: u64) -> int {
    advanced_withdraw_time(s, now) - s.withdraw_time
}

/// The amount accrued to the receiver and not yet withdrawn, at `now`.
pub open spec fn receiver_owed(s: Stream, now: u64) -> int {
    s.rate * receiver_elapsed(s, now)
}

/// The part of the balance that does not belong to the receiver at `now`.
pub open spec fn sender_refund(s: Stream, now: u64) -> int {
    s.balance - receiver_owed(s, now)
}

/// The paused time that will not accrue if the stream is resumed at `t`.
pub open spec fn pause_credit(s: Stream, t: u64) -> int {
    if s.is_paused {
        min_time(t, s.end_time) - s.paused_time
    } else {
        0
    }
}

/// What the receiver can still collect if, from `t` on, the stream runs
/// to its end without a further pause.
pub open spec fn entitlement(s: Stream, t: u64) -> int {
    s.rate * (s.end_time - s.withdraw_time - pause_credit(s, t))
}

/// Everything the receiver collects over the stream's life if it runs to
/// its end from here without a further pause.
pub open spec fn lifetime_payout(s: Stream) -> int {
    s.withdrawn_amount + s.rate * (s.end_time - s.withdraw_time)
}

/// The stream is consistent, and solvent, once the clock reads `t`.
pub open spec fn stream_wf(s: Stream, t: u64) -> bool {
    &&& s.start_time <= s.withdraw_time <= s.end_time
    &&& (s.withdraw_time == s.start_time || s.withdraw_time <= t)
    &&& 0 < s.rate
    &&& s.rate * (s.end_time - s.start_time) <= u128::MAX
    &&& s.is_paused ==> {
        &&& s.start_time < s.paused_time < s.end_time
        &&& s.withdraw_time <= s.paused_time <= t
    }
    &&& !s.is_paused ==> s.paused_time == 0
    &&& s.balance + s.withdrawn_amount <= s.total_amount
    &&& s.paused_amount + s.withdrawn_amount + s.rate * (s.end_time - s.withdraw_time)
        <= s.total_amount
    &&& !s.is_cancelled ==> entitlement(s, t) <= s.balance
    &&& t < s.start_time ==> {
        &&& s.withdraw_time == s.start_time
        &&& !s.is_paused
        &&& s.paused_amount == 0
        &&& s.withdrawn_amount == 0
    }
}

/// The stream paused at `now`.
pub open spec fn paused_at(s: Stream, now: u64) -> Stream {
    Stream { is_paused: true, paused_time: now, ..s }
}

/// The stream resumed at `now`: the paused interval is skipped over.
pub open spec fn resumed_at(s: Stream, now: u64) -> Stream {
    let skipped = min_time(now, s.end_time) - s.paused_time;
    Stream {
        is_paused: false,
        paused_time: 0,
        withdraw_time: (s.withdraw_time + skipped) as u64,
        paused_amount: (s.paused_amount + s.rate * skipped) as u128,
        ..s
    }
}

/// The receiver collects everything accrued at `now`.
pub open spec fn collected_at(s: Stream, now: u64) -> Stream {
    Stream {
        balance: (s.balance - receiver_owed(s, now)) as u128,
        withdraw_time: advanced_withdraw_time(s, now),
        withdrawn_amount: (s.withdrawn_amount + receiver_owed(s, now)) as u128,
        ..s
    }
}

/// The sender takes back, at `now`, everything not owed to the receiver.
pub open spec fn refunded_at(s: Stream, now: u64) -> Stream {
    Stream { balance: receiver_owed(s, now) as u128, ..s }
}

/// The stream cancelled at `now`: the receiver is paid what accrued, the
/// rest of the balance stays for the sender to claim.
pub open spec fn cancelled_at(s: Stream, now: u64) -> Stream {
    Stream { is_cancelled: true, ..collected_at(s, now) }
}

/// The stream whose remaining balance went to the sender.
pub open spec fn claimed(s: Stream) -> Stream {
    Stream { balance: 0, ..s }
}

/// A new stream as created from its parameters.
pub open spec fn fresh_stream(
    s: Stream,
    id: u64,
    sender: Seq<char>,
    receiver: Seq<char>,
    rate: u128,
    start: u64,
    end: u64,
    can_cancel: bool,
    can_update: bool,
    is_native: bool,
    contract: Seq<char>,
    now: u64,
) -> bool {
    &&& s.id == id
    &&& s.sender@ == sender
    &&& s.receiver@ == receiver
    &&& s.rate == rate
    &&& s.balance == rate * (end - start)
    &&& s.total_amount == s.balance
    &&& s.created == now
    &&& s.start_time == start
    &&& s.end_time == end
    &&& s.withdraw_time == start
    &&& !s.is_paused && !s.is_cancelled && !s.locked
    &&& s.paused_time == 0
    &&& s.contract_id@ == contract
    &&& s.can_cancel == can_cancel
    &&& s.can_update == can_update
    &&& s.is_native == is_native
    &&& s.paused_amount == 0
    &&& s.withdrawn_amount == 0
}

/// `r * a <= r * b` for `0 <= a <= b` and `r >= 0`.
pub proof fn lemma_mul_le(r: int, a: int, b: int)
    requires
        0 <= r,
        0 <= a <= b,
    ensures
        0 <= r * a <= r * b,
{
    assert(0 <= r * a <= r * b) by (nonlinear_arith)
        requires
            0 <= r,
            0 <= a <= b,
    ;
}

/// A stream that is consistent at one time stays so at any later time.
pub proof fn lemma_wf_later(s: Stream, t: u64, t2: u64)
    requires
        stream_wf(s, t),
        t <= t2,
    ensures
        stream_wf(s, t2),
{
    if s.is_paused {
        lemma_mul_le(
            s.rate as int,
            s.end_time - s.withdraw_time - pause_credit(s, t2),
            s.end_time - s.withdraw_time - pause_credit(s, t),
        );
    }
}

impl Stream {
    /// The time accrued to the receiver and not yet withdrawn, at `now`,
    /// with the receiver's new credited boundary.
    pub(crate) fn receiver_interval(&self, now: u64) -> (r: (u64, u64))
        requires
            stream_wf(*self, now),
        ensures
            r.0 == receiver_elapsed(*self, now),
            r.1 == advanced_withdraw_time(*self, now),
    {
        let boundary = if now <= self.start_time {
            self.withdraw_time
        } else if self.is_paused {
            self.paused_time
        } else if now < self.end_time {
            now
        } else {
            self.end_time
        };
        (boundary - self.withdraw_time, boundary)
    }

    /// The amount accrued to the receiver and not yet withdrawn, at `now`.
    pub fn withdrawable_by_receiver(&self, now: u64) -> (r: u128)
        requires
            stream_wf(*self, now),
        ensures
            r == receiver_owed(*self, now),
    {
        let (elapsed, _) = self.receiver_interval(now);
        proof {
            lemma_mul_le(self.rate as int, elapsed as int, self.end_time - self.start_time);
        }
        self.rate * (elapsed as u128)
    }

    /// The part of the balance that does not belong to the receiver at
    /// `now`; this is what the sender may take back once the stream ended.
    pub fn refundable_to_sender(&self, now: u64) -> (r: u128)
        requires
            stream_wf(*self, now),
            !self.is_cancelled,
        ensures
            r == sender_refund(*self, now),
    {
        let owed = self.withdrawable_by_receiver(now);
        proof {
            lemma_owed_within_entitlement(*self, now);
        }
        self.balance - owed
    }
}

/// What accrued is never more than what remains owed to the receiver.
pub proof fn lemma_owed_within_entitlement(s: Stream, now: u64)
    requires
        stream_wf(s, now),
    ensures
        0 <= receiver_elapsed(s, now),
        0 <= receiver_owed(s, now) <= entitlement(s, now),
{
    let e = receiver_elapsed(s, now);
    let room = s.end_time - s.withdraw_time - pause_credit(s, now);
    assert(0 <= e <= room);
    lemma_mul_le(s.rate as int, e, room);
}

/// Collecting what accrued keeps a running stream consistent.
pub proof fn lemma_collected_wf(s: Stream, now: u64)
    requires
        stream_wf(s, now),
        !s.is_cancelled,
    ensures
        0 <= receiver_owed(s, now) <= s.balance,
        s.withdrawn_amount + receiver_owed(s, now) <= s.total_amount,
        stream_wf(collected_at(s, now), now),
{
    lemma_owed_within_entitlement(s, now);
    let r = s.rate as int;
    let b = advanced_withdraw_time(s, now) as int;
    let w = s.withdraw_time as int;
    let x = s.end_time - pause_credit(s, now);
    assert(r * (x - b) + r * (b - w) == r * (x - w)) by (nonlinear_arith);
    assert(r * (s.end_time - b) + r * (b - w) == r * (s.end_time - w)) by (nonlinear_arith);
    let c = collected_at(s, now);
    assert(pause_credit(c, now) == pause_credit(s, now));
    lemma_mul_le(r, s.end_time - b, s.end_time - s.start_time);
}

/// Cancelling keeps a stream consistent.
pub proof fn lemma_cancelled_wf(s: Stream, now: u64)
    requires
        stream_wf(s, now),
        !s.is_cancelled,
    ensures
        0 <= receiver_owed(s, now) <= s.balance,
        s.withdrawn_amount + receiver_owed(s, now) <= s.total_amount,
        stream_wf(cancelled_at(s, now), now),
{
    lemma_collected_wf(s, now);
}

/// After the end, what is owed to the receiver is all the receiver can get.
pub proof fn lemma_refunded_wf(s: Stream, now: u64)
    requires
        stream_wf(s, now),
        !s.is_cancelled,
        s.end_time < now,
    ensures
        0 <= receiver_owed(s, now) <= s.balance,
        stream_wf(refunded_at(s, now), now),
{
    lemma_owed_within_entitlement(s, now);
    assert(entitlement(s, now) == receiver_owed(s, now));
    let c = refunded_at(s, now);
    assert(entitlement(c, now) == entitlement(s, now));
}

/// Handing the remaining balance to the sender keeps a stream consistent.
pub proof fn lemma_claimed_wf(s: Stream, t: u64)
    requires
        stream_wf(s, t),
        s.is_cancelled,
    ensures
        stream_wf(claimed(s), t),
{
}

/// Pausing keeps a stream consistent.
pub proof fn lemma_paused_wf(s: Stream, now: u64)
    requires
        stream_wf(s, now),
        !s.is_paused,
        s.start_time < now < s.end_time,
    ensures
        stream_wf(paused_at(s, now), now),
{
    let c = paused_at(s, now);
    assert(pause_credit(c, now) == 0);
    assert(entitlement(c, now) == entitlement(s, now));
}

/// Resuming keeps a stream consistent, and its amounts fit.
pub proof fn lemma_resumed_wf(s: Stream, now: u64)
    requires
        stream_wf(s, now),
        s.is_paused,
    ensures
        s.paused_time <= min_time(now, s.end_time),
        s.withdraw_time + (min_time(now, s.end_time) - s.paused_time) <= s.end_time,
        s.paused_amount + s.rate * (min_time(now, s.end_time) - s.paused_time) <= u128::MAX,
        stream_wf(resumed_at(s, now), now),
{
    let r = s.rate as int;
    let k = min_time(now, s.end_time) - s.paused_time;
    let w = s.withdraw_time as int;
    assert(r * k + r * (s.end_time - w - k) == r * (s.end_time - w)) by (nonlinear_arith);
    lemma_mul_le(r, s.end_time - w - k, s.end_time - s.start_time);
    lemma_mul_le(r, 0, k);
    let c = resumed_at(s, now);
    assert(entitlement(c, now) == entitlement(s, now));
}

} // verus!
