use crate::account::AccountId;
use vstd::prelude::*;

verus! {

/// Fee rates are given in basis points of this divisor.
pub const FEE_BPS_DIVISOR: u64 = 10_000;

/// The fee withheld from a payout of `amount` at `fee_rate` basis points.
pub open spec fn fee_for(amount: int, fee_rate: int) -> int {
    amount * fee_rate / FEE_BPS_DIVISOR as int
}

/// `floor(amount * fee_rate / 10_000)`, computed without overflow.
pub fn fee_amount(amount: u128, fee_rate: u64) -> (r: u128)
    requires
        fee_rate <= FEE_BPS_DIVISOR,
    ensures
        r == fee_for(amount as int, fee_rate as int),
        r <= amount,
{
    let d: u128 = FEE_BPS_DIVISOR as u128;
    let q: u128 = amount / d;
    let rem: u128 = amount % d;
    proof {
        vstd::arithmetic::div_mod::lemma_fundamental_div_mod(amount as int, d as int);
        assert(q * fee_rate <= q * d) by (nonlinear_arith)
            requires
                fee_rate <= d,
                0 <= q,
        ;
        assert(rem * fee_rate <= rem * d) by (nonlinear_arith)
            requires
                fee_rate <= d,
                0 <= rem,
        ;
        assert(amount * fee_rate == rem * fee_rate + (q * fee_rate) * d) by (nonlinear_arith)
            requires
                amount == d * q + rem,
        ;
        vstd::arithmetic::div_mod::lemma_hoist_over_denominator(
            rem * fee_rate,
            q * fee_rate,
            d as nat,
        );
        vstd::arithmetic::div_mod::lemma_div_by_multiple((rem as int), d as int);
        vstd::arithmetic::div_mod::lemma_div_is_ordered(rem * fee_rate, rem * d, d as int);
    }
    let part: u128 = rem * (fee_rate as u128) / d;
    q * (fee_rate as u128) + part
}

/// The fee accumulated for one fungible token.
pub struct FeeEntry {
    pub token: AccountId,
    pub amount: u128,
}

impl Clone for FeeEntry {
    fn clone(&self) -> (r: Self)
        ensures
            r == *self,
    {
        FeeEntry { token: self.token.clone(), amount: self.amount }
    }
}

/// The fee recorded for `token` in `entries`; zero when it has no entry.
pub open spec fn fee_of(entries: Seq<FeeEntry>, token: Seq<char>) -> int
    decreases entries.len(),
{
    if entries.len() == 0 {
        0
    } else if entries.last().token@ == token {
        entries.last().amount as int
    } else {
        fee_of(entries.drop_last(), token)
    }
}

pub open spec fn tokens_unique(entries: Seq<FeeEntry>) -> bool {
    forall|i: int, j: int|
        0 <= i < j < entries.len() ==> entries[i].token@ != entries[j].token@
}

/// The accumulated fees, per asset.
pub struct FeeView {
    pub native: int,
    pub tokens: Map<Seq<char>, int>,
}

pub open spec fn fees_of(entries: Seq<FeeEntry>) -> Map<Seq<char>, int> {
    Map::new(|t: Seq<char>| true, |t: Seq<char>| fee_of(entries, t))
}

/// The fee accumulated for an asset: the native asset, or the token `token`.
pub open spec fn asset_fee(v: FeeView, is_native: bool, token: Seq<char>) -> int {
    if is_native {
        v.native
    } else {
        v.tokens[token]
    }
}

/// The ledger with the fee of one asset replaced by `value`.
pub open spec fn with_asset_fee(v: FeeView, is_native: bool, token: Seq<char>, value: int) -> FeeView {
    if is_native {
        FeeView { native: value, ..v }
    } else {
        FeeView { tokens: v.tokens.insert(token, value), ..v }
    }
}

proof fn lemma_fee_of_absent(entries: Seq<FeeEntry>, token: Seq<char>)
    requires
        forall|i: int| 0 <= i < entries.len() ==> entries[i].token@ != token,
    ensures
        fee_of(entries, token) == 0,
    decreases entries.len(),
{
    if entries.len() > 0 {
        lemma_fee_of_absent(entries.drop_last(), token);
    }
}

proof fn lemma_fee_of_at(entries: Seq<FeeEntry>, i: int)
    requires
        tokens_unique(entries),
        0 <= i < entries.len(),
    ensures
        fee_of(entries, entries[i].token@) == entries[i].amount,
    decreases entries.len(),
{
    if i < entries.len() - 1 {
        lemma_fee_of_at(entries.drop_last(), i);
    }
}

proof fn lemma_fee_of_update(entries: Seq<FeeEntry>, i: int, e: FeeEntry, token: Seq<char>)
    requires
        tokens_unique(entries),
        0 <= i < entries.len(),
        e.token@ == entries[i].token@,
    ensures
        fee_of(entries.update(i, e), token) == if token == e.token@ {
            e.amount as int
        } else {
            fee_of(entries, token)
        },
    decreases entries.len(),
{
    let u = entries.update(i, e);
    if i < entries.len() - 1 {
        assert(u.drop_last() =~= entries.drop_last().update(i, e));
        lemma_fee_of_update(entries.drop_last(), i, e, token);
        if u.last().token@ == token {
            assert(entries.last().token@ != entries[i].token@);
        }
    } else {
        assert(u.drop_last() =~= entries.drop_last());
    }
}

proof fn lemma_fee_of_push(entries: Seq<FeeEntry>, e: FeeEntry, token: Seq<char>)
    ensures
        fee_of(entries.push(e), token) == if token == e.token@ {
            e.amount as int
        } else {
            fee_of(entries, token)
        },
{
    assert(entries.push(e).drop_last() =~= entries);
}

/// Accumulated fees: one amount for the native asset and one per token.
pub struct FeeLedger {
    native: u128,
    tokens: Vec<FeeEntry>,
}

impl View for FeeLedger {
    type V = FeeView;

    closed spec fn view(&self) -> FeeView {
        FeeView { native: self.native as int, tokens: fees_of(self.tokens@) }
    }
}

impl FeeLedger {
    pub closed spec fn wf(&self) -> bool {
        tokens_unique(self.tokens@)
    }

    /// An empty ledger.
    pub fn new() -> (r: FeeLedger)
        ensures
            r.wf(),
            r@.native == 0,
            forall|t: Seq<char>| #[trigger] r@.tokens[t] == 0,
    {
        let r = FeeLedger { native: 0, tokens: Vec::new() };
        assert forall|t: Seq<char>| #[trigger] r@.tokens[t] == 0 by {
            lemma_fee_of_absent(r.tokens@, t);
        }
        r
    }

    /// Every asset has an amount, and every amount fits the ledger's number type.
    pub proof fn lemma_bounded(&self)
        requires
            self.wf(),
        ensures
            forall|t: Seq<char>| #[trigger] self@.tokens.contains_key(t),
            forall|n: bool, t: Seq<char>|
                0 <= #[trigger] asset_fee(self@, n, t) <= u128::MAX,
    {
        assert forall|n: bool, t: Seq<char>| 0 <= #[trigger] asset_fee(self@, n, t) <= u128::MAX by {
            if !n {
                if exists|i: int| 0 <= i < self.tokens@.len() && self.tokens@[i].token@ == t {
                    let i = choose|i: int|
                        0 <= i < self.tokens@.len() && self.tokens@[i].token@ == t;
                    lemma_fee_of_at(self.tokens@, i);
                } else {
                    lemma_fee_of_absent(self.tokens@, t);
                }
            }
        }
    }

    fn find(&self, token: &AccountId) -> (r: Option<usize>)
        ensures
            match r {
                Some(i) => i < self.tokens@.len() && self.tokens@[i as int].token@ == token@,
                None => forall|i: int|
                    0 <= i < self.tokens@.len() ==> self.tokens@[i].token@ != token@,
            },
    {
        let mut i: usize = 0;
        while i < self.tokens.len()
            invariant
                i <= self.tokens@.len(),
                forall|j: int| 0 <= j < i ==> self.tokens@[j].token@ != token@,
            decreases self.tokens@.len() - i,
        {
            if self.tokens[i].token == *token {
                return Some(i);
            }
            i = i + 1;
        }
        None
    }

    /// The fee accumulated for an asset.
    pub fn get(&self, is_native: bool, token: &AccountId) -> (r: u128)
        requires
            self.wf(),
        ensures
            r == asset_fee(self@, is_native, token@),
    {
        if is_native {
            self.native
        } else {
            match self.find(token) {
                Some(i) => {
                    proof {
                        lemma_fee_of_at(self.tokens@, i as int);
                    }
                    self.tokens[i].amount
                },
                None => {
                    proof {
                        lemma_fee_of_absent(self.tokens@, token@);
                    }
                    0
                },
            }
        }
    }

    /// Replaces the fee accumulated for an asset.
    pub fn set(&mut self, is_native: bool, token: &AccountId, value: u128)
        requires
            old(self).wf(),
        ensures
            final(self).wf(),
            final(self)@ == with_asset_fee(old(self)@, is_native, token@, value as int),
    {
        if is_native {
            self.native = value;
        } else {
            let ghost before = self.tokens@;
            match self.find(token) {
                Some(i) => {
                    let e = FeeEntry { token: token.clone(), amount: value };
                    self.tokens.set(i, e);
                    assert(self.tokens@ == before.update(i as int, e));
                    assert forall|t: Seq<char>| #[trigger] fee_of(self.tokens@, t) == (if t
                        == token@ {
                        value as int
                    } else {
                        fee_of(before, t)
                    }) by {
                        lemma_fee_of_update(before, i as int, e, t);
                    }
                },
                None => {
                    let e = FeeEntry { token: token.clone(), amount: value };
                    self.tokens.push(e);
                    assert(self.tokens@ == before.push(e));
                    assert forall|t: Seq<char>| #[trigger] fee_of(self.tokens@, t) == (if t
                        == token@ {
                        value as int
                    } else {
                        fee_of(before, t)
                    }) by {
                        lemma_fee_of_push(before, e, t);
                    }
                },
            }
            assert(fees_of(self.tokens@) =~= fees_of(before).insert(token@, value as int));
        }
    }

    /// The fee amounts of the tokens, one entry per token.
    pub fn token_entries(&self) -> (r: Vec<FeeEntry>)
        requires
            self.wf(),
        ensures
            tokens_unique(r@),
            forall|t: Seq<char>| #[trigger] fee_of(r@, t) == self@.tokens[t],
    {
        let mut out: Vec<FeeEntry> = Vec::new();
        let mut i: usize = 0;
        while i < self.tokens.len()
            invariant
                i <= self.tokens@.len(),
                out@ == self.tokens@.subrange(0, i as int),
            decreases self.tokens@.len() - i,
        {
            out.push(self.tokens[i].clone());
            i = i + 1;
            assert(out@ =~= self.tokens@.subrange(0, i as int));
        }
        assert(out@ =~= self.tokens@);
        out
    }
}

} // verus!
