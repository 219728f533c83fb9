use crate::account::AccountId;
use crate::contract::Contract;
use crate::model::{ledger_wf, LedgerView};
use crate::stream::Stream;
use vstd::prelude::*;

verus! {

/// Which streams a listing shows for a user.
#[derive(Clone, Copy, Debug, PartialEq, Eq, Structural)]
pub enum Selection {
    /// Every stream.
    All,
    /// Streams the user sends or receives.
    Either,
    /// Streams the user receives.
    Incoming,
    /// Streams the user sends.
    Outgoing,
}

pub open spec fn selects(sel: Selection, s: Stream, user: Seq<char>) -> bool {
    match sel {
        Selection::All => true,
        Selection::Either => s.sender@ == user || s.receiver@ == user,
        Selection::Incoming => s.receiver@ == user,
        Selection::Outgoing => s.sender@ == user,
    }
}

/// The selected streams with identifiers below `upto`, in identifier order.
pub open spec fn listed(v: LedgerView, sel: Selection, user: Seq<char>, upto: u64) -> Seq<Stream>
    decreases upto,
{
    if upto == 0 {
        Seq::empty()
    } else {
        let prev = listed(v, sel, user, (upto - 1) as u64);
        let id = (upto - 1) as u64;
        if v.streams.contains_key(id) && selects(sel, v.streams[id], user) {
            prev.push(v.streams[id])
        } else {
            prev
        }
    }
}

/// All selected streams, in identifier order.
pub open spec fn all_listed(v: LedgerView, sel: Selection, user: Seq<char>) -> Seq<Stream> {
    listed(v, sel, user, v.current_id)
}

/// The page of `seq` that skips `from` items and holds at most `limit`.
pub open spec fn page(seq: Seq<Stream>, from: int, limit: int) -> Seq<Stream> {
    let lo = if from < seq.len() {
        from
    } else {
        seq.len() as int
    };
    let hi = if from + limit < seq.len() {
        from + limit
    } else {
        seq.len() as int
    };
    seq.subrange(lo, hi)
}

proof fn lemma_listed_len(v: LedgerView, sel: Selection, user: Seq<char>, upto: u64)
    ensures
        listed(v, sel, user, upto).len() <= upto,
    decreases upto,
{
    if upto > 0 {
        lemma_listed_len(v, sel, user, (upto - 1) as u64);
    }
}

impl Contract {
    /// The consistency of the ledger, in terms of its model.
    pub proof fn lemma_consistent(&self)
        requires
            self.wf(),
        ensures
            ledger_wf(self@),
    {
        self.lemma_wf_model();
    }

    /// The identifier the next stream will get.
    pub fn current_id(&self) -> (r: u64)
        ensures
            r == self@.current_id,
    {
        self.next_id()
    }

    /// The number of streams stored.
    pub fn stream_count(&self) -> (r: usize)
        ensures
            r == self@.streams.len(),
    {
        self.streams_len()
    }

    /// A copy of stream `stream_id`, if there is one.
    pub fn get_stream(&self, stream_id: u64) -> (r: Option<Stream>)
        requires
            self.wf(),
        ensures
            r == if self@.streams.contains_key(stream_id) {
                Some(self@.streams[stream_id])
            } else {
                None
            },
    {
        match self.stream_ref(stream_id) {
            Some(s) => Some(s.clone()),
            None => None,
        }
    }

    /// The selected streams, in identifier order, skipping `from` and
    /// keeping at most `limit`.
    fn select(&self, sel: Selection, user: &AccountId, from: u128, limit: u64) -> (r: Vec<Stream>)
        requires
            self.wf(),
        ensures
            r@ == page(all_listed(self@, sel, user@), from as int, limit as int),
    {
        let ghost v = self@;
        let upto = self.next_id();
        let mut out: Vec<Stream> = Vec::new();
        let mut matched: u128 = 0;
        let mut id: u64 = 0;
        while id < upto
            invariant
                v == self@,
                upto == v.current_id,
                id <= upto,
                matched == listed(v, sel, user@, id).len(),
                out@ == page(listed(v, sel, user@, id), from as int, limit as int),
            decreases upto - id,
        {
            proof {
                lemma_listed_len(v, sel, user@, id);
            }
            let ghost before = listed(v, sel, user@, id);
            match self.stream_ref(id) {
                Some(s) => {
                    let keep = match sel {
                        Selection::All => true,
                        Selection::Either => s.sender == *user || s.receiver == *user,
                        Selection::Incoming => s.receiver == *user,
                        Selection::Outgoing => s.sender == *user,
                    };
                    if keep {
                        if matched >= from && matched - from < limit as u128 {
                            out.push(s.clone());
                        }
                        matched = matched + 1;
                        proof {
                            let after = before.push(*s);
                            assert(listed(v, sel, user@, (id + 1) as u64) == after);
                            assert(out@ =~= page(after, from as int, limit as int));
                        }
                    }
                },
                None => {},
            }
            id = id + 1;
        }
        out
    }

    /// The number of selected streams.
    fn count(&self, sel: Selection, user: &AccountId) -> (r: u64)
        requires
            self.wf(),
        ensures
            r == all_listed(self@, sel, user@).len(),
    {
        let ghost v = self@;
        let upto = self.next_id();
        let mut matched: u64 = 0;
        let mut id: u64 = 0;
        while id < upto
            invariant
                v == self@,
                upto == v.current_id,
                id <= upto,
                matched == listed(v, sel, user@, id).len(),
            decreases upto - id,
        {
            proof {
                lemma_listed_len(v, sel, user@, id);
            }
            match self.stream_ref(id) {
                Some(s) => {
                    let keep = match sel {
                        Selection::All => true,
                        Selection::Either => s.sender == *user || s.receiver == *user,
                        Selection::Incoming => s.receiver == *user,
                        Selection::Outgoing => s.sender == *user,
                    };
                    if keep {
                        matched = matched + 1;
                    }
                },
                None => {},
            }
            id = id + 1;
        }
        matched
    }

    /// Streams in identifier order: `from_index` are skipped (default 0) and
    /// at most `limit` are returned (default 50).
    pub fn get_streams(&self, from_index: Option<u128>, limit: Option<u64>) -> (r: Vec<Stream>)
        requires
            self.wf(),
        ensures
            r@ == page(
                all_listed(self@, Selection::All, Seq::empty()),
                from_index.unwrap_or(0) as int,
                limit.unwrap_or(50) as int,
            ),
    {
        let nobody = AccountId::new(String::new());
        let r = self.select(Selection::All, &nobody, from_index.unwrap_or(0), limit.unwrap_or(50));
        proof {
            lemma_listed_all(self@, nobody@, Seq::empty(), self@.current_id);
        }
        r
    }

    /// The streams `user_id` sends or receives, paged as `get_streams`.
    pub fn get_streams_by_user(&self, user_id: &AccountId, from_index: Option<u128>, limit: Option<u64>) -> (r: Vec<Stream>)
        requires
            self.wf(),
        ensures
            r@ == page(
                all_listed(self@, Selection::Either, user_id@),
                from_index.unwrap_or(0) as int,
                limit.unwrap_or(50) as int,
            ),
    {
        self.select(Selection::Either, user_id, from_index.unwrap_or(0), limit.unwrap_or(50))
    }

    /// The number of streams `user_id` sends or receives.
    pub fn get_streams_by_user_count(&self, user_id: &AccountId) -> (r: u64)
        requires
            self.wf(),
        ensures
            r == all_listed(self@, Selection::Either, user_id@).len(),
    {
        self.count(Selection::Either, user_id)
    }

    /// The number of streams `user_id` receives.
    pub fn get_incoming_streams_count(&self, user_id: &AccountId) -> (r: u64)
        requires
            self.wf(),
        ensures
            r == all_listed(self@, Selection::Incoming, user_id@).len(),
    {
        self.count(Selection::Incoming, user_id)
    }

    /// The streams `user_id` receives, paged as `get_streams`.
    pub fn get_incoming_streams_for_user(&self, user_id: &AccountId, from_index: Option<u128>, limit: Option<u64>) -> (r: Vec<Stream>)
        requires
            self.wf(),
        ensures
            r@ == page(
                all_listed(self@, Selection::Incoming, user_id@),
                from_index.unwrap_or(0) as int,
                limit.unwrap_or(50) as int,
            ),
    {
        self.select(Selection::Incoming, user_id, from_index.unwrap_or(0), limit.unwrap_or(50))
    }

    /// The number of streams `user_id` sends.
    pub fn get_outgoing_streams_count(&self, user_id: &AccountId) -> (r: u64)
        requires
            self.wf(),
        ensures
            r == all_listed(self@, Selection::Outgoing, user_id@).len(),
    {
        self.count(Selection::Outgoing, user_id)
    }

    /// The streams `user_id` sends, paged as `get_streams`.
    pub fn get_outgoing_streams_for_user(&self, user_id: &AccountId, from_index: Option<u128>, limit: Option<u64>) -> (r: Vec<Stream>)
        requires
            self.wf(),
        ensures
            r@ == page(
                all_listed(self@, Selection::Outgoing, user_id@),
                from_index.unwrap_or(0) as int,
                limit.unwrap_or(50) as int,
            ),
    {
        self.select(Selection::Outgoing, user_id, from_index.unwrap_or(0), limit.unwrap_or(50))
    }
}

/// Listing every stream does not depend on the user.
proof fn lemma_listed_all(v: LedgerView, u1: Seq<char>, u2: Seq<char>, upto: u64)
    ensures
        listed(v, Selection::All, u1, upto) == listed(v, Selection::All, u2, upto),
    decreases upto,
{
    if upto > 0 {
        lemma_listed_all(v, u1, u2, (upto - 1) as u64);
    }
}

} // verus!
