//! Payment requests that were made and not yet seen paid.
use vstd::prelude::*;

use crate::text::same_text;

verus! {

/// Tracks a pending payment request.
#[derive(Debug, Clone, Copy)]
pub struct PendingPayment {
    pub amount: u64,
    pub settled: bool,
}

/// Maximum number of entries allowed in the pending map before cleanup.
pub const PENDING_MAP_CAP: usize = 10_000;

/// Pending payments by their request text.
#[derive(Debug)]
pub struct PendingPayments {
    entries: Vec<(String, PendingPayment)>,
}

/// The request texts of a row of entries.
pub open spec fn requests_of(entries: Seq<(String, PendingPayment)>) -> Seq<Seq<char>> {
    entries.map_values(|entry: (String, PendingPayment)| entry.0@)
}

/// The entries by request text.
pub open spec fn by_request(entries: Seq<(String, PendingPayment)>) -> Map<
    Seq<char>,
    PendingPayment,
> {
    Map::new(
        |request: Seq<char>| requests_of(entries).contains(request),
        |request: Seq<char>| entries[requests_of(entries).index_of(request)].1,
    )
}

/// The entries whose payment is not settled.
pub open spec fn unsettled(pending: Map<Seq<char>, PendingPayment>) -> Map<
    Seq<char>,
    PendingPayment,
> {
    Map::new(
        |request: Seq<char>| pending.contains_key(request) && !pending[request].settled,
        |request: Seq<char>| pending[request],
    )
}

impl View for PendingPayments {
    type V = Map<Seq<char>, PendingPayment>;

    closed spec fn view(&self) -> Map<Seq<char>, PendingPayment> {
        by_request(self.entries@)
    }
}

/// Where the texts are distinct, each entry stands under its text.
proof fn lemma_by_request(entries: Seq<(String, PendingPayment)>)
    requires
        requests_of(entries).no_duplicates(),
    ensures
        forall|i: int|
            #![trigger entries[i]]
            0 <= i < entries.len() ==> by_request(entries).contains_key(entries[i].0@)
                && by_request(entries)[entries[i].0@] == entries[i].1,
{
    let requests = requests_of(entries);
    assert forall|i: int|
        #![trigger entries[i]]
        0 <= i < entries.len() implies by_request(entries).contains_key(entries[i].0@)
        && by_request(entries)[entries[i].0@] == entries[i].1 by {
        assert(requests[i] == entries[i].0@);
        let at = requests.index_of(entries[i].0@);
        assert(0 <= at < requests.len() && requests[at] == requests[i]);
    }
}

/// Appending an entry under a new text inserts it.
proof fn lemma_push(entries: Seq<(String, PendingPayment)>, entry: (String, PendingPayment))
    requires
        requests_of(entries).no_duplicates(),
        !requests_of(entries).contains(entry.0@),
    ensures
        requests_of(entries.push(entry)).no_duplicates(),
        by_request(entries.push(entry)) == by_request(entries).insert(entry.0@, entry.1),
{
    let more = entries.push(entry);
    assert(requests_of(more) =~= requests_of(entries).push(entry.0@));
    assert forall|i: int, j: int| 0 <= i < more.len() && 0 <= j < more.len() && i != j implies
        requests_of(more)[i] != requests_of(more)[j] by {
        if i < entries.len() && j < entries.len() {
            assert(requests_of(entries)[i] != requests_of(entries)[j]);
        } else if i < entries.len() {
            assert(requests_of(entries).contains(requests_of(entries)[i]));
        } else {
            assert(requests_of(entries).contains(requests_of(entries)[j]));
        }
    }
    lemma_by_request(entries);
    lemma_by_request(more);
    assert forall|request: Seq<char>|
        by_request(more).contains_key(request) == by_request(entries).insert(
            entry.0@,
            entry.1,
        ).contains_key(request) by {
        if requests_of(entries).contains(request) {
            let i = requests_of(entries).index_of(request);
            assert(requests_of(more)[i] == request);
        }
        assert(requests_of(more)[entries.len() as int] == entry.0@);
    }
    assert forall|request: Seq<char>| by_request(more).contains_key(request) implies by_request(
        more,
    )[request] == by_request(entries).insert(entry.0@, entry.1)[request] by {
        if request == entry.0@ {
            assert(more[entries.len() as int] == entry);
        } else {
            let i = requests_of(more).index_of(request);
            assert(more[i] == entries[i]);
        }
    }
    assert(by_request(more) =~= by_request(entries).insert(entry.0@, entry.1));
}

/// Taking an entry out removes its text.
proof fn lemma_without(entries: Seq<(String, PendingPayment)>, at: int)
    requires
        requests_of(entries).no_duplicates(),
        0 <= at < entries.len(),
    ensures
        requests_of(entries.remove(at)).no_duplicates(),
        by_request(entries.remove(at)) == by_request(entries).remove(entries[at].0@),
{
    let fewer = entries.remove(at);
    let gone = entries[at].0@;
    assert forall|i: int, j: int| 0 <= i < fewer.len() && 0 <= j < fewer.len() && i != j implies
        requests_of(fewer)[i] != requests_of(fewer)[j] by {
        let from_i = if i < at { i } else { i + 1 };
        let from_j = if j < at { j } else { j + 1 };
        assert(requests_of(entries)[from_i] != requests_of(entries)[from_j]);
    }
    lemma_by_request(entries);
    lemma_by_request(fewer);
    assert forall|request: Seq<char>| by_request(fewer).contains_key(request) implies by_request(
        entries,
    ).remove(gone).contains_key(request) && by_request(fewer)[request] == by_request(
        entries,
    )[request] by {
        let i = requests_of(fewer).index_of(request);
        let from = if i < at { i } else { i + 1 };
        assert(fewer[i] == entries[from]);
        assert(requests_of(entries)[from] != requests_of(entries)[at]);
    }
    assert forall|request: Seq<char>|
        by_request(entries).remove(gone).contains_key(request) implies by_request(
        fewer,
    ).contains_key(request) by {
        let i = requests_of(entries).index_of(request);
        assert(i != at);
        let to = if i < at { i } else { i - 1 };
        assert(fewer[to] == entries[i]);
        assert(requests_of(fewer)[to] == request);
    }
    assert(by_request(fewer) =~= by_request(entries).remove(gone));
}

impl PendingPayments {
    #[verifier::type_invariant]
    spec fn has_distinct_requests(self) -> bool {
        requests_of(self.entries@).no_duplicates()
    }

    /// No pending payments.
    pub fn new() -> (pending: Self)
        ensures
            pending@ == Map::<Seq<char>, PendingPayment>::empty(),
    {
        let pending = PendingPayments { entries: Vec::new() };
        assert(pending@ =~= Map::<Seq<char>, PendingPayment>::empty());
        pending
    }

    /// How many requests are pending.
    pub fn len(&self) -> (count: usize)
        ensures
            self@.dom().finite(),
            count == self@.len(),
    {
        proof {
            use_type_invariant(self);
            requests_of(self.entries@).unique_seq_to_set();
            assert(self@.dom() =~= requests_of(self.entries@).to_set());
        }
        self.entries.len()
    }

    /// The position of a request among the entries.
    fn position(&self, request: &str) -> (at: Option<usize>)
        ensures
            match at {
                Some(at) => {
                    &&& at < self.entries@.len()
                    &&& self.entries@[at as int].0@ == request@
                    &&& self@.contains_key(request@)
                    &&& self@[request@] == self.entries@[at as int].1
                },
                None => !self@.contains_key(request@),
            },
    {
        proof {
            use_type_invariant(self);
            lemma_by_request(self.entries@);
        }
        for i in 0..self.entries.len()
            invariant
                requests_of(self.entries@).no_duplicates(),
                forall|j: int|
                    #![trigger self.entries@[j]]
                    0 <= j < self.entries@.len() ==> self@.contains_key(self.entries@[j].0@)
                        && self@[self.entries@[j].0@] == self.entries@[j].1,
                forall|j: int| 0 <= j < i ==> #[trigger] self.entries@[j].0@ != request@,
        {
            if same_text(self.entries[i].0.as_str(), request) {
                return Some(i);
            }
        }
        assert(!requests_of(self.entries@).contains(request@));
        None
    }

    /// Whether a request is pending.
    pub fn contains_key(&self, request: &str) -> (found: bool)
        ensures
            found == self@.contains_key(request@),
    {
        self.position(request).is_some()
    }

    /// The payment that a request waits for.
    pub fn get(&self, request: &str) -> (found: Option<PendingPayment>)
        ensures
            found == (if self@.contains_key(request@) {
                Some(self@[request@])
            } else {
                None
            }),
    {
        match self.position(request) {
            Some(at) => Some(self.entries[at].1),
            None => None,
        }
    }

    /// Puts a payment under a request, in place of one that already stands there.
    pub fn insert(&mut self, request: String, payment: PendingPayment)
        ensures
            final(self)@ == old(self)@.insert(request@, payment),
    {
        let found = self.position(request.as_str());
        proof {
            use_type_invariant(&*self);
        }
        let mut entries: Vec<(String, PendingPayment)> = Vec::new();
        core::mem::swap(&mut entries, &mut self.entries);
        let ghost before = entries@;
        match found {
            Some(at) => {
                entries[at] = (request, payment);
                proof {
                    assert(requests_of(entries@) =~= requests_of(before));
                    lemma_by_request(before);
                    lemma_by_request(entries@);
                    assert forall|other: Seq<char>| by_request(before).contains_key(other)
                        implies by_request(entries@)[other] == by_request(before).insert(
                        request@,
                        payment,
                    )[other] by {
                        let i = requests_of(before).index_of(other);
                        assert(requests_of(before)[i] == other);
                        assert(entries@[i].0@ == other);
                        assert(before[i].0@ == other);
                        assert(requests_of(before)[at as int] == request@);
                    }
                    assert(requests_of(before)[at as int] == request@);
                    assert(by_request(entries@) =~= by_request(before).insert(request@, payment));
                }
            },
            None => {
                proof {
                    lemma_push(before, (request, payment));
                }
                entries.push((request, payment));
            },
        }
        self.entries = entries;
    }

    /// Forgets a request.
    pub fn remove(&mut self, request: &str)
        ensures
            final(self)@ == old(self)@.remove(request@),
    {
        let found = self.position(request);
        proof {
            use_type_invariant(&*self);
        }
        let mut entries: Vec<(String, PendingPayment)> = Vec::new();
        core::mem::swap(&mut entries, &mut self.entries);
        let ghost before = entries@;
        match found {
            Some(at) => {
                entries.remove(at);
                proof {
                    lemma_without(before, at as int);
                }
            },
            None => {
                assert(by_request(before) =~= by_request(before).remove(request@));
            },
        }
        self.entries = entries;
    }

    /// Forgets the requests whose payment is settled.
    pub fn forget_settled(&mut self)
        ensures
            final(self)@ == unsettled(old(self)@),
    {
        proof {
            use_type_invariant(&*self);
        }
        let mut kept: Vec<(String, PendingPayment)> = Vec::new();
        let ghost all = self.entries@;
        assert(by_request(kept@) =~= unsettled(by_request(all.take(0))));
        for i in 0..self.entries.len()
            invariant
                all == self.entries@,
                requests_of(all).no_duplicates(),
                requests_of(kept@).no_duplicates(),
                by_request(kept@) == unsettled(by_request(all.take(i as int))),
        {
            let request = self.entries[i].0.clone();
            let payment = self.entries[i].1;
            proof {
                let some = all.take(i as int);
                assert forall|j: int, k: int|
                    0 <= j < some.len() && 0 <= k < some.len() && j != k implies requests_of(
                    some,
                )[j] != requests_of(some)[k] by {
                    assert(requests_of(all)[j] != requests_of(all)[k]);
                }
                if requests_of(some).contains(request@) {
                    let j = requests_of(some).index_of(request@);
                    assert(requests_of(all)[j] == requests_of(all)[i as int]);
                }
                lemma_push(some, all[i as int]);
                assert(all.take(i + 1) =~= some.push(all[i as int]));
                assert(!by_request(some).contains_key(request@));
                assert(!by_request(kept@).contains_key(request@));
                let map = by_request(some);
                if payment.settled {
                    assert(unsettled(map.insert(request@, payment)) =~= unsettled(map));
                } else {
                    assert(unsettled(map.insert(request@, payment)) =~= unsettled(map).insert(
                        request@,
                        payment,
                    ));
                    lemma_push(kept@, (request, payment));
                }
            }
            if !payment.settled {
                kept.push((request, payment));
            }
        }
        assert(all.take(all.len() as int) =~= all);
        self.entries = kept;
    }
}

/// Exactly the requests whose payment is not settled are unsettled, each with its payment.
pub proof fn unsettled_requests_stay(
    pending: Map<Seq<char>, PendingPayment>,
    request: Seq<char>,
)
    ensures
        unsettled(pending).contains_key(request) <==> pending.contains_key(request)
            && !pending[request].settled,
        unsettled(pending).contains_key(request) ==> unsettled(pending)[request]
            == pending[request],
{
}

} // verus!
