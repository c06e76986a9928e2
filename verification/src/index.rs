//! The identifiers of the known tickets, indexed for lookup.
//!
//! A pair seen on chain belongs to the first known ticket with its
//! identifier. Tickets are found through a table keyed by the leading bytes of
//! their identifiers, so that a lookup does not walk all tickets.

use std::collections::HashMap;
use vstd::prelude::*;
use crate::ticket::{id_value, UnsignedTicket, UnsignedTicketView, ID_LEN};

verus! {

/// The identifier of each known ticket, `None` where the `id` text spells none.
pub open spec fn ticket_keys(known: Seq<UnsignedTicketView>) -> Seq<Option<Seq<u8>>> {
    Seq::new(known.len(), |j: int| id_value(known[j].id))
}

/// Ticket `j` is the first one whose identifier is `id`.
pub open spec fn first_owner(keys: Seq<Option<Seq<u8>>>, id: Seq<u8>, j: int) -> bool {
    &&& 0 <= j < keys.len()
    &&& keys[j] == Some(id)
    &&& forall|k: int| 0 <= k < j ==> keys[k] != Some(id)
}

/// The ticket to which a pair with identifier `id` belongs, if any.
pub open spec fn owner(keys: Seq<Option<Seq<u8>>>, id: Seq<u8>) -> Option<int> {
    if exists|j: int| first_owner(keys, id, j) {
        Some(choose|j: int| first_owner(keys, id, j))
    } else {
        None
    }
}

/// What an identifier read from a ticket holds, as a sequence.
pub open spec fn key_view(id: Option<Vec<u8>>) -> Option<Seq<u8>> {
    match id {
        Some(bytes) => Some(bytes@),
        None => None,
    }
}

/// What identifiers read from tickets hold, as sequences.
pub open spec fn key_views(ids: Seq<Option<Vec<u8>>>) -> Seq<Option<Seq<u8>>> {
    Seq::new(ids.len(), |j: int| key_view(ids[j]))
}

/// The number that the first eight bytes of an identifier spell: the key
/// under which the identifier is filed.
pub open spec fn tag(id: Seq<u8>) -> int {
    (((((((id[0] as int) * 256 + id[1] as int) * 256 + id[2] as int) * 256 + id[3] as int) * 256
        + id[4] as int) * 256 + id[5] as int) * 256 + id[6] as int) * 256 + id[7] as int
}

/// Ticket `k` has an identifier, and it is filed under `t`.
pub open spec fn tagged(keys: Seq<Option<Seq<u8>>>, k: int, t: u64) -> bool {
    &&& 0 <= k < keys.len()
    &&& keys[k] matches Some(id)
    &&& tag(id) == t
}

/// No ticket from index `from` on is filed under `t`.
pub open spec fn none_from(keys: Seq<Option<Seq<u8>>>, t: u64, from: int) -> bool {
    forall|k: int| from <= k < keys.len() ==> !tagged(keys, k, t)
}

/// Ticket `j` is the first from index `from` on that is filed under `t`.
pub open spec fn least_from(keys: Seq<Option<Seq<u8>>>, t: u64, from: int, j: int) -> bool {
    &&& from <= j
    &&& tagged(keys, j, t)
    &&& forall|k: int| from <= k < j ==> !tagged(keys, k, t)
}

/// `next` is the ticket behind `k` in the chain of its tag: the first later
/// ticket filed under the same tag, or the number of tickets where there is
/// none.
pub open spec fn linked(keys: Seq<Option<Seq<u8>>>, k: int, next: int) -> bool {
    let t = tag(keys[k]->0) as u64;
    if next >= keys.len() {
        next == keys.len() && none_from(keys, t, k + 1)
    } else {
        least_from(keys, t, k + 1, next)
    }
}

/// The identifiers of the known tickets, with a table to find them by.
pub struct KnownIds {
    ids: Vec<Option<Vec<u8>>>,
    first: HashMap<u64, usize>,
    next: Vec<usize>,
}

impl KnownIds {
    /// The identifier of each ticket.
    pub closed spec fn keys(&self) -> Seq<Option<Seq<u8>>> {
        key_views(self.ids@)
    }

    /// The table agrees with the identifiers: under each tag it holds the
    /// first ticket filed there, and each ticket leads to the next of its tag.
    #[verifier::type_invariant]
    spec fn wf(&self) -> bool {
        let keys = self.keys();
        &&& self.next@.len() == keys.len()
        &&& forall|k: int|
            0 <= k < keys.len() ==> ((#[trigger] keys[k]) matches Some(id) ==> id.len() == ID_LEN)
        &&& forall|t: u64| #[trigger]
            self.first@.contains_key(t) ==> least_from(keys, t, 0, self.first@[t] as int)
        &&& forall|t: u64| !(#[trigger] self.first@.contains_key(t)) ==> none_from(keys, t, 0)
        &&& forall|k: int|
            0 <= k < keys.len() && keys[k] is Some ==> linked(keys, k, (#[trigger] self.next@[k]) as int)
    }

    /// Reads and files the identifier of each known ticket.
    pub fn new(known: &Vec<UnsignedTicket>) -> (r: KnownIds)
        ensures
            r.keys() == ticket_keys(known.deep_view()),
    {
        broadcast use vstd::std_specs::hash::group_hash_axioms;

        let ids = known_ids(known);
        let n = ids.len();
        let ghost keys = key_views(ids@);
        let mut next: Vec<usize> = Vec::new();
        let mut i: usize = 0;
        while i < n
            invariant
                i <= n,
                next@.len() == i,
            decreases n - i,
        {
            next.push(n);
            i += 1;
        }
        let mut first: HashMap<u64, usize> = HashMap::new();
        let mut j: usize = n;
        while j > 0
            invariant
                j <= n,
                n == ids@.len(),
                keys == key_views(ids@),
                next@.len() == n,
                forall|k: int|
                    0 <= k < keys.len() ==> ((#[trigger] keys[k]) matches Some(id) ==> id.len()
                        == ID_LEN),
                forall|t: u64| #[trigger]
                    first@.contains_key(t) ==> least_from(keys, t, j as int, first@[t] as int),
                forall|t: u64| !(#[trigger] first@.contains_key(t)) ==> none_from(keys, t, j as int),
                forall|k: int|
                    j <= k < keys.len() && keys[k] is Some ==> linked(
                        keys,
                        k,
                        (#[trigger] next@[k]) as int,
                    ),
            decreases j,
        {
            let i = j - 1;
            let ghost before = first@;
            let ghost links = next@;
            match &ids[i] {
                Some(bytes) => {
                    assert(keys[i as int] == Some(bytes@));
                    let t = tag_of(bytes.as_slice());
                    assert(tagged(keys, i as int, t));
                    let behind = match first.get(&t) {
                        Some(f) => *f,
                        None => n,
                    };
                    assert(linked(keys, i as int, behind as int));
                    next.set(i, behind);
                    first.insert(t, i);
                    assert forall|u: u64| #[trigger] first@.contains_key(u) implies least_from(
                        keys,
                        u,
                        i as int,
                        first@[u] as int,
                    ) by {
                        if u != t {
                            assert(before.contains_key(u));
                            assert(!tagged(keys, i as int, u));
                        }
                    }
                    assert forall|u: u64| !(#[trigger] first@.contains_key(u)) implies none_from(
                        keys,
                        u,
                        i as int,
                    ) by {
                        assert(!before.contains_key(u));
                        assert(!tagged(keys, i as int, u));
                    }
                    assert forall|k: int| i <= k < keys.len() && keys[k] is Some implies linked(
                        keys,
                        k,
                        (#[trigger] next@[k]) as int,
                    ) by {
                        if k > i {
                            assert(next@[k] == links[k]);
                        }
                    }
                },
                None => {
                    assert(keys[i as int] is None);
                    assert forall|u: u64| #[trigger] first@.contains_key(u) implies least_from(
                        keys,
                        u,
                        i as int,
                        first@[u] as int,
                    ) by {
                        assert(!tagged(keys, i as int, u));
                    }
                    assert forall|u: u64| !(#[trigger] first@.contains_key(u)) implies none_from(
                        keys,
                        u,
                        i as int,
                    ) by {
                        assert(!tagged(keys, i as int, u));
                    }
                },
            }
            j = i;
        }
        KnownIds { ids, first, next }
    }

    /// How many tickets are known.
    pub fn len(&self) -> (r: usize)
        ensures
            r == self.keys().len(),
    {
        self.ids.len()
    }

    /// The identifier of ticket `j`.
    pub fn id(&self, j: usize) -> (r: &Option<Vec<u8>>)
        requires
            j < self.keys().len(),
        ensures
            key_view(*r) == self.keys()[j as int],
    {
        &self.ids[j]
    }

    /// Finds the ticket to which a pair with identifier `id` belongs: the
    /// first known ticket with that identifier.
    pub fn find(&self, id: &[u8]) -> (r: Option<usize>)
        ensures
            match r {
                Some(j) => owner(self.keys(), id@) == Some(j as int) && j < self.keys().len(),
                None => owner(self.keys(), id@) is None,
            },
    {
        broadcast use vstd::std_specs::hash::group_hash_axioms;

        proof {
            use_type_invariant(self);
        }
        let ghost keys = self.keys();
        let n = self.ids.len();
        if id.len() != ID_LEN {
            proof {
                lemma_owner_absent(keys, id@);
            }
            return None;
        }
        let t = tag_of(id);
        let mut at: usize = match self.first.get(&t) {
            Some(f) => *f,
            None => n,
        };
        assert(forall|k: int| 0 <= k < at && k < keys.len() ==> !tagged(keys, k, t));
        while at < n
            invariant
                self.wf(),
                keys == self.keys(),
                n == keys.len(),
                id@.len() == ID_LEN,
                t == tag(id@),
                at <= n,
                at < n ==> tagged(keys, at as int, t),
                forall|k: int| 0 <= k < at && k < keys.len() ==> !tagged(keys, k, t) || keys[k] != Some(id@),
            decreases n - at,
        {
            let found = match &self.ids[at] {
                Some(bytes) => same_bytes(bytes.as_slice(), id),
                None => false,
            };
            if found {
                proof {
                    assert(keys[at as int] == Some(id@));
                    assert forall|k: int| 0 <= k < at implies keys[k] != Some(id@) by {
                        if keys[k] == Some(id@) {
                            assert(tagged(keys, k, t));
                        }
                    }
                    assert(first_owner(keys, id@, at as int));
                    lemma_owner_is_first(keys, id@, at as int);
                }
                return Some(at);
            }
            assert(keys[at as int] != Some(id@));
            assert(linked(keys, at as int, self.next@[at as int] as int));
            at = self.next[at];
        }
        proof {
            assert forall|k: int| 0 <= k < keys.len() implies keys[k] != Some(id@) by {
                if keys[k] == Some(id@) {
                    assert(tagged(keys, k, t));
                }
            }
            lemma_owner_absent(keys, id@);
        }
        None
    }
}

/// At most one ticket is the first owner of an identifier.
pub proof fn lemma_first_owner_unique(keys: Seq<Option<Seq<u8>>>, id: Seq<u8>, a: int, b: int)
    requires
        first_owner(keys, id, a),
        first_owner(keys, id, b),
    ensures
        a == b,
{
    if a < b {
        assert(keys[a] != Some(id));
    } else if b < a {
        assert(keys[b] != Some(id));
    }
}

/// The first owner of an identifier is its owner.
pub proof fn lemma_owner_is_first(keys: Seq<Option<Seq<u8>>>, id: Seq<u8>, j: int)
    requires
        first_owner(keys, id, j),
    ensures
        owner(keys, id) == Some(j),
{
    let c = choose|c: int| first_owner(keys, id, c);
    lemma_first_owner_unique(keys, id, c, j);
}

/// An identifier that no ticket has belongs to none.
pub proof fn lemma_owner_absent(keys: Seq<Option<Seq<u8>>>, id: Seq<u8>)
    requires
        forall|k: int| 0 <= k < keys.len() ==> keys[k] != Some(id),
    ensures
        owner(keys, id) is None,
{
    if exists|j: int| first_owner(keys, id, j) {
        let j = choose|j: int| first_owner(keys, id, j);
        assert(keys[j] != Some(id));
    }
}

/// The owner of an identifier, where there is one, is a known ticket with
/// that identifier.
pub proof fn lemma_owner_has_id(keys: Seq<Option<Seq<u8>>>, id: Seq<u8>)
    ensures
        owner(keys, id) matches Some(j) ==> 0 <= j < keys.len() && keys[j] == Some(id),
{
    if exists|j: int| first_owner(keys, id, j) {
        let j = choose|j: int| first_owner(keys, id, j);
        assert(first_owner(keys, id, j));
    }
}

/// The identifier of a ticket has an owner.
pub proof fn lemma_owner_present(keys: Seq<Option<Seq<u8>>>, j: int)
    requires
        0 <= j < keys.len(),
        keys[j] is Some,
    ensures
        owner(keys, keys[j]->0) is Some,
    decreases j,
{
    let id = keys[j]->0;
    if forall|k: int| 0 <= k < j ==> keys[k] != Some(id) {
        assert(first_owner(keys, id, j));
    } else {
        let k = choose|k: int| 0 <= k < j && keys[k] == Some(id);
        lemma_owner_present(keys, k);
    }
}

/// The tag of an identifier.
fn tag_of(id: &[u8]) -> (r: u64)
    requires
        id@.len() >= 8,
    ensures
        r == tag(id@),
{
    let a: u64 = id[0] as u64;
    let b: u64 = a * 256 + id[1] as u64;
    let c: u64 = b * 256 + id[2] as u64;
    let d: u64 = c * 256 + id[3] as u64;
    let e: u64 = d * 256 + id[4] as u64;
    let f: u64 = e * 256 + id[5] as u64;
    let g: u64 = f * 256 + id[6] as u64;
    g * 256 + id[7] as u64
}

/// Whether two runs of bytes are the same.
fn same_bytes(a: &[u8], b: &[u8]) -> (r: bool)
    ensures
        r == (a@ == b@),
{
    if a.len() != b.len() {
        return false;
    }
    let mut i: usize = 0;
    while i < a.len()
        invariant
            i <= a@.len(),
            a@.len() == b@.len(),
            forall|k: int| 0 <= k < i ==> a@[k] == b@[k],
        decreases a@.len() - i,
    {
        if a[i] != b[i] {
            return false;
        }
        i += 1;
    }
    assert(a@ =~= b@);
    true
}

/// Reads the identifier of each known ticket.
fn known_ids(known: &Vec<UnsignedTicket>) -> (r: Vec<Option<Vec<u8>>>)
    ensures
        key_views(r@) == ticket_keys(known.deep_view()),
{
    let mut ids: Vec<Option<Vec<u8>>> = Vec::new();
    let mut j: usize = 0;
    while j < known.len()
        invariant
            j <= known.len(),
            ids@.len() == j,
            forall|k: int|
                0 <= k < j ==> key_view(#[trigger] ids@[k]) == ticket_keys(known.deep_view())[k],
        decreases known.len() - j,
    {
        let id = known[j].id_bytes();
        assert(key_view(id) == id_value(known@[j as int].id@));
        ids.push(id);
        j += 1;
    }
    assert(key_views(ids@) =~= ticket_keys(known.deep_view()));
    ids
}

} // verus!
