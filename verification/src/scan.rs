//! Matching the signing events seen on chain against the tickets known here.
//!
//! An event carries two parallel lists, identifiers and blind signatures. They
//! are read as pairs, in the order in which the events arrived. A pair belongs
//! to the first known ticket with its identifier, and the first pair seen for
//! a ticket is the one that counts: later pairs for the same ticket are set
//! aside and reported, never emitted. Pairs for identifiers that no known
//! ticket has are other people's and are passed over.

use vstd::prelude::*;
use crate::encoding::{encode_prefixed, encoded_prefixed};
use crate::index::{lemma_owner_has_id, owner, ticket_keys, KnownIds};
use crate::ticket::{
    aligned, id_value, BlindedSignature, BlindedSignatureView, FinalizeInput, FinalizeInputView,
    UnsignedTicket, UnsignedTicketView,
};

verus! {

/// One emission of the gas station: `ids[i]` was signed as `signed[i]`.
#[derive(Clone, Debug, PartialEq, Eq)]
pub struct SigningEvent {
    pub ids: Vec<[u8; 32]>,
    pub signed: Vec<Vec<u8>>,
}

/// What a [`SigningEvent`] holds.
pub struct SigningEventView {
    pub ids: Seq<Seq<u8>>,
    pub signed: Seq<Seq<u8>>,
}

/// One identifier of an event together with the signature at its index.
#[derive(Clone, Debug, PartialEq, Eq)]
pub struct Observation {
    pub id: [u8; 32],
    pub signed: Vec<u8>,
}

/// What an [`Observation`] holds.
pub struct ObservationView {
    pub id: Seq<u8>,
    pub signed: Seq<u8>,
}

/// A known ticket, by its index, with the signature that was kept for it.
pub struct Match {
    pub ticket: int,
    pub signed: Seq<u8>,
}

/// The outcome of a scan.
#[derive(Clone, Debug, PartialEq, Eq)]
pub struct Correlation {
    /// The tickets for which a signature was found, with those signatures.
    pub input: FinalizeInput,
    /// Signatures seen for a ticket that already had one, in the order seen.
    pub repeated: Vec<BlindedSignature>,
    /// For each known ticket, whether a signature was found for it.
    pub signed: Vec<bool>,
}

/// What a [`Correlation`] holds.
pub struct CorrelationView {
    pub input: FinalizeInputView,
    pub repeated: Seq<BlindedSignatureView>,
    pub signed: Seq<bool>,
}

impl DeepView for SigningEvent {
    type V = SigningEventView;

    open spec fn deep_view(&self) -> SigningEventView {
        SigningEventView {
            ids: Seq::new(self.ids@.len(), |i: int| self.ids@[i]@),
            signed: Seq::new(self.signed@.len(), |i: int| self.signed@[i]@),
        }
    }
}

impl DeepView for Observation {
    type V = ObservationView;

    open spec fn deep_view(&self) -> ObservationView {
        ObservationView { id: self.id@, signed: self.signed@ }
    }
}

impl DeepView for Correlation {
    type V = CorrelationView;

    open spec fn deep_view(&self) -> CorrelationView {
        CorrelationView {
            input: self.input.deep_view(),
            repeated: self.repeated.deep_view(),
            signed: self.signed@,
        }
    }
}

impl SigningEventView {
    /// How many pairs the event holds: an entry without a partner in the
    /// other list is no pair.
    pub open spec fn pair_count(self) -> nat {
        if self.ids.len() <= self.signed.len() {
            self.ids.len()
        } else {
            self.signed.len()
        }
    }

    /// The pairs of the event, in index order.
    pub open spec fn pairs(self) -> Seq<ObservationView> {
        Seq::new(
            self.pair_count(),
            |i: int| ObservationView { id: self.ids[i], signed: self.signed[i] },
        )
    }
}

/// The pairs of all events, in the order of the events.
pub open spec fn observed(events: Seq<SigningEventView>) -> Seq<ObservationView>
    decreases events.len(),
{
    if events.len() == 0 {
        Seq::empty()
    } else {
        observed(events.drop_last()) + events.last().pairs()
    }
}

/// Some match in `ms` is for ticket `ticket`.
pub open spec fn claimed(ms: Seq<Match>, ticket: int) -> bool {
    exists|k: int| 0 <= k < ms.len() && (#[trigger] ms[k]).ticket == ticket
}

/// The matches that a scan keeps: for each ticket the first pair that belongs
/// to it, in the order in which those pairs were seen.
pub open spec fn correlated(keys: Seq<Option<Seq<u8>>>, obs: Seq<ObservationView>) -> Seq<Match>
    decreases obs.len(),
{
    if obs.len() == 0 {
        Seq::empty()
    } else {
        let before = correlated(keys, obs.drop_last());
        match owner(keys, obs.last().id) {
            Some(j) => if claimed(before, j) {
                before
            } else {
                before.push(Match { ticket: j, signed: obs.last().signed })
            },
            None => before,
        }
    }
}

/// The matches that a scan sets aside: each pair that belongs to a ticket
/// for which an earlier pair was kept, in the order seen.
pub open spec fn repeated(keys: Seq<Option<Seq<u8>>>, obs: Seq<ObservationView>) -> Seq<Match>
    decreases obs.len(),
{
    if obs.len() == 0 {
        Seq::empty()
    } else {
        let before = repeated(keys, obs.drop_last());
        match owner(keys, obs.last().id) {
            Some(j) => if claimed(correlated(keys, obs.drop_last()), j) {
                before.push(Match { ticket: j, signed: obs.last().signed })
            } else {
                before
            },
            None => before,
        }
    }
}

/// The ticket of each match.
pub open spec fn matched_tickets(known: Seq<UnsignedTicketView>, ms: Seq<Match>) -> Seq<
    UnsignedTicketView,
> {
    Seq::new(ms.len(), |k: int| known[ms[k].ticket])
}

/// The signature of each match, as prefixed hexadecimal text, under the `id`
/// text of its ticket.
pub open spec fn matched_signatures(known: Seq<UnsignedTicketView>, ms: Seq<Match>) -> Seq<
    BlindedSignatureView,
> {
    Seq::new(
        ms.len(),
        |k: int|
            BlindedSignatureView {
                blind_sig: encoded_prefixed(ms[k].signed),
                id: known[ms[k].ticket].id,
            },
    )
}

/// What a scan of `events` yields for the tickets `known`.
pub open spec fn correlation(
    known: Seq<UnsignedTicketView>,
    events: Seq<SigningEventView>,
) -> CorrelationView {
    let keys = ticket_keys(known);
    let kept = correlated(keys, observed(events));
    CorrelationView {
        input: FinalizeInputView {
            unsigned_tickets: matched_tickets(known, kept),
            blind_signatures: matched_signatures(known, kept),
        },
        repeated: matched_signatures(known, repeated(keys, observed(events))),
        signed: Seq::new(known.len(), |j: int| claimed(kept, j)),
    }
}

/// Adding a match claims its ticket and no other.
pub proof fn lemma_claimed_push(ms: Seq<Match>, m: Match, ticket: int)
    ensures
        claimed(ms.push(m), ticket) <==> claimed(ms, ticket) || m.ticket == ticket,
{
    let after = ms.push(m);
    if claimed(ms, ticket) {
        let k = choose|k: int| 0 <= k < ms.len() && (#[trigger] ms[k]).ticket == ticket;
        assert(after[k].ticket == ticket);
    }
    if m.ticket == ticket {
        assert(after[ms.len() as int].ticket == ticket);
    }
    if claimed(after, ticket) {
        let k = choose|k: int| 0 <= k < after.len() && (#[trigger] after[k]).ticket == ticket;
        if k < ms.len() {
            assert(ms[k].ticket == ticket);
        }
    }
}

/// Reading one more pair extends the kept matches by at most that pair.
pub proof fn lemma_correlated_step(keys: Seq<Option<Seq<u8>>>, obs: Seq<ObservationView>, n: int)
    requires
        0 <= n < obs.len(),
    ensures
        correlated(keys, obs.take(n + 1)) == (match owner(keys, obs[n].id) {
            Some(j) => if claimed(correlated(keys, obs.take(n)), j) {
                correlated(keys, obs.take(n))
            } else {
                correlated(keys, obs.take(n)).push(Match { ticket: j, signed: obs[n].signed })
            },
            None => correlated(keys, obs.take(n)),
        }),
        repeated(keys, obs.take(n + 1)) == (match owner(keys, obs[n].id) {
            Some(j) => if claimed(correlated(keys, obs.take(n)), j) {
                repeated(keys, obs.take(n)).push(Match { ticket: j, signed: obs[n].signed })
            } else {
                repeated(keys, obs.take(n))
            },
            None => repeated(keys, obs.take(n)),
        }),
{
    assert(obs.take(n + 1).drop_last() =~= obs.take(n));
    assert(obs.take(n + 1).last() == obs[n]);
}

/// No signature is emitted for an identifier outside the known set: every
/// kept match is for a known ticket, and carries a pair that was seen with
/// that ticket's identifier.
pub proof fn lemma_correlated_known(keys: Seq<Option<Seq<u8>>>, obs: Seq<ObservationView>)
    ensures
        forall|k: int|
            0 <= k < correlated(keys, obs).len() ==> {
                let m = #[trigger] correlated(keys, obs)[k];
                &&& 0 <= m.ticket < keys.len()
                &&& exists|i: int|
                    0 <= i < obs.len() && keys[m.ticket] == Some((#[trigger] obs[i]).id)
                        && obs[i].signed == m.signed
            },
    decreases obs.len(),
{
    if obs.len() > 0 {
        let shorter = obs.drop_last();
        lemma_correlated_known(keys, shorter);
        lemma_owner_has_id(keys, obs.last().id);
        let before = correlated(keys, shorter);
        assert forall|k: int| 0 <= k < correlated(keys, obs).len() implies {
            let m = #[trigger] correlated(keys, obs)[k];
            &&& 0 <= m.ticket < keys.len()
            &&& exists|i: int|
                0 <= i < obs.len() && keys[m.ticket] == Some((#[trigger] obs[i]).id)
                    && obs[i].signed == m.signed
        } by {
            let m = correlated(keys, obs)[k];
            if k < before.len() {
                assert(m == before[k]);
                let i = choose|i: int|
                    0 <= i < shorter.len() && keys[m.ticket] == Some((#[trigger] shorter[i]).id)
                        && shorter[i].signed == m.signed;
                assert(obs[i] == shorter[i]);
            } else {
                let i = obs.len() - 1;
                assert(obs[i] == obs.last());
            }
        }
    }
}

/// No ticket gets two signatures: the kept matches are for pairwise
/// different tickets.
pub proof fn lemma_correlated_distinct(keys: Seq<Option<Seq<u8>>>, obs: Seq<ObservationView>)
    ensures
        forall|a: int, b: int|
            0 <= a < b < correlated(keys, obs).len() ==> (#[trigger] correlated(keys, obs)[a]).ticket
                != (#[trigger] correlated(keys, obs)[b]).ticket,
    decreases obs.len(),
{
    if obs.len() > 0 {
        lemma_correlated_distinct(keys, obs.drop_last());
        let before = correlated(keys, obs.drop_last());
        assert forall|a: int, b: int| 0 <= a < b < correlated(keys, obs).len() implies (
        #[trigger] correlated(keys, obs)[a]).ticket != (#[trigger] correlated(
            keys,
            obs,
        )[b]).ticket by {
            if b >= before.len() {
                assert(correlated(keys, obs)[a] == before[a]);
            }
        }
    }
}

/// Every pair that belongs to a ticket leaves that ticket claimed.
pub proof fn lemma_correlated_complete(
    keys: Seq<Option<Seq<u8>>>,
    obs: Seq<ObservationView>,
    i: int,
)
    requires
        0 <= i < obs.len(),
    ensures
        owner(keys, obs[i].id) matches Some(j) ==> claimed(correlated(keys, obs), j),
    decreases obs.len(),
{
    let before = correlated(keys, obs.drop_last());
    if let Some(j) = owner(keys, obs[i].id) {
        if i < obs.len() - 1 {
            lemma_correlated_complete(keys, obs.drop_last(), i);
            assert(obs.drop_last()[i] == obs[i]);
            if let Some(l) = owner(keys, obs.last().id) {
                lemma_claimed_push(before, Match { ticket: l, signed: obs.last().signed }, j);
            }
        } else {
            lemma_claimed_push(before, Match { ticket: j, signed: obs.last().signed }, j);
        }
    }
}

/// Scanning again changes nothing: where every pair of `again` that belongs
/// to a ticket finds that ticket already claimed by the scan of `first`,
/// the scan of `first` followed by `again` keeps exactly what the scan of
/// `first` kept.
pub proof fn lemma_rescan(
    keys: Seq<Option<Seq<u8>>>,
    first: Seq<ObservationView>,
    again: Seq<ObservationView>,
)
    requires
        forall|i: int|
            0 <= i < again.len() ==> (owner(keys, (#[trigger] again[i]).id) matches Some(j)
                ==> claimed(correlated(keys, first), j)),
    ensures
        correlated(keys, first + again) == correlated(keys, first),
    decreases again.len(),
{
    if again.len() == 0 {
        assert(first + again =~= first);
    } else {
        let shorter = again.drop_last();
        assert forall|i: int| 0 <= i < shorter.len() implies (owner(
            keys,
            (#[trigger] shorter[i]).id,
        ) matches Some(j) ==> claimed(correlated(keys, first), j)) by {
            assert(shorter[i] == again[i]);
        }
        lemma_rescan(keys, first, shorter);
        assert((first + again).drop_last() =~= first + shorter);
        assert((first + again).last() == again[again.len() - 1]);
    }
}

/// Scanning the same pairs twice over keeps what scanning them once keeps.
pub proof fn lemma_rescan_same(keys: Seq<Option<Seq<u8>>>, obs: Seq<ObservationView>)
    ensures
        correlated(keys, obs + obs) == correlated(keys, obs),
{
    assert forall|i: int| 0 <= i < obs.len() implies (owner(keys, (#[trigger] obs[i]).id) matches Some(
        j,
    ) ==> claimed(correlated(keys, obs), j)) by {
        lemma_correlated_complete(keys, obs, i);
    }
    lemma_rescan(keys, obs, obs);
}

/// Every pair of `a` is a pair of `b`, and every pair of `b` one of `a`.
pub open spec fn same_pairs(a: Seq<ObservationView>, b: Seq<ObservationView>) -> bool {
    &&& forall|i: int| 0 <= i < a.len() ==> b.contains(#[trigger] a[i])
    &&& forall|i: int| 0 <= i < b.len() ==> a.contains(#[trigger] b[i])
}

/// No known identifier was signed in two ways: pairs of `obs` that belong to
/// a ticket and bear the same identifier bear the same signature.
pub open spec fn one_signature_each(keys: Seq<Option<Seq<u8>>>, obs: Seq<ObservationView>) -> bool {
    forall|i: int, j: int|
        0 <= i < obs.len() && 0 <= j < obs.len() && owner(keys, (#[trigger] obs[i]).id) is Some
            && obs[i].id == (#[trigger] obs[j]).id ==> obs[i].signed == obs[j].signed
}

/// Some pair of `obs` belongs to the ticket of `m` and bears its signature.
pub open spec fn seen_for(keys: Seq<Option<Seq<u8>>>, obs: Seq<ObservationView>, m: Match) -> bool {
    exists|i: int|
        0 <= i < obs.len() && owner(keys, (#[trigger] obs[i]).id) == Some(m.ticket) && obs[i].signed
            == m.signed
}

/// Every kept match was seen: some pair belongs to its ticket and bears its
/// signature.
pub proof fn lemma_kept_was_seen(keys: Seq<Option<Seq<u8>>>, obs: Seq<ObservationView>, k: int)
    requires
        0 <= k < correlated(keys, obs).len(),
    ensures
        seen_for(keys, obs, correlated(keys, obs)[k]),
{
    lemma_correlated_known(keys, obs);
    lemma_correlated_owner(keys, obs);
    let m = correlated(keys, obs)[k];
    let i = choose|i: int|
        0 <= i < obs.len() && keys[m.ticket] == Some((#[trigger] obs[i]).id) && obs[i].signed
            == m.signed;
    assert(owner(keys, obs[i].id) == Some(m.ticket));
}

/// Where no known identifier was signed in two ways, a scan keeps exactly
/// the matches that were seen.
pub proof fn lemma_kept_iff_seen(keys: Seq<Option<Seq<u8>>>, obs: Seq<ObservationView>, m: Match)
    requires
        one_signature_each(keys, obs),
    ensures
        correlated(keys, obs).contains(m) <==> seen_for(keys, obs, m),
{
    let kept = correlated(keys, obs);
    if kept.contains(m) {
        let k = choose|k: int| 0 <= k < kept.len() && kept[k] == m;
        lemma_kept_was_seen(keys, obs, k);
    }
    if seen_for(keys, obs, m) {
        let i = choose|i: int|
            0 <= i < obs.len() && owner(keys, (#[trigger] obs[i]).id) == Some(m.ticket)
                && obs[i].signed == m.signed;
        lemma_correlated_complete(keys, obs, i);
        let k = choose|k: int| 0 <= k < kept.len() && (#[trigger] kept[k]).ticket == m.ticket;
        lemma_kept_was_seen(keys, obs, k);
        let j = choose|j: int|
            0 <= j < obs.len() && owner(keys, (#[trigger] obs[j]).id) == Some(kept[k].ticket)
                && obs[j].signed == kept[k].signed;
        lemma_owner_has_id(keys, obs[i].id);
        lemma_owner_has_id(keys, obs[j].id);
        assert(obs[i].id == obs[j].id);
        assert(obs[i].signed == obs[j].signed);
        assert(kept[k] == m);
    }
}

/// Two scans that saw the same pairs keep the same matches, in whatever
/// order and however often each pair was seen, where no known identifier
/// was signed in two ways: a match is kept by one exactly if the other
/// keeps it, and both keep as many.
pub proof fn lemma_rescan_overlap(
    keys: Seq<Option<Seq<u8>>>,
    a: Seq<ObservationView>,
    b: Seq<ObservationView>,
)
    requires
        same_pairs(a, b),
        one_signature_each(keys, a),
    ensures
        forall|m: Match| correlated(keys, a).contains(m) <==> correlated(keys, b).contains(m),
        correlated(keys, a).to_set() == correlated(keys, b).to_set(),
        correlated(keys, a).len() == correlated(keys, b).len(),
{
    assert(one_signature_each(keys, b)) by {
        assert forall|i: int, j: int|
            0 <= i < b.len() && 0 <= j < b.len() && owner(keys, (#[trigger] b[i]).id) is Some
                && b[i].id == (#[trigger] b[j]).id implies b[i].signed == b[j].signed by {
            assert(a.contains(b[i]));
            assert(a.contains(b[j]));
            let x = choose|x: int| 0 <= x < a.len() && a[x] == b[i];
            let y = choose|y: int| 0 <= y < a.len() && a[y] == b[j];
            assert(a[x].signed == a[y].signed);
        }
    }
    assert forall|m: Match| correlated(keys, a).contains(m) <==> correlated(keys, b).contains(
        m,
    ) by {
        lemma_kept_iff_seen(keys, a, m);
        lemma_kept_iff_seen(keys, b, m);
        if seen_for(keys, a, m) {
            let i = choose|i: int|
                0 <= i < a.len() && owner(keys, (#[trigger] a[i]).id) == Some(m.ticket)
                    && a[i].signed == m.signed;
            assert(b.contains(a[i]));
            let j = choose|j: int| 0 <= j < b.len() && b[j] == a[i];
            assert(owner(keys, b[j].id) == Some(m.ticket) && b[j].signed == m.signed);
        }
        if seen_for(keys, b, m) {
            let i = choose|i: int|
                0 <= i < b.len() && owner(keys, (#[trigger] b[i]).id) == Some(m.ticket)
                    && b[i].signed == m.signed;
            assert(a.contains(b[i]));
            let j = choose|j: int| 0 <= j < a.len() && a[j] == b[i];
            assert(owner(keys, a[j].id) == Some(m.ticket) && a[j].signed == m.signed);
        }
    }
    assert(correlated(keys, a).to_set() =~= correlated(keys, b).to_set());
    lemma_correlated_distinct(keys, a);
    lemma_correlated_distinct(keys, b);
    assert(correlated(keys, a).no_duplicates()) by {
        let kept = correlated(keys, a);
        assert forall|i: int, j: int|
            0 <= i < kept.len() && 0 <= j < kept.len() && i != j implies kept[i] != kept[j] by {
            if i < j {
                assert(kept[i].ticket != kept[j].ticket);
            } else {
                assert(kept[j].ticket != kept[i].ticket);
            }
        }
    }
    assert(correlated(keys, b).no_duplicates()) by {
        let kept = correlated(keys, b);
        assert forall|i: int, j: int|
            0 <= i < kept.len() && 0 <= j < kept.len() && i != j implies kept[i] != kept[j] by {
            if i < j {
                assert(kept[i].ticket != kept[j].ticket);
            } else {
                assert(kept[j].ticket != kept[i].ticket);
            }
        }
    }
    correlated(keys, a).unique_seq_to_set();
    correlated(keys, b).unique_seq_to_set();
}

/// Two scans over ranges that hold the same pairs emit the same signatures
/// for the same tickets, where no known identifier was signed in two ways:
/// as many, each emitted by one exactly if the other emits it, and the same
/// tickets marked as signed.
pub proof fn lemma_rescan_overlap_events(
    known: Seq<UnsignedTicketView>,
    first: Seq<SigningEventView>,
    second: Seq<SigningEventView>,
)
    requires
        same_pairs(observed(first), observed(second)),
        one_signature_each(ticket_keys(known), observed(first)),
    ensures
        correlation(known, first).input.blind_signatures.to_set() == correlation(
            known,
            second,
        ).input.blind_signatures.to_set(),
        correlation(known, first).input.unsigned_tickets.to_set() == correlation(
            known,
            second,
        ).input.unsigned_tickets.to_set(),
        correlation(known, first).input.blind_signatures.len() == correlation(
            known,
            second,
        ).input.blind_signatures.len(),
        correlation(known, first).signed == correlation(known, second).signed,
{
    let keys = ticket_keys(known);
    let ka = correlated(keys, observed(first));
    let kb = correlated(keys, observed(second));
    lemma_rescan_overlap(keys, observed(first), observed(second));
    lemma_images_agree(known, ka, kb);
    lemma_images_agree(known, kb, ka);
    assert(matched_signatures(known, ka).to_set() =~= matched_signatures(known, kb).to_set());
    assert(matched_tickets(known, ka).to_set() =~= matched_tickets(known, kb).to_set());
    assert forall|j: int| 0 <= j < known.len() implies claimed(ka, j) == claimed(kb, j) by {
        if claimed(ka, j) {
            let k = choose|k: int| 0 <= k < ka.len() && (#[trigger] ka[k]).ticket == j;
            assert(ka.contains(ka[k]));
            let l = choose|l: int| 0 <= l < kb.len() && kb[l] == ka[k];
            assert(kb[l].ticket == j);
        }
        if claimed(kb, j) {
            let k = choose|k: int| 0 <= k < kb.len() && (#[trigger] kb[k]).ticket == j;
            assert(kb.contains(kb[k]));
            let l = choose|l: int| 0 <= l < ka.len() && ka[l] == kb[k];
            assert(ka[l].ticket == j);
        }
    }
    assert(correlation(known, first).signed =~= correlation(known, second).signed);
}

/// What is emitted for matches that another run of matches holds too is
/// emitted for that run as well.
proof fn lemma_images_agree(known: Seq<UnsignedTicketView>, a: Seq<Match>, b: Seq<Match>)
    requires
        forall|m: Match| a.contains(m) ==> b.contains(m),
    ensures
        forall|s: BlindedSignatureView|
            matched_signatures(known, a).contains(s) ==> matched_signatures(known, b).contains(s),
        forall|t: UnsignedTicketView|
            matched_tickets(known, a).contains(t) ==> matched_tickets(known, b).contains(t),
{
    assert forall|s: BlindedSignatureView| matched_signatures(known, a).contains(s) implies matched_signatures(
        known,
        b,
    ).contains(s) by {
        let k = choose|k: int| 0 <= k < a.len() && matched_signatures(known, a)[k] == s;
        assert(a.contains(a[k]));
        let l = choose|l: int| 0 <= l < b.len() && b[l] == a[k];
        assert(matched_signatures(known, b)[l] == s);
    }
    assert forall|t: UnsignedTicketView| matched_tickets(known, a).contains(t) implies matched_tickets(
        known,
        b,
    ).contains(t) by {
        let k = choose|k: int| 0 <= k < a.len() && matched_tickets(known, a)[k] == t;
        assert(a.contains(a[k]));
        let l = choose|l: int| 0 <= l < b.len() && b[l] == a[k];
        assert(matched_tickets(known, b)[l] == t);
    }
}

/// Every kept match is for the ticket that owns its identifier.
pub proof fn lemma_correlated_owner(keys: Seq<Option<Seq<u8>>>, obs: Seq<ObservationView>)
    ensures
        forall|k: int|
            0 <= k < correlated(keys, obs).len() ==> {
                let m = #[trigger] correlated(keys, obs)[k];
                &&& 0 <= m.ticket < keys.len()
                &&& keys[m.ticket] is Some
                &&& owner(keys, keys[m.ticket]->0) == Some(m.ticket)
            },
    decreases obs.len(),
{
    if obs.len() > 0 {
        lemma_correlated_owner(keys, obs.drop_last());
        lemma_owner_has_id(keys, obs.last().id);
        let before = correlated(keys, obs.drop_last());
        assert forall|k: int| 0 <= k < correlated(keys, obs).len() implies {
            let m = #[trigger] correlated(keys, obs)[k];
            &&& 0 <= m.ticket < keys.len()
            &&& keys[m.ticket] is Some
            &&& owner(keys, keys[m.ticket]->0) == Some(m.ticket)
        } by {
            if k < before.len() {
                assert(correlated(keys, obs)[k] == before[k]);
            }
        }
    }
}

/// The pairs of two runs of events are the pairs of the first run followed
/// by the pairs of the second.
pub proof fn lemma_observed_concat(first: Seq<SigningEventView>, second: Seq<SigningEventView>)
    ensures
        observed(first + second) == observed(first) + observed(second),
    decreases second.len(),
{
    if second.len() == 0 {
        assert(first + second =~= first);
        assert(observed(first) + observed(second) =~= observed(first));
    } else {
        lemma_observed_concat(first, second.drop_last());
        assert((first + second).drop_last() =~= first + second.drop_last());
        assert((first + second).last() == second.last());
        assert(observed(first + second) =~= observed(first) + observed(second));
    }
}

/// Every pair read from a run of events is a pair of one of the events.
pub proof fn lemma_observed_origin(events: Seq<SigningEventView>, n: int)
    requires
        0 <= n < observed(events).len(),
    ensures
        exists|e: int, i: int|
            0 <= e < events.len() && 0 <= i < (#[trigger] events[e]).pairs().len() && observed(
                events,
            )[n] == #[trigger] events[e].pairs()[i],
    decreases events.len(),
{
    let shorter = events.drop_last();
    if n < observed(shorter).len() {
        lemma_observed_origin(shorter, n);
        let (e, i) = choose|e: int, i: int|
            0 <= e < shorter.len() && 0 <= i < (#[trigger] shorter[e]).pairs().len() && observed(
                shorter,
            )[n] == #[trigger] shorter[e].pairs()[i];
        assert(events[e] == shorter[e]);
        assert(observed(events)[n] == events[e].pairs()[i]);
    } else {
        let e = events.len() - 1;
        let i = n - observed(shorter).len();
        assert(observed(events)[n] == events[e].pairs()[i]);
    }
}

/// Every pair of every event is among the pairs read from the run.
pub proof fn lemma_pair_observed(events: Seq<SigningEventView>, e: int, i: int)
    requires
        0 <= e < events.len(),
        0 <= i < events[e].pairs().len(),
    ensures
        exists|n: int| 0 <= n < observed(events).len() && #[trigger] observed(events)[n] == events[e].pairs()[i],
    decreases events.len(),
{
    let shorter = events.drop_last();
    if e < events.len() - 1 {
        lemma_pair_observed(shorter, e, i);
        let n = choose|n: int|
            0 <= n < observed(shorter).len() && #[trigger] observed(shorter)[n] == shorter[e].pairs()[i];
        assert(observed(events)[n] == observed(shorter)[n]);
    } else {
        let n = observed(shorter).len() + i;
        assert(observed(events)[n] == events[e].pairs()[i]);
    }
}

/// No signature is emitted for an identifier outside the known set: every
/// signature that a scan emits bears the `id` text of a known ticket, and
/// that text spells an identifier.
pub proof fn lemma_signatures_known(known: Seq<UnsignedTicketView>, events: Seq<SigningEventView>)
    ensures
        forall|k: int|
            0 <= k < correlation(known, events).input.blind_signatures.len() ==> exists|j: int|
                0 <= j < known.len() && (#[trigger] correlation(
                    known,
                    events,
                ).input.blind_signatures[k]).id == (#[trigger] known[j]).id && id_value(known[j].id) is Some,
{
    let keys = ticket_keys(known);
    let kept = correlated(keys, observed(events));
    lemma_correlated_owner(keys, observed(events));
    let out = correlation(known, events).input.blind_signatures;
    assert forall|k: int| 0 <= k < out.len() implies exists|j: int|
        0 <= j < known.len() && (#[trigger] out[k]).id == (#[trigger] known[j]).id && id_value(
            known[j].id,
        ) is Some by {
        let j = kept[k].ticket;
        assert(keys[j] == id_value(known[j].id));
        assert(out[k].id == known[j].id);
    }
}

/// No identifier is emitted twice: the signatures that a scan emits are for
/// pairwise different identifiers.
pub proof fn lemma_signatures_distinct(known: Seq<UnsignedTicketView>, events: Seq<SigningEventView>)
    ensures
        forall|a: int, b: int|
            0 <= a < b < correlation(known, events).input.blind_signatures.len() ==> id_value(
                (#[trigger] correlation(known, events).input.blind_signatures[a]).id,
            ) != id_value((#[trigger] correlation(known, events).input.blind_signatures[b]).id),
{
    let keys = ticket_keys(known);
    let kept = correlated(keys, observed(events));
    lemma_correlated_owner(keys, observed(events));
    lemma_correlated_distinct(keys, observed(events));
    let out = correlation(known, events).input.blind_signatures;
    assert forall|a: int, b: int| 0 <= a < b < out.len() implies id_value((#[trigger] out[a]).id)
        != id_value((#[trigger] out[b]).id) by {
        let ja = kept[a].ticket;
        let jb = kept[b].ticket;
        assert(keys[ja] == id_value(known[ja].id));
        assert(keys[jb] == id_value(known[jb].id));
        assert(out[a].id == known[ja].id);
        assert(out[b].id == known[jb].id);
        assert(ja != jb);
    }
}

/// Scanning again over a range that overlaps changes nothing: where every
/// event of `again` is one of the events of `first`, the scan of `first`
/// followed by `again` emits the tickets and signatures that the scan of
/// `first` emits, and marks the same tickets as signed.
pub proof fn lemma_rescan_events(
    known: Seq<UnsignedTicketView>,
    first: Seq<SigningEventView>,
    again: Seq<SigningEventView>,
)
    requires
        forall|e: int|
            0 <= e < again.len() ==> exists|f: int|
                0 <= f < first.len() && #[trigger] first[f] == #[trigger] again[e],
    ensures
        correlation(known, first + again).input == correlation(known, first).input,
        correlation(known, first + again).signed == correlation(known, first).signed,
{
    let keys = ticket_keys(known);
    let seen = observed(first);
    let more = observed(again);
    lemma_observed_concat(first, again);
    assert forall|n: int| 0 <= n < more.len() implies (owner(keys, (#[trigger] more[n]).id) matches Some(
        j,
    ) ==> claimed(correlated(keys, seen), j)) by {
        lemma_observed_origin(again, n);
        let (e, i) = choose|e: int, i: int|
            0 <= e < again.len() && 0 <= i < (#[trigger] again[e]).pairs().len() && more[n]
                == #[trigger] again[e].pairs()[i];
        let f = choose|f: int| 0 <= f < first.len() && #[trigger] first[f] == #[trigger] again[e];
        lemma_pair_observed(first, f, i);
        let m = choose|m: int| 0 <= m < seen.len() && #[trigger] seen[m] == first[f].pairs()[i];
        lemma_correlated_complete(keys, seen, m);
    }
    lemma_rescan(keys, seen, more);
    assert(correlation(known, first + again).signed =~= correlation(known, first).signed);
}

/// What a scan emits is fit to be finalized: each signature stands at the
/// index of its ticket and bears that ticket's `id` text.
pub proof fn lemma_correlation_aligned(
    known: Seq<UnsignedTicketView>,
    events: Seq<SigningEventView>,
)
    ensures
        aligned(correlation(known, events).input),
{
}

/// A copy of `bytes`.
fn copy_bytes(bytes: &Vec<u8>) -> (r: Vec<u8>)
    ensures
        r@ == bytes@,
{
    let mut out: Vec<u8> = Vec::new();
    let mut i: usize = 0;
    while i < bytes.len()
        invariant
            i <= bytes.len(),
            out@ == bytes@.take(i as int),
        decreases bytes.len() - i,
    {
        out.push(bytes[i]);
        assert(bytes@.take(i + 1) =~= bytes@.take(i as int).push(bytes@[i as int]));
        i += 1;
    }
    assert(bytes@.take(bytes.len() as int) =~= bytes@);
    out
}

/// Reads the pairs of all events, in the order of the events.
pub fn observations(events: &Vec<SigningEvent>) -> (r: Vec<Observation>)
    ensures
        r.deep_view() == observed(events.deep_view()),
{
    let ghost views = events.deep_view();
    let mut out: Vec<Observation> = Vec::new();
    let mut e: usize = 0;
    assert(views.take(0) =~= Seq::empty());
    while e < events.len()
        invariant
            e <= events.len(),
            views == events.deep_view(),
            out.deep_view() == observed(views.take(e as int)),
        decreases events.len() - e,
    {
        let event = &events[e];
        let ghost event_view = event.deep_view();
        let ghost done = out.deep_view();
        let count = if event.ids.len() <= event.signed.len() {
            event.ids.len()
        } else {
            event.signed.len()
        };
        let mut i: usize = 0;
        assert(event_view.pairs().take(0) =~= Seq::empty());
        assert(done + Seq::<ObservationView>::empty() =~= done);
        while i < count
            invariant
                i <= count,
                count == event_view.pair_count(),
                event_view == event.deep_view(),
                count <= event.ids.len(),
                count <= event.signed.len(),
                out.deep_view() == done + event_view.pairs().take(i as int),
            decreases count - i,
        {
            let ghost old_out = out.deep_view();
            let observation = Observation { id: event.ids[i], signed: copy_bytes(&event.signed[i]) };
            assert(observation.deep_view() == event_view.pairs()[i as int]);
            out.push(observation);
            assert(out.deep_view() =~= old_out.push(observation.deep_view()));
            assert(event_view.pairs().take(i + 1) =~= event_view.pairs().take(i as int).push(
                event_view.pairs()[i as int],
            ));
            assert(out.deep_view() =~= done + event_view.pairs().take(i + 1));
            i += 1;
        }
        assert(event_view.pairs().take(count as int) =~= event_view.pairs());
        assert(views.take(e + 1).drop_last() =~= views.take(e as int));
        assert(views.take(e + 1).last() == event_view);
        e += 1;
    }
    assert(views.take(events.len() as int) =~= views);
    out
}

/// As many `false` as `count`.
fn unclaimed(count: usize) -> (r: Vec<bool>)
    ensures
        r@.len() == count,
        forall|k: int| 0 <= k < count ==> !r@[k],
{
    let mut flags: Vec<bool> = Vec::new();
    let mut j: usize = 0;
    while j < count
        invariant
            j <= count,
            flags@.len() == j,
            forall|k: int| 0 <= k < j ==> !flags@[k],
        decreases count - j,
    {
        flags.push(false);
        j += 1;
    }
    flags
}

/// Pushing a match extends the matched tickets and signatures by its own.
proof fn lemma_matched_push(known: Seq<UnsignedTicketView>, ms: Seq<Match>, m: Match)
    ensures
        matched_tickets(known, ms.push(m)) == matched_tickets(known, ms).push(known[m.ticket]),
        matched_signatures(known, ms.push(m)) == matched_signatures(known, ms).push(
            BlindedSignatureView {
                blind_sig: encoded_prefixed(m.signed),
                id: known[m.ticket].id,
            },
        ),
{
    assert(matched_tickets(known, ms.push(m)) =~= matched_tickets(known, ms).push(known[m.ticket]));
    assert(matched_signatures(known, ms.push(m)) =~= matched_signatures(known, ms).push(
        BlindedSignatureView { blind_sig: encoded_prefixed(m.signed), id: known[m.ticket].id },
    ));
}

/// Matches the pairs `seen`, in their order, against the tickets `known`.
///
/// For each known ticket the first pair with its identifier is kept; later
/// pairs for that ticket are returned under `repeated`; pairs for unknown
/// identifiers are dropped.
pub fn correlate_observations(known: &Vec<UnsignedTicket>, seen: &Vec<Observation>) -> (r:
    Correlation)
    ensures
        r.input.unsigned_tickets.deep_view() == matched_tickets(
            known.deep_view(),
            correlated(ticket_keys(known.deep_view()), seen.deep_view()),
        ),
        r.input.blind_signatures.deep_view() == matched_signatures(
            known.deep_view(),
            correlated(ticket_keys(known.deep_view()), seen.deep_view()),
        ),
        r.repeated.deep_view() == matched_signatures(
            known.deep_view(),
            repeated(ticket_keys(known.deep_view()), seen.deep_view()),
        ),
        r.signed@ == Seq::new(
            known@.len(),
            |j: int| claimed(correlated(ticket_keys(known.deep_view()), seen.deep_view()), j),
        ),
{
    let ghost tickets = known.deep_view();
    let ghost keys = ticket_keys(tickets);
    let ghost obs = seen.deep_view();
    let ids = KnownIds::new(known);
    let mut unsigned_tickets: Vec<UnsignedTicket> = Vec::new();
    let mut blind_signatures: Vec<BlindedSignature> = Vec::new();
    let mut again: Vec<BlindedSignature> = Vec::new();
    let mut signed = unclaimed(known.len());
    let ghost mut kept: Seq<Match> = Seq::empty();
    let ghost mut aside: Seq<Match> = Seq::empty();
    proof {
        assert(obs.take(0) =~= Seq::empty());
        assert(unsigned_tickets.deep_view() =~= matched_tickets(tickets, kept));
        assert(blind_signatures.deep_view() =~= matched_signatures(tickets, kept));
        assert(again.deep_view() =~= matched_signatures(tickets, aside));
    }
    let mut n: usize = 0;
    while n < seen.len()
        invariant
            n <= seen.len(),
            tickets == known.deep_view(),
            keys == ticket_keys(tickets),
            obs == seen.deep_view(),
            ids.keys() == keys,
            keys.len() == known@.len(),
            signed@.len() == known@.len(),
            kept == correlated(keys, obs.take(n as int)),
            aside == repeated(keys, obs.take(n as int)),
            forall|t: int| 0 <= t < signed@.len() ==> signed@[t] == claimed(kept, t),
            unsigned_tickets.deep_view() == matched_tickets(tickets, kept),
            blind_signatures.deep_view() == matched_signatures(tickets, kept),
            again.deep_view() == matched_signatures(tickets, aside),
        decreases seen.len() - n,
    {
        let pair = &seen[n];
        proof {
            lemma_correlated_step(keys, obs, n as int);
            assert(obs[n as int] == pair.deep_view());
        }
        match ids.find(pair.id.as_slice()) {
            Some(t) => {
                let ghost m = Match { ticket: t as int, signed: pair.signed@ };
                assert(owner(keys, obs[n as int].id) == Some(t as int));
                let signature = BlindedSignature {
                    blind_sig: encode_prefixed(pair.signed.as_slice()),
                    id: known[t].id.clone(),
                };
                assert(signature.deep_view() == BlindedSignatureView {
                    blind_sig: encoded_prefixed(m.signed),
                    id: tickets[m.ticket].id,
                });
                if signed[t] {
                    assert(claimed(kept, t as int));
                    let ghost before = again.deep_view();
                    again.push(signature);
                    proof {
                        assert(again.deep_view() =~= before.push(signature.deep_view()));
                        lemma_matched_push(tickets, aside, m);
                        aside = aside.push(m);
                    }
                } else {
                    assert(!claimed(kept, t as int));
                    let ghost before_tickets = unsigned_tickets.deep_view();
                    let ghost before_signatures = blind_signatures.deep_view();
                    let ghost before_signed = signed@;
                    let ticket = known[t].duplicate();
                    unsigned_tickets.push(ticket);
                    blind_signatures.push(signature);
                    signed.set(t, true);
                    proof {
                        assert(unsigned_tickets.deep_view() =~= before_tickets.push(
                            tickets[t as int],
                        ));
                        assert(blind_signatures.deep_view() =~= before_signatures.push(
                            signature.deep_view(),
                        ));
                        lemma_matched_push(tickets, kept, m);
                        assert forall|u: int| 0 <= u < signed@.len() implies signed@[u] == claimed(
                            kept.push(m),
                            u,
                        ) by {
                            lemma_claimed_push(kept, m, u);
                            assert(before_signed[u] == claimed(kept, u));
                        }
                        kept = kept.push(m);
                    }
                }
            },
            None => {
                assert(owner(keys, obs[n as int].id) is None);
            },
        }
        n += 1;
    }
    proof {
        assert(obs.take(seen.len() as int) =~= obs);
        assert(signed@ =~= Seq::new(known@.len(), |j: int| claimed(correlated(keys, obs), j)));
    }
    Correlation {
        input: FinalizeInput { unsigned_tickets, blind_signatures },
        repeated: again,
        signed,
    }
}

/// Matches the signing `events`, in their order, against the tickets `known`.
///
/// The first pair seen for a ticket is kept and every later one is returned
/// under `repeated`, so that no ticket is ever emitted with two signatures.
pub fn correlate(known: &Vec<UnsignedTicket>, events: &Vec<SigningEvent>) -> (r: Correlation)
    ensures
        r.deep_view() == correlation(known.deep_view(), events.deep_view()),
        aligned(r.input.deep_view()),
{
    let seen = observations(events);
    correlate_observations(known, &seen)
}

} // verus!
