//! The state that the operations work on, as a mathematical value: the
//! current record of each identifier and the history of each identifier.

use crate::error::InvoiceError;
use crate::lifecycle::Step;
use crate::record::{InvoiceView, TrackView};
use crate::text::{
    lemma_text_lt_irreflexive, lemma_text_lt_total, lemma_text_lt_transitive, text_lt,
};
use vstd::prelude::*;

verus! {

/// The record store and the history log.
pub struct LedgerView {
    /// The current record of each identifier.
    pub records: Map<Seq<char>, InvoiceView>,
    /// For each identifier, the record as it stood after each accepted
    /// operation, oldest first.
    pub history: Map<Seq<char>, Seq<InvoiceView>>,
}

impl LedgerView {
    /// The state in which nothing is stored.
    pub open spec fn empty() -> LedgerView {
        LedgerView { records: Map::empty(), history: Map::empty() }
    }

    /// A record is stored under `id`.
    pub open spec fn holds(self, id: Seq<char>) -> bool {
        self.records.dom().contains(id)
    }

    /// The history of `id`; empty if there is none.
    pub open spec fn past(self, id: Seq<char>) -> Seq<InvoiceView> {
        if self.history.dom().contains(id) {
            self.history[id]
        } else {
            Seq::empty()
        }
    }

    /// The state after `rec` was accepted as the new value of its identifier:
    /// it is the current record, and the last entry of the history.
    pub open spec fn commit(self, rec: InvoiceView) -> LedgerView {
        LedgerView {
            records: self.records.insert(rec.record_id, rec),
            history: self.history.insert(rec.record_id, self.past(rec.record_id).push(rec)),
        }
    }

    /// What holds of every state that the operations can produce: finitely
    /// many records; each stored under its own identifier, with a history;
    /// each history non-empty, of records under that identifier, ending in
    /// the current record; every record, current or past, one that the
    /// lifecycle can produce.
    pub open spec fn valid(self) -> bool {
        &&& self.records.dom().finite()
        &&& self.history.dom() == self.records.dom()
        &&& forall|id: Seq<char>| #[trigger]
            self.holds(id) ==> {
                &&& self.records[id].record_id == id
                &&& self.records[id].consistent()
                &&& self.history[id].len() > 0
                &&& self.history[id].last() == self.records[id]
                &&& forall|k: int|
                    0 <= k < self.history[id].len() ==> {
                        &&& (#[trigger] self.history[id][k]).record_id == id
                        &&& self.history[id][k].consistent()
                    }
            }
    }

    /// Why creation from `input` is refused: a required field is empty, or
    /// else the identifier is taken. `None` if it is accepted.
    pub open spec fn creation_refusal(self, input: InvoiceView) -> Option<InvoiceError> {
        if !input.has_creation_fields() {
            Some(InvoiceError::InvalidInput)
        } else if self.holds(input.record_id) {
            Some(InvoiceError::AlreadyExists)
        } else {
            None
        }
    }

    /// The state after an accepted creation.
    pub open spec fn created(self, input: InvoiceView, now: u64) -> LedgerView {
        self.commit(InvoiceView::fresh(input, now))
    }

    /// Why a transition is refused: a required text is empty, or else no
    /// record is stored under `id`, or else the record refuses it. `None` if
    /// it is accepted.
    pub open spec fn step_refusal(
        self,
        step: Step,
        id: Seq<char>,
        action: Seq<char>,
        txn_hash: Seq<char>,
    ) -> Option<InvoiceError> {
        if id.len() == 0 || action.len() == 0 || txn_hash.len() == 0 || !step.has_inputs() {
            Some(InvoiceError::InvalidInput)
        } else if !self.holds(id) {
            Some(InvoiceError::NotFound)
        } else {
            self.records[id].refusal(step)
        }
    }

    /// The state after an accepted transition.
    pub open spec fn stepped(
        self,
        step: Step,
        id: Seq<char>,
        action: Seq<char>,
        txn_hash: Seq<char>,
        now: u64,
    ) -> LedgerView {
        self.commit(self.records[id].after(step, action, txn_hash, now))
    }

    /// Why an update of the tracking metadata is refused: the identifier or
    /// the event is empty, or else no record is stored under `id`. `None` if
    /// it is accepted.
    pub open spec fn tracking_refusal(self, id: Seq<char>, event: Seq<char>) -> Option<
        InvoiceError,
    > {
        if id.len() == 0 || event.len() == 0 {
            Some(InvoiceError::InvalidInput)
        } else if !self.holds(id) {
            Some(InvoiceError::NotFound)
        } else {
            None
        }
    }

    /// The state after an accepted update of the tracking metadata.
    pub open spec fn tracking_updated(self, id: Seq<char>, tracking: TrackView) -> LedgerView {
        self.commit(self.records[id].with_tracking(tracking))
    }

    /// `s` lists the current records, each once, in ascending order of
    /// identifier.
    pub open spec fn lists(self, s: Seq<InvoiceView>) -> bool {
        &&& ascending(s)
        &&& forall|i: int|
            0 <= i < s.len() ==> self.holds(#[trigger] key(s, i)) && self.records[key(s, i)] == s[i]
        &&& forall|id: Seq<char>| #[trigger] self.holds(id) ==> listed(s, id)
    }

    /// The current records in ascending order of identifier.
    pub open spec fn listing(self) -> Seq<InvoiceView> {
        choose|s: Seq<InvoiceView>| self.lists(s)
    }

    /// The state whose current records are `recs` and in which the history of
    /// `recs[i]` is `hists[i]`.
    pub open spec fn of_parts(recs: Seq<InvoiceView>, hists: Seq<Seq<InvoiceView>>) -> LedgerView {
        LedgerView {
            records: Map::new(|id: Seq<char>| listed(recs, id), |id: Seq<char>| recs[slot(recs, id)]),
            history: Map::new(
                |id: Seq<char>| listed(recs, id),
                |id: Seq<char>| hists[slot(recs, id)],
            ),
        }
    }
}

/// The identifier of the record at place `i`.
pub open spec fn key(recs: Seq<InvoiceView>, i: int) -> Seq<char> {
    recs[i].record_id
}

/// One of the records has the identifier `id`.
pub open spec fn listed(recs: Seq<InvoiceView>, id: Seq<char>) -> bool {
    exists|i: int| 0 <= i < recs.len() && #[trigger] key(recs, i) == id
}

/// A place at which the record with identifier `id` stands.
pub open spec fn slot(recs: Seq<InvoiceView>, id: Seq<char>) -> int {
    choose|i: int| 0 <= i < recs.len() && #[trigger] key(recs, i) == id
}

/// The records stand in strictly ascending order of identifier.
pub open spec fn ascending(recs: Seq<InvoiceView>) -> bool {
    forall|i: int, j: int|
        0 <= i < j < recs.len() ==> text_lt(#[trigger] key(recs, i), #[trigger] key(recs, j))
}

/// `hist` is a history that ends in `rec`: not empty, of records that the
/// lifecycle can produce under the identifier of `rec`, the last of them
/// `rec` itself.
pub open spec fn history_of(hist: Seq<InvoiceView>, rec: InvoiceView) -> bool {
    &&& rec.consistent()
    &&& hist.len() > 0
    &&& hist.last() == rec
    &&& forall|k: int|
        0 <= k < hist.len() ==> (#[trigger] hist[k]).record_id == rec.record_id
            && hist[k].consistent()
}

/// Records and histories, place by place, make up a state that the
/// operations can produce.
pub open spec fn parts_valid(recs: Seq<InvoiceView>, hists: Seq<Seq<InvoiceView>>) -> bool {
    &&& recs.len() == hists.len()
    &&& ascending(recs)
    &&& forall|i: int| 0 <= i < recs.len() ==> history_of(#[trigger] hists[i], recs[i])
}

/// In an ascending list every identifier stands at one place only.
pub proof fn lemma_slot(recs: Seq<InvoiceView>, i: int)
    requires
        ascending(recs),
        0 <= i < recs.len(),
    ensures
        listed(recs, key(recs, i)),
        slot(recs, key(recs, i)) == i,
{
    let id = key(recs, i);
    let j = slot(recs, id);
    lemma_text_lt_irreflexive(id);
    if j < i {
        assert(text_lt(key(recs, j), key(recs, i)));
    } else if j > i {
        assert(text_lt(key(recs, i), key(recs, j)));
    }
}

/// The state made of valid parts is valid, lists its records in the order of
/// the parts, and holds as many records as there are parts.
pub proof fn lemma_of_parts(recs: Seq<InvoiceView>, hists: Seq<Seq<InvoiceView>>)
    requires
        parts_valid(recs, hists),
    ensures
        LedgerView::of_parts(recs, hists).valid(),
        LedgerView::of_parts(recs, hists).lists(recs),
        LedgerView::of_parts(recs, hists).records.dom().len() == recs.len(),
        forall|i: int|
            0 <= i < recs.len() ==> LedgerView::of_parts(recs, hists).holds(#[trigger] key(recs, i))
                && LedgerView::of_parts(recs, hists).records[key(recs, i)] == recs[i]
                && LedgerView::of_parts(recs, hists).history[key(recs, i)] == hists[i],
{
    let l = LedgerView::of_parts(recs, hists);
    let keys = Seq::new(recs.len(), |i: int| key(recs, i));
    assert forall|i: int| 0 <= i < recs.len() implies l.holds(#[trigger] key(recs, i))
        && l.records[key(recs, i)] == recs[i] && l.history[key(recs, i)] == hists[i] by {
        lemma_slot(recs, i);
    }
    assert forall|id: Seq<char>| #[trigger] l.holds(id) implies {
        &&& l.records[id].record_id == id
        &&& l.records[id].consistent()
        &&& l.history[id].len() > 0
        &&& l.history[id].last() == l.records[id]
        &&& forall|k: int|
            0 <= k < l.history[id].len() ==> {
                &&& (#[trigger] l.history[id][k]).record_id == id
                &&& l.history[id][k].consistent()
            }
    } by {
        let j = slot(recs, id);
        assert(history_of(hists[j], recs[j]));
    }
    assert(l.records.dom() =~= keys.to_set()) by {
        assert forall|id: Seq<char>| l.records.dom().contains(id) implies keys.to_set().contains(
            id,
        ) by {
            let j = slot(recs, id);
            assert(keys[j] == id);
        }
        assert forall|id: Seq<char>| keys.to_set().contains(id) implies l.records.dom().contains(
            id,
        ) by {
            let j = choose|j: int| 0 <= j < keys.len() && keys[j] == id;
            assert(key(recs, j) == id);
        }
    }
    assert(l.history.dom() =~= l.records.dom());
    vstd::seq_lib::seq_to_set_is_finite(keys);
    assert(keys.no_duplicates()) by {
        assert forall|i: int, j: int| 0 <= i < keys.len() && 0 <= j < keys.len() && i != j implies keys[i]
            != keys[j] by {
            lemma_text_lt_irreflexive(keys[i]);
            if i < j {
                assert(text_lt(key(recs, i), key(recs, j)));
            } else {
                assert(text_lt(key(recs, j), key(recs, i)));
            }
        }
    }
    keys.unique_seq_to_set();
}

/// Replacing the record at place `i`, and its history, by others under the
/// same identifier changes the state at that identifier only.
pub proof fn lemma_of_parts_update(
    recs: Seq<InvoiceView>,
    hists: Seq<Seq<InvoiceView>>,
    i: int,
    rec: InvoiceView,
    hist: Seq<InvoiceView>,
)
    requires
        ascending(recs),
        recs.len() == hists.len(),
        0 <= i < recs.len(),
        rec.record_id == key(recs, i),
    ensures
        ascending(recs.update(i, rec)),
        LedgerView::of_parts(recs.update(i, rec), hists.update(i, hist)) == (LedgerView {
            records: LedgerView::of_parts(recs, hists).records.insert(rec.record_id, rec),
            history: LedgerView::of_parts(recs, hists).history.insert(rec.record_id, hist),
        }),
{
    let recs2 = recs.update(i, rec);
    let hists2 = hists.update(i, hist);
    let old_l = LedgerView::of_parts(recs, hists);
    let new_l = LedgerView::of_parts(recs2, hists2);
    assert forall|j: int| 0 <= j < recs.len() implies #[trigger] key(recs2, j) == key(recs, j) by {}
    assert(ascending(recs2)) by {
        assert forall|a: int, b: int| 0 <= a < b < recs2.len() implies text_lt(
            #[trigger] key(recs2, a),
            #[trigger] key(recs2, b),
        ) by {
            assert(text_lt(key(recs, a), key(recs, b)));
        }
    }
    assert forall|id: Seq<char>| listed(recs2, id) == listed(recs, id) by {
        if listed(recs, id) {
            let j = slot(recs, id);
            assert(key(recs2, j) == id);
        }
        if listed(recs2, id) {
            let j = slot(recs2, id);
            assert(key(recs, j) == id);
        }
    }
    assert forall|id: Seq<char>| listed(recs, id) implies slot(recs2, id) == slot(recs, id) by {
        let j = slot(recs, id);
        lemma_slot(recs2, j);
    }
    lemma_slot(recs, i);
    assert(new_l.records =~= old_l.records.insert(rec.record_id, rec));
    assert(new_l.history =~= old_l.history.insert(rec.record_id, hist));
}

/// Putting a record with a new identifier at its place in the order, and its
/// history with it, adds that identifier to the state and changes nothing
/// else.
pub proof fn lemma_of_parts_insert(
    recs: Seq<InvoiceView>,
    hists: Seq<Seq<InvoiceView>>,
    p: int,
    rec: InvoiceView,
    hist: Seq<InvoiceView>,
)
    requires
        ascending(recs),
        recs.len() == hists.len(),
        0 <= p <= recs.len(),
        forall|j: int| 0 <= j < p ==> text_lt(#[trigger] key(recs, j), rec.record_id),
        forall|j: int| p <= j < recs.len() ==> text_lt(rec.record_id, #[trigger] key(recs, j)),
    ensures
        ascending(recs.insert(p, rec)),
        !listed(recs, rec.record_id),
        LedgerView::of_parts(recs.insert(p, rec), hists.insert(p, hist)) == (LedgerView {
            records: LedgerView::of_parts(recs, hists).records.insert(rec.record_id, rec),
            history: LedgerView::of_parts(recs, hists).history.insert(rec.record_id, hist),
        }),
{
    let recs2 = recs.insert(p, rec);
    let hists2 = hists.insert(p, hist);
    let old_l = LedgerView::of_parts(recs, hists);
    let new_l = LedgerView::of_parts(recs2, hists2);
    let id0 = rec.record_id;
    lemma_text_lt_irreflexive(id0);
    assert(!listed(recs, id0)) by {
        if listed(recs, id0) {
            let j = slot(recs, id0);
            if j < p {
                assert(text_lt(key(recs, j), id0));
            } else {
                assert(text_lt(id0, key(recs, j)));
            }
        }
    }
    assert(key(recs2, p) == id0);
    assert forall|j: int| 0 <= j < p implies #[trigger] key(recs2, j) == key(recs, j) && hists2[j]
        == hists[j] by {}
    assert forall|j: int| p < j < recs2.len() implies #[trigger] key(recs2, j) == key(recs, j - 1)
        && recs2[j] == recs[j - 1] && hists2[j] == hists[j - 1] by {}
    assert(ascending(recs2)) by {
        assert forall|a: int, b: int| 0 <= a < b < recs2.len() implies text_lt(
            #[trigger] key(recs2, a),
            #[trigger] key(recs2, b),
        ) by {
            if b < p {
                assert(text_lt(key(recs, a), key(recs, b)));
            } else if b == p {
                assert(text_lt(key(recs, a), id0));
            } else if a < p {
                assert(text_lt(key(recs, a), key(recs, b - 1)));
            } else if a == p {
                assert(text_lt(id0, key(recs, b - 1)));
            } else {
                assert(text_lt(key(recs, a - 1), key(recs, b - 1)));
            }
        }
    }
    assert forall|id: Seq<char>| listed(recs2, id) == (id == id0 || listed(recs, id)) by {
        if listed(recs, id) {
            let j = slot(recs, id);
            let j2 = if j < p { j } else { j + 1 };
            assert(key(recs2, j2) == id);
        }
        if listed(recs2, id) && id != id0 {
            let j2 = slot(recs2, id);
            let j = if j2 < p { j2 } else { j2 - 1 };
            assert(key(recs, j) == id);
        }
    }
    assert forall|id: Seq<char>| listed(recs, id) implies recs2[slot(recs2, id)] == recs[slot(
        recs,
        id,
    )] && hists2[slot(recs2, id)] == hists[slot(recs, id)] by {
        let j = slot(recs, id);
        let j2 = if j < p { j } else { j + 1 };
        assert(key(recs2, j2) == id);
        lemma_slot(recs2, j2);
    }
    lemma_slot(recs2, p);
    assert(new_l.records =~= old_l.records.insert(id0, rec));
    assert(new_l.history =~= old_l.history.insert(id0, hist));
}

/// Two lists of the current records in ascending order are the same list.
pub proof fn lemma_lists_unique(l: LedgerView, a: Seq<InvoiceView>, b: Seq<InvoiceView>)
    requires
        l.lists(a),
        l.lists(b),
    ensures
        a == b,
    decreases a.len(),
{
    if a.len() == 0 {
        if b.len() > 0 {
            assert(l.holds(key(b, 0)));
        }
        assert(a =~= b);
    } else {
        let ka = key(a, a.len() - 1);
        let kb = key(b, b.len() - 1);
        assert(l.holds(ka));
        let j = slot(b, ka);
        assert(l.holds(kb));
        let i = slot(a, kb);
        lemma_text_lt_irreflexive(ka);
        if j < b.len() - 1 {
            assert(text_lt(key(b, j), key(b, b.len() - 1)));
            if i < a.len() - 1 {
                assert(text_lt(key(a, i), key(a, a.len() - 1)));
                lemma_text_lt_transitive(ka, kb, ka);
            }
        }
        assert(ka == kb);
        let rest = LedgerView { records: l.records.remove(ka), history: l.history };
        lemma_lists_without_last(l, a);
        lemma_lists_without_last(l, b);
        lemma_lists_unique(rest, a.drop_last(), b.drop_last());
        assert(a =~= a.drop_last().push(a.last()));
        assert(b =~= b.drop_last().push(b.last()));
    }
}

/// A list of the current records without its last record lists the state
/// without that record.
proof fn lemma_lists_without_last(l: LedgerView, a: Seq<InvoiceView>)
    requires
        l.lists(a),
        a.len() > 0,
    ensures
        (LedgerView {
            records: l.records.remove(key(a, a.len() - 1)),
            history: l.history,
        }).lists(a.drop_last()),
{
    let k = key(a, a.len() - 1);
    let rest = LedgerView { records: l.records.remove(k), history: l.history };
    let a1 = a.drop_last();
    lemma_text_lt_irreflexive(k);
    assert forall|x: int| 0 <= x < a1.len() implies #[trigger] key(a1, x) == key(a, x) by {}
    assert forall|x: int, y: int| 0 <= x < y < a1.len() implies text_lt(
        #[trigger] key(a1, x),
        #[trigger] key(a1, y),
    ) by {
        assert(text_lt(key(a, x), key(a, y)));
    }
    assert forall|x: int| 0 <= x < a1.len() implies rest.holds(#[trigger] key(a1, x))
        && rest.records[key(a1, x)] == a1[x] by {
        assert(text_lt(key(a, x), key(a, a.len() - 1)));
        assert(l.holds(key(a, x)));
    }
    assert forall|id: Seq<char>| #[trigger] rest.holds(id) implies listed(a1, id) by {
        assert(l.holds(id));
        let x = slot(a, id);
        assert(key(a1, x) == id);
    }
}

/// A list of the current records in ascending order is the listing.
pub proof fn lemma_listing(l: LedgerView, s: Seq<InvoiceView>)
    requires
        l.lists(s),
    ensures
        l.listing() == s,
{
    lemma_lists_unique(l, l.listing(), s);
}

/// Where `id` has to stand among ascending records that do not have it:
/// behind the last record whose identifier comes before it.
pub open spec fn place(recs: Seq<InvoiceView>, id: Seq<char>) -> int
    decreases recs.len(),
{
    if recs.len() == 0 {
        0
    } else if text_lt(recs.last().record_id, id) {
        recs.len() as int
    } else {
        place(recs.drop_last(), id)
    }
}

/// The place of an identifier that the records do not have parts them into
/// those that come before it and those that come after it.
pub proof fn lemma_place(recs: Seq<InvoiceView>, id: Seq<char>)
    requires
        ascending(recs),
        !listed(recs, id),
    ensures
        0 <= place(recs, id) <= recs.len(),
        forall|j: int| 0 <= j < place(recs, id) ==> text_lt(#[trigger] key(recs, j), id),
        forall|j: int| place(recs, id) <= j < recs.len() ==> text_lt(id, #[trigger] key(recs, j)),
    decreases recs.len(),
{
    if recs.len() > 0 {
        let last = recs.len() - 1;
        if text_lt(recs.last().record_id, id) {
            assert forall|j: int| 0 <= j < recs.len() implies text_lt(
                #[trigger] key(recs, j),
                id,
            ) by {
                if j < last {
                    assert(text_lt(key(recs, j), key(recs, last)));
                    lemma_text_lt_transitive(key(recs, j), key(recs, last), id);
                }
            }
        } else {
            let front = recs.drop_last();
            assert forall|j: int| 0 <= j < front.len() implies #[trigger] key(front, j) == key(
                recs,
                j,
            ) by {}
            assert(ascending(front)) by {
                assert forall|x: int, y: int| 0 <= x < y < front.len() implies text_lt(
                    #[trigger] key(front, x),
                    #[trigger] key(front, y),
                ) by {
                    assert(text_lt(key(recs, x), key(recs, y)));
                }
            }
            assert(!listed(front, id)) by {
                if listed(front, id) {
                    let x = slot(front, id);
                    assert(key(recs, x) == id);
                }
            }
            lemma_place(front, id);
            assert(key(recs, last) != id);
            lemma_text_lt_total(key(recs, last), id);
            assert forall|j: int| place(recs, id) <= j < recs.len() implies text_lt(
                id,
                #[trigger] key(recs, j),
            ) by {
                if j < last {
                    assert(text_lt(id, key(front, j)));
                }
            }
            assert forall|j: int| 0 <= j < place(recs, id) implies text_lt(
                #[trigger] key(recs, j),
                id,
            ) by {
                assert(text_lt(key(front, j), id));
            }
        }
    }
}

/// Every state with finitely many records, each stored under its own
/// identifier, has a listing: its current records, each once, in ascending
/// order of identifier.
pub proof fn lemma_listing_exists(s: LedgerView)
    requires
        s.records.dom().finite(),
        forall|id: Seq<char>| #[trigger] s.holds(id) ==> s.records[id].record_id == id,
    ensures
        s.lists(s.listing()),
    decreases s.records.dom().len(),
{
    if s.records.dom().len() == 0 {
        assert(s.records.dom() =~= Set::empty());
        assert(s.lists(Seq::empty()));
    } else {
        let k = s.records.dom().choose();
        assert(s.holds(k));
        let rest = LedgerView { records: s.records.remove(k), history: s.history };
        assert forall|id: Seq<char>| #[trigger] rest.holds(id) implies rest.records[id].record_id
            == id by {
            assert(s.holds(id));
        }
        lemma_listing_exists(rest);
        let others = rest.listing();
        let rec = s.records[k];
        assert(!listed(others, k)) by {
            if listed(others, k) {
                let x = slot(others, k);
                assert(rest.holds(key(others, x)));
            }
        }
        lemma_place(others, k);
        let p = place(others, k);
        let all = others.insert(p, rec);
        assert(key(all, p) == k);
        assert forall|j: int| 0 <= j < p implies #[trigger] key(all, j) == key(others, j) && all[j]
            == others[j] by {}
        assert forall|j: int| p < j < all.len() implies #[trigger] key(all, j) == key(
            others,
            j - 1,
        ) && all[j] == others[j - 1] by {}
        assert(ascending(all)) by {
            assert forall|a: int, b: int| 0 <= a < b < all.len() implies text_lt(
                #[trigger] key(all, a),
                #[trigger] key(all, b),
            ) by {
                if b < p {
                    assert(text_lt(key(others, a), key(others, b)));
                } else if b == p {
                    assert(text_lt(key(others, a), k));
                } else if a < p {
                    assert(text_lt(key(others, a), key(others, b - 1)));
                } else if a == p {
                    assert(text_lt(k, key(others, b - 1)));
                } else {
                    assert(text_lt(key(others, a - 1), key(others, b - 1)));
                }
            }
        }
        assert forall|j: int| 0 <= j < all.len() implies s.holds(#[trigger] key(all, j))
            && s.records[key(all, j)] == all[j] by {
            if j < p {
                assert(rest.holds(key(others, j)));
            } else if j > p {
                assert(rest.holds(key(others, j - 1)));
            }
        }
        assert forall|id: Seq<char>| #[trigger] s.holds(id) implies listed(all, id) by {
            if id == k {
                assert(key(all, p) == id);
            } else {
                assert(rest.holds(id));
                let x = slot(others, id);
                let y = if x < p { x } else { x + 1 };
                assert(key(all, y) == id);
            }
        }
        assert(s.lists(all));
    }
}

} // verus!
