use crate::errors::RunError;
use crate::record::{labels_unique, views_of, Record, RecordV};
use vstd::prelude::*;

verus! {

/// The index of the first row carrying `label`, or -1 when no row does.
pub open spec fn first_index_of(rows: Seq<RecordV>, label: Seq<char>) -> int
    decreases rows.len(),
{
    if rows.len() == 0 {
        -1
    } else if rows[0].label == label {
        0
    } else {
        let rest = first_index_of(rows.drop_first(), label);
        if rest == -1 {
            -1
        } else {
            rest + 1
        }
    }
}

/// Some row of the sequence carries `label`.
pub open spec fn has_label(rows: Seq<RecordV>, label: Seq<char>) -> bool {
    exists|i: int| 0 <= i < rows.len() && rows[i].label == label
}

/// What one upsert keyed on the label does to the stored rows: a record with
/// a fresh label is appended; against a stored row of the same label, the
/// stored `modified` is replaced only when the incoming one is strictly
/// greater, and the stored `label` and `created` are kept either way.
pub open spec fn upsert_one(rows: Seq<RecordV>, inc: RecordV) -> Seq<RecordV> {
    let i = first_index_of(rows, inc.label);
    if i == -1 {
        rows.push(inc)
    } else if inc.modified > rows[i].modified {
        rows.update(
            i,
            RecordV { label: rows[i].label, created: rows[i].created, modified: inc.modified },
        )
    } else {
        rows
    }
}

/// A batched upsert: the incoming records are applied in order, each as one
/// upsert keyed on its label.
pub open spec fn upsert_all(rows: Seq<RecordV>, incs: Seq<RecordV>) -> Seq<RecordV>
    decreases incs.len(),
{
    if incs.len() == 0 {
        rows
    } else {
        upsert_all(upsert_one(rows, incs[0]), incs.drop_first())
    }
}

/// `first_index_of` finds the first row carrying the label, and -1 exactly
/// when no row carries it.
pub proof fn lemma_first_index_of(rows: Seq<RecordV>, label: Seq<char>)
    ensures
        -1 <= first_index_of(rows, label) < rows.len(),
        has_label(rows, label) <==> first_index_of(rows, label) >= 0,
        first_index_of(rows, label) >= 0 ==> rows[first_index_of(rows, label)].label == label,
        forall|j: int|
            0 <= j < rows.len() && rows[j].label == label ==> first_index_of(rows, label) <= j,
    decreases rows.len(),
{
    if rows.len() == 0 {
    } else if rows[0].label == label {
        assert(has_label(rows, label));
    } else {
        let rest = rows.drop_first();
        lemma_first_index_of(rest, label);
        assert(forall|k: int| 0 <= k < rest.len() ==> rest[k] == rows[k + 1]);
        if has_label(rows, label) {
            let i = choose|i: int| 0 <= i < rows.len() && rows[i].label == label;
            assert(rest[i - 1].label == label);
            assert(has_label(rest, label));
        }
        if has_label(rest, label) {
            let k = choose|k: int| 0 <= k < rest.len() && rest[k].label == label;
            assert(rows[k + 1].label == label);
            assert(has_label(rows, label));
        }
        assert forall|i: int|
            0 <= i < rows.len() && rows[i].label == label implies first_index_of(rows, label)
            <= i by {
            assert(rest[i - 1] == rows[i]);
        }
    }
}

/// Uniqueness of labels survives one upsert: a fresh label is appended once,
/// and a conflicting record only rewrites the stored row's `modified`.
pub proof fn lemma_upsert_one_preserves_uniqueness(rows: Seq<RecordV>, inc: RecordV)
    requires
        labels_unique(rows),
    ensures
        labels_unique(upsert_one(rows, inc)),
{
    lemma_first_index_of(rows, inc.label);
    let i = first_index_of(rows, inc.label);
    let out = upsert_one(rows, inc);
    if i == -1 {
        assert forall|p: int, q: int| 0 <= p < q < out.len() implies out[p].label
            != out[q].label by {
            if q == rows.len() {
                assert(!(0 <= p < rows.len() && rows[p].label == inc.label));
            }
        }
    } else {
        assert(forall|j: int| 0 <= j < out.len() ==> out[j].label == rows[j].label);
    }
}

/// Uniqueness of labels survives a batched upsert.
pub proof fn lemma_upsert_all_preserves_uniqueness(rows: Seq<RecordV>, incs: Seq<RecordV>)
    requires
        labels_unique(rows),
    ensures
        labels_unique(upsert_all(rows, incs)),
    decreases incs.len(),
{
    if incs.len() > 0 {
        lemma_upsert_one_preserves_uniqueness(rows, incs[0]);
        lemma_upsert_all_preserves_uniqueness(upsert_one(rows, incs[0]), incs.drop_first());
    }
}

/// A batched upsert applies its records front to back: adding one more record
/// at the back is one more upsert against the rows built so far.
pub proof fn lemma_upsert_all_push(rows: Seq<RecordV>, incs: Seq<RecordV>, inc: RecordV)
    ensures
        upsert_all(rows, incs.push(inc)) == upsert_one(upsert_all(rows, incs), inc),
    decreases incs.len(),
{
    let p = incs.push(inc);
    assert(upsert_all(rows, p) == upsert_all(upsert_one(rows, p[0]), p.drop_first()));
    if incs.len() == 0 {
        assert(p[0] == inc);
        assert(p.drop_first() =~= Seq::<RecordV>::empty());
        assert(upsert_all(upsert_one(rows, inc), p.drop_first()) == upsert_one(rows, inc));
    } else {
        assert(p[0] == incs[0]);
        assert(p.drop_first() =~= incs.drop_first().push(inc));
        lemma_upsert_all_push(upsert_one(rows, incs[0]), incs.drop_first(), inc);
    }
}

/// The freshness predicate: an upsert whose label is already stored replaces
/// the stored `modified` with the incoming one only when the incoming one is
/// strictly greater; otherwise the stored row stays as it is. The stored
/// `label` and `created` are kept either way, every other row is untouched,
/// and no row is added.
pub proof fn lemma_upsert_freshness(rows: Seq<RecordV>, inc: RecordV)
    requires
        has_label(rows, inc.label),
    ensures
        ({
            let i = first_index_of(rows, inc.label);
            let out = upsert_one(rows, inc);
            &&& 0 <= i < rows.len()
            &&& out.len() == rows.len()
            &&& out[i].label == rows[i].label
            &&& out[i].created == rows[i].created
            &&& out[i].modified == if inc.modified > rows[i].modified {
                inc.modified
            } else {
                rows[i].modified
            }
            &&& forall|j: int| 0 <= j < rows.len() && j != i ==> out[j] == rows[j]
        }),
{
    lemma_first_index_of(rows, inc.label);
}

/// Freshness across two runs: once one write pass has set a row's `modified`
/// to t1, a following pass attempting t2 stores t2 exactly when t2 > t1, and
/// leaves t1 standing otherwise.
pub proof fn lemma_freshness_across_runs(rows: Seq<RecordV>, inc1: RecordV, inc2: RecordV)
    requires
        has_label(rows, inc1.label),
        inc2.label == inc1.label,
        inc1.modified > rows[first_index_of(rows, inc1.label)].modified,
    ensures
        ({
            let i = first_index_of(rows, inc1.label);
            let after_first = upsert_one(rows, inc1);
            let after_second = upsert_one(after_first, inc2);
            &&& after_first[i].modified == inc1.modified
            &&& after_second[i].modified == if inc2.modified > inc1.modified {
                inc2.modified
            } else {
                inc1.modified
            }
        }),
{
    let i = first_index_of(rows, inc1.label);
    let after_first = upsert_one(rows, inc1);
    lemma_first_index_of(rows, inc1.label);
    lemma_upsert_freshness(rows, inc1);
    lemma_first_index_of(after_first, inc1.label);
    let fi = first_index_of(after_first, inc1.label);
    assert(after_first[i].label == inc1.label);
    assert(fi <= i);
    if fi < i {
        assert(after_first[fi] == rows[fi]);
        assert(rows[fi].label == inc1.label);
        assert(i <= fi);
    }
    assert(has_label(after_first, inc2.label));
    lemma_upsert_freshness(after_first, inc2);
}

/// Stored rows only move forward: a batched upsert never removes a row, keeps
/// every stored row's label and `created`, and never decreases its `modified`.
pub proof fn lemma_upsert_all_monotonic(rows: Seq<RecordV>, incs: Seq<RecordV>)
    ensures
        upsert_all(rows, incs).len() >= rows.len(),
        forall|j: int|
            0 <= j < rows.len() ==> upsert_all(rows, incs)[j].label == rows[j].label,
        forall|j: int|
            0 <= j < rows.len() ==> upsert_all(rows, incs)[j].created == rows[j].created,
        forall|j: int|
            0 <= j < rows.len() ==> upsert_all(rows, incs)[j].modified >= rows[j].modified,
    decreases incs.len(),
{
    if incs.len() > 0 {
        let mid = upsert_one(rows, incs[0]);
        lemma_first_index_of(rows, incs[0].label);
        assert(mid.len() >= rows.len());
        assert(forall|j: int| 0 <= j < rows.len() ==> mid[j].label == rows[j].label);
        assert(forall|j: int| 0 <= j < rows.len() ==> mid[j].created == rows[j].created);
        assert(forall|j: int| 0 <= j < rows.len() ==> mid[j].modified >= rows[j].modified);
        lemma_upsert_all_monotonic(mid, incs.drop_first());
    }
}

/// An in-memory image of the stored table: the rows in stored order, no two
/// sharing a label. The run's reads and writes are verified against it.
pub struct Store {
    rows: Vec<Record>,
}

impl View for Store {
    type V = Seq<RecordV>;

    closed spec fn view(&self) -> Seq<RecordV> {
        views_of(self.rows@)
    }
}

/// The first row of `rows` carrying `label`, if any.
fn find_first(rows: &Vec<Record>, label: &String) -> (r: Option<usize>)
    ensures
        match r {
            Some(i) => 0 <= i < rows@.len() && first_index_of(views_of(rows@), label@) == i,
            None => first_index_of(views_of(rows@), label@) == -1,
        },
{
    let ghost rv = views_of(rows@);
    let mut k: usize = 0;
    while k < rows.len()
        invariant
            k <= rows@.len(),
            rv == views_of(rows@),
            forall|j: int| 0 <= j < k ==> rv[j].label != label@,
        decreases rows@.len() - k,
    {
        if rows[k].label == *label {
            proof {
                assert(rv[k as int] == rows@[k as int]@);
                assert(has_label(rv, label@));
                lemma_first_index_of(rv, label@);
                let fi = first_index_of(rv, label@);
                assert(fi <= k as int);
                assert(rv[fi].label == label@);
            }
            return Some(k);
        }
        proof {
            assert(rv[k as int] == rows@[k as int]@);
        }
        k += 1;
    }
    proof {
        lemma_first_index_of(rv, label@);
        if has_label(rv, label@) {
            let i = choose|i: int| 0 <= i < rv.len() && rv[i].label == label@;
            assert(rv[i].label != label@);
        }
    }
    None
}

impl Store {
    /// No two stored rows share a label: the store's uniqueness constraint.
    pub open spec fn wf(&self) -> bool {
        labels_unique(self@)
    }

    /// An empty store.
    pub fn new() -> (s: Store)
        ensures
            s@ == Seq::<RecordV>::empty(),
            s.wf(),
    {
        let rows: Vec<Record> = Vec::new();
        proof {
            assert(views_of(rows@) =~= Seq::<RecordV>::empty());
        }
        Store { rows }
    }

    /// How many rows the store holds.
    pub fn row_count(&self) -> (n: usize)
        ensures
            n == self@.len(),
    {
        self.rows.len()
    }

    /// The row at position `i`, in stored order.
    pub fn get(&self, i: usize) -> (r: &Record)
        requires
            i < self@.len(),
        ensures
            r@ == self@[i as int],
    {
        proof {
            assert(self.rows@[i as int]@ == self@[i as int]);
        }
        &self.rows[i]
    }

    /// Reads up to `limit` rows, front to back in stored order. Which rows a
    /// bounded read returns is promised only through that order.
    pub fn read_sample(&self, limit: usize) -> (r: Vec<Record>)
        ensures
            r@.len() == if limit as int <= self@.len() {
                limit as int
            } else {
                self@.len() as int
            },
            forall|j: int| 0 <= j < r@.len() ==> r@[j]@ == self@[j],
    {
        let n = if limit <= self.rows.len() {
            limit
        } else {
            self.rows.len()
        };
        let mut out: Vec<Record> = Vec::new();
        let mut k: usize = 0;
        while k < n
            invariant
                k <= n,
                n <= self.rows@.len(),
                out@.len() == k,
                forall|j: int| 0 <= j < k ==> out@[j]@ == self@[j],
            decreases n - k,
        {
            proof {
                assert(self.rows@[k as int]@ == self@[k as int]);
            }
            out.push(self.rows[k].clone());
            k += 1;
        }
        out
    }

    /// Inserts a batch of new rows at the back, in order. The store's
    /// uniqueness constraint rejects the whole batch when an incoming label
    /// collides with a stored row or with another incoming row; nothing is
    /// written then, and the failure surfaces as a query error.
    pub fn insert_batch(&mut self, recs: &Vec<Record>) -> (r: Result<(), RunError>)
        requires
            old(self).wf(),
        ensures
            final(self).wf(),
            match r {
                Ok(()) => labels_unique(old(self)@ + views_of(recs@)) && final(self)@ == old(self)@
                    + views_of(recs@),
                Err(e) => e == RunError::QueryError && !labels_unique(
                    old(self)@ + views_of(recs@),
                ) && final(self)@ == old(self)@,
            },
    {
        let ghost orig = self@;
        let ghost incv = views_of(recs@);
        let ghost all = orig + incv;
        let mut k: usize = 0;
        while k < recs.len()
            invariant
                k <= recs@.len(),
                incv == views_of(recs@),
                orig == self@,
                all == orig + incv,
                self.wf(),
                forall|j: int| 0 <= j < k ==> !has_label(orig, incv[j].label),
                forall|j1: int, j2: int|
                    0 <= j1 < j2 < k ==> incv[j1].label != incv[j2].label,
            decreases recs@.len() - k,
        {
            proof {
                assert(incv[k as int] == recs@[k as int]@);
            }
            if let Some(i) = find_first(&self.rows, &recs[k].label) {
                proof {
                    lemma_first_index_of(self@, recs@[k as int]@.label);
                    assert(all[i as int] == orig[i as int]);
                    assert(all[orig.len() + k] == incv[k as int]);
                    assert(!labels_unique(all));
                }
                return Err(RunError::QueryError);
            }
            let mut j: usize = 0;
            while j < k
                invariant
                    j <= k < recs@.len(),
                    incv == views_of(recs@),
                    orig == self@,
                    all == orig + incv,
                    self.wf(),
                    forall|j1: int| 0 <= j1 < j ==> incv[j1].label != incv[k as int].label,
                decreases k - j,
            {
                proof {
                    assert(incv[j as int] == recs@[j as int]@);
                    assert(incv[k as int] == recs@[k as int]@);
                }
                if recs[j].label == recs[k].label {
                    proof {
                        assert(all[orig.len() + j] == incv[j as int]);
                        assert(all[orig.len() + k] == incv[k as int]);
                        assert(!labels_unique(all));
                    }
                    return Err(RunError::QueryError);
                }
                j += 1;
            }
            proof {
                lemma_first_index_of(self@, recs@[k as int]@.label);
            }
            k += 1;
        }
        proof {
            assert forall|p: int, q: int| 0 <= p < q < all.len() implies all[p].label
                != all[q].label by {
                if q < orig.len() {
                    assert(all[p] == orig[p] && all[q] == orig[q]);
                } else if p < orig.len() {
                    assert(all[p] == orig[p] && all[q] == incv[q - orig.len()]);
                    assert(!has_label(orig, incv[q - orig.len()].label));
                    assert(!(0 <= p < orig.len() && orig[p].label == incv[q - orig.len()].label));
                } else {
                    assert(all[p] == incv[p - orig.len()] && all[q] == incv[q - orig.len()]);
                }
            }
        }
        let mut k: usize = 0;
        while k < recs.len()
            invariant
                k <= recs@.len(),
                incv == views_of(recs@),
                self@ == orig + incv.take(k as int),
            decreases recs@.len() - k,
        {
            proof {
                assert(incv[k as int] == recs@[k as int]@);
            }
            let rec = recs[k].clone();
            proof {
                assert(views_of(self.rows@.push(rec)) =~= views_of(self.rows@).push(rec@));
                assert(orig + incv.take(k as int + 1) =~= (orig + incv.take(k as int)).push(
                    incv[k as int],
                ));
            }
            self.rows.push(rec);
            k += 1;
        }
        proof {
            assert(incv.take(recs@.len() as int) =~= incv);
        }
        Ok(())
    }

    /// Applies a batched upsert keyed on the label: each incoming record is
    /// one conditional upsert, front to back, with the freshness predicate
    /// deciding every conflict at the store.
    pub fn upsert_with_freshness(&mut self, incoming: &Vec<Record>)
        requires
            old(self).wf(),
        ensures
            final(self)@ == upsert_all(old(self)@, views_of(incoming@)),
            final(self).wf(),
    {
        let ghost orig = self@;
        let ghost incv = views_of(incoming@);
        let mut k: usize = 0;
        while k < incoming.len()
            invariant
                k <= incoming@.len(),
                incv == views_of(incoming@),
                self@ == upsert_all(orig, incv.take(k as int)),
            decreases incoming@.len() - k,
        {
            let ghost cur = self@;
            proof {
                assert(incv[k as int] == incoming@[k as int]@);
                assert(incv.take(k as int + 1) =~= incv.take(k as int).push(incv[k as int]));
                lemma_upsert_all_push(orig, incv.take(k as int), incv[k as int]);
            }
            let m = incoming[k].modified;
            match find_first(&self.rows, &incoming[k].label) {
                Some(i) => {
                    if m > self.rows[i].modified {
                        proof {
                            assert(self.rows@[i as int]@ == cur[i as int]);
                        }
                        let kept_label = self.rows[i].label.clone();
                        let kept_created = self.rows[i].created;
                        let updated = Record {
                            label: kept_label,
                            created: kept_created,
                            modified: m,
                        };
                        proof {
                            assert(updated@ == RecordV {
                                label: cur[i as int].label,
                                created: cur[i as int].created,
                                modified: m as int,
                            });
                            assert(views_of(self.rows@.update(i as int, updated)) =~= views_of(
                                self.rows@,
                            ).update(i as int, updated@));
                        }
                        self.rows[i] = updated;
                    } else {
                        proof {
                            assert(self.rows@[i as int]@ == cur[i as int]);
                            assert(upsert_one(cur, incv[k as int]) == cur);
                        }
                    }
                },
                None => {
                    let rec = incoming[k].clone();
                    proof {
                        assert(views_of(self.rows@.push(rec)) =~= views_of(self.rows@).push(rec@));
                    }
                    self.rows.push(rec);
                },
            }
            k += 1;
        }
        proof {
            assert(incv.take(incoming@.len() as int) =~= incv);
            lemma_upsert_all_preserves_uniqueness(orig, incv);
        }
    }
}

} // verus!
