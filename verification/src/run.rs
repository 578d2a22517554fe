use crate::errors::RunError;
use crate::record::{labels_unique, Record, RecordV};
use vstd::prelude::*;

verus! {

/// How many records a run seeds into an empty store, and how many it reads
/// back on every run.
pub const SEED_COUNT: usize = 5;

/// Turns the connection string read from the environment into the string to
/// connect with; a missing string is a configuration error, and nothing is
/// connected to.
pub fn plan_connect(url: Option<String>) -> (r: Result<String, RunError>)
    ensures
        match r {
            Ok(u) => url matches Some(s) && u == s,
            Err(e) => url is None && e == RunError::ConfigurationError,
        },
{
    match url {
        Some(u) => Ok(u),
        None => Err(RunError::ConfigurationError),
    }
}

/// Relies on uuid::Uuid::new_v4 and on Uuid's hyphenated `Display` form: a
/// freshly drawn random identifier rendered as 36 characters. The identifier
/// is random, so nothing more is promised of it.
#[verifier::external_body]
fn fresh_label() -> (r: String)
    ensures
        r@.len() == 36,
{
    uuid::Uuid::new_v4().to_string()
}

/// Relies on chrono::Utc::now: the current time, reduced to microseconds
/// since the Unix epoch. The result depends on the clock, so nothing is
/// promised of it.
#[verifier::external_body]
fn now_micros() -> i64 {
    chrono::Utc::now().timestamp_micros()
}

/// The shape of a freshly seeded batch: `SEED_COUNT` records, all created at
/// one shared time and not modified since.
pub open spec fn seed_shaped(rows: Seq<RecordV>) -> bool {
    &&& rows.len() == SEED_COUNT
    &&& forall|i: int| 0 <= i < rows.len() ==> rows[i].created == rows[i].modified
    &&& forall|i: int, j: int|
        0 <= i < rows.len() && 0 <= j < rows.len() ==> rows[i].created == rows[j].created
}

/// Seed-once: the batch a run makes for an empty store is, once the store's
/// uniqueness constraint accepts it, the whole store content: exactly
/// `SEED_COUNT` records, no two sharing a label, each with `created` equal to
/// `modified`.
pub proof fn lemma_seed_once(store: Seq<RecordV>, batch: Seq<RecordV>)
    requires
        store.len() == 0,
        seed_shaped(batch),
        labels_unique(store + batch),
    ensures
        (store + batch).len() == SEED_COUNT,
        labels_unique(store + batch),
        forall|i: int|
            0 <= i < (store + batch).len() ==> (store + batch)[i].created == (store
                + batch)[i].modified,
{
    assert(store + batch =~= batch);
}

/// One new record per label, in order, with `created` and `modified` both set
/// to `t`.
pub fn make_seed(labels: Vec<String>, t: i64) -> (r: Vec<Record>)
    ensures
        r@.len() == labels@.len(),
        forall|i: int|
            0 <= i < r@.len() ==> r@[i]@ == (RecordV {
                label: labels@[i]@,
                created: t as int,
                modified: t as int,
            }),
{
    let mut out: Vec<Record> = Vec::new();
    let mut k: usize = 0;
    while k < labels.len()
        invariant
            k <= labels@.len(),
            out@.len() == k,
            forall|i: int|
                0 <= i < k ==> out@[i]@ == (RecordV {
                    label: labels@[i]@,
                    created: t as int,
                    modified: t as int,
                }),
        decreases labels@.len() - k,
    {
        let l = labels[k].clone();
        out.push(Record { label: l, created: t, modified: t });
        k += 1;
    }
    out
}

/// Exactly `SEED_COUNT` new records, each under a freshly drawn random label,
/// created and modified at the one current time read for the batch. The
/// labels are drawn at random; that they differ is left to the store's
/// uniqueness constraint at the insert, as nothing can be promised of a
/// random draw.
pub fn seed_fresh() -> (r: Vec<Record>)
    ensures
        seed_shaped(r@.map_values(|x: Record| x@)),
        forall|i: int| 0 <= i < r@.len() ==> r@[i]@.label.len() == 36,
{
    let mut labels: Vec<String> = Vec::new();
    let mut k: usize = 0;
    while k < SEED_COUNT
        invariant
            k <= SEED_COUNT,
            labels@.len() == k,
            forall|i: int| 0 <= i < k ==> labels@[i]@.len() == 36,
        decreases SEED_COUNT - k,
    {
        labels.push(fresh_label());
        k += 1;
    }
    let t = now_micros();
    make_seed(labels, t)
}

/// Leaves a non-empty read result as it stands. An empty one means the store
/// is empty: exactly `SEED_COUNT` fresh records are made to seed it. The
/// second component says whether seeding happened.
pub fn seed_if_empty(current: Vec<Record>) -> (r: (Vec<Record>, bool))
    ensures
        r.1 == (current@.len() == 0),
        r.1 ==> seed_shaped(r.0@.map_values(|x: Record| x@)),
        !r.1 ==> r.0 == current,
{
    if current.is_empty() {
        (seed_fresh(), true)
    } else {
        (current, false)
    }
}

/// Every record gets `modified` set to `t`; labels and creation times are
/// kept as they are.
pub fn touch_all(records: Vec<Record>, t: i64) -> (r: Vec<Record>)
    ensures
        r@.len() == records@.len(),
        forall|i: int|
            0 <= i < r@.len() ==> r@[i]@ == (RecordV {
                label: records@[i]@.label,
                created: records@[i]@.created,
                modified: t as int,
            }),
{
    let mut out: Vec<Record> = Vec::new();
    let mut k: usize = 0;
    while k < records.len()
        invariant
            k <= records@.len(),
            out@.len() == k,
            forall|i: int|
                0 <= i < k ==> out@[i]@ == (RecordV {
                    label: records@[i]@.label,
                    created: records@[i]@.created,
                    modified: t as int,
                }),
        decreases records@.len() - k,
    {
        let l = records[k].label.clone();
        let c = records[k].created;
        out.push(Record { label: l, created: c, modified: t });
        k += 1;
    }
    out
}

/// The write pass before the batched upsert: every record's `modified` is set
/// to the current time, read once for the whole batch; labels and creation
/// times are kept as they are.
pub fn touch_all_now(records: Vec<Record>) -> (r: Vec<Record>)
    ensures
        r@.len() == records@.len(),
        forall|i: int| 0 <= i < r@.len() ==> r@[i]@.label == records@[i]@.label,
        forall|i: int| 0 <= i < r@.len() ==> r@[i]@.created == records@[i]@.created,
        forall|i: int, j: int|
            0 <= i < r@.len() && 0 <= j < r@.len() ==> r@[i]@.modified == r@[j]@.modified,
{
    let t = now_micros();
    touch_all(records, t)
}

} // verus!
