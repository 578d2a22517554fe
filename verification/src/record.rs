use vstd::prelude::*;

verus! {

/// One row of the store: a textual label that identifies it, the time it was
/// created and the time it was last modified, both counted in microseconds
/// since the Unix epoch.
pub struct Record {
    pub label: String,
    pub created: i64,
    pub modified: i64,
}

/// The mathematical value of a `Record`.
pub ghost struct RecordV {
    pub label: Seq<char>,
    pub created: int,
    pub modified: int,
}

impl View for Record {
    type V = RecordV;

    open spec fn view(&self) -> RecordV {
        RecordV {
            label: self.label@,
            created: self.created as int,
            modified: self.modified as int,
        }
    }
}

impl Clone for Record {
    /// A clone carries the same label and the same timestamps.
    fn clone(&self) -> (r: Self)
        ensures
            r@ == self@,
    {
        Record { label: self.label.clone(), created: self.created, modified: self.modified }
    }
}

/// The views of a sequence of records.
pub open spec fn views_of(rows: Seq<Record>) -> Seq<RecordV> {
    rows.map_values(|r: Record| r@)
}

/// No two records of the sequence share a label.
pub open spec fn labels_unique(rows: Seq<RecordV>) -> bool {
    forall|i: int, j: int| 0 <= i < j < rows.len() ==> rows[i].label != rows[j].label
}

} // verus!
