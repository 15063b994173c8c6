use vstd::prelude::*;
use crate::record::SheetRecord;

verus! {

/// The mathematical shape of the table: for each sheet ordinal, a row of
/// slots indexed by file ordinal.
pub type TableView = Seq<Seq<Option<SheetRecord>>>;

/// The record at slot (s, f); `None` outside the table's current bounds.
pub open spec fn table_slot(t: TableView, s: int, f: int) -> Option<SheetRecord> {
    if 0 <= s < t.len() && 0 <= f < t[s].len() {
        t[s][f]
    } else {
        None
    }
}

/// Every stored record is well formed and sits in the slot of its own
/// file ordinal.
pub open spec fn table_wf(t: TableView) -> bool {
    forall|s: int, f: int|
        #![trigger t[s][f]]
        0 <= s < t.len() && 0 <= f < t[s].len() ==> (t[s][f] matches Some(r) ==> r.wf()
            && r.file_ordinal == f)
}

/// Appends empty slot rows until the table has at least `n` rows.
pub open spec fn grow_outer(t: TableView, n: int) -> TableView {
    if t.len() >= n {
        t
    } else {
        t + Seq::new((n - t.len()) as nat, |i: int| Seq::<Option<SheetRecord>>::empty())
    }
}

/// Appends empty slots until the row has at least `n` of them.
pub open spec fn grow_row(r: Seq<Option<SheetRecord>>, n: int) -> Seq<Option<SheetRecord>> {
    if r.len() >= n {
        r
    } else {
        r + Seq::new((n - r.len()) as nat, |i: int| None::<SheetRecord>)
    }
}

/// The table after one insertion: both levels grown to reach slot (s, f),
/// and that slot set to the record.
pub open spec fn spec_table_insert(t: TableView, s: int, f: int, rec: SheetRecord) -> TableView {
    let t1 = grow_outer(t, s + 1);
    t1.update(s, grow_row(t1[s], f + 1).update(f, Some(rec)))
}

/// Shared two-level store for decoded sheet records, keyed by sheet ordinal
/// then file ordinal. Populated during ingestion; read as a frozen view by
/// the merge pass.
pub struct AggregationTable {
    slots: Vec<Vec<Option<SheetRecord>>>,
}

impl View for AggregationTable {
    type V = TableView;

    closed spec fn view(&self) -> TableView {
        Seq::new(self.slots@.len() as nat, |s: int| self.slots@[s]@)
    }
}

impl AggregationTable {
    /// Creates the table empty, before any worker contributes.
    pub fn new() -> (t: AggregationTable)
        ensures
            t@ == Seq::<Seq<Option<SheetRecord>>>::empty(),
    {
        let t = AggregationTable { slots: Vec::new() };
        proof {
            assert(t@ =~~= Seq::<Seq<Option<SheetRecord>>>::empty());
        }
        t
    }

    /// One plus the greatest sheet ordinal inserted so far.
    pub fn sheet_count(&self) -> (n: usize)
        ensures
            n == self@.len(),
    {
        self.slots.len()
    }

    /// The number of slots currently held for one sheet ordinal.
    pub fn row_len(&self, sheet_ordinal: usize) -> (n: usize)
        requires
            sheet_ordinal < self@.len(),
        ensures
            n == self@[sheet_ordinal as int].len(),
    {
        self.slots[sheet_ordinal].len()
    }

    /// Reads one slot of the frozen table.
    pub fn get(&self, sheet_ordinal: usize, file_ordinal: usize) -> (r: &Option<SheetRecord>)
        requires
            sheet_ordinal < self@.len(),
            file_ordinal < self@[sheet_ordinal as int].len(),
        ensures
            *r == self@[sheet_ordinal as int][file_ordinal as int],
    {
        &self.slots[sheet_ordinal][file_ordinal]
    }

    /// Stores one record at (sheet_ordinal, file_ordinal), growing both levels
    /// as needed. A slot is written at most once: each worker only writes
    /// slots tagged with its own file ordinal.
    pub fn insert(&mut self, sheet_ordinal: usize, file_ordinal: usize, rec: SheetRecord)
        requires
            sheet_ordinal < usize::MAX,
            file_ordinal < usize::MAX,
            rec.wf(),
            rec.file_ordinal == file_ordinal,
            table_wf(old(self)@),
            table_slot(old(self)@, sheet_ordinal as int, file_ordinal as int) is None,
        ensures
            final(self)@ == spec_table_insert(
                old(self)@,
                sheet_ordinal as int,
                file_ordinal as int,
                rec,
            ),
            table_wf(final(self)@),
    {
        while self.slots.len() <= sheet_ordinal
            invariant
                sheet_ordinal < usize::MAX,
                self.slots@.len() >= old(self)@.len(),
                self.slots@.len() <= sheet_ordinal + 1 || self.slots@.len() == old(self)@.len(),
                self@ == grow_outer(old(self)@, self.slots@.len() as int),
            decreases sheet_ordinal + 1 - self.slots@.len(),
        {
            let ghost before = self@;
            let ghost t0 = old(self)@;
            self.slots.push(Vec::new());
            proof {
                let n = self.slots@.len() as int;
                assert forall|s: int| 0 <= s < n implies self@[s] =~= grow_outer(t0, n)[s] by {
                    if s < n - 1 {
                        assert(self@[s] == before[s]);
                        assert(before[s] == grow_outer(t0, n - 1)[s]);
                    } else {
                        assert(self.slots@[s]@ =~= Seq::<Option<SheetRecord>>::empty());
                    }
                }
                assert(self@ =~~= grow_outer(t0, n));
            }
        }
        proof {
            assert(self@ == grow_outer(old(self)@, sheet_ordinal + 1)) by {
                if old(self)@.len() >= sheet_ordinal + 1 {
                    assert(grow_outer(old(self)@, self.slots@.len() as int) == old(self)@);
                    assert(grow_outer(old(self)@, sheet_ordinal + 1) == old(self)@);
                }
            };
        }
        let ghost grown = self@;
        let row = &mut self.slots[sheet_ordinal];
        place_in_row(row, file_ordinal, rec);
        proof {
            assert(final(self)@ =~~= spec_table_insert(
                old(self)@,
                sheet_ordinal as int,
                file_ordinal as int,
                rec,
            ));
            lemma_insert_preserves_wf(
                old(self)@,
                sheet_ordinal as int,
                file_ordinal as int,
                rec,
            );
        }
    }
}

/// Grows one slot row to cover `file_ordinal` and writes the record there.
fn place_in_row(row: &mut Vec<Option<SheetRecord>>, file_ordinal: usize, rec: SheetRecord)
    requires
        file_ordinal < usize::MAX,
    ensures
        final(row)@ == grow_row(old(row)@, file_ordinal + 1).update(
            file_ordinal as int,
            Some(rec),
        ),
{
    while row.len() <= file_ordinal
        invariant
            file_ordinal < usize::MAX,
            row@.len() >= old(row)@.len(),
            row@.len() <= file_ordinal + 1 || row@.len() == old(row)@.len(),
            row@ == grow_row(old(row)@, row@.len() as int),
        decreases file_ordinal + 1 - row@.len(),
    {
        row.push(None);
        proof {
            assert(row@ =~= grow_row(old(row)@, row@.len() as int));
        }
    }
    proof {
        assert(row@ == grow_row(old(row)@, file_ordinal + 1)) by {
            if old(row)@.len() >= file_ordinal + 1 {
                assert(grow_row(old(row)@, row@.len() as int) == old(row)@);
                assert(grow_row(old(row)@, file_ordinal + 1) == old(row)@);
            }
        };
    }
    row[file_ordinal] = Some(rec);
}

/// Insertion keeps the table well formed when the record carries the file
/// ordinal of its own slot.
pub proof fn lemma_insert_preserves_wf(t: TableView, s: int, f: int, rec: SheetRecord)
    requires
        table_wf(t),
        rec.wf(),
        rec.file_ordinal == f,
        0 <= s,
        0 <= f,
    ensures
        table_wf(spec_table_insert(t, s, f, rec)),
{
    let t2 = spec_table_insert(t, s, f, rec);
    assert forall|s2: int, f2: int|
        0 <= s2 < t2.len() && 0 <= f2 < t2[s2].len() implies (#[trigger] t2[s2][f2] matches Some(
        r,
    ) ==> r.wf() && r.file_ordinal == f2) by {
        let t1 = grow_outer(t, s + 1);
        if s2 == s {
            if f2 != f && t2[s2][f2] is Some {
                assert(t2[s2][f2] == t1[s][f2]);
                assert(t1[s][f2] == t[s][f2]);
            }
        } else {
            if t2[s2][f2] is Some {
                assert(t2[s2][f2] == t[s2][f2]);
            }
        }
    }
}

/// How one insertion reads back: the written slot holds the record, every
/// other slot is unchanged, and the table covers the written sheet ordinal.
pub proof fn lemma_insert_slots(t: TableView, s: int, f: int, rec: SheetRecord)
    requires
        0 <= s,
        0 <= f,
    ensures
        spec_table_insert(t, s, f, rec).len() == if t.len() >= s + 1 {
            t.len() as int
        } else {
            s + 1
        },
        table_slot(spec_table_insert(t, s, f, rec), s, f) == Some(rec),
        forall|s2: int, f2: int|
            !(s2 == s && f2 == f) ==> #[trigger] table_slot(spec_table_insert(t, s, f, rec), s2, f2)
                == table_slot(t, s2, f2),
{
    let t2 = spec_table_insert(t, s, f, rec);
    assert forall|s2: int, f2: int| !(s2 == s && f2 == f) implies #[trigger] table_slot(
        t2,
        s2,
        f2,
    ) == table_slot(t, s2, f2) by {
        let t1 = grow_outer(t, s + 1);
        if 0 <= s2 < t2.len() && 0 <= f2 < t2[s2].len() {
            if s2 == s {
                assert(t2[s2][f2] == grow_row(t1[s], f + 1).update(f, Some(rec))[f2]);
            }
        }
    }
}

/// Law: two insertions into distinct slots yield the same table in either
/// order. Because every worker writes only slots tagged with its own file
/// ordinal, the aggregated table — and so the merged output — does not depend
/// on the order in which concurrent workers complete.
pub proof fn lemma_insert_commutes(
    t: TableView,
    s1: int,
    f1: int,
    r1: SheetRecord,
    s2: int,
    f2: int,
    r2: SheetRecord,
)
    requires
        0 <= s1,
        0 <= f1,
        0 <= s2,
        0 <= f2,
        s1 != s2 || f1 != f2,
    ensures
        spec_table_insert(spec_table_insert(t, s1, f1, r1), s2, f2, r2) == spec_table_insert(
            spec_table_insert(t, s2, f2, r2),
            s1,
            f1,
            r1,
        ),
{
    let a = spec_table_insert(spec_table_insert(t, s1, f1, r1), s2, f2, r2);
    let b = spec_table_insert(spec_table_insert(t, s2, f2, r2), s1, f1, r1);
    assert(a.len() == b.len());
    assert forall|s: int| 0 <= s < a.len() implies a[s] =~= b[s] by {
        assert(a[s].len() == b[s].len());
        assert forall|f: int| 0 <= f < a[s].len() implies a[s][f] == b[s][f] by {
            assert(0 <= s && 0 <= f);
        }
    }
    assert(a =~~= b);
}

} // verus!
