use vstd::prelude::*;
use crate::record::{InputFile, SheetRecord, max_row_width};
use crate::table::{AggregationTable, lemma_insert_slots, table_slot, table_wf};

verus! {

/// What a decoder hands over for one sheet: its name and its text grid.
pub type DecodedSheet = (String, Vec<Vec<String>>);

/// What ingestion stores for one decoded sheet of one file.
pub open spec fn record_matches(
    r: SheetRecord,
    file_ordinal: int,
    file_name: Seq<char>,
    sheet: DecodedSheet,
) -> bool {
    &&& r.wf()
    &&& r.file_ordinal == file_ordinal
    &&& r.file_name@ == file_name
    &&& r.sheet_name@ == sheet.0@
    &&& r.rows == sheet.1
    &&& r.row_count == sheet.1@.len()
    &&& r.column_count == max_row_width(sheet.1@)
}

/// Ingests one decoded input file: one record per sheet, the sheet's native
/// position becoming its sheet ordinal, each record stored at (sheet ordinal,
/// file ordinal). A file with zero sheets contributes nothing and leaves the
/// table untouched.
pub fn ingest_file(table: &mut AggregationTable, file: &InputFile, sheets: Vec<DecodedSheet>)
    requires
        table_wf(old(table)@),
        file.ordinal < usize::MAX,
        forall|s: int|
            0 <= s < sheets@.len() ==> #[trigger] table_slot(
                old(table)@,
                s,
                file.ordinal as int,
            ) is None,
    ensures
        table_wf(final(table)@),
        final(table)@.len() == if sheets@.len() == 0 {
            old(table)@.len() as int
        } else if old(table)@.len() >= sheets@.len() {
            old(table)@.len() as int
        } else {
            sheets@.len() as int
        },
        forall|s: int|
            0 <= s < sheets@.len() ==> ((#[trigger] table_slot(
                final(table)@,
                s,
                file.ordinal as int,
            )) matches Some(r) && record_matches(r, file.ordinal as int, file.name@, sheets@[s])),
        forall|s: int, f: int|
            !(f == file.ordinal && 0 <= s < sheets@.len()) ==> #[trigger] table_slot(
                final(table)@,
                s,
                f,
            ) == table_slot(old(table)@, s, f),
        sheets@.len() == 0 ==> final(table)@ == old(table)@,
{
    let ghost orig = sheets@;
    let mut remaining = sheets;
    proof {
        assert(remaining@ =~= orig.take(orig.len() as int));
    }
    while remaining.len() > 0
        invariant
            table_wf(table@),
            file.ordinal < usize::MAX,
            remaining@.len() <= orig.len(),
            remaining@ == orig.take(remaining@.len() as int),
            forall|s: int, f: int|
                !(f == file.ordinal && remaining@.len() <= s < orig.len()) ==> #[trigger] table_slot(
                    table@,
                    s,
                    f,
                ) == table_slot(old(table)@, s, f),
            forall|s: int|
                remaining@.len() <= s < orig.len() ==> ((#[trigger] table_slot(
                    table@,
                    s,
                    file.ordinal as int,
                )) matches Some(r) && record_matches(r, file.ordinal as int, file.name@, orig[s])),
            forall|s: int|
                0 <= s < orig.len() ==> #[trigger] table_slot(
                    old(table)@,
                    s,
                    file.ordinal as int,
                ) is None,
            table@.len() == if remaining@.len() == orig.len() {
                old(table)@.len() as int
            } else if old(table)@.len() >= orig.len() {
                old(table)@.len() as int
            } else {
                orig.len() as int
            },
            remaining@.len() == orig.len() ==> table@ == old(table)@,
        decreases remaining@.len(),
    {
        let s = remaining.len() - 1;
        let ghost before = table@;
        match remaining.pop() {
            Some(sheet) => {
                proof {
                    assert(orig.take(s + 1).drop_last() =~= orig.take(s as int));
                    assert(sheet == orig[s as int]);
                }
                let (sheet_name, grid) = sheet;
                let rec = SheetRecord::new(file.ordinal, file.name.clone(), sheet_name, grid);
                proof {
                    assert(table_slot(before, s as int, file.ordinal as int) is None);
                    lemma_insert_slots(before, s as int, file.ordinal as int, rec);
                }
                table.insert(s, file.ordinal, rec);
            },
            None => {
                proof {
                    assert(false);
                }
            },
        }
    }
    proof {
        assert(orig.take(0) =~= Seq::<DecodedSheet>::empty());
    }
}

/// The greatest sheet count among the decoded files from position `k` on.
pub open spec fn max_sheet_count_from(d: Seq<Vec<DecodedSheet>>, k: int) -> int
    decreases d.len() - k,
{
    if k < 0 || k >= d.len() {
        0
    } else {
        let rest = max_sheet_count_from(d, k + 1);
        if d[k]@.len() > rest {
            d[k]@.len() as int
        } else {
            rest
        }
    }
}

/// The greatest sheet count any decoded file contributes: one plus the
/// greatest sheet ordinal observed across all files.
pub open spec fn max_sheet_count(d: Seq<Vec<DecodedSheet>>) -> int {
    max_sheet_count_from(d, 0)
}

/// Law: the table an aggregation run builds covers exactly one plus the
/// greatest sheet ordinal observed: no file's sheets go past its length, and
/// unless it is zero, some file reaches it.
pub proof fn lemma_max_sheet_count(d: Seq<Vec<DecodedSheet>>, k: int)
    requires
        0 <= k <= d.len(),
    ensures
        forall|f: int| k <= f < d.len() ==> (#[trigger] d[f])@.len() <= max_sheet_count_from(d, k),
        max_sheet_count_from(d, k) == 0 || exists|f: int|
            k <= f < d.len() && (#[trigger] d[f])@.len() == max_sheet_count_from(d, k),
    decreases d.len() - k,
{
    if k < d.len() {
        lemma_max_sheet_count(d, k + 1);
    }
}

/// Collects every worker's decoded output into one table, file by file — the
/// collector behind the join barrier. Each file fills only slots tagged with
/// its own ordinal, so by `lemma_insert_commutes` the resulting table — and
/// with it the merged output — is independent of worker completion order.
pub fn aggregate_all(files: &Vec<InputFile>, decoded: Vec<Vec<DecodedSheet>>) -> (table:
    AggregationTable)
    requires
        files@.len() == decoded@.len(),
        forall|i: int| 0 <= i < files@.len() ==> (#[trigger] files@[i]).ordinal == i,
    ensures
        table_wf(table@),
        table@.len() == max_sheet_count(decoded@),
        forall|s: int, f: int|
            0 <= f < decoded@.len() && 0 <= s < decoded@[f]@.len() ==> ((#[trigger] table_slot(
                table@,
                s,
                f,
            )) matches Some(r) && record_matches(r, f, files@[f].name@, decoded@[f]@[s])),
        forall|s: int, f: int|
            !(0 <= f < decoded@.len() && 0 <= s < decoded@[f]@.len()) ==> #[trigger] table_slot(
                table@,
                s,
                f,
            ) is None,
{
    let ghost dorig = decoded@;
    let mut table = AggregationTable::new();
    let mut rem = decoded;
    proof {
        assert(rem@ =~= dorig.take(dorig.len() as int));
    }
    while rem.len() > 0
        invariant
            files@.len() == dorig.len(),
            forall|i: int| 0 <= i < files@.len() ==> (#[trigger] files@[i]).ordinal == i,
            rem@.len() <= dorig.len(),
            rem@ == dorig.take(rem@.len() as int),
            table_wf(table@),
            table@.len() == max_sheet_count_from(dorig, rem@.len() as int),
            forall|s: int, f: int|
                rem@.len() <= f < dorig.len() && 0 <= s < dorig[f]@.len() ==> ((
                #[trigger] table_slot(table@, s, f)) matches Some(r) && record_matches(
                    r,
                    f,
                    files@[f].name@,
                    dorig[f]@[s],
                )),
            forall|s: int, f: int|
                !(rem@.len() <= f < dorig.len() && 0 <= s < dorig[f]@.len())
                    ==> #[trigger] table_slot(table@, s, f) is None,
        decreases rem@.len(),
    {
        let f = rem.len() - 1;
        match rem.pop() {
            Some(sheets_f) => {
                proof {
                    assert(dorig.take(f + 1).drop_last() =~= dorig.take(f as int));
                    assert(sheets_f == dorig[f as int]);
                }
                ingest_file(&mut table, &files[f], sheets_f);
            },
            None => {
                proof {
                    assert(false);
                }
            },
        }
    }
    proof {
        assert(dorig.take(0) =~= Seq::<Vec<DecodedSheet>>::empty());
    }
    table
}

} // verus!
