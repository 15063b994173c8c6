use vstd::prelude::*;
use vstd::string::StringExecFns;
use crate::record::{SheetRecord, grid_view, row_view};
use crate::table::{AggregationTable, TableView, table_wf};
use crate::text::{decimal_digits, render_decimal};

verus! {

/// One merged output sheet: its name and its final text grid.
#[derive(Debug)]
pub struct OutputSheet {
    pub name: String,
    pub rows: Vec<Vec<String>>,
}

/// The sequence label carried in column 0 of a block's first row.
pub open spec fn label_view(f: nat) -> Seq<char> {
    "index:"@ + decimal_digits(f)
}

/// What column 0 of row `j` of a block carries: the sequence label on the
/// first row, the source file name on the second, nothing further down. The
/// two writes land on adjacent rows and never touch the same cell.
pub open spec fn block_label(rec: SheetRecord, j: int) -> Seq<char> {
    if j == 0 {
        label_view(rec.file_ordinal as nat)
    } else if j == 1 {
        rec.file_name@
    } else {
        Seq::<char>::empty()
    }
}

/// A block's labeled rows: the record's rows shifted one column right, behind
/// the label column.
pub open spec fn block_body(rec: SheetRecord) -> Seq<Seq<Seq<char>>> {
    Seq::new(
        grid_view(rec.rows@).len(),
        |j: int| seq![block_label(rec, j)] + grid_view(rec.rows@)[j],
    )
}

/// The blank separator row written after every block.
pub open spec fn separator_row() -> Seq<Seq<char>> {
    seq![Seq::<char>::empty()]
}

/// Everything one slot contributes to its output sheet: nothing for a gap;
/// for a record, its labeled block followed by one separator row.
pub open spec fn block_rows(slot: Option<SheetRecord>) -> Seq<Seq<Seq<char>>> {
    match slot {
        Some(rec) => block_body(rec) + seq![separator_row()],
        None => Seq::<Seq<Seq<char>>>::empty(),
    }
}

/// The rows of one output sheet: every present block, in increasing file
/// ordinal order, gaps skipped.
pub open spec fn spec_sheet_rows(slots: Seq<Option<SheetRecord>>) -> Seq<Seq<Seq<char>>>
    decreases slots.len(),
{
    if slots.len() == 0 {
        Seq::<Seq<Seq<char>>>::empty()
    } else {
        spec_sheet_rows(slots.drop_last()) + block_rows(slots.last())
    }
}

/// The name given to a sheet whose file-ordinal-0 slot is absent.
pub open spec fn placeholder_name() -> Seq<char> {
    "sheet unnamed"@
}

/// An output sheet is named after its file-ordinal-0 record when present.
pub open spec fn spec_sheet_name(slots: Seq<Option<SheetRecord>>) -> Seq<char> {
    if slots.len() > 0 {
        match slots[0] {
            Some(r) => r.sheet_name@,
            None => placeholder_name(),
        }
    } else {
        placeholder_name()
    }
}

/// The merged workbook: one output sheet per sheet ordinal of the table.
pub open spec fn spec_merge(t: TableView) -> Seq<(Seq<char>, Seq<Seq<Seq<char>>>)> {
    Seq::new(t.len(), |s: int| (spec_sheet_name(t[s]), spec_sheet_rows(t[s])))
}

pub open spec fn sheet_views(out: Seq<OutputSheet>) -> Seq<(Seq<char>, Seq<Seq<Seq<char>>>)> {
    Seq::new(out.len(), |i: int| (out[i].name@, grid_view(out[i].rows@)))
}

/// Appends one record's block to an output sheet under construction, then
/// one separator row.
fn append_block(rows: &mut Vec<Vec<String>>, rec: &SheetRecord)
    ensures
        grid_view(final(rows)@) == grid_view(old(rows)@) + block_rows(Some(*rec)),
{
    let mut j: usize = 0;
    while j < rec.rows.len()
        invariant
            j <= rec.rows@.len(),
            grid_view(rows@) == grid_view(old(rows)@) + block_body(*rec).take(j as int),
        decreases rec.rows@.len() - j,
    {
        let label: String = if j == 0 {
            let mut l = String::from_str("index:");
            let digits = render_decimal(rec.file_ordinal as u64);
            l.append(digits.as_str());
            proof {
                assert(rec.file_ordinal as u64 == rec.file_ordinal);
                assert(l@ == block_label(*rec, 0));
            }
            l
        } else if j == 1 {
            rec.file_name.clone()
        } else {
            String::new()
        };
        proof {
            assert(label@ == block_label(*rec, j as int));
        }
        let mut row: Vec<String> = Vec::new();
        row.push(label);
        let src = &rec.rows[j];
        let mut c: usize = 0;
        while c < src.len()
            invariant
                c <= src@.len(),
                row@.len() == c + 1,
                row@[0]@ == block_label(*rec, j as int),
                forall|k: int| 1 <= k <= c ==> (#[trigger] row@[k])@ == src@[k - 1]@,
            decreases src@.len() - c,
        {
            row.push(src[c].clone());
            c = c + 1;
        }
        proof {
            assert(row_view(row@) =~= seq![block_label(*rec, j as int)] + row_view(
                rec.rows@[j as int]@,
            ));
        }
        let ghost rows_before = rows@;
        let ghost rowv = row@;
        proof {
            assert(row_view(rowv) == seq![block_label(*rec, j as int)] + row_view(
                rec.rows@[j as int]@,
            ));
        }
        rows.push(row);
        proof {
            let bb = block_body(*rec);
            assert(grid_view(rows_before).len() == grid_view(old(rows)@).len() + j);
            assert forall|i: int| 0 <= i < rows@.len() implies grid_view(rows@)[i] == (grid_view(
                old(rows)@,
            ) + bb.take(j + 1))[i] by {
                if i < rows_before.len() {
                    assert(rows@[i] == rows_before[i]);
                    assert(grid_view(rows_before)[i] == (grid_view(old(rows)@) + bb.take(
                        j as int,
                    ))[i]);
                } else {
                    assert(i == rows_before.len());
                    assert(rows@[i]@ == rowv);
                    assert(grid_view(rows@)[i] == row_view(rowv));
                    assert((grid_view(old(rows)@) + bb.take(j + 1))[i] == bb.take(j + 1)[j as int]);
                    assert(bb.take(j + 1)[j as int] == bb[j as int]);
                    assert(bb[j as int] == seq![block_label(*rec, j as int)] + grid_view(
                        rec.rows@,
                    )[j as int]);
                    assert(grid_view(rec.rows@)[j as int] == row_view(rec.rows@[j as int]@));
                }
            }
            assert(grid_view(rows@) =~= grid_view(old(rows)@) + bb.take(j + 1));
        }
        j = j + 1;
    }
    let mut sep: Vec<String> = Vec::new();
    sep.push(String::new());
    let ghost sepv = sep@;
    proof {
        assert(row_view(sepv) =~= separator_row());
        assert(block_body(*rec).take(rec.rows@.len() as int) =~= block_body(*rec));
    }
    let ghost rows_mid = rows@;
    rows.push(sep);
    proof {
        let bb = block_body(*rec);
        assert(grid_view(rows_mid).len() == grid_view(old(rows)@).len() + bb.len());
        assert forall|i: int| 0 <= i < rows@.len() implies grid_view(rows@)[i] == (grid_view(
            old(rows)@,
        ) + block_rows(Some(*rec)))[i] by {
            if i < rows_mid.len() {
                assert(rows@[i] == rows_mid[i]);
                assert(grid_view(rows_mid)[i] == (grid_view(old(rows)@) + bb)[i]);
                assert((grid_view(old(rows)@) + bb)[i] == (grid_view(old(rows)@) + block_rows(
                    Some(*rec),
                ))[i]);
            } else {
                assert(i == rows_mid.len());
                assert(rows@[i]@ == sepv);
                assert(grid_view(rows@)[i] == row_view(sepv));
                assert((grid_view(old(rows)@) + block_rows(Some(*rec)))[i] == block_rows(
                    Some(*rec),
                )[bb.len() as int]);
                assert(block_rows(Some(*rec))[bb.len() as int] == separator_row());
            }
        }
        assert(grid_view(rows@) =~= grid_view(old(rows)@) + block_rows(Some(*rec)));
    }
}

/// Merges the frozen table into output sheets: one sheet per sheet ordinal,
/// each concatenating its file blocks in increasing file ordinal order —
/// never in worker completion order.
pub fn merge(table: &AggregationTable) -> (out: Vec<OutputSheet>)
    requires
        table_wf(table@),
    ensures
        out@.len() == table@.len(),
        sheet_views(out@) == spec_merge(table@),
{
    let mut out: Vec<OutputSheet> = Vec::new();
    let n = table.sheet_count();
    let mut s: usize = 0;
    while s < n
        invariant
            table_wf(table@),
            n == table@.len(),
            s <= n,
            out@.len() == s,
            forall|i: int|
                0 <= i < s ==> {
                    &&& (#[trigger] out@[i]).name@ == spec_sheet_name(table@[i])
                    &&& grid_view(out@[i].rows@) == spec_sheet_rows(table@[i])
                },
        decreases n - s,
    {
        let m = table.row_len(s);
        let name: String = if m > 0 {
            match table.get(s, 0) {
                Some(r) => r.sheet_name.clone(),
                None => String::from_str("sheet unnamed"),
            }
        } else {
            String::from_str("sheet unnamed")
        };
        proof {
            assert(name@ == spec_sheet_name(table@[s as int]));
        }
        let mut rows: Vec<Vec<String>> = Vec::new();
        let mut f: usize = 0;
        while f < m
            invariant
                table_wf(table@),
                s < table@.len(),
                m == table@[s as int].len(),
                f <= m,
                grid_view(rows@) == spec_sheet_rows(table@[s as int].take(f as int)),
            decreases m - f,
        {
            match table.get(s, f) {
                Some(rec) => {
                    append_block(&mut rows, rec);
                },
                None => {},
            }
            proof {
                assert(table@[s as int].take(f + 1).drop_last() =~= table@[s as int].take(
                    f as int,
                ));
                assert(grid_view(rows@) =~~= spec_sheet_rows(table@[s as int].take(f + 1)));
            }
            f = f + 1;
        }
        proof {
            assert(table@[s as int].take(m as int) =~= table@[s as int]);
        }
        out.push(OutputSheet { name, rows });
        s = s + 1;
    }
    proof {
        assert(sheet_views(out@) =~~= spec_merge(table@));
    }
    out
}

/// Law: the merged output holds exactly one sheet per sheet ordinal the
/// table covers — one plus the greatest sheet ordinal observed.
pub proof fn lemma_output_sheet_count(t: TableView)
    ensures
        spec_merge(t).len() == t.len(),
{
}

/// Law: within one output sheet, every row contributed by a file ordinal
/// below `k` precedes every row contributed by a file ordinal at or above
/// `k`: blocks stand in strictly increasing file ordinal order, independent
/// of worker completion order.
pub proof fn lemma_blocks_in_ordinal_order(slots: Seq<Option<SheetRecord>>, k: int)
    requires
        0 <= k <= slots.len(),
    ensures
        spec_sheet_rows(slots) == spec_sheet_rows(slots.take(k)) + spec_sheet_rows(slots.skip(k)),
    decreases slots.len(),
{
    if slots.len() == k {
        assert(slots.take(k) =~= slots);
        assert(slots.skip(k) =~= Seq::<Option<SheetRecord>>::empty());
        assert(spec_sheet_rows(slots) =~~= spec_sheet_rows(slots.take(k)) + spec_sheet_rows(
            slots.skip(k),
        ));
    } else {
        lemma_blocks_in_ordinal_order(slots.drop_last(), k);
        assert(slots.drop_last().take(k) =~= slots.take(k));
        assert(slots.skip(k).drop_last() =~= slots.drop_last().skip(k));
        assert(slots.skip(k).last() == slots.last());
        assert(spec_sheet_rows(slots) =~~= spec_sheet_rows(slots.take(k)) + spec_sheet_rows(
            slots.skip(k),
        ));
    }
}

} // verus!
