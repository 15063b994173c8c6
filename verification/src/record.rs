use vstd::prelude::*;

verus! {

/// One discovered input file: a stable ordinal, the bare file name, and the
/// full path that the decoder will open.
#[derive(Debug)]
pub struct InputFile {
    pub ordinal: usize,
    pub name: String,
    pub path: String,
}

/// The text cells of one row, each cell as its character sequence.
pub open spec fn row_view(r: Seq<String>) -> Seq<Seq<char>> {
    Seq::new(r.len(), |i: int| r[i]@)
}

/// The text grid of one sheet: every row's view, in order.
pub open spec fn grid_view(g: Seq<Vec<String>>) -> Seq<Seq<Seq<char>>> {
    Seq::new(g.len(), |i: int| row_view(g[i]@))
}

/// The length of the widest row: the grid's bounding-box column count.
pub open spec fn max_row_width(g: Seq<Vec<String>>) -> nat
    decreases g.len(),
{
    if g.len() == 0 {
        0
    } else {
        let rest = max_row_width(g.drop_last());
        if g.last()@.len() > rest {
            g.last()@.len()
        } else {
            rest
        }
    }
}

/// The decoded content and metadata of one worksheet from one input file.
#[derive(Debug)]
pub struct SheetRecord {
    pub file_ordinal: usize,
    pub file_name: String,
    pub sheet_name: String,
    pub row_count: usize,
    pub column_count: usize,
    pub rows: Vec<Vec<String>>,
}

impl SheetRecord {
    /// The stored counts describe the grid's bounding box.
    pub open spec fn wf(self) -> bool {
        &&& self.row_count == self.rows@.len()
        &&& self.column_count == max_row_width(self.rows@)
    }

    /// Builds a record for one sheet, deriving the row and column counts from
    /// the grid itself.
    pub fn new(
        file_ordinal: usize,
        file_name: String,
        sheet_name: String,
        rows: Vec<Vec<String>>,
    ) -> (r: SheetRecord)
        ensures
            r.wf(),
            r.file_ordinal == file_ordinal,
            r.file_name == file_name,
            r.sheet_name == sheet_name,
            r.rows == rows,
    {
        let mut width: usize = 0;
        let mut i: usize = 0;
        while i < rows.len()
            invariant
                i <= rows@.len(),
                width == max_row_width(rows@.take(i as int)),
            decreases rows@.len() - i,
        {
            if rows[i].len() > width {
                width = rows[i].len();
            }
            proof {
                assert(rows@.take(i + 1).drop_last() =~= rows@.take(i as int));
                assert(rows@.take(i + 1).last() == rows@[i as int]);
            }
            i = i + 1;
        }
        proof {
            assert(rows@.take(rows@.len() as int) =~= rows@);
        }
        SheetRecord {
            file_ordinal,
            file_name,
            sheet_name,
            row_count: rows.len(),
            column_count: width,
            rows,
        }
    }
}

} // verus!
