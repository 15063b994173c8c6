use vstd::prelude::*;
use crate::MergeError;
use crate::merge::OutputSheet;
use crate::record::grid_view;

verus! {

#[verifier::external_type_specification]
#[verifier::external_body]
pub struct ExWorkbook(rust_xlsxwriter::Workbook);

#[verifier::external_type_specification]
#[verifier::external_body]
pub struct ExWorksheet(rust_xlsxwriter::Worksheet);

#[verifier::external_type_specification]
#[verifier::external_body]
pub struct ExXlsxError(rust_xlsxwriter::XlsxError);

/// The cells a worksheet holds so far, keyed by (row, column).
pub uninterp spec fn worksheet_cells(ws: rust_xlsxwriter::Worksheet) -> Map<(int, int), Seq<char>>;

/// The name a worksheet carries.
pub uninterp spec fn worksheet_name(ws: rust_xlsxwriter::Worksheet) -> Seq<char>;

/// The sheets a workbook holds: each one's name and cells, in order.
pub uninterp spec fn workbook_sheets(wb: rust_xlsxwriter::Workbook) -> Seq<
    (Seq<char>, Map<(int, int), Seq<char>>),
>;

/// Excel's worksheet grid and cell-text limits, as rust_xlsxwriter checks
/// them before storing a nonempty string.
pub open spec fn cell_in_limits(row: int, col: int, text: Seq<char>) -> bool {
    row < 1048576 && col < 16384 && text.len() <= 32767
}

/// A character Excel allows inside a worksheet name.
pub open spec fn sheet_name_char_ok(c: char) -> bool {
    c != '*' && c != '?' && c != ':' && c != '[' && c != ']' && c != '\\' && c != '/'
}

/// A worksheet name Excel accepts: nonempty, at most 31 characters, no
/// forbidden character, not starting or ending with an apostrophe.
pub open spec fn valid_sheet_name(name: Seq<char>) -> bool {
    &&& 0 < name.len() <= 31
    &&& forall|i: int| 0 <= i < name.len() ==> sheet_name_char_ok(#[trigger] name[i])
    &&& name[0] != '\''
    &&& name[name.len() - 1] != '\''
}

/// The sheet list of a workbook that holds none yet.
pub open spec fn no_sheets() -> Seq<(Seq<char>, Map<(int, int), Seq<char>>)> {
    Seq::empty()
}

/// The cell map of a worksheet that holds no cells yet.
pub open spec fn no_cells() -> Map<(int, int), Seq<char>> {
    Map::empty()
}

/// Relies on rust_xlsxwriter::Workbook::new: a new workbook holds no sheets.
#[verifier::external_body]
fn new_workbook() -> (wb: rust_xlsxwriter::Workbook)
    ensures
        workbook_sheets(wb) == no_sheets(),
{
    rust_xlsxwriter::Workbook::new()
}

/// Relies on rust_xlsxwriter::Worksheet::new: a fresh worksheet has no cells
/// and an empty name.
#[verifier::external_body]
fn new_worksheet() -> (ws: rust_xlsxwriter::Worksheet)
    ensures
        worksheet_cells(ws) == no_cells(),
        worksheet_name(ws).len() == 0,
{
    rust_xlsxwriter::Worksheet::new()
}

/// Relies on rust_xlsxwriter::Worksheet::set_name, which accepts exactly the
/// names `valid_sheet_name` describes and assigns the name only on success.
#[verifier::external_body]
fn ws_set_name(ws: &mut rust_xlsxwriter::Worksheet, name: &str) -> (r: Result<
    (),
    rust_xlsxwriter::XlsxError,
>)
    ensures
        r is Ok <==> valid_sheet_name(name@),
        r is Ok ==> worksheet_name(*final(ws)) == name@,
        r is Err ==> worksheet_name(*final(ws)) == worksheet_name(*old(ws)),
        worksheet_cells(*final(ws)) == worksheet_cells(*old(ws)),
{
    match ws.set_name(name) {
        Ok(_) => Ok(()),
        Err(e) => Err(e),
    }
}

/// Relies on rust_xlsxwriter::Worksheet::write_string: an empty string is
/// ignored and always accepted; a nonempty one lands in its cell exactly
/// when row, column and text length are within Excel's limits, and on
/// failure nothing is stored.
#[verifier::external_body]
fn ws_write_string(
    ws: &mut rust_xlsxwriter::Worksheet,
    row: u32,
    col: u16,
    text: &str,
) -> (r: Result<(), rust_xlsxwriter::XlsxError>)
    ensures
        r is Ok <==> (text@.len() == 0 || cell_in_limits(row as int, col as int, text@)),
        r is Ok ==> worksheet_cells(*final(ws)) == (if text@.len() == 0 {
            worksheet_cells(*old(ws))
        } else {
            worksheet_cells(*old(ws)).insert((row as int, col as int), text@)
        }),
        r is Err ==> worksheet_cells(*final(ws)) == worksheet_cells(*old(ws)),
        worksheet_name(*final(ws)) == worksheet_name(*old(ws)),
{
    match ws.write_string(row, col, text) {
        Ok(_) => Ok(()),
        Err(e) => Err(e),
    }
}

/// Relies on rust_xlsxwriter::Workbook::push_worksheet: the sheet joins the
/// end of the workbook, keeping its name when it has one.
#[verifier::external_body]
fn wb_push_worksheet(wb: &mut rust_xlsxwriter::Workbook, ws: rust_xlsxwriter::Worksheet)
    ensures
        worksheet_name(ws).len() > 0 ==> workbook_sheets(*final(wb)) == workbook_sheets(
            *old(wb),
        ).push((worksheet_name(ws), worksheet_cells(ws))),
{
    wb.push_worksheet(ws);
}

/// The cells of one grid written up to row `rj`, and within row `rj` up to
/// column `c`: every earlier nonempty cell at its (row, column) position.
pub open spec fn cell_present(g: Seq<Seq<Seq<char>>>, rj: int, c: int, rc: (int, int)) -> bool {
    &&& 0 <= rc.0 < g.len()
    &&& 0 <= rc.1 < g[rc.0].len()
    &&& g[rc.0][rc.1].len() > 0
    &&& (rc.0 < rj || (rc.0 == rj && rc.1 < c))
}

pub open spec fn cells_upto(g: Seq<Seq<Seq<char>>>, rj: int, c: int) -> Map<
    (int, int),
    Seq<char>,
> {
    Map::new(|rc: (int, int)| cell_present(g, rj, c, rc), |rc: (int, int)| g[rc.0][rc.1])
}

/// The cell map a whole grid leaves in its worksheet: every nonempty cell.
/// Empty cells are ignored, as the writer ignores empty strings.
pub open spec fn grid_cells(g: Seq<Seq<Seq<char>>>) -> Map<(int, int), Seq<char>> {
    cells_upto(g, g.len() as int, 0)
}

/// What the finished workbook must hold: one sheet per merged output sheet,
/// in order, under its name, with its nonempty cells.
pub open spec fn expected_sheets(out: Seq<OutputSheet>) -> Seq<
    (Seq<char>, Map<(int, int), Seq<char>>),
> {
    Seq::new(out.len(), |i: int| (out[i].name@, grid_cells(grid_view(out[i].rows@))))
}

/// A cell the writer accepts: empty (and so ignored) or within limits.
pub open spec fn cell_ok(g: Seq<Seq<Seq<char>>>, r: int, c: int) -> bool {
    g[r][c].len() == 0 || cell_in_limits(r, c, g[r][c])
}

/// Every cell before row `rj` — and in row `rj` before column `cj` — is one
/// the writer accepts.
pub open spec fn cells_ok_upto(g: Seq<Seq<Seq<char>>>, rj: int, cj: int) -> bool {
    forall|r: int, c: int|
        #![trigger g[r][c]]
        0 <= r < g.len() && 0 <= c < g[r].len() && (r < rj || (r == rj && c < cj)) ==> cell_ok(
            g,
            r,
            c,
        )
}

/// An output sheet the writer can store: its name is one Excel accepts and
/// every nonempty cell is within Excel's limits.
pub open spec fn sheet_writable(sh: OutputSheet) -> bool {
    &&& valid_sheet_name(sh.name@)
    &&& cells_ok_upto(grid_view(sh.rows@), grid_view(sh.rows@).len() as int, 0)
}

pub open spec fn all_writable(out: Seq<OutputSheet>) -> bool {
    forall|i: int| 0 <= i < out.len() ==> sheet_writable(#[trigger] out[i])
}

/// Builds the output workbook in memory: one worksheet per merged output
/// sheet, in order, every nonempty cell written at its grid position.
/// Returns `WriteError` exactly when some sheet name or nonempty cell breaks
/// Excel's limits; saving the workbook to disk is the caller's step.
pub fn build_workbook(sheets: &Vec<OutputSheet>) -> (r: Result<
    rust_xlsxwriter::Workbook,
    MergeError,
>)
    ensures
        match r {
            Ok(wb) => all_writable(sheets@) && workbook_sheets(wb) == expected_sheets(sheets@),
            Err(e) => e == MergeError::WriteError && !all_writable(sheets@),
        },
{
    let mut wb = new_workbook();
    let mut i: usize = 0;
    while i < sheets.len()
        invariant
            i <= sheets@.len(),
            workbook_sheets(wb) == expected_sheets(sheets@).take(i as int),
            forall|j: int| 0 <= j < i ==> sheet_writable(#[trigger] sheets@[j]),
        decreases sheets@.len() - i,
    {
        let sh = &sheets[i];
        let ghost g = grid_view(sh.rows@);
        let mut ws = new_worksheet();
        match ws_set_name(&mut ws, sh.name.as_str()) {
            Ok(_) => {},
            Err(_) => {
                proof {
                    assert(!sheet_writable(sheets@[i as int]));
                }
                return Err(MergeError::WriteError);
            },
        }
        proof {
            assert(worksheet_cells(ws) =~= cells_upto(g, 0, 0));
        }
        let mut rj: usize = 0;
        while rj < sh.rows.len()
            invariant
                i < sheets@.len(),
                sheets@[i as int] == *sh,
                rj <= sh.rows@.len(),
                g == grid_view(sh.rows@),
                worksheet_name(ws) == sh.name@,
                valid_sheet_name(sh.name@),
                worksheet_cells(ws) == cells_upto(g, rj as int, 0),
                cells_ok_upto(g, rj as int, 0),
            decreases sh.rows@.len() - rj,
        {
            let row = &sh.rows[rj];
            let mut cj: usize = 0;
            while cj < row.len()
                invariant
                    i < sheets@.len(),
                    sheets@[i as int] == *sh,
                    cj <= row@.len(),
                    rj < sh.rows@.len(),
                    row@ == sh.rows@[rj as int]@,
                    g == grid_view(sh.rows@),
                    worksheet_name(ws) == sh.name@,
                    valid_sheet_name(sh.name@),
                    worksheet_cells(ws) == cells_upto(g, rj as int, cj as int),
                    cells_ok_upto(g, rj as int, cj as int),
                decreases row@.len() - cj,
            {
                let cell = &row[cj];
                proof {
                    assert(g[rj as int][cj as int] == cell@);
                }
                if !cell.as_str().is_empty() {
                    if rj >= 1048576 || cj >= 16384 {
                        proof {
                            assert(g[rj as int][cj as int].len() > 0);
                            assert(!cell_ok(g, rj as int, cj as int));
                            assert(!cells_ok_upto(g, g.len() as int, 0));
                            assert(!sheet_writable(sheets@[i as int]));
                        }
                        return Err(MergeError::WriteError);
                    }
                    match ws_write_string(&mut ws, rj as u32, cj as u16, cell.as_str()) {
                        Ok(_) => {
                            proof {
                                assert(worksheet_cells(ws) =~= cells_upto(
                                    g,
                                    rj as int,
                                    cj + 1,
                                ));
                            }
                        },
                        Err(_) => {
                            proof {
                                assert(g[rj as int][cj as int].len() > 0);
                                assert(!cell_in_limits(rj as int, cj as int, cell@));
                                assert(!cell_ok(g, rj as int, cj as int));
                                assert(!cells_ok_upto(g, g.len() as int, 0));
                                assert(!sheet_writable(sheets@[i as int]));
                            }
                            return Err(MergeError::WriteError);
                        },
                    }
                } else {
                    proof {
                        assert(worksheet_cells(ws) =~= cells_upto(g, rj as int, cj + 1));
                    }
                }
                cj = cj + 1;
            }
            proof {
                assert(cells_upto(g, rj as int, row@.len() as int) =~= cells_upto(g, rj + 1, 0));
            }
            rj = rj + 1;
        }
        proof {
            assert(cells_upto(g, sh.rows@.len() as int, 0) == grid_cells(g));
            assert(sheet_writable(sheets@[i as int]));
        }
        wb_push_worksheet(&mut wb, ws);
        proof {
            assert(workbook_sheets(wb) =~= expected_sheets(sheets@).take(i + 1));
        }
        i = i + 1;
    }
    proof {
        assert(expected_sheets(sheets@).take(sheets@.len() as int) =~= expected_sheets(sheets@));
    }
    Ok(wb)
}

} // verus!
