//! Builders that assemble grid values from homogeneous native data: rows
//! and tables of strings, numbers, and name/number pairs.

use crate::text::{spec_from_text, utf16_encode};
use crate::value::{
    Body, BodyV, Cell, CellV, Grid, GridV, Ownership, Variant, VariantV, ERR_NULL, ERR_VALUE,
};
use vstd::arithmetic::div_mod::lemma_fundamental_div_mod;
use vstd::prelude::*;

verus! {

/// The cell a string becomes: its UTF-16 encoding, or the `#VALUE` error
/// when the encoding exceeds the text limit.
pub open spec fn spec_text_cell(s: Seq<char>) -> CellV {
    if utf16_encode(s).len() > crate::TEXT_LIMIT {
        CellV::Error(ERR_VALUE)
    } else {
        CellV::Text(utf16_encode(s))
    }
}

/// The cell a double's bits become: the number, or the `#NA` error for a
/// NaN or an infinity.
pub open spec fn spec_num_cell(bits: u64) -> CellV {
    if (bits >> 52) & 0x7ff == 0x7ff {
        CellV::Error(crate::value::ERR_NA)
    } else {
        CellV::Num(bits)
    }
}

/// The models of a sequence of strings.
pub open spec fn texts_views(s: Seq<String>) -> Seq<Seq<char>> {
    s.map_values(|t: String| t@)
}

/// The value `grid_from_texts` builds: a `rows x columns` grid of text
/// cells where `rows` is the element count divided by `columns`. No
/// elements or no columns give the `#NULL` error, a single cell gives a
/// scalar text value, and a dimension beyond the host's limits gives the
/// `#VALUE` error.
pub open spec fn spec_grid_from_texts(texts: Seq<Seq<char>>, columns: int) -> VariantV {
    let rows = if columns == 0 {
        0int
    } else {
        texts.len() as int / columns
    };
    if rows == 0 || columns == 0 {
        VariantV::of_cell(CellV::Error(ERR_NULL))
    } else if rows == 1 && columns == 1 {
        spec_from_text(texts[0])
    } else if rows > crate::ROW_LIMIT || columns > crate::COL_LIMIT {
        VariantV::of_cell(CellV::Error(ERR_VALUE))
    } else {
        VariantV {
            body: BodyV::Grid(
                GridV {
                    columns: columns as nat,
                    rows: rows as nat,
                    cells: Seq::new((rows * columns) as nat, |k: int| spec_text_cell(texts[k])),
                },
            ),
            owner: Ownership::OwnedByExtension,
        }
    }
}

/// The value `grid_from_numbers` builds, shaped as `grid_from_texts` but
/// from number cells.
pub open spec fn spec_grid_from_numbers(values: Seq<u64>, columns: int) -> VariantV {
    let rows = if columns == 0 {
        0int
    } else {
        values.len() as int / columns
    };
    if rows == 0 || columns == 0 {
        VariantV::of_cell(CellV::Error(ERR_NULL))
    } else if rows == 1 && columns == 1 {
        VariantV { body: crate::value::spec_from_number(values[0]), owner: Ownership::OwnedByExtension }
    } else if rows > crate::ROW_LIMIT || columns > crate::COL_LIMIT {
        VariantV::of_cell(CellV::Error(ERR_VALUE))
    } else {
        VariantV {
            body: BodyV::Grid(
                GridV {
                    columns: columns as nat,
                    rows: rows as nat,
                    cells: Seq::new((rows * columns) as nat, |k: int| spec_num_cell(values[k])),
                },
            ),
            owner: Ownership::OwnedByExtension,
        }
    }
}

/// The value `grid_from_pairs` builds: a two-column grid with one row per
/// pair, the name on the left and the number on the right. No pairs give
/// the `#NULL` error; more rows than the host allows give the `#VALUE`
/// error.
pub open spec fn spec_grid_from_pairs(pairs: Seq<(String, u64)>) -> VariantV {
    let rows = pairs.len() as int;
    if rows == 0 {
        VariantV::of_cell(CellV::Error(ERR_NULL))
    } else if rows > crate::ROW_LIMIT {
        VariantV::of_cell(CellV::Error(ERR_VALUE))
    } else {
        VariantV {
            body: BodyV::Grid(
                GridV {
                    columns: 2,
                    rows: rows as nat,
                    cells: Seq::new(
                        (2 * rows) as nat,
                        |k: int|
                            if k % 2 == 0 {
                                spec_text_cell(pairs[k / 2].0@)
                            } else {
                                spec_num_cell(pairs[k / 2].1)
                            },
                    ),
                },
            ),
            owner: Ownership::OwnedByExtension,
        }
    }
}

/// The value `grid_from_text_row` builds: a single-row grid with one text
/// cell per element. No elements give the `#NULL` error; more columns than
/// the host allows give the `#VALUE` error.
pub open spec fn spec_grid_from_text_row(texts: Seq<Seq<char>>) -> VariantV {
    let n = texts.len() as int;
    if n == 0 {
        VariantV::of_cell(CellV::Error(ERR_NULL))
    } else if n > crate::COL_LIMIT {
        VariantV::of_cell(CellV::Error(ERR_VALUE))
    } else {
        VariantV {
            body: BodyV::Grid(
                GridV {
                    columns: n as nat,
                    rows: 1,
                    cells: Seq::new(n as nat, |k: int| spec_text_cell(texts[k])),
                },
            ),
            owner: Ownership::OwnedByExtension,
        }
    }
}

fn text_cell(s: &str) -> (c: Cell)
    ensures
        c@ == spec_text_cell(s@),
        c@.wf(),
{
    let v = Variant::from_text(s);
    match v.body {
        Body::Cell(c) => c,
        Body::Grid(_) => vstd::pervasive::unreached(),
    }
}

fn num_cell(bits: u64) -> (c: Cell)
    ensures
        c@ == spec_num_cell(bits),
        c@.wf(),
{
    let v = Variant::from_number_bits(bits);
    match v.body {
        Body::Cell(c) => c,
        Body::Grid(_) => vstd::pervasive::unreached(),
    }
}

impl Variant {
    /// A grid of text cells from a flat slice, `columns` wide, the row
    /// count derived from the element count (excess elements beyond the
    /// last full row are dropped). See `spec_grid_from_texts` for the
    /// degenerate shapes.
    pub fn grid_from_texts(values: &[String], columns: usize) -> (r: Variant)
        ensures
            r@ == spec_grid_from_texts(texts_views(values@), columns as int),
            r@.wf(),
    {
        let n = values.len();
        let rows: usize = if columns == 0 {
            0
        } else {
            n / columns
        };
        if rows == 0 || columns == 0 {
            return Variant::from_err(ERR_NULL);
        }
        if rows == 1 && columns == 1 {
            return Variant::from_text(values[0].as_str());
        }
        if rows > crate::ROW_LIMIT || columns > crate::COL_LIMIT {
            return Variant::from_err(ERR_VALUE);
        }
        proof {
            lemma_fundamental_div_mod(n as int, columns as int);
            assert(rows * columns <= n) by (nonlinear_arith)
                requires
                    n as int == (columns as int) * (rows as int) + (n as int % columns as int),
                    (n as int % columns as int) >= 0,
                    rows as int == n as int / columns as int,
            ;
        }
        let size = rows * columns;
        let mut cells: Vec<Cell> = Vec::new();
        let mut k: usize = 0;
        while k < size
            invariant
                k <= size,
                size <= n,
                n == values@.len(),
                cells@.len() == k,
                forall|j: int|
                    0 <= j < k ==> (#[trigger] cells@[j])@ == spec_text_cell(values@[j]@) && cells@[
                        j
                    ]@.wf(),
            decreases size - k,
        {
            cells.push(text_cell(values[k].as_str()));
            k = k + 1;
        }
        let r = Variant {
            body: Body::Grid(Grid { columns, rows, cells }),
            owner: Ownership::OwnedByExtension,
        };
        proof {
            let sg = spec_grid_from_texts(texts_views(values@), columns as int);
            assert(r@.body->Grid_0.cells =~= sg.body->Grid_0.cells);
            assert(r@ =~= sg);
            assert(crate::value::cells_wf(r@.body->Grid_0.cells));
            assert(r@.wf());
        }
        r
    }

    /// A grid of number cells from a flat slice of double bit patterns,
    /// `columns` wide, shaped as `grid_from_texts`.
    pub fn grid_from_numbers(values: &[u64], columns: usize) -> (r: Variant)
        ensures
            r@ == spec_grid_from_numbers(values@, columns as int),
            r@.wf(),
    {
        let n = values.len();
        let rows: usize = if columns == 0 {
            0
        } else {
            n / columns
        };
        if rows == 0 || columns == 0 {
            return Variant::from_err(ERR_NULL);
        }
        if rows == 1 && columns == 1 {
            return Variant::from_number_bits(values[0]);
        }
        if rows > crate::ROW_LIMIT || columns > crate::COL_LIMIT {
            return Variant::from_err(ERR_VALUE);
        }
        proof {
            lemma_fundamental_div_mod(n as int, columns as int);
            assert(rows * columns <= n) by (nonlinear_arith)
                requires
                    n as int == (columns as int) * (rows as int) + (n as int % columns as int),
                    (n as int % columns as int) >= 0,
                    rows as int == n as int / columns as int,
            ;
        }
        let size = rows * columns;
        let mut cells: Vec<Cell> = Vec::new();
        let mut k: usize = 0;
        while k < size
            invariant
                k <= size,
                size <= n,
                n == values@.len(),
                cells@.len() == k,
                forall|j: int|
                    0 <= j < k ==> (#[trigger] cells@[j])@ == spec_num_cell(values@[j]) && cells@[
                        j
                    ]@.wf(),
            decreases size - k,
        {
            cells.push(num_cell(values[k]));
            k = k + 1;
        }
        let r = Variant {
            body: Body::Grid(Grid { columns, rows, cells }),
            owner: Ownership::OwnedByExtension,
        };
        proof {
            let sg = spec_grid_from_numbers(values@, columns as int);
            assert(r@.body->Grid_0.cells =~= sg.body->Grid_0.cells);
            assert(r@ =~= sg);
            assert(crate::value::cells_wf(r@.body->Grid_0.cells));
            assert(r@.wf());
        }
        r
    }

    /// A two-column grid from name/number pairs, one row per pair.
    pub fn grid_from_pairs(pairs: &[(String, u64)]) -> (r: Variant)
        ensures
            r@ == spec_grid_from_pairs(pairs@),
            r@.wf(),
    {
        let rows = pairs.len();
        if rows == 0 {
            return Variant::from_err(ERR_NULL);
        }
        if rows > crate::ROW_LIMIT {
            return Variant::from_err(ERR_VALUE);
        }
        let size = 2 * rows;
        let mut cells: Vec<Cell> = Vec::new();
        let mut i: usize = 0;
        while i < rows
            invariant
                i <= rows,
                rows == pairs@.len(),
                rows <= crate::ROW_LIMIT,
                cells@.len() == 2 * i,
                forall|j: int|
                    0 <= j < 2 * i ==> (#[trigger] cells@[j])@ == (if j % 2 == 0 {
                        spec_text_cell(pairs@[j / 2].0@)
                    } else {
                        spec_num_cell(pairs@[j / 2].1)
                    }) && cells@[j]@.wf(),
            decreases rows - i,
        {
            cells.push(text_cell(pairs[i].0.as_str()));
            cells.push(num_cell(pairs[i].1));
            i = i + 1;
        }
        let r = Variant {
            body: Body::Grid(Grid { columns: 2, rows, cells }),
            owner: Ownership::OwnedByExtension,
        };
        proof {
            let sg = spec_grid_from_pairs(pairs@);
            assert(r@.body->Grid_0.cells =~= sg.body->Grid_0.cells);
            assert(r@ =~= sg);
            assert(crate::value::cells_wf(r@.body->Grid_0.cells));
            assert(r@.wf());
        }
        r
    }

    /// A single-row grid of text cells, one column per element.
    pub fn grid_from_text_row(values: &[String]) -> (r: Variant)
        ensures
            r@ == spec_grid_from_text_row(texts_views(values@)),
            r@.wf(),
    {
        let n = values.len();
        if n == 0 {
            return Variant::from_err(ERR_NULL);
        }
        if n > crate::COL_LIMIT {
            return Variant::from_err(ERR_VALUE);
        }
        let mut cells: Vec<Cell> = Vec::new();
        let mut k: usize = 0;
        while k < n
            invariant
                k <= n,
                n == values@.len(),
                cells@.len() == k,
                forall|j: int|
                    0 <= j < k ==> (#[trigger] cells@[j])@ == spec_text_cell(values@[j]@) && cells@[
                        j
                    ]@.wf(),
            decreases n - k,
        {
            cells.push(text_cell(values[k].as_str()));
            k = k + 1;
        }
        let r = Variant {
            body: Body::Grid(Grid { columns: n, rows: 1, cells }),
            owner: Ownership::OwnedByExtension,
        };
        proof {
            let sg = spec_grid_from_text_row(texts_views(values@));
            assert(r@.body->Grid_0.cells =~= sg.body->Grid_0.cells);
            assert(r@ =~= sg);
            assert(crate::value::cells_wf(r@.body->Grid_0.cells));
            assert(r@.wf());
        }
        r
    }
}

} // verus!
