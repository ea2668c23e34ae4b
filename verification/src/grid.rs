//! Grid composition: concatenation of a sequence of values along one axis,
//! and transposition. Both are built only on the value type's public
//! contract and never construct a grid beyond the host's limits.

use crate::text::{spec_from_text, utf16_encode};
use crate::value::{
    cells_wf, Body, BodyV, Cell, CellV, Grid, GridV, Ownership, Variant, VariantV, ERR_NA,
};
use vstd::prelude::*;

verus! {

/// The models of a sequence of values.
pub open spec fn views(s: Seq<Variant>) -> Seq<VariantV> {
    s.map_values(|v: Variant| v@)
}

/// Every value in the sequence is well-formed.
pub open spec fn all_wf(vs: Seq<VariantV>) -> bool {
    forall|i: int| 0 <= i < vs.len() ==> (#[trigger] vs[i]).wf()
}

/// The larger of two integers.
pub open spec fn max2(a: int, b: int) -> int {
    if a >= b {
        a
    } else {
        b
    }
}

/// The smaller of two integers.
pub open spec fn min2(a: int, b: int) -> int {
    if a <= b {
        a
    } else {
        b
    }
}

/// The text of the error value returned when a composed grid would exceed
/// the host's limits.
pub open spec fn too_big_text() -> Seq<char> {
    "#ERR resulting array is too big"@
}

/// How many cells a value occupies along the growing axis of a
/// concatenation: a grid its own extent, a missing value nothing, and every
/// other value one cell.
pub open spec fn grow_adv(v: VariantV, horiz: bool) -> int {
    match v.body {
        BodyV::Grid(g) => if horiz {
            g.columns as int
        } else {
            g.rows as int
        },
        BodyV::Cell(CellV::Missing) => 0,
        BodyV::Cell(_) => 1,
    }
}

/// Total advance of a sequence of inputs along the growing axis.
pub open spec fn sum_adv(vs: Seq<VariantV>, horiz: bool) -> int
    decreases vs.len(),
{
    if vs.len() == 0 {
        0
    } else {
        grow_adv(vs[0], horiz) + sum_adv(vs.drop_first(), horiz)
    }
}

/// The exact extent `(columns, rows)` of a concatenation before padding:
/// the growing dimension sums the inputs' dimensions, the other takes
/// their maximum.
pub open spec fn concat_extent(vs: Seq<VariantV>, horiz: bool) -> (int, int)
    decreases vs.len(),
{
    if vs.len() == 0 {
        (0, 0)
    } else {
        let e = concat_extent(vs.drop_last(), horiz);
        let d = vs.last().body.dim();
        if horiz {
            (e.0 + d.0, max2(e.1, d.1))
        } else {
            (max2(e.0, d.0), e.1 + d.1)
        }
    }
}

/// The cell a single input contributes at local offset `(x, y)` of its
/// block in a horizontal concatenation; `#NA` outside the block.
pub open spec fn input_cell_h(v: VariantV, x: int, y: int) -> CellV {
    if 0 <= x < grow_adv(v, true) {
        match v.body {
            BodyV::Grid(g) => if 0 <= y < g.rows {
                g.cell(x, y)
            } else {
                CellV::Error(ERR_NA)
            },
            BodyV::Cell(c) => if y == 0 {
                c
            } else {
                CellV::Error(ERR_NA)
            },
        }
    } else {
        CellV::Error(ERR_NA)
    }
}

/// The cell a single input contributes at local offset `(x, y)` of its
/// block in a vertical concatenation; `#NA` outside the block.
pub open spec fn input_cell_v(v: VariantV, x: int, y: int) -> CellV {
    if 0 <= y < grow_adv(v, false) {
        match v.body {
            BodyV::Grid(g) => if 0 <= x < g.columns {
                g.cell(x, y)
            } else {
                CellV::Error(ERR_NA)
            },
            BodyV::Cell(c) => if x == 0 {
                c
            } else {
                CellV::Error(ERR_NA)
            },
        }
    } else {
        CellV::Error(ERR_NA)
    }
}

/// The cell at `(x, y)` of a horizontal concatenation: the input whose
/// block covers column `x` supplies it, and columns past the inputs keep
/// the `#NA` prefill.
pub open spec fn concat_cell_h(vs: Seq<VariantV>, x: int, y: int) -> CellV
    decreases vs.len(),
{
    if vs.len() == 0 {
        CellV::Error(ERR_NA)
    } else {
        let a = grow_adv(vs[0], true);
        if x < a {
            input_cell_h(vs[0], x, y)
        } else {
            concat_cell_h(vs.drop_first(), x - a, y)
        }
    }
}

/// The cell at `(x, y)` of a vertical concatenation.
pub open spec fn concat_cell_v(vs: Seq<VariantV>, x: int, y: int) -> CellV
    decreases vs.len(),
{
    if vs.len() == 0 {
        CellV::Error(ERR_NA)
    } else {
        let a = grow_adv(vs[0], false);
        if y < a {
            input_cell_v(vs[0], x, y)
        } else {
            concat_cell_v(vs.drop_first(), x, y - a)
        }
    }
}

/// The cell at `(x, y)` of a concatenation along the chosen axis.
pub open spec fn concat_cell(vs: Seq<VariantV>, horiz: bool, x: int, y: int) -> CellV {
    if horiz {
        concat_cell_h(vs, x, y)
    } else {
        concat_cell_v(vs, x, y)
    }
}

/// The value `concat` builds. The extent is padded to at least two in each
/// axis (a one-wide or one-high array confuses the host's array paste); a
/// result beyond the host's limits, or too large to address, is the
/// "too big" text error instead of a grid.
pub open spec fn spec_concat(vs: Seq<VariantV>, horiz: bool) -> VariantV {
    let e = concat_extent(vs, horiz);
    let cc = max2(e.0, 2);
    let rc = max2(e.1, 2);
    if rc > crate::ROW_LIMIT || cc > crate::COL_LIMIT || rc * cc > usize::MAX {
        spec_from_text(too_big_text())
    } else {
        VariantV {
            body: BodyV::Grid(
                GridV {
                    columns: cc as nat,
                    rows: rc as nat,
                    cells: Seq::new((rc * cc) as nat, |k: int| concat_cell(vs, horiz, k % cc, k / cc)),
                },
            ),
            owner: Ownership::OwnedByExtension,
        }
    }
}

/// The grid `transpose` builds from a grid: axes swapped, each cell moved
/// from `(column, row)` to `(row, column)`.
pub open spec fn spec_transpose_grid(g: GridV) -> GridV {
    GridV {
        columns: g.rows,
        rows: g.columns,
        cells: Seq::new(g.rows * g.columns, |k: int| g.cell(k / g.rows as int, k % g.rows as int)),
    }
}

/// The value `transpose` builds: scalars pass through unchanged, a grid
/// within the host's limits is transposed, and a grid beyond them yields
/// the "too big" text error.
pub open spec fn spec_transpose(v: VariantV) -> VariantV {
    match v.body {
        BodyV::Cell(c) => VariantV::of_cell(c),
        BodyV::Grid(g) => if g.columns > crate::ROW_LIMIT || g.rows > crate::COL_LIMIT {
            spec_from_text(too_big_text())
        } else {
            VariantV { body: BodyV::Grid(spec_transpose_grid(g)), owner: Ownership::OwnedByExtension }
        },
    }
}

/// Encoding at most doubles the length of a character sequence.
pub proof fn lemma_utf16_encode_len(s: Seq<char>)
    ensures
        utf16_encode(s).len() <= 2 * s.len(),
    decreases s.len(),
{
    if s.len() == 0 {
    } else {
        lemma_utf16_encode_len(s.drop_first());
    }
}

/// The "too big" result is a text value, never a grid.
pub proof fn lemma_too_big_is_text()
    ensures
        spec_from_text(too_big_text()).body matches BodyV::Cell(CellV::Text(_)),
{
    reveal_strlit("#ERR resulting array is too big");
    lemma_utf16_encode_len(too_big_text());
}

/// A well-formed value's dimension and its advance along either axis are
/// non-negative.
pub proof fn lemma_dim_nonneg(v: VariantV)
    requires
        v.wf(),
    ensures
        v.body.dim().0 >= 0,
        v.body.dim().1 >= 0,
        grow_adv(v, true) >= 0,
        grow_adv(v, false) >= 0,
{
    match v.body {
        BodyV::Cell(CellV::SRef(r)) => {
            assert(r.wf());
        },
        BodyV::Cell(CellV::MRef(rs)) => {
            if rs.len() == 1 {
                assert(rs[0].wf());
            }
        },
        _ => {},
    }
}

/// Both components of the extent of well-formed inputs are non-negative.
pub proof fn lemma_extent_nonneg(vs: Seq<VariantV>, horiz: bool)
    requires
        all_wf(vs),
    ensures
        concat_extent(vs, horiz).0 >= 0,
        concat_extent(vs, horiz).1 >= 0,
    decreases vs.len(),
{
    if vs.len() == 0 {
    } else {
        assert(all_wf(vs.drop_last())) by {
            assert(forall|j: int|
                0 <= j < vs.drop_last().len() ==> vs.drop_last()[j] == vs[j]);
        }
        lemma_extent_nonneg(vs.drop_last(), horiz);
        lemma_dim_nonneg(vs.last());
    }
}

/// The non-growing component of the extent covers every input's own
/// dimension there.
pub proof fn lemma_extent_covers(vs: Seq<VariantV>, horiz: bool, i: int)
    requires
        0 <= i < vs.len(),
    ensures
        horiz ==> concat_extent(vs, horiz).1 >= vs[i].body.dim().1,
        !horiz ==> concat_extent(vs, horiz).0 >= vs[i].body.dim().0,
    decreases vs.len(),
{
    if i == vs.len() - 1 {
        assert(vs.last() == vs[i]);
    } else {
        assert(vs.drop_last()[i] == vs[i]);
        lemma_extent_covers(vs.drop_last(), horiz, i);
    }
}

/// Appending one input to a concatenation adds its dimension along the
/// growing axis and takes the maximum along the other.
pub proof fn lemma_extent_push(s: Seq<VariantV>, v: VariantV, horiz: bool)
    ensures
        ({
            let e = concat_extent(s, horiz);
            let d = v.body.dim();
            concat_extent(s.push(v), horiz) == if horiz {
                (e.0 + d.0, max2(e.1, d.1))
            } else {
                (max2(e.0, d.0), e.1 + d.1)
            }
        }),
{
    assert(s.push(v).drop_last() =~= s);
    assert(s.push(v).last() == v);
}

/// The total advance of well-formed inputs is non-negative.
pub proof fn lemma_sum_adv_nonneg(vs: Seq<VariantV>, horiz: bool)
    requires
        all_wf(vs),
    ensures
        sum_adv(vs, horiz) >= 0,
    decreases vs.len(),
{
    if vs.len() == 0 {
    } else {
        assert(all_wf(vs.drop_first())) by {
            assert(forall|j: int|
                0 <= j < vs.drop_first().len() ==> vs.drop_first()[j] == vs[j + 1]);
        }
        lemma_sum_adv_nonneg(vs.drop_first(), horiz);
        lemma_dim_nonneg(vs[0]);
    }
}

/// Appending one input grows the total advance by that input's advance.
pub proof fn lemma_sum_adv_push(s: Seq<VariantV>, v: VariantV, horiz: bool)
    ensures
        sum_adv(s.push(v), horiz) == sum_adv(s, horiz) + grow_adv(v, horiz),
    decreases s.len(),
{
    assert(s.push(v).len() == s.len() + 1);
    assert(sum_adv(s.push(v), horiz) == grow_adv(s.push(v)[0], horiz) + sum_adv(
        s.push(v).drop_first(),
        horiz,
    ));
    if s.len() == 0 {
        assert(s.push(v)[0] == v);
        assert(s.push(v).drop_first() =~= Seq::<VariantV>::empty());
    } else {
        assert(s.push(v)[0] == s[0]);
        assert(s.push(v).drop_first() =~= s.drop_first().push(v));
        lemma_sum_adv_push(s.drop_first(), v, horiz);
    }
}

/// Past the total advance of the inputs, a horizontal concatenation holds
/// only the `#NA` prefill.
pub proof fn lemma_cell_h_beyond(vs: Seq<VariantV>, x: int, y: int)
    requires
        all_wf(vs),
        x >= sum_adv(vs, true),
    ensures
        concat_cell_h(vs, x, y) == CellV::Error(ERR_NA),
    decreases vs.len(),
{
    if vs.len() == 0 {
    } else {
        assert(all_wf(vs.drop_first())) by {
            assert(forall|j: int|
                0 <= j < vs.drop_first().len() ==> vs.drop_first()[j] == vs[j + 1]);
        }
        lemma_sum_adv_nonneg(vs.drop_first(), true);
        lemma_dim_nonneg(vs[0]);
        lemma_cell_h_beyond(vs.drop_first(), x - grow_adv(vs[0], true), y);
    }
}

/// Past the total advance of the inputs, a vertical concatenation holds
/// only the `#NA` prefill.
pub proof fn lemma_cell_v_beyond(vs: Seq<VariantV>, x: int, y: int)
    requires
        all_wf(vs),
        y >= sum_adv(vs, false),
    ensures
        concat_cell_v(vs, x, y) == CellV::Error(ERR_NA),
    decreases vs.len(),
{
    if vs.len() == 0 {
    } else {
        assert(all_wf(vs.drop_first())) by {
            assert(forall|j: int|
                0 <= j < vs.drop_first().len() ==> vs.drop_first()[j] == vs[j + 1]);
        }
        lemma_sum_adv_nonneg(vs.drop_first(), false);
        lemma_dim_nonneg(vs[0]);
        lemma_cell_v_beyond(vs.drop_first(), x, y - grow_adv(vs[0], false));
    }
}

/// Appending one input to a horizontal concatenation changes only the
/// columns of that input's own block, which starts at the previous total
/// advance.
pub proof fn lemma_cell_h_extend(s: Seq<VariantV>, v: VariantV, x: int, y: int)
    requires
        all_wf(s),
        x >= 0,
    ensures
        concat_cell_h(s.push(v), x, y) == if x < sum_adv(s, true) {
            concat_cell_h(s, x, y)
        } else {
            input_cell_h(v, x - sum_adv(s, true), y)
        },
    decreases s.len(),
{
    lemma_sum_adv_nonneg(s, true);
    assert(s.push(v).len() == s.len() + 1);
    assert(concat_cell_h(s.push(v), x, y) == ({
        let a = grow_adv(s.push(v)[0], true);
        if x < a {
            input_cell_h(s.push(v)[0], x, y)
        } else {
            concat_cell_h(s.push(v).drop_first(), x - a, y)
        }
    }));
    if s.len() == 0 {
        assert(s.push(v)[0] == v);
        assert(s.push(v).drop_first() =~= Seq::<VariantV>::empty());
        assert(concat_cell_h(Seq::<VariantV>::empty(), x - grow_adv(v, true), y) == CellV::Error(
            ERR_NA,
        ));
    } else {
        assert(all_wf(s.drop_first())) by {
            assert(forall|j: int|
                0 <= j < s.drop_first().len() ==> s.drop_first()[j] == s[j + 1]);
        }
        let a0 = grow_adv(s[0], true);
        lemma_dim_nonneg(s[0]);
        lemma_sum_adv_nonneg(s.drop_first(), true);
        assert(s.push(v)[0] == s[0]);
        if x < a0 {
        } else {
            assert(s.push(v).drop_first() =~= s.drop_first().push(v));
            lemma_cell_h_extend(s.drop_first(), v, x - a0, y);
        }
    }
}

/// Appending one input to a vertical concatenation changes only the rows of
/// that input's own block, which starts at the previous total advance.
pub proof fn lemma_cell_v_extend(s: Seq<VariantV>, v: VariantV, x: int, y: int)
    requires
        all_wf(s),
        y >= 0,
    ensures
        concat_cell_v(s.push(v), x, y) == if y < sum_adv(s, false) {
            concat_cell_v(s, x, y)
        } else {
            input_cell_v(v, x, y - sum_adv(s, false))
        },
    decreases s.len(),
{
    lemma_sum_adv_nonneg(s, false);
    assert(s.push(v).len() == s.len() + 1);
    assert(concat_cell_v(s.push(v), x, y) == ({
        let a = grow_adv(s.push(v)[0], false);
        if y < a {
            input_cell_v(s.push(v)[0], x, y)
        } else {
            concat_cell_v(s.push(v).drop_first(), x, y - a)
        }
    }));
    if s.len() == 0 {
        assert(s.push(v)[0] == v);
        assert(s.push(v).drop_first() =~= Seq::<VariantV>::empty());
        assert(concat_cell_v(Seq::<VariantV>::empty(), x, y - grow_adv(v, false)) == CellV::Error(
            ERR_NA,
        ));
    } else {
        assert(all_wf(s.drop_first())) by {
            assert(forall|j: int|
                0 <= j < s.drop_first().len() ==> s.drop_first()[j] == s[j + 1]);
        }
        let a0 = grow_adv(s[0], false);
        lemma_dim_nonneg(s[0]);
        lemma_sum_adv_nonneg(s.drop_first(), false);
        assert(s.push(v)[0] == s[0]);
        if y < a0 {
        } else {
            assert(s.push(v).drop_first() =~= s.drop_first().push(v));
            lemma_cell_v_extend(s.drop_first(), v, x, y - a0);
        }
    }
}

fn too_big_value() -> (r: Variant)
    ensures
        r@ == spec_from_text(too_big_text()),
        r@.wf(),
{
    Variant::from_text("#ERR resulting array is too big")
}

/// Decomposing an index of a row-major grid into its column and row.
proof fn lemma_row_major_decompose(k: int, columns: int, rows: int)
    requires
        0 < columns,
        0 < rows,
        0 <= k < rows * columns,
    ensures
        0 <= k % columns < columns,
        0 <= k / columns < rows,
        k == (k / columns) * columns + k % columns,
{
    assert(0 <= k % columns < columns && k == columns * (k / columns) + k % columns) by {
        vstd::arithmetic::div_mod::lemma_fundamental_div_mod(k, columns);
    }
    assert(0 <= k / columns) by (nonlinear_arith)
        requires
            0 <= k,
            0 < columns,
    ;
    assert(k / columns < rows) by (nonlinear_arith)
        requires
            0 < columns,
            0 < rows,
            k < rows * columns,
            k == columns * (k / columns) + k % columns,
            0 <= k % columns,
    ;
}

/// Composing a column and a row into a row-major index.
proof fn lemma_row_major_compose(x: int, y: int, columns: int)
    requires
        0 <= x < columns,
        0 <= y,
    ensures
        (y * columns + x) / columns == y,
        (y * columns + x) % columns == x,
{
    let k = y * columns + x;
    assert(k == columns * y + x) by (nonlinear_arith)
        requires
            k == y * columns + x,
    ;
    vstd::arithmetic::div_mod::lemma_fundamental_div_mod_converse(k, columns, y, x);
}

/// Law: transposing a transposed grid gives the original grid back,
/// cell for cell.
pub proof fn lemma_transpose_grid_involution(g: GridV)
    requires
        g.wf(),
    ensures
        spec_transpose_grid(spec_transpose_grid(g)) == g,
{
    let t = spec_transpose_grid(g);
    let u = spec_transpose_grid(t);
    let cols = g.columns as int;
    let rows = g.rows as int;
    assert(t.cells.len() == rows * cols);
    assert(u.cells.len() == cols * rows);
    assert(cols * rows == rows * cols) by (nonlinear_arith);
    assert forall|k: int| 0 <= k < g.cells.len() implies u.cells[k] == g.cells[k] by {
        lemma_row_major_decompose(k, cols, rows);
        let x = k % cols;
        let y = k / cols;
        // u.cells[k] is t's cell in column y and row x
        assert(u.cells[k] == t.cell(k / t.rows as int, k % t.rows as int));
        assert(t.rows as int == cols);
        assert(u.cells[k] == t.cell(y, x));
        // which is t.cells at row-major index x * rows + y
        let m = x * rows + y;
        assert(t.cell(y, x) == t.cells[m]);
        assert(0 <= m < rows * cols) by (nonlinear_arith)
            requires
                0 <= x < cols,
                0 <= y < rows,
                m == x * rows + y,
        ;
        // and that entry of t is g's cell in column x and row y
        lemma_row_major_compose(y, x, rows);
        assert(m / rows == x && m % rows == y);
        assert(t.cells[m] == g.cell(m / rows, m % rows));
        assert(g.cell(x, y) == g.cells[y * cols + x]);
        assert(u.cells[k] == g.cells[k]);
    }
    assert(u =~= g);
}

/// Law: for a well-formed grid within the host's limits in both
/// orientations, transposing twice gives a value cell-wise equal to the
/// original.
pub proof fn lemma_transpose_involution(v: VariantV)
    requires
        v.wf(),
        v.body matches BodyV::Grid(g) ==> g.rows <= crate::COL_LIMIT,
    ensures
        spec_transpose(spec_transpose(v)).body == v.body,
{
    match v.body {
        BodyV::Cell(_) => {
        },
        BodyV::Grid(g) => {
            lemma_transpose_grid_involution(g);
        },
    }
}

fn max_usize(a: usize, b: usize) -> (r: usize)
    ensures
        r as int == max2(a as int, b as int),
{
    if a >= b {
        a
    } else {
        b
    }
}

fn add_clamped(a: usize, b: usize, cap: usize) -> (r: usize)
    requires
        a <= cap,
    ensures
        r as int == min2(a as int + b as int, cap as int),
{
    if b >= cap - a {
        cap
    } else {
        a + b
    }
}

#[verifier::loop_isolation(false)]
fn concat_h(from: &[Variant]) -> (r: Variant)
    requires
        all_wf(views(from@)),
    ensures
        r@ == spec_concat(views(from@), true),
        r@.wf(),
{
    let ghost vs = views(from@);
    let n = from.len();
    proof {
        assert(vs.len() == n);
    }
    let mut columns: usize = 0;
    let mut rows: usize = 0;
    let mut i: usize = 0;
    while i < n
        invariant
            i <= n,
            columns as int == min2(
                concat_extent(vs.take(i as int), true).0,
                crate::COL_LIMIT as int + 1,
            ),
            rows as int == concat_extent(vs.take(i as int), true).1,
        decreases n - i,
    {
        proof {
            assert(vs[i as int] == from@[i as int]@);
            assert(vs[i as int].wf());
            assert(all_wf(vs.take(i as int))) by {
                assert(forall|j: int| 0 <= j < i ==> vs.take(i as int)[j] == vs[j]);
            }
            lemma_extent_nonneg(vs.take(i as int), true);
            lemma_dim_nonneg(vs[i as int]);
            assert(vs.take(i as int + 1) =~= vs.take(i as int).push(vs[i as int]));
            lemma_extent_push(vs.take(i as int), vs[i as int], true);
        }
        let d = from[i].dim();
        columns = add_clamped(columns, d.0, crate::COL_LIMIT + 1);
        rows = max_usize(rows, d.1);
        i = i + 1;
    }
    proof {
        assert(vs.take(n as int) =~= vs);
        lemma_extent_nonneg(vs, true);
    }
    let ghost e = concat_extent(vs, true);
    let ghost ccs = max2(e.0, 2);
    let ghost rcs = max2(e.1, 2);
    let cc = max_usize(columns, 2);
    let rc = max_usize(rows, 2);
    proof {
        assert(cc as int == min2(ccs, crate::COL_LIMIT as int + 1));
        assert(rc as int == rcs);
    }
    if rc > crate::ROW_LIMIT || cc > crate::COL_LIMIT {
        return too_big_value();
    }
    proof {
        assert(cc as int == ccs);
    }
    proof {
        assert((rc as int) * (cc as int) <= (crate::ROW_LIMIT as int) * (
        crate::COL_LIMIT as int)) by (nonlinear_arith)
            requires
                0 <= rc as int <= crate::ROW_LIMIT as int,
                0 <= cc as int <= crate::COL_LIMIT as int,
        ;
    }
    let size64: u64 = (rc as u64) * (cc as u64);
    if size64 > (usize::MAX as u64) {
        return too_big_value();
    }
    let size: usize = size64 as usize;
    proof {
        assert(size as int == rcs * ccs);
    }
    let mut cells: Vec<Cell> = Vec::new();
    let mut k: usize = 0;
    while k < size
        invariant
            k <= size,
            cells@.len() == k,
            forall|j: int| 0 <= j < k ==> (#[trigger] cells@[j])@ == CellV::Error(ERR_NA),
        decreases size - k,
    {
        cells.push(Cell::Error(ERR_NA));
        k = k + 1;
    }
    proof {
        assert forall|x2: int, y2: int| 0 <= x2 < cc && 0 <= y2 < rc implies (#[trigger] cells@[y2
            * (cc as int) + x2])@ == concat_cell_h(vs.take(0), x2, y2) by {
            crate::value::lemma_row_major_index_bound(x2, y2, cc as int, rc as int);
            assert(vs.take(0) =~= Seq::<VariantV>::empty());
        }
    }
    let mut col: usize = 0;
    let mut i: usize = 0;
    while i < n
        invariant
            i <= n,
            cells@.len() == size,
            col <= cc,
            col as int == min2(sum_adv(vs.take(i as int), true), cc as int),
            forall|x2: int, y2: int|
                0 <= x2 < cc && 0 <= y2 < rc ==> (#[trigger] cells@[y2 * (cc as int) + x2])@
                    == concat_cell_h(vs.take(i as int), x2, y2),
            forall|j: int| 0 <= j < size ==> (#[trigger] cells@[j])@.wf(),
        decreases n - i,
    {
        let ghost pre = vs.take(i as int);
        proof {
            assert(vs[i as int] == from@[i as int]@);
            assert(vs[i as int].wf());
            assert(all_wf(pre)) by {
                assert(forall|j: int| 0 <= j < i ==> pre[j] == vs[j]);
            }
            lemma_sum_adv_nonneg(pre, true);
            assert(vs.take(i as int + 1) =~= pre.push(vs[i as int]));
            lemma_sum_adv_push(pre, vs[i as int], true);
        }
        let ghost off = sum_adv(pre, true);
        match &from[i].body {
            Body::Grid(g) => {
                proof {
                    assert(vs[i as int].body == BodyV::Grid(g@));
                    assert(g@.wf());
                    lemma_extent_covers(vs, true, i as int);
                    assert(rc as int >= g@.rows);
                }
                let gcols = g.columns;
                let grows = g.rows;
                let glen = g.cells.len();
                let mut x: usize = 0;
                while x < gcols
                    invariant
                        x <= gcols,
                        cells@.len() == size,
                        forall|x2: int, y2: int|
                            0 <= x2 < cc && 0 <= y2 < rc ==> (#[trigger] cells@[y2 * (cc as int)
                                + x2])@ == (if col <= x2 < col + x && y2 < g@.rows {
                                g@.cell(x2 - col as int, y2)
                            } else {
                                concat_cell_h(pre, x2, y2)
                            }),
                        forall|j: int| 0 <= j < size ==> (#[trigger] cells@[j])@.wf(),
                    decreases gcols - x,
                {
                    let mut y: usize = 0;
                    while y < grows
                        invariant
                            y <= grows,
                            cells@.len() == size,
                            forall|x2: int, y2: int|
                                0 <= x2 < cc && 0 <= y2 < rc ==> (#[trigger] cells@[y2 * (
                                cc as int) + x2])@ == (if (col <= x2 < col + x && y2 < g@.rows) || (
                                x2 == col + x && y2 < y) {
                                    g@.cell(x2 - col as int, y2)
                                } else {
                                    concat_cell_h(pre, x2, y2)
                                }),
                            forall|j: int| 0 <= j < size ==> (#[trigger] cells@[j])@.wf(),
                        decreases grows - y,
                    {
                        let dc = col + x;
                        if dc < cc {
                            proof {
                                crate::value::lemma_row_major_index_bound(
                                    dc as int,
                                    y as int,
                                    cc as int,
                                    rc as int,
                                );
                                crate::value::lemma_row_major_index_bound(
                                    x as int,
                                    y as int,
                                    g@.columns as int,
                                    g@.rows as int,
                                );
                                assert(g@.cells[y as int * g@.columns as int + x as int].wf());
                            }
                            let dst = y * cc + dc;
                            let src = y * gcols + x;
                            cells.set(dst, g.cells[src].clone());
                            proof {
                                assert(g@.cell(x as int, y as int) == g@.cells[src as int]);
                            }
                        }
                        proof {
                            assert forall|x2: int, y2: int| 0 <= x2 < cc && 0 <= y2 < rc implies (
                            #[trigger] cells@[y2 * (cc as int) + x2])@ == (if (col <= x2 < col + x
                                && y2 < g@.rows) || (x2 == col + x && y2 < y + 1) {
                                g@.cell(x2 - col as int, y2)
                            } else {
                                concat_cell_h(pre, x2, y2)
                            }) by {
                                crate::value::lemma_row_major_index_bound(
                                    x2,
                                    y2,
                                    cc as int,
                                    rc as int,
                                );
                                lemma_row_major_compose(x2, y2, cc as int);
                                if dc < cc {
                                    lemma_row_major_compose(dc as int, y as int, cc as int);
                                }
                            }
                        }
                        y = y + 1;
                    }
                    x = x + 1;
                    proof {
                        assert forall|x2: int, y2: int| 0 <= x2 < cc && 0 <= y2 < rc implies (
                        #[trigger] cells@[y2 * (cc as int) + x2])@ == (if col <= x2 < col + x && y2
                            < g@.rows {
                            g@.cell(x2 - col as int, y2)
                        } else {
                            concat_cell_h(pre, x2, y2)
                        }) by {
                            crate::value::lemma_row_major_index_bound(x2, y2, cc as int, rc as int);
                        }
                    }
                }
                proof {
                    let post = vs.take(i as int + 1);
                    assert(grow_adv(vs[i as int], true) == g@.columns);
                    assert forall|x2: int, y2: int| 0 <= x2 < cc && 0 <= y2 < rc implies (
                    #[trigger] cells@[y2 * (cc as int) + x2])@ == concat_cell_h(post, x2, y2) by {
                        crate::value::lemma_row_major_index_bound(x2, y2, cc as int, rc as int);
                        lemma_cell_h_extend(pre, vs[i as int], x2, y2);
                        if x2 >= off {
                            if !(x2 - off < g@.columns && 0 <= y2 < g@.rows) {
                                lemma_cell_h_beyond(pre, x2, y2);
                            }
                        }
                    }
                }
                col = add_clamped(col, gcols, cc);
            },
            Body::Cell(c) => {
                match c {
                    Cell::Missing => {
                        proof {
                            assert(vs[i as int].body == BodyV::Cell(CellV::Missing));
                            assert(grow_adv(vs[i as int], true) == 0);
                            let post = vs.take(i as int + 1);
                            assert forall|x2: int, y2: int| 0 <= x2 < cc && 0 <= y2 < rc implies (
                            #[trigger] cells@[y2 * (cc as int) + x2])@ == concat_cell_h(
                                post,
                                x2,
                                y2,
                            ) by {
                                lemma_cell_h_extend(pre, vs[i as int], x2, y2);
                                if x2 >= off {
                                    lemma_cell_h_beyond(pre, x2, y2);
                                }
                            }
                        }
                    },
                    _ => {
                        proof {
                            assert(vs[i as int].body == BodyV::Cell(c@));
                            assert(c@ != CellV::Missing);
                            assert(grow_adv(vs[i as int], true) == 1);
                            assert(c@.wf());
                        }
                        if col < cc {
                            proof {
                                crate::value::lemma_row_major_index_bound(
                                    col as int,
                                    0,
                                    cc as int,
                                    rc as int,
                                );
                            }
                            cells.set(col, c.clone());
                        }
                        proof {
                            let post = vs.take(i as int + 1);
                            assert forall|x2: int, y2: int| 0 <= x2 < cc && 0 <= y2 < rc implies (
                            #[trigger] cells@[y2 * (cc as int) + x2])@ == concat_cell_h(
                                post,
                                x2,
                                y2,
                            ) by {
                                crate::value::lemma_row_major_index_bound(
                                    x2,
                                    y2,
                                    cc as int,
                                    rc as int,
                                );
                                lemma_row_major_compose(x2, y2, cc as int);
                                if col < cc {
                                    lemma_row_major_compose(col as int, 0, cc as int);
                                }
                                lemma_cell_h_extend(pre, vs[i as int], x2, y2);
                                if x2 >= off {
                                    if !(x2 == off && y2 == 0) {
                                        lemma_cell_h_beyond(pre, x2, y2);
                                    }
                                }
                            }
                        }
                        col = add_clamped(col, 1, cc);
                    },
                }
            },
        }
        i = i + 1;
    }
    proof {
        assert(vs.take(n as int) =~= vs);
    }
    let r = Variant {
        body: Body::Grid(Grid { columns: cc, rows: rc, cells }),
        owner: Ownership::OwnedByExtension,
    };
    proof {
        let sg = spec_concat(vs, true);
        assert(sg.body matches BodyV::Grid(_));
        assert forall|k2: int| 0 <= k2 < size implies r@.body->Grid_0.cells[k2]
            == sg.body->Grid_0.cells[k2] by {
            lemma_row_major_decompose(k2, cc as int, rc as int);
        }
        assert(r@.body->Grid_0.cells =~= sg.body->Grid_0.cells);
        assert(r@.body->Grid_0 =~= sg.body->Grid_0);
        assert(r@ =~= sg);
        assert(cells_wf(r@.body->Grid_0.cells));
        assert(r@.wf());
    }
    r
}

#[verifier::loop_isolation(false)]
fn concat_v(from: &[Variant]) -> (r: Variant)
    requires
        all_wf(views(from@)),
    ensures
        r@ == spec_concat(views(from@), false),
        r@.wf(),
{
    let ghost vs = views(from@);
    let n = from.len();
    proof {
        assert(vs.len() == n);
    }
    let mut columns: usize = 0;
    let mut rows: usize = 0;
    let mut i: usize = 0;
    while i < n
        invariant
            i <= n,
            columns as int == concat_extent(vs.take(i as int), false).0,
            rows as int == min2(
                concat_extent(vs.take(i as int), false).1,
                crate::ROW_LIMIT as int + 1,
            ),
        decreases n - i,
    {
        proof {
            assert(vs[i as int] == from@[i as int]@);
            assert(vs[i as int].wf());
            assert(all_wf(vs.take(i as int))) by {
                assert(forall|j: int| 0 <= j < i ==> vs.take(i as int)[j] == vs[j]);
            }
            lemma_extent_nonneg(vs.take(i as int), false);
            lemma_dim_nonneg(vs[i as int]);
            assert(vs.take(i as int + 1) =~= vs.take(i as int).push(vs[i as int]));
            lemma_extent_push(vs.take(i as int), vs[i as int], false);
        }
        let d = from[i].dim();
        columns = max_usize(columns, d.0);
        rows = add_clamped(rows, d.1, crate::ROW_LIMIT + 1);
        i = i + 1;
    }
    proof {
        assert(vs.take(n as int) =~= vs);
        lemma_extent_nonneg(vs, false);
    }
    let ghost e = concat_extent(vs, false);
    let ghost ccs = max2(e.0, 2);
    let ghost rcs = max2(e.1, 2);
    let cc = max_usize(columns, 2);
    let rc = max_usize(rows, 2);
    proof {
        assert(rc as int == min2(rcs, crate::ROW_LIMIT as int + 1));
        assert(cc as int == ccs);
    }
    if rc > crate::ROW_LIMIT || cc > crate::COL_LIMIT {
        return too_big_value();
    }
    proof {
        assert(rc as int == rcs);
    }
    proof {
        assert((rc as int) * (cc as int) <= (crate::ROW_LIMIT as int) * (
        crate::COL_LIMIT as int)) by (nonlinear_arith)
            requires
                0 <= rc as int <= crate::ROW_LIMIT as int,
                0 <= cc as int <= crate::COL_LIMIT as int,
        ;
    }
    let size64: u64 = (rc as u64) * (cc as u64);
    if size64 > (usize::MAX as u64) {
        return too_big_value();
    }
    let size: usize = size64 as usize;
    proof {
        assert(size as int == rcs * ccs);
    }
    let mut cells: Vec<Cell> = Vec::new();
    let mut k: usize = 0;
    while k < size
        invariant
            k <= size,
            cells@.len() == k,
            forall|j: int| 0 <= j < k ==> (#[trigger] cells@[j])@ == CellV::Error(ERR_NA),
        decreases size - k,
    {
        cells.push(Cell::Error(ERR_NA));
        k = k + 1;
    }
    proof {
        assert forall|x2: int, y2: int| 0 <= x2 < cc && 0 <= y2 < rc implies (#[trigger] cells@[y2
            * (cc as int) + x2])@ == concat_cell_v(vs.take(0), x2, y2) by {
            crate::value::lemma_row_major_index_bound(x2, y2, cc as int, rc as int);
            assert(vs.take(0) =~= Seq::<VariantV>::empty());
        }
    }
    let mut row: usize = 0;
    let mut i: usize = 0;
    while i < n
        invariant
            i <= n,
            cells@.len() == size,
            row <= rc,
            row as int == min2(sum_adv(vs.take(i as int), false), rc as int),
            forall|x2: int, y2: int|
                0 <= x2 < cc && 0 <= y2 < rc ==> (#[trigger] cells@[y2 * (cc as int) + x2])@
                    == concat_cell_v(vs.take(i as int), x2, y2),
            forall|j: int| 0 <= j < size ==> (#[trigger] cells@[j])@.wf(),
        decreases n - i,
    {
        let ghost pre = vs.take(i as int);
        proof {
            assert(vs[i as int] == from@[i as int]@);
            assert(vs[i as int].wf());
            assert(all_wf(pre)) by {
                assert(forall|j: int| 0 <= j < i ==> pre[j] == vs[j]);
            }
            lemma_sum_adv_nonneg(pre, false);
            assert(vs.take(i as int + 1) =~= pre.push(vs[i as int]));
            lemma_sum_adv_push(pre, vs[i as int], false);
        }
        let ghost off = sum_adv(pre, false);
        match &from[i].body {
            Body::Grid(g) => {
                proof {
                    assert(vs[i as int].body == BodyV::Grid(g@));
                    assert(g@.wf());
                    lemma_extent_covers(vs, false, i as int);
                    assert(cc as int >= g@.columns);
                }
                let gcols = g.columns;
                let grows = g.rows;
                let glen = g.cells.len();
                let mut y: usize = 0;
                while y < grows
                    invariant
                        y <= grows,
                        cells@.len() == size,
                        forall|x2: int, y2: int|
                            0 <= x2 < cc && 0 <= y2 < rc ==> (#[trigger] cells@[y2 * (cc as int)
                                + x2])@ == (if row <= y2 < row + y && x2 < g@.columns {
                                g@.cell(x2, y2 - row as int)
                            } else {
                                concat_cell_v(pre, x2, y2)
                            }),
                        forall|j: int| 0 <= j < size ==> (#[trigger] cells@[j])@.wf(),
                    decreases grows - y,
                {
                    let mut x: usize = 0;
                    while x < gcols
                        invariant
                            x <= gcols,
                            cells@.len() == size,
                            forall|x2: int, y2: int|
                                0 <= x2 < cc && 0 <= y2 < rc ==> (#[trigger] cells@[y2 * (
                                cc as int) + x2])@ == (if (row <= y2 < row + y && x2 < g@.columns)
                                    || (y2 == row + y && x2 < x) {
                                    g@.cell(x2, y2 - row as int)
                                } else {
                                    concat_cell_v(pre, x2, y2)
                                }),
                            forall|j: int| 0 <= j < size ==> (#[trigger] cells@[j])@.wf(),
                        decreases gcols - x,
                    {
                        let dr = row + y;
                        if dr < rc {
                            proof {
                                crate::value::lemma_row_major_index_bound(
                                    x as int,
                                    dr as int,
                                    cc as int,
                                    rc as int,
                                );
                                crate::value::lemma_row_major_index_bound(
                                    x as int,
                                    y as int,
                                    g@.columns as int,
                                    g@.rows as int,
                                );
                                assert(g@.cells[y as int * g@.columns as int + x as int].wf());
                            }
                            let dst = dr * cc + x;
                            let src = y * gcols + x;
                            cells.set(dst, g.cells[src].clone());
                            proof {
                                assert(g@.cell(x as int, y as int) == g@.cells[src as int]);
                            }
                        }
                        proof {
                            assert forall|x2: int, y2: int| 0 <= x2 < cc && 0 <= y2 < rc implies (
                            #[trigger] cells@[y2 * (cc as int) + x2])@ == (if (row <= y2 < row + y
                                && x2 < g@.columns) || (y2 == row + y && x2 < x + 1) {
                                g@.cell(x2, y2 - row as int)
                            } else {
                                concat_cell_v(pre, x2, y2)
                            }) by {
                                crate::value::lemma_row_major_index_bound(
                                    x2,
                                    y2,
                                    cc as int,
                                    rc as int,
                                );
                                lemma_row_major_compose(x2, y2, cc as int);
                                if dr < rc {
                                    lemma_row_major_compose(x as int, dr as int, cc as int);
                                }
                            }
                        }
                        x = x + 1;
                    }
                    y = y + 1;
                    proof {
                        assert forall|x2: int, y2: int| 0 <= x2 < cc && 0 <= y2 < rc implies (
                        #[trigger] cells@[y2 * (cc as int) + x2])@ == (if row <= y2 < row + y && x2
                            < g@.columns {
                            g@.cell(x2, y2 - row as int)
                        } else {
                            concat_cell_v(pre, x2, y2)
                        }) by {
                            crate::value::lemma_row_major_index_bound(x2, y2, cc as int, rc as int);
                        }
                    }
                }
                proof {
                    let post = vs.take(i as int + 1);
                    assert(grow_adv(vs[i as int], false) == g@.rows);
                    assert forall|x2: int, y2: int| 0 <= x2 < cc && 0 <= y2 < rc implies (
                    #[trigger] cells@[y2 * (cc as int) + x2])@ == concat_cell_v(post, x2, y2) by {
                        crate::value::lemma_row_major_index_bound(x2, y2, cc as int, rc as int);
                        lemma_cell_v_extend(pre, vs[i as int], x2, y2);
                        if y2 >= off {
                            if !(0 <= x2 < g@.columns && y2 - off < g@.rows) {
                                lemma_cell_v_beyond(pre, x2, y2);
                            }
                        }
                    }
                }
                row = add_clamped(row, grows, rc);
            },
            Body::Cell(c) => {
                match c {
                    Cell::Missing => {
                        proof {
                            assert(vs[i as int].body == BodyV::Cell(CellV::Missing));
                            assert(grow_adv(vs[i as int], false) == 0);
                            let post = vs.take(i as int + 1);
                            assert forall|x2: int, y2: int| 0 <= x2 < cc && 0 <= y2 < rc implies (
                            #[trigger] cells@[y2 * (cc as int) + x2])@ == concat_cell_v(
                                post,
                                x2,
                                y2,
                            ) by {
                                lemma_cell_v_extend(pre, vs[i as int], x2, y2);
                                if y2 >= off {
                                    lemma_cell_v_beyond(pre, x2, y2);
                                }
                            }
                        }
                    },
                    _ => {
                        proof {
                            assert(vs[i as int].body == BodyV::Cell(c@));
                            assert(c@ != CellV::Missing);
                            assert(grow_adv(vs[i as int], false) == 1);
                            assert(c@.wf());
                        }
                        if row < rc {
                            proof {
                                crate::value::lemma_row_major_index_bound(
                                    0,
                                    row as int,
                                    cc as int,
                                    rc as int,
                                );
                            }
                            let dst = row * cc;
                            cells.set(dst, c.clone());
                        }
                        proof {
                            let post = vs.take(i as int + 1);
                            assert forall|x2: int, y2: int| 0 <= x2 < cc && 0 <= y2 < rc implies (
                            #[trigger] cells@[y2 * (cc as int) + x2])@ == concat_cell_v(
                                post,
                                x2,
                                y2,
                            ) by {
                                crate::value::lemma_row_major_index_bound(
                                    x2,
                                    y2,
                                    cc as int,
                                    rc as int,
                                );
                                lemma_row_major_compose(x2, y2, cc as int);
                                if row < rc {
                                    lemma_row_major_compose(0, row as int, cc as int);
                                }
                                lemma_cell_v_extend(pre, vs[i as int], x2, y2);
                                if y2 >= off {
                                    if !(y2 == off && x2 == 0) {
                                        lemma_cell_v_beyond(pre, x2, y2);
                                    }
                                }
                            }
                        }
                        row = add_clamped(row, 1, rc);
                    },
                }
            },
        }
        i = i + 1;
    }
    proof {
        assert(vs.take(n as int) =~= vs);
    }
    let r = Variant {
        body: Body::Grid(Grid { columns: cc, rows: rc, cells }),
        owner: Ownership::OwnedByExtension,
    };
    proof {
        let sg = spec_concat(vs, false);
        assert(sg.body matches BodyV::Grid(_));
        assert forall|k2: int| 0 <= k2 < size implies r@.body->Grid_0.cells[k2]
            == sg.body->Grid_0.cells[k2] by {
            lemma_row_major_decompose(k2, cc as int, rc as int);
        }
        assert(r@.body->Grid_0.cells =~= sg.body->Grid_0.cells);
        assert(r@.body->Grid_0 =~= sg.body->Grid_0);
        assert(r@ =~= sg);
        assert(cells_wf(r@.body->Grid_0.cells));
        assert(r@.wf());
    }
    r
}

/// Law: a concatenation whose padded extent exceeds the host's limits
/// yields a text error value, never a grid.
pub proof fn lemma_concat_too_big(vs: Seq<VariantV>, horiz: bool)
    requires
        max2(concat_extent(vs, horiz).1, 2) > crate::ROW_LIMIT || max2(
            concat_extent(vs, horiz).0,
            2,
        ) > crate::COL_LIMIT,
    ensures
        spec_concat(vs, horiz).body matches BodyV::Cell(CellV::Text(_)),
{
    lemma_too_big_is_text();
}

impl Variant {
    /// Glue an ordered sequence of values into one grid, horizontally or
    /// vertically. Grids are flattened into the result block by block,
    /// missing values contribute nothing, and every other value takes one
    /// cell; unused cells keep the `#NA` prefill. A result beyond the
    /// host's limits is the "too big" text error instead.
    pub fn concat(from: &[Variant], horiz: bool) -> (r: Variant)
        requires
            all_wf(views(from@)),
        ensures
            r@ == spec_concat(views(from@), horiz),
            r@.wf(),
    {
        if horiz {
            concat_h(from)
        } else {
            concat_v(from)
        }
    }
}

impl Variant {
    /// A transposed clone of this value. A scalar (an error or a missing
    /// marker included) is simply cloned; a grid whose transpose would
    /// exceed the host's limits yields the "too big" text error.
    pub fn transpose(&self) -> (r: Variant)
        requires
            self@.wf(),
        ensures
            r@ == spec_transpose(self@),
            r@.wf(),
    {
        match &self.body {
            Body::Cell(c) => {
                proof {
                    assert(self@.body == BodyV::Cell(c@));
                }
                Variant { body: Body::Cell(c.clone()), owner: Ownership::OwnedByExtension }
            },
            Body::Grid(g) => {
                if g.columns > crate::ROW_LIMIT || g.rows > crate::COL_LIMIT {
                    too_big_value()
                } else {
                    let len = g.cells.len();
                    proof {
                        assert(g@.cells.len() == g.cells@.len());
                    }
                    let mut cells: Vec<Cell> = Vec::new();
                    let mut k: usize = 0;
                    while k < len
                        invariant
                            self@.wf(),
                            self@.body == BodyV::Grid(g@),
                            len == g.cells@.len(),
                            len == g@.rows * g@.columns,
                            0 < g.rows && 0 < g.columns,
                            g.rows == g@.rows && g.columns == g@.columns,
                            k <= len,
                            cells@.len() == k,
                            forall|j: int|
                                0 <= j < k ==> (#[trigger] cells@[j])@ == spec_transpose_grid(
                                    g@,
                                ).cells[j],
                        decreases len - k,
                    {
                        proof {
                            assert(g@.rows * g@.columns == g@.columns * g@.rows) by (nonlinear_arith);
                            lemma_row_major_decompose(k as int, g.rows as int, g.columns as int);
                        }
                        let x = k % g.rows;
                        let y = k / g.rows;
                        proof {
                            crate::value::lemma_row_major_index_bound(
                                y as int,
                                x as int,
                                g.columns as int,
                                g.rows as int,
                            );
                            assert(g@.rows * g@.columns == g@.columns * g@.rows) by (nonlinear_arith);
                        }
                        let idx = x * g.columns + y;
                        cells.push(g.cells[idx].clone());
                        proof {
                            assert(g@.cell(k as int / g@.rows as int, k as int % g@.rows as int)
                                == g@.cells[idx as int]);
                            assert(spec_transpose_grid(g@).cells[k as int] == g@.cells[idx as int]);
                        }
                        k = k + 1;
                    }
                    let r = Variant {
                        body: Body::Grid(Grid { columns: g.rows, rows: g.columns, cells }),
                        owner: Ownership::OwnedByExtension,
                    };
                    proof {
                        let tg = spec_transpose_grid(g@);
                        assert(tg.cells.len() == len);
                        assert(r@.body->Grid_0.cells =~= tg.cells);
                        assert(r@.body->Grid_0 =~= tg);
                        assert forall|j: int| 0 <= j < tg.cells.len() implies (
                        #[trigger] tg.cells[j]).wf() by {
                            assert(g@.rows * g@.columns == g@.columns * g@.rows) by (nonlinear_arith);
                            lemma_row_major_decompose(j, g@.rows as int, g@.columns as int);
                            crate::value::lemma_row_major_index_bound(
                                j / g@.rows as int,
                                j % g@.rows as int,
                                g@.columns as int,
                                g@.rows as int,
                            );
                            let m = (j % g@.rows as int) * g@.columns + j / g@.rows as int;
                            assert(tg.cells[j] == g@.cells[m]);
                            assert(g@.cells[m].wf());
                        }
                        assert(tg.rows * tg.columns == g@.rows * g@.columns) by (nonlinear_arith)
                            requires
                                tg.rows == g@.columns && tg.columns == g@.rows,
                        ;
                        assert(r@.body->Grid_0.wf());
                        assert(r@ == spec_transpose(self@));
                    }
                                        r
                }
            },
        }
    }
}

} // verus!
