//! The tagged-union value type: variants, ownership tags, views,
//! well-formedness, construction, addressing and the release protocol.

use vstd::prelude::*;

verus! {

/// Host error code: empty intersection of two ranges.
pub const ERR_NULL: u32 = 0;

/// Host error code: division by zero.
pub const ERR_DIV0: u32 = 7;

/// Host error code: wrong kind of value.
pub const ERR_VALUE: u32 = 15;

/// Host error code: invalid cell reference.
pub const ERR_REF: u32 = 23;

/// Host error code: unrecognised name.
pub const ERR_NAME: u32 = 29;

/// Host error code: invalid numeric value.
pub const ERR_NUM: u32 = 36;

/// Host error code: value not available.
pub const ERR_NA: u32 = 42;

/// Host error code: asynchronous data still pending.
pub const ERR_GETTING_DATA: u32 = 43;

/// Who must release a value's attached heap storage when the value dies.
#[derive(Clone, Copy, PartialEq, Eq, Structural, Debug)]
pub enum Ownership {
    /// The memory belongs to the host or to another caller; the value must
    /// never deallocate it.
    Borrowed,
    /// The storage was allocated by this module and is released by this
    /// module's own deallocation.
    OwnedByExtension,
    /// The storage was allocated by the host and handed off; it is released
    /// through the host's deallocation callback.
    OwnedByHost,
}

/// A contiguous rectangular cell range, in zero-based worksheet coordinates,
/// both ends inclusive.
#[derive(Clone, Copy, PartialEq, Eq, Structural, Debug)]
pub struct RectRef {
    pub row_first: i32,
    pub row_last: i32,
    pub col_first: i32,
    pub col_last: i32,
}

impl RectRef {
    /// A well-formed range has non-negative coordinates and each first
    /// coordinate at or before the matching last one.
    pub open spec fn wf(self) -> bool {
        &&& 0 <= self.row_first <= self.row_last
        &&& 0 <= self.col_first <= self.col_last
    }

    /// Number of columns the range spans.
    pub open spec fn spec_columns(self) -> int {
        self.col_last - self.col_first + 1
    }

    /// Number of rows the range spans.
    pub open spec fn spec_rows(self) -> int {
        self.row_last - self.row_first + 1
    }
}

/// The content of one cell: every variant a host cell can hold, except a
/// grid (grids hold cells and do not nest).
#[derive(Debug)]
pub enum Cell {
    /// An empty cell.
    Nil,
    /// An absent or defaulted argument.
    Missing,
    /// A floating-point number, stored as the bit pattern of an IEEE-754
    /// double so that the verified core never computes on floats.
    Num(u64),
    /// A 32-bit integer.
    Int(i32),
    /// A boolean.
    Bool(bool),
    /// A host error code, shown by the host as `#DIV0` and the like.
    Error(u32),
    /// Text as UTF-16 code units, at most [`crate::TEXT_LIMIT`] of them.
    Text(Vec<u16>),
    /// A single contiguous cell-range descriptor.
    SRef(RectRef),
    /// A multi-range descriptor; only a one-range descriptor has a usable
    /// dimension.
    MRef(Vec<RectRef>),
}

/// Mathematical model of a [`Cell`].
#[verifier::ext_equal]
pub enum CellV {
    Nil,
    Missing,
    Num(u64),
    Int(i32),
    Bool(bool),
    Error(u32),
    Text(Seq<u16>),
    SRef(RectRef),
    MRef(Seq<RectRef>),
}

impl View for Cell {
    type V = CellV;

    open spec fn view(&self) -> CellV {
        match self {
            Cell::Nil => CellV::Nil,
            Cell::Missing => CellV::Missing,
            Cell::Num(b) => CellV::Num(*b),
            Cell::Int(w) => CellV::Int(*w),
            Cell::Bool(b) => CellV::Bool(*b),
            Cell::Error(e) => CellV::Error(*e),
            Cell::Text(units) => CellV::Text(units@),
            Cell::SRef(r) => CellV::SRef(*r),
            Cell::MRef(rs) => CellV::MRef(rs@),
        }
    }
}

/// Every range in the sequence is well-formed.
pub open spec fn rects_wf(rs: Seq<RectRef>) -> bool {
    forall|i: int| 0 <= i < rs.len() ==> #[trigger] rs[i].wf()
}

/// Every cell in the sequence is well-formed.
pub open spec fn cells_wf(cells: Seq<CellV>) -> bool {
    forall|i: int| 0 <= i < cells.len() ==> (#[trigger] cells[i]).wf()
}

impl CellV {
    /// Texts respect the length limit and ranges are well-formed.
    pub open spec fn wf(self) -> bool {
        match self {
            CellV::Text(units) => units.len() <= crate::TEXT_LIMIT,
            CellV::SRef(r) => r.wf(),
            CellV::MRef(rs) => rects_wf(rs),
            _ => true,
        }
    }
}

/// A two-dimensional grid of cells in row-major order.
#[derive(Debug)]
pub struct Grid {
    pub columns: usize,
    pub rows: usize,
    pub cells: Vec<Cell>,
}

/// Mathematical model of a [`Grid`].
#[verifier::ext_equal]
pub struct GridV {
    pub columns: nat,
    pub rows: nat,
    pub cells: Seq<CellV>,
}

impl View for Grid {
    type V = GridV;

    open spec fn view(&self) -> GridV {
        GridV {
            columns: self.columns as nat,
            rows: self.rows as nat,
            cells: self.cells@.map_values(|c: Cell| c@),
        }
    }
}

impl GridV {
    /// Dimensions lie within the host's worksheet limits, the cell count
    /// matches the dimensions, and every cell is well-formed.
    pub open spec fn wf(self) -> bool {
        &&& 1 <= self.rows <= crate::ROW_LIMIT
        &&& 1 <= self.columns <= crate::COL_LIMIT
        &&& self.cells.len() == self.rows * self.columns
        &&& cells_wf(self.cells)
    }

    /// The cell in the given column and row.
    pub open spec fn cell(self, column: int, row: int) -> CellV {
        self.cells[row * self.columns + column]
    }
}

/// A value is either a single cell or a grid of cells.
#[derive(Debug)]
pub enum Body {
    Cell(Cell),
    Grid(Grid),
}

/// Mathematical model of a [`Body`].
#[verifier::ext_equal]
pub enum BodyV {
    Cell(CellV),
    Grid(GridV),
}

impl View for Body {
    type V = BodyV;

    open spec fn view(&self) -> BodyV {
        match self {
            Body::Cell(c) => BodyV::Cell(c@),
            Body::Grid(g) => BodyV::Grid(g@),
        }
    }
}

impl BodyV {
    pub open spec fn wf(self) -> bool {
        match self {
            BodyV::Cell(c) => c.wf(),
            BodyV::Grid(g) => g.wf(),
        }
    }

    /// Dimension as the host sees it: `(columns, rows)`. A grid reports its
    /// extent, a missing value is empty, a one-range reference reports its
    /// span, and every other scalar is a single cell.
    pub open spec fn dim(self) -> (int, int) {
        match self {
            BodyV::Grid(g) => (g.columns as int, g.rows as int),
            BodyV::Cell(CellV::Missing) => (0, 0),
            BodyV::Cell(CellV::SRef(r)) => (r.spec_columns(), r.spec_rows()),
            BodyV::Cell(CellV::MRef(rs)) => if rs.len() == 1 {
                (rs[0].spec_columns(), rs[0].spec_rows())
            } else {
                (0, 0)
            },
            BodyV::Cell(_) => (1, 1),
        }
    }

    /// Element addressing: a non-grid value acts as a one-by-one grid, and
    /// any out-of-bounds address yields the `#NA` error cell.
    pub open spec fn at(self, column: int, row: int) -> CellV {
        match self {
            BodyV::Grid(g) => if 0 <= column < g.columns && 0 <= row < g.rows {
                g.cell(column, row)
            } else {
                CellV::Error(ERR_NA)
            },
            BodyV::Cell(c) => if column == 0 && row == 0 {
                c
            } else {
                CellV::Error(ERR_NA)
            },
        }
    }
}

/// The tagged value the host and the extension exchange: a body plus the tag
/// saying who releases its storage.
#[derive(Debug)]
pub struct Variant {
    pub body: Body,
    pub owner: Ownership,
}

/// Mathematical model of a [`Variant`].
#[verifier::ext_equal]
pub struct VariantV {
    pub body: BodyV,
    pub owner: Ownership,
}

impl View for Variant {
    type V = VariantV;

    open spec fn view(&self) -> VariantV {
        VariantV { body: self.body@, owner: self.owner }
    }
}

impl VariantV {
    pub open spec fn wf(self) -> bool {
        self.body.wf()
    }

    /// The model of a freshly built extension-owned cell value.
    pub open spec fn of_cell(c: CellV) -> VariantV {
        VariantV { body: BodyV::Cell(c), owner: Ownership::OwnedByExtension }
    }
}

/// What the release protocol does when a value is destroyed.
#[derive(Clone, Copy, PartialEq, Eq, Structural, Debug)]
pub enum FreeAction {
    /// Nothing is deallocated.
    NoAction,
    /// The host's deallocation callback is invoked on the whole value.
    HostFree,
    /// The extension reclaims the length-prefixed text buffer.
    TextByExtension,
    /// The extension destroys every cell, then reclaims the cell array.
    CellsByExtension,
}

/// The action the release protocol takes for a value: a borrowed value is
/// never deallocated, a host-owned value goes back to the host, and an
/// extension-owned value is reclaimed here exactly when it carries storage.
pub open spec fn spec_free_action(v: VariantV) -> FreeAction {
    match v.owner {
        Ownership::Borrowed => FreeAction::NoAction,
        Ownership::OwnedByHost => FreeAction::HostFree,
        Ownership::OwnedByExtension => match v.body {
            BodyV::Cell(CellV::Text(_)) => FreeAction::TextByExtension,
            BodyV::Grid(_) => FreeAction::CellsByExtension,
            _ => FreeAction::NoAction,
        },
    }
}

/// The number variant keeps only doubles the host can display: a bit pattern
/// whose exponent field is all ones (a NaN or an infinity) becomes the `#NA`
/// error instead.
pub open spec fn spec_from_number(bits: u64) -> BodyV {
    if (bits >> 52) & 0x7ff == 0x7ff {
        BodyV::Cell(CellV::Error(ERR_NA))
    } else {
        BodyV::Cell(CellV::Num(bits))
    }
}

fn clone_u16_vec(v: &Vec<u16>) -> (r: Vec<u16>)
    ensures
        r@ == v@,
{
    let mut r: Vec<u16> = Vec::new();
    let mut i: usize = 0;
    while i < v.len()
        invariant
            i <= v.len(),
            r@ == v@.subrange(0, i as int),
        decreases v.len() - i,
    {
        r.push(v[i]);
        i = i + 1;
        proof {
            assert(r@ =~= v@.subrange(0, i as int));
        }
    }
    proof {
        assert(r@ =~= v@);
    }
    r
}

fn clone_rect_vec(v: &Vec<RectRef>) -> (r: Vec<RectRef>)
    ensures
        r@ == v@,
{
    let mut r: Vec<RectRef> = Vec::new();
    let mut i: usize = 0;
    while i < v.len()
        invariant
            i <= v.len(),
            r@ == v@.subrange(0, i as int),
        decreases v.len() - i,
    {
        r.push(v[i]);
        i = i + 1;
        proof {
            assert(r@ =~= v@.subrange(0, i as int));
        }
    }
    proof {
        assert(r@ =~= v@);
    }
    r
}

impl Clone for Cell {
    /// A cell clone copies the content deeply: the copy's model equals the
    /// original's and no buffer is shared.
    fn clone(&self) -> (r: Cell)
        ensures
            r@ == self@,
    {
        match self {
            Cell::Nil => Cell::Nil,
            Cell::Missing => Cell::Missing,
            Cell::Num(b) => Cell::Num(*b),
            Cell::Int(w) => Cell::Int(*w),
            Cell::Bool(b) => Cell::Bool(*b),
            Cell::Error(e) => Cell::Error(*e),
            Cell::Text(units) => Cell::Text(clone_u16_vec(units)),
            Cell::SRef(r) => Cell::SRef(*r),
            Cell::MRef(rs) => Cell::MRef(clone_rect_vec(rs)),
        }
    }
}

fn clone_cell_vec(v: &Vec<Cell>) -> (r: Vec<Cell>)
    ensures
        r@.map_values(|c: Cell| c@) == v@.map_values(|c: Cell| c@),
{
    let mut r: Vec<Cell> = Vec::new();
    let mut i: usize = 0;
    while i < v.len()
        invariant
            i <= v.len(),
            r@.len() == i,
            forall|j: int| 0 <= j < i ==> (#[trigger] r@[j])@ == v@[j]@,
        decreases v.len() - i,
    {
        r.push(v[i].clone());
        i = i + 1;
    }
    proof {
        assert(r@.map_values(|c: Cell| c@) =~= v@.map_values(|c: Cell| c@));
    }
    r
}

impl Clone for Grid {
    /// A grid clone copies every cell deeply; the copy's model equals the
    /// original's.
    fn clone(&self) -> (r: Grid)
        ensures
            r@ == self@,
    {
        let r = Grid {
            columns: self.columns,
            rows: self.rows,
            cells: clone_cell_vec(&self.cells),
        };
        proof {
            assert(r@ =~= self@);
        }
        r
    }
}

impl Variant {
    /// An absent or defaulted argument.
    pub fn missing() -> (r: Variant)
        ensures
            r@ == VariantV::of_cell(CellV::Missing),
    {
        Variant { body: Body::Cell(Cell::Missing), owner: Ownership::OwnedByExtension }
    }

    /// An empty cell.
    pub fn nil() -> (r: Variant)
        ensures
            r@ == VariantV::of_cell(CellV::Nil),
    {
        Variant { body: Body::Cell(Cell::Nil), owner: Ownership::OwnedByExtension }
    }

    /// A host error value such as `#DIV0`; the supported codes are the
    /// `ERR_*` constants of this module.
    pub fn from_err(xlerr: u32) -> (r: Variant)
        ensures
            r@ == VariantV::of_cell(CellV::Error(xlerr)),
    {
        Variant { body: Body::Cell(Cell::Error(xlerr)), owner: Ownership::OwnedByExtension }
    }

    /// A 32-bit integer value.
    pub fn from_int(w: i32) -> (r: Variant)
        ensures
            r@ == VariantV::of_cell(CellV::Int(w)),
    {
        Variant { body: Body::Cell(Cell::Int(w)), owner: Ownership::OwnedByExtension }
    }

    /// A boolean value.
    pub fn from_bool(b: bool) -> (r: Variant)
        ensures
            r@ == VariantV::of_cell(CellV::Bool(b)),
    {
        Variant { body: Body::Cell(Cell::Bool(b)), owner: Ownership::OwnedByExtension }
    }

    /// A number value, given as the bit pattern of an IEEE-754 double. A NaN
    /// or infinite input is mapped to the `#NA` error so that every stored
    /// number is host-displayable.
    pub fn from_number_bits(bits: u64) -> (r: Variant)
        ensures
            r@.body == spec_from_number(bits),
            r@.owner == Ownership::OwnedByExtension,
    {
        if (bits >> 52) & 0x7ff == 0x7ff {
            Self::from_err(ERR_NA)
        } else {
            Variant { body: Body::Cell(Cell::Num(bits)), owner: Ownership::OwnedByExtension }
        }
    }

    /// A single contiguous cell-range descriptor.
    pub fn from_sref(r0: RectRef) -> (r: Variant)
        ensures
            r@ == VariantV::of_cell(CellV::SRef(r0)),
    {
        Variant { body: Body::Cell(Cell::SRef(r0)), owner: Ownership::OwnedByExtension }
    }

    /// Whether this value is the missing marker or the empty cell.
    pub fn is_missing_or_null(&self) -> (r: bool)
        ensures
            r == (self@.body == BodyV::Cell(CellV::Missing) || self@.body == BodyV::Cell(
                CellV::Nil,
            )),
    {
        match &self.body {
            Body::Cell(Cell::Missing) => true,
            Body::Cell(Cell::Nil) => true,
            _ => false,
        }
    }

    /// Whether this value is a cell-range descriptor.
    pub fn is_ref(&self) -> (r: bool)
        ensures
            r == (self@.body matches BodyV::Cell(c) && (c matches CellV::SRef(_) || c matches
                CellV::MRef(_))),
    {
        match &self.body {
            Body::Cell(Cell::SRef(_)) => true,
            Body::Cell(Cell::MRef(_)) => true,
            _ => false,
        }
    }

    /// The count of columns and rows. Scalars are one-by-one, a missing
    /// value is zero-by-zero, and a reference reports its range span.
    pub fn dim(&self) -> (r: (usize, usize))
        requires
            self@.wf(),
        ensures
            r.0 == self@.body.dim().0,
            r.1 == self@.body.dim().1,
    {
        match &self.body {
            Body::Grid(g) => (g.columns, g.rows),
            Body::Cell(Cell::Missing) => (0, 0),
            Body::Cell(Cell::SRef(r0)) => rect_dim(r0),
            Body::Cell(Cell::MRef(rs)) => {
                if rs.len() == 1 {
                    proof {
                        assert(self@.body == BodyV::Cell(CellV::MRef(rs@)));
                        assert(rs@[0].wf());
                    }
                    rect_dim(&rs[0])
                } else {
                    (0, 0)
                }
            },
            Body::Cell(_) => (1, 1),
        }
    }

    /// The element at the given column and row, always returned as a fresh
    /// extension-owned clone; out-of-bounds addresses yield the `#NA` error.
    pub fn at(&self, column: usize, row: usize) -> (r: Variant)
        requires
            self@.wf(),
        ensures
            r@ == VariantV::of_cell(self@.body.at(column as int, row as int)),
            r@.wf(),
    {
        match &self.body {
            Body::Grid(g) => {
                if column < g.columns && row < g.rows {
                    let n = g.cells.len();
                    proof {
                        lemma_row_major_index_bound(
                            column as int,
                            row as int,
                            g.columns as int,
                            g.rows as int,
                        );
                        assert(n == g@.cells.len());
                    }
                    let idx = row * g.columns + column;
                    Variant {
                        body: Body::Cell(g.cells[idx].clone()),
                        owner: Ownership::OwnedByExtension,
                    }
                } else {
                    Self::from_err(ERR_NA)
                }
            },
            Body::Cell(c) => {
                if column == 0 && row == 0 {
                    Variant { body: Body::Cell(c.clone()), owner: Ownership::OwnedByExtension }
                } else {
                    Self::from_err(ERR_NA)
                }
            },
        }
    }

    /// Replace the cell at the given column and row of a grid with the
    /// content of a non-grid value (its ownership tag is discarded on
    /// insertion, as grid cells are always extension-owned). Returns whether
    /// a cell was replaced; anything else leaves the value unchanged.
    pub fn set_at(&mut self, column: usize, row: usize, value: &Variant) -> (ok: bool)
        requires
            old(self)@.wf(),
            value@.wf(),
        ensures
            final(self)@.wf(),
            final(self)@.owner == old(self)@.owner,
            ok == (old(self)@.body matches BodyV::Grid(g) && column < g.columns && row < g.rows
                && value@.body is Cell),
            ok ==> (match (old(self)@.body, value@.body) {
                (BodyV::Grid(g), BodyV::Cell(c)) => final(self)@.body == BodyV::Grid(
                    GridV {
                        columns: g.columns,
                        rows: g.rows,
                        cells: g.cells.update(row * g.columns + column, c),
                    },
                ),
                _ => false,
            }),
            !ok ==> final(self)@ == old(self)@,
    {
        match (&mut self.body, &value.body) {
            (Body::Grid(g), Body::Cell(c)) => {
                if column < g.columns && row < g.rows {
                    let n = g.cells.len();
                    proof {
                        lemma_row_major_index_bound(
                            column as int,
                            row as int,
                            g.columns as int,
                            g.rows as int,
                        );
                        assert(n == g@.cells.len());
                    }
                    let idx = row * g.columns + column;
                    g.cells.set(idx, c.clone());
                    proof {
                        assert(self@.body matches BodyV::Grid(gv) && gv.cells
                            =~= old(self)@.body->Grid_0.cells.update(idx as int, c@));
                    }
                    true
                } else {
                    false
                }
            },
            _ => false,
        }
    }

    /// Clear the ownership tag: the resulting value is a borrowed view whose
    /// destruction releases nothing. This models decoding a host-supplied
    /// value, whose storage stays with the host.
    pub fn into_borrowed(self) -> (r: Variant)
        ensures
            r@.body == self@.body,
            r@.owner == Ownership::Borrowed,
    {
        Variant { body: self.body, owner: Ownership::Borrowed }
    }

    /// The action the release protocol takes when this value is destroyed.
    pub fn free_action(&self) -> (r: FreeAction)
        ensures
            r == spec_free_action(self@),
    {
        match self.owner {
            Ownership::Borrowed => FreeAction::NoAction,
            Ownership::OwnedByHost => FreeAction::HostFree,
            Ownership::OwnedByExtension => match &self.body {
                Body::Cell(Cell::Text(_)) => FreeAction::TextByExtension,
                Body::Grid(_) => FreeAction::CellsByExtension,
                _ => FreeAction::NoAction,
            },
        }
    }
}

/// Law: a missing value has dimension zero by zero.
pub proof fn lemma_dim_missing(v: VariantV)
    requires
        v.body == BodyV::Cell(CellV::Missing),
    ensures
        v.body.dim() == (0int, 0int),
{
}

/// Law: every non-grid, non-missing, non-reference value has dimension one
/// by one (a reference instead reports its range span).
pub proof fn lemma_dim_scalar(v: VariantV)
    requires
        v.body matches BodyV::Cell(c),
        !(v.body matches BodyV::Cell(CellV::Missing)),
        !(v.body matches BodyV::Cell(CellV::SRef(_))),
        !(v.body matches BodyV::Cell(CellV::MRef(_))),
    ensures
        v.body.dim() == (1int, 1int),
{
}

/// Law: replacing one cell of a grid touches exactly that cell; every
/// other cell keeps its value. With `clone` handing out fresh storage,
/// this is why replacing a cell in a clone leaves the source grid intact.
pub proof fn lemma_replacement_is_local(g: GridV, column: int, row: int, c: CellV)
    requires
        g.wf(),
        0 <= column < g.columns,
        0 <= row < g.rows,
    ensures
        ({
            let u = GridV {
                columns: g.columns,
                rows: g.rows,
                cells: g.cells.update(row * g.columns + column, c),
            };
            &&& u.cell(column, row) == c
            &&& forall|x: int, y: int|
                0 <= x < g.columns && 0 <= y < g.rows && !(x == column && y == row)
                    ==> #[trigger] u.cell(x, y) == g.cell(x, y)
        }),
{
    lemma_row_major_index_bound(column, row, g.columns as int, g.rows as int);
    let k0 = row * g.columns + column;
    assert forall|x: int, y: int|
        0 <= x < g.columns && 0 <= y < g.rows && !(x == column && y == row) implies #[trigger] (
    GridV {
        columns: g.columns,
        rows: g.rows,
        cells: g.cells.update(k0, c),
    }).cell(x, y) == g.cell(x, y) by {
        lemma_row_major_index_bound(x, y, g.columns as int, g.rows as int);
        let k = y * g.columns + x;
        if y == row {
            assert(k != k0);
        } else {
            assert(k != k0) by (nonlinear_arith)
                requires
                    k == y * g.columns + x,
                    k0 == row * g.columns + column,
                    0 <= x < g.columns,
                    0 <= column < g.columns,
                    y != row,
                    g.columns > 0,
            ;
        }
    }
}

/// Law: addressing a grid in bounds yields exactly the stored cell.
pub proof fn lemma_at_in_bounds(g: GridV, column: int, row: int)
    requires
        0 <= column < g.columns,
        0 <= row < g.rows,
    ensures
        BodyV::Grid(g).at(column, row) == g.cell(column, row),
{
}

/// Law: addressing a grid outside its extent yields the `#NA` error cell.
pub proof fn lemma_at_out_of_bounds(g: GridV, column: int, row: int)
    requires
        column >= g.columns || row >= g.rows,
    ensures
        BodyV::Grid(g).at(column, row) == CellV::Error(ERR_NA),
{
}

/// Destroying a borrowed value performs no deallocation, whatever it holds.
pub proof fn lemma_borrowed_free_is_noop(v: VariantV)
    requires
        v.owner == Ownership::Borrowed,
    ensures
        spec_free_action(v) == FreeAction::NoAction,
{
}

impl Default for Variant {
    /// The default value is the empty cell, a sensible starting state for an
    /// uninitialised variant.
    fn default() -> (r: Variant)
        ensures
            r@ == VariantV::of_cell(CellV::Nil),
    {
        Variant::nil()
    }
}

impl Clone for Variant {
    /// Cloning always yields a fresh extension-owned value with equal
    /// content; text and grid storage is copied deeply, never aliased.
    fn clone(&self) -> (r: Variant)
        ensures
            r@.body == self@.body,
            r@.owner == Ownership::OwnedByExtension,
    {
        match &self.body {
            Body::Cell(c) => Variant {
                body: Body::Cell(c.clone()),
                owner: Ownership::OwnedByExtension,
            },
            Body::Grid(g) => Variant {
                body: Body::Grid(g.clone()),
                owner: Ownership::OwnedByExtension,
            },
        }
    }
}

fn rect_dim(r: &RectRef) -> (d: (usize, usize))
    requires
        r.wf(),
    ensures
        d.0 == r.spec_columns(),
        d.1 == r.spec_rows(),
{
    (((r.col_last - r.col_first) as usize) + 1, ((r.row_last - r.row_first) as usize) + 1)
}

/// In a row-major grid, the index of an in-bounds cell is in bounds.
pub proof fn lemma_row_major_index_bound(column: int, row: int, columns: int, rows: int)
    requires
        0 <= column < columns,
        0 <= row < rows,
    ensures
        0 <= row * columns + column < rows * columns,
{
    assert(row * columns + column < rows * columns) by (nonlinear_arith)
        requires
            0 <= column < columns,
            0 <= row < rows,
    ;
    assert(0 <= row * columns) by (nonlinear_arith)
        requires
            0 <= row,
            0 <= columns,
    ;
}

} // verus!
