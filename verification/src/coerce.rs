//! Coercions between values and native scalars: strict conversions that
//! fail on a variant mismatch, and lenient bulk conversions that substitute
//! a sentinel instead.

use crate::render::{spec_display, spec_render_num};
use crate::text::utf16_decode_lossy;
use crate::value::{Body, BodyV, Cell, CellV, Variant};
use vstd::arithmetic::div_mod::{lemma_div_denominator, lemma_fundamental_div_mod};
use vstd::arithmetic::power2::{
    lemma2_to64, lemma2_to64_rest, lemma_pow2_adds, lemma_pow2_pos, lemma_pow2_strictly_increases,
    pow2,
};
use vstd::bits::{lemma_u64_shl_is_mul, low_bits_mask};
use vstd::prelude::*;
use vstd::string::StringExecFns;

verus! {

/// Bit pattern of the quiet NaN used as the lenient numeric fallback.
pub const NAN_BITS: u64 = 0x7ff8000000000000;

/// Bit pattern of the double 1.0.
pub const ONE_BITS: u64 = 0x3ff0000000000000;

/// A failed strict conversion, carrying the display string of the value
/// that did not convert (or, for a missing argument, the function and
/// parameter names).
#[derive(Debug)]
pub enum XLAddError {
    F64ConversionFailed(String),
    BoolConversionFailed(String),
    IntConversionFailed(String),
    StringConversionFailed(String),
    MissingArgument(String, String),
}

/// Mathematical model of an [`XLAddError`].
#[verifier::ext_equal]
pub enum XLAddErrorV {
    F64ConversionFailed(Seq<char>),
    BoolConversionFailed(Seq<char>),
    IntConversionFailed(Seq<char>),
    StringConversionFailed(Seq<char>),
    MissingArgument(Seq<char>, Seq<char>),
}

impl View for XLAddError {
    type V = XLAddErrorV;

    open spec fn view(&self) -> XLAddErrorV {
        match self {
            XLAddError::F64ConversionFailed(v) => XLAddErrorV::F64ConversionFailed(v@),
            XLAddError::BoolConversionFailed(v) => XLAddErrorV::BoolConversionFailed(v@),
            XLAddError::IntConversionFailed(v) => XLAddErrorV::IntConversionFailed(v@),
            XLAddError::StringConversionFailed(v) => XLAddErrorV::StringConversionFailed(v@),
            XLAddError::MissingArgument(f, v) => XLAddErrorV::MissingArgument(f@, v@),
        }
    }
}

impl XLAddErrorV {
    /// The description of the failure, naming the conversion that failed
    /// and showing the offending value.
    pub open spec fn spec_message(self) -> Seq<char> {
        match self {
            XLAddErrorV::F64ConversionFailed(v) => "Could not convert parameter ["@ + v
                + "] to f64"@,
            XLAddErrorV::BoolConversionFailed(v) => "Could not convert parameter ["@ + v
                + "] to bool"@,
            XLAddErrorV::IntConversionFailed(v) => "Could not convert parameter ["@ + v
                + "] to integer"@,
            XLAddErrorV::StringConversionFailed(v) => "Could not convert parameter ["@ + v
                + "] to string"@,
            XLAddErrorV::MissingArgument(f, v) => "Function ["@ + f + "] is missing parameter "@
                + v,
        }
    }
}

impl XLAddError {
    /// The human-readable description of this failure.
    pub fn message(&self) -> (r: String)
        ensures
            r@ == self@.spec_message(),
    {
        match self {
            XLAddError::F64ConversionFailed(v) => {
                let mut s = String::from_str("Could not convert parameter [");
                s.append(v.as_str());
                s.append("] to f64");
                s
            },
            XLAddError::BoolConversionFailed(v) => {
                let mut s = String::from_str("Could not convert parameter [");
                s.append(v.as_str());
                s.append("] to bool");
                s
            },
            XLAddError::IntConversionFailed(v) => {
                let mut s = String::from_str("Could not convert parameter [");
                s.append(v.as_str());
                s.append("] to integer");
                s
            },
            XLAddError::StringConversionFailed(v) => {
                let mut s = String::from_str("Could not convert parameter [");
                s.append(v.as_str());
                s.append("] to string");
                s
            },
            XLAddError::MissingArgument(f, v) => {
                let mut s = String::from_str("Function [");
                s.append(f.as_str());
                s.append("] is missing parameter ");
                s.append(v.as_str());
                s
            },
        }
    }
}

/// The number a value holds, for number values only.
pub open spec fn spec_as_number(b: BodyV) -> Option<u64> {
    match b {
        BodyV::Cell(CellV::Num(bits)) => Some(bits),
        _ => None,
    }
}

/// Law: every finite double is stored by `from_number` and read back by
/// `as_number` unchanged.
pub proof fn lemma_number_round_trip(bits: u64)
    requires
        (bits >> 52) & 0x7ff != 0x7ff,
    ensures
        spec_as_number(crate::value::spec_from_number(bits)) == Some(bits),
{
}

impl Variant {
    /// Strict conversion to a number's bits: succeeds exactly on a number
    /// value; anything else fails, carrying the offending value's display
    /// string.
    pub fn as_number_bits(&self) -> (r: Result<u64, XLAddError>)
        ensures
            match self@.body {
                BodyV::Cell(CellV::Num(bits)) => r == Ok::<u64, XLAddError>(bits),
                _ => r matches Err(e2) && e2@ == XLAddErrorV::F64ConversionFailed(
                    spec_display(self@.body),
                ),
            },
    {
        match &self.body {
            Body::Cell(Cell::Num(bits)) => Ok(*bits),
            _ => Err(XLAddError::F64ConversionFailed(self.display_string())),
        }
    }

    /// Strict conversion to an integer: succeeds exactly on an integer
    /// value.
    pub fn as_integer(&self) -> (r: Result<i32, XLAddError>)
        ensures
            match self@.body {
                BodyV::Cell(CellV::Int(w)) => r == Ok::<i32, XLAddError>(w),
                _ => r matches Err(e2) && e2@ == XLAddErrorV::IntConversionFailed(
                    spec_display(self@.body),
                ),
            },
    {
        match &self.body {
            Body::Cell(Cell::Int(w)) => Ok(*w),
            _ => Err(XLAddError::IntConversionFailed(self.display_string())),
        }
    }

    /// Strict conversion to a boolean: succeeds exactly on a boolean value.
    pub fn as_boolean(&self) -> (r: Result<bool, XLAddError>)
        ensures
            match self@.body {
                BodyV::Cell(CellV::Bool(b)) => r == Ok::<bool, XLAddError>(b),
                _ => r matches Err(e2) && e2@ == XLAddErrorV::BoolConversionFailed(
                    spec_display(self@.body),
                ),
            },
    {
        match &self.body {
            Body::Cell(Cell::Bool(b)) => Ok(*b),
            _ => Err(XLAddError::BoolConversionFailed(self.display_string())),
        }
    }

    /// Strict conversion to a string: succeeds exactly on a text value,
    /// decoding its UTF-16 contents.
    pub fn as_text(&self) -> (r: Result<String, XLAddError>)
        ensures
            match self@.body {
                BodyV::Cell(CellV::Text(units)) => r matches Ok(t) && t@ == utf16_decode_lossy(
                    units,
                ),
                _ => r matches Err(e2) && e2@ == XLAddErrorV::StringConversionFailed(
                    spec_display(self@.body),
                ),
            },
    {
        match &self.body {
            Body::Cell(Cell::Text(units)) => Ok(crate::text::decode_utf16_string(units)),
            _ => Err(XLAddError::StringConversionFailed(self.display_string())),
        }
    }
}

/// The floor of the base-two logarithm.
pub open spec fn spec_log2(n: nat) -> nat
    decreases n,
{
    if n <= 1 {
        0
    } else {
        (1 + spec_log2(n / 2)) as nat
    }
}

/// The IEEE-754 double bits of a 32-bit integer: sign, biased exponent at
/// the integer's highest set bit, and the integer shifted into the 52-bit
/// fraction field. Exact, since every 32-bit integer fits the 53-bit
/// significand.
pub open spec fn spec_double_bits_of_int(w: int) -> u64 {
    if w == 0 {
        0
    } else {
        let a = (if w < 0 {
            -w
        } else {
            w
        }) as nat;
        let k = spec_log2(a);
        let sgn: int = if w < 0 {
            0x8000000000000000
        } else {
            0
        };
        ((sgn + (1023 + k) * 0x10000000000000 + (a * pow2((52 - k) as nat)
            - 0x10000000000000)) as u64)
    }
}

proof fn lemma_pow2_le_u32_bound(k: nat, a: nat)
    requires
        pow2(k) <= a,
        a < 0x100000000,
    ensures
        k <= 31,
{
    if k > 31 {
        lemma2_to64();
        if k > 32 {
            lemma_pow2_strictly_increases(32, k);
        }
    }
}

/// Convert a 32-bit integer to the bits of the IEEE-754 double with the
/// same value.
pub fn double_bits_of_int(w: i32) -> (r: u64)
    ensures
        r == spec_double_bits_of_int(w as int),
{
    if w == 0 {
        return 0;
    }
    let neg = w < 0;
    let a: u64 = if neg {
        (-(w as i64)) as u64
    } else {
        w as u64
    };
    proof {
        lemma2_to64();
        assert(1 <= a < 0x100000000);
    }
    let mut k: u64 = 0;
    let mut t: u64 = a;
    while t > 1
        invariant
            1 <= a < 0x100000000,
            1 <= t,
            t as nat == a as nat / pow2(k as nat),
            pow2(k as nat) <= a as nat,
            spec_log2(a as nat) == k + spec_log2(t as nat),
            k <= 31,
        decreases t,
    {
        proof {
            lemma_pow2_pos(k as nat);
            lemma_pow2_adds(k as nat, 1);
            lemma2_to64();
            lemma_div_denominator(a as int, pow2(k as nat) as int, 2);
            // t >= 2, so a >= pow2(k) * 2 == pow2(k + 1)
            lemma_fundamental_div_mod(a as int, pow2(k as nat) as int);
            assert(a as int >= pow2(k as nat) * 2) by (nonlinear_arith)
                requires
                    a as int == pow2(k as nat) * (a as int / pow2(k as nat) as int) + a as int
                        % pow2(k as nat) as int,
                    a as int % pow2(k as nat) as int >= 0,
                    a as int / pow2(k as nat) as int >= 2,
                    pow2(k as nat) > 0,
            ;
            lemma_pow2_le_u32_bound((k + 1) as nat, a as nat);
        }
        t = t / 2;
        k = k + 1;
    }
    proof {
        // t == 1: pow2(k) <= a < pow2(k + 1) and k is the log
        lemma_pow2_pos(k as nat);
        lemma_fundamental_div_mod(a as int, pow2(k as nat) as int);
        assert((a as nat) < pow2((k + 1) as nat)) by {
            lemma_pow2_adds(k as nat, 1);
            lemma2_to64();
            assert((a as int) < pow2(k as nat) * 2) by (nonlinear_arith)
                requires
                    a as int == pow2(k as nat) * (a as int / pow2(k as nat) as int) + a as int
                        % pow2(k as nat) as int,
                    (a as int % pow2(k as nat) as int) < pow2(k as nat),
                    a as int / pow2(k as nat) as int == 1,
            ;
        }
        assert(spec_log2(a as nat) == k as nat);
    }
    let sh: u64 = 52 - k;
    proof {
        lemma_pow2_adds((k + 1) as nat, sh as nat);
        lemma_pow2_adds(k as nat, sh as nat);
        lemma2_to64();
        lemma2_to64_rest();
        lemma_pow2_pos(sh as nat);
        assert(a * pow2(sh as nat) < pow2(53)) by (nonlinear_arith)
            requires
                (a as nat) < pow2((k + 1) as nat),
                pow2((k + 1) as nat) * pow2(sh as nat) == pow2(53),
                pow2(sh as nat) > 0,
        ;
        assert(a * pow2(sh as nat) >= pow2(52)) by (nonlinear_arith)
            requires
                a as nat >= pow2(k as nat),
                pow2(k as nat) * pow2(sh as nat) == pow2(52),
                pow2(sh as nat) > 0,
        ;
        lemma_u64_shl_is_mul(a, sh);
    }
    let m: u64 = a << sh;
    let frac: u64 = m - 0x10000000000000;
    let eb: u64 = 1023 + k;
    let sgn: u64 = if neg {
        0x8000000000000000
    } else {
        0
    };
    let r = sgn + eb * 0x10000000000000 + frac;
    proof {
        assert(r == spec_double_bits_of_int(w as int));
    }
    r
}

/// For a positive number, the floor base-two logarithm brackets it
/// between consecutive powers of two.
proof fn lemma_log2_spread(a: nat)
    requires
        a >= 1,
    ensures
        pow2(spec_log2(a)) <= a,
        a < pow2(spec_log2(a) + 1),
    decreases a,
{
    if a <= 1 {
        lemma2_to64();
    } else {
        lemma_log2_spread(a / 2);
        let k = spec_log2(a / 2);
        assert(spec_log2(a) == k + 1);
        lemma_pow2_adds(k, 1);
        lemma_pow2_adds(k + 1, 1);
        lemma2_to64();
        lemma_fundamental_div_mod(a as int, 2);
        assert(a >= 2 * pow2(k)) by (nonlinear_arith)
            requires
                a as int == 2 * (a as int / 2) + a as int % 2,
                a as int % 2 >= 0,
                a as int / 2 >= pow2(k),
        ;
        assert((a as int) < 2 * pow2(k + 1)) by (nonlinear_arith)
            requires
                a as int == 2 * (a as int / 2) + a as int % 2,
                a as int % 2 <= 1,
                (a as int / 2) < pow2(k + 1),
        ;
    }
}

/// Law: the bits built for a non-zero 32-bit integer mean exactly that
/// integer under the IEEE-754 interpretation: the sign bit matches the
/// integer's sign, the biased exponent lies in the normal range, and the
/// implied 53-bit significand, scaled by two to the unbiased exponent,
/// equals the integer's magnitude.
pub proof fn lemma_double_bits_of_int_exact(w: int)
    requires
        -0x80000000 <= w <= 0x7fffffff,
        w != 0,
    ensures
        ({
            let b = spec_double_bits_of_int(w);
            let e = ((b >> 52) & 0x7ff) as int;
            let f = (b & 0xfffffffffffff) as int;
            &&& (((b >> 63) == 1) <==> w < 0)
            &&& 1023 <= e <= 1054
            &&& 0x10000000000000 + f == (if w < 0 {
                -w
            } else {
                w
            }) * pow2((1075 - e) as nat)
        }),
{
    let a = (if w < 0 {
        -w
    } else {
        w
    }) as nat;
    let k = spec_log2(a);
    lemma_log2_spread(a);
    lemma2_to64();
    lemma2_to64_rest();
    if k > 31 {
        if k > 32 {
            lemma_pow2_strictly_increases(32, k);
        }
        assert(false);
    }
    lemma_pow2_adds(k, (52 - k) as nat);
    lemma_pow2_adds(k + 1, (52 - k) as nat);
    lemma_pow2_pos((52 - k) as nat);
    let scaled = a * pow2((52 - k) as nat);
    assert(scaled >= pow2(52)) by (nonlinear_arith)
        requires
            a >= pow2(k),
            pow2(k) * pow2((52 - k) as nat) == pow2(52),
            pow2((52 - k) as nat) > 0,
            scaled == a * pow2((52 - k) as nat),
    ;
    assert(scaled < pow2(53)) by (nonlinear_arith)
        requires
            a < pow2(k + 1),
            pow2(k + 1) * pow2((52 - k) as nat) == pow2(53),
            pow2((52 - k) as nat) > 0,
            scaled == a * pow2((52 - k) as nat),
    ;
    let frac = scaled - 0x10000000000000;
    let eb = 1023 + k;
    let sgn: int = if w < 0 {
        0x8000000000000000
    } else {
        0
    };
    let sbit: int = if w < 0 {
        1int
    } else {
        0int
    };
    let bi: int = sgn + eb * 0x10000000000000 + frac;
    let b = spec_double_bits_of_int(w);
    assert(0 <= bi < 0x10000000000000000);
    assert(b == bi);
    let hi: int = sbit * 0x800 + eb;
    assert(bi == hi * 0x10000000000000 + frac) by (nonlinear_arith)
        requires
            bi == sgn + eb * 0x10000000000000 + frac,
            hi == sbit * 0x800 + eb,
            sgn == sbit * 0x8000000000000000,
    ;
    // the shift by 52 peels the fraction off
    vstd::bits::lemma_u64_shr_is_div(b, 52);
    vstd::arithmetic::div_mod::lemma_fundamental_div_mod_converse(
        bi,
        0x10000000000000,
        hi,
        frac,
    );
    assert((b >> 52) as int == hi);
    // the shift by 63 leaves the sign bit
    vstd::bits::lemma_u64_shr_is_div(b, 63);
    vstd::arithmetic::div_mod::lemma_fundamental_div_mod_converse(
        bi,
        0x8000000000000000,
        sbit,
        eb * 0x10000000000000 + frac,
    );
    assert((b >> 63) as int == sbit);
    // masking keeps the low eleven exponent bits
    vstd::bits::lemma_u64_low_bits_mask_is_mod(b >> 52, 11);
    vstd::bits::lemma_low_bits_mask_values();
    vstd::arithmetic::div_mod::lemma_fundamental_div_mod_converse(hi, 0x800, sbit, eb as int);
    assert(((b >> 52) & 0x7ff) as int == eb);
    // masking keeps the fraction field
    vstd::bits::lemma_u64_low_bits_mask_is_mod(b, 52);
    assert(low_bits_mask(52) == 0xfffffffffffff);
    vstd::arithmetic::div_mod::lemma_fundamental_div_mod_converse(
        bi,
        0x10000000000000,
        hi,
        frac,
    );
    assert((b & 0xfffffffffffff) as int == frac);
}

/// The lenient numeric reading of one cell: numbers keep their bits,
/// integers and booleans convert exactly, and everything else becomes NaN.
pub open spec fn lenient_num_bits(c: CellV) -> u64 {
    match c {
        CellV::Num(bits) => bits,
        CellV::Int(w) => spec_double_bits_of_int(w as int),
        CellV::Bool(b) => if b {
            ONE_BITS
        } else {
            0
        },
        _ => NAN_BITS,
    }
}

/// The lenient bulk numeric reading of a value: each cell of a grid in
/// row-major order, or the value itself as a single cell.
pub open spec fn spec_to_numbers(b: BodyV) -> Seq<u64> {
    match b {
        BodyV::Grid(g) => Seq::new(g.cells.len(), |i: int| lenient_num_bits(g.cells[i])),
        BodyV::Cell(c) => seq![lenient_num_bits(c)],
    }
}

fn cell_num_bits(c: &Cell) -> (r: u64)
    ensures
        r == lenient_num_bits(c@),
{
    match c {
        Cell::Num(bits) => *bits,
        Cell::Int(w) => double_bits_of_int(*w),
        Cell::Bool(b) => if *b {
            ONE_BITS
        } else {
            0
        },
        _ => NAN_BITS,
    }
}

/// The lenient text reading of one cell: texts decode, numbers render,
/// booleans print by name, and everything else becomes the empty string.
pub open spec fn lenient_text(c: CellV) -> Seq<char> {
    match c {
        CellV::Text(units) => utf16_decode_lossy(units),
        CellV::Num(bits) => spec_render_num(bits),
        CellV::Bool(b) => if b {
            "true"@
        } else {
            "false"@
        },
        _ => Seq::empty(),
    }
}

/// The lenient bulk text reading of a value.
pub open spec fn spec_to_texts(b: BodyV) -> Seq<Seq<char>> {
    match b {
        BodyV::Grid(g) => Seq::new(g.cells.len(), |i: int| lenient_text(g.cells[i])),
        BodyV::Cell(c) => seq![lenient_text(c)],
    }
}

fn cell_text(c: &Cell) -> (r: String)
    ensures
        r@ == lenient_text(c@),
{
    match c {
        Cell::Text(units) => crate::text::decode_utf16_string(units),
        Cell::Num(bits) => crate::render::render_num(*bits),
        Cell::Bool(b) => if *b {
            String::from_str("true")
        } else {
            String::from_str("false")
        },
        _ => String::new(),
    }
}

impl Variant {
    /// Lenient bulk conversion to numbers, as bit patterns of doubles: a
    /// grid converts cell by cell in row-major order and never fails; any
    /// other value converts as a single cell.
    pub fn to_numbers(&self) -> (r: Vec<u64>)
        ensures
            r@ == spec_to_numbers(self@.body),
    {
        match &self.body {
            Body::Grid(g) => {
                let n = g.cells.len();
                let mut r: Vec<u64> = Vec::new();
                let mut i: usize = 0;
                while i < n
                    invariant
                        i <= n,
                        n == g.cells@.len(),
                        r@.len() == i,
                        forall|j: int| 0 <= j < i ==> r@[j] == lenient_num_bits(g@.cells[j]),
                    decreases n - i,
                {
                    r.push(cell_num_bits(&g.cells[i]));
                    i = i + 1;
                }
                proof {
                    assert(r@ =~= spec_to_numbers(self@.body));
                }
                r
            },
            Body::Cell(c) => {
                let mut r: Vec<u64> = Vec::new();
                r.push(cell_num_bits(c));
                proof {
                    assert(r@ =~= spec_to_numbers(self@.body));
                }
                r
            },
        }
    }

    /// Lenient bulk conversion to strings: a grid converts cell by cell in
    /// row-major order and never fails; any other value converts as a
    /// single cell.
    pub fn to_texts(&self) -> (r: Vec<String>)
        ensures
            r@.map_values(|t: String| t@) == spec_to_texts(self@.body),
    {
        match &self.body {
            Body::Grid(g) => {
                let n = g.cells.len();
                let mut r: Vec<String> = Vec::new();
                let mut i: usize = 0;
                while i < n
                    invariant
                        i <= n,
                        n == g.cells@.len(),
                        r@.len() == i,
                        forall|j: int|
                            0 <= j < i ==> (#[trigger] r@[j])@ == lenient_text(g@.cells[j]),
                    decreases n - i,
                {
                    r.push(cell_text(&g.cells[i]));
                    i = i + 1;
                }
                proof {
                    assert(r@.map_values(|t: String| t@) =~= spec_to_texts(self@.body));
                }
                r
            },
            Body::Cell(c) => {
                let mut r: Vec<String> = Vec::new();
                r.push(cell_text(c));
                proof {
                    assert(r@.map_values(|t: String| t@) =~= spec_to_texts(self@.body));
                }
                r
            },
        }
    }
}

} // verus!
