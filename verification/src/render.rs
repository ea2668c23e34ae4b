//! Display rendering: the fixed error tokens, decimal rendering of
//! integers, and a float-free rendering of stored numbers from their bit
//! patterns (exact decimals for integral doubles, hexadecimal floating
//! point for the rest).

use crate::text::utf16_decode_lossy;
use crate::value::{
    BodyV, CellV, Variant, ERR_DIV0, ERR_GETTING_DATA, ERR_NA, ERR_NAME, ERR_NULL, ERR_NUM,
    ERR_REF, ERR_VALUE,
};
use vstd::prelude::*;
use vstd::string::StringExecFns;

verus! {

/// The character for one decimal (or low hexadecimal) digit.
pub open spec fn digit_char(d: int) -> char {
    (((48 + d) as u8) as char)
}

/// The character for one hexadecimal digit, lower case.
pub open spec fn hex_digit_char(d: int) -> char {
    if d < 10 {
        digit_char(d)
    } else {
        (((87 + d) as u8) as char)
    }
}

/// The decimal digits of a natural number, most significant first.
pub open spec fn spec_dec_nat(n: nat) -> Seq<char>
    decreases n,
{
    if n < 10 {
        seq![digit_char(n as int)]
    } else {
        spec_dec_nat(n / 10) + seq![digit_char((n % 10) as int)]
    }
}

/// The decimal rendering of an integer, with a leading minus sign when
/// negative.
pub open spec fn spec_dec_int(w: int) -> Seq<char> {
    if w < 0 {
        seq!['-'] + spec_dec_nat((-w) as nat)
    } else {
        spec_dec_nat(w as nat)
    }
}

/// The thirteen hexadecimal digits of a 52-bit fraction field, most
/// significant first.
pub open spec fn spec_hex13(f: u64) -> Seq<char> {
    Seq::new(13, |i: int| hex_digit_char(((f >> ((48 - 4 * i) as u64)) & 0xf) as int))
}

/// The rendering of a stored number from the bits of an IEEE-754 double.
/// A double whose value is an integer of magnitude below `2^63` renders as
/// that exact decimal; every other finite double renders losslessly in the
/// C99 hexadecimal floating-point form; NaN and the infinities render by
/// name (they can occur only in host-decoded values).
pub open spec fn spec_render_num(bits: u64) -> Seq<char> {
    let e = (bits >> 52) & 0x7ff;
    let f = bits & 0xfffffffffffff;
    let neg = (bits >> 63) == 1;
    let sign: Seq<char> = if neg {
        seq!['-']
    } else {
        Seq::empty()
    };
    if e == 0x7ff {
        if f != 0 {
            "NaN"@
        } else if neg {
            "-inf"@
        } else {
            "inf"@
        }
    } else if e == 0 && f == 0 {
        sign + "0"@
    } else if 1023 <= e <= 1075 && f & (((1u64 << ((1075 - e) as u64)) - 1) as u64) == 0 {
        sign + spec_dec_nat((((0x10000000000000 + f) as u64) >> ((1075 - e) as u64)) as nat)
    } else if 1075 < e <= 1085 {
        sign + spec_dec_nat((((0x10000000000000 + f) as u64) << ((e - 1075) as u64)) as nat)
    } else if e == 0 {
        sign + "0x0."@ + spec_hex13(f) + "p-1022"@
    } else {
        sign + "0x1."@ + spec_hex13(f) + seq!['p'] + spec_dec_int(e as int - 1023)
    }
}

/// The display token of an error value.
pub open spec fn spec_error_text(code: u32) -> Seq<char> {
    if code == ERR_NULL {
        "#NULL"@
    } else if code == ERR_DIV0 {
        "#DIV0"@
    } else if code == ERR_VALUE {
        "#VALUE"@
    } else if code == ERR_REF {
        "#REF"@
    } else if code == ERR_NAME {
        "#NAME"@
    } else if code == ERR_NUM {
        "#NUM"@
    } else if code == ERR_NA {
        "#NA"@
    } else if code == ERR_GETTING_DATA {
        "#DATA"@
    } else {
        "#BAD_ERR "@ + spec_dec_nat(code as nat)
    }
}

/// The display string of a value: error tokens for errors, exact decimals
/// for integers, the number rendering for numbers, the decoded text for
/// texts, and a fixed marker for the structural variants.
pub open spec fn spec_display(b: BodyV) -> Seq<char> {
    match b {
        BodyV::Cell(CellV::Nil) => "#NIL"@,
        BodyV::Cell(CellV::Missing) => "#MISSING"@,
        BodyV::Cell(CellV::Num(bits)) => spec_render_num(bits),
        BodyV::Cell(CellV::Int(w)) => spec_dec_int(w as int),
        BodyV::Cell(CellV::Bool(v)) => if v {
            "true"@
        } else {
            "false"@
        },
        BodyV::Cell(CellV::Error(code)) => spec_error_text(code),
        BodyV::Cell(CellV::Text(units)) => utf16_decode_lossy(units),
        BodyV::Cell(CellV::SRef(_)) => "#SREF"@,
        BodyV::Cell(CellV::MRef(_)) => "#MREF"@,
        BodyV::Grid(_) => "#MULTI"@,
    }
}

/// Relies on `String::push`: it appends exactly the given character.
#[verifier::external_body]
pub(crate) fn string_push(s: &mut String, c: char)
    ensures
        final(s)@ == old(s)@.push(c),
{
    s.push(c)
}

fn push_dec_u64(s: &mut String, n: u64)
    ensures
        final(s)@ == old(s)@ + spec_dec_nat(n as nat),
    decreases n,
{
    if n < 10 {
        string_push(s, ((48 + n as u8) as char));
        proof {
            assert(s@ =~= old(s)@ + spec_dec_nat(n as nat));
        }
    } else {
        push_dec_u64(s, n / 10);
        string_push(s, ((48 + (n % 10) as u8) as char));
        proof {
            assert(s@ =~= old(s)@ + spec_dec_nat(n as nat));
        }
    }
}

fn push_dec_i64(s: &mut String, w: i64)
    requires
        w > i64::MIN,
    ensures
        final(s)@ == old(s)@ + spec_dec_int(w as int),
{
    if w < 0 {
        string_push(s, '-');
        push_dec_u64(s, (-w) as u64);
        proof {
            assert(s@ =~= old(s)@ + spec_dec_int(w as int));
        }
    } else {
        push_dec_u64(s, w as u64);
    }
}

fn push_hex13(s: &mut String, f: u64)
    ensures
        final(s)@ == old(s)@ + spec_hex13(f),
{
    let mut i: usize = 0;
    while i < 13
        invariant
            i <= 13,
            s@ == old(s)@ + spec_hex13(f).take(i as int),
        decreases 13 - i,
    {
        let ghost i0 = i as int;
        let sh: u64 = 48 - 4 * (i as u64);
        proof {
            assert(((f >> sh) & 0xf) < 16) by (bit_vector);
        }
        let d: u8 = ((f >> sh) & 0xf) as u8;
        let c: char = if d < 10 {
            ((48 + d) as char)
        } else {
            ((87 + d) as char)
        };
        proof {
            assert(c == hex_digit_char(d as int));
            assert(spec_hex13(f)[i0] == c);
        }
        string_push(s, c);
        i = i + 1;
        proof {
            assert(spec_hex13(f).take(i0 + 1) =~= spec_hex13(f).take(i0).push(c));
            assert(s@ =~= old(s)@ + spec_hex13(f).take(i as int));
        }
    }
    proof {
        assert(spec_hex13(f).take(13) =~= spec_hex13(f));
    }
}

fn render_hex_normal(neg: bool, f: u64, e: u64) -> (r: String)
    requires
        1 <= e <= 2046,
    ensures
        r@ == (if neg {
            seq!['-']
        } else {
            Seq::<char>::empty()
        }) + "0x1."@ + spec_hex13(f) + seq!['p'] + spec_dec_int(e as int - 1023),
{
    let mut s = String::new();
    if neg {
        string_push(&mut s, '-');
    }
    s.append("0x1.");
    push_hex13(&mut s, f);
    string_push(&mut s, 'p');
    push_dec_i64(&mut s, (e as i64) - 1023);
    proof {
        assert(s@ =~= (if neg {
            seq!['-']
        } else {
            Seq::<char>::empty()
        }) + "0x1."@ + spec_hex13(f) + seq!['p'] + spec_dec_int(e as int - 1023));
    }
    s
}

/// Render the bits of a double as `spec_render_num` describes.
pub(crate) fn render_num(bits: u64) -> (r: String)
    ensures
        r@ == spec_render_num(bits),
{
    let e: u64 = (bits >> 52) & 0x7ff;
    let f: u64 = bits & 0xfffffffffffff;
    let neg: bool = (bits >> 63) == 1;
    proof {
        assert(((bits >> 52) & 0x7ff) <= 0x7ff && (bits & 0xfffffffffffff) <= 0xfffffffffffff)
            by (bit_vector);
    }
    if e == 0x7ff {
        if f != 0 {
            String::from_str("NaN")
        } else if neg {
            String::from_str("-inf")
        } else {
            String::from_str("inf")
        }
    } else if e == 0 && f == 0 {
        let mut s = String::new();
        if neg {
            string_push(&mut s, '-');
        }
        s.append("0");
        proof {
            assert(s@ =~= spec_render_num(bits));
        }
        s
    } else if 1023 <= e && e <= 1075 {
        let sh: u64 = 1075 - e;
        proof {
            assert(sh < 64 ==> 1u64 << sh >= 1) by (bit_vector);
        }
        let mask: u64 = (1u64 << sh) - 1;
        if f & mask == 0 {
            let mut s = String::new();
            if neg {
                string_push(&mut s, '-');
            }
            let m: u64 = 0x10000000000000 + f;
            push_dec_u64(&mut s, m >> sh);
            proof {
                assert(s@ =~= spec_render_num(bits));
            }
            s
        } else {
            let r = render_hex_normal(neg, f, e);
            proof {
                assert(r@ =~= spec_render_num(bits));
            }
            r
        }
    } else if 1075 < e && e <= 1085 {
        let mut s = String::new();
        if neg {
            string_push(&mut s, '-');
        }
        let m: u64 = 0x10000000000000 + f;
        push_dec_u64(&mut s, m << (e - 1075));
        proof {
            assert(s@ =~= spec_render_num(bits));
        }
        s
    } else if e == 0 {
        let mut s = String::new();
        if neg {
            string_push(&mut s, '-');
        }
        s.append("0x0.");
        push_hex13(&mut s, f);
        s.append("p-1022");
        proof {
            assert(s@ =~= spec_render_num(bits));
        }
        s
    } else {
        let r = render_hex_normal(neg, f, e);
        proof {
            assert(r@ =~= spec_render_num(bits));
        }
        r
    }
}

impl Variant {
    /// The display string of this value, as `spec_display` describes it.
    pub fn display_string(&self) -> (r: String)
        ensures
            r@ == spec_display(self@.body),
    {
        match &self.body {
            crate::value::Body::Cell(c) => match c {
                crate::value::Cell::Nil => String::from_str("#NIL"),
                crate::value::Cell::Missing => String::from_str("#MISSING"),
                crate::value::Cell::Num(bits) => render_num(*bits),
                crate::value::Cell::Int(w) => {
                    let mut s = String::new();
                    push_dec_i64(&mut s, *w as i64);
                    proof {
                        assert(s@ =~= spec_dec_int(*w as int));
                    }
                    s
                },
                crate::value::Cell::Bool(v) => {
                    if *v {
                        String::from_str("true")
                    } else {
                        String::from_str("false")
                    }
                },
                crate::value::Cell::Error(code) => error_text(*code),
                crate::value::Cell::Text(units) => crate::text::decode_utf16_string(units),
                crate::value::Cell::SRef(_) => String::from_str("#SREF"),
                crate::value::Cell::MRef(_) => String::from_str("#MREF"),
            },
            crate::value::Body::Grid(_) => String::from_str("#MULTI"),
        }
    }
}

/// The display token of an error code, as `spec_error_text` describes it.
pub fn error_text(code: u32) -> (r: String)
    ensures
        r@ == spec_error_text(code),
{
    if code == ERR_NULL {
        String::from_str("#NULL")
    } else if code == ERR_DIV0 {
        String::from_str("#DIV0")
    } else if code == ERR_VALUE {
        String::from_str("#VALUE")
    } else if code == ERR_REF {
        String::from_str("#REF")
    } else if code == ERR_NAME {
        String::from_str("#NAME")
    } else if code == ERR_NUM {
        String::from_str("#NUM")
    } else if code == ERR_NA {
        String::from_str("#NA")
    } else if code == ERR_GETTING_DATA {
        String::from_str("#DATA")
    } else {
        let mut s = String::from_str("#BAD_ERR ");
        push_dec_u64(&mut s, code as u64);
        proof {
            assert(s@ =~= spec_error_text(code));
        }
        s
    }
}

} // verus!
