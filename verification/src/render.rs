//! Diagnostic rendering: turning field storage into human-readable text.
//! Every renderer is specified exactly, down to the decimal digits.

use vstd::prelude::*;

use crate::value::{FieldValue, ScalarValue, SpecField, SpecScalar};

verus! {

/// The digit character of one decimal digit.
pub open spec fn digit_char(d: nat) -> char {
    if d == 0 {
        '0'
    } else if d == 1 {
        '1'
    } else if d == 2 {
        '2'
    } else if d == 3 {
        '3'
    } else if d == 4 {
        '4'
    } else if d == 5 {
        '5'
    } else if d == 6 {
        '6'
    } else if d == 7 {
        '7'
    } else if d == 8 {
        '8'
    } else {
        '9'
    }
}

/// The decimal rendering of a natural number, most significant digit first.
pub open spec fn dec_digits(n: nat) -> Seq<char>
    decreases n,
{
    if n < 10 {
        seq![digit_char(n)]
    } else {
        dec_digits(n / 10) + seq![digit_char(n % 10)]
    }
}

/// The rendering of a signed value: a minus sign before the magnitude.
pub open spec fn dec_signed(n: int) -> Seq<char> {
    if n >= 0 {
        dec_digits(n as nat)
    } else {
        seq!['-'] + dec_digits((-n) as nat)
    }
}

/// The rendering of one scalar value: decimal for the numeric carriers,
/// `true`/`false`, and a decimal byte list for byte runs.
pub open spec fn spec_scalar_render(v: SpecScalar) -> Seq<char> {
    match v {
        SpecScalar::I32(n) => dec_signed(n as int),
        SpecScalar::I64(n) => dec_signed(n as int),
        SpecScalar::U32(n) => dec_digits(n as nat),
        SpecScalar::U64(n) => dec_digits(n as nat),
        SpecScalar::Bool(b) => if b {
            "true"@
        } else {
            "false"@
        },
        SpecScalar::Bytes(bs) => seq!['['] + bytes_render(bs) + seq![']'],
    }
}

/// The comma-separated decimal bytes of a byte run.
pub open spec fn bytes_render(bs: Seq<u8>) -> Seq<char>
    decreases bs.len(),
{
    if bs.len() == 0 {
        Seq::empty()
    } else if bs.len() == 1 {
        dec_digits(bs[0] as nat)
    } else {
        dec_digits(bs[0] as nat) + ", "@ + bytes_render(bs.skip(1))
    }
}

/// Returns the decimal digit `d` as text.
fn digit_str(d: u64) -> (r: &'static str)
    requires
        d < 10,
    ensures
        r@ == seq![digit_char(d as nat)],
{
    proof {
        reveal_strlit("0");
        reveal_strlit("1");
        reveal_strlit("2");
        reveal_strlit("3");
        reveal_strlit("4");
        reveal_strlit("5");
        reveal_strlit("6");
        reveal_strlit("7");
        reveal_strlit("8");
        reveal_strlit("9");
    }
    if d == 0 {
        "0"
    } else if d == 1 {
        "1"
    } else if d == 2 {
        "2"
    } else if d == 3 {
        "3"
    } else if d == 4 {
        "4"
    } else if d == 5 {
        "5"
    } else if d == 6 {
        "6"
    } else if d == 7 {
        "7"
    } else if d == 8 {
        "8"
    } else {
        "9"
    }
}

/// Renders an unsigned value in decimal.
pub fn render_u64(n: u64) -> (r: String)
    ensures
        r@ == dec_digits(n as nat),
    decreases n,
{
    if n < 10 {
        String::from_str(digit_str(n))
    } else {
        let mut s = render_u64(n / 10);
        s.append(digit_str(n % 10));
        s
    }
}

/// Renders a signed value in decimal.
pub fn render_i64(n: i64) -> (r: String)
    ensures
        r@ == dec_signed(n as int),
{
    if n >= 0 {
        render_u64(n as u64)
    } else {
        proof {
            reveal_strlit("-");
        }
        let mut s = String::from_str("-");
        let magnitude = ((-(n + 1)) as u64) + 1;
        s.append(render_u64(magnitude).as_str());
        proof {
            assert(s@ =~= dec_signed(n as int));
        }
        s
    }
}

/// Renders one scalar value.
pub fn render_scalar(v: &ScalarValue) -> (r: String)
    ensures
        r@ == spec_scalar_render(v@),
{
    match v {
        ScalarValue::I32(n) => render_i64(*n as i64),
        ScalarValue::I64(n) => render_i64(*n),
        ScalarValue::U32(n) => render_u64(*n as u64),
        ScalarValue::U64(n) => render_u64(*n),
        ScalarValue::Bool(b) => {
            if *b {
                String::from_str("true")
            } else {
                String::from_str("false")
            }
        },
        ScalarValue::Bytes(bs) => {
            proof {
                reveal_strlit("[");
                reveal_strlit("]");
                reveal_strlit(", ");
            }
            let mut s = String::from_str("[");
            let n = bs.len();
            let mut i: usize = 0;
            proof {
                assert(bs@.skip(0) =~= bs@);
            }
            while i < n
                invariant
                    0 <= i <= n == bs@.len(),
                    "["@ + bytes_render(bs@) =~= s@ + bytes_render(bs@.skip(i as int)),
                    ", "@.len() == 2,
                decreases n - i,
            {
                s.append(render_u64(bs[i] as u64).as_str());
                if i + 1 < n {
                    s.append(", ");
                }
                proof {
                    assert(bs@.skip(i as int)[0] == bs@[i as int]);
                    assert(bs@.skip(i as int).skip(1) =~= bs@.skip(i + 1));
                    assert("["@ + bytes_render(bs@) =~= s@ + bytes_render(bs@.skip(i + 1)));
                }
                i = i + 1;
            }
            proof {
                assert(bytes_render(bs@.skip(n as int)) =~= Seq::<char>::empty());
                assert(s@ =~= "["@ + bytes_render(bs@));
            }
            s.append("]");
            proof {
                assert(s@ =~= spec_scalar_render(v@));
            }
            s
        },
    }
}

/// The rendering of one field's storage: the value of a singular field,
/// `None`/`Some(...)` for an optional one, a bracketed list for repeated
/// and packed fields; composite storage renders as a summary marker, since
/// its own schema renders it.
pub open spec fn spec_field_render(fv: SpecField) -> Seq<char> {
    match fv {
        SpecField::Single(v) => spec_scalar_render(v),
        SpecField::Opt(o) => match o {
            None => "None"@,
            Some(v) => "Some("@ + spec_scalar_render(v) + seq![')'],
        },
        SpecField::List(vs) => seq!['['] + scalars_render(vs) + seq![']'],
        SpecField::SingleMsg(_) => "<message>"@,
        SpecField::OptMsg(_) => "<message>"@,
        SpecField::MsgList(_) => "<messages>"@,
        SpecField::Mapping(_) => "<map>"@,
        SpecField::Oneof(_) => "<oneof>"@,
    }
}

/// The comma-separated renderings of a scalar sequence.
pub open spec fn scalars_render(vs: Seq<SpecScalar>) -> Seq<char>
    decreases vs.len(),
{
    if vs.len() == 0 {
        Seq::empty()
    } else if vs.len() == 1 {
        spec_scalar_render(vs[0])
    } else {
        spec_scalar_render(vs[0]) + ", "@ + scalars_render(vs.skip(1))
    }
}

/// Renders one field's storage for diagnostics.
pub fn render_field(value: &FieldValue) -> (r: String)
    ensures
        r@ == spec_field_render(value@),
{
    match value {
        FieldValue::Single(v) => render_scalar(v),
        FieldValue::Opt(o) => {
            match o {
                None => String::from_str("None"),
                Some(v) => {
                    proof {
                        reveal_strlit(")");
                    }
                    let mut s = String::from_str("Some(");
                    s.append(render_scalar(v).as_str());
                    s.append(")");
                    proof {
                        assert(s@ =~= spec_field_render(value@));
                    }
                    s
                },
            }
        },
        FieldValue::List(vs) => {
            proof {
                reveal_strlit("[");
                reveal_strlit("]");
                reveal_strlit(", ");
            }
            let mut s = String::from_str("[");
            let ghost views = crate::value::scalars_view(vs@);
            let n = vs.len();
            let mut i: usize = 0;
            proof {
                assert(views.skip(0) =~= views);
            }
            while i < n
                invariant
                    0 <= i <= n == vs@.len(),
                    views == crate::value::scalars_view(vs@),
                    views.len() == n,
                    "["@ + scalars_render(views) =~= s@ + scalars_render(views.skip(i as int)),
                    ", "@.len() == 2,
                decreases n - i,
            {
                proof {
                    assert(views[i as int] == vs@[i as int]@);
                }
                s.append(render_scalar(&vs[i]).as_str());
                if i + 1 < n {
                    s.append(", ");
                }
                proof {
                    assert(views.skip(i as int)[0] == views[i as int]);
                    assert(views.skip(i as int).skip(1) =~= views.skip(i + 1));
                    assert("["@ + scalars_render(views) =~= s@ + scalars_render(
                        views.skip(i + 1),
                    ));
                }
                i = i + 1;
            }
            proof {
                assert(scalars_render(views.skip(n as int)) =~= Seq::<char>::empty());
                assert(s@ =~= "["@ + scalars_render(views));
            }
            s.append("]");
            proof {
                assert(s@ =~= spec_field_render(value@));
            }
            s
        },
        FieldValue::SingleMsg(_) => String::from_str("<message>"),
        FieldValue::OptMsg(_) => String::from_str("<message>"),
        FieldValue::MsgList(_) => String::from_str("<messages>"),
        FieldValue::Mapping(_) => String::from_str("<map>"),
        FieldValue::Oneof(_) => String::from_str("<oneof>"),
    }
}

} // verus!
