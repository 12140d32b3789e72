//! Rust types and default values for COBOL PIC clauses.
use vstd::prelude::*;
use vstd::string::StringExecFns;

use crate::text::{decimal, push_decimal, str_chars, string_of, trim, trim_char, trim_end_char, trim_bounds, skip_char_backward, skip_char_forward};
use crate::compute::{lemma_pow10_grows, pow10};
use crate::types::{PicClause, PicType};

verus! {

/// The Rust type name for a PIC clause: `String` for text, `Decimal` with decimal places,
/// otherwise the smallest integer type for the digit count (signed when the PIC is).
pub open spec fn rust_type_of(p: PicClause) -> Seq<char> {
    match p.pic_type {
        PicType::Alphanumeric | PicType::Alphabetic => "String"@,
        PicType::Numeric => if p.decimal_digits > 0 {
            "Decimal"@
        } else if p.signed {
            if p.integer_digits <= 2 {
                "i8"@
            } else if p.integer_digits <= 4 {
                "i16"@
            } else if p.integer_digits <= 9 {
                "i32"@
            } else {
                "i64"@
            }
        } else {
            if p.integer_digits <= 2 {
                "u8"@
            } else if p.integer_digits <= 4 {
                "u16"@
            } else if p.integer_digits <= 9 {
                "u32"@
            } else {
                "u64"@
            }
        },
    }
}

/// Determine the Rust type for a COBOL PIC clause.
pub fn rust_type_for_pic(pic: &PicClause) -> (r: String)
    ensures
        r@ == rust_type_of(*pic),
{
    let s = match pic.pic_type {
        PicType::Alphanumeric | PicType::Alphabetic => "String",
        PicType::Numeric => {
            if pic.decimal_digits > 0 {
                "Decimal"
            } else if pic.signed {
                if pic.integer_digits <= 2 {
                    "i8"
                } else if pic.integer_digits <= 4 {
                    "i16"
                } else if pic.integer_digits <= 9 {
                    "i32"
                } else {
                    "i64"
                }
            } else {
                if pic.integer_digits <= 2 {
                    "u8"
                } else if pic.integer_digits <= 4 {
                    "u16"
                } else if pic.integer_digits <= 9 {
                    "u32"
                } else {
                    "u64"
                }
            }
        },
    };
    String::from_str(s)
}

/// The initial value expression of a PIC item, from its VALUE clause if it has one.
pub open spec fn rust_default_of(p: PicClause, value: Option<Seq<char>>) -> Seq<char> {
    match p.pic_type {
        PicType::Alphanumeric | PicType::Alphabetic => match value {
            Some(v) => "\""@ + trim_char(trim_char(v, '"'), '\'') + "\".to_string()"@,
            None => "String::with_capacity("@ + decimal(p.total_size as nat) + ")"@,
        },
        PicType::Numeric => if p.decimal_digits > 0 {
            match value {
                Some(v) => "Decimal::from_str(\""@ + trim_end_char(trim(v), '.') + "\").unwrap()"@,
                None => "Decimal::new(0, "@ + decimal(p.decimal_digits as nat) + ")"@,
            }
        } else {
            match value {
                Some(v) => trim_end_char(trim(v), '.'),
                None => "0"@,
            }
        },
    }
}

pub open spec fn opt_str_view(v: Option<&str>) -> Option<Seq<char>> {
    match v {
        Some(s) => Some(s@),
        None => None,
    }
}

/// Generate the Rust default value expression for a PIC clause.
pub fn rust_default_for_pic(pic: &PicClause, value: Option<&str>) -> (r: String)
    ensures
        r@ == rust_default_of(*pic, opt_str_view(value)),
{
    let mut r = String::new();
    match pic.pic_type {
        PicType::Alphanumeric | PicType::Alphabetic => {
            match value {
                Some(val) => {
                    let v = str_chars(val);
                    let a = skip_char_forward(&v, 0, v.len(), '"');
                    let b = skip_char_backward(&v, a, v.len(), '"');
                    let c = skip_char_forward(&v, a, b, '\'');
                    let d = skip_char_backward(&v, c, b, '\'');
                    proof {
                        assert(v@.subrange(0, v@.len() as int) =~= v@);
                        assert(v@.subrange(a as int, v@.len() as int).subrange(0, b - a) =~= v@.subrange(a as int, b as int));
                    }
                    r.append("\"");
                    let cleaned = string_of(&v, c, d);
                    r.append(cleaned.as_str());
                    r.append("\".to_string()");
                },
                None => {
                    r.append("String::with_capacity(");
                    push_decimal(&mut r, pic.total_size as usize);
                    r.append(")");
                },
            }
        },
        PicType::Numeric => {
            if pic.decimal_digits > 0 {
                match value {
                    Some(val) => {
                        let v = str_chars(val);
                        let (a, b) = trim_bounds(&v, 0, v.len());
                        let b2 = skip_char_backward(&v, a, b, '.');
                        proof {
                            assert(v@.subrange(0, v@.len() as int) =~= v@);
                        }
                        r.append("Decimal::from_str(\"");
                        let cleaned = string_of(&v, a, b2);
                        r.append(cleaned.as_str());
                        r.append("\").unwrap()");
                    },
                    None => {
                        r.append("Decimal::new(0, ");
                        push_decimal(&mut r, pic.decimal_digits as usize);
                        r.append(")");
                    },
                }
            } else {
                match value {
                    Some(val) => {
                        let v = str_chars(val);
                        let (a, b) = trim_bounds(&v, 0, v.len());
                        let b2 = skip_char_backward(&v, a, b, '.');
                        proof {
                            assert(v@.subrange(0, v@.len() as int) =~= v@);
                        }
                        let cleaned = string_of(&v, a, b2);
                        r.append(cleaned.as_str());
                    },
                    None => {
                        r.append("0");
                    },
                }
            }
        },
    }
    r
}

/// A PIC clause is given the `Decimal` type exactly when it needs the `rust_decimal` crate
/// (numeric with decimal places), and no PIC clause is given a floating-point type.
pub proof fn lemma_decimal_type_iff_required(p: PicClause)
    ensures
        (rust_type_of(p) == "Decimal"@) <==> (p.pic_type == PicType::Numeric && p.decimal_digits
            > 0),
        rust_type_of(p) != "f32"@,
        rust_type_of(p) != "f64"@,
{
    reveal_strlit("Decimal");
    reveal_strlit("String");
    reveal_strlit("f32");
    reveal_strlit("f64");
    reveal_strlit("i8");
    reveal_strlit("i16");
    reveal_strlit("i32");
    reveal_strlit("i64");
    reveal_strlit("u8");
    reveal_strlit("u16");
    reveal_strlit("u32");
    reveal_strlit("u64");
    let t = rust_type_of(p);
    if !(p.pic_type == PicType::Numeric && p.decimal_digits > 0) {
        assert(t.len() != 7 || t[0] != 'D');
    }
    assert(t.len() == 3 ==> t[0] != 'f');
}

/// Signedness and largest value of a Rust integer type name.
pub open spec fn int_type(t: Seq<char>) -> Option<(bool, int)> {
    if t == "i8"@ {
        Some((true, 127))
    } else if t == "i16"@ {
        Some((true, 32767))
    } else if t == "i32"@ {
        Some((true, 2147483647))
    } else if t == "i64"@ {
        Some((true, 9223372036854775807))
    } else if t == "u8"@ {
        Some((false, 255))
    } else if t == "u16"@ {
        Some((false, 65535))
    } else if t == "u32"@ {
        Some((false, 4294967295))
    } else if t == "u64"@ {
        Some((false, 18446744073709551615))
    } else {
        None
    }
}

proof fn lemma_int_type_values()
    ensures
        int_type("i8"@) == Some((true, 127int)),
        int_type("i16"@) == Some((true, 32767int)),
        int_type("i32"@) == Some((true, 2147483647int)),
        int_type("i64"@) == Some((true, 9223372036854775807int)),
        int_type("u8"@) == Some((false, 255int)),
        int_type("u16"@) == Some((false, 65535int)),
        int_type("u32"@) == Some((false, 4294967295int)),
        int_type("u64"@) == Some((false, 18446744073709551615int)),
{
    reveal_strlit("i8");
    reveal_strlit("i16");
    reveal_strlit("i32");
    reveal_strlit("i64");
    reveal_strlit("u8");
    reveal_strlit("u16");
    reveal_strlit("u32");
    reveal_strlit("u64");
    assert("i8"@.len() == 2 && "u8"@.len() == 2);
    assert("i16"@.len() == 3 && "i32"@.len() == 3 && "i64"@.len() == 3);
    assert("u16"@.len() == 3 && "u32"@.len() == 3 && "u64"@.len() == 3);
    assert("i16"@ != "i8"@);
    assert("i32"@ != "i8"@ && "i32"@ != "i16"@) by {
        assert("i32"@[1] != "i16"@[1]);
    }
    assert("i64"@ != "i8"@ && "i64"@ != "i16"@ && "i64"@ != "i32"@) by {
        assert("i64"@[1] != "i16"@[1]);
        assert("i64"@[1] != "i32"@[1]);
    }
    assert("u8"@ != "i8"@ && "u8"@ != "i16"@ && "u8"@ != "i32"@ && "u8"@ != "i64"@) by {
        assert("u8"@[0] != "i8"@[0]);
    }
    assert("u16"@ != "i8"@ && "u16"@ != "i16"@ && "u16"@ != "i32"@ && "u16"@ != "i64"@
        && "u16"@ != "u8"@) by {
        assert("u16"@[0] != "i16"@[0]);
    }
    assert("u32"@ != "i8"@ && "u32"@ != "i16"@ && "u32"@ != "i32"@ && "u32"@ != "i64"@
        && "u32"@ != "u8"@ && "u32"@ != "u16"@) by {
        assert("u32"@[0] != "i32"@[0]);
        assert("u32"@[1] != "u16"@[1]);
    }
    assert("u64"@ != "i8"@ && "u64"@ != "i16"@ && "u64"@ != "i32"@ && "u64"@ != "i64"@
        && "u64"@ != "u8"@ && "u64"@ != "u16"@ && "u64"@ != "u32"@) by {
        assert("u64"@[0] != "i64"@[0]);
        assert("u64"@[1] != "u16"@[1]);
        assert("u64"@[1] != "u32"@[1]);
    }
}

/// A numeric PIC without decimal places maps to an integer type that is signed exactly
/// when the PIC is signed, and whose largest value holds every value the PIC's digits can
/// write (for up to 18 digits when signed, 19 when unsigned: the most `i64` and `u64`
/// hold).
pub proof fn lemma_integer_type_fits(p: PicClause)
    requires
        p.pic_type == PicType::Numeric,
        p.decimal_digits == 0,
    ensures
        int_type(rust_type_of(p)) matches Some((signed, _)) && signed == p.signed,
        int_type(rust_type_of(p)) matches Some((_, max)) && (p.integer_digits <= (if p.signed {
            18u32
        } else {
            19u32
        }) ==> pow10(p.integer_digits as nat) - 1 <= max),
{
    lemma_int_type_values();
    reveal_with_fuel(pow10, 20);
    let d = p.integer_digits as nat;
    let bound: nat = if d <= 2 {
        2
    } else if d <= 4 {
        4
    } else if d <= 9 {
        9
    } else if d <= 18 {
        18
    } else {
        19
    };
    if d <= 19 {
        lemma_pow10_grows(d, bound);
    }
    assert(pow10(2) == 100);
    assert(pow10(4) == 10000);
    assert(pow10(9) == 1000000000);
    assert(pow10(18) == 1000000000000000000);
    assert(pow10(19) == 10000000000000000000);
}

/// The integer type of a numeric PIC without decimal places is the narrowest of its
/// signedness: every narrower integer type of the same signedness is too small for the
/// largest value the PIC's digits can write.
pub proof fn lemma_integer_type_narrowest(p: PicClause, t: Seq<char>)
    requires
        p.pic_type == PicType::Numeric,
        p.decimal_digits == 0,
        int_type(t) is Some,
        int_type(t).unwrap().0 == p.signed,
        int_type(t).unwrap().1 < int_type(rust_type_of(p)).unwrap().1,
    ensures
        pow10(p.integer_digits as nat) - 1 > int_type(t).unwrap().1,
{
    lemma_int_type_values();
    reveal_with_fuel(pow10, 20);
    let d = p.integer_digits as nat;
    assert(pow10(3) == 1000);
    assert(pow10(5) == 100000);
    assert(pow10(10) == 10000000000);
    if d >= 3 {
        lemma_pow10_grows(3, d);
    }
    if d >= 5 {
        lemma_pow10_grows(5, d);
    }
    if d >= 10 {
        lemma_pow10_grows(10, d);
    }
}

/// Check if a PIC clause requires the rust_decimal crate.
pub fn requires_decimal(pic: &PicClause) -> (r: bool)
    ensures
        r == (pic.pic_type == PicType::Numeric && pic.decimal_digits > 0),
{
    pic.pic_type == PicType::Numeric && pic.decimal_digits > 0
}

} // verus!
