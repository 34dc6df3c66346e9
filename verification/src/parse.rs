//! Parsing wire bytes back into structured values.
//!
//! The grammar is the compact form the endpoint emits: no inter-token
//! whitespace, integer numbers only (a fractional part or exponent is a
//! syntax error), string escapes for quote, backslash, slash, the usual
//! control shorthands, and `\u00XX` for byte values below `0x80`; all other
//! bytes of a string, including multi-byte UTF-8 sequences, stand unescaped.
//! The spec functions here are the single definition of what parses; the
//! executable scanner is proved to return exactly what they say, and the
//! completeness lemmas prove they accept everything the serializer emits.

use vstd::prelude::*;
use vstd::utf8::{valid_utf8, decode_utf8};
use crate::error::{DecodeFault, WayfireError};
use crate::json::{Json, JVal, jval_of, jvals_of, jobj_of, lemma_jvals_of, lemma_jobj_of};

verus! {

pub open spec fn is_digit(b: u8) -> bool {
    0x30 <= b <= 0x39
}

pub open spec fn is_hex(b: u8) -> bool {
    is_digit(b) || (0x61 <= b <= 0x66) || (0x41 <= b <= 0x46)
}

/// Value of a hexadecimal digit byte (either case).
pub open spec fn hex_val(b: u8) -> nat {
    if is_digit(b) {
        (b - 0x30) as nat
    } else if 0x61 <= b <= 0x66 {
        (b - 0x57) as nat
    } else if 0x41 <= b <= 0x46 {
        (b - 0x37) as nat
    } else {
        0
    }
}

/// Unescaped content bytes of a string literal, scanning from `i` (just past
/// the opening quote) up to and past the closing quote.
pub open spec fn parse_str_body(s: Seq<u8>, i: int) -> Option<(Seq<u8>, int)>
    decreases s.len() - i,
{
    if i < 0 || i >= s.len() {
        None
    } else if s[i] == 0x22 {
        Some((Seq::empty(), i + 1))
    } else if s[i] == 0x5c {
        if i + 1 < s.len() {
            let e = s[i + 1];
            if e == 0x22 || e == 0x5c || e == 0x2f {
                match parse_str_body(s, i + 2) {
                    Some((rest, j)) => Some((seq![e] + rest, j)),
                    None => None,
                }
            } else if e == 0x62 || e == 0x66 || e == 0x6e || e == 0x72 || e == 0x74 {
                match parse_str_body(s, i + 2) {
                    Some((rest, j)) => Some((seq![ctrl_escape(e)] + rest, j)),
                    None => None,
                }
            } else if e == 0x75 {
                if i + 5 < s.len() && s[i + 2] == 0x30 && s[i + 3] == 0x30 && is_hex(s[i + 4])
                    && is_hex(s[i + 5]) && hex_val(s[i + 4]) < 8 {
                    match parse_str_body(s, i + 6) {
                        Some((rest, j)) => Some(
                            (seq![(hex_val(s[i + 4]) * 16 + hex_val(s[i + 5])) as u8] + rest, j),
                        ),
                        None => None,
                    }
                } else {
                    None
                }
            } else {
                None
            }
        } else {
            None
        }
    } else if s[i] >= 0x20 {
        match parse_str_body(s, i + 1) {
            Some((rest, j)) => Some((seq![s[i]] + rest, j)),
            None => None,
        }
    } else {
        None
    }
}

/// Byte value of a control-shorthand escape.
pub open spec fn ctrl_escape(e: u8) -> u8 {
    if e == 0x62 {
        0x08
    } else if e == 0x66 {
        0x0c
    } else if e == 0x6e {
        0x0a
    } else if e == 0x72 {
        0x0d
    } else {
        0x09
    }
}

/// Decimal digits from `i` accumulated onto `acc`, stopping at the first
/// non-digit; a magnitude that leaves 64 bits is a syntax error.
pub open spec fn parse_digits(s: Seq<u8>, i: int, acc: nat) -> Option<(nat, int)>
    decreases s.len() - i,
{
    if 0 <= i < s.len() && is_digit(s[i]) {
        let acc2 = acc * 10 + (s[i] - 0x30) as nat;
        if acc2 > u64::MAX as nat {
            None
        } else {
            parse_digits(s, i + 1, acc2)
        }
    } else {
        Some((acc, i))
    }
}

/// An integer: optional minus sign, then digits, bounded to the signed
/// 64-bit range.
pub open spec fn parse_number(s: Seq<u8>, i: int) -> Option<(int, int)> {
    if 0 <= i < s.len() && s[i] == 0x2d {
        if i + 1 < s.len() && is_digit(s[i + 1]) {
            match parse_digits(s, i + 1, 0) {
                Some((m, j)) => if m <= 0x8000000000000000nat {
                    Some((-(m as int), j))
                } else {
                    None
                },
                None => None,
            }
        } else {
            None
        }
    } else if 0 <= i < s.len() && is_digit(s[i]) {
        match parse_digits(s, i, 0) {
            Some((m, j)) => if m <= i64::MAX as nat {
                Some((m as int, j))
            } else {
                None
            },
            None => None,
        }
    } else {
        None
    }
}

/// One structured value starting exactly at `i`.
pub open spec fn parse_value(s: Seq<u8>, i: int) -> Option<(JVal, int)>
    decreases s.len() - i, 0int,
{
    if i < 0 || i >= s.len() {
        None
    } else {
        let b = s[i];
        if b == 0x6e {
            if i + 4 <= s.len() && s[i + 1] == 0x75 && s[i + 2] == 0x6c && s[i + 3] == 0x6c {
                Some((JVal::Null, i + 4))
            } else {
                None
            }
        } else if b == 0x74 {
            if i + 4 <= s.len() && s[i + 1] == 0x72 && s[i + 2] == 0x75 && s[i + 3] == 0x65 {
                Some((JVal::Bool(true), i + 4))
            } else {
                None
            }
        } else if b == 0x66 {
            if i + 5 <= s.len() && s[i + 1] == 0x61 && s[i + 2] == 0x6c && s[i + 3] == 0x73 && s[i
                + 4] == 0x65 {
                Some((JVal::Bool(false), i + 5))
            } else {
                None
            }
        } else if b == 0x22 {
            match parse_str_body(s, i + 1) {
                Some((bytes, j)) => if valid_utf8(bytes) {
                    Some((JVal::Str(decode_utf8(bytes)), j))
                } else {
                    None
                },
                None => None,
            }
        } else if b == 0x2d || is_digit(b) {
            match parse_number(s, i) {
                Some((n, j)) => Some((JVal::Int(n), j)),
                None => None,
            }
        } else if b == 0x5b {
            if i + 1 < s.len() && s[i + 1] == 0x5d {
                Some((JVal::Arr(Seq::empty()), i + 2))
            } else {
                match parse_items(s, i + 1) {
                    Some((items, j)) => Some((JVal::Arr(items), j)),
                    None => None,
                }
            }
        } else if b == 0x7b {
            if i + 1 < s.len() && s[i + 1] == 0x7d {
                Some((JVal::Obj(Seq::empty()), i + 2))
            } else {
                match parse_fields(s, i + 1) {
                    Some((fields, j)) => Some((JVal::Obj(fields), j)),
                    None => None,
                }
            }
        } else {
            None
        }
    }
}

/// Array elements from the first value through the closing bracket.
pub open spec fn parse_items(s: Seq<u8>, i: int) -> Option<(Seq<JVal>, int)>
    decreases s.len() - i, 1int,
{
    if i < 0 || i >= s.len() {
        None
    } else {
        match parse_value(s, i) {
            Some((v, j)) => if j < i {
                None
            } else if j < s.len() && s[j] == 0x2c {
                match parse_items(s, j + 1) {
                    Some((rest, k)) => Some((seq![v] + rest, k)),
                    None => None,
                }
            } else if j < s.len() && s[j] == 0x5d {
                Some((seq![v], j + 1))
            } else {
                None
            },
            None => None,
        }
    }
}

/// Object fields from the first key through the closing brace.
pub open spec fn parse_fields(s: Seq<u8>, i: int) -> Option<(Seq<(Seq<char>, JVal)>, int)>
    decreases s.len() - i, 1int,
{
    if i < 0 || i >= s.len() || s[i] != 0x22 {
        None
    } else {
        match parse_str_body(s, i + 1) {
            Some((kbytes, j)) => if !valid_utf8(kbytes) || j < i {
                None
            } else if j < s.len() && s[j] == 0x3a {
                match parse_value(s, j + 1) {
                    Some((v, k)) => if k < j {
                        None
                    } else if k < s.len() && s[k] == 0x2c {
                        match parse_fields(s, k + 1) {
                            Some((rest, m)) => Some(
                                (seq![(decode_utf8(kbytes), v)] + rest, m),
                            ),
                            None => None,
                        }
                    } else if k < s.len() && s[k] == 0x7d {
                        Some((seq![(decode_utf8(kbytes), v)], k + 1))
                    } else {
                        None
                    },
                    None => None,
                }
            } else {
                None
            },
            None => None,
        }
    }
}

/// One whole payload: a single value covering every byte.
pub open spec fn parse_doc(s: Seq<u8>) -> Option<JVal> {
    match parse_value(s, 0) {
        Some((v, j)) => if j == s.len() {
            Some(v)
        } else {
            None
        },
        None => None,
    }
}

/// Relies on `String::from_utf8`: it succeeds exactly on valid UTF-8 and
/// decodes those bytes, as `vstd`'s UTF-8 model states it.
#[verifier::external_body]
fn string_from_utf8(v: Vec<u8>) -> (r: Option<String>)
    ensures
        r is Some <==> valid_utf8(v@),
        r matches Some(s) ==> s@ == decode_utf8(v@),
{
    String::from_utf8(v).ok()
}

fn scan_digits(bytes: &[u8], start: usize, first: u64) -> (r: Option<(u64, usize)>)
    requires
        start <= bytes@.len(),
    ensures
        match r {
            Some((m, j)) => parse_digits(bytes@, start as int, first as nat) == Some(
                (m as nat, j as int),
            ) && start <= j <= bytes@.len(),
            None => parse_digits(bytes@, start as int, first as nat) is None,
        },
{
    let mut acc: u64 = first;
    let mut i: usize = start;
    loop
        invariant
            start <= i <= bytes@.len(),
            parse_digits(bytes@, start as int, first as nat) == parse_digits(
                bytes@,
                i as int,
                acc as nat,
            ),
        decreases bytes@.len() - i,
    {
        if i >= bytes.len() || bytes[i] < 0x30 || bytes[i] > 0x39 {
            return Some((acc, i));
        }
        let d = (bytes[i] - 0x30) as u64;
        let wide: u128 = acc as u128 * 10 + d as u128;
        if wide > u64::MAX as u128 {
            return None;
        }
        acc = wide as u64;
        i = i + 1;
    }
}

fn scan_number(bytes: &[u8], start: usize) -> (r: Option<(i64, usize)>)
    requires
        start <= bytes@.len(),
    ensures
        match r {
            Some((n, j)) => parse_number(bytes@, start as int) == Some((n as int, j as int))
                && start < j <= bytes@.len(),
            None => parse_number(bytes@, start as int) is None,
        },
{
    if start >= bytes.len() {
        return None;
    }
    if bytes[start] == 0x2d {
        if start + 1 >= bytes.len() || bytes[start + 1] < 0x30 || bytes[start + 1] > 0x39 {
            return None;
        }
        let d0 = (bytes[start + 1] - 0x30) as u64;
        assert(parse_digits(bytes@, start + 1 as int, 0nat) == parse_digits(
            bytes@,
            start + 2 as int,
            d0 as nat,
        ));
        match scan_digits(bytes, start + 2, d0) {
            Some((m, j)) => {
                if m > 0x8000000000000000u64 {
                    None
                } else {
                    let n = (-(m as i128)) as i64;
                    Some((n, j))
                }
            },
            None => None,
        }
    } else if bytes[start] >= 0x30 && bytes[start] <= 0x39 {
        let d0 = (bytes[start] - 0x30) as u64;
        assert(parse_digits(bytes@, start as int, 0nat) == parse_digits(
            bytes@,
            start + 1 as int,
            d0 as nat,
        ));
        match scan_digits(bytes, start + 1, d0) {
            Some((m, j)) => {
                if m > i64::MAX as u64 {
                    None
                } else {
                    Some((m as i64, j))
                }
            },
            None => None,
        }
    } else {
        None
    }
}

fn scan_str_body(bytes: &[u8], start: usize) -> (r: Option<(Vec<u8>, usize)>)
    requires
        start <= bytes@.len(),
    ensures
        match r {
            Some(p) => parse_str_body(bytes@, start as int) == Some((p.0@, p.1 as int)) && start
                < p.1 <= bytes@.len(),
            None => parse_str_body(bytes@, start as int) is None,
        },
{
    let mut acc: Vec<u8> = Vec::new();
    let mut i: usize = start;
    proof {
        if let Some((rest, j)) = parse_str_body(bytes@, start as int) {
            assert(Seq::<u8>::empty() + rest =~= rest);
        }
    }
    loop
        invariant
            start <= i <= bytes@.len(),
            parse_str_body(bytes@, start as int) is Some <==> parse_str_body(
                bytes@,
                i as int,
            ) is Some,
            parse_str_body(bytes@, i as int) matches Some((rest, j)) ==> parse_str_body(
                bytes@,
                start as int,
            ) == Some((acc@ + rest, j)),
        decreases bytes@.len() - i,
    {
        if i >= bytes.len() {
            return None;
        }
        let b = bytes[i];
        if b == 0x22 {
            proof {
                assert(acc@ + Seq::<u8>::empty() =~= acc@);
            }
            return Some((acc, i + 1));
        } else if b == 0x5c {
            if i + 1 >= bytes.len() {
                return None;
            }
            let e = bytes[i + 1];
            let unescaped: u8;
            let consumed: usize;
            if e == 0x22 || e == 0x5c || e == 0x2f {
                unescaped = e;
                consumed = 2;
            } else if e == 0x62 {
                unescaped = 0x08;
                consumed = 2;
            } else if e == 0x66 {
                unescaped = 0x0c;
                consumed = 2;
            } else if e == 0x6e {
                unescaped = 0x0a;
                consumed = 2;
            } else if e == 0x72 {
                unescaped = 0x0d;
                consumed = 2;
            } else if e == 0x74 {
                unescaped = 0x09;
                consumed = 2;
            } else if e == 0x75 {
                if bytes.len() - i <= 5 {
                    return None;
                }
                if bytes[i + 2] != 0x30 || bytes[i + 3] != 0x30 {
                    return None;
                }
                let h1 = hex_digit_value(bytes[i + 4]);
                let h2 = hex_digit_value(bytes[i + 5]);
                match (h1, h2) {
                    (Some(hi), Some(lo)) => {
                        if hi >= 8 {
                            return None;
                        }
                        unescaped = hi * 16 + lo;
                        consumed = 6;
                    },
                    _ => {
                        return None;
                    },
                }
            } else {
                return None;
            }
            proof {
                lemma_step_concat(bytes@, start as int, i as int, acc@, unescaped, consumed as int);
            }
            acc.push(unescaped);
            i = i + consumed;
        } else if b >= 0x20 {
            proof {
                lemma_step_concat(bytes@, start as int, i as int, acc@, b, 1);
            }
            acc.push(b);
            i = i + 1;
        } else {
            return None;
        }
    }
}

/// Invariant step of the string scanner: moving one unescaped byte from the
/// input onto the accumulator keeps the relation to the whole-literal parse.
proof fn lemma_step_concat(s: Seq<u8>, start: int, i: int, acc: Seq<u8>, b: u8, consumed: int)
    requires
        parse_str_body(s, i) matches Some((rest0, j0)) ==> parse_str_body(s, start) == Some(
            (acc + rest0, j0),
        ),
        parse_str_body(s, start) is Some <==> parse_str_body(s, i) is Some,
        parse_str_body(s, i) is Some ==> parse_str_body(s, i) == (match parse_str_body(
            s,
            i + consumed,
        ) {
            Some((rest, j)) => Some::<(Seq<u8>, int)>((seq![b] + rest, j)),
            None => None::<(Seq<u8>, int)>,
        }),
        parse_str_body(s, i) is None ==> parse_str_body(s, i + consumed) is None,
        i < i + consumed,
    ensures
        parse_str_body(s, start) is Some <==> parse_str_body(s, i + consumed) is Some,
        parse_str_body(s, i + consumed) matches Some((rest, j)) ==> parse_str_body(s, start)
            == Some((acc.push(b) + rest, j)),
{
    match parse_str_body(s, i + consumed) {
        Some((rest, j)) => {
            if parse_str_body(s, i) is None {
            } else {
                assert(parse_str_body(s, i) == Some((seq![b] + rest, j)));
                assert(acc + (seq![b] + rest) =~= acc.push(b) + rest);
            }
        },
        None => {},
    }
}

fn scan_value(bytes: &[u8], start: usize) -> (r: Option<(Json, usize)>)
    requires
        start <= bytes@.len(),
    ensures
        match r {
            Some(p) => parse_value(bytes@, start as int) == Some((p.0@, p.1 as int)) && start < p.1
                <= bytes@.len(),
            None => parse_value(bytes@, start as int) is None,
        },
    decreases bytes@.len() - start, 0int,
{
    if start >= bytes.len() {
        return None;
    }
    let b = bytes[start];
    if b == 0x6e {
        if bytes.len() - start >= 4 && bytes[start + 1] == 0x75 && bytes[start + 2] == 0x6c
            && bytes[start + 3] == 0x6c {
            Some((Json::Null, start + 4))
        } else {
            None
        }
    } else if b == 0x74 {
        if bytes.len() - start >= 4 && bytes[start + 1] == 0x72 && bytes[start + 2] == 0x75
            && bytes[start + 3] == 0x65 {
            Some((Json::Bool(true), start + 4))
        } else {
            None
        }
    } else if b == 0x66 {
        if bytes.len() - start >= 5 && bytes[start + 1] == 0x61 && bytes[start + 2] == 0x6c
            && bytes[start + 3] == 0x73 && bytes[start + 4] == 0x65 {
            Some((Json::Bool(false), start + 5))
        } else {
            None
        }
    } else if b == 0x22 {
        match scan_str_body(bytes, start + 1) {
            Some((content, j)) => {
                let ghost gcontent = content@;
                match string_from_utf8(content) {
                    Some(s) => Some((Json::Str(s), j)),
                    None => None,
                }
            },
            None => None,
        }
    } else if b == 0x2d || (b >= 0x30 && b <= 0x39) {
        match scan_number(bytes, start) {
            Some((n, j)) => Some((Json::Int(n), j)),
            None => None,
        }
    } else if b == 0x5b {
        if bytes.len() - start >= 2 && bytes[start + 1] == 0x5d {
            let items: Vec<Json> = Vec::new();
            proof {
                assert(jvals_of(items@) =~= Seq::<JVal>::empty());
            }
            Some((Json::Arr(items), start + 2))
        } else {
            match scan_items(bytes, start + 1) {
                Some((items, j)) => Some((Json::Arr(items), j)),
                None => None,
            }
        }
    } else if b == 0x7b {
        if bytes.len() - start >= 2 && bytes[start + 1] == 0x7d {
            let fields: Vec<(String, Json)> = Vec::new();
            proof {
                assert(jobj_of(fields@) =~= Seq::<(Seq<char>, JVal)>::empty());
            }
            Some((Json::Obj(fields), start + 2))
        } else {
            match scan_fields(bytes, start + 1) {
                Some((fields, j)) => Some((Json::Obj(fields), j)),
                None => None,
            }
        }
    } else {
        None
    }
}

fn scan_items(bytes: &[u8], start: usize) -> (r: Option<(Vec<Json>, usize)>)
    requires
        start <= bytes@.len(),
    ensures
        match r {
            Some(p) => parse_items(bytes@, start as int) == Some((jvals_of(p.0@), p.1 as int))
                && start < p.1 <= bytes@.len(),
            None => parse_items(bytes@, start as int) is None,
        },
    decreases bytes@.len() - start, 1int,
{
    broadcast use lemma_jvals_of;

    let mut acc: Vec<Json> = Vec::new();
    let mut i: usize = start;
    proof {
        if let Some((rest, k)) = parse_items(bytes@, start as int) {
            assert(jvals_of(acc@) + rest =~= rest);
        }
    }
    loop
        invariant
            start <= i <= bytes@.len(),
            parse_items(bytes@, start as int) is Some <==> parse_items(bytes@, i as int) is Some,
            parse_items(bytes@, i as int) matches Some((rest, k)) ==> parse_items(
                bytes@,
                start as int,
            ) == Some((jvals_of(acc@) + rest, k)),
        decreases bytes@.len() - i,
    {
        match scan_value(bytes, i) {
            None => {
                return None;
            },
            Some((v, j)) => {
                if j < bytes.len() && bytes[j] == 0x2c {
                    proof {
                        lemma_jvals_of(acc@.push(v));
                        lemma_jvals_of(acc@);
                        if let Some((rest, k)) = parse_items(bytes@, j + 1 as int) {
                            assert(jvals_of(acc@.push(v)) =~= jvals_of(acc@).push(jval_of(v)));
                            assert(jvals_of(acc@) + (seq![jval_of(v)] + rest) =~= jvals_of(
                                acc@.push(v),
                            ) + rest);
                        }
                    }
                    acc.push(v);
                    i = j + 1;
                } else if j < bytes.len() && bytes[j] == 0x5d {
                    proof {
                        lemma_jvals_of(acc@.push(v));
                        lemma_jvals_of(acc@);
                        assert(jvals_of(acc@.push(v)) =~= jvals_of(acc@).push(jval_of(v)));
                        assert(jvals_of(acc@) + seq![jval_of(v)] =~= jvals_of(acc@.push(v)));
                    }
                    acc.push(v);
                    return Some((acc, j + 1));
                } else {
                    return None;
                }
            },
        }
    }
}

fn scan_fields(bytes: &[u8], start: usize) -> (r: Option<(Vec<(String, Json)>, usize)>)
    requires
        start <= bytes@.len(),
    ensures
        match r {
            Some(p) => parse_fields(bytes@, start as int) == Some((jobj_of(p.0@), p.1 as int))
                && start < p.1 <= bytes@.len(),
            None => parse_fields(bytes@, start as int) is None,
        },
    decreases bytes@.len() - start, 1int,
{
    broadcast use lemma_jobj_of;

    let mut acc: Vec<(String, Json)> = Vec::new();
    let mut i: usize = start;
    proof {
        if let Some((rest, k)) = parse_fields(bytes@, start as int) {
            assert(jobj_of(acc@) + rest =~= rest);
        }
    }
    loop
        invariant
            start <= i <= bytes@.len(),
            parse_fields(bytes@, start as int) is Some <==> parse_fields(bytes@, i as int) is Some,
            parse_fields(bytes@, i as int) matches Some((rest, k)) ==> parse_fields(
                bytes@,
                start as int,
            ) == Some((jobj_of(acc@) + rest, k)),
        decreases bytes@.len() - i,
    {
        if i >= bytes.len() || bytes[i] != 0x22 {
            return None;
        }
        match scan_str_body(bytes, i + 1) {
            None => {
                return None;
            },
            Some((kcontent, j)) => {
                let ghost gkey = kcontent@;
                let key = match string_from_utf8(kcontent) {
                    Some(s) => s,
                    None => {
                        return None;
                    },
                };
                if j >= bytes.len() || bytes[j] != 0x3a {
                    return None;
                }
                match scan_value(bytes, j + 1) {
                    None => {
                        return None;
                    },
                    Some((v, k)) => {
                        if k < bytes.len() && bytes[k] == 0x2c {
                            proof {
                                lemma_jobj_of(acc@.push((key, v)));
                                lemma_jobj_of(acc@);
                                if let Some((rest, m)) = parse_fields(bytes@, k + 1 as int) {
                                    assert(jobj_of(acc@.push((key, v))) =~= jobj_of(acc@).push(
                                        (key@, jval_of(v)),
                                    ));
                                    assert(jobj_of(acc@) + (seq![(decode_utf8(gkey), jval_of(v))]
                                        + rest) =~= jobj_of(acc@.push((key, v))) + rest);
                                }
                            }
                            acc.push((key, v));
                            i = k + 1;
                        } else if k < bytes.len() && bytes[k] == 0x7d {
                            proof {
                                lemma_jobj_of(acc@.push((key, v)));
                                lemma_jobj_of(acc@);
                                assert(jobj_of(acc@.push((key, v))) =~= jobj_of(acc@).push(
                                    (key@, jval_of(v)),
                                ));
                                assert(jobj_of(acc@) + seq![(decode_utf8(gkey), jval_of(v))]
                                    =~= jobj_of(acc@.push((key, v))));
                            }
                            acc.push((key, v));
                            return Some((acc, k + 1));
                        } else {
                            return None;
                        }
                    },
                }
            },
        }
    }
}

/// Parses one whole payload. Returns the structured value exactly when the
/// bytes are one well-formed value with nothing before or after it; anything
/// else is a syntax error.
pub fn parse_json(bytes: &[u8]) -> (r: Result<Json, WayfireError>)
    ensures
        match r {
            Ok(v) => parse_doc(bytes@) == Some(v@),
            Err(e) => parse_doc(bytes@) is None && e == WayfireError::Decode(DecodeFault::Syntax),
        },
{
    match scan_value(bytes, 0) {
        Some((v, j)) => {
            if j == bytes.len() {
                Ok(v)
            } else {
                Err(WayfireError::Decode(DecodeFault::Syntax))
            }
        },
        None => Err(WayfireError::Decode(DecodeFault::Syntax)),
    }
}

fn hex_digit_value(b: u8) -> (r: Option<u8>)
    ensures
        match r {
            Some(v) => is_hex(b) && v == hex_val(b) && v < 16,
            None => !is_hex(b),
        },
{
    if b >= 0x30 && b <= 0x39 {
        Some(b - 0x30)
    } else if b >= 0x61 && b <= 0x66 {
        Some(b - 0x57)
    } else if b >= 0x41 && b <= 0x46 {
        Some(b - 0x37)
    } else {
        None
    }
}

} // verus!
