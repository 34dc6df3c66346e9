//! Canonical serialization of structured values to UTF-8 wire bytes.
//!
//! The writer emits compact text: no whitespace, strings escaped byte-wise
//! (quote, backslash, and control bytes; everything else, including multi-byte
//! UTF-8 sequences, passes through unchanged), integers in plain decimal.
//! `ser_jval` is the single source of truth for what the bytes of a value
//! are; the parser's completeness lemmas are stated against it.

use vstd::prelude::*;
use vstd::utf8::encode_utf8;
use crate::json::{Json, JVal, jval_of, jvals_of, jobj_of, lemma_jvals_of, lemma_jobj_of};

verus! {

/// Decimal digit of `d` (`d` is taken modulo ten).
pub open spec fn digit_byte(d: nat) -> u8 {
    (0x30 + (d % 10)) as u8
}

/// Decimal digits of `m`, most significant first.
pub open spec fn ser_digits(m: nat) -> Seq<u8>
    decreases m,
{
    if m < 10 {
        seq![digit_byte(m)]
    } else {
        ser_digits(m / 10).push(digit_byte(m % 10))
    }
}

/// Decimal text of `n`, with a leading minus sign when negative.
pub open spec fn ser_int(n: int) -> Seq<u8> {
    if n < 0 {
        seq![0x2du8] + ser_digits((-n) as nat)
    } else {
        ser_digits(n as nat)
    }
}

/// Lower-case hexadecimal digit of `d` (defined for `d` below sixteen).
pub open spec fn hex_digit(d: u8) -> u8 {
    if d < 10 {
        (0x30 + d) as u8
    } else {
        (0x57 + d) as u8
    }
}

/// Escape of one payload byte inside a string literal.
pub open spec fn esc_byte(b: u8) -> Seq<u8> {
    if b == 0x22 {
        seq![0x5cu8, 0x22u8]
    } else if b == 0x5c {
        seq![0x5cu8, 0x5cu8]
    } else if b < 0x20 {
        seq![0x5cu8, 0x75u8, 0x30u8, 0x30u8, hex_digit(b / 16), hex_digit(b % 16)]
    } else {
        seq![b]
    }
}

/// Byte-wise escape of a string's UTF-8 bytes.
pub open spec fn esc_bytes(s: Seq<u8>) -> Seq<u8>
    decreases s.len(),
{
    if s.len() == 0 {
        Seq::empty()
    } else {
        esc_byte(s[0]) + esc_bytes(s.drop_first())
    }
}

/// A string literal: quote, escaped UTF-8 bytes, quote.
pub open spec fn ser_string(s: Seq<char>) -> Seq<u8> {
    seq![0x22u8] + esc_bytes(encode_utf8(s)) + seq![0x22u8]
}

/// Wire bytes of a structured value.
pub open spec fn ser_jval(v: JVal) -> Seq<u8>
    decreases v, 1int,
{
    match v {
        JVal::Null => seq![0x6eu8, 0x75u8, 0x6cu8, 0x6cu8],
        JVal::Bool(b) => if b {
            seq![0x74u8, 0x72u8, 0x75u8, 0x65u8]
        } else {
            seq![0x66u8, 0x61u8, 0x6cu8, 0x73u8, 0x65u8]
        },
        JVal::Int(n) => ser_int(n),
        JVal::Str(s) => ser_string(s),
        JVal::Arr(items) => seq![0x5bu8] + ser_items(items) + seq![0x5du8],
        JVal::Obj(fields) => seq![0x7bu8] + ser_fields(fields) + seq![0x7du8],
    }
}

/// Comma-separated elements of an array.
pub open spec fn ser_items(items: Seq<JVal>) -> Seq<u8>
    decreases items, 0int,
{
    if items.len() == 0 {
        Seq::empty()
    } else {
        ser_jval(items[0]) + ser_items_rest(items.drop_first())
    }
}

/// Elements after the first, each preceded by a comma.
pub open spec fn ser_items_rest(items: Seq<JVal>) -> Seq<u8>
    decreases items, 0int,
{
    if items.len() == 0 {
        Seq::empty()
    } else {
        seq![0x2cu8] + ser_jval(items[0]) + ser_items_rest(items.drop_first())
    }
}

/// One object field: key string, colon, value.
pub open spec fn ser_field(f: (Seq<char>, JVal)) -> Seq<u8>
    decreases f, 1int,
{
    ser_string(f.0) + seq![0x3au8] + ser_jval(f.1)
}

/// Comma-separated fields of an object.
pub open spec fn ser_fields(fields: Seq<(Seq<char>, JVal)>) -> Seq<u8>
    decreases fields, 0int,
{
    if fields.len() == 0 {
        Seq::empty()
    } else {
        ser_field(fields[0]) + ser_fields_rest(fields.drop_first())
    }
}

/// Fields after the first, each preceded by a comma.
pub open spec fn ser_fields_rest(fields: Seq<(Seq<char>, JVal)>) -> Seq<u8>
    decreases fields, 0int,
{
    if fields.len() == 0 {
        Seq::empty()
    } else {
        seq![0x2cu8] + ser_field(fields[0]) + ser_fields_rest(fields.drop_first())
    }
}

proof fn lemma_esc_bytes_push(s: Seq<u8>, b: u8)
    ensures
        esc_bytes(s.push(b)) == esc_bytes(s) + esc_byte(b),
    decreases s.len(),
{
    if s.len() == 0 {
        assert(s.push(b).drop_first() =~= Seq::<u8>::empty());
        assert(s.push(b)[0] == b);
        assert(esc_bytes(Seq::<u8>::empty()) == Seq::<u8>::empty());
        assert(esc_bytes(s.push(b)) =~= esc_bytes(s) + esc_byte(b));
    } else {
        lemma_esc_bytes_push(s.drop_first(), b);
        assert(s.push(b).drop_first() =~= s.drop_first().push(b));
        assert(esc_bytes(s.push(b)) =~= esc_bytes(s) + esc_byte(b));
    }
}

proof fn lemma_ser_items_rest_push(s: Seq<JVal>, x: JVal)
    ensures
        ser_items_rest(s.push(x)) == ser_items_rest(s) + seq![0x2cu8] + ser_jval(x),
    decreases s.len(),
{
    if s.len() == 0 {
        assert(s.push(x).drop_first() =~= Seq::<JVal>::empty());
        assert(s.push(x)[0] == x);
        assert(ser_items_rest(Seq::<JVal>::empty()) == Seq::<u8>::empty());
        assert(ser_items_rest(s.push(x)) =~= ser_items_rest(s) + seq![0x2cu8] + ser_jval(x));
    } else {
        lemma_ser_items_rest_push(s.drop_first(), x);
        assert(s.push(x).drop_first() =~= s.drop_first().push(x));
        assert(ser_items_rest(s.push(x)) =~= ser_items_rest(s) + seq![0x2cu8] + ser_jval(x));
    }
}

proof fn lemma_ser_fields_rest_push(s: Seq<(Seq<char>, JVal)>, x: (Seq<char>, JVal))
    ensures
        ser_fields_rest(s.push(x)) == ser_fields_rest(s) + seq![0x2cu8] + ser_field(x),
    decreases s.len(),
{
    if s.len() == 0 {
        assert(s.push(x).drop_first() =~= Seq::<(Seq<char>, JVal)>::empty());
        assert(s.push(x)[0] == x);
        assert(ser_fields_rest(Seq::<(Seq<char>, JVal)>::empty()) == Seq::<u8>::empty());
        assert(ser_fields_rest(s.push(x)) =~= ser_fields_rest(s) + seq![0x2cu8] + ser_field(x));
    } else {
        lemma_ser_fields_rest_push(s.drop_first(), x);
        assert(s.push(x).drop_first() =~= s.drop_first().push(x));
        assert(ser_fields_rest(s.push(x)) =~= ser_fields_rest(s) + seq![0x2cu8] + ser_field(x));
    }
}

fn write_digits(m: u64, out: &mut Vec<u8>)
    ensures
        final(out)@ == old(out)@ + ser_digits(m as nat),
    decreases m,
{
    if m < 10 {
        out.push(0x30 + m as u8);
        assert(out@ =~= old(out)@ + ser_digits(m as nat));
    } else {
        write_digits(m / 10, out);
        out.push(0x30 + (m % 10) as u8);
        assert(out@ =~= old(out)@ + ser_digits(m as nat));
    }
}

fn write_int(n: i64, out: &mut Vec<u8>)
    ensures
        final(out)@ == old(out)@ + ser_int(n as int),
{
    if n < 0 {
        out.push(0x2d);
        let mag: u64 = (-(n as i128)) as u64;
        write_digits(mag, out);
        assert(out@ =~= old(out)@ + ser_int(n as int));
    } else {
        write_digits(n as u64, out);
    }
}

fn write_escaped(bytes: &[u8], out: &mut Vec<u8>)
    ensures
        final(out)@ == old(out)@ + esc_bytes(bytes@),
{
    let n = bytes.len();
    assert(bytes@.take(0) =~= Seq::<u8>::empty());
    assert(esc_bytes(bytes@.take(0)) =~= Seq::<u8>::empty());
    for i in 0..n
        invariant
            n == bytes@.len(),
            out@ == old(out)@ + esc_bytes(bytes@.take(i as int)),
    {
        let b = bytes[i];
        if b == 0x22 {
            out.push(0x5c);
            out.push(0x22);
        } else if b == 0x5c {
            out.push(0x5c);
            out.push(0x5c);
        } else if b < 0x20 {
            out.push(0x5c);
            out.push(0x75);
            out.push(0x30);
            out.push(0x30);
            let hi = b / 16;
            let lo = b % 16;
            out.push(if hi < 10 { 0x30 + hi } else { 0x57 + hi });
            out.push(if lo < 10 { 0x30 + lo } else { 0x57 + lo });
        } else {
            out.push(b);
        }
        proof {
            lemma_esc_bytes_push(bytes@.take(i as int), b);
            assert(bytes@.take(i + 1 as int) =~= bytes@.take(i as int).push(bytes@[i as int]));
            assert(out@ =~= old(out)@ + esc_bytes(bytes@.take(i + 1 as int)));
        }
    }
    assert(bytes@.take(n as int) =~= bytes@);
}

fn write_string(s: &str, out: &mut Vec<u8>)
    ensures
        final(out)@ == old(out)@ + ser_string(s@),
{
    out.push(0x22);
    write_escaped(s.as_bytes(), out);
    out.push(0x22);
    assert(out@ =~= old(out)@ + ser_string(s@));
}

fn write_json(v: &Json, out: &mut Vec<u8>)
    ensures
        final(out)@ == old(out)@ + ser_jval(jval_of(*v)),
    decreases *v, 1int,
{
    match v {
        Json::Null => {
            out.push(0x6e);
            out.push(0x75);
            out.push(0x6c);
            out.push(0x6c);
            assert(out@ =~= old(out)@ + ser_jval(jval_of(*v)));
        },
        Json::Bool(b) => {
            if *b {
                out.push(0x74);
                out.push(0x72);
                out.push(0x75);
                out.push(0x65);
            } else {
                out.push(0x66);
                out.push(0x61);
                out.push(0x6c);
                out.push(0x73);
                out.push(0x65);
            }
            assert(out@ =~= old(out)@ + ser_jval(jval_of(*v)));
        },
        Json::Int(n) => {
            write_int(*n, out);
        },
        Json::Str(s) => {
            write_string(s.as_str(), out);
        },
        Json::Arr(items) => {
            out.push(0x5b);
            write_items(items, out);
            out.push(0x5d);
            assert(out@ =~= old(out)@ + ser_jval(jval_of(*v)));
        },
        Json::Obj(fields) => {
            out.push(0x7b);
            write_fields(fields, out);
            out.push(0x7d);
            assert(out@ =~= old(out)@ + ser_jval(jval_of(*v)));
        },
    }
}

fn write_items(items: &Vec<Json>, out: &mut Vec<u8>)
    ensures
        final(out)@ == old(out)@ + ser_items(jvals_of(items@)),
    decreases items@, 0int,
{
    broadcast use lemma_jvals_of;

    let ghost s = jvals_of(items@);
    let n = items.len();
    if n == 0 {
        return ;
    }
    proof {
        assert(decreases_to!(items@ => items@[0]));
    }
    write_json(&items[0], out);
    proof {
        assert(s.drop_first().take(0) =~= Seq::<JVal>::empty());
    }
    for i in 1..n
        invariant
            n == items@.len(),
            s == jvals_of(items@),
            s.len() == n,
            forall|k: int| 0 <= k < n ==> s[k] == jval_of(items@[k]),
            out@ == old(out)@ + ser_jval(s[0]) + ser_items_rest(s.drop_first().take(i - 1 as int)),
    {
        out.push(0x2c);
        proof {
            assert(decreases_to!(items@ => items@[i as int]));
        }
        write_json(&items[i], out);
        proof {
            lemma_ser_items_rest_push(s.drop_first().take(i - 1 as int), s[i as int]);
            assert(s.drop_first().take(i as int) =~= s.drop_first().take(i - 1 as int).push(
                s[i as int],
            ));
            assert(out@ =~= old(out)@ + ser_jval(s[0]) + ser_items_rest(
                s.drop_first().take(i as int),
            ));
        }
    }
    proof {
        assert(s.drop_first().take(n - 1 as int) =~= s.drop_first());
        assert(out@ =~= old(out)@ + ser_items(s));
    }
}

fn write_fields(fields: &Vec<(String, Json)>, out: &mut Vec<u8>)
    ensures
        final(out)@ == old(out)@ + ser_fields(jobj_of(fields@)),
    decreases fields@, 0int,
{
    broadcast use lemma_jobj_of;

    let ghost s = jobj_of(fields@);
    let n = fields.len();
    if n == 0 {
        return ;
    }
    proof {
        assert(decreases_to!(fields@ => fields@[0]));
        assert(decreases_to!(fields@[0] => fields@[0].1));
    }
    write_string(fields[0].0.as_str(), out);
    out.push(0x3a);
    write_json(&fields[0].1, out);
    proof {
        assert(out@ =~= old(out)@ + ser_field(s[0]));
        assert(s.drop_first().take(0) =~= Seq::<(Seq<char>, JVal)>::empty());
    }
    for i in 1..n
        invariant
            n == fields@.len(),
            s == jobj_of(fields@),
            s.len() == n,
            forall|k: int| 0 <= k < n ==> s[k] == (fields@[k].0@, jval_of(fields@[k].1)),
            out@ == old(out)@ + ser_field(s[0]) + ser_fields_rest(
                s.drop_first().take(i - 1 as int),
            ),
    {
        out.push(0x2c);
        proof {
            assert(decreases_to!(fields@ => fields@[i as int]));
            assert(decreases_to!(fields@[i as int] => fields@[i as int].1));
        }
        let ghost before = out@;
        write_string(fields[i].0.as_str(), out);
        out.push(0x3a);
        write_json(&fields[i].1, out);
        proof {
            assert(out@ =~= before + ser_field(s[i as int]));
            lemma_ser_fields_rest_push(s.drop_first().take(i - 1 as int), s[i as int]);
            assert(s.drop_first().take(i as int) =~= s.drop_first().take(i - 1 as int).push(
                s[i as int],
            ));
            assert(out@ =~= old(out)@ + ser_field(s[0]) + ser_fields_rest(
                s.drop_first().take(i as int),
            ));
        }
    }
    proof {
        assert(s.drop_first().take(n - 1 as int) =~= s.drop_first());
        assert(out@ =~= old(out)@ + ser_fields(s));
    }
}

/// Wire bytes of `v`: exactly `ser_jval(v@)`.
pub fn to_bytes(v: &Json) -> (r: Vec<u8>)
    ensures
        r@ == ser_jval(v@),
{
    let mut out: Vec<u8> = Vec::new();
    write_json(v, &mut out);
    out
}

} // verus!
