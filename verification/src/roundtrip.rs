//! Completeness of the parser over the serializer's output.
//!
//! The main result, `lemma_parse_doc_ser`, states the codec round trip: the
//! bytes `ser_jval(v)` of any bounded structured value parse back to exactly
//! `v`. It is proved by structural induction on the value, with dedicated
//! lemmas for decimal digit runs and escaped string bodies.

use vstd::prelude::*;
use vstd::utf8::{
    encode_utf8, decode_utf8, valid_utf8, encode_utf8_valid_utf8, encode_utf8_decode_utf8,
};
use crate::json::JVal;
use crate::parse::{
    is_digit, is_hex, hex_val, parse_str_body, parse_digits, parse_number, parse_value,
    parse_items, parse_fields, parse_doc,
};
use crate::ser::{
    digit_byte, ser_digits, ser_int, hex_digit, esc_byte, esc_bytes, ser_string, ser_jval,
    ser_items, ser_items_rest, ser_field, ser_fields, ser_fields_rest,
};

verus! {

/// The window of `s` starting at `i` holds exactly the bytes `w`.
pub open spec fn bytes_at(s: Seq<u8>, i: int, w: Seq<u8>) -> bool {
    0 <= i && i + w.len() <= s.len() && s.subrange(i, i + w.len()) == w
}

proof fn lemma_bytes_at_split(s: Seq<u8>, i: int, a: Seq<u8>, b: Seq<u8>)
    requires
        bytes_at(s, i, a + b),
    ensures
        bytes_at(s, i, a),
        bytes_at(s, i + a.len(), b),
{
    assert(s.subrange(i, i + a.len()) =~= (a + b).subrange(0, a.len() as int));
    assert((a + b).subrange(0, a.len() as int) =~= a);
    assert(s.subrange(i + a.len(), i + a.len() + b.len()) =~= (a + b).subrange(
        a.len() as int,
        (a + b).len() as int,
    ));
    assert((a + b).subrange(a.len() as int, (a + b).len() as int) =~= b);
}

proof fn lemma_bytes_at_index(s: Seq<u8>, i: int, w: Seq<u8>, k: int)
    requires
        bytes_at(s, i, w),
        0 <= k < w.len(),
    ensures
        s[i + k] == w[k],
{
    assert(s.subrange(i, i + w.len())[k] == s[i + k]);
}

/// Values whose integers fit the signed 64-bit range; every value built by
/// the executable scanner or held in a `Json` is bounded.
pub open spec fn jval_bounded(v: JVal) -> bool
    decreases v, 1int,
{
    match v {
        JVal::Null => true,
        JVal::Bool(_) => true,
        JVal::Int(n) => i64::MIN <= n <= i64::MAX,
        JVal::Str(_) => true,
        JVal::Arr(items) => jvals_bounded(items),
        JVal::Obj(fields) => jfields_bounded(fields),
    }
}

pub open spec fn jvals_bounded(items: Seq<JVal>) -> bool
    decreases items, 0int,
{
    if items.len() == 0 {
        true
    } else {
        jval_bounded(items[0]) && jvals_bounded(items.drop_first())
    }
}

pub open spec fn jfields_bounded(fields: Seq<(Seq<char>, JVal)>) -> bool
    decreases fields, 0int,
{
    if fields.len() == 0 {
        true
    } else {
        jval_bounded(fields[0].1) && jfields_bounded(fields.drop_first())
    }
}

/// The model of every executable value is bounded.
pub proof fn lemma_jval_of_bounded(j: crate::json::Json)
    ensures
        jval_bounded(crate::json::jval_of(j)),
    decreases j, 1int,
{
    match j {
        crate::json::Json::Arr(items) => {
            lemma_jvals_of_bounded(items@);
        },
        crate::json::Json::Obj(fields) => {
            lemma_jobj_of_bounded(fields@);
        },
        _ => {},
    }
}

proof fn lemma_jvals_of_bounded(items: Seq<crate::json::Json>)
    ensures
        jvals_bounded(crate::json::jvals_of(items)),
    decreases items, 0int,
{
    if items.len() > 0 {
        lemma_jval_of_bounded(items[0]);
        lemma_jvals_of_bounded(items.drop_first());
        assert((seq![crate::json::jval_of(items[0])] + crate::json::jvals_of(
            items.drop_first(),
        )).drop_first() =~= crate::json::jvals_of(items.drop_first()));
    }
}

proof fn lemma_jobj_of_bounded(fields: Seq<(String, crate::json::Json)>)
    ensures
        jfields_bounded(crate::json::jobj_of(fields)),
    decreases fields, 0int,
{
    if fields.len() > 0 {
        lemma_jval_of_bounded(fields[0].1);
        lemma_jobj_of_bounded(fields.drop_first());
        assert((seq![(fields[0].0@, crate::json::jval_of(fields[0].1))] + crate::json::jobj_of(
            fields.drop_first(),
        )).drop_first() =~= crate::json::jobj_of(fields.drop_first()));
    }
}

pub open spec fn pow10(k: nat) -> nat
    decreases k,
{
    if k == 0 {
        1
    } else {
        10 * pow10((k - 1) as nat)
    }
}

/// Numeric value of a run of digit bytes, most significant first.
pub open spec fn digits_val(ds: Seq<u8>) -> nat
    decreases ds.len(),
{
    if ds.len() == 0 {
        0
    } else {
        (ds[0] - 0x30) as nat * pow10((ds.len() - 1) as nat) + digits_val(ds.drop_first())
    }
}

proof fn lemma_digits_val_push(ds: Seq<u8>, d: u8)
    requires
        forall|k: int| 0 <= k < ds.len() ==> is_digit(ds[k]),
    ensures
        digits_val(ds.push(d)) == 10 * digits_val(ds) + (d - 0x30) as nat,
    decreases ds.len(),
{
    if ds.len() == 0 {
        assert(ds.push(d).drop_first() =~= Seq::<u8>::empty());
        assert(pow10(0) == 1);
        assert(digits_val(Seq::<u8>::empty()) == 0);
        assert(ds.push(d)[0] == d);
        assert(digits_val(ds) == 0);
        assert((d - 0x30) as nat * pow10(0) == (d - 0x30) as nat) by (nonlinear_arith)
            requires
                pow10(0) == 1,
        ;
        assert(digits_val(ds.push(d)) == (d - 0x30) as nat);
    } else {
        lemma_digits_val_push(ds.drop_first(), d);
        assert(ds.push(d).drop_first() =~= ds.drop_first().push(d));
        let h = (ds[0] - 0x30) as nat;
        let dd = (d - 0x30) as nat;
        assert(ds.push(d).len() - 1 == ds.len());
        assert(pow10(ds.len() as nat) == 10 * pow10((ds.len() - 1) as nat));
        assert(ds.push(d)[0] == ds[0]);
        assert(digits_val(ds.push(d)) == h * pow10(ds.len() as nat) + digits_val(
            ds.drop_first().push(d),
        ));
        assert(digits_val(ds.drop_first().push(d)) == 10 * digits_val(ds.drop_first()) + dd);
        assert(h * pow10(ds.len() as nat) == 10 * (h * pow10((ds.len() - 1) as nat)))
            by (nonlinear_arith)
            requires
                pow10(ds.len() as nat) == 10 * pow10((ds.len() - 1) as nat),
        ;
        assert(digits_val(ds) == h * pow10((ds.len() - 1) as nat) + digits_val(ds.drop_first()));
    }
}

/// `ser_digits(m)` is a non-empty run of digit bytes spelling `m`.
proof fn lemma_ser_digits_val(m: nat)
    ensures
        ser_digits(m).len() >= 1,
        forall|k: int| 0 <= k < ser_digits(m).len() ==> is_digit(ser_digits(m)[k]),
        digits_val(ser_digits(m)) == m,
    decreases m,
{
    if m < 10 {
        assert(ser_digits(m) =~= seq![digit_byte(m)]);
        assert(ser_digits(m).drop_first() =~= Seq::<u8>::empty());
        assert(pow10(0) == 1);
        assert(digits_val(Seq::<u8>::empty()) == 0);
        assert(digit_byte(m) == 0x30 + m);
        assert(ser_digits(m)[0] == digit_byte(m));
        assert((digit_byte(m) - 0x30) as nat * pow10(0) == (digit_byte(m) - 0x30) as nat)
            by (nonlinear_arith)
            requires
                pow10(0) == 1,
        ;
        assert(digits_val(ser_digits(m)) == m);
    } else {
        lemma_ser_digits_val(m / 10);
        lemma_digits_val_push(ser_digits(m / 10), digit_byte(m % 10));
        assert(digits_val(ser_digits(m)) == 10 * (m / 10) + m % 10);
    }
}

/// The digit scanner consumes a whole digit run, accumulating its value.
proof fn lemma_digits_run(s: Seq<u8>, i: int, ds: Seq<u8>, acc: nat)
    requires
        bytes_at(s, i, ds),
        forall|k: int| 0 <= k < ds.len() ==> is_digit(ds[k]),
        i + ds.len() == s.len() || !is_digit(s[i + ds.len()]),
        acc * pow10(ds.len() as nat) + digits_val(ds) <= u64::MAX,
    ensures
        parse_digits(s, i, acc) == Some(
            ((acc * pow10(ds.len() as nat) + digits_val(ds)) as nat, i + ds.len()),
        ),
    decreases ds.len(),
{
    if ds.len() == 0 {
        assert(pow10(0) == 1);
        assert(digits_val(ds) == 0);
        assert(acc * pow10(0) == acc) by (nonlinear_arith)
            requires
                pow10(0) == 1,
        ;
        assert(parse_digits(s, i, acc) == Some((acc, i)));
    } else {
        lemma_bytes_at_index(s, i, ds, 0);
        let d0 = (ds[0] - 0x30) as nat;
        let acc2 = acc * 10 + d0;
        let rest = ds.drop_first();
        assert(bytes_at(s, i + 1, rest)) by {
            assert(ds =~= seq![ds[0]] + rest);
            lemma_bytes_at_split(s, i, seq![ds[0]], rest);
        }
        assert(acc * pow10(ds.len() as nat) == acc2 * pow10(rest.len() as nat) - d0 * pow10(
            rest.len() as nat,
        )) by (nonlinear_arith)
            requires
                pow10(ds.len() as nat) == 10 * pow10(rest.len() as nat),
                acc2 == acc * 10 + d0,
        ;
        assert(digits_val(ds) == d0 * pow10(rest.len() as nat) + digits_val(rest));
        assert(acc2 * pow10(rest.len() as nat) + digits_val(rest) == acc * pow10(ds.len() as nat)
            + digits_val(ds));
        assert(pow10(rest.len() as nat) >= 1) by {
            lemma_pow10_pos(rest.len() as nat);
        }
        assert(acc2 <= acc2 * pow10(rest.len() as nat)) by (nonlinear_arith)
            requires
                pow10(rest.len() as nat) >= 1,
                acc2 >= 0,
        ;
        lemma_digits_run(s, i + 1, rest, acc2);
    }
}

proof fn lemma_pow10_pos(k: nat)
    ensures
        pow10(k) >= 1,
    decreases k,
{
    if k > 0 {
        lemma_pow10_pos((k - 1) as nat);
    }
}

/// Parsing the serialized form of a bounded integer yields that integer.
proof fn lemma_parse_ser_int(s: Seq<u8>, i: int, n: int)
    requires
        i64::MIN <= n <= i64::MAX,
        bytes_at(s, i, ser_int(n)),
        i + ser_int(n).len() == s.len() || !is_digit(s[i + ser_int(n).len()]),
    ensures
        parse_number(s, i) == Some((n, i + ser_int(n).len())),
{
    if n < 0 {
        let m = (-n) as nat;
        lemma_ser_digits_val(m);
        assert(ser_int(n) =~= seq![0x2du8] + ser_digits(m));
        lemma_bytes_at_split(s, i, seq![0x2du8], ser_digits(m));
        lemma_bytes_at_index(s, i, ser_int(n), 0);
        lemma_bytes_at_index(s, i + 1, ser_digits(m), 0);
        lemma_pow10_pos(ser_digits(m).len() as nat);
        lemma_digits_run(s, i + 1, ser_digits(m), 0);
        assert(parse_digits(s, i + 1, 0) == Some((m, i + 1 + ser_digits(m).len())));
    } else {
        let m = n as nat;
        lemma_ser_digits_val(m);
        assert(ser_int(n) =~= ser_digits(m));
        lemma_bytes_at_index(s, i, ser_digits(m), 0);
        lemma_digits_run(s, i, ser_digits(m), 0);
    }
}

proof fn lemma_hex_digit(x: u8)
    requires
        x < 16,
    ensures
        is_hex(hex_digit(x)),
        hex_val(hex_digit(x)) == x,
{
}

/// Parsing an escaped string body (followed by its closing quote) yields the
/// original content bytes.
proof fn lemma_parse_esc(s: Seq<u8>, i: int, bs: Seq<u8>)
    requires
        bytes_at(s, i, esc_bytes(bs)),
        i + esc_bytes(bs).len() < s.len(),
        s[i + esc_bytes(bs).len()] == 0x22,
    ensures
        parse_str_body(s, i) == Some((bs, i + esc_bytes(bs).len() + 1)),
    decreases bs.len(),
{
    if bs.len() == 0 {
        assert(parse_str_body(s, i) == Some((Seq::<u8>::empty(), i + 1)));
        assert(bs =~= Seq::<u8>::empty());
    } else {
        let b0 = bs[0];
        let e0 = esc_byte(b0);
        let rest = bs.drop_first();
        assert(esc_bytes(bs) == e0 + esc_bytes(rest));
        lemma_bytes_at_split(s, i, e0, esc_bytes(rest));
        lemma_parse_esc(s, i + e0.len(), rest);
        if b0 == 0x22 || b0 == 0x5c {
            lemma_bytes_at_index(s, i, e0, 0);
            lemma_bytes_at_index(s, i, e0, 1);
            assert(parse_str_body(s, i) == Some((seq![b0] + rest, i + esc_bytes(bs).len() + 1)));
            assert(seq![b0] + rest =~= bs);
        } else if b0 < 0x20 {
            lemma_bytes_at_index(s, i, e0, 0);
            lemma_bytes_at_index(s, i, e0, 1);
            lemma_bytes_at_index(s, i, e0, 2);
            lemma_bytes_at_index(s, i, e0, 3);
            lemma_bytes_at_index(s, i, e0, 4);
            lemma_bytes_at_index(s, i, e0, 5);
            lemma_hex_digit(b0 / 16);
            lemma_hex_digit(b0 % 16);
            assert(s[i + 4] == hex_digit(b0 / 16));
            assert(s[i + 5] == hex_digit(b0 % 16));
            assert(hex_val(s[i + 4]) < 8);
            assert((hex_val(s[i + 4]) * 16 + hex_val(s[i + 5])) as u8 == b0);
            assert(parse_str_body(s, i) == Some((seq![b0] + rest, i + esc_bytes(bs).len() + 1)));
            assert(seq![b0] + rest =~= bs);
        } else {
            lemma_bytes_at_index(s, i, e0, 0);
            assert(s[i] == b0);
            assert(parse_str_body(s, i) == Some((seq![b0] + rest, i + esc_bytes(bs).len() + 1)));
            assert(seq![b0] + rest =~= bs);
        }
    }
}

/// The first byte of a serialized value is a value opener, never a
/// separator or closer.
proof fn lemma_ser_first(v: JVal)
    ensures
        ser_jval(v).len() >= 1,
        ser_jval(v)[0] != 0x5d,
        ser_jval(v)[0] != 0x7d,
        !is_digit(0x5d),
        !is_digit(0x7d),
        !is_digit(0x2c),
{
    match v {
        JVal::Int(n) => {
            if n < 0 {
            } else {
                lemma_ser_digits_val(n as nat);
                assert(ser_jval(v)[0] == ser_digits(n as nat)[0]);
            }
        },
        _ => {},
    }
}

/// Parsing the serialized bytes of a bounded value, at their position in a
/// larger buffer, yields exactly that value.
#[verifier::rlimit(100)]
#[verifier::spinoff_prover]
pub proof fn lemma_parse_ser_value(s: Seq<u8>, i: int, v: JVal)
    requires
        jval_bounded(v),
        bytes_at(s, i, ser_jval(v)),
        i + ser_jval(v).len() == s.len() || !is_digit(s[i + ser_jval(v).len()]),
    ensures
        parse_value(s, i) == Some((v, i + ser_jval(v).len())),
    decreases v, 0int,
{
    let w = ser_jval(v);
    match v {
        JVal::Null => {
            lemma_bytes_at_index(s, i, w, 0);
            lemma_bytes_at_index(s, i, w, 1);
            lemma_bytes_at_index(s, i, w, 2);
            lemma_bytes_at_index(s, i, w, 3);
            assert(parse_value(s, i) == Some((v, i + 4)));
        },
        JVal::Bool(b) => {
            lemma_bytes_at_index(s, i, w, 0);
            lemma_bytes_at_index(s, i, w, 1);
            lemma_bytes_at_index(s, i, w, 2);
            lemma_bytes_at_index(s, i, w, 3);
            if !b {
                lemma_bytes_at_index(s, i, w, 4);
            }
            assert(parse_value(s, i) == Some((v, i + w.len())));
        },
        JVal::Int(n) => {
            lemma_bytes_at_index(s, i, w, 0);
            if n < 0 {
                lemma_ser_digits_val((-n) as nat);
                assert(w[0] == 0x2d);
            } else {
                lemma_ser_digits_val(n as nat);
                assert(w[0] == ser_digits(n as nat)[0]);
            }
            lemma_parse_ser_int(s, i, n);
            assert(parse_value(s, i) == Some((v, i + w.len())));
        },
        JVal::Str(cs) => {
            lemma_bytes_at_index(s, i, w, 0);
            lemma_parse_ser_string(s, i, cs);
            assert(parse_value(s, i) == Some((v, i + w.len())));
        },
        JVal::Arr(items) => {
            lemma_bytes_at_index(s, i, w, 0);
            assert(w[0] == 0x5b);
            if items.len() == 0 {
                assert(w =~= seq![0x5bu8, 0x5du8]);
                lemma_bytes_at_index(s, i, w, 1);
                assert(i + 1 < s.len());
                assert(s[i + 1] == 0x5d);
                assert(s[i] == 0x5b);
                assert(!is_digit(s[i]));
                assert(parse_value(s, i) == Some((JVal::Arr(Seq::empty()), i + 2)));
                assert(items =~= Seq::<JVal>::empty());
                assert(v == JVal::Arr(Seq::<JVal>::empty()));
            } else {
                assert(w =~= seq![0x5bu8] + (ser_items(items) + seq![0x5du8]));
                lemma_bytes_at_split(s, i, seq![0x5bu8], ser_items(items) + seq![0x5du8]);
                lemma_ser_first(items[0]);
                assert(ser_items(items)[0] == ser_jval(items[0])[0]);
                lemma_bytes_at_index(s, i + 1, ser_items(items) + seq![0x5du8], 0);
                assert(s[i + 1] != 0x5d);
                lemma_parse_ser_items(s, i + 1, items);
                assert(parse_value(s, i) == Some((v, i + w.len())));
            }
        },
        JVal::Obj(fields) => {
            lemma_bytes_at_index(s, i, w, 0);
            assert(w[0] == 0x7b);
            if fields.len() == 0 {
                assert(w =~= seq![0x7bu8, 0x7du8]);
                lemma_bytes_at_index(s, i, w, 1);
                assert(i + 1 < s.len());
                assert(s[i + 1] == 0x7d);
                assert(s[i] == 0x7b);
                assert(!is_digit(s[i]));
                assert(parse_value(s, i) == Some((JVal::Obj(Seq::empty()), i + 2)));
                assert(fields =~= Seq::<(Seq<char>, JVal)>::empty());
                assert(v == JVal::Obj(Seq::<(Seq<char>, JVal)>::empty()));
            } else {
                assert(w =~= seq![0x7bu8] + (ser_fields(fields) + seq![0x7du8]));
                lemma_bytes_at_split(s, i, seq![0x7bu8], ser_fields(fields) + seq![0x7du8]);
                assert(ser_field(fields[0]) == ser_string(fields[0].0) + seq![0x3au8] + ser_jval(
                    fields[0].1,
                ));
                assert(ser_fields(fields)[0] == ser_string(fields[0].0)[0]);
                lemma_bytes_at_index(s, i + 1, ser_fields(fields) + seq![0x7du8], 0);
                assert(s[i + 1] != 0x7d);
                lemma_parse_ser_fields(s, i + 1, fields);
                assert(parse_value(s, i) == Some((v, i + w.len())));
            }
        },
    }
}

/// Parsing serialized array elements followed by the closing bracket yields
/// exactly those elements.
proof fn lemma_parse_ser_items(s: Seq<u8>, i: int, items: Seq<JVal>)
    requires
        jvals_bounded(items),
        items.len() >= 1,
        bytes_at(s, i, ser_items(items) + seq![0x5du8]),
    ensures
        parse_items(s, i) == Some((items, i + ser_items(items).len() + 1)),
    decreases items, 1int,
{
    let first = items[0];
    let rest = items.drop_first();
    let w0 = ser_jval(first);
    assert(ser_items(items) == w0 + ser_items_rest(rest));
    if rest.len() == 0 {
        assert(ser_items_rest(rest) =~= Seq::<u8>::empty());
        assert(ser_items(items) + seq![0x5du8] =~= w0 + seq![0x5du8]);
        lemma_bytes_at_split(s, i, w0, seq![0x5du8]);
        lemma_bytes_at_index(s, i + w0.len(), seq![0x5du8], 0);
        lemma_ser_first(first);
        lemma_parse_ser_value(s, i, first);
        assert(parse_items(s, i) == Some((seq![first], i + w0.len() + 1)));
        assert(seq![first] =~= items);
    } else {
        assert(ser_items_rest(rest) == seq![0x2cu8] + ser_items(rest)) by {
            assert(ser_items(rest) == ser_jval(rest[0]) + ser_items_rest(rest.drop_first()));
            assert(ser_items_rest(rest) =~= seq![0x2cu8] + ser_items(rest));
        }
        assert(ser_items(items) + seq![0x5du8] =~= w0 + (seq![0x2cu8] + (ser_items(rest)
            + seq![0x5du8])));
        lemma_bytes_at_split(s, i, w0, seq![0x2cu8] + (ser_items(rest) + seq![0x5du8]));
        lemma_bytes_at_split(s, i + w0.len(), seq![0x2cu8], ser_items(rest) + seq![0x5du8]);
        lemma_bytes_at_index(s, i + w0.len(), seq![0x2cu8], 0);
        lemma_ser_first(first);
        lemma_parse_ser_value(s, i, first);
        lemma_parse_ser_items(s, i + w0.len() + 1, rest);
        assert(parse_items(s, i) == Some(
            (seq![first] + rest, i + w0.len() + 1 + ser_items(rest).len() + 1),
        ));
        assert(seq![first] + rest =~= items);
        assert(ser_items(items).len() == w0.len() + 1 + ser_items(rest).len());
    }
}

/// Parsing serialized object fields followed by the closing brace yields
/// exactly those fields.
proof fn lemma_parse_ser_fields(s: Seq<u8>, i: int, fields: Seq<(Seq<char>, JVal)>)
    requires
        jfields_bounded(fields),
        fields.len() >= 1,
        bytes_at(s, i, ser_fields(fields) + seq![0x7du8]),
    ensures
        parse_fields(s, i) == Some((fields, i + ser_fields(fields).len() + 1)),
    decreases fields, 1int,
{
    let f0 = fields[0];
    let rest = fields.drop_first();
    let key = ser_string(f0.0);
    let w0 = ser_jval(f0.1);
    assert(ser_fields(fields) == ser_field(f0) + ser_fields_rest(rest));
    assert(ser_field(f0) == key + seq![0x3au8] + ser_jval(f0.1));
    let close: Seq<u8> = if rest.len() == 0 {
        seq![0x7du8]
    } else {
        seq![0x2cu8] + (ser_fields(rest) + seq![0x7du8])
    };
    if rest.len() == 0 {
        assert(ser_fields_rest(rest) =~= Seq::<u8>::empty());
    } else {
        assert(ser_fields_rest(rest) == seq![0x2cu8] + ser_fields(rest)) by {
            assert(ser_fields(rest) == ser_field(rest[0]) + ser_fields_rest(rest.drop_first()));
            assert(ser_fields_rest(rest) =~= seq![0x2cu8] + ser_fields(rest));
        }
    }
    assert(ser_fields(fields) + seq![0x7du8] =~= key + (seq![0x3au8] + (w0 + close)));
    lemma_bytes_at_split(s, i, key, seq![0x3au8] + (w0 + close));
    lemma_bytes_at_split(s, i + key.len(), seq![0x3au8], w0 + close);
    lemma_bytes_at_split(s, i + key.len() + 1, w0, close);
    lemma_bytes_at_index(s, i, key, 0);
    lemma_bytes_at_index(s, i + key.len(), seq![0x3au8], 0);
    lemma_bytes_at_index(s, i + key.len() + 1 + w0.len(), close, 0);
    lemma_parse_ser_string(s, i, f0.0);
    lemma_ser_first(f0.1);
    lemma_parse_ser_value(s, i + key.len() + 1, f0.1);
    let kend = i + key.len();
    let vend = i + key.len() + 1 + w0.len();
    if rest.len() == 0 {
        assert(s[vend] == 0x7d);
        assert(parse_fields(s, i) == Some((seq![(f0.0, f0.1)], vend + 1)));
        assert(seq![(f0.0, f0.1)] =~= fields);
    } else {
        assert(s[vend] == 0x2c);
        assert(bytes_at(s, vend + 1, ser_fields(rest) + seq![0x7du8])) by {
            lemma_bytes_at_split(s, vend, seq![0x2cu8], ser_fields(rest) + seq![0x7du8]);
        }
        lemma_parse_ser_fields(s, vend + 1, rest);
        assert(parse_fields(s, i) == Some(
            (seq![(f0.0, f0.1)] + rest, vend + 1 + ser_fields(rest).len() + 1),
        ));
        assert(seq![(f0.0, f0.1)] + rest =~= fields);
        assert(ser_fields(fields).len() == key.len() + 1 + w0.len() + 1 + ser_fields(rest).len());
    }
}

/// Codec round trip: the serialized bytes of any bounded value parse back to
/// exactly that value.
pub proof fn lemma_parse_doc_ser(v: JVal)
    requires
        jval_bounded(v),
    ensures
        parse_doc(ser_jval(v)) == Some(v),
{
    let s = ser_jval(v);
    assert(s.subrange(0, s.len() as int) =~= s);
    lemma_parse_ser_value(s, 0, v);
}

/// Parsing a serialized string literal yields the original characters.
proof fn lemma_parse_ser_string(s: Seq<u8>, i: int, cs: Seq<char>)
    requires
        bytes_at(s, i, ser_string(cs)),
    ensures
        parse_str_body(s, i + 1) == Some((encode_utf8(cs), i + ser_string(cs).len())),
        valid_utf8(encode_utf8(cs)),
        decode_utf8(encode_utf8(cs)) == cs,
{
    let body = esc_bytes(encode_utf8(cs));
    assert(ser_string(cs) =~= seq![0x22u8] + (body + seq![0x22u8]));
    lemma_bytes_at_split(s, i, seq![0x22u8], body + seq![0x22u8]);
    lemma_bytes_at_split(s, i + 1, body, seq![0x22u8]);
    lemma_bytes_at_index(s, i + 1 + body.len(), seq![0x22u8], 0);
    lemma_parse_esc(s, i + 1, encode_utf8(cs));
    encode_utf8_valid_utf8(cs);
    encode_utf8_decode_utf8(cs);
}

} // verus!
