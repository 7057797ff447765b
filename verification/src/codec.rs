//! JSON text codec: a serializer producing compact canonical text, specified
//! exactly by `ser_val`, and a recursive-descent parser for JSON text.
//!
//! The serializer escapes `"`, `\` and control characters; all other
//! characters are written as themselves. Numbers are signed 64-bit integers.

use vstd::prelude::*;
use crate::json::{Json, JsonVal, jvals_of, jfields_of, lemma_jvals_of_index,
    lemma_jfields_of_index, jv_in_range, lemma_jvals_of_push, lemma_jfields_of_push};
use crate::strings::{dec_of, dec_of_int, push_dec_u64, chars_to_string, str_to_chars, is_digit,
    digit_val, all_digits, dec_val, parse_u64_range};

verus! {

/// The lowercase hexadecimal digit for a value below 16.
pub open spec fn hex_char(d: nat) -> char {
    if d == 0 { '0' }
    else if d == 1 { '1' }
    else if d == 2 { '2' }
    else if d == 3 { '3' }
    else if d == 4 { '4' }
    else if d == 5 { '5' }
    else if d == 6 { '6' }
    else if d == 7 { '7' }
    else if d == 8 { '8' }
    else if d == 9 { '9' }
    else if d == 10 { 'a' }
    else if d == 11 { 'b' }
    else if d == 12 { 'c' }
    else if d == 13 { 'd' }
    else if d == 14 { 'e' }
    else { 'f' }
}

/// Serialization of one character inside a JSON string literal.
pub open spec fn ser_str_char(c: char) -> Seq<char> {
    if c == '"' {
        seq!['\\', '"']
    } else if c == '\\' {
        seq!['\\', '\\']
    } else if (c as u32) < 0x20 {
        seq!['\\', 'u', '0', '0', hex_char((c as u32 / 16) as nat), hex_char(
            (c as u32 % 16) as nat,
        )]
    } else {
        seq![c]
    }
}

/// Serialization of the body of a JSON string literal.
pub open spec fn ser_str_body(s: Seq<char>) -> Seq<char>
    decreases s.len(),
{
    if s.len() == 0 {
        Seq::empty()
    } else {
        ser_str_body(s.drop_last()) + ser_str_char(s.last())
    }
}

/// Serialization of a JSON string literal, quotes included.
pub open spec fn ser_string(s: Seq<char>) -> Seq<char> {
    seq!['"'] + ser_str_body(s) + seq!['"']
}

/// Serialization of a JSON value as compact text.
pub open spec fn ser_val(v: JsonVal) -> Seq<char>
    decreases v,
{
    match v {
        JsonVal::Null => seq!['n', 'u', 'l', 'l'],
        JsonVal::Bool(b) => if b {
            seq!['t', 'r', 'u', 'e']
        } else {
            seq!['f', 'a', 'l', 's', 'e']
        },
        JsonVal::Int(i) => dec_of_int(i),
        JsonVal::Str(s) => ser_string(s),
        JsonVal::Arr(items) => seq!['['] + ser_items(items) + seq![']'],
        JsonVal::Obj(fields) => seq!['{'] + ser_fields(fields) + seq!['}'],
    }
}

/// Serialization of array elements, comma separated.
pub open spec fn ser_items(items: Seq<JsonVal>) -> Seq<char>
    decreases items,
{
    if items.len() == 0 {
        Seq::empty()
    } else if items.len() == 1 {
        ser_val(items.last())
    } else {
        ser_items(items.drop_last()) + seq![','] + ser_val(items.last())
    }
}

/// Serialization of object members, comma separated.
pub open spec fn ser_fields(fields: Seq<(Seq<char>, JsonVal)>) -> Seq<char>
    decreases fields,
{
    if fields.len() == 0 {
        Seq::empty()
    } else if fields.len() == 1 {
        ser_string(fields.last().0) + seq![':'] + ser_val(fields.last().1)
    } else {
        ser_fields(fields.drop_last()) + seq![','] + ser_string(fields.last().0) + seq![':']
            + ser_val(fields.last().1)
    }
}

/// Whether a character could continue a decimal number.
pub open spec fn is_num_cont(c: char) -> bool {
    is_digit(c) || c == '.' || c == 'e' || c == 'E'
}

/// The completeness premise for a value: the text from `pos` to `end` is
/// exactly the serialization of `val`, every number of `val` fits a signed
/// 64-bit integer, and a serialized number is not followed by more number
/// text.
pub open spec fn ser_at(t: Seq<char>, pos: int, end: int, val: JsonVal) -> bool {
    &&& 0 <= pos <= end <= t.len()
    &&& t.subrange(pos, end) == ser_val(val)
    &&& jv_in_range(val)
    &&& ((val is Int) ==> (end == t.len() || !is_num_cont(t[end])))
}

/// The completeness premise for a number: the text from `pos` to `end` is
/// the decimal image of `n`, an in-range integer not followed by more
/// number text.
pub open spec fn int_at(t: Seq<char>, pos: int, end: int, n: int) -> bool {
    &&& 0 <= pos <= end <= t.len()
    &&& t.subrange(pos, end) == dec_of_int(n)
    &&& i64::MIN <= n <= i64::MAX
    &&& (end == t.len() || !is_num_cont(t[end]))
}

/// The completeness premise for a string body: the text from `pos` to `end`
/// is the serialized body of `s` followed by the closing quote.
pub open spec fn str_body_at(t: Seq<char>, pos: int, end: int, s: Seq<char>) -> bool {
    &&& 0 <= pos <= end <= t.len()
    &&& t.subrange(pos, end) == ser_str_body(s) + seq!['"']
}

/// The completeness premise for the tail of an array: the text from `pos`
/// to `end` is the serialization of the elements of `elems` from `k` on,
/// followed by the closing bracket.
pub open spec fn arr_tail_at(t: Seq<char>, pos: int, end: int, elems: Seq<JsonVal>, k: int) -> bool {
    &&& 0 <= k <= elems.len()
    &&& 0 <= pos <= end <= t.len()
    &&& t.subrange(pos, end) == ser_items(elems.subrange(k, elems.len() as int)) + seq![']']
    &&& forall|j: int| k <= j < elems.len() ==> jv_in_range(#[trigger] elems[j])
}

/// The completeness premise for the tail of an object: the text from `pos`
/// to `end` is the serialization of the members of `mems` from `k` on,
/// followed by the closing brace.
pub open spec fn obj_tail_at(
    t: Seq<char>,
    pos: int,
    end: int,
    mems: Seq<(Seq<char>, JsonVal)>,
    k: int,
) -> bool {
    &&& 0 <= k <= mems.len()
    &&& 0 <= pos <= end <= t.len()
    &&& t.subrange(pos, end) == ser_fields(mems.subrange(k, mems.len() as int)) + seq!['}']
    &&& forall|j: int| k <= j < mems.len() ==> jv_in_range((#[trigger] mems[j]).1)
}

/// A serialized value is non-empty, and its first character names its
/// constructor; it is never whitespace or a structural delimiter.
pub proof fn lemma_ser_val_first(val: JsonVal)
    ensures
        ser_val(val).len() >= 1,
        val is Null ==> ser_val(val)[0] == 'n',
        val matches JsonVal::Bool(b) ==> ser_val(val)[0] == (if b { 't' } else { 'f' }),
        val matches JsonVal::Int(i) ==> (if i < 0 {
            ser_val(val)[0] == '-'
        } else {
            is_digit(ser_val(val)[0])
        }),
        val is Str ==> ser_val(val)[0] == '"',
        val is Arr ==> ser_val(val)[0] == '[',
        val is Obj ==> ser_val(val)[0] == '{',
        !is_ws(ser_val(val)[0]),
        ser_val(val)[0] != ']',
        ser_val(val)[0] != '}',
        ser_val(val)[0] != ',',
        ser_val(val)[0] != ':',
{
    match val {
        JsonVal::Int(i) => {
            if i < 0 {
                crate::strings::lemma_dec_of_digits((-i) as nat);
                assert(ser_val(val)[0] == '-');
            } else {
                crate::strings::lemma_dec_of_digits(i as nat);
                assert(ser_val(val) == dec_of(i as nat));
                assert(is_digit(dec_of(i as nat)[0]));
            }
        },
        _ => {},
    }
}

/// Serializing a concatenation of string bodies concatenates the
/// serializations.
pub proof fn lemma_ser_str_body_append(a: Seq<char>, b: Seq<char>)
    ensures
        ser_str_body(a + b) == ser_str_body(a) + ser_str_body(b),
    decreases b.len(),
{
    if b.len() == 0 {
        assert(a + b =~= a);
        assert(ser_str_body(b) =~= Seq::<char>::empty());
        assert(ser_str_body(a) + ser_str_body(b) =~= ser_str_body(a));
    } else {
        lemma_ser_str_body_append(a, b.drop_last());
        assert((a + b).drop_last() =~= a + b.drop_last());
        assert((a + b).last() == b.last());
        assert(ser_str_body(a + b) == ser_str_body(a + b.drop_last()) + ser_str_char(b.last()));
        assert(ser_str_body(a) + ser_str_body(b) =~= (ser_str_body(a) + ser_str_body(b.drop_last()))
            + ser_str_char(b.last()));
    }
}

/// A non-empty string body's serialization starts with its first
/// character's serialization.
pub proof fn lemma_ser_str_body_first(s: Seq<char>)
    requires
        s.len() > 0,
    ensures
        ser_str_body(s) == ser_str_char(s[0]) + ser_str_body(s.drop_first()),
{
    assert(s =~= seq![s[0]] + s.drop_first());
    lemma_ser_str_body_append(seq![s[0]], s.drop_first());
    assert(seq![s[0]].drop_last() =~= Seq::<char>::empty());
    assert(seq![s[0]].last() == s[0]);
    assert(ser_str_body(Seq::<char>::empty()) =~= Seq::<char>::empty());
    assert(ser_str_body(seq![s[0]]) == ser_str_body(seq![s[0]].drop_last()) + ser_str_char(s[0]));
    assert(ser_str_body(seq![s[0]]) =~= ser_str_char(s[0]));
}

/// One in-string character's serialization: its length, its first and
/// second characters, and each escape's exact shape.
pub proof fn lemma_ser_str_char_shape(c: char)
    ensures
        1 <= ser_str_char(c).len() <= 6,
        ser_str_char(c)[0] != '"',
        (c == '"' || c == '\\' || (c as u32) < 0x20) ==> ser_str_char(c)[0] == '\\',
        !(c == '"' || c == '\\' || (c as u32) < 0x20) ==> ser_str_char(c) == seq![c],
        c == '"' ==> ser_str_char(c) =~= seq!['\\', '"'],
        c == '\\' ==> ser_str_char(c) =~= seq!['\\', '\\'],
        (c as u32) < 0x20 ==> ser_str_char(c) =~= seq![
            '\\',
            'u',
            '0',
            '0',
            hex_char((c as u32 / 16) as nat),
            hex_char((c as u32 % 16) as nat),
        ],
{
}

/// A non-empty element sequence's serialization starts with its first
/// element's serialization.
pub proof fn lemma_ser_items_first(elems: Seq<JsonVal>)
    requires
        elems.len() > 0,
    ensures
        elems.len() == 1 ==> ser_items(elems) == ser_val(elems[0]),
        elems.len() > 1 ==> ser_items(elems) == (ser_val(elems[0]) + seq![',']) + ser_items(
            elems.drop_first(),
        ),
    decreases elems.len(),
{
    if elems.len() == 1 {
        assert(elems.last() == elems[0]);
    } else if elems.len() == 2 {
        let dl = elems.drop_last();
        let df = elems.drop_first();
        assert(dl.len() == 1);
        assert(df.len() == 1);
        assert(dl[0] == elems[0]);
        assert(df.last() == elems[1]);
        assert(dl.last() == elems[0]);
        assert(elems.last() == elems[1]);
        assert(ser_items(elems) == ser_items(dl) + seq![','] + ser_val(elems[1]));
        assert(ser_items(dl) == ser_val(elems[0]));
        assert(ser_items(df) == ser_val(elems[1]));
        assert(ser_items(elems) =~= (ser_val(elems[0]) + seq![',']) + ser_items(df));
    } else {
        let dl = elems.drop_last();
        let df = elems.drop_first();
        lemma_ser_items_first(dl);
        assert(dl.len() > 1);
        assert(dl[0] == elems[0]);
        assert(dl.drop_first() =~= df.drop_last());
        assert(df.last() == elems.last());
        assert(ser_items(elems) == ser_items(dl) + seq![','] + ser_val(elems.last()));
        assert(ser_items(dl) == (ser_val(elems[0]) + seq![',']) + ser_items(df.drop_last()));
        assert(ser_items(df) == ser_items(df.drop_last()) + seq![','] + ser_val(df.last()));
        assert(ser_items(elems) =~= (ser_val(elems[0]) + seq![',']) + ser_items(df));
    }
}

/// A non-empty member sequence's serialization starts with its first
/// member's serialization.
pub proof fn lemma_ser_fields_first(mems: Seq<(Seq<char>, JsonVal)>)
    requires
        mems.len() > 0,
    ensures
        mems.len() == 1 ==> ser_fields(mems) == (ser_string(mems[0].0) + seq![':']) + ser_val(
            mems[0].1,
        ),
        mems.len() > 1 ==> ser_fields(mems) == (((ser_string(mems[0].0) + seq![':']) + ser_val(
            mems[0].1,
        )) + seq![',']) + ser_fields(mems.drop_first()),
    decreases mems.len(),
{
    if mems.len() == 1 {
        assert(mems.last() == mems[0]);
        assert(ser_fields(mems) =~= (ser_string(mems[0].0) + seq![':']) + ser_val(mems[0].1));
    } else if mems.len() == 2 {
        let dl = mems.drop_last();
        let df = mems.drop_first();
        assert(dl.len() == 1);
        assert(df.len() == 1);
        assert(dl[0] == mems[0]);
        assert(dl.last() == mems[0]);
        assert(df.last() == mems[1]);
        assert(mems.last() == mems[1]);
        assert(ser_fields(dl) =~= (ser_string(mems[0].0) + seq![':']) + ser_val(mems[0].1));
        assert(ser_fields(df) =~= (ser_string(mems[1].0) + seq![':']) + ser_val(mems[1].1));
        assert(ser_fields(mems) =~= (((ser_string(mems[0].0) + seq![':']) + ser_val(mems[0].1))
            + seq![',']) + ser_fields(df));
    } else {
        let dl = mems.drop_last();
        let df = mems.drop_first();
        lemma_ser_fields_first(dl);
        assert(dl.len() > 1);
        assert(dl[0] == mems[0]);
        assert(dl.drop_first() =~= df.drop_last());
        assert(df.last() == mems.last());
        assert(ser_fields(df) == ser_fields(df.drop_last()) + seq![','] + ser_string(df.last().0)
            + seq![':'] + ser_val(df.last().1));
        assert(ser_fields(mems) =~= (((ser_string(mems[0].0) + seq![':']) + ser_val(mems[0].1))
            + seq![',']) + ser_fields(df));
    }
}

fn hex_char_exec(d: u32) -> (c: char)
    requires
        d < 16,
    ensures
        c == hex_char(d as nat),
{
    if d == 0 { '0' }
    else if d == 1 { '1' }
    else if d == 2 { '2' }
    else if d == 3 { '3' }
    else if d == 4 { '4' }
    else if d == 5 { '5' }
    else if d == 6 { '6' }
    else if d == 7 { '7' }
    else if d == 8 { '8' }
    else if d == 9 { '9' }
    else if d == 10 { 'a' }
    else if d == 11 { 'b' }
    else if d == 12 { 'c' }
    else if d == 13 { 'd' }
    else if d == 14 { 'e' }
    else { 'f' }
}

/// Append the serialization of one in-string character.
fn write_str_char(c: char, out: &mut Vec<char>)
    ensures
        final(out)@ == old(out)@ + ser_str_char(c),
{
    if c == '"' {
        out.push('\\');
        out.push('"');
    } else if c == '\\' {
        out.push('\\');
        out.push('\\');
    } else if (c as u32) < 0x20 {
        out.push('\\');
        out.push('u');
        out.push('0');
        out.push('0');
        out.push(hex_char_exec((c as u32) / 16));
        out.push(hex_char_exec((c as u32) % 16));
    } else {
        out.push(c);
    }
    proof {
        assert(final(out)@ =~= old(out)@ + ser_str_char(c));
    }
}

/// Append the serialization of a string literal, quotes included.
#[verifier::loop_isolation(false)]
fn write_string(s: &str, out: &mut Vec<char>)
    ensures
        final(out)@ == old(out)@ + ser_string(s@),
{
    let chars = str_to_chars(s);
    out.push('"');
    let mut i: usize = 0;
    while i < chars.len()
        invariant
            i <= chars@.len(),
            out@ == old(out)@ + seq!['"'] + ser_str_body(s@.subrange(0, i as int)),
        decreases chars@.len() - i,
    {
        write_str_char(chars[i], out);
        i = i + 1;
        proof {
            assert(s@.subrange(0, i as int).drop_last() =~= s@.subrange(0, i as int - 1));
            assert(s@.subrange(0, i as int).last() == s@[i as int - 1]);
        }
    }
    out.push('"');
    proof {
        assert(s@.subrange(0, s@.len() as int) =~= s@);
        assert(final(out)@ =~= old(out)@ + ser_string(s@));
    }
}

/// Append the compact serialization of a JSON value.
#[verifier::loop_isolation(false)]
#[verifier::rlimit(60)]
pub fn write_val(j: &Json, out: &mut Vec<char>)
    ensures
        final(out)@ == old(out)@ + ser_val(j@),
    decreases j,
{
    match j {
        Json::Null => {
            out.push('n');
            out.push('u');
            out.push('l');
            out.push('l');
            proof {
                assert(final(out)@ =~= old(out)@ + ser_val(j@));
            }
        },
        Json::Bool(b) => {
            if *b {
                out.push('t');
                out.push('r');
                out.push('u');
                out.push('e');
            } else {
                out.push('f');
                out.push('a');
                out.push('l');
                out.push('s');
                out.push('e');
            }
            proof {
                assert(final(out)@ =~= old(out)@ + ser_val(j@));
            }
        },
        Json::Int(n) => {
            if *n < 0 {
                let m: u64 = ((0i128 - (*n as i128)) as u64);
                out.push('-');
                push_dec_u64(m, out);
                proof {
                    assert(final(out)@ =~= old(out)@ + ser_val(j@));
                }
            } else {
                push_dec_u64(*n as u64, out);
            }
        },
        Json::Str(s) => {
            write_string(s.as_str(), out);
        },
        Json::Arr(items) => {
            proof {
                lemma_jvals_of_index(items@);
            }
            out.push('[');
            let ghost vals = jvals_of(items@);
            let mut i: usize = 0;
            while i < items.len()
                invariant
                    i <= items@.len(),
                    out@ == old(out)@ + seq!['['] + ser_items(vals.subrange(0, i as int)),
                decreases items@.len() - i,
            {
                if i > 0 {
                    out.push(',');
                }
                write_val(&items[i], out);
                i = i + 1;
                proof {
                    assert(vals.subrange(0, i as int).drop_last() =~= vals.subrange(
                        0,
                        i as int - 1,
                    ));
                    assert(vals.subrange(0, i as int).last() == vals[i as int - 1]);
                    assert(out@ =~= old(out)@ + seq!['['] + ser_items(vals.subrange(0, i as int)));
                }
            }
            out.push(']');
            proof {
                assert(vals.subrange(0, vals.len() as int) =~= vals);
                assert(final(out)@ =~= old(out)@ + ser_val(j@));
            }
        },
        Json::Obj(fields) => {
            proof {
                lemma_jfields_of_index(fields@);
            }
            out.push('{');
            let ghost mems = jfields_of(fields@);
            let mut i: usize = 0;
            while i < fields.len()
                invariant
                    i <= fields@.len(),
                    out@ == old(out)@ + seq!['{'] + ser_fields(mems.subrange(0, i as int)),
                decreases fields@.len() - i,
            {
                if i > 0 {
                    out.push(',');
                }
                write_string(fields[i].0.as_str(), out);
                out.push(':');
                write_val(&fields[i].1, out);
                i = i + 1;
                proof {
                    assert(mems.subrange(0, i as int).drop_last() =~= mems.subrange(
                        0,
                        i as int - 1,
                    ));
                    assert(mems.subrange(0, i as int).last() == mems[i as int - 1]);
                    assert(out@ =~= old(out)@ + seq!['{'] + ser_fields(mems.subrange(0, i as int)));
                }
            }
            out.push('}');
            proof {
                assert(mems.subrange(0, mems.len() as int) =~= mems);
                assert(final(out)@ =~= old(out)@ + ser_val(j@));
            }
        },
    }
}

/// Serialize a JSON value as compact text.
pub fn json_to_string(j: &Json) -> (r: String)
    ensures
        r@ == ser_val(j@),
{
    let mut out: Vec<char> = Vec::new();
    write_val(j, &mut out);
    chars_to_string(&out)
}

/// Whether a character is JSON whitespace.
pub open spec fn is_ws(c: char) -> bool {
    c == ' ' || c == '\t' || c == '\n' || c == '\r'
}

fn is_ws_exec(c: char) -> (r: bool)
    ensures
        r == is_ws(c),
{
    c == ' ' || c == '\t' || c == '\n' || c == '\r'
}

/// Advance past whitespace.
fn skip_ws(v: &Vec<char>, pos: usize) -> (r: usize)
    requires
        pos <= v@.len(),
    ensures
        pos <= r <= v@.len(),
        r < v@.len() ==> !is_ws(v@[r as int]),
        forall|k: int| pos <= k < r ==> is_ws(#[trigger] v@[k]),
    decreases v@.len() - pos,
{
    if pos < v.len() && is_ws_exec(v[pos]) {
        skip_ws(v, pos + 1)
    } else {
        pos
    }
}

/// Relies on std's char::from_u32: `Some` exactly for unicode scalar values,
/// that is all values up to 0x10FFFF except the surrogate range.
#[verifier::external_body]
fn char_from_u32(v: u32) -> (r: Option<char>)
    ensures
        r matches Some(c) ==> c as u32 == v,
        (r is Some) <==> (v < 0xD800 || (0xE000 <= v && v <= 0x10FFFF)),
{
    char::from_u32(v)
}

fn hex_digit_val(c: char) -> (r: Option<u32>)
    ensures
        r matches Some(d) ==> d < 16,
        forall|d: nat| d < 16 && c == hex_char(d) ==> r == Some(d as u32),
{
    let r: Option<u32> = if '0' <= c && c <= '9' {
        Some((c as u32) - 48)
    } else if 'a' <= c && c <= 'f' {
        Some((c as u32) - 87)
    } else if 'A' <= c && c <= 'F' {
        Some((c as u32) - 55)
    } else {
        None
    };
    proof {
        assert forall|d: nat| d < 16 && c == hex_char(d) implies r == Some(d as u32) by {
            if d < 10 {
                assert('0' <= hex_char(d) <= '9');
            } else {
                assert('a' <= hex_char(d) <= 'f');
            }
        }
    }
    r
}

/// Two characters with one scalar value are one character.
proof fn lemma_char_eq(a: char, b: char)
    requires
        a as u32 == b as u32,
    ensures
        a == b,
{
}

/// Parser state within a serialized string body: the characters decoded so
/// far are a prefix of `s`, and the position stands just past their
/// serialization.
pub open spec fn spb_state(pos: int, i: int, chars: Seq<char>, s: Seq<char>) -> bool {
    &&& chars.len() <= s.len()
    &&& chars == s.subrange(0, chars.len() as int)
    &&& i == pos + ser_str_body(chars).len()
}

/// One step inside a serialized string body: either the decoded prefix is
/// whole and the closing quote stands at `i`, or the next character's
/// serialization stands at `i`.
proof fn lemma_spb_step(t: Seq<char>, pos: int, end: int, s: Seq<char>, chars: Seq<char>, i: int)
    requires
        str_body_at(t, pos, end, s),
        spb_state(pos, i, chars, s),
    ensures
        pos <= i < end <= t.len(),
        chars.len() == s.len() ==> i == end - 1 && t[i] == '"' && chars == s,
        chars.len() < s.len() ==> spb_next(t, pos, end, s, chars, i),
{
    let q = chars.len() as int;
    let tail = s.subrange(q, s.len() as int);
    assert(s =~= s.subrange(0, q) + tail);
    lemma_ser_str_body_append(s.subrange(0, q), tail);
    assert(ser_str_body(s) == ser_str_body(chars) + ser_str_body(tail));
    assert(end - pos == t.subrange(pos, end).len());
    assert(end == pos + ser_str_body(s).len() + 1);
    if q == s.len() {
        assert(tail =~= Seq::<char>::empty());
        assert(ser_str_body(tail) =~= Seq::<char>::empty());
        assert(ser_str_body(s) =~= ser_str_body(chars));
        assert(i == end - 1);
        assert(t.subrange(pos, end)[i - pos] == t[i]);
        assert((ser_str_body(s) + seq!['"'])[i - pos] == '"');
        assert(chars =~= s);
    } else {
        let c = s[q];
        lemma_ser_str_body_first(tail);
        assert(tail[0] == c);
        lemma_ser_str_char_shape(c);
        let l = ser_str_char(c).len() as int;
        assert(ser_str_body(tail) == ser_str_char(c) + ser_str_body(tail.drop_first()));
        assert(i + l <= end - 1);
        assert forall|k: int| 0 <= k < l implies t[i + k] == ser_str_char(c)[k] by {
            assert(t.subrange(pos, end)[i - pos + k] == t[i + k]);
            assert((ser_str_body(s) + seq!['"'])[i - pos + k] == ser_str_body(s)[i - pos + k]);
            assert(ser_str_body(s)[ser_str_body(chars).len() + k] == ser_str_body(tail)[k]);
            assert(ser_str_body(tail)[k] == ser_str_char(c)[k]);
        }
        assert(t.subrange(i, i + l) =~= ser_str_char(c));
        assert(chars.push(c) =~= s.subrange(0, q + 1));
        assert(chars.push(c) =~= chars + seq![c]);
        lemma_ser_str_body_append(chars, seq![c]);
        lemma_ser_str_body_first(seq![c]);
        assert(seq![c].drop_first() =~= Seq::<char>::empty());
        assert(ser_str_body(Seq::<char>::empty()) =~= Seq::<char>::empty());
        assert(ser_str_body(seq![c]) =~= ser_str_char(c));
        assert(ser_str_body(chars.push(c)) == ser_str_body(chars) + ser_str_char(c));
        assert(spb_state(pos, i + l, chars.push(c), s));
    }
}

/// The next character's serialization stands at `i`, and decoding it
/// advances the state.
pub open spec fn spb_next(t: Seq<char>, pos: int, end: int, s: Seq<char>, chars: Seq<char>, i: int)
    -> bool {
    let c = s[chars.len() as int];
    let l = ser_str_char(c).len() as int;
    &&& i + l <= end - 1
    &&& t.subrange(i, i + l) == ser_str_char(c)
    &&& spb_state(pos, i + l, chars.push(c), s)
}

/// Parse a string literal body starting after the opening quote; returns the
/// string and the position after the closing quote.
#[verifier::loop_isolation(false)]
#[verifier::rlimit(100)]
fn parse_string_body(v: &Vec<char>, pos: usize) -> (r: Option<(String, usize)>)
    requires
        pos <= v@.len(),
    ensures
        r matches Some((_, p)) ==> pos < p <= v@.len(),
        forall|s: Seq<char>, end: int|
            #[trigger] str_body_at(v@, pos as int, end, s) ==> (r matches Some((out, p)) && out@
                == s && p == end),
{
    let mut chars: Vec<char> = Vec::new();
    let mut i: usize = pos;
    proof {
        assert(ser_str_body(Seq::<char>::empty()) =~= Seq::<char>::empty());
        assert(chars@ =~= Seq::<char>::empty());
        assert forall|s: Seq<char>, end: int|
            #[trigger] str_body_at(v@, pos as int, end, s) implies spb_state(
            pos as int,
            pos as int,
            chars@,
            s,
        ) by {
            assert(chars@ =~= s.subrange(0, 0));
        }
    }
    loop
        invariant
            pos <= i <= v@.len(),
            forall|s: Seq<char>, end: int|
                #[trigger] str_body_at(v@, pos as int, end, s) ==> spb_state(
                    pos as int,
                    i as int,
                    chars@,
                    s,
                ),
        decreases v@.len() - i,
    {
        let ghost chars0 = chars@;
        let ghost i0 = i as int;
        if i >= v.len() {
            proof {
                assert forall|s: Seq<char>, end: int|
                    #[trigger] str_body_at(v@, pos as int, end, s) implies false by {
                    lemma_spb_step(v@, pos as int, end, s, chars0, i0);
                }
            }
            return None;
        }
        let c = v[i];
        if c == '"' {
            let out = chars_to_string(&chars);
            proof {
                assert forall|s: Seq<char>, end: int|
                    #[trigger] str_body_at(v@, pos as int, end, s) implies (chars0 == s && i0 + 1
                    == end) by {
                    lemma_spb_step(v@, pos as int, end, s, chars0, i0);
                    if chars0.len() < s.len() {
                        let c0 = s[chars0.len() as int];
                        lemma_ser_str_char_shape(c0);
                        assert(v@.subrange(i0, i0 + ser_str_char(c0).len() as int)[0] == v@[i0]);
                        assert(false);
                    }
                }
            }
            return Some((out, i + 1));
        }
        if c == '\\' {
            if i + 1 >= v.len() {
                proof {
                    assert forall|s: Seq<char>, end: int|
                        #[trigger] str_body_at(v@, pos as int, end, s) implies false by {
                        spb_escape_facts(v@, pos as int, end, s, chars0, i0);
                    }
                }
                return None;
            }
            let e = v[i + 1];
            if e == '"' {
                chars.push('"');
                i = i + 2;
                proof {
                    assert forall|s: Seq<char>, end: int|
                        #[trigger] str_body_at(v@, pos as int, end, s) implies spb_state(
                        pos as int,
                        i as int,
                        chars@,
                        s,
                    ) by {
                        spb_escape_facts(v@, pos as int, end, s, chars0, i0);
                        let c0 = s[chars0.len() as int];
                        lemma_ser_str_char_shape(c0);
                        assert(v@[i0 + 1] == ser_str_char(c0)[1]);
                        assert(c0 == '"');
                        assert(chars@ == chars0.push(c0));
                    }
                }
            } else if e == '\\' {
                chars.push('\\');
                i = i + 2;
                proof {
                    assert forall|s: Seq<char>, end: int|
                        #[trigger] str_body_at(v@, pos as int, end, s) implies spb_state(
                        pos as int,
                        i as int,
                        chars@,
                        s,
                    ) by {
                        spb_escape_facts(v@, pos as int, end, s, chars0, i0);
                        let c0 = s[chars0.len() as int];
                        lemma_ser_str_char_shape(c0);
                        assert(v@[i0 + 1] == ser_str_char(c0)[1]);
                        assert(c0 == '\\');
                        assert(chars@ == chars0.push(c0));
                    }
                }
            } else if e == '/' || e == 'n' || e == 't' || e == 'r' || e == 'b' || e == 'f' {
                proof {
                    assert forall|s: Seq<char>, end: int|
                        #[trigger] str_body_at(v@, pos as int, end, s) implies false by {
                        spb_escape_facts(v@, pos as int, end, s, chars0, i0);
                        let c0 = s[chars0.len() as int];
                        lemma_ser_str_char_shape(c0);
                        assert(v@[i0 + 1] == ser_str_char(c0)[1]);
                    }
                }
                return None;
            } else if e == 'u' {
                if v.len() - i < 6 {
                    proof {
                        assert forall|s: Seq<char>, end: int|
                            #[trigger] str_body_at(v@, pos as int, end, s) implies false by {
                            spb_u_facts(v@, pos as int, end, s, chars0, i0);
                        }
                    }
                    return None;
                }
                let d0 = hex_digit_val(v[i + 2]);
                let d1 = hex_digit_val(v[i + 3]);
                let d2 = hex_digit_val(v[i + 4]);
                let d3 = hex_digit_val(v[i + 5]);
                match (d0, d1, d2, d3) {
                    (Some(a), Some(b), Some(cc), Some(d)) => {
                        let code: u32 = a * 4096 + b * 256 + cc * 16 + d;
                        match char_from_u32(code) {
                            Some(ch) => {
                                chars.push(ch);
                                i = i + 6;
                                proof {
                                    assert forall|s: Seq<char>, end: int|
                                        #[trigger] str_body_at(v@, pos as int, end, s) implies
                                        spb_state(pos as int, i as int, chars@, s) by {
                                        spb_u_facts(v@, pos as int, end, s, chars0, i0);
                                        let c0 = s[chars0.len() as int];
                                        let hi = ((c0 as u32) / 16) as nat;
                                        let lo = ((c0 as u32) % 16) as nat;
                                        assert(hex_char(0) == '0');
                                        assert(v@[i0 + 2] == hex_char(0));
                                        assert(v@[i0 + 3] == hex_char(0));
                                        assert(d0 == Some(0u32));
                                        assert(d1 == Some(0u32));
                                        assert(hi < 16 && lo < 16);
                                        assert(d2 == Some(hi as u32));
                                        assert(d3 == Some(lo as u32));
                                        assert(c0 as u32 == 16 * ((c0 as u32) / 16) + (c0
                                            as u32) % 16);
                                        assert(code == c0 as u32);
                                        assert(ch as u32 == c0 as u32);
                                        lemma_char_eq(ch, c0);
                                        assert(ch == c0);
                                        assert(chars@ == chars0.push(c0));
                                    }
                                }
                            },
                            None => {
                                proof {
                                    assert forall|s: Seq<char>, end: int|
                                        #[trigger] str_body_at(v@, pos as int, end, s) implies
                                        false by {
                                        spb_u_facts(v@, pos as int, end, s, chars0, i0);
                                        let c0 = s[chars0.len() as int];
                                        let hi = ((c0 as u32) / 16) as nat;
                                        let lo = ((c0 as u32) % 16) as nat;
                                        assert(hex_char(0) == '0');
                                        assert(v@[i0 + 2] == hex_char(0));
                                        assert(d2 == Some(hi as u32));
                                        assert(d3 == Some(lo as u32));
                                        assert(c0 as u32 == 16 * ((c0 as u32) / 16) + (c0
                                            as u32) % 16);
                                        assert(code == c0 as u32);
                                    }
                                }
                                return None;
                            },
                        }
                    },
                    _ => {
                        proof {
                            assert forall|s: Seq<char>, end: int|
                                #[trigger] str_body_at(v@, pos as int, end, s) implies false by {
                                spb_u_facts(v@, pos as int, end, s, chars0, i0);
                                let c0 = s[chars0.len() as int];
                                let hi = ((c0 as u32) / 16) as nat;
                                let lo = ((c0 as u32) % 16) as nat;
                                assert(hex_char(0) == '0');
                                assert(v@[i0 + 2] == hex_char(0));
                                assert(v@[i0 + 3] == hex_char(0));
                                assert(d0 == Some(0u32));
                                assert(d1 == Some(0u32));
                                assert(hi < 16 && lo < 16);
                                assert(d2 == Some(hi as u32));
                                assert(d3 == Some(lo as u32));
                            }
                        }
                        return None;
                    },
                }
            } else {
                proof {
                    assert forall|s: Seq<char>, end: int|
                        #[trigger] str_body_at(v@, pos as int, end, s) implies false by {
                        spb_escape_facts(v@, pos as int, end, s, chars0, i0);
                        let c0 = s[chars0.len() as int];
                        lemma_ser_str_char_shape(c0);
                        assert(v@[i0 + 1] == ser_str_char(c0)[1]);
                    }
                }
                return None;
            }
        } else if (c as u32) < 0x20 {
            proof {
                assert forall|s: Seq<char>, end: int|
                    #[trigger] str_body_at(v@, pos as int, end, s) implies false by {
                    lemma_spb_step(v@, pos as int, end, s, chars0, i0);
                    if chars0.len() < s.len() {
                        let c0 = s[chars0.len() as int];
                        lemma_ser_str_char_shape(c0);
                        assert(v@.subrange(i0, i0 + ser_str_char(c0).len() as int)[0] == v@[i0]);
                    }
                }
            }
            return None;
        } else {
            chars.push(c);
            i = i + 1;
            proof {
                assert forall|s: Seq<char>, end: int|
                    #[trigger] str_body_at(v@, pos as int, end, s) implies spb_state(
                    pos as int,
                    i as int,
                    chars@,
                    s,
                ) by {
                    lemma_spb_step(v@, pos as int, end, s, chars0, i0);
                    assert(chars0.len() < s.len());
                    let c0 = s[chars0.len() as int];
                    lemma_ser_str_char_shape(c0);
                    assert(v@.subrange(i0, i0 + ser_str_char(c0).len() as int)[0] == v@[i0]);
                    assert(c0 == c);
                    assert(chars@ == chars0.push(c0));
                }
            }
        }
    }
}

/// Within an escape: the next source character's serialization starts with
/// a backslash, so it is a quote, a backslash or a control character, and
/// its second serialized character stands at `i + 1`.
proof fn spb_escape_facts(t: Seq<char>, pos: int, end: int, s: Seq<char>, chars: Seq<char>, i: int)
    requires
        str_body_at(t, pos, end, s),
        spb_state(pos, i, chars, s),
        i < t.len(),
        t[i] == '\\',
    ensures
        chars.len() < s.len(),
        spb_next(t, pos, end, s, chars, i),
        ({
            let c0 = s[chars.len() as int];
            &&& (c0 == '"' || c0 == '\\' || (c0 as u32) < 0x20)
            &&& i + 1 < t.len()
            &&& t[i + 1] == ser_str_char(c0)[1]
        }),
{
    lemma_spb_step(t, pos, end, s, chars, i);
    if chars.len() == s.len() {
        assert(t[i] == '"');
        assert(false);
    }
    let c0 = s[chars.len() as int];
    lemma_ser_str_char_shape(c0);
    let l = ser_str_char(c0).len() as int;
    assert(t.subrange(i, i + l)[0] == t[i]);
    assert(ser_str_char(c0)[0] == '\\');
    assert(c0 == '"' || c0 == '\\' || (c0 as u32) < 0x20);
    assert(l >= 2);
    assert(t.subrange(i, i + l)[1] == t[i + 1]);
}

/// Within a `\u` escape: the next source character is a control
/// character, and the four serialized hexadecimal digits stand at
/// `i + 2` through `i + 5`.
proof fn spb_u_facts(t: Seq<char>, pos: int, end: int, s: Seq<char>, chars: Seq<char>, i: int)
    requires
        str_body_at(t, pos, end, s),
        spb_state(pos, i, chars, s),
        i + 1 < t.len(),
        t[i] == '\\',
        t[i + 1] == 'u',
    ensures
        chars.len() < s.len(),
        spb_next(t, pos, end, s, chars, i),
        ({
            let c0 = s[chars.len() as int];
            &&& (c0 as u32) < 0x20
            &&& i + 6 <= t.len()
            &&& t[i + 2] == '0' && t[i + 3] == '0'
            &&& t[i + 4] == hex_char((c0 as u32 / 16) as nat)
            &&& t[i + 5] == hex_char((c0 as u32 % 16) as nat)
            &&& ser_str_char(c0).len() == 6
        }),
{
    spb_escape_facts(t, pos, end, s, chars, i);
    let c0 = s[chars.len() as int];
    lemma_ser_str_char_shape(c0);
    let l = ser_str_char(c0).len() as int;
    if c0 == '"' || c0 == '\\' {
        assert(t[i + 1] == ser_str_char(c0)[1]);
        assert(false);
    }
    assert((c0 as u32) < 0x20);
    assert(l == 6);
    assert(t.subrange(i, i + l)[2] == t[i + 2]);
    assert(t.subrange(i, i + l)[3] == t[i + 3]);
    assert(t.subrange(i, i + l)[4] == t[i + 4]);
    assert(t.subrange(i, i + l)[5] == t[i + 5]);
}

/// Parse a JSON number starting at `pos`.
#[verifier::loop_isolation(false)]
#[verifier::rlimit(100)]
fn parse_number(v: &Vec<char>, pos: usize) -> (r: Option<(Json, usize)>)
    requires
        pos <= v@.len(),
    ensures
        r matches Some((_, p)) ==> pos < p <= v@.len(),
        forall|n: int, end: int|
            #[trigger] int_at(v@, pos as int, end, n) ==> (r matches Some((j, p)) && j@
                == JsonVal::Int(n) && p == end),
{
    let mut i: usize = pos;
    let mut neg: bool = false;
    if i < v.len() && v[i] == '-' {
        neg = true;
        i = i + 1;
    }
    let start: usize = i;
    while i < v.len() && '0' <= v[i] && v[i] <= '9'
        invariant
            start <= i <= v@.len(),
            pos <= start,
            forall|k: int| start <= k < i ==> is_digit(#[trigger] v@[k]),
        decreases v@.len() - i,
    {
        i = i + 1;
    }
    proof {
        assert(i == v@.len() || !is_digit(v@[i as int]));
        assert forall|n: int, end: int| #[trigger] int_at(v@, pos as int, end, n) implies (start
            as int == num_digits_start(pos as int, n) && i as int == end && neg == (n < 0)) by {
            lemma_int_at_digits(v@, pos as int, end, n);
            let s0 = num_digits_start(pos as int, n);
            if n < 0 {
                assert(v@[pos as int] == '-');
                assert(neg);
            } else {
                assert(is_digit(v@[pos as int]));
                assert(!neg);
            }
            assert(start as int == s0);
            if (i as int) < end {
                assert(is_digit(v@[i as int]));
                assert(false);
            }
            if end < i as int {
                assert(is_digit(v@[end]));
                assert(end < v@.len());
                assert(!is_num_cont(v@[end]));
                assert(false);
            }
        }
    }
    if i == start {
        proof {
            assert forall|n: int, end: int| #[trigger] int_at(v@, pos as int, end, n) implies
                false by {
                lemma_int_at_digits(v@, pos as int, end, n);
            }
        }
        return None;
    }
    if i < v.len() && (v[i] == '.' || v[i] == 'e' || v[i] == 'E') {
        proof {
            assert forall|n: int, end: int| #[trigger] int_at(v@, pos as int, end, n) implies
                false by {
                assert(is_num_cont(v@[i as int]));
            }
        }
        return None;
    }
    proof {
        assert(all_digits(v@.subrange(start as int, i as int)));
    }
    let m = match parse_u64_range(v, start, i) {
        Some(m) => m,
        None => {
            proof {
                assert forall|n: int, end: int| #[trigger] int_at(v@, pos as int, end, n) implies
                    false by {
                    lemma_int_at_digits(v@, pos as int, end, n);
                    assert(dec_val(v@.subrange(start as int, i as int)) == num_mag(n));
                }
            }
            return None;
        },
    };
    proof {
        assert forall|n: int, end: int| #[trigger] int_at(v@, pos as int, end, n) implies m
            == num_mag(n) by {
            lemma_int_at_digits(v@, pos as int, end, n);
            assert(dec_val(v@.subrange(start as int, i as int)) == num_mag(n));
        }
    }
    if neg {
        if m <= 0x7fff_ffff_ffff_ffffu64 {
            Some((Json::Int(-(m as i64)), i))
        } else if m == 0x8000_0000_0000_0000u64 {
            Some((Json::Int(i64::MIN), i))
        } else {
            proof {
                assert forall|n: int, end: int| #[trigger] int_at(v@, pos as int, end, n) implies
                    false by {
                    assert(n < 0);
                    assert(num_mag(n) <= 0x8000_0000_0000_0000);
                }
            }
            None
        }
    } else {
        if m <= 0x7fff_ffff_ffff_ffffu64 {
            Some((Json::Int(m as i64), i))
        } else {
            proof {
                assert forall|n: int, end: int| #[trigger] int_at(v@, pos as int, end, n) implies
                    false by {
                    assert(n >= 0);
                    assert(num_mag(n) <= 0x7fff_ffff_ffff_ffff);
                }
            }
            None
        }
    }
}

/// The magnitude of an integer.
pub open spec fn num_mag(n: int) -> nat {
    if n < 0 {
        (-n) as nat
    } else {
        n as nat
    }
}

/// Where the digits of a serialized integer begin.
pub open spec fn num_digits_start(pos: int, n: int) -> int {
    if n < 0 {
        pos + 1
    } else {
        pos
    }
}

/// The shape of a serialized integer in its text: an optional minus sign,
/// then the digits of its magnitude.
proof fn lemma_int_at_digits(t: Seq<char>, pos: int, end: int, n: int)
    requires
        int_at(t, pos, end, n),
    ensures
        num_digits_start(pos, n) < end,
        n < 0 ==> t[pos] == '-',
        n >= 0 ==> is_digit(t[pos]),
        t.subrange(num_digits_start(pos, n), end) == dec_of(num_mag(n)),
        forall|k: int| num_digits_start(pos, n) <= k < end ==> is_digit(#[trigger] t[k]),
        dec_val(t.subrange(num_digits_start(pos, n), end)) == num_mag(n),
{
    crate::strings::lemma_dec_of_digits(num_mag(n));
    crate::strings::lemma_dec_val_of_dec_of(num_mag(n));
    if n < 0 {
        assert(dec_of_int(n) == seq!['-'] + dec_of((-n) as nat));
        assert(t.subrange(pos, end)[0] == t[pos]);
        assert((seq!['-'] + dec_of((-n) as nat))[0] == '-');
        assert(t.subrange(pos + 1, end) =~= t.subrange(pos, end).subrange(1, end - pos));
        assert forall|k: int| 0 <= k < end - pos - 1 implies t.subrange(pos + 1, end)[k] == dec_of(
            num_mag(n),
        )[k] by {
            assert(t.subrange(pos, end)[k + 1] == dec_of_int(n)[k + 1]);
        }
        assert(t.subrange(pos + 1, end) =~= dec_of(num_mag(n)));
        assert forall|k: int| pos + 1 <= k < end implies is_digit(#[trigger] t[k]) by {
            assert(t.subrange(pos + 1, end)[k - pos - 1] == t[k]);
            assert(is_digit(dec_of(num_mag(n))[k - pos - 1]));
        }
    } else {
        assert(t.subrange(pos, end) == dec_of(num_mag(n)));
        assert(t.subrange(pos, end)[0] == t[pos]);
        assert(is_digit(dec_of(num_mag(n))[0]));
        assert forall|k: int| pos <= k < end implies is_digit(#[trigger] t[k]) by {
            assert(t.subrange(pos, end)[k - pos] == t[k]);
            assert(is_digit(dec_of(num_mag(n))[k - pos]));
        }
    }
}

fn expect_lit(v: &Vec<char>, pos: usize, a: char, b: char, c: char) -> (r: bool)
    requires
        pos <= v@.len(),
    ensures
        r == (pos + 3 <= v@.len() && v@[pos as int] == a && v@[pos as int + 1] == b && v@[pos
            as int + 2] == c),
{
    v.len() >= 3 && pos <= v.len() - 3 && v[pos] == a && v[pos + 1] == b && v[pos + 2] == c
}

/// One step inside a serialized array tail: the next element's
/// serialization stands at `i`, with a separator or the closing bracket
/// after it.
proof fn lemma_arr_tail_step(t: Seq<char>, i: int, end: int, elems: Seq<JsonVal>, k: int)
    requires
        arr_tail_at(t, i, end, elems, k),
        k < elems.len(),
    ensures
        ({
            let l = ser_val(elems[k]).len() as int;
            &&& i + l <= end - 1
            &&& ser_at(t, i, i + l, elems[k])
            &&& (k + 1 < elems.len() ==> t[i + l] == ',' && arr_tail_at(t, i + l + 1, end, elems, k + 1))
            &&& (k + 1 == elems.len() ==> i + l == end - 1 && t[i + l] == ']')
        }),
{
    let tail = elems.subrange(k, elems.len() as int);
    let l = ser_val(elems[k]).len() as int;
    lemma_ser_items_first(tail);
    lemma_ser_val_first(elems[k]);
    assert(tail[0] == elems[k]);
    assert(t.subrange(i, end) == ser_items(tail) + seq![']']);
    assert(t.subrange(i, end).len() == end - i);
    assert((ser_items(tail) + seq![']']).len() == ser_items(tail).len() + 1);
    assert(end - i == ser_items(tail).len() + 1);
    if k + 1 == elems.len() {
        assert(tail.len() == 1);
        assert(ser_items(tail) == ser_val(elems[k]));
        assert(i + l == end - 1);
        assert forall|m: int| 0 <= m < l implies t[i + m] == ser_val(elems[k])[m] by {
            assert(t.subrange(i, end)[m] == t[i + m]);
            assert((ser_items(tail) + seq![']'])[m] == ser_val(elems[k])[m]);
        }
        assert(t.subrange(i, i + l) =~= ser_val(elems[k]));
        assert(t.subrange(i, end)[l] == t[i + l]);
        assert((ser_items(tail) + seq![']'])[l] == ']');
    } else {
        let rest = tail.drop_first();
        assert(ser_items(tail) == (ser_val(elems[k]) + seq![',']) + ser_items(rest));
        assert(i + l + 1 + ser_items(rest).len() == end - 1);
        assert forall|m: int| 0 <= m < l implies t[i + m] == ser_val(elems[k])[m] by {
            assert(t.subrange(i, end)[m] == t[i + m]);
            assert((ser_items(tail) + seq![']'])[m] == ser_val(elems[k])[m]);
        }
        assert(t.subrange(i, i + l) =~= ser_val(elems[k]));
        assert(t.subrange(i, end)[l] == t[i + l]);
        assert((ser_items(tail) + seq![']'])[l] == ',');
        assert(rest =~= elems.subrange(k + 1, elems.len() as int));
        assert forall|m: int| 0 <= m < end - (i + l + 1) implies t.subrange(i + l + 1, end)[m]
            == (ser_items(rest) + seq![']'])[m] by {
            assert(t.subrange(i + l + 1, end)[m] == t[i + l + 1 + m]);
            assert(t.subrange(i, end)[l + 1 + m] == t[i + l + 1 + m]);
            assert((ser_items(tail) + seq![']'])[l + 1 + m] == (ser_items(rest) + seq![']'])[m]);
        }
        assert(t.subrange(i + l + 1, end) =~= ser_items(elems.subrange(k + 1, elems.len() as int))
            + seq![']']);
    }
    assert(t.subrange(i, i + l) == ser_val(elems[k]));
    assert(jv_in_range(elems[k]));
    assert(t[i + l] == ',' || t[i + l] == ']');
    assert(ser_at(t, i, i + l, elems[k]));
}

/// One step inside a serialized object tail: the next member's key,
/// colon and value stand at `i`, with a separator or the closing brace
/// after them.
proof fn lemma_obj_tail_step(t: Seq<char>, i: int, end: int, mems: Seq<(Seq<char>, JsonVal)>, k: int)
    requires
        obj_tail_at(t, i, end, mems, k),
        k < mems.len(),
    ensures
        ({
            let kl = ser_string(mems[k].0).len() as int;
            let l = ser_val(mems[k].1).len() as int;
            &&& t[i] == '"'
            &&& i + kl + 1 + l <= end - 1
            &&& str_body_at(t, i + 1, i + kl, mems[k].0)
            &&& t[i + kl] == ':'
            &&& ser_at(t, i + kl + 1, i + kl + 1 + l, mems[k].1)
            &&& (k + 1 < mems.len() ==> t[i + kl + 1 + l] == ',' && obj_tail_at(t, i + kl + 2 + l, end, mems, k + 1))
            &&& (k + 1 == mems.len() ==> i + kl + 1 + l == end - 1 && t[i + kl + 1 + l] == '}')
        }),
{
    let tail = mems.subrange(k, mems.len() as int);
    let kl = ser_string(mems[k].0).len() as int;
    let l = ser_val(mems[k].1).len() as int;
    let mem_ser = (ser_string(mems[k].0) + seq![':']) + ser_val(mems[k].1);
    lemma_ser_fields_first(tail);
    assert(tail[0] == mems[k]);
    assert(t.subrange(i, end) == ser_fields(tail) + seq!['}']);
    assert(t.subrange(i, end).len() == end - i);
    assert((ser_fields(tail) + seq!['}']).len() == ser_fields(tail).len() + 1);
    assert(end - i == ser_fields(tail).len() + 1);
    if k + 1 == mems.len() {
        assert(tail.len() == 1);
        assert(ser_fields(tail) == mem_ser);
        assert(i + kl + 1 + l == end - 1);
        assert forall|m: int| 0 <= m < kl + 1 + l implies t[i + m] == mem_ser[m] by {
            assert(t.subrange(i, end)[m] == t[i + m]);
            assert((ser_fields(tail) + seq!['}'])[m] == mem_ser[m]);
        }
        assert(t.subrange(i, end)[kl + 1 + l] == t[i + kl + 1 + l]);
        assert((ser_fields(tail) + seq!['}'])[kl + 1 + l] == '}');
    } else {
        let rest = tail.drop_first();
        assert(ser_fields(tail) == (mem_ser + seq![',']) + ser_fields(rest));
        assert(i + kl + 1 + l + 1 + ser_fields(rest).len() == end - 1);
        assert forall|m: int| 0 <= m < kl + 1 + l implies t[i + m] == mem_ser[m] by {
            assert(t.subrange(i, end)[m] == t[i + m]);
            assert((ser_fields(tail) + seq!['}'])[m] == mem_ser[m]);
        }
        assert(t.subrange(i, end)[kl + 1 + l] == t[i + kl + 1 + l]);
        assert((ser_fields(tail) + seq!['}'])[kl + 1 + l] == ',');
        assert(rest =~= mems.subrange(k + 1, mems.len() as int));
        assert forall|m: int| 0 <= m < end - (i + kl + 2 + l) implies t.subrange(
            i + kl + 2 + l,
            end,
        )[m] == (ser_fields(rest) + seq!['}'])[m] by {
            assert(t.subrange(i + kl + 2 + l, end)[m] == t[i + kl + 2 + l + m]);
            assert(t.subrange(i, end)[kl + 2 + l + m] == t[i + kl + 2 + l + m]);
            assert((ser_fields(tail) + seq!['}'])[kl + 2 + l + m] == (ser_fields(rest)
                + seq!['}'])[m]);
        }
        assert(t.subrange(i + kl + 2 + l, end) =~= ser_fields(mems.subrange(k + 1, mems.len()
            as int)) + seq!['}']);
    }
    assert forall|m: int| 0 <= m < kl implies t[i + m] == ser_string(mems[k].0)[m] by {
        assert(mem_ser[m] == ser_string(mems[k].0)[m]);
    }
    assert(t[i] == ser_string(mems[k].0)[0]);
    assert(ser_string(mems[k].0)[0] == '"');
    assert forall|m: int| 0 <= m < kl - 1 implies t.subrange(i + 1, i + kl)[m] == (ser_str_body(
        mems[k].0,
    ) + seq!['"'])[m] by {
        assert(t.subrange(i + 1, i + kl)[m] == t[i + 1 + m]);
        assert(t[i + 1 + m] == ser_string(mems[k].0)[1 + m]);
        assert(ser_string(mems[k].0)[1 + m] == (ser_str_body(mems[k].0) + seq!['"'])[m]);
    }
    assert(t.subrange(i + 1, i + kl) =~= ser_str_body(mems[k].0) + seq!['"']);
    assert(str_body_at(t, i + 1, i + kl, mems[k].0));
    assert(mem_ser[kl] == ':');
    assert(t[i + kl] == ':');
    assert forall|m: int| 0 <= m < l implies t.subrange(i + kl + 1, i + kl + 1 + l)[m] == ser_val(
        mems[k].1,
    )[m] by {
        assert(t.subrange(i + kl + 1, i + kl + 1 + l)[m] == t[i + kl + 1 + m]);
        assert(mem_ser[kl + 1 + m] == ser_val(mems[k].1)[m]);
    }
    assert(t.subrange(i + kl + 1, i + kl + 1 + l) =~= ser_val(mems[k].1));
    assert(jv_in_range(mems[k].1));
    assert(t[i + kl + 1 + l] == ',' || t[i + kl + 1 + l] == '}');
    assert(ser_at(t, i + kl + 1, i + kl + 1 + l, mems[k].1));
}

/// What the first character of a serialized value's text fixes.
proof fn lemma_ser_at_shape(t: Seq<char>, pos: int, end: int, val: JsonVal)
    requires
        ser_at(t, pos, end, val),
    ensures
        pos < end,
        end - pos == ser_val(val).len(),
        t[pos] == ser_val(val)[0],
        forall|m: int| 0 <= m < end - pos ==> t[pos + m] == #[trigger] ser_val(val)[m],
{
    lemma_ser_val_first(val);
    assert(t.subrange(pos, end).len() == end - pos);
    assert forall|m: int| 0 <= m < end - pos implies t[pos + m] == #[trigger] ser_val(val)[m] by {
        assert(t.subrange(pos, end)[m] == t[pos + m]);
    }
}

/// A serialized value whose text starts with `n` is the null literal.
proof fn null_branch_facts(t: Seq<char>, pos: int, end: int, val: JsonVal)
    requires
        ser_at(t, pos, end, val),
        t[pos] == 'n',
    ensures
        val == JsonVal::Null,
        end == pos + 4,
        pos + 4 <= t.len(),
        t[pos + 1] == 'u' && t[pos + 2] == 'l' && t[pos + 3] == 'l',
{
    lemma_ser_at_shape(t, pos, end, val);
    lemma_ser_val_first(val);
    assert(val is Null);
    assert(t[pos + 1] == ser_val(val)[1]);
    assert(t[pos + 2] == ser_val(val)[2]);
    assert(t[pos + 3] == ser_val(val)[3]);
}

/// A serialized value whose text starts with `t` is the true literal.
proof fn true_branch_facts(t: Seq<char>, pos: int, end: int, val: JsonVal)
    requires
        ser_at(t, pos, end, val),
        t[pos] == 't',
    ensures
        val == JsonVal::Bool(true),
        end == pos + 4,
        pos + 4 <= t.len(),
        t[pos + 1] == 'r' && t[pos + 2] == 'u' && t[pos + 3] == 'e',
{
    lemma_ser_at_shape(t, pos, end, val);
    lemma_ser_val_first(val);
    assert(val == JsonVal::Bool(true));
    assert(t[pos + 1] == ser_val(val)[1]);
    assert(t[pos + 2] == ser_val(val)[2]);
    assert(t[pos + 3] == ser_val(val)[3]);
}

/// A serialized value whose text starts with `f` is the false literal.
proof fn false_branch_facts(t: Seq<char>, pos: int, end: int, val: JsonVal)
    requires
        ser_at(t, pos, end, val),
        t[pos] == 'f',
    ensures
        val == JsonVal::Bool(false),
        end == pos + 5,
        pos + 5 <= t.len(),
        t[pos + 1] == 'a' && t[pos + 2] == 'l' && t[pos + 3] == 's' && t[pos + 4] == 'e',
{
    lemma_ser_at_shape(t, pos, end, val);
    lemma_ser_val_first(val);
    assert(val == JsonVal::Bool(false));
    assert(t[pos + 1] == ser_val(val)[1]);
    assert(t[pos + 2] == ser_val(val)[2]);
    assert(t[pos + 3] == ser_val(val)[3]);
    assert(t[pos + 4] == ser_val(val)[4]);
}

/// A serialized value whose text starts with a quote is a string, and the
/// body premise holds past the opening quote.
proof fn str_branch_facts(t: Seq<char>, pos: int, end: int, val: JsonVal)
    requires
        ser_at(t, pos, end, val),
        t[pos] == '"',
    ensures
        val matches JsonVal::Str(s0) && str_body_at(t, pos + 1, end, s0),
{
    lemma_ser_at_shape(t, pos, end, val);
    lemma_ser_val_first(val);
    assert(val is Str);
    let s0 = val->Str_0;
    assert(ser_val(val) == (seq!['"'] + ser_str_body(s0)) + seq!['"']);
    assert forall|m: int| 0 <= m < end - pos - 1 implies t.subrange(pos + 1, end)[m]
        == (ser_str_body(s0) + seq!['"'])[m] by {
        assert(t.subrange(pos + 1, end)[m] == t[pos + 1 + m]);
        assert(t[pos + 1 + m] == ser_val(val)[1 + m]);
    }
    assert(t.subrange(pos + 1, end) =~= ser_str_body(s0) + seq!['"']);
}

/// A serialized value whose text starts with a sign or digit is a number.
proof fn int_branch_facts(t: Seq<char>, pos: int, end: int, val: JsonVal)
    requires
        ser_at(t, pos, end, val),
        t[pos] == '-' || is_digit(t[pos]),
    ensures
        val matches JsonVal::Int(n) && int_at(t, pos, end, n),
{
    lemma_ser_at_shape(t, pos, end, val);
    lemma_ser_val_first(val);
    assert(val is Int);
}

/// The opening of a serialized array: either the closing bracket follows
/// at once, or the element tail premise holds.
pub open spec fn arr_entry(t: Seq<char>, pos: int, end: int, elems: Seq<JsonVal>) -> bool {
    &&& pos + 2 <= end <= t.len()
    &&& !is_ws(t[pos + 1])
    &&& (elems.len() == 0 ==> t[pos + 1] == ']' && end == pos + 2)
    &&& (elems.len() > 0 ==> t[pos + 1] != ']' && arr_tail_at(t, pos + 1, end, elems, 0))
}

/// A serialized value whose text starts with a bracket is an array.
proof fn arr_branch_facts(t: Seq<char>, pos: int, end: int, val: JsonVal)
    requires
        ser_at(t, pos, end, val),
        t[pos] == '[',
    ensures
        val matches JsonVal::Arr(elems) && arr_entry(t, pos, end, elems),
{
    lemma_ser_at_shape(t, pos, end, val);
    lemma_ser_val_first(val);
    assert(val is Arr);
    let elems = val->Arr_0;
    assert(ser_val(val) == (seq!['['] + ser_items(elems)) + seq![']']);
    assert(end - pos == ser_items(elems).len() + 2);
    assert forall|m: int| 0 <= m < end - pos - 1 implies t.subrange(pos + 1, end)[m]
        == (ser_items(elems) + seq![']'])[m] by {
        assert(t.subrange(pos + 1, end)[m] == t[pos + 1 + m]);
        assert(t[pos + 1 + m] == ser_val(val)[1 + m]);
    }
    assert(t.subrange(pos + 1, end) =~= ser_items(elems) + seq![']']);
    assert(elems.subrange(0, elems.len() as int) =~= elems);
    if elems.len() == 0 {
        assert(t.subrange(pos + 1, end)[0] == t[pos + 1]);
        assert(t[pos + 1] == ']');
    } else {
        assert(arr_tail_at(t, pos + 1, end, elems, 0));
        lemma_arr_tail_step(t, pos + 1, end, elems, 0);
        lemma_ser_at_shape(t, pos + 1, pos + 1 + ser_val(elems[0]).len() as int, elems[0]);
        lemma_ser_val_first(elems[0]);
    }
}

/// The opening of a serialized object: either the closing brace follows at
/// once, or the member tail premise holds.
pub open spec fn obj_entry(t: Seq<char>, pos: int, end: int, mems: Seq<(Seq<char>, JsonVal)>) -> bool {
    &&& pos + 2 <= end <= t.len()
    &&& !is_ws(t[pos + 1])
    &&& (mems.len() == 0 ==> t[pos + 1] == '}' && end == pos + 2)
    &&& (mems.len() > 0 ==> t[pos + 1] != '}' && obj_tail_at(t, pos + 1, end, mems, 0))
}

/// A serialized value whose text starts with a brace is an object.
proof fn obj_branch_facts(t: Seq<char>, pos: int, end: int, val: JsonVal)
    requires
        ser_at(t, pos, end, val),
        t[pos] == '{',
    ensures
        val matches JsonVal::Obj(mems) && obj_entry(t, pos, end, mems),
{
    lemma_ser_at_shape(t, pos, end, val);
    lemma_ser_val_first(val);
    assert(val is Obj);
    let mems = val->Obj_0;
    assert(ser_val(val) == (seq!['{'] + ser_fields(mems)) + seq!['}']);
    assert(end - pos == ser_fields(mems).len() + 2);
    assert forall|m: int| 0 <= m < end - pos - 1 implies t.subrange(pos + 1, end)[m]
        == (ser_fields(mems) + seq!['}'])[m] by {
        assert(t.subrange(pos + 1, end)[m] == t[pos + 1 + m]);
        assert(t[pos + 1 + m] == ser_val(val)[1 + m]);
    }
    assert(t.subrange(pos + 1, end) =~= ser_fields(mems) + seq!['}']);
    assert(mems.subrange(0, mems.len() as int) =~= mems);
    if mems.len() == 0 {
        assert(t.subrange(pos + 1, end)[0] == t[pos + 1]);
        assert(t[pos + 1] == '}');
    } else {
        assert(obj_tail_at(t, pos + 1, end, mems, 0));
        lemma_obj_tail_step(t, pos + 1, end, mems, 0);
        assert(t[pos + 1] == '"');
    }
}

/// Loop state while parsing an array: the elements parsed so far are a
/// proper prefix of `elems`, and the rest of their serialization follows
/// at `i`.
pub open spec fn arr_loop_state(t: Seq<char>, i: int, got: Seq<JsonVal>, elems: Seq<JsonVal>, end: int) -> bool {
    let k = got.len() as int;
    &&& k < elems.len()
    &&& got == elems.subrange(0, k)
    &&& arr_tail_at(t, i, end, elems, k)
}

/// Loop state while parsing an object: the members parsed so far are a
/// proper prefix of `mems`, and the rest of their serialization follows
/// at `i`.
pub open spec fn obj_loop_state(t: Seq<char>, i: int, got: Seq<(Seq<char>, JsonVal)>, mems: Seq<(Seq<char>, JsonVal)>, end: int) -> bool {
    let k = got.len() as int;
    &&& k < mems.len()
    &&& got == mems.subrange(0, k)
    &&& obj_tail_at(t, i, end, mems, k)
}

/// Parse one JSON value starting at `pos`; returns the value and the position
/// just past it.
#[verifier::loop_isolation(false)]
#[verifier::rlimit(100)]
#[verifier::spinoff_prover]
pub fn parse_value(v: &Vec<char>, pos: usize) -> (r: Option<(Json, usize)>)
    requires
        pos <= v@.len(),
    ensures
        r matches Some((_, p)) ==> pos < p <= v@.len(),
        forall|val: JsonVal, end: int|
            #[trigger] ser_at(v@, pos as int, end, val) ==> (r matches Some((j, p)) && j@ == val
                && p == end),
    decreases v@.len() - pos,
{
    if pos >= v.len() {
        proof {
            assert forall|val: JsonVal, end: int|
                #[trigger] ser_at(v@, pos as int, end, val) implies false by {
                lemma_ser_at_shape(v@, pos as int, end, val);
            }
        }
        return None;
    }
    let c = v[pos];
    if c == 'n' {
        if expect_lit(v, pos + 1, 'u', 'l', 'l') {
            proof {
                assert forall|val: JsonVal, end: int|
                    #[trigger] ser_at(v@, pos as int, end, val) implies (val == JsonVal::Null
                    && end == pos as int + 4) by {
                    null_branch_facts(v@, pos as int, end, val);
                }
            }
            Some((Json::Null, pos + 4))
        } else {
            proof {
                assert forall|val: JsonVal, end: int|
                    #[trigger] ser_at(v@, pos as int, end, val) implies false by {
                    null_branch_facts(v@, pos as int, end, val);
                }
            }
            None
        }
    } else if c == 't' {
        if expect_lit(v, pos + 1, 'r', 'u', 'e') {
            proof {
                assert forall|val: JsonVal, end: int|
                    #[trigger] ser_at(v@, pos as int, end, val) implies (val == JsonVal::Bool(true)
                    && end == pos as int + 4) by {
                    true_branch_facts(v@, pos as int, end, val);
                }
            }
            Some((Json::Bool(true), pos + 4))
        } else {
            proof {
                assert forall|val: JsonVal, end: int|
                    #[trigger] ser_at(v@, pos as int, end, val) implies false by {
                    true_branch_facts(v@, pos as int, end, val);
                }
            }
            None
        }
    } else if c == 'f' {
        if v.len() >= 5 && pos <= v.len() - 5 && v[pos + 1] == 'a' && v[pos + 2] == 'l' && v[pos
            + 3] == 's' && v[pos + 4] == 'e' {
            proof {
                assert forall|val: JsonVal, end: int|
                    #[trigger] ser_at(v@, pos as int, end, val) implies (val == JsonVal::Bool(
                    false,
                ) && end == pos as int + 5) by {
                    false_branch_facts(v@, pos as int, end, val);
                }
            }
            Some((Json::Bool(false), pos + 5))
        } else {
            proof {
                assert forall|val: JsonVal, end: int|
                    #[trigger] ser_at(v@, pos as int, end, val) implies false by {
                    false_branch_facts(v@, pos as int, end, val);
                }
            }
            None
        }
    } else if c == '"' {
        let sb = parse_string_body(v, pos + 1);
        proof {
            assert forall|val: JsonVal, end: int|
                #[trigger] ser_at(v@, pos as int, end, val) implies (sb matches Some((out, p))
                && val == JsonVal::Str(out@) && p == end) by {
                str_branch_facts(v@, pos as int, end, val);
                assert(str_body_at(v@, pos as int + 1, end, val->Str_0));
            }
        }
        match sb {
            Some((s, p)) => Some((Json::Str(s), p)),
            None => None,
        }
    } else if c == '-' || ('0' <= c && c <= '9') {
        let r = parse_number(v, pos);
        proof {
            assert forall|val: JsonVal, end: int|
                #[trigger] ser_at(v@, pos as int, end, val) implies (r matches Some((j, p)) && j@
                == val && p == end) by {
                int_branch_facts(v@, pos as int, end, val);
                assert(int_at(v@, pos as int, end, val->Int_0));
            }
        }
        r
    } else if c == '[' {
        let mut items: Vec<Json> = Vec::new();
        let mut i: usize = skip_ws(v, pos + 1);
        proof {
            assert forall|val: JsonVal, end: int|
                #[trigger] ser_at(v@, pos as int, end, val) implies (val matches JsonVal::Arr(
                elems,
            ) && arr_entry(v@, pos as int, end, elems) && i as int == pos as int + 1) by {
                arr_branch_facts(v@, pos as int, end, val);
            }
        }
        if i < v.len() && v[i] == ']' {
            proof {
                assert(jvals_of(items@) =~= Seq::<JsonVal>::empty());
                assert forall|val: JsonVal, end: int|
                    #[trigger] ser_at(v@, pos as int, end, val) implies (val == JsonVal::Arr(
                    jvals_of(items@),
                ) && end == i as int + 1) by {
                    arr_branch_facts(v@, pos as int, end, val);
                    let elems = val->Arr_0;
                    if elems.len() > 0 {
                        assert(false);
                    }
                    assert(elems =~= jvals_of(items@));
                }
            }
            return Some((Json::Arr(items), i + 1));
        }
        proof {
            assert(jvals_of(items@) =~= Seq::<JsonVal>::empty());
            assert forall|val: JsonVal, end: int|
                #[trigger] ser_at(v@, pos as int, end, val) implies (val matches JsonVal::Arr(
                elems,
            ) && arr_loop_state(v@, i as int, jvals_of(items@), elems, end)) by {
                arr_branch_facts(v@, pos as int, end, val);
                let elems = val->Arr_0;
                if elems.len() == 0 {
                    assert(v@[i as int] == ']');
                    assert(false);
                }
                assert(jvals_of(items@) =~= elems.subrange(0, 0));
            }
        }
        loop
            invariant
                pos < i <= v@.len(),
                forall|val: JsonVal, end: int|
                    #[trigger] ser_at(v@, pos as int, end, val) ==> (val matches JsonVal::Arr(
                    elems,
                ) && arr_loop_state(v@, i as int, jvals_of(items@), elems, end)),
            decreases v@.len() - i,
        {
            let ghost i0 = i as int;
            let ghost items0 = items@;
            let parsed = parse_value(v, i);
            let (item, p) = match parsed {
                Some(x) => x,
                None => {
                    proof {
                        assert forall|val: JsonVal, end: int|
                            #[trigger] ser_at(v@, pos as int, end, val) implies false by {
                            let elems = val->Arr_0;
                            let k = jvals_of(items0).len() as int;
                            lemma_arr_tail_step(v@, i0, end, elems, k);
                            assert(ser_at(v@, i0, i0 + ser_val(elems[k]).len() as int, elems[k]));
                        }
                    }
                    return None;
                },
            };
            items.push(item);
            let i2 = skip_ws(v, p);
            if i2 < v.len() && v[i2] == ',' {
                let i3 = skip_ws(v, i2 + 1);
                if i3 >= v.len() {
                    proof {
                        assert forall|val: JsonVal, end: int|
                            #[trigger] ser_at(v@, pos as int, end, val) implies false by {
                            let elems = val->Arr_0;
                            let k = jvals_of(items0).len() as int;
                            lemma_arr_tail_step(v@, i0, end, elems, k);
                            assert(ser_at(v@, i0, i0 + ser_val(elems[k]).len() as int, elems[k]));
                            if k + 1 == elems.len() {
                                assert(v@[p as int] == ']');
                                assert(false);
                            }
                            assert(i2 as int == p as int);
                            lemma_arr_tail_step(v@, p as int + 1, end, elems, k + 1);
                            lemma_ser_at_shape(
                                v@,
                                p as int + 1,
                                p as int + 1 + ser_val(elems[k + 1]).len() as int,
                                elems[k + 1],
                            );
                            lemma_ser_val_first(elems[k + 1]);
                            assert(i3 as int == p as int + 1);
                        }
                    }
                    return None;
                }
                proof {
                    assert forall|val: JsonVal, end: int|
                        #[trigger] ser_at(v@, pos as int, end, val) implies (val
                        matches JsonVal::Arr(elems) && arr_loop_state(v@, i3 as int, jvals_of(
                        items@,
                    ), elems, end)) by {
                        let elems = val->Arr_0;
                        let k = jvals_of(items0).len() as int;
                        lemma_arr_tail_step(v@, i0, end, elems, k);
                        assert(ser_at(v@, i0, i0 + ser_val(elems[k]).len() as int, elems[k]));
                        assert(item@ == elems[k]);
                        if k + 1 == elems.len() {
                            assert(v@[p as int] == ']');
                            assert(false);
                        }
                        assert(i2 as int == p as int);
                        lemma_arr_tail_step(v@, p as int + 1, end, elems, k + 1);
                        lemma_ser_at_shape(
                            v@,
                            p as int + 1,
                            p as int + 1 + ser_val(elems[k + 1]).len() as int,
                            elems[k + 1],
                        );
                        lemma_ser_val_first(elems[k + 1]);
                        assert(i3 as int == p as int + 1);
                        lemma_jvals_of_push(items0, item);
                        assert(elems.subrange(0, k + 1) =~= elems.subrange(0, k)
                            + seq![elems[k]]);
                        assert(jvals_of(items@) == elems.subrange(0, k + 1));
                    }
                }
                i = i3;
            } else if i2 < v.len() && v[i2] == ']' {
                proof {
                    assert forall|val: JsonVal, end: int|
                        #[trigger] ser_at(v@, pos as int, end, val) implies (val == JsonVal::Arr(
                        jvals_of(items@),
                    ) && end == i2 as int + 1) by {
                        let elems = val->Arr_0;
                        let k = jvals_of(items0).len() as int;
                        lemma_arr_tail_step(v@, i0, end, elems, k);
                        assert(ser_at(v@, i0, i0 + ser_val(elems[k]).len() as int, elems[k]));
                        assert(item@ == elems[k]);
                        if k + 1 < elems.len() {
                            assert(v@[p as int] == ',');
                            assert(false);
                        }
                        assert(i2 as int == p as int);
                        lemma_jvals_of_push(items0, item);
                        assert(elems.subrange(0, k + 1) =~= elems.subrange(0, k)
                            + seq![elems[k]]);
                        assert(elems.subrange(0, k + 1) =~= elems);
                        assert(jvals_of(items@) == elems);
                    }
                }
                return Some((Json::Arr(items), i2 + 1));
            } else {
                proof {
                    assert forall|val: JsonVal, end: int|
                        #[trigger] ser_at(v@, pos as int, end, val) implies false by {
                        let elems = val->Arr_0;
                        let k = jvals_of(items0).len() as int;
                        lemma_arr_tail_step(v@, i0, end, elems, k);
                        assert(ser_at(v@, i0, i0 + ser_val(elems[k]).len() as int, elems[k]));
                        assert(i2 as int == p as int);
                        if k + 1 == elems.len() {
                            assert(v@[p as int] == ']');
                        } else {
                            assert(v@[p as int] == ',');
                        }
                    }
                }
                return None;
            }
        }
    } else if c == '{' {
        let mut fields: Vec<(String, Json)> = Vec::new();
        let mut i: usize = skip_ws(v, pos + 1);
        proof {
            assert forall|val: JsonVal, end: int|
                #[trigger] ser_at(v@, pos as int, end, val) implies (val matches JsonVal::Obj(
                mems,
            ) && obj_entry(v@, pos as int, end, mems) && i as int == pos as int + 1) by {
                obj_branch_facts(v@, pos as int, end, val);
            }
        }
        if i < v.len() && v[i] == '}' {
            proof {
                assert(jfields_of(fields@) =~= Seq::<(Seq<char>, JsonVal)>::empty());
                assert forall|val: JsonVal, end: int|
                    #[trigger] ser_at(v@, pos as int, end, val) implies (val == JsonVal::Obj(
                    jfields_of(fields@),
                ) && end == i as int + 1) by {
                    obj_branch_facts(v@, pos as int, end, val);
                    let mems = val->Obj_0;
                    if mems.len() > 0 {
                        assert(false);
                    }
                    assert(mems =~= jfields_of(fields@));
                }
            }
            return Some((Json::Obj(fields), i + 1));
        }
        proof {
            assert(jfields_of(fields@) =~= Seq::<(Seq<char>, JsonVal)>::empty());
            assert forall|val: JsonVal, end: int|
                #[trigger] ser_at(v@, pos as int, end, val) implies (val matches JsonVal::Obj(
                mems,
            ) && obj_loop_state(v@, i as int, jfields_of(fields@), mems, end)) by {
                obj_branch_facts(v@, pos as int, end, val);
                let mems = val->Obj_0;
                if mems.len() == 0 {
                    assert(v@[i as int] == '}');
                    assert(false);
                }
                assert(jfields_of(fields@) =~= mems.subrange(0, 0));
            }
        }
        loop
            invariant
                pos < i <= v@.len(),
                forall|val: JsonVal, end: int|
                    #[trigger] ser_at(v@, pos as int, end, val) ==> (val matches JsonVal::Obj(
                    mems,
                ) && obj_loop_state(v@, i as int, jfields_of(fields@), mems, end)),
            decreases v@.len() - i,
        {
            let ghost i0 = i as int;
            let ghost fields0 = fields@;
            if i >= v.len() || v[i] != '"' {
                proof {
                    assert forall|val: JsonVal, end: int|
                        #[trigger] ser_at(v@, pos as int, end, val) implies false by {
                        let mems = val->Obj_0;
                        let k = jfields_of(fields0).len() as int;
                        lemma_obj_tail_step(v@, i0, end, mems, k);
                    }
                }
                return None;
            }
            let sb = parse_string_body(v, i + 1);
            let (key, kp) = match sb {
                Some(x) => x,
                None => {
                    proof {
                        assert forall|val: JsonVal, end: int|
                            #[trigger] ser_at(v@, pos as int, end, val) implies false by {
                            let mems = val->Obj_0;
                            let k = jfields_of(fields0).len() as int;
                            lemma_obj_tail_step(v@, i0, end, mems, k);
                            assert(str_body_at(
                                v@,
                                i0 + 1,
                                i0 + ser_string(mems[k].0).len() as int,
                                mems[k].0,
                            ));
                        }
                    }
                    return None;
                },
            };
            let j0: usize = skip_ws(v, kp);
            if j0 >= v.len() || v[j0] != ':' {
                proof {
                    assert forall|val: JsonVal, end: int|
                        #[trigger] ser_at(v@, pos as int, end, val) implies false by {
                        let mems = val->Obj_0;
                        let k = jfields_of(fields0).len() as int;
                        lemma_obj_tail_step(v@, i0, end, mems, k);
                        assert(str_body_at(
                            v@,
                            i0 + 1,
                            i0 + ser_string(mems[k].0).len() as int,
                            mems[k].0,
                        ));
                        assert(kp as int == i0 + ser_string(mems[k].0).len() as int);
                        assert(v@[kp as int] == ':');
                        assert(j0 as int == kp as int);
                    }
                }
                return None;
            }
            let j: usize = skip_ws(v, j0 + 1);
            let parsed = parse_value(v, j);
            let (vj, p) = match parsed {
                Some(x) => x,
                None => {
                    proof {
                        assert forall|val: JsonVal, end: int|
                            #[trigger] ser_at(v@, pos as int, end, val) implies false by {
                            let mems = val->Obj_0;
                        let k = jfields_of(fields0).len() as int;
                        lemma_obj_tail_step(v@, i0, end, mems, k);
                        let kl = ser_string(mems[k].0).len() as int;
                        let l = ser_val(mems[k].1).len() as int;
                        assert(str_body_at(v@, i0 + 1, i0 + kl, mems[k].0));
                        assert(kp as int == i0 + kl);
                        assert(v@[i0 + kl] == ':');
                        assert(j0 as int == i0 + kl);
                        lemma_ser_at_shape(v@, i0 + kl + 1, i0 + kl + 1 + l, mems[k].1);
                        lemma_ser_val_first(mems[k].1);
                        assert(j as int == i0 + kl + 1);
                        assert(ser_at(v@, j as int, i0 + kl + 1 + l, mems[k].1));
                        }
                    }
                    return None;
                },
            };
            fields.push((key, vj));
            let i2 = skip_ws(v, p);
            if i2 < v.len() && v[i2] == ',' {
                let i3 = skip_ws(v, i2 + 1);
                if i3 >= v.len() {
                    proof {
                        assert forall|val: JsonVal, end: int|
                            #[trigger] ser_at(v@, pos as int, end, val) implies false by {
                            let mems = val->Obj_0;
                        let k = jfields_of(fields0).len() as int;
                        lemma_obj_tail_step(v@, i0, end, mems, k);
                        let kl = ser_string(mems[k].0).len() as int;
                        let l = ser_val(mems[k].1).len() as int;
                        assert(str_body_at(v@, i0 + 1, i0 + kl, mems[k].0));
                        assert(kp as int == i0 + kl);
                        assert(v@[i0 + kl] == ':');
                        assert(j0 as int == i0 + kl);
                        lemma_ser_at_shape(v@, i0 + kl + 1, i0 + kl + 1 + l, mems[k].1);
                        lemma_ser_val_first(mems[k].1);
                        assert(j as int == i0 + kl + 1);
                        assert(ser_at(v@, j as int, i0 + kl + 1 + l, mems[k].1));
                            if k + 1 == mems.len() {
                                assert(v@[p as int] == '}');
                                assert(false);
                            }
                            assert(i2 as int == p as int);
                            lemma_obj_tail_step(v@, p as int + 1, end, mems, k + 1);
                            assert(i3 as int == p as int + 1);
                        }
                    }
                    return None;
                }
                proof {
                    assert forall|val: JsonVal, end: int|
                        #[trigger] ser_at(v@, pos as int, end, val) implies (val
                        matches JsonVal::Obj(mems) && obj_loop_state(v@, i3 as int, jfields_of(
                        fields@,
                    ), mems, end)) by {
                        let mems = val->Obj_0;
                        let k = jfields_of(fields0).len() as int;
                        lemma_obj_tail_step(v@, i0, end, mems, k);
                        let kl = ser_string(mems[k].0).len() as int;
                        let l = ser_val(mems[k].1).len() as int;
                        assert(str_body_at(v@, i0 + 1, i0 + kl, mems[k].0));
                        assert(kp as int == i0 + kl);
                        assert(v@[i0 + kl] == ':');
                        assert(j0 as int == i0 + kl);
                        lemma_ser_at_shape(v@, i0 + kl + 1, i0 + kl + 1 + l, mems[k].1);
                        lemma_ser_val_first(mems[k].1);
                        assert(j as int == i0 + kl + 1);
                        assert(ser_at(v@, j as int, i0 + kl + 1 + l, mems[k].1));
                        assert(key@ == mems[k].0);
                        assert(vj@ == mems[k].1);
                        if k + 1 == mems.len() {
                            assert(v@[p as int] == '}');
                            assert(false);
                        }
                        assert(i2 as int == p as int);
                        lemma_obj_tail_step(v@, p as int + 1, end, mems, k + 1);
                        assert(i3 as int == p as int + 1);
                        lemma_jfields_of_push(fields0, key, vj);
                        assert(mems[k] == (mems[k].0, mems[k].1));
                        assert(mems.subrange(0, k + 1) =~= mems.subrange(0, k) + seq![mems[k]]);
                        assert(jfields_of(fields@) == mems.subrange(0, k + 1));
                    }
                }
                i = i3;
            } else if i2 < v.len() && v[i2] == '}' {
                proof {
                    assert forall|val: JsonVal, end: int|
                        #[trigger] ser_at(v@, pos as int, end, val) implies (val == JsonVal::Obj(
                        jfields_of(fields@),
                    ) && end == i2 as int + 1) by {
                        let mems = val->Obj_0;
                        let k = jfields_of(fields0).len() as int;
                        lemma_obj_tail_step(v@, i0, end, mems, k);
                        let kl = ser_string(mems[k].0).len() as int;
                        let l = ser_val(mems[k].1).len() as int;
                        assert(str_body_at(v@, i0 + 1, i0 + kl, mems[k].0));
                        assert(kp as int == i0 + kl);
                        assert(v@[i0 + kl] == ':');
                        assert(j0 as int == i0 + kl);
                        lemma_ser_at_shape(v@, i0 + kl + 1, i0 + kl + 1 + l, mems[k].1);
                        lemma_ser_val_first(mems[k].1);
                        assert(j as int == i0 + kl + 1);
                        assert(ser_at(v@, j as int, i0 + kl + 1 + l, mems[k].1));
                        assert(key@ == mems[k].0);
                        assert(vj@ == mems[k].1);
                        if k + 1 < mems.len() {
                            assert(v@[p as int] == ',');
                            assert(false);
                        }
                        assert(i2 as int == p as int);
                        lemma_jfields_of_push(fields0, key, vj);
                        assert(mems[k] == (mems[k].0, mems[k].1));
                        assert(mems.subrange(0, k + 1) =~= mems.subrange(0, k) + seq![mems[k]]);
                        assert(mems.subrange(0, k + 1) =~= mems);
                        assert(jfields_of(fields@) == mems);
                    }
                }
                return Some((Json::Obj(fields), i2 + 1));
            } else {
                proof {
                    assert forall|val: JsonVal, end: int|
                        #[trigger] ser_at(v@, pos as int, end, val) implies false by {
                        let mems = val->Obj_0;
                        let k = jfields_of(fields0).len() as int;
                        lemma_obj_tail_step(v@, i0, end, mems, k);
                        let kl = ser_string(mems[k].0).len() as int;
                        let l = ser_val(mems[k].1).len() as int;
                        assert(str_body_at(v@, i0 + 1, i0 + kl, mems[k].0));
                        assert(kp as int == i0 + kl);
                        assert(v@[i0 + kl] == ':');
                        assert(j0 as int == i0 + kl);
                        lemma_ser_at_shape(v@, i0 + kl + 1, i0 + kl + 1 + l, mems[k].1);
                        lemma_ser_val_first(mems[k].1);
                        assert(j as int == i0 + kl + 1);
                        assert(ser_at(v@, j as int, i0 + kl + 1 + l, mems[k].1));
                        assert(i2 as int == p as int);
                        if k + 1 == mems.len() {
                            assert(v@[p as int] == '}');
                        } else {
                            assert(v@[p as int] == ',');
                        }
                    }
                }
                return None;
            }
        }
    } else {
        proof {
            assert forall|val: JsonVal, end: int|
                #[trigger] ser_at(v@, pos as int, end, val) implies false by {
                lemma_ser_at_shape(v@, pos as int, end, val);
                lemma_ser_val_first(val);
            }
        }
        None
    }
}

/// Parse a complete JSON document: one value surrounded by whitespace only.
/// Whatever the serializer can produce, this parser reads back: text that is
/// exactly the serialization of a value in range yields that value.
pub fn parse_json_text(s: &str) -> (r: Option<Json>)
    ensures
        forall|val: JsonVal|
            (s@ == #[trigger] ser_val(val) && jv_in_range(val)) ==> (r matches Some(j) && j@
                == val),
{
    let v = str_to_chars(s);
    let start = skip_ws(&v, 0);
    proof {
        assert forall|val: JsonVal| s@ == #[trigger] ser_val(val) && jv_in_range(val) implies (
        ser_at(v@, start as int, v@.len() as int, val) && start == 0) by {
            lemma_ser_val_first(val);
            assert(v@.subrange(0, v@.len() as int) =~= v@);
            assert(ser_at(v@, 0, v@.len() as int, val));
            assert(v@[0] == ser_val(val)[0]);
            assert(start == 0);
        }
    }
    match parse_value(&v, start) {
        Some((j, p)) => {
            let end = skip_ws(&v, p);
            if end == v.len() {
                Some(j)
            } else {
                None
            }
        },
        None => None,
    }
}

} // verus!
