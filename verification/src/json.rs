//! JSON values as the library reads and writes them, with the compact text
//! form used for message hashes and content digests.
//!
//! Objects are ordered sequences of key/value entries; `canonical_json`
//! orders keys and keeps one entry per key, the form in which JSON objects
//! are hashed.

use vstd::prelude::*;
use crate::text::{chars_of, push_char, push_str, copy_str, compare_str, seq_lt, TextOrder, lemma_seq_lt_total, lemma_seq_lt_asymmetric, lemma_seq_lt_irreflexive};
use crate::hashing::{sha256_hex, sha256_hex_of};

verus! {

broadcast use vstd::string::group_string_axioms;

/// A JSON number: a non-negative integer, a negative integer, or a floating
/// point number carried by its compact text (floats are never computed on
/// here).
#[derive(Debug, Clone, PartialEq)]
pub enum JsonNumber {
    PosInt(u64),
    NegInt(i64),
    Float(String),
}

/// A JSON value.
#[derive(Debug, PartialEq)]
pub enum JsonValue {
    Null,
    Bool(bool),
    Number(JsonNumber),
    Str(String),
    Array(Vec<JsonValue>),
    Object(Vec<(String, JsonValue)>),
}

/// Mathematical model of a JSON number.
pub enum NumModel {
    PosInt(u64),
    NegInt(i64),
    Float(Seq<char>),
}

/// Mathematical model of a JSON value.
pub enum Json {
    Null,
    Bool(bool),
    Num(NumModel),
    Str(Seq<char>),
    Arr(Seq<Json>),
    Obj(Seq<(Seq<char>, Json)>),
}

impl JsonNumber {
    pub open spec fn model(&self) -> NumModel {
        match self {
            JsonNumber::PosInt(u) => NumModel::PosInt(*u),
            JsonNumber::NegInt(i) => NumModel::NegInt(*i),
            JsonNumber::Float(t) => NumModel::Float(t@),
        }
    }
}

impl JsonValue {
    pub open spec fn model(&self) -> Json
        decreases self, 1nat,
    {
        match self {
            JsonValue::Null => Json::Null,
            JsonValue::Bool(b) => Json::Bool(*b),
            JsonValue::Number(n) => Json::Num(n.model()),
            JsonValue::Str(s) => Json::Str(s@),
            JsonValue::Array(items) => Json::Arr(models_of(items@)),
            JsonValue::Object(entries) => Json::Obj(entry_models_of(entries@)),
        }
    }
}

pub open spec fn models_of(items: Seq<JsonValue>) -> Seq<Json>
    decreases items, 0nat,
{
    if items.len() == 0 {
        Seq::empty()
    } else {
        seq![items[0].model()] + models_of(items.subrange(1, items.len() as int))
    }
}

pub open spec fn entry_models_of(entries: Seq<(String, JsonValue)>) -> Seq<(Seq<char>, Json)>
    decreases entries, 0nat,
{
    if entries.len() == 0 {
        Seq::empty()
    } else {
        seq![(entries[0].0@, entries[0].1.model())] + entry_models_of(
            entries.subrange(1, entries.len() as int),
        )
    }
}

pub proof fn lemma_models_of(s: Seq<JsonValue>)
    ensures
        models_of(s).len() == s.len(),
        forall|k: int| 0 <= k < s.len() ==> #[trigger] models_of(s)[k] == s[k].model(),
    decreases s.len(),
{
    if s.len() > 0 {
        lemma_models_of(s.subrange(1, s.len() as int));
    }
}

pub proof fn lemma_entry_models_of(s: Seq<(String, JsonValue)>)
    ensures
        entry_models_of(s).len() == s.len(),
        forall|k: int|
            0 <= k < s.len() ==> #[trigger] entry_models_of(s)[k] == (s[k].0@, s[k].1.model()),
    decreases s.len(),
{
    if s.len() > 0 {
        lemma_entry_models_of(s.subrange(1, s.len() as int));
    }
}

// ---------------------------------------------------------------------------
// Compact text
// ---------------------------------------------------------------------------

/// The decimal digit character for a value below 10.
pub open spec fn digit_char(d: int) -> char {
    if d == 0 { '0' } else if d == 1 { '1' } else if d == 2 { '2' } else if d == 3 { '3' }
    else if d == 4 { '4' } else if d == 5 { '5' } else if d == 6 { '6' } else if d == 7 { '7' }
    else if d == 8 { '8' } else { '9' }
}

/// Decimal text of a natural number, without leading zeros.
pub open spec fn decimal(n: nat) -> Seq<char>
    decreases n,
{
    if n < 10 {
        seq![digit_char(n as int)]
    } else {
        decimal(n / 10).push(digit_char((n % 10) as int))
    }
}

/// Decimal text of an integer, with a leading minus sign when negative.
pub open spec fn int_text(i: int) -> Seq<char> {
    if i < 0 {
        seq!['-'] + decimal((-i) as nat)
    } else {
        decimal(i as nat)
    }
}

pub open spec fn num_text(n: NumModel) -> Seq<char> {
    match n {
        NumModel::PosInt(u) => decimal(u as nat),
        NumModel::NegInt(i) => int_text(i as int),
        NumModel::Float(t) => t,
    }
}

/// Text of one character inside a JSON string literal: quote and backslash
/// are escaped, control characters get their short escape or `\u00XX`.
pub open spec fn escape_char(c: char) -> Seq<char> {
    if c == '"' {
        seq!['\\', '"']
    } else if c == '\\' {
        seq!['\\', '\\']
    } else if c == '\u{8}' {
        seq!['\\', 'b']
    } else if c == '\t' {
        seq!['\\', 't']
    } else if c == '\n' {
        seq!['\\', 'n']
    } else if c == '\u{c}' {
        seq!['\\', 'f']
    } else if c == '\r' {
        seq!['\\', 'r']
    } else if (c as int) < 0x20 {
        seq!['\\', 'u', '0', '0', crate::hashing::hex_digit((c as int) / 16), crate::hashing::hex_digit((c as int) % 16)]
    } else {
        seq![c]
    }
}

pub open spec fn escape_text(s: Seq<char>) -> Seq<char>
    decreases s.len(),
{
    if s.len() == 0 {
        Seq::empty()
    } else {
        escape_text(s.drop_last()) + escape_char(s.last())
    }
}

/// A quoted, escaped JSON string literal.
pub open spec fn string_text(s: Seq<char>) -> Seq<char> {
    seq!['"'] + escape_text(s) + seq!['"']
}

/// Compact JSON text: no whitespace, entries in the order held.
pub open spec fn json_text(j: Json) -> Seq<char>
    decreases j, 1nat,
{
    match j {
        Json::Null => seq!['n', 'u', 'l', 'l'],
        Json::Bool(b) => if b { seq!['t', 'r', 'u', 'e'] } else { seq!['f', 'a', 'l', 's', 'e'] },
        Json::Num(n) => num_text(n),
        Json::Str(s) => string_text(s),
        Json::Arr(items) => seq!['['] + items_text(items) + seq![']'],
        Json::Obj(entries) => seq!['{'] + entries_text(entries) + seq!['}'],
    }
}

pub open spec fn items_text(items: Seq<Json>) -> Seq<char>
    decreases items, 0nat,
{
    if items.len() == 0 {
        Seq::empty()
    } else if items.len() == 1 {
        json_text(items[0])
    } else {
        items_text(items.drop_last()) + seq![','] + json_text(items.last())
    }
}

pub open spec fn entries_text(entries: Seq<(Seq<char>, Json)>) -> Seq<char>
    decreases entries, 0nat,
{
    if entries.len() == 0 {
        Seq::empty()
    } else if entries.len() == 1 {
        string_text(entries[0].0) + seq![':'] + json_text(entries[0].1)
    } else {
        entries_text(entries.drop_last()) + seq![','] + string_text(entries.last().0) + seq![':']
            + json_text(entries.last().1)
    }
}

/// Appends the decimal text of `n`.
pub fn write_decimal(n: u64, out: &mut String)
    ensures
        final(out)@ == old(out)@ + decimal(n as nat),
    decreases n,
{
    if n >= 10 {
        write_decimal(n / 10, out);
    }
    let d = n % 10;
    let c = if d == 0 { '0' } else if d == 1 { '1' } else if d == 2 { '2' } else if d == 3 { '3' }
        else if d == 4 { '4' } else if d == 5 { '5' } else if d == 6 { '6' } else if d == 7 { '7' }
        else if d == 8 { '8' } else { '9' };
    push_char(out, c);
    proof {
        if n >= 10 {
            assert(decimal(n as nat) == decimal((n / 10) as nat).push(digit_char((n % 10) as int)));
        }
        assert(old(out)@ + decimal(n as nat) =~= (old(out)@ + decimal((n / 10) as nat)).push(c) || n < 10);
    }
}

/// Appends the decimal text of `i`.
pub fn write_int(i: i64, out: &mut String)
    ensures
        final(out)@ == old(out)@ + int_text(i as int),
{
    if i < 0 {
        push_char(out, '-');
        let m: u64 = ((-(i + 1)) as u64) + 1;
        write_decimal(m, out);
        proof {
            assert(old(out)@ + int_text(i as int) =~= old(out)@.push('-') + decimal(m as nat));
        }
    } else {
        write_decimal(i as u64, out);
    }
}

/// The hexadecimal digit character for a value below 16.
fn hex_char(n: u32) -> (c: char)
    requires
        n < 16,
    ensures
        c == crate::hashing::hex_digit(n as int),
{
    if n == 0 { '0' } else if n == 1 { '1' } else if n == 2 { '2' } else if n == 3 { '3' }
    else if n == 4 { '4' } else if n == 5 { '5' } else if n == 6 { '6' } else if n == 7 { '7' }
    else if n == 8 { '8' } else if n == 9 { '9' } else if n == 10 { 'a' } else if n == 11 { 'b' }
    else if n == 12 { 'c' } else if n == 13 { 'd' } else if n == 14 { 'e' } else { 'f' }
}

/// Appends the escaped text of one character.
pub fn write_escaped_char(c: char, out: &mut String)
    ensures
        final(out)@ == old(out)@ + escape_char(c),
{
    if c == '"' {
        push_char(out, '\\');
        push_char(out, '"');
    } else if c == '\\' {
        push_char(out, '\\');
        push_char(out, '\\');
    } else if c == '\u{8}' {
        push_char(out, '\\');
        push_char(out, 'b');
    } else if c == '\t' {
        push_char(out, '\\');
        push_char(out, 't');
    } else if c == '\n' {
        push_char(out, '\\');
        push_char(out, 'n');
    } else if c == '\u{c}' {
        push_char(out, '\\');
        push_char(out, 'f');
    } else if c == '\r' {
        push_char(out, '\\');
        push_char(out, 'r');
    } else if (c as u32) < 0x20 {
        let v = c as u32;
        push_char(out, '\\');
        push_char(out, 'u');
        push_char(out, '0');
        push_char(out, '0');
        push_char(out, hex_char(v / 16));
        push_char(out, hex_char(v % 16));
    } else {
        push_char(out, c);
    }
    proof {
        assert(final(out)@ =~= old(out)@ + escape_char(c));
    }
}

/// Appends a quoted, escaped JSON string literal.
pub fn write_string_literal(s: &str, out: &mut String)
    ensures
        final(out)@ == old(out)@ + string_text(s@),
{
    let cs = chars_of(s);
    push_char(out, '"');
    let ghost start = out@;
    let mut i: usize = 0;
    while i < cs.len()
        invariant
            i <= cs@.len(),
            cs@ == s@,
            out@ == start + escape_text(cs@.take(i as int)),
        decreases cs@.len() - i,
    {
        write_escaped_char(cs[i], out);
        proof {
            assert(cs@.take(i as int + 1).drop_last() =~= cs@.take(i as int));
        }
        i += 1;
    }
    push_char(out, '"');
    proof {
        assert(cs@.take(cs@.len() as int) =~= cs@);
        assert(final(out)@ =~= old(out)@ + string_text(s@));
    }
}

/// Appends the compact JSON text of `v`.
#[verifier::loop_isolation(false)]
#[verifier::rlimit(60)]
pub fn write_json(v: &JsonValue, out: &mut String)
    ensures
        final(out)@ == old(out)@ + json_text(v.model()),
    decreases v,
{
    match v {
        JsonValue::Null => {
            proof {
                reveal_strlit("null");
            }
            push_str(out, "null");
            proof {
                assert("null"@ =~= seq!['n', 'u', 'l', 'l']);
            }
        },
        JsonValue::Bool(b) => if *b {
            proof {
                reveal_strlit("true");
            }
            push_str(out, "true");
            proof {
                assert("true"@ =~= seq!['t', 'r', 'u', 'e']);
            }
        } else {
            proof {
                reveal_strlit("false");
            }
            push_str(out, "false");
            proof {
                assert("false"@ =~= seq!['f', 'a', 'l', 's', 'e']);
            }
        },
        JsonValue::Number(n) => match n {
            JsonNumber::PosInt(u) => write_decimal(*u, out),
            JsonNumber::NegInt(i) => write_int(*i, out),
            JsonNumber::Float(t) => push_str(out, t.as_str()),
        },
        JsonValue::Str(s) => write_string_literal(s.as_str(), out),
        JsonValue::Array(items) => {
            proof {
                lemma_models_of(items@);
            }
            push_char(out, '[');
            let ghost start = out@;
            let mut i: usize = 0;
            while i < items.len()
                invariant
                    i <= items@.len(),
                    out@ == start + items_text(models_of(items@).take(i as int)),
                decreases items@.len() - i,
            {
                if i > 0 {
                    push_char(out, ',');
                }
                assert(decreases_to!(*v => *items));
                assert(decreases_to!(*items => items@));
                assert(decreases_to!(items@ => items@[i as int]));
                write_json(&items[i], out);
                proof {
                    let ms = models_of(items@);
                    assert(ms.take(i as int + 1).drop_last() =~= ms.take(i as int));
                    assert(ms.take(i as int + 1).last() == items@[i as int].model());
                    if i == 0 {
                        assert(ms.take(0) =~= Seq::<Json>::empty());
                    }
                }
                i += 1;
            }
            push_char(out, ']');
            proof {
                assert(models_of(items@).take(items@.len() as int) =~= models_of(items@));
                assert(final(out)@ =~= old(out)@ + json_text(v.model()));
            }
        },
        JsonValue::Object(entries) => {
            proof {
                lemma_entry_models_of(entries@);
            }
            push_char(out, '{');
            let ghost start = out@;
            let mut i: usize = 0;
            while i < entries.len()
                invariant
                    i <= entries@.len(),
                    out@ == start + entries_text(entry_models_of(entries@).take(i as int)),
                decreases entries@.len() - i,
            {
                if i > 0 {
                    push_char(out, ',');
                }
                write_string_literal(entries[i].0.as_str(), out);
                push_char(out, ':');
                assert(decreases_to!(*v => *entries));
                assert(decreases_to!(*entries => entries@));
                assert(decreases_to!(entries@ => entries@[i as int]));
                assert(decreases_to!(entries@[i as int] => entries@[i as int].1));
                write_json(&entries[i].1, out);
                proof {
                    let ms = entry_models_of(entries@);
                    assert(ms.take(i as int + 1).drop_last() =~= ms.take(i as int));
                    assert(ms.take(i as int + 1).last() == (entries@[i as int].0@, entries@[i as int].1.model()));
                    if i == 0 {
                        assert(ms.take(0) =~= Seq::<(Seq<char>, Json)>::empty());
                    }
                }
                i += 1;
            }
            push_char(out, '}');
            proof {
                assert(entry_models_of(entries@).take(entries@.len() as int) =~= entry_models_of(entries@));
                assert(final(out)@ =~= old(out)@ + json_text(v.model()));
            }
        },
    }
}

/// The compact JSON text of `v`.
pub fn to_json_text(v: &JsonValue) -> (s: String)
    ensures
        s@ == json_text(v.model()),
{
    let mut s = String::new();
    write_json(v, &mut s);
    proof {
        assert(Seq::<char>::empty() + json_text(v.model()) =~= json_text(v.model()));
    }
    s
}


// ---------------------------------------------------------------------------
// Copies
// ---------------------------------------------------------------------------

/// A copy of a JSON number.
pub fn clone_number(n: &JsonNumber) -> (r: JsonNumber)
    ensures
        r.model() == n.model(),
{
    match n {
        JsonNumber::PosInt(u) => JsonNumber::PosInt(*u),
        JsonNumber::NegInt(i) => JsonNumber::NegInt(*i),
        JsonNumber::Float(t) => JsonNumber::Float(copy_str(t.as_str())),
    }
}

/// A deep copy of a JSON value.
#[verifier::loop_isolation(false)]
pub fn clone_json(v: &JsonValue) -> (r: JsonValue)
    ensures
        r.model() == v.model(),
    decreases v,
{
    match v {
        JsonValue::Null => JsonValue::Null,
        JsonValue::Bool(b) => JsonValue::Bool(*b),
        JsonValue::Number(n) => JsonValue::Number(clone_number(n)),
        JsonValue::Str(s) => JsonValue::Str(copy_str(s.as_str())),
        JsonValue::Array(items) => {
            let mut out: Vec<JsonValue> = Vec::new();
            let mut i: usize = 0;
            while i < items.len()
                invariant
                    i <= items@.len(),
                    out@.len() == i,
                    forall|k: int| 0 <= k < i ==> #[trigger] out@[k].model() == items@[k].model(),
                decreases items@.len() - i,
            {
                assert(decreases_to!(*v => *items));
                assert(decreases_to!(*items => items@));
                assert(decreases_to!(items@ => items@[i as int]));
                let c = clone_json(&items[i]);
                out.push(c);
                i += 1;
            }
            proof {
                lemma_models_of(out@);
                lemma_models_of(items@);
                assert(models_of(out@) =~= models_of(items@));
            }
            JsonValue::Array(out)
        },
        JsonValue::Object(entries) => {
            let mut out: Vec<(String, JsonValue)> = Vec::new();
            let mut i: usize = 0;
            while i < entries.len()
                invariant
                    i <= entries@.len(),
                    out@.len() == i,
                    forall|k: int|
                        0 <= k < i ==> #[trigger] out@[k].1.model() == entries@[k].1.model()
                            && out@[k].0@ == entries@[k].0@,
                decreases entries@.len() - i,
            {
                assert(decreases_to!(*v => *entries));
                assert(decreases_to!(*entries => entries@));
                assert(decreases_to!(entries@ => entries@[i as int]));
                assert(decreases_to!(entries@[i as int] => entries@[i as int].1));
                let c = clone_json(&entries[i].1);
                let k = copy_str(entries[i].0.as_str());
                out.push((k, c));
                i += 1;
            }
            proof {
                lemma_entry_models_of(out@);
                lemma_entry_models_of(entries@);
                assert(entry_models_of(out@) =~= entry_models_of(entries@));
            }
            JsonValue::Object(out)
        },
    }
}

// ---------------------------------------------------------------------------
// Reading values
// ---------------------------------------------------------------------------

/// The value of the first entry with key `key`, if any.
pub open spec fn lookup(entries: Seq<(Seq<char>, Json)>, key: Seq<char>) -> Option<Json>
    decreases entries.len(),
{
    if entries.len() == 0 {
        None
    } else if entries[0].0 == key {
        Some(entries[0].1)
    } else {
        lookup(entries.drop_first(), key)
    }
}

/// The member `key` of an object; `None` for other values or absent keys.
pub open spec fn json_get(j: Json, key: Seq<char>) -> Option<Json> {
    match j {
        Json::Obj(entries) => lookup(entries, key),
        _ => None,
    }
}

/// The text of a string value.
pub open spec fn json_str(j: Json) -> Option<Seq<char>> {
    match j {
        Json::Str(s) => Some(s),
        _ => None,
    }
}

/// The text of the string member `key`, if the member exists and is a string.
pub open spec fn json_get_str(j: Json, key: Seq<char>) -> Option<Seq<char>> {
    match json_get(j, key) {
        Some(m) => json_str(m),
        None => None,
    }
}

/// The value of an integer that fits in `i64`.
pub open spec fn json_as_i64(j: Json) -> Option<i64> {
    match j {
        Json::Num(NumModel::PosInt(u)) => if u <= i64::MAX { Some(u as i64) } else { None },
        Json::Num(NumModel::NegInt(i)) => Some(i),
        _ => None,
    }
}

impl JsonValue {
    pub fn is_null(&self) -> (r: bool)
        ensures
            r == (self.model() is Null),
    {
        match self {
            JsonValue::Null => true,
            _ => false,
        }
    }

    pub fn is_object(&self) -> (r: bool)
        ensures
            r == (self.model() is Obj),
    {
        match self {
            JsonValue::Object(_) => true,
            _ => false,
        }
    }

    pub fn as_str(&self) -> (r: Option<&String>)
        ensures
            match r {
                Some(s) => json_str(self.model()) == Some(s@),
                None => json_str(self.model()) is None,
            },
    {
        match self {
            JsonValue::Str(s) => Some(s),
            _ => None,
        }
    }

    pub fn as_i64(&self) -> (r: Option<i64>)
        ensures
            r == json_as_i64(self.model()),
    {
        match self {
            JsonValue::Number(JsonNumber::PosInt(u)) => if *u <= 0x7fff_ffff_ffff_ffffu64 {
                Some(*u as i64)
            } else {
                None
            },
            JsonValue::Number(JsonNumber::NegInt(i)) => Some(*i),
            _ => None,
        }
    }

    /// The member `key` of an object value.
    #[verifier::loop_isolation(false)]
    pub fn get(&self, key: &str) -> (r: Option<&JsonValue>)
        ensures
            match r {
                Some(m) => json_get(self.model(), key@) == Some(m.model()),
                None => json_get(self.model(), key@) is None,
            },
    {
        match self {
            JsonValue::Object(entries) => {
                proof {
                    lemma_entry_models_of(entries@);
                }
                let ghost ms = entry_models_of(entries@);
                proof {
                    assert(ms.skip(0) =~= ms);
                }
                let mut i: usize = 0;
                while i < entries.len()
                    invariant
                        i <= entries@.len(),
                        ms == entry_models_of(entries@),
                        ms.len() == entries@.len(),
                        forall|k: int| 0 <= k < entries@.len() ==> #[trigger] ms[k] == (entries@[k].0@, entries@[k].1.model()),
                        lookup(ms, key@) == lookup(ms.skip(i as int), key@),
                    decreases entries@.len() - i,
                {
                    if compare_str(entries[i].0.as_str(), key) == TextOrder::Equal {
                        proof {
                            assert(ms.skip(i as int)[0] == ms[i as int]);
                        }
                        return Some(&entries[i].1);
                    }
                    proof {
                        assert(ms.skip(i as int).drop_first() =~= ms.skip(i as int + 1));
                        assert(ms.skip(i as int)[0] == ms[i as int]);
                    }
                    i += 1;
                }
                proof {
                    assert(ms.skip(i as int).len() == 0);
                }
                None
            },
            _ => None,
        }
    }

    /// The text of the string member `key`.
    pub fn get_str(&self, key: &str) -> (r: Option<&String>)
        ensures
            match r {
                Some(s) => json_get_str(self.model(), key@) == Some(s@),
                None => json_get_str(self.model(), key@) is None,
            },
    {
        match self.get(key) {
            Some(m) => m.as_str(),
            None => None,
        }
    }

    /// Whether an object value has the member `key`.
    pub fn contains_key(&self, key: &str) -> (r: bool)
        ensures
            r == (json_get(self.model(), key@) is Some),
    {
        self.get(key).is_some()
    }
}

// ---------------------------------------------------------------------------
// Canonical form and digests
// ---------------------------------------------------------------------------

/// Inserts an entry into a key-ordered entry sequence, replacing the value of
/// an entry with the same key (the behavior of an ordered map insert).
pub open spec fn sorted_insert(s: Seq<(Seq<char>, Json)>, k: Seq<char>, v: Json) -> Seq<(Seq<char>, Json)>
    decreases s.len(),
{
    if s.len() == 0 {
        seq![(k, v)]
    } else if s[0].0 == k {
        s.update(0, (k, v))
    } else if seq_lt(k, s[0].0) {
        seq![(k, v)] + s
    } else {
        seq![s[0]] + sorted_insert(s.drop_first(), k, v)
    }
}

/// The canonical form of a JSON value: object keys in order, one entry per
/// key (the last one given), applied at every depth.
pub open spec fn canonical(j: Json) -> Json
    decreases j, 1nat,
{
    match j {
        Json::Arr(items) => Json::Arr(canonical_items(items)),
        Json::Obj(entries) => Json::Obj(canonical_entries(entries)),
        _ => j,
    }
}

pub open spec fn canonical_items(items: Seq<Json>) -> Seq<Json>
    decreases items, 0nat,
{
    if items.len() == 0 {
        Seq::empty()
    } else {
        canonical_items(items.drop_last()).push(canonical(items.last()))
    }
}

pub open spec fn canonical_entries(entries: Seq<(Seq<char>, Json)>) -> Seq<(Seq<char>, Json)>
    decreases entries, 0nat,
{
    if entries.len() == 0 {
        Seq::empty()
    } else {
        sorted_insert(
            canonical_entries(entries.drop_last()),
            entries.last().0,
            canonical(entries.last().1),
        )
    }
}

proof fn lemma_sorted_insert_prefix(s: Seq<(Seq<char>, Json)>, k: Seq<char>, v: Json, i: int)
    requires
        0 <= i <= s.len(),
        forall|j: int| 0 <= j < i ==> seq_lt(#[trigger] s[j].0, k),
    ensures
        sorted_insert(s, k, v) == s.take(i) + sorted_insert(s.skip(i), k, v),
    decreases i,
{
    if i == 0 {
        assert(s.skip(0) =~= s);
        assert(s.take(0) + sorted_insert(s, k, v) =~= sorted_insert(s, k, v));
    } else {
        lemma_seq_lt_irreflexive(k);
        lemma_seq_lt_asymmetric(s[0].0, k);
        lemma_sorted_insert_prefix(s.drop_first(), k, v, i - 1);
        assert(s.drop_first().skip(i - 1) =~= s.skip(i));
        assert(seq![s[0]] + s.drop_first().take(i - 1) =~= s.take(i));
        assert(seq![s[0]] + (s.drop_first().take(i - 1) + sorted_insert(s.skip(i), k, v))
            =~= s.take(i) + sorted_insert(s.skip(i), k, v));
    }
}

/// Inserts `(k, v)` in key order, replacing the value of an equal key.
fn insert_entry(out: &mut Vec<(String, JsonValue)>, k: String, v: JsonValue)
    ensures
        entry_models_of(final(out)@) == sorted_insert(entry_models_of(old(out)@), k@, v.model()),
{
    proof {
        lemma_entry_models_of(out@);
    }
    let ghost ms = entry_models_of(out@);
    let ghost kv = k@;
    let ghost vm = v.model();
    let mut i: usize = 0;
    while i < out.len()
        invariant
            i <= out@.len(),
            out@ == old(out)@,
            ms == entry_models_of(out@),
            ms.len() == out@.len(),
            forall|j: int| 0 <= j < out@.len() ==> #[trigger] ms[j] == (out@[j].0@, out@[j].1.model()),
            k@ == kv,
            v.model() == vm,
            forall|j: int| 0 <= j < i ==> seq_lt(#[trigger] ms[j].0, kv),
        ensures
            i <= out@.len(),
            out@ == old(out)@,
            k@ == kv,
            v.model() == vm,
            forall|j: int| 0 <= j < i ==> seq_lt(#[trigger] ms[j].0, kv),
            i < out@.len() ==> !seq_lt(ms[i as int].0, kv),
        decreases out@.len() - i,
    {
        if compare_str(out[i].0.as_str(), k.as_str()) != TextOrder::Less {
            break;
        }
        i += 1;
    }
    proof {
        lemma_sorted_insert_prefix(ms, kv, vm, i as int);
    }
    if i < out.len() && compare_str(out[i].0.as_str(), k.as_str()) == TextOrder::Equal {
        out.set(i, (k, v));
        proof {
            lemma_entry_models_of(out@);
            assert(ms.skip(i as int)[0] == ms[i as int]);
            assert(ms.skip(i as int).update(0, (kv, vm)) =~= ms.skip(i as int).update(0, (kv, vm)));
            assert(entry_models_of(out@) =~= ms.take(i as int) + ms.skip(i as int).update(0, (kv, vm)));
        }
    } else {
        proof {
            if i < ms.len() {
                lemma_seq_lt_total(ms[i as int].0, kv);
                assert(ms.skip(i as int)[0] == ms[i as int]);
            }
        }
        out.insert(i, (k, v));
        proof {
            lemma_entry_models_of(out@);
            assert(entry_models_of(out@) =~= ms.take(i as int) + (seq![(kv, vm)] + ms.skip(i as int)));
        }
    }
}

/// The canonical form of `v` (see `canonical`).
#[verifier::loop_isolation(false)]
pub fn canonical_json(v: &JsonValue) -> (r: JsonValue)
    ensures
        r.model() == canonical(v.model()),
    decreases v,
{
    match v {
        JsonValue::Array(items) => {
            proof {
                lemma_models_of(items@);
            }
            let mut out: Vec<JsonValue> = Vec::new();
            let mut i: usize = 0;
            while i < items.len()
                invariant
                    i <= items@.len(),
                    models_of(out@) == canonical_items(models_of(items@).take(i as int)),
                decreases items@.len() - i,
            {
                assert(decreases_to!(*v => *items));
                assert(decreases_to!(*items => items@));
                assert(decreases_to!(items@ => items@[i as int]));
                let c = canonical_json(&items[i]);
                let ghost before = out@;
                out.push(c);
                proof {
                    lemma_models_of(before);
                    lemma_models_of(out@);
                    let ms = models_of(items@);
                    assert(ms.take(i as int + 1).drop_last() =~= ms.take(i as int));
                    assert(models_of(out@) =~= models_of(before).push(c.model()));
                }
                i += 1;
            }
            proof {
                assert(models_of(items@).take(items@.len() as int) =~= models_of(items@));
            }
            JsonValue::Array(out)
        },
        JsonValue::Object(entries) => {
            proof {
                lemma_entry_models_of(entries@);
            }
            let mut out: Vec<(String, JsonValue)> = Vec::new();
            let mut i: usize = 0;
            proof {
                lemma_entry_models_of(out@);
                assert(entry_models_of(out@) =~= canonical_entries(entry_models_of(entries@).take(0)));
            }
            while i < entries.len()
                invariant
                    i <= entries@.len(),
                    entry_models_of(out@) == canonical_entries(entry_models_of(entries@).take(i as int)),
                decreases entries@.len() - i,
            {
                assert(decreases_to!(*v => *entries));
                assert(decreases_to!(*entries => entries@));
                assert(decreases_to!(entries@ => entries@[i as int]));
                assert(decreases_to!(entries@[i as int] => entries@[i as int].1));
                let c = canonical_json(&entries[i].1);
                let key = copy_str(entries[i].0.as_str());
                insert_entry(&mut out, key, c);
                proof {
                    let ms = entry_models_of(entries@);
                    assert(ms.take(i as int + 1).drop_last() =~= ms.take(i as int));
                }
                i += 1;
            }
            proof {
                assert(entry_models_of(entries@).take(entries@.len() as int) =~= entry_models_of(entries@));
            }
            JsonValue::Object(out)
        },
        _ => clone_json(v),
    }
}

/// The content digest of a JSON value: lowercase hex SHA-256 of the compact
/// text of its canonical form.
pub open spec fn digest_of(j: Json) -> Seq<char> {
    sha256_hex_of(json_text(canonical(j)))
}

/// Computes `digest_of(v)`.
pub fn compute_digest(v: &JsonValue) -> (r: String)
    ensures
        r@ == digest_of(v.model()),
        r@.len() == 64,
{
    let c = canonical_json(v);
    let t = to_json_text(&c);
    sha256_hex(t.as_str())
}

} // verus!

verus! {

/// Decimal text of an `i64`.
pub fn int_to_string(i: i64) -> (s: String)
    ensures
        s@ == int_text(i as int),
{
    let mut s = String::new();
    write_int(i, &mut s);
    proof {
        assert(Seq::<char>::empty() + int_text(i as int) =~= int_text(i as int));
    }
    s
}

/// A JSON string value.
pub fn json_string(s: &str) -> (v: JsonValue)
    ensures
        v.model() == Json::Str(s@),
{
    JsonValue::Str(copy_str(s))
}

/// A JSON non-negative integer value.
pub fn json_uint(n: u64) -> (v: JsonValue)
    ensures
        v.model() == Json::Num(NumModel::PosInt(n)),
{
    JsonValue::Number(JsonNumber::PosInt(n))
}

/// A JSON integer value (stored as a non-negative integer when it is one).
pub fn json_int(i: i64) -> (v: JsonValue)
    ensures
        v.model() == (if i >= 0 { Json::Num(NumModel::PosInt(i as u64)) } else { Json::Num(NumModel::NegInt(i)) }),
{
    if i >= 0 {
        JsonValue::Number(JsonNumber::PosInt(i as u64))
    } else {
        JsonValue::Number(JsonNumber::NegInt(i))
    }
}

/// A JSON object with the given entries, in the order given.
pub fn json_object(entries: Vec<(String, JsonValue)>) -> (v: JsonValue)
    ensures
        v.model() == Json::Obj(entry_models_of(entries@)),
{
    JsonValue::Object(entries)
}

/// A JSON array of strings.
pub fn json_string_array(items: &Vec<String>) -> (v: JsonValue)
    ensures
        v.model() == Json::Arr(Seq::new(items@.len(), |i: int| Json::Str(items@[i]@))),
{
    let mut out: Vec<JsonValue> = Vec::new();
    let mut i: usize = 0;
    while i < items.len()
        invariant
            i <= items@.len(),
            out@.len() == i,
            forall|k: int| 0 <= k < i ==> #[trigger] out@[k].model() == Json::Str(items@[k]@),
        decreases items@.len() - i,
    {
        out.push(json_string(items[i].as_str()));
        i += 1;
    }
    proof {
        lemma_models_of(out@);
        assert(models_of(out@) =~= Seq::new(items@.len(), |k: int| Json::Str(items@[k]@)));
    }
    JsonValue::Array(out)
}

} // verus!
