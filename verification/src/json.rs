//! A minimal JSON writer for the scriptable surface.
//!
//! Output is pure ASCII: every character above 0x7E, and every control
//! character, is written as a `\uXXXX` escape. Amiga names are ISO 8859-1, so
//! a byte maps to exactly one code point and the escape loses nothing.
use vstd::prelude::*;

use crate::text::{decimal, hex_digit, push_char, push_decimal};

verus! {

/// The version of the JSON surface, carried by every document.
pub const SCHEMA: &'static str = "1.9";

/// The name of the version field.
pub const SCHEMA_FIELD: &'static str = "schema";

/// A JSON value, built before it is written so its structure cannot be
/// malformed by a stray character.
#[derive(Debug)]
pub enum Value {
    /// `null`.
    Null,
    /// `true` or `false`.
    Bool(bool),
    /// A number; only integers are emitted.
    Num(u64),
    /// A string, escaped on write.
    Str(String),
    /// An array.
    Arr(Vec<Value>),
    /// An object, its fields in the order given.
    Obj(Vec<(&'static str, Value)>),
}

/// `n` as lower-case hexadecimal, at least one digit.
pub open spec fn hex(n: nat) -> Seq<char>
    decreases n,
{
    if n < 16 {
        seq![hex_digit(n)]
    } else {
        hex(n / 16).push(hex_digit(n % 16))
    }
}

/// `s` with zeros in front until it is at least `width` long.
pub open spec fn zero_pad(s: Seq<char>, width: nat) -> Seq<char>
    decreases width,
{
    if s.len() >= width {
        s
    } else {
        seq!['0'] + zero_pad(s, (width - 1) as nat)
    }
}

/// How one character of a string is written inside the quotes: a short
/// escape where JSON has one, `\uXXXX` for anything outside printable ASCII,
/// and a UTF-16 surrogate pair of two such escapes beyond U+FFFF.
pub open spec fn escape_char(c: char) -> Seq<char> {
    if c == '"' {
        seq!['\\', '"']
    } else if c == '\\' {
        seq!['\\', '\\']
    } else if c == '\n' {
        seq!['\\', 'n']
    } else if c == '\r' {
        seq!['\\', 'r']
    } else if c == '\t' {
        seq!['\\', 't']
    } else if c == '\u{08}' {
        seq!['\\', 'b']
    } else if c == '\u{0c}' {
        seq!['\\', 'f']
    } else if (c as u32) > 0xFFFF {
        u_escape(high_surrogate(c)) + u_escape(low_surrogate(c))
    } else if (c as u32) < 0x20 || (c as u32) > 0x7E {
        u_escape(c as u32 as nat)
    } else {
        seq![c]
    }
}

/// `\uXXXX` for a number below 0x10000: four lower-case hexadecimal digits.
pub open spec fn u_escape(n: nat) -> Seq<char> {
    seq!['\\', 'u'] + zero_pad(hex(n), 4)
}

/// The leading UTF-16 surrogate of a character beyond U+FFFF.
pub open spec fn high_surrogate(c: char) -> nat {
    (0xD800 + (c as u32 - 0x10000) / 1024) as nat
}

/// The trailing UTF-16 surrogate of a character beyond U+FFFF.
pub open spec fn low_surrogate(c: char) -> nat {
    (0xDC00 + (c as u32 - 0x10000) % 1024) as nat
}

/// The escaped body of a string, without its quotes.
pub open spec fn escape_body(s: Seq<char>) -> Seq<char>
    decreases s.len(),
{
    if s.len() == 0 {
        Seq::empty()
    } else {
        escape_body(s.drop_last()) + escape_char(s.last())
    }
}

/// A string literal as written: quoted and escaped.
pub open spec fn string_json(s: Seq<char>) -> Seq<char> {
    seq!['"'] + escape_body(s) + seq!['"']
}

/// The text of a JSON value, exactly as [`Value::to_json`] writes it.
pub open spec fn value_json(v: Value) -> Seq<char>
    decreases v,
{
    match v {
        Value::Null => seq!['n', 'u', 'l', 'l'],
        Value::Bool(b) => if b { seq!['t', 'r', 'u', 'e'] } else { seq!['f', 'a', 'l', 's', 'e'] },
        Value::Num(n) => decimal(n as nat),
        Value::Str(s) => string_json(s@),
        Value::Arr(items) => seq!['['] + items_json(items@) + seq![']'],
        Value::Obj(fields) => seq!['{'] + fields_json(fields@) + seq!['}'],
    }
}

/// Array elements, separated by commas.
pub open spec fn items_json(items: Seq<Value>) -> Seq<char>
    decreases items,
{
    if items.len() == 0 {
        Seq::empty()
    } else if items.len() == 1 {
        value_json(items[0])
    } else {
        items_json(items.drop_last()) + seq![','] + value_json(items.last())
    }
}

/// Object members, `"key":value`, separated by commas.
pub open spec fn fields_json(fields: Seq<(&'static str, Value)>) -> Seq<char>
    decreases fields,
{
    if fields.len() == 0 {
        Seq::empty()
    } else if fields.len() == 1 {
        string_json(fields[0].0@) + seq![':'] + value_json(fields[0].1)
    } else {
        fields_json(fields.drop_last()) + seq![','] + string_json(fields.last().0@) + seq![':']
            + value_json(fields.last().1)
    }
}

} // verus!

verus! {

proof fn lemma_zero_pad(s: Seq<char>, width: nat)
    ensures
        zero_pad(s, width) == (if s.len() >= width {
            s
        } else {
            Seq::new((width - s.len()) as nat, |_i: int| '0') + s
        }),
    decreases width,
{
    if s.len() < width {
        lemma_zero_pad(s, (width - 1) as nat);
        assert(zero_pad(s, width) =~= Seq::new((width - s.len()) as nat, |_i: int| '0') + s);
    }
}

/// The lower-case hexadecimal digit for `d`.
fn hex_char(d: u32) -> (c: char)
    requires
        d < 16,
    ensures
        c == hex_digit(d as nat),
{
    let table: [char; 16] = [
        '0', '1', '2', '3', '4', '5', '6', '7', '8', '9', 'a', 'b', 'c', 'd', 'e', 'f',
    ];
    let c = table[d as usize];
    proof {
        assert(table@[d as int] == hex_digit(d as nat));
    }
    c
}

/// How many hexadecimal digits `n` takes.
fn hex_width(n: u32) -> (w: usize)
    ensures
        w == hex(n as nat).len(),
        w <= n / 2 + 1,
    decreases n,
{
    if n < 16 {
        1
    } else {
        1 + hex_width(n / 16)
    }
}

/// Append `n` in lower-case hexadecimal.
pub(crate) fn push_hex(out: &mut String, n: u32)
    ensures
        final(out)@ == old(out)@ + hex(n as nat),
    decreases n,
{
    if n >= 16 {
        push_hex(out, n / 16);
    }
    push_char(out, hex_char(n % 16));
}

/// Append `n` in hexadecimal, zero-padded to `pad` digits.
pub(crate) fn push_hex_padded(out: &mut String, n: u32, pad: usize)
    ensures
        final(out)@ == old(out)@ + zero_pad(hex(n as nat), pad as nat),
{
    let width = hex_width(n);
    let ghost start = out@;
    proof {
        lemma_zero_pad(hex(n as nat), pad as nat);
    }
    let mut k: usize = width;
    while k < pad
        invariant
            width <= k,
            width == hex(n as nat).len(),
            k <= pad || k == width,
            out@ == start + Seq::new((k - width) as nat, |_i: int| '0'),
        decreases pad - k,
    {
        push_char(out, '0');
        k = k + 1;
        assert(out@ =~= start + Seq::new((k - width) as nat, |_i: int| '0'));
    }
    push_hex(out, n);
    assert(out@ =~= start + zero_pad(hex(n as nat), pad as nat));
}

/// Append `n` in hexadecimal, zero-padded to four digits.
fn push_hex4(out: &mut String, n: u32)
    ensures
        final(out)@ == old(out)@ + zero_pad(hex(n as nat), 4),
{
    push_hex_padded(out, n, 4);
}

/// Append the escaped form of one character.
fn push_escaped(out: &mut String, c: char)
    ensures
        final(out)@ == old(out)@ + escape_char(c),
{
    let ghost start = out@;
    if c == '"' {
        push_char(out, '\\');
        push_char(out, '"');
    } else if c == '\\' {
        push_char(out, '\\');
        push_char(out, '\\');
    } else if c == '\n' {
        push_char(out, '\\');
        push_char(out, 'n');
    } else if c == '\r' {
        push_char(out, '\\');
        push_char(out, 'r');
    } else if c == '\t' {
        push_char(out, '\\');
        push_char(out, 't');
    } else if c == '\u{08}' {
        push_char(out, '\\');
        push_char(out, 'b');
    } else if c == '\u{0c}' {
        push_char(out, '\\');
        push_char(out, 'f');
    } else if (c as u32) > 0xFFFF {
        let u: u32 = c as u32 - 0x10000;
        push_char(out, '\\');
        push_char(out, 'u');
        push_hex4(out, 0xD800 + u / 1024);
        push_char(out, '\\');
        push_char(out, 'u');
        push_hex4(out, 0xDC00 + u % 1024);
    } else if (c as u32) < 0x20 || (c as u32) > 0x7E {
        push_char(out, '\\');
        push_char(out, 'u');
        push_hex4(out, c as u32);
    } else {
        push_char(out, c);
    }
    assert(out@ =~= start + escape_char(c));
}

/// Write a JSON string literal, escaping everything that needs it.
fn write_string(out: &mut String, s: &str)
    ensures
        final(out)@ == old(out)@ + string_json(s@),
{
    broadcast use vstd::string::group_string_axioms;
    let ghost start = out@;
    let ghost mut seen: nat = 0;
    push_char(out, '"');
    for c in it: s.chars()
        invariant
            it.seq() == s@,
            seen == it.index(),
            seen <= s@.len(),
            out@ == start + seq!['"'] + escape_body(s@.take(seen as int)),
    {
        let ghost before = s@.take(seen as int);
        push_escaped(out, c);
        proof {
            assert(s@.take(seen + 1int).drop_last() =~= before);
            seen = seen + 1;
        }
    }
    push_char(out, '"');
    assert(s@.take(seen as int) =~= s@);
}

} // verus!

verus! {

proof fn lemma_items_step(s: Seq<Value>, i: int)
    requires
        0 <= i < s.len(),
    ensures
        items_json(s.take(i + 1)) == (if i == 0 {
            value_json(s[0])
        } else {
            items_json(s.take(i)) + seq![','] + value_json(s[i])
        }),
{
    assert(s.take(i + 1).drop_last() =~= s.take(i));
    assert(s.take(i + 1).last() == s[i]);
}

proof fn lemma_fields_step(s: Seq<(&'static str, Value)>, i: int)
    requires
        0 <= i < s.len(),
    ensures
        fields_json(s.take(i + 1)) == (if i == 0 {
            string_json(s[0].0@) + seq![':'] + value_json(s[0].1)
        } else {
            fields_json(s.take(i)) + seq![','] + string_json(s[i].0@) + seq![':'] + value_json(
                s[i].1,
            )
        }),
{
    assert(s.take(i + 1).drop_last() =~= s.take(i));
    assert(s.take(i + 1).last() == s[i]);
}

impl Value {
    /// Append this value's text to `out`.
    fn write(&self, out: &mut String)
        ensures
            final(out)@ == old(out)@ + value_json(*self),
        decreases self,
    {
        let ghost start = out@;
        match self {
            Value::Null => {
                push_char(out, 'n');
                push_char(out, 'u');
                push_char(out, 'l');
                push_char(out, 'l');
            },
            Value::Bool(b) => {
                if *b {
                    push_char(out, 't');
                    push_char(out, 'r');
                    push_char(out, 'u');
                    push_char(out, 'e');
                } else {
                    push_char(out, 'f');
                    push_char(out, 'a');
                    push_char(out, 'l');
                    push_char(out, 's');
                    push_char(out, 'e');
                }
            },
            Value::Num(n) => push_decimal(out, *n),
            Value::Str(s) => write_string(out, s.as_str()),
            Value::Arr(items) => {
                push_char(out, '[');
                let mut i: usize = 0;
                while i < items.len()
                    invariant
                        i <= items@.len(),
                        *self == Value::Arr(*items),
                        out@ == start + seq!['['] + items_json(items@.take(i as int)),
                    decreases items@.len() - i,
                {
                    proof {
                        lemma_items_step(items@, i as int);
                    }
                    if i > 0 {
                        push_char(out, ',');
                    }
                    proof {
                        assert(*self == Value::Arr(*items));
                        assert(decreases_to!(*self => self->Arr_0));
                        assert(decreases_to!(*items => items@));
                        assert(decreases_to!(items@ => items@[i as int]));
                        assert(decreases_to!(*self => items@[i as int]));
                    }
                    let child: &Value = &items[i];
                    child.write(out);
                    i = i + 1;
                }
                assert(items@.take(i as int) =~= items@);
                push_char(out, ']');
            },
            Value::Obj(fields) => {
                push_char(out, '{');
                let mut i: usize = 0;
                while i < fields.len()
                    invariant
                        i <= fields@.len(),
                        *self == Value::Obj(*fields),
                        out@ == start + seq!['{'] + fields_json(fields@.take(i as int)),
                    decreases fields@.len() - i,
                {
                    proof {
                        lemma_fields_step(fields@, i as int);
                    }
                    if i > 0 {
                        push_char(out, ',');
                    }
                    write_string(out, fields[i].0);
                    push_char(out, ':');
                    proof {
                        assert(decreases_to!(*self => self->Obj_0));
                        assert(decreases_to!(*fields => fields@));
                        assert(decreases_to!(fields@ => fields@[i as int]));
                        assert(decreases_to!(fields@[i as int] => fields@[i as int].1));
                        assert(decreases_to!(*self => fields@[i as int].1));
                    }
                    let child: &Value = &fields[i].1;
                    child.write(out);
                    i = i + 1;
                }
                assert(fields@.take(i as int) =~= fields@);
                push_char(out, '}');
            },
        }
        assert(out@ =~= start + value_json(*self));
    }

    /// Render to a compact string.
    pub fn to_json(&self) -> (out: String)
        ensures
            out@ == value_json(*self),
    {
        let mut out = String::new();
        self.write(&mut out);
        assert(out@ =~= value_json(*self));
        out
    }
}

} // verus!

verus! {

/// The characters of Latin-1 bytes: each byte is the code point of the same number.
pub open spec fn latin1_chars(bytes: Seq<u8>) -> Seq<char> {
    Seq::new(bytes.len(), |i: int| bytes[i] as char)
}

impl Value {
    /// A string value.
    pub fn str(s: &str) -> (v: Value)
        ensures
            v matches Value::Str(t) && t@ == s@,
    {
        Value::Str(s.to_owned())
    }

    /// A string value from raw Latin-1 bytes, as Amiga names are stored.
    pub fn latin1(bytes: &[u8]) -> (v: Value)
        ensures
            v matches Value::Str(t) && t@ == latin1_chars(bytes@),
    {
        let mut out = String::new();
        let mut i: usize = 0;
        while i < bytes.len()
            invariant
                i <= bytes@.len(),
                out@ == latin1_chars(bytes@.take(i as int)),
            decreases bytes@.len() - i,
        {
            push_char(&mut out, bytes[i] as char);
            i = i + 1;
            assert(out@ =~= latin1_chars(bytes@.take(i as int)));
        }
        assert(bytes@.take(i as int) =~= bytes@);
        Value::Str(out)
    }

    /// `Null` when `None`, otherwise the mapped value.
    pub fn opt<T, F: FnOnce(T) -> Value>(value: Option<T>, f: F) -> (v: Value)
        requires
            value matches Some(x) ==> f.requires((x,)),
        ensures
            value is None ==> v is Null,
            value matches Some(x) ==> f.ensures((x,), v),
    {
        match value {
            Some(x) => f(x),
            None => Value::Null,
        }
    }
}

} // verus!

verus! {

/// Every character is printable ASCII, 0x20 to 0x7E.
pub open spec fn printable_ascii(s: Seq<char>) -> bool {
    forall|i: int| 0 <= i < s.len() ==> 0x20 <= #[trigger] (s[i] as u32) <= 0x7E
}

proof fn lemma_printable_concat(a: Seq<char>, b: Seq<char>)
    requires
        printable_ascii(a),
        printable_ascii(b),
    ensures
        printable_ascii(a + b),
{
    assert forall|i: int| 0 <= i < (a + b).len() implies 0x20 <= #[trigger] ((a + b)[i] as u32)
        <= 0x7E by {
        if i < a.len() {
            assert((a + b)[i] == a[i]);
        } else {
            assert((a + b)[i] == b[i - a.len()]);
        }
    }
}

proof fn lemma_hex_printable(n: nat)
    ensures
        printable_ascii(hex(n)),
    decreases n,
{
    if n >= 16 {
        lemma_hex_printable(n / 16);
        lemma_printable_concat(hex(n / 16), seq![hex_digit(n % 16)]);
        assert(hex(n) =~= hex(n / 16) + seq![hex_digit(n % 16)]);
    }
}

proof fn lemma_decimal_printable(n: nat)
    ensures
        printable_ascii(decimal(n)),
    decreases n,
{
    if n >= 10 {
        lemma_decimal_printable(n / 10);
        let d = seq![(((n % 10) + 0x30) as u32) as char];
        lemma_printable_concat(decimal(n / 10), d);
        assert(decimal(n) =~= decimal(n / 10) + d);
    }
}

proof fn lemma_u_escape_printable(n: nat)
    ensures
        printable_ascii(u_escape(n)),
{
    let h = hex(n);
    lemma_hex_printable(n);
    lemma_zero_pad(h, 4);
    if h.len() < 4 {
        let z = Seq::new((4 - h.len()) as nat, |_i: int| '0');
        lemma_printable_concat(z, h);
    }
    lemma_printable_concat(seq!['\\', 'u'], zero_pad(h, 4));
}

proof fn lemma_escape_char_printable(c: char)
    ensures
        printable_ascii(escape_char(c)),
{
    if !(c == '"' || c == '\\' || c == '\n' || c == '\r' || c == '\t' || c == '\u{08}' || c
        == '\u{0c}') {
        if (c as u32) > 0xFFFF {
            lemma_u_escape_printable(high_surrogate(c));
            lemma_u_escape_printable(low_surrogate(c));
            lemma_printable_concat(u_escape(high_surrogate(c)), u_escape(low_surrogate(c)));
        } else if (c as u32) < 0x20 || (c as u32) > 0x7E {
            lemma_u_escape_printable(c as u32 as nat);
        }
    }
}

proof fn lemma_escape_body_printable(s: Seq<char>)
    ensures
        printable_ascii(escape_body(s)),
    decreases s.len(),
{
    if s.len() > 0 {
        lemma_escape_body_printable(s.drop_last());
        lemma_escape_char_printable(s.last());
        lemma_printable_concat(escape_body(s.drop_last()), escape_char(s.last()));
    }
}

proof fn lemma_string_printable(s: Seq<char>)
    ensures
        printable_ascii(string_json(s)),
{
    lemma_escape_body_printable(s);
    lemma_printable_concat(seq!['"'], escape_body(s));
    lemma_printable_concat(seq!['"'] + escape_body(s), seq!['"']);
}

proof fn lemma_items_printable(items: Seq<Value>)
    ensures
        printable_ascii(items_json(items)),
    decreases items,
{
    if items.len() == 1 {
        lemma_value_printable(items[0]);
    } else if items.len() > 1 {
        lemma_items_printable(items.drop_last());
        lemma_value_printable(items.last());
        lemma_printable_concat(items_json(items.drop_last()), seq![',']);
        lemma_printable_concat(items_json(items.drop_last()) + seq![','], value_json(items.last()));
    }
}

proof fn lemma_fields_printable(fields: Seq<(&'static str, Value)>)
    ensures
        printable_ascii(fields_json(fields)),
    decreases fields,
{
    if fields.len() >= 1 {
        let f = fields.last();
        lemma_string_printable(f.0@);
        lemma_value_printable(f.1);
        lemma_printable_concat(string_json(f.0@), seq![':']);
        lemma_printable_concat(string_json(f.0@) + seq![':'], value_json(f.1));
        if fields.len() > 1 {
            lemma_fields_printable(fields.drop_last());
            let head = fields_json(fields.drop_last());
            lemma_printable_concat(head, seq![',']);
            lemma_printable_concat(head + seq![','], string_json(f.0@));
            lemma_printable_concat(head + seq![','] + string_json(f.0@), seq![':']);
            lemma_printable_concat(
                head + seq![','] + string_json(f.0@) + seq![':'],
                value_json(f.1),
            );
        } else {
            assert(fields[0] == f);
        }
    }
}

/// Whatever a value holds, its JSON text is printable ASCII: every character
/// that is not is escaped, so the output is safe through any pipe or terminal.
pub proof fn lemma_value_printable(v: Value)
    ensures
        printable_ascii(value_json(v)),
    decreases v,
{
    match v {
        Value::Null => {},
        Value::Bool(b) => {},
        Value::Num(n) => lemma_decimal_printable(n as nat),
        Value::Str(s) => lemma_string_printable(s@),
        Value::Arr(items) => {
            assert(decreases_to!(v => v->Arr_0));
            lemma_items_printable(items@);
            lemma_printable_concat(seq!['['], items_json(items@));
            lemma_printable_concat(seq!['['] + items_json(items@), seq![']']);
        },
        Value::Obj(fields) => {
            assert(decreases_to!(v => v->Obj_0));
            lemma_fields_printable(fields@);
            lemma_printable_concat(seq!['{'], fields_json(fields@));
            lemma_printable_concat(seq!['{'] + fields_json(fields@), seq!['}']);
        },
    }
}

} // verus!

verus! {

/// The value of a lower-case hexadecimal digit.
pub open spec fn hex_value(c: char) -> int {
    let n = c as u32;
    if 0x30 <= n <= 0x39 {
        n - 0x30
    } else if 0x61 <= n <= 0x66 {
        n - 0x61 + 10
    } else {
        0
    }
}

/// The character a two-character escape `\k` stands for.
pub open spec fn unescape_simple(k: char) -> char {
    if k == 'n' {
        '\n'
    } else if k == 'r' {
        '\r'
    } else if k == 't' {
        '\t'
    } else if k == 'b' {
        '\u{08}'
    } else if k == 'f' {
        '\u{0c}'
    } else {
        k
    }
}

/// The number four hexadecimal digits from `k` spell.
pub open spec fn hex4_value(s: Seq<char>, k: int) -> int {
    hex_value(s[k]) * 4096 + hex_value(s[k + 1]) * 256 + hex_value(s[k + 2]) * 16 + hex_value(s[k + 3])
}

/// How a JSON reader decodes an escaped string body back into code points:
/// `\uXXXX` is four hexadecimal digits, a leading surrogate escaped so and
/// followed by an escaped trailing one is the single character the pair
/// encodes, and any other `\k` is a single character.
pub open spec fn unescape(s: Seq<char>) -> Seq<u32>
    decreases s.len(),
{
    if s.len() == 0 {
        Seq::empty()
    } else if s[0] == '\\' && s.len() >= 2 {
        if s[1] == 'u' && s.len() >= 6 {
            let v = hex4_value(s, 2);
            if 0xD800 <= v <= 0xDBFF && s.len() >= 12 && s[6] == '\\' && s[7] == 'u' && 0xDC00 <= hex4_value(
                s,
                8,
            ) <= 0xDFFF {
                seq![(0x10000 + (v - 0xD800) * 1024 + (hex4_value(s, 8) - 0xDC00)) as u32] + unescape(
                    s.skip(12),
                )
            } else {
                seq![v as u32] + unescape(s.skip(6))
            }
        } else {
            seq![unescape_simple(s[1]) as u32] + unescape(s.skip(2))
        }
    } else {
        seq![s[0] as u32] + unescape(s.skip(1))
    }
}

/// The code points of a string.
pub open spec fn code_points(s: Seq<char>) -> Seq<u32> {
    Seq::new(s.len(), |i: int| s[i] as u32)
}

pub(crate) proof fn lemma_escape_body_concat(a: Seq<char>, b: Seq<char>)
    ensures
        escape_body(a + b) == escape_body(a) + escape_body(b),
    decreases b.len(),
{
    if b.len() == 0 {
        assert(a + b =~= a);
        assert(escape_body(a) + escape_body(b) =~= escape_body(a));
    } else {
        lemma_escape_body_concat(a, b.drop_last());
        assert((a + b).drop_last() =~= a + b.drop_last());
        assert((a + b).last() == b.last());
        assert(escape_body(a + b) =~= escape_body(a) + escape_body(b));
    }
}

proof fn lemma_hex_digit_value(d: nat)
    requires
        d < 16,
    ensures
        hex_value(hex_digit(d)) == d,
{
}

proof fn lemma_hex4(n: nat)
    requires
        n <= 0xFFFF,
    ensures
        zero_pad(hex(n), 4) == seq![
            hex_digit(n / 4096),
            hex_digit((n / 256) % 16),
            hex_digit((n / 16) % 16),
            hex_digit(n % 16),
        ],
{
    reveal_with_fuel(hex, 4);
    reveal_with_fuel(zero_pad, 4);
    assert(((n / 16) / 16) == n / 256);
    assert(((n / 256) / 16) == n / 4096);
    if n < 16 {
        assert(zero_pad(hex(n), 4) =~= seq!['0', '0', '0', hex_digit(n)]);
        assert(hex_digit(0) == '0');
    } else if n < 256 {
        assert(hex(n) =~= seq![hex_digit(n / 16), hex_digit(n % 16)]);
        assert(hex_digit(0) == '0');
    } else if n < 4096 {
        assert(hex(n / 16) =~= seq![hex_digit(n / 256), hex_digit((n / 16) % 16)]);
        assert(hex(n) =~= seq![hex_digit(n / 256), hex_digit((n / 16) % 16), hex_digit(n % 16)]);
        assert(hex_digit(0) == '0');
    } else {
        assert(hex(n / 256) =~= seq![hex_digit(n / 4096), hex_digit((n / 256) % 16)]);
        assert(hex(n / 16) =~= seq![
            hex_digit(n / 4096),
            hex_digit((n / 256) % 16),
            hex_digit((n / 16) % 16),
        ]);
    }
}

/// Reading back four escaped hexadecimal digits gives the number written.
pub(crate) proof fn lemma_u_escape_value(n: nat, t: Seq<char>)
    requires
        n <= 0xFFFF,
    ensures
        (u_escape(n) + t).len() == 6 + t.len(),
        (u_escape(n) + t)[0] == '\\',
        (u_escape(n) + t)[1] == 'u',
        hex4_value(u_escape(n) + t, 2) == n,
        (u_escape(n) + t).skip(6) == t,
{
    let e = u_escape(n) + t;
    lemma_hex4(n);
    lemma_hex_digit_value(n / 4096);
    lemma_hex_digit_value((n / 256) % 16);
    lemma_hex_digit_value((n / 16) % 16);
    lemma_hex_digit_value(n % 16);
    assert(e.skip(6) =~= t);
    assert(e[2] == hex_digit(n / 4096));
    assert(e[3] == hex_digit((n / 256) % 16));
    assert(e[4] == hex_digit((n / 16) % 16));
    assert(e[5] == hex_digit(n % 16));
    assert((n / 4096) * 4096 + ((n / 256) % 16) * 256 + ((n / 16) % 16) * 16 + n % 16 == n)
        by (nonlinear_arith)
        requires
            n <= 0xFFFF,
    ;
}

proof fn lemma_unescape_char(c: char, t: Seq<char>)
    ensures
        unescape(escape_char(c) + t) == seq![c as u32] + unescape(t),
{
    let e = escape_char(c) + t;
    if c == '"' || c == '\\' || c == '\n' || c == '\r' || c == '\t' || c == '\u{08}' || c
        == '\u{0c}' {
        assert(e.skip(2) =~= t);
    } else if (c as u32) > 0xFFFF {
        let hi = high_surrogate(c);
        let lo = low_surrogate(c);
        let u = c as u32 - 0x10000;
        assert(0 <= u < 0x100000);
        assert(0xD800 <= hi <= 0xDBFF);
        assert(0xDC00 <= lo <= 0xDFFF);
        lemma_u_escape_value(lo, t);
        lemma_u_escape_value(hi, u_escape(lo) + t);
        assert(e =~= u_escape(hi) + (u_escape(lo) + t));
        let r = u_escape(lo) + t;
        assert(e.skip(6) =~= r);
        assert(e[6] == r[0] && e[7] == r[1]);
        assert(hex4_value(e, 8) == hex4_value(r, 2));
        assert(e.skip(12) =~= r.skip(6));
        assert(0x10000 + (hi - 0xD800) * 1024 + (lo - 0xDC00) == c as u32);
    } else if (c as u32) < 0x20 || (c as u32) > 0x7E {
        let n = c as u32 as nat;
        lemma_u_escape_value(n, t);
        assert(!(0xD800 <= n <= 0xDFFF));
    } else {
        assert(e.skip(1) =~= t);
    }
}

/// Decoding an escaped string gives back exactly the code points that went
/// in: the escape is lossless and reversible for every character, those
/// beyond U+FFFF written as a surrogate pair.
pub proof fn lemma_escape_round_trip(s: Seq<char>)
    ensures
        unescape(escape_body(s)) == code_points(s),
    decreases s.len(),
{
    if s.len() == 0 {
        assert(code_points(s) =~= Seq::<u32>::empty());
    } else {
        let rest = s.skip(1);
        assert(s =~= seq![s[0]] + rest);
        lemma_escape_body_concat(seq![s[0]], rest);
        let one = seq![s[0]];
        assert(one.drop_last() =~= Seq::<char>::empty());
        assert(one.last() == s[0]);
        assert(escape_body(one.drop_last()) =~= Seq::<char>::empty());
        assert(escape_body(one) =~= escape_char(s[0]));
        lemma_unescape_char(s[0], escape_body(rest));
        lemma_escape_round_trip(rest);
        assert(code_points(s) =~= seq![s[0] as u32] + code_points(rest));
    }
}

/// Latin-1 text written to JSON reads back as the bytes it came from, one
/// code point per byte; so two byte strings that write the same JSON string
/// are the same bytes.
pub proof fn lemma_latin1_text_reads_back(x: Seq<u8>, y: Seq<u8>)
    ensures
        unescape(escape_body(latin1_chars(x))) == Seq::new(x.len(), |i: int| x[i] as u32),
        string_json(latin1_chars(x)) == string_json(latin1_chars(y)) ==> x == y,
{
    lemma_escape_round_trip(latin1_chars(x));
    lemma_escape_round_trip(latin1_chars(y));
    assert(code_points(latin1_chars(x)) =~= Seq::new(x.len(), |i: int| x[i] as u32));
    assert(code_points(latin1_chars(y)) =~= Seq::new(y.len(), |i: int| y[i] as u32));
    if string_json(latin1_chars(x)) == string_json(latin1_chars(y)) {
        let bx = escape_body(latin1_chars(x));
        let by = escape_body(latin1_chars(y));
        assert(string_json(latin1_chars(x)).subrange(1, bx.len() as int + 1) =~= bx);
        assert(string_json(latin1_chars(y)).subrange(1, by.len() as int + 1) =~= by);
        assert(string_json(latin1_chars(x)).len() == bx.len() + 2);
        assert(string_json(latin1_chars(y)).len() == by.len() + 2);
        assert(bx.len() == by.len());
        assert(bx == by);
        let cx = Seq::new(x.len(), |i: int| x[i] as u32);
        let cy = Seq::new(y.len(), |i: int| y[i] as u32);
        assert(cx == cy);
        assert forall|i: int| 0 <= i < x.len() implies x[i] == y[i] by {
            assert(cx[i] == cy[i]);
        }
        assert(x =~= y);
    }
}

} // verus!

verus! {

impl Value {
    /// This value as a top-level document: the schema version first, then it.
    ///
    /// An object gains the version as its first field; anything else is
    /// wrapped as `{"schema": …, "value": …}`, so every document is versioned.
    pub fn versioned(self) -> (v: Value)
        ensures
            v matches Value::Obj(fs) && fs@.len() >= 1 && fs@[0].0 == SCHEMA_FIELD && (
            fs@[0].1 matches Value::Str(t) && t@ == SCHEMA@),
            self matches Value::Obj(inner) ==> (v matches Value::Obj(fs) && fs@.skip(1)
                == inner@),
            !(self is Obj) ==> (v matches Value::Obj(fs) && fs@.len() == 2 && fs@[1].0 == "value"
                && fs@[1].1 == self),
    {
        let mut out: Vec<(&'static str, Value)> = Vec::new();
        out.push((SCHEMA_FIELD, Value::str(SCHEMA)));
        match self {
            Value::Obj(fields) => {
                let mut fields = fields;
                let ghost inner = fields@;
                out.append(&mut fields);
                assert(out@.skip(1) =~= inner);
            },
            other => {
                out.push(("value", other));
            },
        }
        Value::Obj(out)
    }
}

} // verus!

verus! {

/// What a JSON value says, with strings as their characters: the model every
/// contract about a document is stated in.
pub enum JsonView {
    /// `null`.
    Null,
    /// A boolean.
    Bool(bool),
    /// A number.
    Num(nat),
    /// A string.
    Str(Seq<char>),
    /// An array.
    Arr(Seq<JsonView>),
    /// An object, fields in order.
    Obj(Seq<(Seq<char>, JsonView)>),
}

/// The model of a value.
pub open spec fn json_view(v: Value) -> JsonView
    decreases v,
{
    match v {
        Value::Null => JsonView::Null,
        Value::Bool(b) => JsonView::Bool(b),
        Value::Num(n) => JsonView::Num(n as nat),
        Value::Str(s) => JsonView::Str(s@),
        Value::Arr(items) => JsonView::Arr(items_view(items@)),
        Value::Obj(fields) => JsonView::Obj(fields_view(fields@)),
    }
}

/// The models of array elements.
pub open spec fn items_view(items: Seq<Value>) -> Seq<JsonView>
    decreases items,
{
    if items.len() == 0 {
        Seq::empty()
    } else {
        items_view(items.drop_last()).push(json_view(items.last()))
    }
}

/// The models of object members.
pub open spec fn fields_view(fields: Seq<(&'static str, Value)>) -> Seq<(Seq<char>, JsonView)>
    decreases fields,
{
    if fields.len() == 0 {
        Seq::empty()
    } else {
        fields_view(fields.drop_last()).push((fields.last().0@, json_view(fields.last().1)))
    }
}

impl View for Value {
    type V = JsonView;

    open spec fn view(&self) -> JsonView {
        json_view(*self)
    }
}

/// Element by element, the models of array elements are the elements' models.
pub proof fn lemma_items_view(items: Seq<Value>)
    ensures
        items_view(items).len() == items.len(),
        forall|i: int| 0 <= i < items.len() ==> #[trigger] items_view(items)[i] == json_view(items[i]),
    decreases items.len(),
{
    if items.len() > 0 {
        lemma_items_view(items.drop_last());
    }
}

/// Member by member, the models of object members are the members' models.
pub proof fn lemma_fields_view(fields: Seq<(&'static str, Value)>)
    ensures
        fields_view(fields).len() == fields.len(),
        forall|i: int|
            0 <= i < fields.len() ==> #[trigger] fields_view(fields)[i] == (
                fields[i].0@,
                json_view(fields[i].1),
            ),
    decreases fields.len(),
{
    if fields.len() > 0 {
        lemma_fields_view(fields.drop_last());
    }
}

/// An array of numbers.
pub fn num_array(values: &Vec<usize>) -> (v: Value)
    ensures
        v@ == JsonView::Arr(values@.map_values(|x: usize| JsonView::Num(x as nat))),
{
    let mut items: Vec<Value> = Vec::new();
    let mut i: usize = 0;
    while i < values.len()
        invariant
            i <= values@.len(),
            items_view(items@) == values@.take(i as int).map_values(|x: usize| JsonView::Num(x as nat)),
        decreases values@.len() - i,
    {
        let ghost before = items@;
        let x = values[i];
        items.push(Value::Num(x as u64));
        assert(items@.drop_last() =~= before);
        assert(items@.last() == Value::Num(x as u64));
        assert(json_view(Value::Num(x as u64)) == JsonView::Num(x as nat));
        assert(items_view(items@) == items_view(before).push(JsonView::Num(x as nat)));
        i = i + 1;
        assert(items_view(items@) =~= values@.take(i as int).map_values(
            |x: usize| JsonView::Num(x as nat),
        ));
    }
    assert(values@.take(i as int) =~= values@);
    Value::Arr(items)
}

} // verus!

verus! {

/// The model of an array of numbers.
pub open spec fn nums(s: Seq<usize>) -> JsonView {
    JsonView::Arr(s.map_values(|x: usize| JsonView::Num(x as nat)))
}


/// The model of an array of strings.
pub open spec fn strs(s: Seq<String>) -> JsonView {
    JsonView::Arr(s.map_values(|x: String| JsonView::Str(x@)))
}

/// An array of strings.
pub fn str_array(values: &Vec<String>) -> (v: Value)
    ensures
        v@ == strs(values@),
{
    let mut items: Vec<Value> = Vec::new();
    let mut i: usize = 0;
    while i < values.len()
        invariant
            i <= values@.len(),
            items_view(items@) == values@.take(i as int).map_values(|x: String| JsonView::Str(x@)),
        decreases values@.len() - i,
    {
        let ghost before = items@;
        let item = Value::str(values[i].as_str());
        assert(json_view(item) == JsonView::Str(values@[i as int]@));
        items.push(item);
        assert(items@.drop_last() =~= before);
        i = i + 1;
        assert(items_view(items@) =~= values@.take(i as int).map_values(|x: String| JsonView::Str(x@)));
    }
    assert(values@.take(i as int) =~= values@);
    Value::Arr(items)
}

} // verus!
