//! Reading a JSON document back: a reader for the text the writer in
//! [`crate::json`] produces, and the proof that every document it writes
//! reads back as the value written.
use vstd::prelude::*;

use crate::text::decimal;
use crate::json::{
    Value, fields_json, fields_view, items_json, items_view, json_view, lemma_fields_view,
    lemma_items_view, string_json, value_json,
};
use crate::json::{
    JsonView, escape_body, escape_char, hex4_value, high_surrogate, lemma_escape_body_concat,
    lemma_u_escape_value, low_surrogate, u_escape, unescape_simple,
};

verus! {

/// How many characters the escape at the front of `s` spans, and the
/// character it stands for: `\uXXXX`, a surrogate pair of two such escapes,
/// a two-character escape, or one plain character.
pub open spec fn front_char(s: Seq<char>) -> (char, int) {
    if s[0] == '\\' && s.len() >= 2 {
        if s[1] == 'u' && s.len() >= 6 {
            let v = hex4_value(s, 2);
            if 0xD800 <= v <= 0xDBFF && s.len() >= 12 && s[6] == '\\' && s[7] == 'u' && 0xDC00 <= hex4_value(
                s,
                8,
            ) <= 0xDFFF {
                (((0x10000 + (v - 0xD800) * 1024 + (hex4_value(s, 8) - 0xDC00)) as u32) as char, 12)
            } else {
                ((v as u32) as char, 6)
            }
        } else {
            (unescape_simple(s[1]), 2)
        }
    } else {
        (s[0], 1)
    }
}

/// A string body read up to its closing quote: the characters it stands
/// for, and what follows the quote.
pub open spec fn read_string(s: Seq<char>) -> Option<(Seq<char>, Seq<char>)>
    decreases s.len(),
{
    if s.len() == 0 {
        None
    } else if s[0] == '"' {
        Some((Seq::empty(), s.skip(1)))
    } else {
        let (c, n) = front_char(s);
        if 1 <= n <= s.len() {
            match read_string(s.skip(n)) {
                Some((d, r)) => Some((seq![c] + d, r)),
                None => None,
            }
        } else {
            None
        }
    }
}

proof fn lemma_front_pair(c: char, t: Seq<char>)
    requires
        (c as u32) > 0xFFFF,
    ensures
        (escape_char(c) + t).len() == 12 + t.len(),
        (escape_char(c) + t)[0] == '\\',
        front_char(escape_char(c) + t) == (c, 12int),
        (escape_char(c) + t).skip(12) == t,
{
    let e = escape_char(c) + t;
    let hi = high_surrogate(c);
    let lo = low_surrogate(c);
    let u = c as u32 - 0x10000;
    assert(0 <= u < 0x100000);
    assert(0xD800 <= hi <= 0xDBFF);
    assert(0xDC00 <= lo <= 0xDFFF);
    lemma_u_escape_value(lo, t);
    lemma_u_escape_value(hi, u_escape(lo) + t);
    assert(e =~= u_escape(hi) + (u_escape(lo) + t));
    let r = u_escape(lo) + t;
    assert(e.skip(6) =~= r);
    assert(e[6] == r[0] && e[7] == r[1]);
    assert(hex4_value(e, 8) == hex4_value(r, 2));
    assert(e.skip(12) =~= r.skip(6));
    assert(0x10000 + (hi - 0xD800) * 1024 + (lo - 0xDC00) == c as u32);
}

proof fn lemma_front_unicode(c: char, t: Seq<char>)
    requires
        (c as u32) <= 0xFFFF,
        (c as u32) < 0x20 || (c as u32) > 0x7E,
        !(c == '"' || c == '\\' || c == '\n' || c == '\r' || c == '\t' || c == '\u{08}' || c == '\u{0c}'),
    ensures
        (escape_char(c) + t).len() == 6 + t.len(),
        (escape_char(c) + t)[0] == '\\',
        front_char(escape_char(c) + t) == (c, 6int),
        (escape_char(c) + t).skip(6) == t,
{
    let n = c as u32 as nat;
    lemma_u_escape_value(n, t);
    assert(!(0xD800 <= n <= 0xDFFF));
}

#[verifier::rlimit(40)]
proof fn lemma_front_short(c: char, t: Seq<char>)
    requires
        c == '"' || c == '\\' || c == '\n' || c == '\r' || c == '\t' || c == '\u{08}' || c == '\u{0c}',
    ensures
        (escape_char(c) + t).len() == 2 + t.len(),
        (escape_char(c) + t)[0] == '\\',
        front_char(escape_char(c) + t) == (c, 2int),
        (escape_char(c) + t).skip(2) == t,
{
    assert((escape_char(c) + t).skip(2) =~= t);
}

proof fn lemma_front_plain(c: char, t: Seq<char>)
    requires
        0x20 <= (c as u32) <= 0x7E,
        !(c == '"' || c == '\\'),
    ensures
        (escape_char(c) + t).len() == 1 + t.len(),
        (escape_char(c) + t)[0] == c,
        front_char(escape_char(c) + t) == (c, 1int),
        (escape_char(c) + t).skip(1) == t,
{
    assert((escape_char(c) + t).skip(1) =~= t);
}

proof fn lemma_read_char(c: char, t: Seq<char>)
    ensures
        read_string(escape_char(c) + t) == match read_string(t) {
            Some((d, r)) => Some((seq![c] + d, r)),
            None => None::<(Seq<char>, Seq<char>)>,
        },
{
    let e = escape_char(c) + t;
    if c == '"' || c == '\\' || c == '\n' || c == '\r' || c == '\t' || c == '\u{08}' || c == '\u{0c}' {
        lemma_front_short(c, t);
    } else if (c as u32) > 0xFFFF {
        lemma_front_pair(c, t);
    } else if (c as u32) < 0x20 || (c as u32) > 0x7E {
        lemma_front_unicode(c, t);
    } else {
        lemma_front_plain(c, t);
    }
}

/// A string as written reads back as its own characters, leaving what
/// follows its closing quote.
pub proof fn lemma_string_reads_back(s: Seq<char>, t: Seq<char>)
    ensures
        read_string(escape_body(s) + seq!['"'] + t) == Some((s, t)),
    decreases s.len(),
{
    if s.len() == 0 {
        assert(escape_body(s) =~= Seq::<char>::empty());
        assert((escape_body(s) + seq!['"'] + t).skip(1) =~= t);
    } else {
        let rest = s.skip(1);
        assert(s =~= seq![s[0]] + rest);
        lemma_escape_body_concat(seq![s[0]], rest);
        let one = seq![s[0]];
        assert(one.drop_last() =~= Seq::<char>::empty());
        assert(escape_body(one.drop_last()) =~= Seq::<char>::empty());
        assert(escape_body(one) =~= escape_char(s[0]));
        lemma_string_reads_back(rest, t);
        lemma_read_char(s[0], escape_body(rest) + seq!['"'] + t);
        assert(escape_body(s) + seq!['"'] + t =~= escape_char(s[0]) + (escape_body(rest) + seq!['"'] + t));
    }
}

/// Whether a character is a decimal digit.
pub open spec fn is_digit(c: char) -> bool {
    '0' <= c <= '9'
}

/// The run of digits `s` begins with.
pub open spec fn leading_digits(s: Seq<char>) -> Seq<char>
    decreases s.len(),
{
    if s.len() > 0 && is_digit(s[0]) {
        seq![s[0]] + leading_digits(s.skip(1))
    } else {
        Seq::empty()
    }
}

/// The number a run of decimal digits spells.
pub open spec fn digits_value(d: Seq<char>) -> nat
    decreases d.len(),
{
    if d.len() == 0 {
        0
    } else {
        digits_value(d.drop_last()) * 10 + (d.last() as u32 - 0x30) as nat
    }
}

/// Whether every character is a digit.
pub open spec fn all_digits(d: Seq<char>) -> bool {
    forall|i: int| 0 <= i < d.len() ==> is_digit(#[trigger] d[i])
}

proof fn lemma_decimal_digits(n: nat)
    ensures
        decimal(n).len() >= 1,
        all_digits(decimal(n)),
        digits_value(decimal(n)) == n,
    decreases n,
{
    let d = decimal(n);
    if n < 10 {
        assert(d.drop_last() =~= Seq::<char>::empty());
        assert((d.last() as u32 - 0x30) as nat == n);
        assert(digits_value(d.drop_last()) == 0);
        assert(digits_value(d) == digits_value(d.drop_last()) * 10 + (d.last() as u32 - 0x30) as nat);
    } else {
        lemma_decimal_digits(n / 10);
        assert(d.drop_last() == decimal(n / 10));
        assert((d.last() as u32 - 0x30) as nat == n % 10);
        assert((n / 10) * 10 + n % 10 == n);
        assert(digits_value(d) == digits_value(d.drop_last()) * 10 + (d.last() as u32 - 0x30) as nat);
        assert forall|i: int| 0 <= i < d.len() implies is_digit(#[trigger] d[i]) by {
            if i < d.len() - 1 {
                assert(d[i] == decimal(n / 10)[i]);
            }
        }
    }
}

proof fn lemma_leading_digits(d: Seq<char>, t: Seq<char>)
    requires
        all_digits(d),
        t.len() == 0 || !is_digit(t[0]),
    ensures
        leading_digits(d + t) == d,
    decreases d.len(),
{
    if d.len() == 0 {
        assert(d + t =~= t);
        assert(d =~= Seq::<char>::empty());
    } else {
        let rest = d.skip(1);
        assert forall|i: int| 0 <= i < rest.len() implies is_digit(#[trigger] rest[i]) by {
            assert(rest[i] == d[i + 1]);
        }
        lemma_leading_digits(rest, t);
        assert((d + t).skip(1) =~= rest + t);
        assert(is_digit(d[0]));
        assert(d =~= seq![d[0]] + rest);
    }
}

/// Whether `t` may follow a value: nothing, a comma, or a closing bracket or
/// brace.
pub open spec fn ends_value(t: Seq<char>) -> bool {
    t.len() == 0 || t[0] == ',' || t[0] == ']' || t[0] == '}'
}

/// A JSON value read from the front of `s`, and what follows it.
pub open spec fn read_value(s: Seq<char>) -> Option<(JsonView, Seq<char>)>
    decreases s.len(), 0int,
{
    if s.len() == 0 {
        None
    } else if s.len() >= 4 && s.take(4) == seq!['n', 'u', 'l', 'l'] {
        Some((JsonView::Null, s.skip(4)))
    } else if s.len() >= 4 && s.take(4) == seq!['t', 'r', 'u', 'e'] {
        Some((JsonView::Bool(true), s.skip(4)))
    } else if s.len() >= 5 && s.take(5) == seq!['f', 'a', 'l', 's', 'e'] {
        Some((JsonView::Bool(false), s.skip(5)))
    } else if is_digit(s[0]) {
        let d = leading_digits(s);
        Some((JsonView::Num(digits_value(d)), s.skip(d.len() as int)))
    } else if s[0] == '"' {
        match read_string(s.skip(1)) {
            Some((x, r)) => Some((JsonView::Str(x), r)),
            None => None,
        }
    } else if s[0] == '[' {
        if s.len() >= 2 && s[1] == ']' {
            Some((JsonView::Arr(Seq::empty()), s.skip(2)))
        } else {
            match read_items(s.skip(1)) {
                Some((xs, r)) => Some((JsonView::Arr(xs), r)),
                None => None,
            }
        }
    } else if s[0] == '{' {
        if s.len() >= 2 && s[1] == '}' {
            Some((JsonView::Obj(Seq::empty()), s.skip(2)))
        } else {
            match read_fields(s.skip(1)) {
                Some((fs, r)) => Some((JsonView::Obj(fs), r)),
                None => None,
            }
        }
    } else {
        None
    }
}

/// Array elements read up to and past the closing bracket.
pub open spec fn read_items(s: Seq<char>) -> Option<(Seq<JsonView>, Seq<char>)>
    decreases s.len(), 1int,
{
    match read_value(s) {
        None => None,
        Some((v, r)) => if r.len() == 0 || r.len() >= s.len() {
            None
        } else if r[0] == ']' {
            Some((seq![v], r.skip(1)))
        } else if r[0] == ',' {
            match read_items(r.skip(1)) {
                Some((vs, r2)) => Some((seq![v] + vs, r2)),
                None => None,
            }
        } else {
            None
        },
    }
}

/// Object members read up to and past the closing brace.
pub open spec fn read_fields(s: Seq<char>) -> Option<(Seq<(Seq<char>, JsonView)>, Seq<char>)>
    decreases s.len(), 1int,
{
    if s.len() == 0 || s[0] != '"' {
        None
    } else {
        match read_string(s.skip(1)) {
            None => None,
            Some((k, r)) => if r.len() == 0 || r[0] != ':' || r.len() > s.len() {
                None
            } else {
                match read_value(r.skip(1)) {
                    None => None,
                    Some((v, r2)) => if r2.len() == 0 || r2.len() >= s.len() {
                        None
                    } else if r2[0] == '}' {
                        Some((seq![(k, v)], r2.skip(1)))
                    } else if r2[0] == ',' {
                        match read_fields(r2.skip(1)) {
                            Some((fs, r3)) => Some((seq![(k, v)] + fs, r3)),
                            None => None,
                        }
                    } else {
                        None
                    },
                }
            },
        }
    }
}

proof fn lemma_first_char(v: Value)
    ensures
        value_json(v).len() >= 1,
        value_json(v)[0] != ']' && value_json(v)[0] != '}' && value_json(v)[0] != ',',
{
    match v {
        Value::Num(n) => {
            lemma_decimal_digits(n as nat);
            assert(is_digit(value_json(v)[0]));
        },
        _ => {},
    }
}

proof fn lemma_items_front(items: Seq<Value>)
    requires
        items.len() >= 1,
    ensures
        items.len() == 1 ==> items_json(items) == value_json(items[0]),
        items.len() >= 2 ==> items_json(items) == value_json(items[0]) + seq![','] + items_json(items.skip(1)),
        items_view(items) == seq![json_view(items[0])] + items_view(items.skip(1)),
    decreases items.len(),
{
    lemma_items_view(items);
    lemma_items_view(items.skip(1));
    assert(items_view(items) =~= seq![json_view(items[0])] + items_view(items.skip(1)));
    if items.len() == 2 {
        assert(items.drop_last() =~= seq![items[0]]);
        assert(items.skip(1) =~= seq![items[1]]);
        assert(items_json(items.drop_last()) == value_json(items[0]));
        assert(items_json(items.skip(1)) == value_json(items[1]));
        assert(items_json(items) =~= value_json(items[0]) + seq![','] + items_json(items.skip(1)));
    } else if items.len() > 2 {
        let init = items.drop_last();
        lemma_items_front(init);
        assert(init.skip(1) =~= items.skip(1).drop_last());
        assert(items.skip(1).last() == items.last());
        assert(items_json(items.skip(1)) == items_json(init.skip(1)) + seq![','] + value_json(items.last()));
        assert(items_json(items) =~= value_json(items[0]) + seq![','] + items_json(items.skip(1)));
    }
}

proof fn lemma_fields_front(fields: Seq<(&'static str, Value)>)
    requires
        fields.len() >= 1,
    ensures
        fields.len() == 1 ==> fields_json(fields) == string_json(fields[0].0@) + seq![':'] + value_json(
            fields[0].1,
        ),
        fields.len() >= 2 ==> fields_json(fields) == string_json(fields[0].0@) + seq![':'] + value_json(
            fields[0].1,
        ) + seq![','] + fields_json(fields.skip(1)),
        fields_view(fields) == seq![(fields[0].0@, json_view(fields[0].1))] + fields_view(fields.skip(1)),
    decreases fields.len(),
{
    lemma_fields_view(fields);
    lemma_fields_view(fields.skip(1));
    assert(fields_view(fields) =~= seq![(fields[0].0@, json_view(fields[0].1))] + fields_view(fields.skip(1)));
    let head = string_json(fields[0].0@) + seq![':'] + value_json(fields[0].1);
    if fields.len() == 2 {
        assert(fields.drop_last() =~= seq![fields[0]]);
        assert(fields.skip(1) =~= seq![fields[1]]);
        assert(fields_json(fields.drop_last()) == head);
        assert(fields_json(fields.skip(1)) == string_json(fields[1].0@) + seq![':'] + value_json(fields[1].1));
        assert(fields_json(fields) =~= head + seq![','] + fields_json(fields.skip(1)));
    } else if fields.len() > 2 {
        let init = fields.drop_last();
        lemma_fields_front(init);
        assert(init.skip(1) =~= fields.skip(1).drop_last());
        assert(fields.skip(1).last() == fields.last());
        assert(fields_json(fields.skip(1)) == fields_json(init.skip(1)) + seq![','] + string_json(
            fields.last().0@,
        ) + seq![':'] + value_json(fields.last().1));
        assert(fields_json(fields) =~= head + seq![','] + fields_json(fields.skip(1)));
    }
}

proof fn lemma_read_scalar(v: Value, t: Seq<char>)
    requires
        ends_value(t),
        v is Null || v is Bool || v is Num || v is Str,
    ensures
        read_value(value_json(v) + t) == Some((json_view(v), t)),
{
    let s = value_json(v) + t;
    match v {
        Value::Null => {
            assert(s.take(4) =~= seq!['n', 'u', 'l', 'l']);
            assert(s.skip(4) =~= t);
        },
        Value::Bool(b) => {
            if b {
                assert(s.take(4) =~= seq!['t', 'r', 'u', 'e']);
                assert(s.take(4)[0] != 'n');
                assert(s.skip(4) =~= t);
            } else {
                assert(s.take(4)[0] == 'f');
                assert(s.take(5) =~= seq!['f', 'a', 'l', 's', 'e']);
                assert(s.skip(5) =~= t);
            }
        },
        Value::Num(n) => {
            let d = decimal(n as nat);
            lemma_decimal_digits(n as nat);
            lemma_leading_digits(d, t);
            assert(is_digit(s[0]));
            if s.len() >= 4 {
                assert(s.take(4)[0] == s[0]);
            }
            if s.len() >= 5 {
                assert(s.take(5)[0] == s[0]);
            }
            assert(s.skip(d.len() as int) =~= t);
        },
        Value::Str(x) => {
            assert(s[0] == '"');
            if s.len() >= 4 {
                assert(s.take(4)[0] == s[0]);
            }
            if s.len() >= 5 {
                assert(s.take(5)[0] == s[0]);
            }
            assert(s.skip(1) =~= escape_body(x@) + seq!['"'] + t);
            lemma_string_reads_back(x@, t);
        },
        _ => {},
    }
}

proof fn lemma_not_literal(s: Seq<char>)
    requires
        s.len() >= 1,
        s[0] != 'n' && s[0] != 't' && s[0] != 'f',
    ensures
        !(s.len() >= 4 && s.take(4) == seq!['n', 'u', 'l', 'l']),
        !(s.len() >= 4 && s.take(4) == seq!['t', 'r', 'u', 'e']),
        !(s.len() >= 5 && s.take(5) == seq!['f', 'a', 'l', 's', 'e']),
{
    if s.len() >= 4 {
        assert(s.take(4)[0] == s[0]);
        assert(seq!['n', 'u', 'l', 'l'][0] == 'n');
        assert(seq!['t', 'r', 'u', 'e'][0] == 't');
    }
    if s.len() >= 5 {
        assert(s.take(5)[0] == s[0]);
        assert(seq!['f', 'a', 'l', 's', 'e'][0] == 'f');
    }
}

proof fn lemma_read_bracket(s: Seq<char>)
    requires
        s.len() >= 1,
        s[0] == '[',
    ensures
        read_value(s) == (if s.len() >= 2 && s[1] == ']' {
            Some((JsonView::Arr(Seq::empty()), s.skip(2)))
        } else {
            match read_items(s.skip(1)) {
                Some((xs, r)) => Some((JsonView::Arr(xs), r)),
                None => None,
            }
        }),
{
    lemma_not_literal(s);
}

proof fn lemma_read_brace(s: Seq<char>)
    requires
        s.len() >= 1,
        s[0] == '{',
    ensures
        read_value(s) == (if s.len() >= 2 && s[1] == '}' {
            Some((JsonView::Obj(Seq::empty()), s.skip(2)))
        } else {
            match read_fields(s.skip(1)) {
                Some((fs, r)) => Some((JsonView::Obj(fs), r)),
                None => None,
            }
        }),
{
    lemma_not_literal(s);
}

proof fn lemma_read_array(items: Seq<Value>, t: Seq<char>)
    requires
        items.len() >= 1 ==> read_items(items_json(items) + seq![']'] + t) == Some((items_view(items), t)),
    ensures
        read_value(seq!['['] + items_json(items) + seq![']'] + t) == Some((JsonView::Arr(items_view(items)), t)),
{
    let s = seq!['['] + items_json(items) + seq![']'] + t;
    assert(s[0] == '[');
    lemma_read_bracket(s);
    if items.len() == 0 {
        assert(items_json(items) =~= Seq::<char>::empty());
        assert(s[1] == ']');
        assert(s.skip(2) =~= t);
        assert(items_view(items) =~= Seq::<JsonView>::empty());
    } else {
        lemma_first_char(items[0]);
        lemma_items_front(items);
        assert(s[1] == items_json(items)[0]);
        assert(s.skip(1) =~= items_json(items) + seq![']'] + t);
    }
}

proof fn lemma_read_object(fields: Seq<(&'static str, Value)>, t: Seq<char>)
    requires
        fields.len() >= 1 ==> read_fields(fields_json(fields) + seq!['}'] + t) == Some((fields_view(fields), t)),
    ensures
        read_value(seq!['{'] + fields_json(fields) + seq!['}'] + t) == Some((JsonView::Obj(fields_view(fields)), t)),
{
    let s = seq!['{'] + fields_json(fields) + seq!['}'] + t;
    assert(s[0] == '{');
    lemma_read_brace(s);
    if fields.len() == 0 {
        assert(fields_json(fields) =~= Seq::<char>::empty());
        assert(s[1] == '}');
        assert(s.skip(2) =~= t);
        assert(fields_view(fields) =~= Seq::<(Seq<char>, JsonView)>::empty());
    } else {
        lemma_fields_front(fields);
        assert(string_json(fields[0].0@)[0] == '"');
        assert(s[1] == '"');
        assert(s.skip(1) =~= fields_json(fields) + seq!['}'] + t);
    }
}

/// A value as written reads back as its model, leaving what follows it.
#[verifier::rlimit(60)]
pub proof fn lemma_value_reads_back(v: Value, t: Seq<char>)
    requires
        ends_value(t),
    ensures
        read_value(value_json(v) + t) == Some((json_view(v), t)),
    decreases v,
{
    match v {
        Value::Arr(items) => {
            if items@.len() >= 1 {
                assert(decreases_to!(v => items));
                lemma_items_reads_back(items@, t);
            }
            lemma_read_array(items@, t);
            assert(value_json(v) + t =~= seq!['['] + items_json(items@) + seq![']'] + t);
        },
        Value::Obj(fields) => {
            if fields@.len() >= 1 {
                assert(decreases_to!(v => fields));
                lemma_fields_reads_back(fields@, t);
            }
            lemma_read_object(fields@, t);
            assert(value_json(v) + t =~= seq!['{'] + fields_json(fields@) + seq!['}'] + t);
        },
        _ => {
            lemma_read_scalar(v, t);
        },
    }
}

#[verifier::rlimit(60)]
proof fn lemma_items_step(items: Seq<Value>, t: Seq<char>)
    requires
        items.len() >= 1,
        items.len() == 1 ==> read_value(value_json(items[0]) + (seq![']'] + t)) == Some((json_view(items[0]), seq![']'] + t)),
        items.len() >= 2 ==> read_value(value_json(items[0]) + (seq![','] + items_json(items.skip(1)) + seq![']'] + t))
            == Some((json_view(items[0]), seq![','] + items_json(items.skip(1)) + seq![']'] + t)),
        items.len() >= 2 ==> read_items(items_json(items.skip(1)) + seq![']'] + t) == Some((items_view(items.skip(1)), t)),
    ensures
        read_items(items_json(items) + seq![']'] + t) == Some((items_view(items), t)),
{
    lemma_items_front(items);
    lemma_first_char(items[0]);
    let s = items_json(items) + seq![']'] + t;
    if items.len() == 1 {
        let after = seq![']'] + t;
        assert(s =~= value_json(items[0]) + after);
        assert(after.skip(1) =~= t);
        lemma_items_view(items.skip(1));
        assert(items_view(items.skip(1)) =~= Seq::<JsonView>::empty());
        assert(seq![json_view(items[0])] + Seq::<JsonView>::empty() =~= seq![json_view(items[0])]);
    } else {
        let rest = items.skip(1);
        let after = seq![','] + items_json(rest) + seq![']'] + t;
        assert(s =~= value_json(items[0]) + after);
        assert(after.skip(1) =~= items_json(rest) + seq![']'] + t);
    }
}

/// Array elements as written read back as their models.
pub proof fn lemma_items_reads_back(items: Seq<Value>, t: Seq<char>)
    requires
        items.len() >= 1,
    ensures
        read_items(items_json(items) + seq![']'] + t) == Some((items_view(items), t)),
    decreases items,
{
    if items.len() == 1 {
        lemma_value_reads_back(items[0], seq![']'] + t);
    } else {
        let rest = items.skip(1);
        lemma_value_reads_back(items[0], seq![','] + items_json(rest) + seq![']'] + t);
        assert(decreases_to!(items => rest));
        lemma_items_reads_back(rest, t);
    }
    lemma_items_step(items, t);
}

/// What follows an object's first member.
pub open spec fn member_tail(fields: Seq<(&'static str, Value)>, t: Seq<char>) -> Seq<char> {
    if fields.len() == 1 {
        seq!['}'] + t
    } else {
        seq![','] + fields_json(fields.skip(1)) + seq!['}'] + t
    }
}

proof fn lemma_read_member(s: Seq<char>, k: Seq<char>, r: Seq<char>, v: JsonView, r2: Seq<char>)
    requires
        s.len() >= 1,
        s[0] == '"',
        read_string(s.skip(1)) == Some((k, r)),
        r.len() >= 1,
        r[0] == ':',
        r.len() <= s.len(),
        read_value(r.skip(1)) == Some((v, r2)),
        1 <= r2.len() < s.len(),
    ensures
        read_fields(s) == (if r2[0] == '}' {
            Some((seq![(k, v)], r2.skip(1)))
        } else if r2[0] == ',' {
            match read_fields(r2.skip(1)) {
                Some((fs, r3)) => Some((seq![(k, v)] + fs, r3)),
                None => None,
            }
        } else {
            None
        }),
{
}

proof fn lemma_member_shape(fields: Seq<(&'static str, Value)>, t: Seq<char>)
    requires
        fields.len() >= 1,
    ensures
        ({
            let s = fields_json(fields) + seq!['}'] + t;
            let after_key = seq![':'] + value_json(fields[0].1) + member_tail(fields, t);
            &&& s.len() >= 1
            &&& s[0] == '"'
            &&& s.skip(1) == escape_body(fields[0].0@) + seq!['"'] + after_key
            &&& after_key.len() >= 1 && after_key[0] == ':' && after_key.len() <= s.len()
            &&& after_key.skip(1) == value_json(fields[0].1) + member_tail(fields, t)
            &&& 1 <= member_tail(fields, t).len() < s.len()
        }),
{
    lemma_fields_front(fields);
    lemma_first_char(fields[0].1);
    let k = fields[0].0@;
    let v = fields[0].1;
    let tail = member_tail(fields, t);
    let s = fields_json(fields) + seq!['}'] + t;
    assert(s =~= string_json(k) + seq![':'] + value_json(v) + tail);
    let after_key = seq![':'] + value_json(v) + tail;
    assert(s.skip(1) =~= escape_body(k) + seq!['"'] + after_key);
    assert(after_key.skip(1) =~= value_json(v) + tail);
}

proof fn lemma_tail_shape(fields: Seq<(&'static str, Value)>, t: Seq<char>)
    requires
        fields.len() >= 1,
    ensures
        fields.len() == 1 ==> member_tail(fields, t)[0] == '}' && member_tail(fields, t).skip(1) == t,
        fields.len() >= 2 ==> member_tail(fields, t)[0] == ',' && member_tail(fields, t).skip(1) == fields_json(
            fields.skip(1),
        ) + seq!['}'] + t,
        fields.len() == 1 ==> fields_view(fields) == seq![(fields[0].0@, json_view(fields[0].1))],
        fields_view(fields) == seq![(fields[0].0@, json_view(fields[0].1))] + fields_view(fields.skip(1)),
{
    lemma_fields_front(fields);
    let tail = member_tail(fields, t);
    if fields.len() == 1 {
        assert(tail.skip(1) =~= t);
        lemma_fields_view(fields.skip(1));
        assert(fields_view(fields.skip(1)) =~= Seq::<(Seq<char>, JsonView)>::empty());
        assert(fields_view(fields) =~= seq![(fields[0].0@, json_view(fields[0].1))]);
    } else {
        assert(tail.skip(1) =~= fields_json(fields.skip(1)) + seq!['}'] + t);
    }
}

proof fn lemma_fields_step(fields: Seq<(&'static str, Value)>, t: Seq<char>)
    requires
        fields.len() >= 1,
        read_value(value_json(fields[0].1) + member_tail(fields, t)) == Some((json_view(fields[0].1), member_tail(fields, t))),
        fields.len() >= 2 ==> read_fields(fields_json(fields.skip(1)) + seq!['}'] + t) == Some((fields_view(fields.skip(1)), t)),
    ensures
        read_fields(fields_json(fields) + seq!['}'] + t) == Some((fields_view(fields), t)),
{
    lemma_member_shape(fields, t);
    lemma_tail_shape(fields, t);
    let k = fields[0].0@;
    let tail = member_tail(fields, t);
    let s = fields_json(fields) + seq!['}'] + t;
    let after_key = seq![':'] + value_json(fields[0].1) + tail;
    lemma_string_reads_back(k, after_key);
    lemma_read_member(s, k, after_key, json_view(fields[0].1), tail);
}

/// Object members as written read back as their models.
pub proof fn lemma_fields_reads_back(fields: Seq<(&'static str, Value)>, t: Seq<char>)
    requires
        fields.len() >= 1,
    ensures
        read_fields(fields_json(fields) + seq!['}'] + t) == Some((fields_view(fields), t)),
    decreases fields,
{
    assert(decreases_to!(fields => fields[0]));
    assert(decreases_to!(fields[0] => fields[0].1));
    lemma_value_reads_back(fields[0].1, member_tail(fields, t));
    if fields.len() >= 2 {
        let rest = fields.skip(1);
        assert(decreases_to!(fields => rest));
        lemma_fields_reads_back(rest, t);
    }
    lemma_fields_step(fields, t);
}

/// Every document the writer produces is one JSON text that reads back as
/// exactly the value written: the same fields in the same order, each number
/// as itself, every string as the same characters.
pub proof fn lemma_document_reads_back(v: Value)
    ensures
        read_value(value_json(v)) == Some((json_view(v), Seq::<char>::empty())),
{
    lemma_value_reads_back(v, Seq::empty());
    assert(value_json(v) + Seq::<char>::empty() =~= value_json(v));
}

} // verus!
