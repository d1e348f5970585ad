//! JSON texts read back: which value a text without white space between its
//! tokens holds.
//!
//! What the library sends is written by gluing pieces of text together. The
//! reader here knows nothing of those pieces, so what it finds in a text is
//! what the other side finds in it.
use vstd::prelude::*;

use crate::json::{json_bool, json_escape, json_string, json_strings_array};
use crate::text::{
    all_digits, dec, dec_value, digit_char, is_digit, joined, law_dec_reads_back,
};

verus! {

/// A JSON value. Numbers are those without sign and fraction.
pub ghost enum Json {
    Bool(bool),
    Num(nat),
    Text(Seq<char>),
    Items(Seq<Json>),
    Members(Seq<(Seq<char>, Json)>),
}

// ---------------------------------------------------------------------
// Reading
// ---------------------------------------------------------------------

/// The value of one hexadecimal digit.
pub open spec fn nibble(c: char) -> Option<int> {
    if '0' <= c <= '9' {
        Some(c as int - 48)
    } else if 'a' <= c <= 'f' {
        Some(c as int - 87)
    } else if 'A' <= c <= 'F' {
        Some(c as int - 55)
    } else {
        None
    }
}

/// The character that an escape sequence at the start of `s` stands for, and
/// how long the sequence is.
pub open spec fn read_escape(s: Seq<char>) -> Option<(char, int)> {
    if s.len() < 2 {
        None
    } else if s[1] == '"' || s[1] == '\\' || s[1] == '/' {
        Some((s[1], 2))
    } else if s[1] == 'b' {
        Some((8u8 as char, 2))
    } else if s[1] == 'f' {
        Some((12u8 as char, 2))
    } else if s[1] == 'n' {
        Some(('\n', 2))
    } else if s[1] == 'r' {
        Some(('\r', 2))
    } else if s[1] == 't' {
        Some(('\t', 2))
    } else if s[1] == 'u' && s.len() >= 6 {
        match (nibble(s[2]), nibble(s[3]), nibble(s[4]), nibble(s[5])) {
            (Some(a), Some(b), Some(c), Some(d)) => Some(
                ((a * 4096 + b * 256 + c * 16 + d) as char, 6),
            ),
            _ => None,
        }
    } else {
        None
    }
}

/// Reads a string whose opening quote has been read: the string, and what
/// stands behind its closing quote.
pub open spec fn read_text(s: Seq<char>) -> Option<(Seq<char>, Seq<char>)>
    decreases s.len(),
{
    if s.len() == 0 || (s[0] as int) < 32 {
        None
    } else if s[0] == '"' {
        Some((Seq::empty(), s.skip(1)))
    } else if s[0] == '\\' {
        match read_escape(s) {
            Some((c, n)) => if 0 < n <= s.len() {
                match read_text(s.skip(n)) {
                    Some((t, rest)) => Some((seq![c] + t, rest)),
                    None => None,
                }
            } else {
                None
            },
            None => None,
        }
    } else {
        match read_text(s.skip(1)) {
            Some((t, rest)) => Some((seq![s[0]] + t, rest)),
            None => None,
        }
    }
}

/// How many digits stand at the start of `s`.
pub open spec fn leading_digits(s: Seq<char>) -> int
    decreases s.len(),
{
    if s.len() > 0 && is_digit(s[0]) {
        1 + leading_digits(s.skip(1))
    } else {
        0
    }
}

/// Reads one value: the value, and what stands behind it.
pub open spec fn read_value(s: Seq<char>) -> Option<(Json, Seq<char>)>
    decreases s.len(), 0int,
{
    if s.len() == 0 {
        None
    } else if s[0] == '"' {
        match read_text(s.skip(1)) {
            Some((t, rest)) => Some((Json::Text(t), rest)),
            None => None,
        }
    } else if is_digit(s[0]) {
        let n = leading_digits(s);
        Some((Json::Num(dec_value(s.take(n))), s.skip(n)))
    } else if s.len() >= 4 && s.take(4) == seq!['t', 'r', 'u', 'e'] {
        Some((Json::Bool(true), s.skip(4)))
    } else if s.len() >= 5 && s.take(5) == seq!['f', 'a', 'l', 's', 'e'] {
        Some((Json::Bool(false), s.skip(5)))
    } else if s[0] == '[' && s.len() >= 2 {
        if s[1] == ']' {
            Some((Json::Items(Seq::empty()), s.skip(2)))
        } else {
            match read_items(s.skip(1)) {
                Some((xs, rest)) => Some((Json::Items(xs), rest)),
                None => None,
            }
        }
    } else if s[0] == '{' && s.len() >= 2 {
        if s[1] == '}' {
            Some((Json::Members(Seq::empty()), s.skip(2)))
        } else {
            match read_members(s.skip(1)) {
                Some((ms, rest)) => Some((Json::Members(ms), rest)),
                None => None,
            }
        }
    } else {
        None
    }
}

/// Reads the elements of an array up to its closing bracket.
pub open spec fn read_items(s: Seq<char>) -> Option<(Seq<Json>, Seq<char>)>
    decreases s.len(), 1int,
{
    match read_value(s) {
        Some((v, rest)) => if rest.len() == 0 || rest.len() >= s.len() {
            None
        } else if rest[0] == ']' {
            Some((seq![v], rest.skip(1)))
        } else if rest[0] == ',' {
            match read_items(rest.skip(1)) {
                Some((xs, end)) => Some((seq![v] + xs, end)),
                None => None,
            }
        } else {
            None
        },
        None => None,
    }
}

/// Reads the members of an object up to its closing brace.
pub open spec fn read_members(s: Seq<char>) -> Option<(Seq<(Seq<char>, Json)>, Seq<char>)>
    decreases s.len(), 1int,
{
    if s.len() == 0 || s[0] != '"' {
        None
    } else {
        match read_text(s.skip(1)) {
            Some((key, behind)) => if behind.len() == 0 || behind.len() >= s.len() || behind[0]
                != ':' {
                None
            } else {
                match read_value(behind.skip(1)) {
                    Some((v, rest)) => if rest.len() == 0 || rest.len() >= s.len() {
                        None
                    } else if rest[0] == '}' {
                        Some((seq![(key, v)], rest.skip(1)))
                    } else if rest[0] == ',' {
                        match read_members(rest.skip(1)) {
                            Some((ms, end)) => Some((seq![(key, v)] + ms, end)),
                            None => None,
                        }
                    } else {
                        None
                    },
                    None => None,
                }
            },
            None => None,
        }
    }
}

/// The value that a whole text holds.
pub open spec fn document(text: Seq<char>) -> Option<Json> {
    match read_value(text) {
        Some((v, rest)) => if rest.len() == 0 {
            Some(v)
        } else {
            None
        },
        None => None,
    }
}

/// The value of the first of `ms` that is named `key`.
pub open spec fn lookup(ms: Seq<(Seq<char>, Json)>, key: Seq<char>) -> Option<Json>
    decreases ms.len(),
{
    if ms.len() == 0 {
        None
    } else if ms[0].0 == key {
        Some(ms[0].1)
    } else {
        lookup(ms.skip(1), key)
    }
}

impl Json {
    /// The member `key`, where the value is an object that has one.
    pub open spec fn member(self, key: Seq<char>) -> Option<Json> {
        match self {
            Json::Members(ms) => lookup(ms, key),
            _ => None,
        }
    }
}

// ---------------------------------------------------------------------
// Writing
// ---------------------------------------------------------------------

/// The text of a value.
pub open spec fn text_of(v: Json) -> Seq<char>
    decreases v,
{
    match v {
        Json::Bool(b) => json_bool(b),
        Json::Num(n) => dec(n),
        Json::Text(t) => json_string(t),
        Json::Items(xs) => seq!['['] + write_items(xs) + seq![']'],
        Json::Members(ms) => seq!['{'] + write_members(ms) + seq!['}'],
    }
}

pub open spec fn write_items(xs: Seq<Json>) -> Seq<char>
    decreases xs,
{
    if xs.len() == 0 {
        Seq::empty()
    } else if xs.len() == 1 {
        text_of(xs[0])
    } else {
        text_of(xs[0]) + seq![','] + write_items(xs.subrange(1, xs.len() as int))
    }
}

pub open spec fn write_members(ms: Seq<(Seq<char>, Json)>) -> Seq<char>
    decreases ms,
{
    if ms.len() == 0 {
        Seq::empty()
    } else if ms.len() == 1 {
        json_string(ms[0].0) + seq![':'] + text_of(ms[0].1)
    } else {
        json_string(ms[0].0) + seq![':'] + text_of(ms[0].1) + seq![','] + write_members(
            ms.subrange(1, ms.len() as int),
        )
    }
}

// ---------------------------------------------------------------------
// What is written is read back
// ---------------------------------------------------------------------

spec fn escaped(s: Seq<char>) -> Seq<char> {
    s.map_values(|c: char| json_escape(c)).flatten()
}

proof fn lemma_escaped_front(s: Seq<char>)
    requires
        s.len() > 0,
    ensures
        escaped(s) == json_escape(s[0]) + escaped(s.skip(1)),
{
    let parts = s.map_values(|c: char| json_escape(c));
    let rest = s.skip(1).map_values(|c: char| json_escape(c));
    assert(parts.drop_first() =~= rest);
    assert(parts.first() == json_escape(s[0]));
}

proof fn lemma_nibble(d: int)
    requires
        0 <= d < 16,
    ensures
        nibble(digit_char(d)) == Some(d),
{
}

proof fn lemma_read_plain(c: char)
    requires
        json_escape(c).len() == 1,
    ensures
        json_escape(c) == seq![c],
        c != '"' && c != '\\' && c as int >= 32,
{
}

proof fn lemma_read_control(c: char, tail: Seq<char>)
    requires
        json_escape(c).len() == 6,
    ensures
        read_escape(json_escape(c) + tail) == Some((c, 6int)),
{
    let full = json_escape(c) + tail;
    let u = c as int;
    assert(0 <= u < 32);
    assert(0 <= u / 16 < 16 && 0 <= u % 16 < 16);
    lemma_nibble(0);
    lemma_nibble(u / 16);
    lemma_nibble(u % 16);
    assert('0' == digit_char(0));
    assert(full[1] == 'u' && full[2] == '0' && full[3] == '0' && full[4] == digit_char(u / 16)
        && full[5] == digit_char(u % 16));
    assert(u == u / 16 * 16 + u % 16);
    assert((0int * 4096 + 0int * 256 + u / 16 * 16 + u % 16) as char == c);
}

proof fn lemma_read_short(c: char, tail: Seq<char>)
    requires
        json_escape(c).len() == 2,
    ensures
        read_escape(json_escape(c) + tail) == Some((c, 2int)),
{
    let full = json_escape(c) + tail;
    assert(full[1] == json_escape(c)[1]);
}

proof fn lemma_read_text(s: Seq<char>, rest: Seq<char>)
    ensures
        read_text(escaped(s) + seq!['"'] + rest) == Some((s, rest)),
    decreases s.len(),
{
    let full = escaped(s) + seq!['"'] + rest;
    if s.len() == 0 {
        assert(s.map_values(|c: char| json_escape(c)) =~= Seq::<Seq<char>>::empty());
        assert(escaped(s) =~= Seq::<char>::empty());
        assert(full[0] == '"');
        assert(full.skip(1) =~= rest);
        assert(s =~= Seq::<char>::empty());
    } else {
        let c = s[0];
        let tail = escaped(s.skip(1)) + seq!['"'] + rest;
        lemma_escaped_front(s);
        lemma_read_text(s.skip(1), rest);
        let h = json_escape(c);
        assert(full =~= h + tail);
        assert(seq![c] + s.skip(1) =~= s);
        assert((h + tail).skip(h.len() as int) =~= tail);
        assert(full[0] == h[0]);
        if h.len() == 1 {
            lemma_read_plain(c);
        } else {
            assert(h[0] == '\\');
            assert(h.len() == 2 || h.len() == 6);
            if h.len() == 2 {
                lemma_read_short(c, tail);
            } else {
                lemma_read_control(c, tail);
            }
        }
    }
}

proof fn lemma_leading_digits(ds: Seq<char>, rest: Seq<char>)
    requires
        all_digits(ds),
        rest.len() == 0 || !is_digit(rest[0]),
    ensures
        leading_digits(ds + rest) == ds.len(),
    decreases ds.len(),
{
    let s = ds + rest;
    if ds.len() == 0 {
        assert(s =~= rest);
    } else {
        assert(s[0] == ds[0]);
        assert(is_digit(ds[0]));
        assert forall|i: int| 0 <= i < ds.skip(1).len() implies is_digit(
            #[trigger] ds.skip(1)[i],
        ) by {
            assert(ds.skip(1)[i] == ds[i + 1]);
        }
        lemma_leading_digits(ds.skip(1), rest);
        assert(s.skip(1) =~= ds.skip(1) + rest);
    }
}

proof fn lemma_read_number(n: nat, rest: Seq<char>)
    requires
        rest.len() == 0 || !is_digit(rest[0]),
    ensures
        read_value(dec(n) + rest) == Some((Json::Num(n), rest)),
        dec(n).len() > 0,
        is_digit(dec(n)[0]),
{
    law_dec_reads_back(n, n);
    let s = dec(n) + rest;
    lemma_leading_digits(dec(n), rest);
    if dec(n).len() == 0 {
        assert(crate::text::parse_dec(dec(n), n) is None);
    }
    assert(is_digit(dec(n)[0]));
    assert(s[0] == dec(n)[0]);
    assert(s.take(dec(n).len() as int) =~= dec(n));
    assert(s.skip(dec(n).len() as int) =~= rest);
}

proof fn lemma_read_string(t: Seq<char>, rest: Seq<char>)
    ensures
        json_string(t).len() >= 2,
        json_string(t)[0] == '"',
        (json_string(t) + rest)[0] == '"',
        read_text((json_string(t) + rest).skip(1)) == Some((t, rest)),
{
    lemma_read_text(t, rest);
    let s = json_string(t) + rest;
    assert(json_string(t) == seq!['"'] + escaped(t) + seq!['"']);
    assert(s.skip(1) =~= escaped(t) + seq!['"'] + rest);
}

proof fn lemma_first_of_value(v: Json)
    ensures
        text_of(v).len() > 0,
        text_of(v)[0] != ']' && text_of(v)[0] != '}' && text_of(v)[0] != ',' && text_of(v)[0] != ':',
{
    match v {
        Json::Bool(b) => {
            reveal_strlit("true");
            reveal_strlit("false");
        },
        Json::Num(n) => {
            lemma_read_number(n, Seq::empty());
        },
        Json::Text(t) => {
            lemma_read_string(t, Seq::empty());
        },
        Json::Items(xs) => {
            assert(text_of(v)[0] == '[');
        },
        Json::Members(ms) => {
            assert(text_of(v)[0] == '{');
        },
    }
}

proof fn lemma_read_bool(b: bool, rest: Seq<char>)
    ensures
        read_value(json_bool(b) + rest) == Some((Json::Bool(b), rest)),
{
    let s = json_bool(b) + rest;
    reveal_strlit("true");
    reveal_strlit("false");
    if b {
        assert(s.take(4) =~= seq!['t', 'r', 'u', 'e']);
        assert(s.skip(4) =~= rest);
        assert(s[0] == 't');
    } else {
        assert(s.take(5) =~= seq!['f', 'a', 'l', 's', 'e']);
        assert(s.skip(5) =~= rest);
        assert(s[0] == 'f');
        assert(s.take(4)[0] == 'f');
    }
}

proof fn lemma_open_bracket(body: Seq<char>, rest: Seq<char>, xs: Seq<Json>)
    requires
        body.len() > 0 && body[0] != ']',
        read_items(body + seq![']'] + rest) == Some((xs, rest)),
    ensures
        read_value(seq!['['] + body + seq![']'] + rest) == Some((Json::Items(xs), rest)),
{
    let s = seq!['['] + body + seq![']'] + rest;
    assert(s[0] == '[');
    assert(s.len() >= 4 ==> s.take(4)[0] == '[');
    assert(s.len() >= 5 ==> s.take(5)[0] == '[');
    assert(s[1] == body[0]);
    assert(s.skip(1) =~= body + seq![']'] + rest);
}

proof fn lemma_open_brace(body: Seq<char>, rest: Seq<char>, ms: Seq<(Seq<char>, Json)>)
    requires
        body.len() > 0 && body[0] != '}',
        read_members(body + seq!['}'] + rest) == Some((ms, rest)),
    ensures
        read_value(seq!['{'] + body + seq!['}'] + rest) == Some((Json::Members(ms), rest)),
{
    let s = seq!['{'] + body + seq!['}'] + rest;
    assert(s[0] == '{');
    assert(s.len() >= 4 ==> s.take(4)[0] == '{');
    assert(s.len() >= 5 ==> s.take(5)[0] == '{');
    assert(s[1] == body[0]);
    assert(s.skip(1) =~= body + seq!['}'] + rest);
}

proof fn lemma_read_empty(rest: Seq<char>)
    ensures
        read_value(seq!['[', ']'] + rest) == Some((Json::Items(Seq::empty()), rest)),
        read_value(seq!['{', '}'] + rest) == Some((Json::Members(Seq::empty()), rest)),
{
    let a = seq!['[', ']'] + rest;
    let b = seq!['{', '}'] + rest;
    assert(a[0] == '[' && a[1] == ']' && b[0] == '{' && b[1] == '}');
    assert(a.len() >= 4 ==> a.take(4)[0] == '[');
    assert(a.len() >= 5 ==> a.take(5)[0] == '[');
    assert(b.len() >= 4 ==> b.take(4)[0] == '{');
    assert(b.len() >= 5 ==> b.take(5)[0] == '{');
    assert(a.skip(2) =~= rest);
    assert(b.skip(2) =~= rest);
}

/// A value is read back from its text, whatever follows it; a number ends
/// where its digits do.
proof fn lemma_read_value(v: Json, rest: Seq<char>)
    requires
        rest.len() == 0 || !is_digit(rest[0]),
    ensures
        read_value(text_of(v) + rest) == Some((v, rest)),
    decreases v, 1int,
{
    match v {
        Json::Bool(b) => {
            lemma_read_bool(b, rest);
        },
        Json::Num(n) => {
            lemma_read_number(n, rest);
        },
        Json::Text(t) => {
            lemma_read_string(t, rest);
        },
        Json::Items(xs) => {
            let body = write_items(xs);
            if xs.len() == 0 {
                lemma_read_empty(rest);
                assert(text_of(v) =~= seq!['[', ']']);
                assert(xs =~= Seq::<Json>::empty());
            } else {
                lemma_read_items(xs, rest);
                lemma_first_of_value(xs[0]);
                assert(body.len() > 0 && body[0] == text_of(xs[0])[0]);
                lemma_open_bracket(body, rest, xs);
            }
        },
        Json::Members(ms) => {
            let body = write_members(ms);
            if ms.len() == 0 {
                lemma_read_empty(rest);
                assert(text_of(v) =~= seq!['{', '}']);
                assert(ms =~= Seq::<(Seq<char>, Json)>::empty());
            } else {
                lemma_read_members(ms, rest);
                lemma_read_string(ms[0].0, Seq::empty());
                assert(body.len() > 0 && body[0] == '"');
                lemma_open_brace(body, rest, ms);
            }
        },
    }
}

proof fn lemma_read_items(xs: Seq<Json>, rest: Seq<char>)
    requires
        xs.len() > 0,
    ensures
        read_items(write_items(xs) + seq![']'] + rest) == Some((xs, rest)),
    decreases xs, 0int,
{
    let s = write_items(xs) + seq![']'] + rest;
    lemma_first_of_value(xs[0]);
    if xs.len() == 1 {
        let behind = seq![']'] + rest;
        lemma_read_value(xs[0], behind);
        assert(s =~= text_of(xs[0]) + behind);
        assert(behind.skip(1) =~= rest);
        assert(seq![xs[0]] =~= xs);
    } else {
        let more = xs.subrange(1, xs.len() as int);
        let next = write_items(more) + seq![']'] + rest;
        let behind = seq![','] + next;
        lemma_read_items(more, rest);
        lemma_read_value(xs[0], behind);
        assert(s =~= text_of(xs[0]) + behind);
        assert(behind.skip(1) =~= next);
        assert(seq![xs[0]] + more =~= xs);
    }
}

proof fn lemma_read_key(key: Seq<char>, v: Json, behind: Seq<char>)
    requires
        read_value(text_of(v) + behind) == Some((v, behind)),
    ensures
        ({
            let s = json_string(key) + seq![':'] + text_of(v) + behind;
            let value = seq![':'] + text_of(v) + behind;
            &&& s.len() > value.len()
            &&& s.len() > behind.len()
            &&& s[0] == '"'
            &&& value[0] == ':'
            &&& read_text(s.skip(1)) == Some((key, value))
            &&& read_value(value.skip(1)) == Some((v, behind))
        }),
{
    let value = seq![':'] + text_of(v) + behind;
    let s = json_string(key) + seq![':'] + text_of(v) + behind;
    lemma_read_string(key, value);
    assert(s =~= json_string(key) + value);
    assert(value.skip(1) =~= text_of(v) + behind);
}

/// One step of reading members, where it is known what is read.
proof fn lemma_members_step(
    s: Seq<char>,
    key: Seq<char>,
    value: Seq<char>,
    v: Json,
    behind: Seq<char>,
)
    requires
        s.len() > value.len() > 0,
        s.len() > behind.len() > 0,
        s[0] == '"',
        value[0] == ':',
        read_text(s.skip(1)) == Some((key, value)),
        read_value(value.skip(1)) == Some((v, behind)),
    ensures
        behind[0] == '}' ==> read_members(s) == Some((seq![(key, v)], behind.skip(1))),
        behind[0] == ',' ==> (match read_members(behind.skip(1)) {
            Some((ms, end)) => read_members(s) == Some((seq![(key, v)] + ms, end)),
            None => true,
        }),
{
}

proof fn lemma_regroup(a: Seq<char>, b: Seq<char>, c: Seq<char>, rest: Seq<char>)
    ensures
        a + b + rest == a + (b + rest),
        a + b + c + rest == a + (b + c + rest),
{
    assert(a + b + rest =~= a + (b + rest));
    assert(a + b + c + rest =~= a + (b + c + rest));
}

proof fn lemma_read_members(ms: Seq<(Seq<char>, Json)>, rest: Seq<char>)
    requires
        ms.len() > 0,
    ensures
        read_members(write_members(ms) + seq!['}'] + rest) == Some((ms, rest)),
    decreases ms, 0int,
{
    let key = ms[0].0;
    let v = ms[0].1;
    let more = ms.subrange(1, ms.len() as int);
    let next = write_members(more) + seq!['}'] + rest;
    let behind = if ms.len() == 1 {
        seq!['}'] + rest
    } else {
        seq![','] + next
    };
    lemma_read_value(v, behind);
    lemma_read_key(key, v, behind);
    let s = json_string(key) + seq![':'] + text_of(v) + behind;
    lemma_members_step(s, key, seq![':'] + text_of(v) + behind, v, behind);
    if ms.len() == 1 {
        assert(behind.skip(1) =~= rest);
    } else {
        assert(behind.skip(1) =~= next);
    }
    if ms.len() == 1 {
        assert(write_members(ms) == json_string(key) + seq![':'] + text_of(v));
        lemma_regroup(write_members(ms), seq!['}'], Seq::empty(), rest);
        assert(seq![(key, v)] =~= ms);
    } else {
        lemma_read_members(more, rest);
        let head = json_string(key) + seq![':'] + text_of(v);
        assert(write_members(ms) == head + seq![','] + write_members(more));
        lemma_regroup(head + seq![','], write_members(more), seq!['}'], rest);
        lemma_regroup(head, seq![','], Seq::empty(), next);
        assert(seq![(key, v)] + more =~= ms);
    }
}

/// Every value is read back from its text.
pub proof fn law_documents_read_back(v: Json)
    ensures
        document(text_of(v)) == Some(v),
{
    lemma_read_value(v, Seq::empty());
    assert(text_of(v) + Seq::<char>::empty() =~= text_of(v));
}

/// Different values have different texts.
pub proof fn law_texts_tell_values_apart(v: Json, w: Json)
    requires
        text_of(v) == text_of(w),
    ensures
        v == w,
{
    law_documents_read_back(v);
    law_documents_read_back(w);
}

// ---------------------------------------------------------------------
// Texts that are glued together
// ---------------------------------------------------------------------

/// A string that stands in its literal as it is.
pub open spec fn is_plain(s: Seq<char>) -> bool {
    forall|i: int|
        0 <= i < s.len() ==> #[trigger] s[i] != '"' && s[i] != '\\' && s[i] as int >= 32
}

proof fn lemma_escaped_plain(s: Seq<char>)
    requires
        is_plain(s),
    ensures
        escaped(s) == s,
    decreases s.len(),
{
    if s.len() == 0 {
        assert(s.map_values(|c: char| json_escape(c)) =~= Seq::<Seq<char>>::empty());
        assert(escaped(s) =~= s);
    } else {
        lemma_escaped_front(s);
        assert forall|i: int| 0 <= i < s.skip(1).len() implies #[trigger] s.skip(1)[i] != '"'
            && s.skip(1)[i] != '\\' && s.skip(1)[i] as int >= 32 by {
            assert(s.skip(1)[i] == s[i + 1]);
        }
        lemma_escaped_plain(s.skip(1));
        assert(json_escape(s[0]) == seq![s[0]]);
        assert(seq![s[0]] + s.skip(1) =~= s);
    }
}

pub(crate) proof fn lemma_plain_literal(s: Seq<char>)
    requires
        is_plain(s),
    ensures
        json_string(s) == seq!['"'] + s + seq!['"'],
{
    lemma_escaped_plain(s);
}

/// The text of one member behind `before`.
pub open spec fn named(before: Seq<char>, key: Seq<char>, v: Json) -> Seq<char> {
    before + seq!['"'] + key + seq!['"', ':'] + text_of(v)
}

pub(crate) proof fn lemma_last_member(before: Seq<char>, k: Seq<char>, v: Json)
    requires
        is_plain(k),
    ensures
        before + write_members(seq![(k, v)]) == named(before, k, v),
{
    lemma_plain_literal(k);
    assert(before + write_members(seq![(k, v)]) =~= named(before, k, v));
}

pub(crate) proof fn lemma_next_member(
    before: Seq<char>,
    k: Seq<char>,
    v: Json,
    ms: Seq<(Seq<char>, Json)>,
)
    requires
        is_plain(k),
        ms.len() > 0,
    ensures
        before + write_members(seq![(k, v)] + ms) == named(before, k, v) + seq![','] + write_members(
            ms,
        ),
{
    lemma_plain_literal(k);
    let all = seq![(k, v)] + ms;
    assert(all.subrange(1, all.len() as int) =~= ms);
    assert(before + write_members(all) =~= named(before, k, v) + seq![','] + write_members(ms));
}

pub(crate) proof fn lemma_one_member(k: Seq<char>, v: Json)
    requires
        is_plain(k),
    ensures
        text_of(Json::Members(seq![(k, v)])) == named(seq!['{'], k, v) + seq!['}'],
{
    lemma_last_member(seq!['{'], k, v);
}

pub(crate) proof fn lemma_two_members(k: Seq<char>, v: Json, l: Seq<char>, w: Json)
    requires
        is_plain(k),
        is_plain(l),
    ensures
        text_of(Json::Members(seq![(k, v), (l, w)])) == named(
            named(seq!['{'], k, v) + seq![','],
            l,
            w,
        ) + seq!['}'],
{
    let before = seq!['{'];
    lemma_next_member(before, k, v, seq![(l, w)]);
    lemma_last_member(named(before, k, v) + seq![','], l, w);
    assert(seq![(k, v), (l, w)] =~= seq![(k, v)] + seq![(l, w)]);
}

pub(crate) proof fn lemma_three_members(
    k: Seq<char>,
    v: Json,
    l: Seq<char>,
    w: Json,
    m: Seq<char>,
    x: Json,
)
    requires
        is_plain(k),
        is_plain(l),
        is_plain(m),
    ensures
        text_of(Json::Members(seq![(k, v), (l, w), (m, x)])) == named(
            named(named(seq!['{'], k, v) + seq![','], l, w) + seq![','],
            m,
            x,
        ) + seq!['}'],
{
    let before = seq!['{'];
    let second = named(before, k, v) + seq![','];
    lemma_next_member(before, k, v, seq![(l, w), (m, x)]);
    lemma_next_member(second, l, w, seq![(m, x)]);
    lemma_last_member(named(second, l, w) + seq![','], m, x);
    assert(seq![(k, v), (l, w), (m, x)] =~= seq![(k, v)] + seq![(l, w), (m, x)]);
    assert(seq![(l, w), (m, x)] =~= seq![(l, w)] + seq![(m, x)]);
}

pub(crate) proof fn lemma_four_members(
    k: Seq<char>,
    v: Json,
    l: Seq<char>,
    w: Json,
    m: Seq<char>,
    x: Json,
    n: Seq<char>,
    y: Json,
)
    requires
        is_plain(k),
        is_plain(l),
        is_plain(m),
        is_plain(n),
    ensures
        text_of(Json::Members(seq![(k, v), (l, w), (m, x), (n, y)])) == named(
            named(named(named(seq!['{'], k, v) + seq![','], l, w) + seq![','], m, x) + seq![','],
            n,
            y,
        ) + seq!['}'],
{
    let before = seq!['{'];
    let second = named(before, k, v) + seq![','];
    let third = named(second, l, w) + seq![','];
    lemma_next_member(before, k, v, seq![(l, w), (m, x), (n, y)]);
    lemma_next_member(second, l, w, seq![(m, x), (n, y)]);
    lemma_next_member(third, m, x, seq![(n, y)]);
    lemma_last_member(named(third, m, x) + seq![','], n, y);
    assert(seq![(k, v), (l, w), (m, x), (n, y)] =~= seq![(k, v)] + seq![(l, w), (m, x), (n, y)]);
    assert(seq![(l, w), (m, x), (n, y)] =~= seq![(l, w)] + seq![(m, x), (n, y)]);
    assert(seq![(m, x), (n, y)] =~= seq![(m, x)] + seq![(n, y)]);
}

/// An array of string literals is the text of the strings.
pub(crate) proof fn lemma_strings_array(items: Seq<Seq<char>>)
    ensures
        json_strings_array(items) == text_of(
            Json::Items(items.map_values(|s: Seq<char>| Json::Text(s))),
        ),
{
    reveal_strlit("[");
    reveal_strlit("]");
    reveal_strlit(",");
    let xs = items.map_values(|s: Seq<char>| Json::Text(s));
    let parts = items.map_values(|s: Seq<char>| json_string(s));
    lemma_joined_items(items);
    assert("["@ =~= seq!['[']);
    assert("]"@ =~= seq![']']);
    assert(json_strings_array(items) =~= text_of(Json::Items(xs)));
}

proof fn lemma_joined_items(items: Seq<Seq<char>>)
    ensures
        joined(items.map_values(|s: Seq<char>| json_string(s)), ","@) == write_items(
            items.map_values(|s: Seq<char>| Json::Text(s)),
        ),
    decreases items.len(),
{
    reveal_strlit(",");
    let parts = items.map_values(|s: Seq<char>| json_string(s));
    let xs = items.map_values(|s: Seq<char>| Json::Text(s));
    if items.len() >= 2 {
        let more = items.skip(1);
        lemma_joined_items(more);
        assert(xs.subrange(1, xs.len() as int) =~= more.map_values(|s: Seq<char>| Json::Text(s)));
        assert(parts.skip(1) =~= more.map_values(|s: Seq<char>| json_string(s)));
        lemma_joined_front(parts, ","@);
        assert(","@ =~= seq![',']);
        assert(xs[0] == Json::Text(items[0]));
        assert(parts[0] == json_string(items[0]));
        assert(text_of(xs[0]) == json_string(items[0]));
    } else if items.len() == 1 {
        assert(text_of(xs[0]) == json_string(items[0]));
        assert(parts[0] == json_string(items[0]));
    }
}

/// What is joined from the back is joined from the front.
proof fn lemma_joined_front(parts: Seq<Seq<char>>, sep: Seq<char>)
    requires
        parts.len() >= 2,
    ensures
        joined(parts, sep) == parts[0] + sep + joined(parts.skip(1), sep),
    decreases parts.len(),
{
    if parts.len() == 2 {
        assert(parts.drop_last() =~= seq![parts[0]]);
        assert(parts.skip(1) =~= seq![parts[1]]);
        assert(joined(parts.drop_last(), sep) == parts[0]);
        assert(joined(parts.skip(1), sep) == parts[1]);
        assert(joined(parts, sep) =~= parts[0] + sep + parts[1]);
    } else {
        lemma_joined_front(parts.drop_last(), sep);
        assert(parts.drop_last().skip(1) =~= parts.skip(1).drop_last());
        assert(joined(parts, sep) =~= parts[0] + sep + joined(parts.skip(1), sep));
    }
}

} // verus!
