//! Text building blocks: decimal and hexadecimal rendering, searching,
//! splitting and trimming of character sequences.
//!
//! A string is modelled by its sequence of characters (`s@`).
use vstd::prelude::*;

verus! {

/// `String::push`: appends one character at the end.
pub assume_specification[ String::push ](s: &mut String, c: char)
    ensures
        final(s)@ == old(s)@.push(c),
;

/// White space: the characters with the Unicode `White_Space` property.
pub open spec fn whitespace(c: char) -> bool {
    let u = c as u32;
    ||| 0x9 <= u <= 0xd
    ||| u == 0x20
    ||| u == 0x85
    ||| u == 0xa0
    ||| u == 0x1680
    ||| 0x2000 <= u <= 0x200a
    ||| u == 0x2028
    ||| u == 0x2029
    ||| u == 0x202f
    ||| u == 0x205f
    ||| u == 0x3000
}

pub fn is_whitespace(c: char) -> (r: bool)
    ensures
        r == whitespace(c),
{
    let u: u32 = c as u32;
    (0x9 <= u && u <= 0xd) || u == 0x20 || u == 0x85 || u == 0xa0 || u == 0x1680 || (0x2000 <= u
        && u <= 0x200a) || u == 0x2028 || u == 0x2029 || u == 0x202f || u == 0x205f || u == 0x3000
}

/// Whether `char::is_alphanumeric` (the Unicode letter or number classes) holds.
pub uninterp spec fn alphanumeric(c: char) -> bool;

/// `char::is_alphanumeric`: answers as [`alphanumeric`] names it.
#[verifier::external_body]
pub(crate) fn is_alphanumeric(c: char) -> (r: bool)
    ensures
        r == alphanumeric(c),
{
    c.is_alphanumeric()
}

/// A character between single quotes, as the standard library shows it in
/// diagnostics.
pub uninterp spec fn char_debug(c: char) -> Seq<char>;

/// The `Debug` form of a `char`: which characters it escapes, and how, is left
/// to the standard library; the character alone decides it.
#[verifier::external_body]
pub(crate) fn debug_char(c: char) -> (r: String)
    ensures
        r@ == char_debug(c),
{
    format!("{:?}", c)
}

/// A text between double quotes, as the standard library shows it in
/// diagnostics.
pub uninterp spec fn str_debug(s: Seq<char>) -> Seq<char>;

/// The `Debug` form of a `str`: which characters it escapes, and how, is left
/// to the standard library; the text alone decides it.
#[verifier::external_body]
pub(crate) fn debug_str(s: &str) -> (r: String)
    ensures
        r@ == str_debug(s@),
{
    format!("{:?}", s)
}

// ---------------------------------------------------------------------
// Characters
// ---------------------------------------------------------------------

pub open spec fn is_digit(c: char) -> bool {
    '0' <= c && c <= '9'
}

pub open spec fn is_ascii_alnum(c: char) -> bool {
    ('a' <= c && c <= 'z') || ('A' <= c && c <= 'Z') || is_digit(c)
}

pub fn ascii_alnum(c: char) -> (r: bool)
    ensures
        r == is_ascii_alnum(c),
{
    ('a' <= c && c <= 'z') || ('A' <= c && c <= 'Z') || ('0' <= c && c <= '9')
}

/// The digit character of a value below sixteen, lower case.
pub open spec fn digit_char(d: int) -> char {
    if d < 10 {
        (48 + d) as char
    } else {
        (87 + d) as char
    }
}

fn digit_to_char(d: u8) -> (c: char)
    requires
        d < 16,
    ensures
        c == digit_char(d as int),
{
    if d < 10 {
        (48 + d) as char
    } else {
        (87 + d) as char
    }
}

// ---------------------------------------------------------------------
// Copying between strings and character vectors
// ---------------------------------------------------------------------

/// The characters of `s`.
pub fn chars_of(s: &str) -> (v: Vec<char>)
    ensures
        v@ == s@,
{
    let mut v: Vec<char> = Vec::new();
    for c in it: s.chars()
        invariant
            it.seq() == s@,
            v@ == s@.take(it.index() as int),
    {
        v.push(c);
    }
    v
}

/// The string made of `v[lo..hi]`.
pub fn string_of(v: &Vec<char>, lo: usize, hi: usize) -> (s: String)
    requires
        lo <= hi <= v@.len(),
    ensures
        s@ == v@.subrange(lo as int, hi as int),
{
    let mut s = String::new();
    let mut i: usize = lo;
    while i < hi
        invariant
            lo <= i <= hi <= v@.len(),
            s@ == v@.subrange(lo as int, i as int),
        decreases hi - i,
    {
        s.push(v[i]);
        i += 1;
    }
    s
}

pub fn str_eq(a: &str, b: &str) -> (r: bool)
    ensures
        r == (a@ == b@),
{
    a.to_string() == b.to_string()
}

// ---------------------------------------------------------------------
// Numbers
// ---------------------------------------------------------------------

/// The shortest digits of `n` in `base`, most significant first.
pub open spec fn digits(n: nat, base: nat) -> Seq<char>
    decreases n,
{
    if base < 2 || n < base {
        seq![digit_char(n as int)]
    } else {
        proof {
            assert(n / base < n) by (nonlinear_arith)
                requires
                    n >= base,
                    base >= 2,
            ;
        }
        digits(n / base, base).push(digit_char((n % base) as int))
    }
}

/// `n` in decimal.
pub open spec fn dec(n: nat) -> Seq<char> {
    digits(n, 10)
}

/// `n` in lower-case hexadecimal.
pub open spec fn hex(n: nat) -> Seq<char> {
    digits(n, 16)
}

/// Digits are hexadecimal characters, and only zero starts with one.
pub proof fn lemma_digits_chars(n: nat, base: nat)
    requires
        2 <= base <= 16,
    ensures
        digits(n, base).len() > 0,
        n > 0 ==> digits(n, base)[0] != '0',
        n < base ==> digits(n, base).len() == 1,
        forall|i: int|
            0 <= i < digits(n, base).len() ==> {
                let c = #[trigger] digits(n, base)[i];
                ('0' <= c && c <= '9') || ('a' <= c && c <= 'f')
            },
    decreases n,
{
    if n >= base {
        assert(0 < n / base < n && 0 <= n % base < base) by (nonlinear_arith)
            requires
                n >= base,
                base >= 2,
        ;
        lemma_digits_chars(n / base, base);
    }
}

/// A number has digits of its own.
pub proof fn lemma_digits_injective(a: nat, b: nat, base: nat)
    requires
        2 <= base <= 16,
        digits(a, base) == digits(b, base),
    ensures
        a == b,
    decreases a,
{
    lemma_digits_chars(a, base);
    lemma_digits_chars(b, base);
    let s = digits(a, base);
    let t = digits(b, base);
    if a >= base {
        lemma_digits_chars(a / base, base);
        assert(a / base < a && 0 <= a % base < base) by (nonlinear_arith)
            requires
                a >= base,
                base >= 2,
        ;
        assert(s.len() >= 2);
        assert(b >= base);
        assert(0 <= b % base < base) by (nonlinear_arith)
            requires
                base >= 2,
        ;
        assert(s.drop_last() =~= digits(a / base, base));
        assert(t.drop_last() =~= digits(b / base, base));
        lemma_digits_injective(a / base, b / base, base);
        assert(s.last() == t.last());
        assert(a % base == b % base);
        vstd::arithmetic::div_mod::lemma_fundamental_div_mod(a as int, base as int);
        vstd::arithmetic::div_mod::lemma_fundamental_div_mod(b as int, base as int);
    } else {
        if b >= base {
            assert(0 < b / base) by (nonlinear_arith)
                requires
                    b >= base,
                    base >= 2,
            ;
            lemma_digits_chars(b / base, base);
            assert(t.len() >= 2);
        }
        assert(s[0] == digit_char(a as int));
        assert(t[0] == digit_char(b as int));
    }
}

/// Leading zeros do not make two numbers look the same.
pub proof fn lemma_padded_digits_injective(a: nat, b: nat, base: nat, width: nat)
    requires
        2 <= base <= 16,
        pad_left(digits(a, base), width, '0') == pad_left(digits(b, base), width, '0'),
    ensures
        a == b,
{
    let s = digits(a, base);
    let t = digits(b, base);
    lemma_digits_chars(a, base);
    lemma_digits_chars(b, base);
    let p = pad_left(s, width, '0');
    let q = pad_left(t, width, '0');
    if s.len() < t.len() {
        assert(q[q.len() - t.len()] == t[0]);
        assert(p[p.len() - t.len()] == '0');
        assert(b == 0);
        assert(t.len() == 1);
    } else if t.len() < s.len() {
        assert(p[p.len() - s.len()] == s[0]);
        assert(q[q.len() - s.len()] == '0');
        assert(a == 0);
        assert(s.len() == 1);
    } else {
        assert(p.skip(p.len() - s.len()) =~= s);
        assert(q.skip(q.len() - t.len()) =~= t);
        lemma_digits_injective(a, b, base);
    }
}

/// Appends the digits of `n` in `base` to `out`.
fn push_digits(out: &mut String, n: u64, base: u64)
    requires
        2 <= base <= 16,
    ensures
        final(out)@ == old(out)@ + digits(n as nat, base as nat),
    decreases n,
{
    if n < base {
        out.push(digit_to_char(n as u8));
        assert(out@ =~= old(out)@ + digits(n as nat, base as nat));
    } else {
        assert(n / base < n) by (nonlinear_arith)
            requires
                n >= base,
                base >= 2,
        ;
        assert(n % base < base) by (nonlinear_arith)
            requires
                base >= 2,
        ;
        push_digits(out, n / base, base);
        out.push(digit_to_char((n % base) as u8));
        assert(out@ =~= old(out)@ + digits(n as nat, base as nat));
    }
}

pub fn dec_string(n: u64) -> (s: String)
    ensures
        s@ == dec(n as nat),
{
    let mut s = String::new();
    push_digits(&mut s, n, 10);
    assert(s@ =~= dec(n as nat));
    s
}

pub fn hex_string(n: u64) -> (s: String)
    ensures
        s@ == hex(n as nat),
{
    let mut s = String::new();
    push_digits(&mut s, n, 16);
    assert(s@ =~= hex(n as nat));
    s
}

/// `s` with copies of `c` in front until it has at least `width` characters.
pub open spec fn pad_left(s: Seq<char>, width: nat, c: char) -> Seq<char> {
    if s.len() >= width {
        s
    } else {
        Seq::new((width - s.len()) as nat, |i: int| c) + s
    }
}

/// `s` with copies of `c` behind until it has at least `width` characters.
pub open spec fn pad_right(s: Seq<char>, width: nat, c: char) -> Seq<char> {
    if s.len() >= width {
        s
    } else {
        s + Seq::new((width - s.len()) as nat, |i: int| c)
    }
}

fn repeat_char(c: char, n: usize) -> (s: String)
    ensures
        s@ == Seq::new(n as nat, |i: int| c),
{
    let mut s = String::new();
    let mut i: usize = 0;
    while i < n
        invariant
            i <= n,
            s@ == Seq::new(i as nat, |i: int| c),
        decreases n - i,
    {
        s.push(c);
        i += 1;
        assert(s@ =~= Seq::new(i as nat, |i: int| c));
    }
    s
}

pub fn padded_left(s: &str, width: usize, c: char) -> (r: String)
    ensures
        r@ == pad_left(s@, width as nat, c),
{
    let n: usize = s.unicode_len();
    if n >= width {
        s.to_string()
    } else {
        repeat_char(c, width - n).concat(s)
    }
}

pub fn padded_right(s: &str, width: usize, c: char) -> (r: String)
    ensures
        r@ == pad_right(s@, width as nat, c),
{
    let n: usize = s.unicode_len();
    if n >= width {
        s.to_string()
    } else {
        let pad = repeat_char(c, width - n);
        s.to_string().concat(pad.as_str())
    }
}

/// The value of a run of decimal digits.
pub open spec fn dec_value(s: Seq<char>) -> nat
    decreases s.len(),
{
    if s.len() == 0 {
        0
    } else {
        dec_value(s.drop_last()) * 10 + (s.last() as nat - 48) as nat
    }
}

pub open spec fn all_digits(s: Seq<char>) -> bool {
    forall|i: int| 0 <= i < s.len() ==> is_digit(#[trigger] s[i])
}

/// What an unsigned integer type of largest value `max` reads from `s`: an
/// optional `+`, then one or more decimal digits, and nothing else.
pub open spec fn parse_dec(s: Seq<char>, max: nat) -> Option<nat> {
    let body = if s.len() > 0 && s[0] == '+' {
        s.skip(1)
    } else {
        s
    };
    if body.len() > 0 && all_digits(body) && dec_value(body) <= max {
        Some(dec_value(body))
    } else {
        None
    }
}

proof fn lemma_dec_value_monotone(s: Seq<char>, k: int)
    requires
        0 <= k <= s.len(),
        all_digits(s),
    ensures
        dec_value(s.take(k)) <= dec_value(s),
    decreases s.len(),
{
    if k == s.len() {
        assert(s.take(k) =~= s);
    } else {
        assert(all_digits(s.drop_last()));
        lemma_dec_value_monotone(s.drop_last(), k);
        assert(s.drop_last().take(k) =~= s.take(k));
    }
}

/// Reading the decimal digits of a number gives the number back, so different
/// numbers have different digits.
pub proof fn law_dec_reads_back(n: nat, max: nat)
    requires
        n <= max,
    ensures
        all_digits(dec(n)),
        dec_value(dec(n)) == n,
        parse_dec(dec(n), max) == Some(n),
{
    lemma_dec_value(n);
    assert(is_digit(dec(n)[0]));
}

proof fn lemma_dec_value(n: nat)
    ensures
        dec(n).len() > 0,
        all_digits(dec(n)),
        dec_value(dec(n)) == n,
    decreases n,
{
    let s = dec(n);
    if n < 10 {
        assert(s =~= seq![digit_char(n as int)]);
        assert(s.drop_last() =~= Seq::<char>::empty());
        assert(dec_value(s.drop_last()) == 0);
    } else {
        lemma_dec_value(n / 10);
        assert(s.drop_last() =~= dec(n / 10));
        assert forall|i: int| 0 <= i < s.len() implies is_digit(#[trigger] s[i]) by {
            if i < s.len() - 1 {
                assert(s[i] == dec(n / 10)[i]);
            }
        }
    }
}

/// Reads an unsigned decimal number no larger than `max`.
pub fn parse_unsigned(s: &str, max: u64) -> (r: Option<u64>)
    ensures
        match r {
            Some(n) => n <= max && parse_dec(s@, max as nat) == Some(n as nat),
            None => parse_dec(s@, max as nat) is None,
        },
{
    let v = chars_of(s);
    let start: usize = if v.len() > 0 && v[0] == '+' {
        1
    } else {
        0
    };
    let ghost body = s@.skip(start as int);
    assert(start == 0 ==> body =~= s@);
    if v.len() == start {
        return None;
    }
    let mut acc: u64 = 0;
    let mut i: usize = start;
    while i < v.len()
        invariant
            start <= i <= v.len(),
            start <= 1,
            v@ == s@,
            body == s@.skip(start as int),
            body.len() > 0,
            parse_dec(s@, max as nat) == (if all_digits(body) && dec_value(body) <= max {
                Some(dec_value(body))
            } else {
                None
            }),
            forall|j: int| 0 <= j < i - start ==> is_digit(#[trigger] body[j]),
            acc == dec_value(body.take(i - start)),
            acc <= max,
        decreases v.len() - i,
    {
        let c = v[i];
        assert(body[i - start] == c);
        if !('0' <= c && c <= '9') {
            assert(!all_digits(body));
            return None;
        }
        let d: u64 = (c as u32 - 48) as u64;
        assert(body.take(i + 1 - start).drop_last() =~= body.take(i - start));
        assert(dec_value(body.take(i + 1 - start)) == acc * 10 + d);
        proof {
            if all_digits(body) {
                lemma_dec_value_monotone(body, i + 1 - start);
            }
        }
        if acc > (max - if d <= max { d } else { max }) / 10 || d > max {
            assert(acc * 10 + d > max);
            return None;
        }
        acc = acc * 10 + d;
        i += 1;
    }
    assert(body.take(i - start) =~= body);
    Some(acc)
}

// ---------------------------------------------------------------------
// Order
// ---------------------------------------------------------------------

/// The value of a hexadecimal digit, or 16 for any other character.
pub open spec fn hex_digit(c: char) -> nat {
    if '0' <= c && c <= '9' {
        (c as int - 48) as nat
    } else if 'a' <= c && c <= 'f' {
        (c as int - 87) as nat
    } else if 'A' <= c && c <= 'F' {
        (c as int - 55) as nat
    } else {
        16
    }
}

fn hex_digit_of(c: char) -> (r: u64)
    ensures
        r == hex_digit(c),
{
    if '0' <= c && c <= '9' {
        (c as u32 - 48) as u64
    } else if 'a' <= c && c <= 'f' {
        (c as u32 - 87) as u64
    } else if 'A' <= c && c <= 'F' {
        (c as u32 - 55) as u64
    } else {
        16
    }
}

pub open spec fn all_hex(s: Seq<char>) -> bool {
    forall|i: int| 0 <= i < s.len() ==> hex_digit(#[trigger] s[i]) < 16
}

/// The number that hexadecimal digits stand for.
pub open spec fn hex_value(s: Seq<char>) -> nat
    decreases s.len(),
{
    if s.len() == 0 {
        0
    } else {
        16 * hex_value(s.drop_last()) + hex_digit(s.last())
    }
}

/// The hexadecimal number no larger than `max` that a text holds: digits of
/// either case, with or without a plus sign in front.
pub open spec fn parse_hex_text(s: Seq<char>, max: nat) -> Option<nat> {
    let body = if s.len() > 0 && s[0] == '+' {
        s.skip(1)
    } else {
        s
    };
    if body.len() > 0 && all_hex(body) && hex_value(body) <= max {
        Some(hex_value(body))
    } else {
        None
    }
}

proof fn lemma_hex_value_monotone(s: Seq<char>, k: int)
    requires
        0 <= k <= s.len(),
    ensures
        hex_value(s.take(k)) <= hex_value(s),
    decreases s.len(),
{
    if k == s.len() {
        assert(s.take(k) =~= s);
    } else {
        lemma_hex_value_monotone(s.drop_last(), k);
        assert(s.drop_last().take(k) =~= s.take(k));
    }
}

/// Reads a hexadecimal number no larger than `max`.
pub fn parse_hex(s: &str, max: u64) -> (r: Option<u64>)
    ensures
        match r {
            Some(n) => n <= max && parse_hex_text(s@, max as nat) == Some(n as nat),
            None => parse_hex_text(s@, max as nat) is None,
        },
{
    let v = chars_of(s);
    let start: usize = if v.len() > 0 && v[0] == '+' {
        1
    } else {
        0
    };
    let ghost body = s@.skip(start as int);
    assert(start == 0 ==> body =~= s@);
    if v.len() == start {
        return None;
    }
    let mut acc: u64 = 0;
    let mut i: usize = start;
    assert(body.take(0) =~= Seq::<char>::empty());
    while i < v.len()
        invariant
            start <= i <= v.len(),
            start <= 1,
            v@ == s@,
            body == s@.skip(start as int),
            body.len() > 0,
            parse_hex_text(s@, max as nat) == (if all_hex(body) && hex_value(body) <= max {
                Some(hex_value(body))
            } else {
                None
            }),
            acc == hex_value(body.take(i - start)),
            acc <= max,
            forall|j: int| 0 <= j < i - start ==> hex_digit(#[trigger] body[j]) < 16,
        decreases v.len() - i,
    {
        let d = hex_digit_of(v[i]);
        let ghost k = i - start;
        assert(body[k] == v@[i as int]);
        if d >= 16 {
            assert(!all_hex(body));
            return None;
        }
        proof {
            assert(body.take(k + 1).drop_last() =~= body.take(k));
            assert(body.take(k + 1).last() == body[k]);
            lemma_hex_value_monotone(body, k + 1);
        }
        match acc.checked_mul(16) {
            Some(m) => match m.checked_add(d) {
                Some(n) => {
                    if n > max {
                        return None;
                    }
                    acc = n;
                },
                None => {
                    return None;
                },
            },
            None => {
                return None;
            },
        }
        i += 1;
    }
    assert(body.take(i - start) =~= body);
    Some(acc)
}

/// Dictionary order by character, which for strings is also byte order.
pub open spec fn str_lt(a: Seq<char>, b: Seq<char>) -> bool
    decreases a.len(),
{
    if b.len() == 0 {
        false
    } else if a.len() == 0 {
        true
    } else if a[0] != b[0] {
        a[0] < b[0]
    } else {
        str_lt(a.skip(1), b.skip(1))
    }
}

pub proof fn lemma_str_lt_irreflexive(a: Seq<char>)
    ensures
        !str_lt(a, a),
    decreases a.len(),
{
    if a.len() > 0 {
        lemma_str_lt_irreflexive(a.skip(1));
    }
}

pub proof fn lemma_str_lt_transitive(a: Seq<char>, b: Seq<char>, c: Seq<char>)
    requires
        str_lt(a, b),
        str_lt(b, c),
    ensures
        str_lt(a, c),
    decreases a.len(),
{
    if a.len() > 0 && b.len() > 0 && c.len() > 0 && a[0] == b[0] && b[0] == c[0] {
        lemma_str_lt_transitive(a.skip(1), b.skip(1), c.skip(1));
    }
}

pub proof fn lemma_str_lt_total(a: Seq<char>, b: Seq<char>)
    ensures
        str_lt(a, b) || a == b || str_lt(b, a),
    decreases a.len(),
{
    if a.len() > 0 && b.len() > 0 && a[0] == b[0] {
        lemma_str_lt_total(a.skip(1), b.skip(1));
        if a.skip(1) == b.skip(1) {
            assert(a =~= seq![a[0]] + a.skip(1));
            assert(b =~= seq![b[0]] + b.skip(1));
        }
    } else if a.len() == 0 && b.len() == 0 {
        assert(a =~= b);
    }
}

pub fn str_less(a: &str, b: &str) -> (r: bool)
    ensures
        r == str_lt(a@, b@),
{
    let x = chars_of(a);
    let y = chars_of(b);
    let mut i: usize = 0;
    assert(a@.skip(0) =~= a@ && b@.skip(0) =~= b@);
    while i < x.len() && i < y.len()
        invariant
            i <= x.len(),
            i <= y.len(),
            x@ == a@,
            y@ == b@,
            str_lt(a@, b@) == str_lt(a@.skip(i as int), b@.skip(i as int)),
        decreases x.len() - i,
    {
        if x[i] != y[i] {
            return x[i] < y[i];
        }
        assert(a@.skip(i as int).skip(1) =~= a@.skip(i + 1));
        assert(b@.skip(i as int).skip(1) =~= b@.skip(i + 1));
        i += 1;
    }
    i < y.len()
}

// ---------------------------------------------------------------------
// Searching
// ---------------------------------------------------------------------

pub open spec fn occurs_at<T>(s: Seq<T>, p: Seq<T>, i: int) -> bool {
    &&& 0 <= i
    &&& i + p.len() <= s.len()
    &&& s.subrange(i, i + p.len()) == p
}

pub open spec fn occurs<T>(s: Seq<T>, p: Seq<T>) -> bool {
    exists|i: int| occurs_at(s, p, i)
}

/// `i` is where `p` first occurs in `s`.
pub open spec fn first_occurs_at<T>(s: Seq<T>, p: Seq<T>, i: int) -> bool {
    &&& occurs_at(s, p, i)
    &&& forall|j: int| 0 <= j < i ==> !#[trigger] occurs_at(s, p, j)
}

fn matches_at(v: &Vec<char>, p: &Vec<char>, i: usize) -> (r: bool)
    requires
        i <= v@.len(),
    ensures
        r == occurs_at(v@, p@, i as int),
{
    if p.len() > v.len() - i {
        return false;
    }
    let mut k: usize = 0;
    while k < p.len()
        invariant
            k <= p.len(),
            i + p.len() <= v.len(),
            forall|j: int| 0 <= j < k ==> v@[i + j] == #[trigger] p@[j],
        decreases p.len() - k,
    {
        if v[i + k] != p[k] {
            assert(v@.subrange(i as int, i + p@.len())[k as int] != p@[k as int]);
            return false;
        }
        k += 1;
    }
    assert(v@.subrange(i as int, i + p@.len()) =~= p@);
    true
}

/// Where `p` first occurs in `v`.
pub fn find(v: &Vec<char>, p: &Vec<char>) -> (r: Option<usize>)
    ensures
        match r {
            Some(i) => first_occurs_at(v@, p@, i as int),
            None => !occurs(v@, p@),
        },
{
    let mut i: usize = 0;
    loop
        invariant
            i <= v.len(),
            forall|j: int| 0 <= j < i ==> !#[trigger] occurs_at(v@, p@, j),
        decreases v.len() - i,
    {
        if matches_at(v, p, i) {
            return Some(i);
        }
        if i == v.len() {
            assert forall|j: int| !occurs_at(v@, p@, j) by {}
            return None;
        }
        i += 1;
    }
}

pub fn contains(s: &str, p: &str) -> (r: bool)
    ensures
        r == occurs(s@, p@),
{
    let v = chars_of(s);
    let q = chars_of(p);
    find(&v, &q).is_some()
}

pub fn starts_with(s: &str, p: &str) -> (r: bool)
    ensures
        r == p@.is_prefix_of(s@),
{
    let v = chars_of(s);
    let q = chars_of(p);
    let r = matches_at(&v, &q, 0);
    assert(r == p@.is_prefix_of(s@));
    r
}

/// `s` without the prefix `p`, where it has it.
pub fn strip_prefix(s: &str, p: &str) -> (r: Option<String>)
    ensures
        r is Some <==> p@.is_prefix_of(s@),
        r matches Some(t) ==> t@ == s@.skip(p@.len() as int),
{
    let v = chars_of(s);
    let q = chars_of(p);
    if matches_at(&v, &q, 0) {
        assert(p@.is_prefix_of(s@));
        Some(string_of(&v, q.len(), v.len()))
    } else {
        assert(p@.is_prefix_of(s@) ==> occurs_at(s@, p@, 0));
        None
    }
}

pub fn has_char(s: &str, c: char) -> (r: bool)
    ensures
        r == s@.contains(c),
{
    let v = chars_of(s);
    let i = find_char(&v, c, 0);
    proof {
        lemma_char_pos(s@.skip(0), c);
        assert(s@.skip(0) =~= s@);
    }
    i < v.len()
}

/// The index of the first `c` in `s`, or the length of `s`.
pub open spec fn char_pos(s: Seq<char>, c: char) -> nat
    decreases s.len(),
{
    if s.len() == 0 || s[0] == c {
        0
    } else {
        1 + char_pos(s.skip(1), c)
    }
}

pub proof fn lemma_char_pos(s: Seq<char>, c: char)
    ensures
        char_pos(s, c) <= s.len(),
        forall|j: int| 0 <= j < char_pos(s, c) ==> #[trigger] s[j] != c,
        char_pos(s, c) < s.len() <==> s.contains(c),
        char_pos(s, c) < s.len() ==> s[char_pos(s, c) as int] == c,
    decreases s.len(),
{
    if s.len() > 0 && s[0] != c {
        lemma_char_pos(s.skip(1), c);
        assert forall|j: int| 0 <= j < char_pos(s, c) implies #[trigger] s[j] != c by {
            if j > 0 {
                assert(s.skip(1)[j - 1] == s[j]);
            }
        }
        if s.contains(c) {
            let j = choose|j: int| 0 <= j < s.len() && s[j] == c;
            assert(s.skip(1)[j - 1] == c);
        }
    }
}

/// The index of the first `c` at or after `from`, or the length.
pub fn find_char(v: &Vec<char>, c: char, from: usize) -> (r: usize)
    requires
        from <= v@.len(),
    ensures
        from <= r <= v@.len(),
        r == from + char_pos(v@.skip(from as int), c),
{
    let mut i: usize = from;
    while i < v.len() && v[i] != c
        invariant
            from <= i <= v.len(),
            char_pos(v@.skip(from as int), c) == i - from + char_pos(v@.skip(i as int), c),
        decreases v.len() - i,
    {
        assert(v@.skip(i as int).skip(1) =~= v@.skip(i + 1));
        i += 1;
    }
    i
}

/// The parts of `s` before and after its first `c`.
pub fn split_once(s: &str, c: char) -> (r: Option<(String, String)>)
    ensures
        r is Some <==> s@.contains(c),
        r matches Some(p) ==> {
            &&& p.0@ == s@.take(char_pos(s@, c) as int)
            &&& p.1@ == s@.skip(char_pos(s@, c) as int + 1)
        },
{
    let v = chars_of(s);
    let i = find_char(&v, c, 0);
    proof {
        lemma_char_pos(s@, c);
        assert(s@.skip(0) =~= s@);
    }
    if i == v.len() {
        None
    } else {
        Some((string_of(&v, 0, i), string_of(&v, i + 1, v.len())))
    }
}

// ---------------------------------------------------------------------
// Trimming, words and lines
// ---------------------------------------------------------------------

/// How many characters of white space `s` starts with.
pub open spec fn leading_space(s: Seq<char>) -> nat
    decreases s.len(),
{
    if s.len() > 0 && whitespace(s[0]) {
        1 + leading_space(s.skip(1))
    } else {
        0
    }
}

/// How many characters other than white space `s` starts with.
pub open spec fn leading_word(s: Seq<char>) -> nat
    decreases s.len(),
{
    if s.len() > 0 && !whitespace(s[0]) {
        1 + leading_word(s.skip(1))
    } else {
        0
    }
}

pub proof fn lemma_leading_bounds(s: Seq<char>)
    ensures
        leading_space(s) <= s.len(),
        leading_word(s) <= s.len(),
    decreases s.len(),
{
    if s.len() > 0 {
        lemma_leading_bounds(s.skip(1));
    }
}

pub open spec fn trim_start(s: Seq<char>) -> Seq<char> {
    s.skip(leading_space(s) as int)
}

pub open spec fn trim_end(s: Seq<char>) -> Seq<char>
    decreases s.len(),
{
    if s.len() > 0 && whitespace(s.last()) {
        trim_end(s.drop_last())
    } else {
        s
    }
}

/// `s` without white space at either end.
pub open spec fn trim(s: Seq<char>) -> Seq<char> {
    trim_end(trim_start(s))
}

fn skip_space(v: &Vec<char>, from: usize) -> (r: usize)
    requires
        from <= v@.len(),
    ensures
        from <= r <= v@.len(),
        r == from + leading_space(v@.skip(from as int)),
{
    let mut i: usize = from;
    while i < v.len() && is_whitespace(v[i])
        invariant
            from <= i <= v.len(),
            leading_space(v@.skip(from as int)) == i - from + leading_space(v@.skip(i as int)),
        decreases v.len() - i,
    {
        assert(v@.skip(i as int).skip(1) =~= v@.skip(i + 1));
        i += 1;
    }
    i
}

fn skip_word(v: &Vec<char>, from: usize) -> (r: usize)
    requires
        from <= v@.len(),
    ensures
        from <= r <= v@.len(),
        r == from + leading_word(v@.skip(from as int)),
{
    let mut i: usize = from;
    while i < v.len() && !is_whitespace(v[i])
        invariant
            from <= i <= v.len(),
            leading_word(v@.skip(from as int)) == i - from + leading_word(v@.skip(i as int)),
        decreases v.len() - i,
    {
        assert(v@.skip(i as int).skip(1) =~= v@.skip(i + 1));
        i += 1;
    }
    i
}

pub fn trimmed(s: &str) -> (r: String)
    ensures
        r@ == trim(s@),
{
    let v = chars_of(s);
    let lo = skip_space(&v, 0);
    assert(v@.skip(0) =~= v@);
    let mut hi: usize = v.len();
    assert(v@.subrange(lo as int, hi as int) =~= trim_start(s@));
    while hi > lo && is_whitespace(v[hi - 1])
        invariant
            lo <= hi <= v.len(),
            trim(s@) == trim_end(v@.subrange(lo as int, hi as int)),
        decreases hi,
    {
        assert(v@.subrange(lo as int, hi as int).drop_last() =~= v@.subrange(
            lo as int,
            hi - 1,
        ));
        hi -= 1;
    }
    string_of(&v, lo, hi)
}

/// The runs of characters between white space.
pub open spec fn words(s: Seq<char>) -> Seq<Seq<char>>
    decreases s.len(),
{
    let t = trim_start(s);
    let k = leading_word(t) as int;
    if t.len() == 0 || k == 0 || t.len() > s.len() || k > t.len() {
        Seq::empty()
    } else {
        seq![t.take(k)] + words(t.skip(k))
    }
}

proof fn lemma_trim_start_head(s: Seq<char>)
    ensures
        trim_start(s).len() > 0 ==> !whitespace(trim_start(s)[0]),
    decreases s.len(),
{
    if s.len() > 0 && whitespace(s[0]) {
        lemma_trim_start_head(s.skip(1));
        lemma_leading_bounds(s.skip(1));
        assert(trim_start(s) =~= trim_start(s.skip(1)));
    } else {
        assert(trim_start(s) =~= s);
    }
}

/// The views of a vector of strings.
pub open spec fn views(v: Seq<String>) -> Seq<Seq<char>> {
    v.map_values(|s: String| s@)
}

pub fn split_words(s: &str) -> (r: Vec<String>)
    ensures
        views(r@) == words(s@),
{
    let v = chars_of(s);
    let mut out: Vec<String> = Vec::new();
    let mut i: usize = 0;
    assert(s@.skip(0) =~= s@);
    assert(views(out@) + words(s@) =~= words(s@));
    while i < v.len()
        invariant
            i <= v.len(),
            v@ == s@,
            words(s@) == views(out@) + words(s@.skip(i as int)),
        decreases v.len() - i,
    {
        let ghost rest = s@.skip(i as int);
        let lo = skip_space(&v, i);
        let hi = skip_word(&v, lo);
        proof {
            lemma_leading_bounds(rest);
            lemma_trim_start_head(rest);
            assert(trim_start(rest) =~= s@.skip(lo as int));
        }
        if lo == v.len() {
            assert(words(rest) =~= Seq::<Seq<char>>::empty());
            assert(views(out@) + words(rest) =~= views(out@));
            return out;
        }
        let w = string_of(&v, lo, hi);
        proof {
            assert(w@ =~= s@.skip(lo as int).take(hi - lo));
            assert(s@.skip(lo as int).skip(hi - lo) =~= s@.skip(hi as int));
            assert(views(out@.push(w)) =~= views(out@).push(w@));
            assert(views(out@) + words(rest) =~= views(out@.push(w)) + words(s@.skip(hi as int)));
        }
        out.push(w);
        i = hi;
    }
    assert(s@.skip(i as int) =~= Seq::<char>::empty());
    assert(words(s@.skip(i as int)) =~= Seq::<Seq<char>>::empty());
    assert(views(out@) + words(s@.skip(i as int)) =~= views(out@));
    out
}

/// A line without the carriage return in front of its line feed.
pub open spec fn strip_cr(s: Seq<char>) -> Seq<char> {
    if s.len() > 0 && s.last() == '\r' {
        s.drop_last()
    } else {
        s
    }
}

/// The lines of `s`: each ends at a line feed, and a carriage return right
/// before that line feed belongs to the ending.
pub open spec fn lines(s: Seq<char>) -> Seq<Seq<char>>
    decreases s.len(),
{
    let k = char_pos(s, '\n') as int;
    if s.len() == 0 {
        Seq::empty()
    } else if k >= s.len() {
        seq![s]
    } else {
        seq![strip_cr(s.take(k))] + lines(s.skip(k + 1))
    }
}

pub fn split_lines(s: &str) -> (r: Vec<String>)
    ensures
        views(r@) == lines(s@),
{
    let v = chars_of(s);
    let mut out: Vec<String> = Vec::new();
    let mut i: usize = 0;
    assert(s@.skip(0) =~= s@);
    assert(views(out@) + lines(s@) =~= lines(s@));
    while i < v.len()
        invariant
            i <= v.len(),
            v@ == s@,
            lines(s@) == views(out@) + lines(s@.skip(i as int)),
        decreases v.len() - i,
    {
        let ghost rest = s@.skip(i as int);
        let k = find_char(&v, '\n', i);
        let end: usize = if k < v.len() && k > i && v[k - 1] == '\r' {
            k - 1
        } else {
            k
        };
        let line = string_of(&v, i, end);
        proof {
            if k < v.len() {
                assert(rest.take(k - i) =~= s@.subrange(i as int, k as int));
                assert(line@ =~= strip_cr(rest.take(k - i)));
                assert(rest.skip(k - i + 1) =~= s@.skip(k + 1));
                assert(views(out@.push(line)) =~= views(out@).push(line@));
                assert(views(out@) + lines(rest) =~= views(out@.push(line)) + lines(
                    s@.skip(k + 1),
                ));
            } else {
                assert(line@ =~= rest);
                assert(views(out@.push(line)) =~= views(out@) + lines(rest));
            }
        }
        out.push(line);
        if k == v.len() {
            return out;
        }
        i = k + 1;
    }
    assert(lines(s@.skip(i as int)) =~= Seq::<Seq<char>>::empty());
    assert(views(out@) + lines(s@.skip(i as int)) =~= views(out@));
    out
}

/// The parts with `sep` between each two of them.
pub open spec fn joined(parts: Seq<Seq<char>>, sep: Seq<char>) -> Seq<char>
    decreases parts.len(),
{
    if parts.len() == 0 {
        Seq::empty()
    } else if parts.len() == 1 {
        parts[0]
    } else {
        joined(parts.drop_last(), sep) + sep + parts.last()
    }
}

pub fn join(parts: &Vec<String>, sep: &str) -> (r: String)
    ensures
        r@ == joined(views(parts@), sep@),
{
    let mut r = String::new();
    let mut i: usize = 0;
    while i < parts.len()
        invariant
            i <= parts.len(),
            r@ == joined(views(parts@.take(i as int)), sep@),
        decreases parts.len() - i,
    {
        let ghost done = views(parts@.take(i as int));
        let ghost next = views(parts@.take(i + 1));
        assert(next.drop_last() =~= done);
        assert(next.last() == parts@[i as int]@);
        if i > 0 {
            r.append(sep);
        } else {
            assert(r@ + parts@[i as int]@ =~= parts@[i as int]@);
        }
        r.append(parts[i].as_str());
        i += 1;
    }
    assert(parts@.take(i as int) =~= parts@);
    r
}

} // verus!
