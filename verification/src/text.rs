//! Text: what the library needs of characters, strings and decimal numerals.
use vstd::prelude::*;

verus! {

/// `String::push` of std appends one character.
pub assume_specification[ std::string::String::push ](s: &mut std::string::String, c: char)
    ensures
        final(s)@ == old(s)@.push(c),
;

/// The text that std's `Debug` prints for a character: quoted and escaped.
pub uninterp spec fn char_debug(c: char) -> Seq<char>;

/// std's `Debug` of `char`. Nothing is claimed but that the character alone
/// decides the text.
#[verifier::external_body]
fn debug_char_text(c: char) -> (r: String)
    ensures
        r@ == char_debug(c),
{
    format!("{c:?}")
}

/// The quoted, escaped form of a character, as messages print it.
pub fn quoted_char(c: char) -> (r: String)
    ensures
        r@ == char_debug(c),
{
    debug_char_text(c)
}

/// The characters of a string, in order.
pub fn chars_of(s: &str) -> (r: Vec<char>)
    ensures
        r@ == s@,
{
    broadcast use vstd::string::axiom_spec_iter;

    let mut out: Vec<char> = Vec::new();
    for c in it: s.chars()
        invariant
            it.seq() == s@,
            out@ == it.seq().take(it.index()),
    {
        assert(it.seq().take(it.index() + 1) =~= it.seq().take(it.index()).push(c));
        out.push(c);
    }
    assert(s@.take(s@.len() as int) =~= s@);
    out
}

/// The string made of `chars[start..end]`.
pub fn text_between(chars: &Vec<char>, start: usize, end: usize) -> (r: String)
    requires
        start <= end <= chars.len(),
    ensures
        r@ == chars@.subrange(start as int, end as int),
{
    let mut out: String = String::new();
    assert(out@ =~= chars@.subrange(start as int, start as int));
    let mut i: usize = start;
    while i < end
        invariant
            start <= i <= end <= chars.len(),
            out@ == chars@.subrange(start as int, i as int),
        decreases end - i,
    {
        assert(chars@.subrange(start as int, i + 1) =~= chars@.subrange(
            start as int,
            i as int,
        ).push(chars@[i as int]));
        out.push(chars[i]);
        i += 1;
    }
    out
}

/// Whether `s` reads exactly `other`.
pub fn text_is(s: &String, other: &str) -> (r: bool)
    ensures
        r == (s@ == other@),
{
    let literal: String = other.to_owned();
    *s == literal
}

/// `a` followed by `b`.
pub fn joined(a: String, b: &str) -> (r: String)
    ensures
        r@ == a@ + b@,
{
    let mut out: String = a;
    out.append(b);
    out
}

/// A list of texts, by what they read.
pub open spec fn texts(s: Seq<String>) -> Seq<Seq<char>> {
    Seq::new(s.len(), |i: int| s[i]@)
}

/// A copy of a list of texts.
pub fn clone_texts(v: &Vec<String>) -> (r: Vec<String>)
    ensures
        texts(r@) == texts(v@),
{
    let mut out: Vec<String> = Vec::new();
    for i in 0..v.len()
        invariant
            out.len() == i,
            forall|j: int| 0 <= j < i ==> (#[trigger] out@[j])@ == v@[j]@,
    {
        out.push(v[i].clone());
    }
    assert(texts(out@) =~= texts(v@));
    out
}

/// Whether some text of the list reads `name`.
pub fn contains_text(v: &Vec<String>, name: &String) -> (r: bool)
    ensures
        r == texts(v@).contains(name@),
{
    for i in 0..v.len()
        invariant
            forall|j: int| 0 <= j < i ==> (#[trigger] texts(v@)[j]) != name@,
    {
        if v[i] == *name {
            assert(texts(v@)[i as int] == name@);
            return true;
        }
    }
    false
}

// ---------------------------------------------------------------------------
// Characters
// ---------------------------------------------------------------------------

pub open spec fn is_digit(c: char) -> bool {
    '0' <= c <= '9'
}

pub open spec fn is_letter(c: char) -> bool {
    ('a' <= c <= 'z') || ('A' <= c <= 'Z')
}

/// ASCII white space: space, tab, line feed, form feed, carriage return.
pub open spec fn is_space(c: char) -> bool {
    c == ' ' || c == '\t' || c == '\n' || c == '\x0C' || c == '\r'
}

pub fn char_is_digit(c: char) -> (r: bool)
    ensures
        r == is_digit(c),
{
    '0' <= c && c <= '9'
}

pub fn char_is_letter(c: char) -> (r: bool)
    ensures
        r == is_letter(c),
{
    ('a' <= c && c <= 'z') || ('A' <= c && c <= 'Z')
}

pub fn char_is_space(c: char) -> (r: bool)
    ensures
        r == is_space(c),
{
    c == ' ' || c == '\t' || c == '\n' || c == '\x0C' || c == '\r'
}

/// How many bytes UTF-8 takes for a character.
pub open spec fn utf8_width(c: char) -> nat {
    if (c as u32) < 0x80 {
        1
    } else if (c as u32) < 0x800 {
        2
    } else if (c as u32) < 0x10000 {
        3
    } else {
        4
    }
}

pub fn char_width(c: char) -> (r: usize)
    ensures
        r == utf8_width(c),
{
    let code: u32 = c as u32;
    if code < 0x80 {
        1
    } else if code < 0x800 {
        2
    } else if code < 0x10000 {
        3
    } else {
        4
    }
}

/// The byte offset at which character `i` of `s` starts.
pub open spec fn byte_offset(s: Seq<char>, i: int) -> nat
    decreases i,
{
    if i <= 0 {
        0
    } else {
        byte_offset(s, i - 1) + utf8_width(s[i - 1])
    }
}

/// Offsets grow strictly from one character to the next.
pub proof fn lemma_byte_offset_increases(s: Seq<char>, i: int, j: int)
    requires
        0 <= i <= j,
    ensures
        byte_offset(s, i) + (j - i) <= byte_offset(s, j),
    decreases j,
{
    if i < j {
        lemma_byte_offset_increases(s, i, j - 1);
    }
}

/// An offset only looks at what comes before it.
proof fn lemma_byte_offset_prefix(a: Seq<char>, b: Seq<char>, i: int)
    requires
        0 <= i <= a.len(),
        i <= b.len(),
        forall|k: int| 0 <= k < i ==> a[k] == b[k],
    ensures
        byte_offset(a, i) == byte_offset(b, i),
    decreases i,
{
    if i > 0 {
        lemma_byte_offset_prefix(a, b, i - 1);
    }
}

proof fn lemma_byte_offset_shift(s: Seq<char>, i: int)
    requires
        0 <= i < s.len(),
    ensures
        byte_offset(s, i + 1) == utf8_width(s[0]) + byte_offset(s.drop_first(), i),
    decreases i,
{
    if i > 0 {
        lemma_byte_offset_shift(s, i - 1);
        assert(s[i] == s.drop_first()[i - 1]);
    } else {
        reveal_with_fuel(byte_offset, 2);
    }
}

/// The UTF-8 encoding of a string is as long as the last offset says.
pub proof fn lemma_byte_offset_total(s: Seq<char>)
    ensures
        byte_offset(s, s.len() as int) == vstd::utf8::encode_utf8(s).len(),
    decreases s.len(),
{
    if s.len() > 0 {
        lemma_byte_offset_total(s.drop_first());
        lemma_byte_offset_shift(s, s.len() - 1);
        vstd::utf8::char_is_scalar(s[0]);
    }
}

/// The bytes between two character offsets encode the characters between them.
pub proof fn lemma_bytes_between(s: Seq<char>, i: int, j: int)
    requires
        0 <= i <= j <= s.len(),
    ensures
        byte_offset(s, i) <= byte_offset(s, j) <= vstd::utf8::encode_utf8(s).len(),
        vstd::utf8::encode_utf8(s).subrange(byte_offset(s, i) as int, byte_offset(s, j) as int)
            == vstd::utf8::encode_utf8(s.subrange(i, j)),
{
    let a: Seq<char> = s.take(i);
    let m: Seq<char> = s.subrange(i, j);
    let z: Seq<char> = s.skip(j);
    lemma_encode_concat(a, m + z);
    lemma_encode_concat(m, z);
    assert(a + (m + z) =~= s);
    lemma_byte_offset_total(a);
    lemma_byte_offset_prefix(a, s, i);
    lemma_byte_offset_total(s.take(j));
    lemma_byte_offset_prefix(s.take(j), s, j);
    lemma_encode_concat(a, m);
    assert(a + m =~= s.take(j));
    let whole: Seq<u8> = vstd::utf8::encode_utf8(s);
    assert(whole.subrange(byte_offset(s, i) as int, byte_offset(s, j) as int)
        =~= vstd::utf8::encode_utf8(m));
}

proof fn lemma_encode_concat(a: Seq<char>, b: Seq<char>)
    ensures
        vstd::utf8::encode_utf8(a + b) == vstd::utf8::encode_utf8(a) + vstd::utf8::encode_utf8(b),
    decreases a.len(),
{
    if a.len() == 0 {
        assert(a + b =~= b);
        assert(vstd::utf8::encode_utf8(a) + vstd::utf8::encode_utf8(b)
            =~= vstd::utf8::encode_utf8(b));
    } else {
        lemma_encode_concat(a.drop_first(), b);
        assert((a + b).drop_first() =~= a.drop_first() + b);
        assert(vstd::utf8::encode_utf8(a + b) =~= vstd::utf8::encode_utf8(a)
            + vstd::utf8::encode_utf8(b));
    }
}

// ---------------------------------------------------------------------------
// Decimal numerals
// ---------------------------------------------------------------------------

/// The decimal digit of `d`, for `d` below ten.
pub open spec fn digit_of(d: int) -> char {
    if d <= 0 {
        '0'
    } else if d == 1 {
        '1'
    } else if d == 2 {
        '2'
    } else if d == 3 {
        '3'
    } else if d == 4 {
        '4'
    } else if d == 5 {
        '5'
    } else if d == 6 {
        '6'
    } else if d == 7 {
        '7'
    } else if d == 8 {
        '8'
    } else {
        '9'
    }
}

/// The numeral of a natural number, without leading zeros.
pub open spec fn decimal(n: nat) -> Seq<char>
    decreases n,
{
    if n < 10 {
        seq![digit_of(n as int)]
    } else {
        decimal(n / 10).push(digit_of((n % 10) as int))
    }
}

fn digit_char(d: u128) -> (r: char)
    requires
        d < 10,
    ensures
        r == digit_of(d as int),
{
    if d == 0 {
        '0'
    } else if d == 1 {
        '1'
    } else if d == 2 {
        '2'
    } else if d == 3 {
        '3'
    } else if d == 4 {
        '4'
    } else if d == 5 {
        '5'
    } else if d == 6 {
        '6'
    } else if d == 7 {
        '7'
    } else if d == 8 {
        '8'
    } else {
        '9'
    }
}

/// The numeral of an unsigned number.
pub fn decimal_text(n: u128) -> (r: String)
    ensures
        r@ == decimal(n as nat),
    decreases n,
{
    let mut out: String = if n < 10 {
        String::new()
    } else {
        decimal_text(n / 10)
    };
    out.push(digit_char(n % 10));
    proof {
        if n < 10 {
            assert(out@ =~= decimal(n as nat));
        }
    }
    out
}

/// The value of a digit.
pub open spec fn digit_value(c: char) -> nat {
    ((c as u32) - ('0' as u32)) as nat
}

/// The number that a run of digits stands for.
pub open spec fn digits_value(s: Seq<char>) -> nat
    decreases s.len(),
{
    if s.len() == 0 {
        0
    } else {
        10 * digits_value(s.drop_last()) + digit_value(s.last())
    }
}

pub open spec fn all_digits(s: Seq<char>) -> bool {
    forall|i: int| 0 <= i < s.len() ==> is_digit(#[trigger] s[i])
}

/// An unsigned numeral: at least one digit, an optional `+` before them.
pub open spec fn unsigned_value(s: Seq<char>) -> Option<nat> {
    let body = if s.len() > 0 && s[0] == '+' {
        s.drop_first()
    } else {
        s
    };
    if body.len() > 0 && all_digits(body) {
        Some(digits_value(body))
    } else {
        None
    }
}

/// A signed numeral: as an unsigned one, with `-` allowed in place of the `+`.
pub open spec fn signed_value(s: Seq<char>) -> Option<int> {
    if s.len() > 0 && s[0] == '-' {
        let body = s.drop_first();
        if body.len() > 0 && all_digits(body) {
            Some(-digits_value(body))
        } else {
            None
        }
    } else {
        match unsigned_value(s) {
            Some(n) => Some(n as int),
            None => None,
        }
    }
}

proof fn lemma_digits_grow(s: Seq<char>, k: int)
    requires
        0 <= k <= s.len(),
        all_digits(s),
    ensures
        digits_value(s.take(k)) <= digits_value(s),
    decreases s.len(),
{
    if k < s.len() {
        lemma_digits_grow(s.drop_last(), k);
        assert(s.drop_last().take(k) =~= s.take(k));
    } else {
        assert(s.take(k) =~= s);
    }
}

/// The number that `chars[start..]` stands for, where those are digits, at
/// least one, and the number is at most `limit`.
fn digits_from(chars: &Vec<char>, start: usize, limit: u128) -> (r: Option<u128>)
    requires
        start <= chars.len(),
    ensures
        ({
            let body = chars@.skip(start as int);
            if body.len() > 0 && all_digits(body) && digits_value(body) <= limit {
                r == Some(digits_value(body) as u128)
            } else {
                r is None
            }
        }),
{
    let ghost body = chars@.skip(start as int);
    if start == chars.len() {
        return None;
    }
    let mut value: u128 = 0;
    let mut i: usize = start;
    while i < chars.len()
        invariant
            start <= i <= chars.len(),
            body == chars@.skip(start as int),
            forall|k: int| 0 <= k < i - start ==> is_digit(#[trigger] body[k]),
            value == digits_value(body.take(i - start)),
            value <= limit,
        decreases chars.len() - i,
    {
        let c: char = chars[i];
        if !char_is_digit(c) {
            assert(body[i - start] == c);
            return None;
        }
        let d: u128 = (c as u32 - '0' as u32) as u128;
        proof {
            assert(body[i - start] == c);
            let next = body.take(i - start + 1);
            assert(next.drop_last() =~= body.take(i - start));
            if all_digits(body) {
                lemma_digits_grow(body, i - start + 1);
            }
        }
        if value > (limit / 10) {
            return None;
        }
        if limit < d || value * 10 > limit - d {
            return None;
        }
        value = value * 10 + d;
        i += 1;
    }
    assert(body.take(body.len() as int) =~= body);
    Some(value)
}

/// The number that an unsigned numeral stands for, where it fits in 64 bits.
pub fn parse_unsigned(s: &String) -> (r: Option<u64>)
    ensures
        match unsigned_value(s@) {
            Some(n) => if n <= u64::MAX {
                r == Some(n as u64)
            } else {
                r is None
            },
            None => r is None,
        },
{
    let chars: Vec<char> = chars_of(s.as_str());
    let start: usize = if chars.len() > 0 && chars[0] == '+' {
        1
    } else {
        0
    };
    assert(chars@.skip(0) =~= s@);
    assert(s@.len() > 0 ==> chars@.skip(1) =~= s@.drop_first());
    match digits_from(&chars, start, u64::MAX as u128) {
        Some(n) => Some(n as u64),
        None => None,
    }
}

/// The number that a signed numeral stands for, where it fits in 128 bits.
pub fn parse_signed(s: &String) -> (r: Option<i128>)
    ensures
        match signed_value(s@) {
            Some(n) => if i128::MIN <= n <= i128::MAX {
                r == Some(n as i128)
            } else {
                r is None
            },
            None => r is None,
        },
{
    let chars: Vec<char> = chars_of(s.as_str());
    assert(chars@.skip(0) =~= s@);
    assert(s@.len() > 0 ==> chars@.skip(1) =~= s@.drop_first());
    if chars.len() > 0 && chars[0] == '-' {
        match digits_from(&chars, 1, 0x8000_0000_0000_0000_0000_0000_0000_0000u128) {
            Some(n) => {
                if n == 0 {
                    Some(0)
                } else {
                    let below: i128 = (n - 1) as i128;
                    Some(-below - 1)
                }
            },
            None => None,
        }
    } else {
        let start: usize = if chars.len() > 0 && chars[0] == '+' {
            1
        } else {
            0
        };
        match digits_from(&chars, start, i128::MAX as u128) {
            Some(n) => Some(n as i128),
            None => None,
        }
    }
}

// ---------------------------------------------------------------------------
// Cutting and rewriting text
// ---------------------------------------------------------------------------

/// `s` with every `c` taken out.
pub open spec fn without(s: Seq<char>, c: char) -> Seq<char>
    decreases s.len(),
{
    if s.len() == 0 {
        Seq::empty()
    } else if s.last() == c {
        without(s.drop_last(), c)
    } else {
        without(s.drop_last(), c).push(s.last())
    }
}

pub fn remove_char(s: &String, c: char) -> (r: String)
    ensures
        r@ == without(s@, c),
{
    let chars: Vec<char> = chars_of(s.as_str());
    let mut out: String = String::new();
    assert(out@ =~= without(s@.take(0), c));
    for i in 0..chars.len()
        invariant
            chars@ == s@,
            out@ == without(s@.take(i as int), c),
    {
        assert(s@.take(i + 1).drop_last() =~= s@.take(i as int));
        if chars[i] != c {
            out.push(chars[i]);
        }
    }
    assert(s@.take(s@.len() as int) =~= s@);
    out
}

/// `s` with every `from` turned into `to`.
pub open spec fn replaced(s: Seq<char>, from: char, to: char) -> Seq<char> {
    Seq::new(
        s.len(),
        |i: int|
            if s[i] == from {
                to
            } else {
                s[i]
            },
    )
}

pub fn replace_char(s: &String, from: char, to: char) -> (r: String)
    ensures
        r@ == replaced(s@, from, to),
{
    let chars: Vec<char> = chars_of(s.as_str());
    let mut out: String = String::new();
    for i in 0..chars.len()
        invariant
            chars@ == s@,
            out@ == replaced(s@, from, to).take(i as int),
    {
        assert(replaced(s@, from, to).take(i + 1) =~= replaced(s@, from, to).take(i as int).push(
            replaced(s@, from, to)[i as int],
        ));
        if chars[i] == from {
            out.push(to);
        } else {
            out.push(chars[i]);
        }
    }
    assert(replaced(s@, from, to).take(s@.len() as int) =~= replaced(s@, from, to));
    out
}

/// The first place at or after `i` where `s` does not hold `c`.
pub open spec fn skip_run(s: Seq<char>, i: int, c: char) -> int
    decreases s.len() - i,
{
    if 0 <= i < s.len() && s[i] == c {
        skip_run(s, i + 1, c)
    } else {
        i
    }
}

/// The last place before `end`, not before `start`, that no `c` comes before.
pub open spec fn trim_run(s: Seq<char>, start: int, end: int, c: char) -> int
    decreases end - start,
{
    if start < end && s[end - 1] == c {
        trim_run(s, start, end - 1, c)
    } else {
        end
    }
}

/// `s` without the `c` at its two ends.
pub open spec fn trimmed(s: Seq<char>, c: char) -> Seq<char> {
    let start = skip_run(s, 0, c);
    s.subrange(start, trim_run(s, start, s.len() as int, c))
}

pub fn trim_char(s: &String, c: char) -> (r: String)
    ensures
        r@ == trimmed(s@, c),
{
    let chars: Vec<char> = chars_of(s.as_str());
    let mut start: usize = 0;
    while start < chars.len() && chars[start] == c
        invariant
            chars@ == s@,
            start <= chars.len(),
            skip_run(s@, 0, c) == skip_run(s@, start as int, c),
        decreases chars.len() - start,
    {
        start += 1;
    }
    let mut end: usize = chars.len();
    while start < end && chars[end - 1] == c
        invariant
            chars@ == s@,
            start <= end <= chars.len(),
            trim_run(s@, start as int, s@.len() as int, c) == trim_run(
                s@,
                start as int,
                end as int,
                c,
            ),
        decreases end,
    {
        end -= 1;
    }
    text_between(&chars, start, end)
}

/// The first place at or after `i` where `s` holds `c`; the length if none does.
pub open spec fn find_from(s: Seq<char>, i: int, c: char) -> int
    decreases s.len() - i,
{
    if 0 <= i < s.len() && s[i] != c {
        find_from(s, i + 1, c)
    } else {
        i
    }
}

pub fn find_char(chars: &Vec<char>, start: usize, c: char) -> (r: usize)
    requires
        start <= chars.len(),
    ensures
        r == find_from(chars@, start as int, c),
        start <= r <= chars.len(),
        r < chars.len() ==> chars@[r as int] == c,
{
    let mut i: usize = start;
    while i < chars.len() && chars[i] != c
        invariant
            start <= i <= chars.len(),
            find_from(chars@, start as int, c) == find_from(chars@, i as int, c),
        decreases chars.len() - i,
    {
        i += 1;
    }
    i
}

pub proof fn lemma_find_from(s: Seq<char>, i: int, c: char)
    requires
        0 <= i <= s.len(),
    ensures
        i <= find_from(s, i, c) <= s.len(),
    decreases s.len() - i,
{
    if i < s.len() && s[i] != c {
        lemma_find_from(s, i + 1, c);
    }
}

/// What stands before the first `c` and what stands after it, if there is one.
pub open spec fn split_at_char(s: Seq<char>, c: char) -> Option<(Seq<char>, Seq<char>)> {
    let i = find_from(s, 0, c);
    if i < s.len() {
        Some((s.take(i), s.skip(i + 1)))
    } else {
        None
    }
}

pub fn split_once_char(s: &String, c: char) -> (r: Option<(String, String)>)
    ensures
        match r {
            Some((a, b)) => split_at_char(s@, c) == Some((a@, b@)),
            None => split_at_char(s@, c) is None,
        },
{
    let chars: Vec<char> = chars_of(s.as_str());
    let i: usize = find_char(&chars, 0, c);
    if i < chars.len() {
        let a: String = text_between(&chars, 0, i);
        let b: String = text_between(&chars, i + 1, chars.len());
        assert(a@ =~= s@.take(i as int));
        assert(b@ =~= s@.skip(i + 1));
        Some((a, b))
    } else {
        None
    }
}

/// Whether `s` begins with `start`.
pub open spec fn begins(s: Seq<char>, start: Seq<char>) -> bool {
    s.len() >= start.len() && s.take(start.len() as int) == start
}

/// Whether `s` ends in `end`.
pub open spec fn ends(s: Seq<char>, end: Seq<char>) -> bool {
    s.len() >= end.len() && s.skip(s.len() - end.len()) == end
}

pub fn text_begins(s: &String, start: &String) -> (r: bool)
    ensures
        r == begins(s@, start@),
{
    let chars: Vec<char> = chars_of(s.as_str());
    let count: usize = chars_of(start.as_str()).len();
    if chars.len() < count {
        return false;
    }
    let head: String = text_between(&chars, 0, count);
    assert(head@ =~= s@.take(count as int));
    head == *start
}

pub fn text_ends(s: &String, end: &String) -> (r: bool)
    ensures
        r == ends(s@, end@),
{
    let chars: Vec<char> = chars_of(s.as_str());
    let count: usize = chars_of(end.as_str()).len();
    if chars.len() < count {
        return false;
    }
    let tail: String = text_between(&chars, chars.len() - count, chars.len());
    assert(tail@ =~= s@.skip(s@.len() - count));
    tail == *end
}

/// Texts from `i` on, each but the first of all behind a separator.
pub open spec fn joined_texts(texts: Seq<Seq<char>>, separator: Seq<char>, i: int) -> Seq<char>
    decreases texts.len() - i,
{
    if i < 0 || i >= texts.len() {
        Seq::empty()
    } else if i == 0 {
        texts[i] + joined_texts(texts, separator, i + 1)
    } else {
        separator + texts[i] + joined_texts(texts, separator, i + 1)
    }
}

/// The texts with a separator between them.
pub fn join_texts(v: &Vec<String>, separator: &str) -> (r: String)
    ensures
        r@ == joined_texts(texts(v@), separator@, 0),
{
    let ghost all = texts(v@);
    let mut out: String = String::new();
    assert(out@ + joined_texts(all, separator@, 0) =~= joined_texts(all, separator@, 0));
    for i in 0..v.len()
        invariant
            all == texts(v@),
            out@ + joined_texts(all, separator@, i as int) == joined_texts(all, separator@, 0),
    {
        let ghost before = out@;
        let ghost rest = joined_texts(all, separator@, i + 1);
        if i > 0 {
            out = joined(out, separator);
        }
        out = joined(out, v[i].as_str());
        assert(all[i as int] == v@[i as int]@);
        assert(before + joined_texts(all, separator@, i as int) =~= out@ + rest);
    }
    assert(out@ + Seq::<char>::empty() =~= out@);
    out
}

// ---------------------------------------------------------------------------
// Floating-point numerals
// ---------------------------------------------------------------------------

/// The end of the run of digits from `i` on.
pub open spec fn digit_run(s: Seq<char>, i: int) -> int
    decreases s.len() - i,
{
    if 0 <= i < s.len() && is_digit(s[i]) {
        digit_run(s, i + 1)
    } else {
        i
    }
}

/// The small letter of a capital one, where the numerals' words need it.
pub open spec fn lowered(c: char) -> char {
    match c {
        'A' => 'a',
        'E' => 'e',
        'F' => 'f',
        'I' => 'i',
        'N' => 'n',
        'T' => 't',
        'Y' => 'y',
        _ => c,
    }
}

pub open spec fn lowered_text(s: Seq<char>) -> Seq<char> {
    Seq::new(s.len(), |i: int| lowered(s[i]))
}

/// Whether an exponent, or nothing, stands at `i`: `e`, a sign or none, digits.
pub open spec fn exponent_to_end(s: Seq<char>, i: int) -> bool {
    if i >= s.len() {
        true
    } else if lowered(s[i]) != 'e' {
        false
    } else {
        let start = if i + 1 < s.len() && (s[i + 1] == '+' || s[i + 1] == '-') {
            i + 2
        } else {
            i + 1
        };
        start < s.len() && digit_run(s, start) == s.len()
    }
}

/// Digits with a point among them, before them or after them, or without one;
/// then an exponent or none. At least one digit beside the exponent's.
pub open spec fn is_float_number(s: Seq<char>) -> bool {
    let whole = digit_run(s, 0);
    if whole < s.len() && s[whole] == '.' {
        let end = digit_run(s, whole + 1);
        (whole > 0 || end > whole + 1) && exponent_to_end(s, end)
    } else {
        whole > 0 && exponent_to_end(s, whole)
    }
}

/// The numerals that stand for a floating-point number.
pub open spec fn is_float_text(s: Seq<char>) -> bool {
    let body = if s.len() > 0 && (s[0] == '+' || s[0] == '-') {
        s.drop_first()
    } else {
        s
    };
    ||| lowered_text(body) == "inf"@
    ||| lowered_text(body) == "infinity"@
    ||| lowered_text(body) == "nan"@
    ||| is_float_number(body)
}

fn lower_char(c: char) -> (r: char)
    ensures
        r == lowered(c),
{
    match c {
        'A' => 'a',
        'E' => 'e',
        'F' => 'f',
        'I' => 'i',
        'N' => 'n',
        'T' => 't',
        'Y' => 'y',
        _ => c,
    }
}

fn digit_run_end(chars: &Vec<char>, start: usize) -> (r: usize)
    requires
        start <= chars.len(),
    ensures
        r == digit_run(chars@, start as int),
        start <= r <= chars.len(),
{
    let mut i: usize = start;
    while i < chars.len() && char_is_digit(chars[i])
        invariant
            start <= i <= chars.len(),
            digit_run(chars@, start as int) == digit_run(chars@, i as int),
        decreases chars.len() - i,
    {
        i += 1;
    }
    i
}

fn exponent_ends(chars: &Vec<char>, i: usize) -> (r: bool)
    requires
        i <= chars.len(),
    ensures
        r == exponent_to_end(chars@, i as int),
{
    if i >= chars.len() {
        true
    } else if lower_char(chars[i]) != 'e' {
        false
    } else {
        let mut start: usize = i + 1;
        if start < chars.len() && (chars[start] == '+' || chars[start] == '-') {
            start += 1;
        }
        start < chars.len() && digit_run_end(chars, start) == chars.len()
    }
}

/// Whether a text is a floating-point numeral.
pub fn float_text_is_valid(s: &String) -> (r: bool)
    ensures
        r == is_float_text(s@),
{
    let all: Vec<char> = chars_of(s.as_str());
    let from: usize = if all.len() > 0 && (all[0] == '+' || all[0] == '-') {
        1
    } else {
        0
    };
    let mut chars: Vec<char> = Vec::new();
    let mut word: String = String::new();
    let ghost body = s@.skip(from as int);
    let mut i: usize = from;
    while i < all.len()
        invariant
            from <= i <= all.len(),
            all@ == s@,
            body == s@.skip(from as int),
            chars@ == body.take(i - from),
            word@ == lowered_text(body).take(i - from),
        decreases all.len() - i,
    {
        assert(body.take(i - from + 1) =~= body.take(i - from).push(all@[i as int]));
        assert(lowered_text(body).take(i - from + 1) =~= lowered_text(body).take(i - from).push(
            lowered(all@[i as int]),
        ));
        chars.push(all[i]);
        word.push(lower_char(all[i]));
        i += 1;
    }
    assert(body.take(body.len() as int) =~= body);
    assert(lowered_text(body).take(body.len() as int) =~= lowered_text(body));
    assert(from == 0 ==> body =~= s@);
    assert(from == 1 ==> body =~= s@.drop_first());
    if text_is(&word, "inf") || text_is(&word, "infinity") || text_is(&word, "nan") {
        return true;
    }
    let whole: usize = digit_run_end(&chars, 0);
    if whole < chars.len() && chars[whole] == '.' {
        let end: usize = digit_run_end(&chars, whole + 1);
        (whole > 0 || end > whole + 1) && exponent_ends(&chars, end)
    } else {
        whole > 0 && exponent_ends(&chars, whole)
    }
}

} // verus!
