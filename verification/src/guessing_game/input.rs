//! Reading a guess out of one line of text.
//!
//! A line holds a guess when, with the white space at both ends taken away,
//! it is an optional `+` followed by at least one decimal digit, and the
//! number so written fits in a `u32`. Every other line is malformed.

use vstd::prelude::*;

verus! {

/// The one way in which a line can fail: it does not hold a guess.
#[derive(Clone, Copy, Debug, PartialEq, Eq)]
pub struct MalformedInput;

/// The white-space characters of Unicode, those it marks `White_Space`.
pub open spec fn is_whitespace(c: char) -> bool {
    let u = c as u32;
    ||| 0x09 <= u <= 0x0D
    ||| u == 0x20
    ||| u == 0x85
    ||| u == 0xA0
    ||| u == 0x1680
    ||| 0x2000 <= u <= 0x200A
    ||| u == 0x2028
    ||| u == 0x2029
    ||| u == 0x202F
    ||| u == 0x205F
    ||| u == 0x3000
}

/// Every character of `s` is white space.
pub open spec fn all_whitespace(s: Seq<char>) -> bool {
    forall|i: int| 0 <= i < s.len() ==> is_whitespace(#[trigger] s[i])
}

/// `s` without the white space it starts with.
pub open spec fn trim_start(s: Seq<char>) -> Seq<char>
    decreases s.len(),
{
    if s.len() > 0 && is_whitespace(s[0]) {
        trim_start(s.drop_first())
    } else {
        s
    }
}

/// `s` without the white space it ends with.
pub open spec fn trim_end(s: Seq<char>) -> Seq<char>
    decreases s.len(),
{
    if s.len() > 0 && is_whitespace(s.last()) {
        trim_end(s.drop_last())
    } else {
        s
    }
}

/// `s` without the white space at either end.
pub open spec fn trim(s: Seq<char>) -> Seq<char> {
    trim_end(trim_start(s))
}

/// `a` and `b` mark the text of `s` that is left when the white space at both
/// ends is set aside: all before `a` and all from `b` on is white space, and
/// what lies between, if anything does, begins and ends with a character
/// that is none. For a text of white space alone both marks stand at its end.
pub open spec fn is_trim_range(s: Seq<char>, a: int, b: int) -> bool {
    &&& 0 <= a <= b <= s.len()
    &&& all_whitespace(s.subrange(0, a))
    &&& all_whitespace(s.subrange(b, s.len() as int))
    &&& a < b ==> !is_whitespace(s[a]) && !is_whitespace(s[b - 1])
    &&& a == b ==> a == s.len()
}

/// The ASCII decimal digits.
pub open spec fn is_digit(c: char) -> bool {
    0x30 <= c as u32 <= 0x39
}

/// What a digit counts for; zero for any other character.
pub open spec fn digit_value(c: char) -> nat {
    if is_digit(c) {
        (c as u32 - 0x30) as nat
    } else {
        0
    }
}

/// Every character of `s` is a decimal digit.
pub open spec fn all_digits(s: Seq<char>) -> bool {
    forall|i: int| 0 <= i < s.len() ==> is_digit(#[trigger] s[i])
}

/// The number that the digits of `s` write in base ten, most significant
/// digit first.
pub open spec fn decimal_value(s: Seq<char>) -> nat
    decreases s.len(),
{
    if s.len() == 0 {
        0
    } else {
        10 * decimal_value(s.drop_last()) + digit_value(s.last())
    }
}

/// `s` without a leading `+`, if it has one.
pub open spec fn without_plus(s: Seq<char>) -> Seq<char> {
    if s.len() > 0 && s[0] == '+' {
        s.drop_first()
    } else {
        s
    }
}

/// The number written by `digits`, where these are one or more decimal
/// digits whose value fits in a `u32`.
pub open spec fn number_of(digits: Seq<char>) -> Option<u32> {
    if digits.len() > 0 && all_digits(digits) && decimal_value(digits) <= u32::MAX {
        Some(decimal_value(digits) as u32)
    } else {
        None
    }
}

/// The number written by `s`, where `s` is an optional `+` and then the
/// digits of a number.
pub open spec fn parse_decimal(s: Seq<char>) -> Option<u32> {
    number_of(without_plus(s))
}

/// What a line is read as: the guess it holds, or malformed input.
pub open spec fn guess_of(line: Seq<char>) -> Result<u32, MalformedInput> {
    match parse_decimal(trim(line)) {
        Some(guess) => Ok(guess),
        None => Err(MalformedInput),
    }
}

/// `line` holds the guess `guess`.
pub open spec fn holds_guess(line: Seq<char>, guess: u32) -> bool {
    guess_of(line) == Ok::<u32, MalformedInput>(guess)
}

/// Skipping `a` white-space characters from the front, up to the first
/// character that is none, is trimming the start.
pub proof fn lemma_trim_start_at(s: Seq<char>, a: int)
    requires
        0 <= a <= s.len(),
        all_whitespace(s.subrange(0, a)),
        a < s.len() ==> !is_whitespace(s[a]),
    ensures
        trim_start(s) == s.subrange(a, s.len() as int),
    decreases a,
{
    if a == 0 {
        assert(s.subrange(0, s.len() as int) == s);
    } else {
        assert(s.subrange(0, a)[0] == s[0]);
        let rest = s.drop_first();
        assert forall|i: int| 0 <= i < a - 1 implies is_whitespace(
            #[trigger] rest.subrange(0, a - 1)[i],
        ) by {
            assert(rest.subrange(0, a - 1)[i] == s.subrange(0, a)[i + 1]);
        }
        lemma_trim_start_at(rest, a - 1);
        assert(rest.subrange(a - 1, rest.len() as int) == s.subrange(a, s.len() as int));
    }
}

/// Dropping the white space behind position `b`, where the character before
/// `b` is none, is trimming the end.
pub proof fn lemma_trim_end_at(s: Seq<char>, b: int)
    requires
        0 <= b <= s.len(),
        all_whitespace(s.subrange(b, s.len() as int)),
        b > 0 ==> !is_whitespace(s[b - 1]),
    ensures
        trim_end(s) == s.subrange(0, b),
    decreases s.len() - b,
{
    if b == s.len() {
        assert(s.subrange(0, b) == s);
    } else {
        assert(s.subrange(b, s.len() as int)[s.len() - b - 1] == s.last());
        let rest = s.drop_last();
        assert forall|i: int| 0 <= i < rest.len() - b implies is_whitespace(
            #[trigger] rest.subrange(b, rest.len() as int)[i],
        ) by {
            assert(rest.subrange(b, rest.len() as int)[i] == s.subrange(b, s.len() as int)[i]);
        }
        lemma_trim_end_at(rest, b);
        assert(rest.subrange(0, b) == s.subrange(0, b));
    }
}

/// Trimming keeps exactly the stretch from the first character that is not
/// white space to the last one.
pub proof fn lemma_trim_is_subrange(s: Seq<char>, a: int, b: int)
    requires
        is_trim_range(s, a, b),
    ensures
        trim(s) == s.subrange(a, b),
{
    lemma_trim_start_at(s, a);
    let t = s.subrange(a, s.len() as int);
    assert forall|i: int| 0 <= i < t.len() - (b - a) implies is_whitespace(
        #[trigger] t.subrange(b - a, t.len() as int)[i],
    ) by {
        assert(t.subrange(b - a, t.len() as int)[i] == s.subrange(b, s.len() as int)[i]);
    }
    lemma_trim_end_at(t, b - a);
    assert(t.subrange(0, b - a) == s.subrange(a, b));
}

/// Text that is white space throughout trims to nothing.
pub proof fn lemma_trim_all_whitespace(s: Seq<char>)
    requires
        all_whitespace(s),
    ensures
        trim_start(s) == Seq::<char>::empty(),
        trim(s) == Seq::<char>::empty(),
{
    assert(s.subrange(0, s.len() as int) == s);
    lemma_trim_start_at(s, s.len() as int);
}

/// Trimming the start of two texts put together: white space in front is
/// dropped, and from the first other character on nothing is.
pub proof fn lemma_trim_start_concat(s: Seq<char>, t: Seq<char>)
    ensures
        all_whitespace(s) ==> trim_start(s + t) == trim_start(t),
        !all_whitespace(s) ==> trim_start(s + t) == trim_start(s) + t,
    decreases s.len(),
{
    if s.len() == 0 {
        assert(s + t == t);
    } else if is_whitespace(s[0]) {
        let rest = s.drop_first();
        assert((s + t).drop_first() == rest + t);
        assert((s + t)[0] == s[0]);
        lemma_trim_start_concat(rest, t);
        if all_whitespace(rest) {
            assert forall|i: int| 0 <= i < s.len() implies is_whitespace(#[trigger] s[i]) by {
                if i > 0 {
                    assert(s[i] == rest[i - 1]);
                }
            }
        } else {
            let i = choose|i: int| 0 <= i < rest.len() && !is_whitespace(#[trigger] rest[i]);
            assert(s[i + 1] == rest[i]);
        }
    } else {
        assert((s + t)[0] == s[0]);
    }
}

/// White space behind a text does not change what trimming the end leaves.
pub proof fn lemma_trim_end_concat(s: Seq<char>, t: Seq<char>)
    requires
        all_whitespace(t),
    ensures
        trim_end(s + t) == trim_end(s),
    decreases t.len(),
{
    if t.len() == 0 {
        assert(s + t == s);
    } else {
        let rest = t.drop_last();
        assert((s + t).last() == t.last());
        assert((s + t).drop_last() == s + rest);
        assert forall|i: int| 0 <= i < rest.len() implies is_whitespace(#[trigger] rest[i]) by {
            assert(rest[i] == t[i]);
        }
        lemma_trim_end_concat(s, rest);
    }
}

/// White space around a text changes neither what trimming leaves of it nor
/// the guess it holds: a line is read as its text alone would be.
pub proof fn lemma_surrounding_whitespace_ignored(
    before: Seq<char>,
    text: Seq<char>,
    after: Seq<char>,
)
    requires
        all_whitespace(before),
        all_whitespace(after),
    ensures
        trim(before + text + after) == trim(text),
        guess_of(before + text + after) == guess_of(text),
{
    assert(before + text + after == before + (text + after));
    lemma_trim_start_concat(before, text + after);
    lemma_trim_start_concat(text, after);
    if all_whitespace(text) {
        lemma_trim_all_whitespace(text);
        lemma_trim_all_whitespace(after);
    } else {
        lemma_trim_end_concat(trim_start(text), after);
    }
}

/// A line of white space alone, the empty line among them, holds no guess.
pub proof fn lemma_blank_line_is_malformed(line: Seq<char>)
    requires
        all_whitespace(line),
    ensures
        guess_of(line) is Err,
{
    lemma_trim_all_whitespace(line);
}

/// A line holds no guess if its text, once trimmed, has a character that is
/// not a digit anywhere but for a `+` at the very front.
pub proof fn lemma_stray_character_is_malformed(line: Seq<char>, i: int)
    requires
        0 <= i < trim(line).len(),
        !is_digit(trim(line)[i]),
        i > 0 || trim(line)[0] != '+',
    ensures
        guess_of(line) is Err,
{
    let text = trim(line);
    let digits = without_plus(text);
    if text[0] == '+' {
        assert(digits[i - 1] == text[i]);
    } else {
        assert(digits[i] == text[i]);
    }
}

/// A number never gets smaller when more characters follow it.
pub proof fn lemma_decimal_value_prefix(s: Seq<char>, k: int)
    requires
        0 <= k <= s.len(),
    ensures
        decimal_value(s.subrange(0, k)) <= decimal_value(s),
    decreases s.len(),
{
    if k == s.len() {
        assert(s.subrange(0, k) == s);
    } else {
        lemma_decimal_value_prefix(s.drop_last(), k);
        assert(s.drop_last().subrange(0, k) == s.subrange(0, k));
    }
}

/// Whether `c` is white space.
pub fn is_space(c: char) -> (r: bool)
    ensures
        r == is_whitespace(c),
{
    let u: u32 = c as u32;
    (0x09 <= u && u <= 0x0D) || u == 0x20 || u == 0x85 || u == 0xA0 || u == 0x1680 || (0x2000 <= u
        && u <= 0x200A) || u == 0x2028 || u == 0x2029 || u == 0x202F || u == 0x205F || u == 0x3000
}

/// Whether `c` is a decimal digit.
pub fn is_decimal_digit(c: char) -> (r: bool)
    ensures
        r == is_digit(c),
{
    let u: u32 = c as u32;
    0x30 <= u && u <= 0x39
}

/// The characters of `line`, in order.
fn chars_of(line: &str) -> (v: Vec<char>)
    ensures
        v@ == line@,
{
    let mut v: Vec<char> = Vec::new();
    for c in it: line.chars()
        invariant
            v@ == it.seq().take(it.index()),
    {
        v.push(c);
    }
    v
}

/// Where the trimmed text begins and ends in `v`.
fn trim_bounds(v: &Vec<char>) -> (r: (usize, usize))
    ensures
        is_trim_range(v@, r.0 as int, r.1 as int),
        v@.subrange(r.0 as int, r.1 as int) == trim(v@),
{
    let n: usize = v.len();
    let mut a: usize = 0;
    while a < n && is_space(v[a])
        invariant
            a <= n == v.len(),
            all_whitespace(v@.subrange(0, a as int)),
        decreases n - a,
    {
        a = a + 1;
    }
    let mut b: usize = n;
    while b > a && is_space(v[b - 1])
        invariant
            a <= b <= n == v.len(),
            a < n ==> a < b && !is_whitespace(v@[a as int]),
            all_whitespace(v@.subrange(b as int, n as int)),
        decreases b,
    {
        b = b - 1;
        assert forall|i: int| 0 <= i < n - b implies is_whitespace(
            #[trigger] v@.subrange(b as int, n as int)[i],
        ) by {
            if i > 0 {
                assert(v@.subrange(b as int, n as int)[i] == v@.subrange(b + 1, n as int)[i - 1]);
            }
        }
    }
    proof {
        lemma_trim_is_subrange(v@, a as int, b as int);
    }
    (a, b)
}

/// Reads the number that the characters of `v` from `from` up to `to` write.
fn read_number(v: &Vec<char>, from: usize, to: usize) -> (r: Option<u32>)
    requires
        from <= to <= v.len(),
    ensures
        r == number_of(v@.subrange(from as int, to as int)),
{
    let ghost digits = v@.subrange(from as int, to as int);
    if from == to {
        return None;
    }
    let mut value: u32 = 0;
    let mut i: usize = from;
    while i < to
        invariant
            from <= i <= to <= v.len(),
            digits == v@.subrange(from as int, to as int),
            all_digits(digits.subrange(0, i - from)),
            value == decimal_value(digits.subrange(0, i - from)),
        decreases to - i,
    {
        let c: char = v[i];
        if !is_decimal_digit(c) {
            assert(!is_digit(digits[i - from]));
            return None;
        }
        let ghost longer = digits.subrange(0, i - from + 1);
        assert(longer.drop_last() == digits.subrange(0, i - from));
        assert(longer.last() == c);
        let wide: u64 = value as u64 * 10 + (c as u32 - 0x30) as u64;
        if wide > u32::MAX as u64 {
            proof {
                lemma_decimal_value_prefix(digits, i - from + 1);
            }
            return None;
        }
        value = wide as u32;
        i = i + 1;
    }
    assert(digits.subrange(0, to - from) == digits);
    Some(value)
}

/// Reads `line`: the guess it holds, or malformed input.
pub fn parse_guess(line: &str) -> (r: Result<u32, MalformedInput>)
    ensures
        r == guess_of(line@),
{
    let v = chars_of(line);
    let (a, b) = trim_bounds(&v);
    let from: usize = if a < b && v[a] == '+' {
        a + 1
    } else {
        a
    };
    assert(v@.subrange(from as int, b as int) == without_plus(trim(line@)));
    match read_number(&v, from, b) {
        Some(guess) => Ok(guess),
        None => Err(MalformedInput),
    }
}

} // verus!
