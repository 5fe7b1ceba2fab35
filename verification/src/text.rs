//! Text as sequences of characters: trimming, folding, searching and decimal
//! rendering, each stated over `Seq<char>`.

use vstd::prelude::*;

verus! {

/// Appends one character to a string (`std::string::String::push`): the text
/// afterwards is the text before followed by that character.
pub assume_specification[ String::push ](s: &mut String, c: char)
    ensures
        final(s)@ == old(s)@.push(c),
;

/// Whether a character has Unicode's `White_Space` property.
pub open spec fn white_space(c: char) -> bool {
    ||| 0x09 <= c as u32 <= 0x0d
    ||| c as u32 == 0x20
    ||| c as u32 == 0x85
    ||| c as u32 == 0xa0
    ||| c as u32 == 0x1680
    ||| 0x2000 <= c as u32 <= 0x200a
    ||| c as u32 == 0x2028
    ||| c as u32 == 0x2029
    ||| c as u32 == 0x202f
    ||| c as u32 == 0x205f
    ||| c as u32 == 0x3000
}

pub fn is_white_space(c: char) -> (r: bool)
    ensures
        r == white_space(c),
{
    let code: u32 = c as u32;
    (0x09 <= code && code <= 0x0d) || code == 0x20 || code == 0x85 || code == 0xa0 || code == 0x1680
        || (0x2000 <= code && code <= 0x200a) || code == 0x2028 || code == 0x2029 || code == 0x202f
        || code == 0x205f || code == 0x3000
}

/// The ASCII lower-case form of a character; other characters stand for
/// themselves.
pub open spec fn lower(c: char) -> char {
    if 'A' <= c <= 'Z' {
        ((c as u32 + 32) as u32) as char
    } else {
        c
    }
}

pub fn to_lower(c: char) -> (r: char)
    ensures
        r == lower(c),
{
    if 'A' <= c && c <= 'Z' {
        ((c as u8) + 32) as char
    } else {
        c
    }
}

/// The characters of a text, in order.
pub fn chars_of(s: &str) -> (v: Vec<char>)
    ensures
        v@ == s@,
{
    let mut v: Vec<char> = Vec::new();
    for c in it: s.chars()
        invariant
            v@ == it.seq().take(it.index() as int),
            it.seq() == s@,
    {
        v.push(c);
    }
    v
}

/// The text made of the given characters.
pub fn text_of(v: &Vec<char>) -> (s: String)
    ensures
        s@ == v@,
{
    let mut s: String = String::new();
    let mut i: usize = 0;
    while i < v.len()
        invariant
            i <= v.len(),
            s@ == v@.take(i as int),
        decreases v.len() - i,
    {
        s.push(v[i]);
        i = i + 1;
    }
    s
}

/// Whether two texts are the same, character by character.
pub fn same(a: &str, b: &str) -> (r: bool)
    ensures
        r == (a@ == b@),
{
    let left = chars_of(a);
    let right = chars_of(b);
    if left.len() != right.len() {
        return false;
    }
    let mut i: usize = 0;
    while i < left.len()
        invariant
            left@ == a@,
            right@ == b@,
            left.len() == right.len(),
            i <= left.len(),
            forall|k: int| 0 <= k < i ==> left@[k] == right@[k],
        decreases left.len() - i,
    {
        if left[i] != right[i] {
            assert(a@[i as int] != b@[i as int]);
            return false;
        }
        i = i + 1;
    }
    assert(a@ =~= b@);
    true
}

// ---------------------------------------------------------------------------
// Trimming
// ---------------------------------------------------------------------------
/// The text without its leading characters that satisfy `drop`.
pub open spec fn without_leading(s: Seq<char>, drop: spec_fn(char) -> bool) -> Seq<char>
    decreases s.len(),
{
    if s.len() > 0 && drop(s[0]) {
        without_leading(s.drop_first(), drop)
    } else {
        s
    }
}

/// The text without its trailing characters that satisfy `drop`.
pub open spec fn without_trailing(s: Seq<char>, drop: spec_fn(char) -> bool) -> Seq<char>
    decreases s.len(),
{
    if s.len() > 0 && drop(s.last()) {
        without_trailing(s.drop_last(), drop)
    } else {
        s
    }
}

/// The text without the characters that satisfy `drop` at either end.
pub open spec fn stripped(s: Seq<char>, drop: spec_fn(char) -> bool) -> Seq<char> {
    without_trailing(without_leading(s, drop), drop)
}

/// The text without the white space at either end.
pub open spec fn trimmed(s: Seq<char>) -> Seq<char> {
    stripped(s, |c: char| white_space(c))
}

/// Whether nothing but white space stands in a text.
pub open spec fn blank(s: Seq<char>) -> bool {
    trimmed(s).len() == 0
}

/// A text is blank exactly when each of its characters is white space.
pub proof fn law_a_blank_text_is_all_white_space(s: Seq<char>)
    ensures
        blank(s) <==> forall|i: int| 0 <= i < s.len() ==> white_space(#[trigger] s[i]),
{
    let drop = |c: char| white_space(c);
    lemma_without_leading_empty(s, drop);
    lemma_without_leading_first(s, drop);
    let rest = without_leading(s, drop);
    lemma_without_trailing_empty(rest, drop);
    if rest.len() > 0 {
        assert(!drop(rest[0]));
    }
    if forall|i: int| 0 <= i < s.len() ==> white_space(#[trigger] s[i]) {
        assert(forall|i: int| 0 <= i < s.len() ==> drop(#[trigger] s[i]));
    }
}

proof fn lemma_without_leading_empty(s: Seq<char>, drop: spec_fn(char) -> bool)
    ensures
        without_leading(s, drop).len() == 0 <==> forall|i: int|
            0 <= i < s.len() ==> drop(#[trigger] s[i]),
    decreases s.len(),
{
    if s.len() > 0 && drop(s[0]) {
        lemma_without_leading_empty(s.drop_first(), drop);
        let rest = s.drop_first();
        if forall|i: int| 0 <= i < rest.len() ==> drop(#[trigger] rest[i]) {
            assert forall|i: int| 0 <= i < s.len() implies drop(#[trigger] s[i]) by {
                if i > 0 {
                    assert(rest[i - 1] == s[i]);
                }
            }
        }
        if forall|i: int| 0 <= i < s.len() ==> drop(#[trigger] s[i]) {
            assert forall|i: int| 0 <= i < rest.len() implies drop(#[trigger] rest[i]) by {
                assert(rest[i] == s[i + 1]);
            }
        }
    }
}

proof fn lemma_without_leading_first(s: Seq<char>, drop: spec_fn(char) -> bool)
    ensures
        without_leading(s, drop).len() > 0 ==> !drop(without_leading(s, drop)[0]),
    decreases s.len(),
{
    if s.len() > 0 && drop(s[0]) {
        lemma_without_leading_first(s.drop_first(), drop);
    }
}

proof fn lemma_without_trailing_empty(s: Seq<char>, drop: spec_fn(char) -> bool)
    ensures
        without_trailing(s, drop).len() == 0 <==> forall|i: int|
            0 <= i < s.len() ==> drop(#[trigger] s[i]),
        without_trailing(s, drop).len() <= s.len(),
        without_trailing(s, drop) == s.take(without_trailing(s, drop).len() as int),
        without_trailing(s, drop).len() > 0 ==> !drop(without_trailing(s, drop).last()),
    decreases s.len(),
{
    if s.len() > 0 && drop(s.last()) {
        let rest = s.drop_last();
        lemma_without_trailing_empty(rest, drop);
        if forall|i: int| 0 <= i < rest.len() ==> drop(#[trigger] rest[i]) {
            assert forall|i: int| 0 <= i < s.len() implies drop(#[trigger] s[i]) by {
                if i < s.len() - 1 {
                    assert(rest[i] == s[i]);
                }
            }
        }
        if forall|i: int| 0 <= i < s.len() ==> drop(#[trigger] s[i]) {
            assert forall|i: int| 0 <= i < rest.len() implies drop(#[trigger] rest[i]) by {
                assert(rest[i] == s[i]);
            }
        }
    }
}

/// A slice of the text without the white space at either end.
pub fn trim<'a>(s: &'a str) -> (r: &'a str)
    ensures
        r@ == trimmed(s@),
{
    let chars = chars_of(s);
    let ghost drop = |c: char| white_space(c);
    let mut start: usize = 0;
    proof {
        assert(chars@.skip(0) =~= s@);
    }
    while start < chars.len() && is_white_space(chars[start])
        invariant
            chars@ == s@,
            start <= chars.len(),
            drop == |c: char| white_space(c),
            without_leading(s@, drop) == without_leading(chars@.skip(start as int), drop),
        decreases chars.len() - start,
    {
        assert(chars@.skip(start as int).drop_first() =~= chars@.skip(start + 1));
        assert(drop(chars@.skip(start as int)[0]));
        start = start + 1;
    }
    proof {
        let rest = chars@.skip(start as int);
        if rest.len() > 0 {
            assert(!drop(rest[0]));
        }
        assert(without_leading(s@, drop) == rest);
        assert(rest =~= chars@.subrange(start as int, chars.len() as int));
    }
    let mut end: usize = chars.len();
    while start < end && is_white_space(chars[end - 1])
        invariant
            chars@ == s@,
            start <= end <= chars.len(),
            drop == |c: char| white_space(c),
            without_trailing(without_leading(s@, drop), drop) == without_trailing(
                chars@.subrange(start as int, end as int),
                drop,
            ),
        decreases end,
    {
        let ghost here = chars@.subrange(start as int, end as int);
        assert(here.drop_last() =~= chars@.subrange(start as int, end - 1));
        assert(drop(here.last()));
        end = end - 1;
    }
    proof {
        let here = chars@.subrange(start as int, end as int);
        if here.len() > 0 {
            assert(!drop(here.last()));
        }
    }
    s.substring_char(start, end)
}

/// Stripping a text leaves a part of it that neither begins nor ends with a
/// dropped character, and leaves alone a text that does not.
pub proof fn lemma_stripped(s: Seq<char>, drop: spec_fn(char) -> bool)
    ensures
        exists|from: int, to: int|
            0 <= from <= to <= s.len() && stripped(s, drop) == #[trigger] s.subrange(from, to),
        stripped(s, drop).len() > 0 ==> !drop(stripped(s, drop)[0]) && !drop(
            stripped(s, drop).last(),
        ),
        s.len() > 0 && !drop(s[0]) && !drop(s.last()) ==> stripped(s, drop) == s,
{
    let rest = without_leading(s, drop);
    lemma_without_leading_suffix(s, drop);
    lemma_without_leading_first(s, drop);
    lemma_without_trailing_empty(rest, drop);
    let length = stripped(s, drop).len() as int;
    let from = s.len() - rest.len();
    assert(s.subrange(from, from + length) =~= rest.take(length));
    if length > 0 {
        assert(stripped(s, drop)[0] == rest[0]);
    }
}

proof fn lemma_without_leading_suffix(s: Seq<char>, drop: spec_fn(char) -> bool)
    ensures
        without_leading(s, drop).len() <= s.len(),
        without_leading(s, drop) == s.skip(s.len() - without_leading(s, drop).len()),
    decreases s.len(),
{
    if s.len() > 0 && drop(s[0]) {
        lemma_without_leading_suffix(s.drop_first(), drop);
        let rest = without_leading(s, drop);
        assert(s.drop_first().skip(s.len() - 1 - rest.len()) =~= s.skip(s.len() - rest.len()));
    } else {
        assert(s.skip(0) =~= s);
    }
}

proof fn lemma_leading_keeps(s: Seq<char>, drop: spec_fn(char) -> bool, c: char)
    requires
        !drop(c),
    ensures
        without_leading(s, drop).contains(c) == s.contains(c),
    decreases s.len(),
{
    if s.len() > 0 && drop(s[0]) {
        let rest = s.drop_first();
        lemma_leading_keeps(rest, drop, c);
        if s.contains(c) {
            let i = choose|i: int| 0 <= i < s.len() && s[i] == c;
            assert(rest[i - 1] == c);
        }
        if rest.contains(c) {
            let i = choose|i: int| 0 <= i < rest.len() && rest[i] == c;
            assert(s[i + 1] == c);
        }
    }
}

proof fn lemma_trailing_keeps(s: Seq<char>, drop: spec_fn(char) -> bool, c: char)
    requires
        !drop(c),
    ensures
        without_trailing(s, drop).contains(c) == s.contains(c),
    decreases s.len(),
{
    if s.len() > 0 && drop(s.last()) {
        let rest = s.drop_last();
        lemma_trailing_keeps(rest, drop, c);
        if s.contains(c) {
            let i = choose|i: int| 0 <= i < s.len() && s[i] == c;
            assert(rest[i] == c);
        }
        if rest.contains(c) {
            let i = choose|i: int| 0 <= i < rest.len() && rest[i] == c;
            assert(s[i] == c);
        }
    }
}

/// Stripping a text leaves in it whatever is not dropped.
pub proof fn lemma_stripping_keeps(s: Seq<char>, drop: spec_fn(char) -> bool, c: char)
    requires
        !drop(c),
    ensures
        stripped(s, drop).contains(c) == s.contains(c),
{
    lemma_leading_keeps(s, drop, c);
    lemma_trailing_keeps(without_leading(s, drop), drop, c);
}

proof fn lemma_leading_lowered(s: Seq<char>, drop: spec_fn(char) -> bool)
    requires
        forall|c: char| #[trigger] drop(lower(c)) == drop(c),
    ensures
        without_leading(lowered(s), drop) == lowered(without_leading(s, drop)),
    decreases s.len(),
{
    if s.len() > 0 {
        assert(lowered(s)[0] == lower(s[0]));
        assert(drop(lower(s[0])) == drop(s[0]));
        if drop(s[0]) {
            lemma_leading_lowered(s.drop_first(), drop);
            assert(lowered(s).drop_first() =~= lowered(s.drop_first()));
        }
    }
}

proof fn lemma_trailing_lowered(s: Seq<char>, drop: spec_fn(char) -> bool)
    requires
        forall|c: char| #[trigger] drop(lower(c)) == drop(c),
    ensures
        without_trailing(lowered(s), drop) == lowered(without_trailing(s, drop)),
    decreases s.len(),
{
    if s.len() > 0 {
        assert(lowered(s).last() == lower(s.last()));
        assert(drop(lower(s.last())) == drop(s.last()));
        if drop(s.last()) {
            lemma_trailing_lowered(s.drop_last(), drop);
            assert(lowered(s).drop_last() =~= lowered(s.drop_last()));
        }
    }
}

/// Case makes no difference to trimming.
pub proof fn lemma_trimming_lowered(s: Seq<char>)
    ensures
        trimmed(lowered(s)) == lowered(trimmed(s)),
{
    let drop = |c: char| white_space(c);
    assert forall|c: char| #[trigger] drop(lower(c)) == drop(c) by {
        assert(drop(lower(c)) == white_space(lower(c)));
    }
    lemma_leading_lowered(s, drop);
    lemma_trailing_lowered(without_leading(s, drop), drop);
}

/// Whether a character is the given one.
pub open spec fn the_char(unwanted: char) -> spec_fn(char) -> bool {
    |c: char| c == unwanted
}

/// The text without a character at either end.
pub fn strip(s: &Vec<char>, unwanted: char) -> (r: Vec<char>)
    ensures
        r@ == stripped(s@, the_char(unwanted)),
{
    let mut start: usize = 0;
    proof {
        assert(s@.skip(0) =~= s@);
    }
    while start < s.len() && s[start] == unwanted
        invariant
            start <= s.len(),
            without_leading(s@, the_char(unwanted)) == without_leading(
                s@.skip(start as int),
                the_char(unwanted),
            ),
        decreases s.len() - start,
    {
        assert(s@.skip(start as int).drop_first() =~= s@.skip(start + 1));
        start = start + 1;
    }
    let mut end: usize = s.len();
    assert(s@.skip(start as int) =~= s@.subrange(start as int, end as int));
    while start < end && s[end - 1] == unwanted
        invariant
            start <= end <= s.len(),
            stripped(s@, the_char(unwanted)) == without_trailing(
                s@.subrange(start as int, end as int),
                the_char(unwanted),
            ),
        decreases end,
    {
        assert(s@.subrange(start as int, end as int).drop_last() =~= s@.subrange(
            start as int,
            end - 1,
        ));
        end = end - 1;
    }
    let mut out: Vec<char> = Vec::new();
    let mut i: usize = start;
    while i < end
        invariant
            start <= i <= end <= s.len(),
            out@ == s@.subrange(start as int, i as int),
        decreases end - i,
    {
        out.push(s[i]);
        assert(out@ =~= s@.subrange(start as int, i + 1));
        i = i + 1;
    }
    out
}

/// Whether a text holds nothing but white space.
pub fn is_blank(s: &str) -> (r: bool)
    ensures
        r == blank(s@),
{
    trim(s).is_empty()
}

// ---------------------------------------------------------------------------
// Case and search
// ---------------------------------------------------------------------------
/// The text with every ASCII letter in lower case.
pub open spec fn lowered(s: Seq<char>) -> Seq<char> {
    s.map_values(|c: char| lower(c))
}

/// The characters of the text with every ASCII letter in lower case.
pub fn lower_chars(s: &str) -> (v: Vec<char>)
    ensures
        v@ == lowered(s@),
{
    let chars = chars_of(s);
    let mut v: Vec<char> = Vec::new();
    let mut i: usize = 0;
    while i < chars.len()
        invariant
            chars@ == s@,
            i <= chars.len(),
            v@ == lowered(s@).take(i as int),
        decreases chars.len() - i,
    {
        v.push(to_lower(chars[i]));
        i = i + 1;
    }
    v
}

/// Whether two texts agree when ASCII letters are compared without case.
pub fn same_ignoring_ascii_case(a: &str, b: &str) -> (r: bool)
    ensures
        r == (lowered(a@) == lowered(b@)),
{
    let left = text_of(&lower_chars(a));
    let right = text_of(&lower_chars(b));
    same(left.as_str(), right.as_str())
}

/// Whether `needle` stands in `hay` from position `at`.
pub open spec fn stands_at(needle: Seq<char>, hay: Seq<char>, at: int) -> bool {
    &&& 0 <= at
    &&& at + needle.len() <= hay.len()
    &&& hay.subrange(at, at + needle.len()) == needle
}

/// Whether `needle` stands somewhere in `hay`.
pub open spec fn occurs_in(needle: Seq<char>, hay: Seq<char>) -> bool {
    exists|at: int| stands_at(needle, hay, at)
}

fn matches_at(hay: &Vec<char>, needle: &Vec<char>, at: usize) -> (r: bool)
    requires
        at + needle.len() <= hay.len(),
    ensures
        r == stands_at(needle@, hay@, at as int),
{
    let mut i: usize = 0;
    while i < needle.len()
        invariant
            at + needle.len() <= hay.len(),
            i <= needle.len(),
            forall|k: int| 0 <= k < i ==> hay@[at + k] == needle@[k],
        decreases needle.len() - i,
    {
        if hay[at + i] != needle[i] {
            assert(hay@.subrange(at as int, at + needle.len())[i as int] != needle@[i as int]);
            return false;
        }
        i = i + 1;
    }
    assert(hay@.subrange(at as int, at + needle.len()) =~= needle@);
    true
}

/// Whether `needle` stands somewhere among the characters of `hay`.
pub fn contains(hay: &Vec<char>, needle: &str) -> (r: bool)
    ensures
        r == occurs_in(needle@, hay@),
{
    let wanted = chars_of(needle);
    if wanted.len() > hay.len() {
        return false;
    }
    let last: usize = hay.len() - wanted.len();
    let mut at: usize = 0;
    while at < last
        invariant
            wanted@ == needle@,
            last == hay.len() - wanted.len(),
            at <= last,
            forall|k: int| 0 <= k < at ==> !stands_at(needle@, hay@, k),
        decreases last - at,
    {
        if matches_at(hay, &wanted, at) {
            return true;
        }
        at = at + 1;
    }
    matches_at(hay, &wanted, last)
}

/// Whether a text begins with a prefix.
pub open spec fn begins_with(s: Seq<char>, prefix: Seq<char>) -> bool {
    s.len() >= prefix.len() && s.take(prefix.len() as int) == prefix
}

/// What follows `prefix` in a text that begins with it.
pub fn strip_prefix<'a>(s: &'a str, prefix: &str) -> (r: Option<&'a str>)
    ensures
        match r {
            Some(rest) => begins_with(s@, prefix@) && rest@ == s@.skip(prefix@.len() as int),
            None => !begins_with(s@, prefix@),
        },
{
    let chars = chars_of(s);
    let wanted = chars_of(prefix);
    if wanted.len() > chars.len() || !matches_at(&chars, &wanted, 0) {
        assert(wanted.len() <= chars.len() ==> s@.take(prefix@.len() as int) =~= s@.subrange(
            0,
            prefix@.len() as int,
        ));
        return None;
    }
    assert(s@.take(prefix@.len() as int) =~= s@.subrange(0, prefix@.len() as int));
    assert(s@.skip(prefix@.len() as int) =~= s@.subrange(prefix@.len() as int, s@.len() as int));
    Some(s.substring_char(wanted.len(), chars.len()))
}

// ---------------------------------------------------------------------------
// Decimal numbers
// ---------------------------------------------------------------------------
/// The character of one decimal digit.
pub open spec fn digit(d: int) -> char {
    (('0' as u32 + d) as u32) as char
}

/// The decimal digits of a number, without leading zeros.
pub open spec fn decimal(n: nat) -> Seq<char>
    decreases n,
{
    if n < 10 {
        seq![digit(n as int)]
    } else {
        decimal(n / 10).push(digit((n % 10) as int))
    }
}

/// The decimal form of an integer, with a minus sign where it is negative.
pub open spec fn signed_decimal(i: int) -> Seq<char> {
    if i < 0 {
        seq!['-'] + decimal((-i) as nat)
    } else {
        decimal(i as nat)
    }
}

fn to_digit(d: u64) -> (c: char)
    requires
        d < 10,
    ensures
        c == digit(d as int),
{
    (48u8 + d as u8) as char
}

/// Appends the decimal digits of a number.
pub fn push_decimal(out: &mut String, n: u64)
    ensures
        final(out)@ == old(out)@ + decimal(n as nat),
    decreases n,
{
    if n >= 10 {
        push_decimal(out, n / 10);
    }
    out.push(to_digit(n % 10));
    assert(out@ =~= old(out)@ + decimal(n as nat));
}

/// Appends the decimal form of an integer.
pub fn push_signed_decimal(out: &mut String, i: i32)
    ensures
        final(out)@ == old(out)@ + signed_decimal(i as int),
{
    if i < 0 {
        out.push('-');
        push_decimal(out, (-(i as i64)) as u64);
        assert(out@ =~= old(out)@ + signed_decimal(i as int));
    } else {
        push_decimal(out, i as u64);
    }
}

/// The value that a sequence of decimal digits spells.
pub open spec fn digits_value(s: Seq<char>) -> nat
    decreases s.len(),
{
    if s.len() == 0 {
        0
    } else {
        digits_value(s.drop_last()) * 10 + (s.last() as u32 - '0' as u32) as nat
    }
}

pub open spec fn is_digit(c: char) -> bool {
    '0' <= c <= '9'
}

/// The decimal form of a number spells that number, in digits only.
pub proof fn lemma_decimal(n: nat)
    ensures
        decimal(n).len() > 0,
        digits_value(decimal(n)) == n,
        forall|i: int| 0 <= i < decimal(n).len() ==> is_digit(#[trigger] decimal(n)[i]),
    decreases n,
{
    if n < 10 {
        assert(decimal(n).drop_last() =~= seq![]);
        assert(digits_value(seq![]) == 0);
    } else {
        lemma_decimal(n / 10);
        assert(decimal(n).drop_last() =~= decimal(n / 10));
    }
}

/// Where two texts are equal up to a separator that stands in neither of their
/// first parts, the parts are equal.
pub proof fn lemma_parts_are_equal(
    a: Seq<char>,
    rest_of_a: Seq<char>,
    b: Seq<char>,
    rest_of_b: Seq<char>,
    separator: char,
)
    requires
        a + seq![separator] + rest_of_a == b + seq![separator] + rest_of_b,
        !a.contains(separator),
        !b.contains(separator),
    ensures
        a == b,
        rest_of_a == rest_of_b,
{
    let left = a + seq![separator] + rest_of_a;
    let right = b + seq![separator] + rest_of_b;
    assert(left[a.len() as int] == separator);
    assert(right[b.len() as int] == separator);
    if a.len() < b.len() {
        assert(right[a.len() as int] == b[a.len() as int]);
    } else if b.len() < a.len() {
        assert(left[b.len() as int] == a[b.len() as int]);
    }
    assert(a =~= left.take(a.len() as int));
    assert(b =~= right.take(b.len() as int));
    assert(rest_of_a =~= left.skip(a.len() as int + 1));
    assert(rest_of_b =~= right.skip(b.len() as int + 1));
}

/// Where two texts are equal down from a separator that stands in neither of
/// their last parts, the parts are equal.
pub proof fn lemma_last_parts_are_equal(
    a: Seq<char>,
    last_of_a: Seq<char>,
    b: Seq<char>,
    last_of_b: Seq<char>,
    separator: char,
)
    requires
        a + seq![separator] + last_of_a == b + seq![separator] + last_of_b,
        !last_of_a.contains(separator),
        !last_of_b.contains(separator),
    ensures
        a == b,
        last_of_a == last_of_b,
{
    let left = a + seq![separator] + last_of_a;
    let right = b + seq![separator] + last_of_b;
    assert(left[a.len() as int] == separator);
    assert(right[b.len() as int] == separator);
    assert(left.len() == a.len() + 1 + last_of_a.len());
    assert(right.len() == b.len() + 1 + last_of_b.len());
    if a.len() < b.len() {
        let i = b.len() - (a.len() + 1);
        assert(0 <= i < last_of_a.len());
        assert(left[b.len() as int] == last_of_a[i]);
    } else if b.len() < a.len() {
        let i = a.len() - (b.len() + 1);
        assert(0 <= i < last_of_b.len());
        assert(right[a.len() as int] == last_of_b[i]);
    }
    assert(a =~= left.take(a.len() as int));
    assert(b =~= right.take(b.len() as int));
    assert(last_of_a =~= left.skip(a.len() as int + 1));
    assert(last_of_b =~= right.skip(b.len() as int + 1));
}

/// The decimal form of an integer tells it, in digits and a sign.
pub proof fn lemma_signed_decimal(i: int, j: int)
    ensures
        forall|k: int|
            0 <= k < signed_decimal(i).len() ==> is_digit(#[trigger] signed_decimal(i)[k])
                || signed_decimal(i)[k] == '-',
        signed_decimal(i) == signed_decimal(j) ==> i == j,
{
    let m = if i < 0 {
        (-i) as nat
    } else {
        i as nat
    };
    let n = if j < 0 {
        (-j) as nat
    } else {
        j as nat
    };
    lemma_decimal(m);
    lemma_decimal(n);
    if i < 0 {
        assert(signed_decimal(i).skip(1) =~= decimal(m));
    } else {
        assert(is_digit(signed_decimal(i)[0]));
    }
    if j < 0 {
        assert(signed_decimal(j).skip(1) =~= decimal(n));
    } else {
        assert(is_digit(signed_decimal(j)[0]));
    }
}

/// The number between 0 and 65535 that a text of decimal digits spells.
pub open spec fn parsed_digits(digits: Seq<char>) -> Option<u16> {
    if digits.len() > 0 && (forall|i: int| 0 <= i < digits.len() ==> is_digit(#[trigger] digits[i]))
        && digits_value(digits) <= 0xffff {
        Some(digits_value(digits) as u16)
    } else {
        None
    }
}

/// The number between 0 and 65535 that a text spells: decimal digits, at least
/// one, after an optional plus sign.
pub open spec fn parsed_u16(s: Seq<char>) -> Option<u16> {
    if s.len() > 0 && s[0] == '+' {
        parsed_digits(s.drop_first())
    } else {
        parsed_digits(s)
    }
}

proof fn lemma_digits_value_grows(s: Seq<char>, upto: int)
    requires
        0 <= upto <= s.len(),
        forall|i: int| 0 <= i < s.len() ==> is_digit(#[trigger] s[i]),
    ensures
        digits_value(s.take(upto)) <= digits_value(s),
    decreases s.len() - upto,
{
    if upto < s.len() {
        lemma_digits_value_grows(s, upto + 1);
        assert(s.take(upto + 1).drop_last() =~= s.take(upto));
        assert(s.take(upto + 1).last() == s[upto]);
    } else {
        assert(s.take(upto) =~= s);
    }
}

/// Reads a number between 0 and 65535.
pub fn parse_u16(s: &Vec<char>) -> (r: Option<u16>)
    ensures
        r == parsed_u16(s@),
{
    let start: usize = if s.len() > 0 && s[0] == '+' {
        1
    } else {
        0
    };
    let ghost digits = s@.skip(start as int);
    assert(start == 1 ==> digits =~= s@.drop_first());
    assert(start == 0 ==> digits =~= s@);
    if s.len() == start {
        return None;
    }
    let mut value: u32 = 0;
    let mut i: usize = start;
    while i < s.len()
        invariant
            start <= i <= s.len(),
            digits == s@.skip(start as int),
            digits.len() > 0,
            parsed_u16(s@) == parsed_digits(digits),
            forall|k: int| 0 <= k < i - start ==> is_digit(#[trigger] digits[k]),
            value == digits_value(digits.take(i - start)),
            value <= 0xffff,
        decreases s.len() - i,
    {
        let c: char = s[i];
        assert(c == digits[i - start]);
        if c < '0' || c > '9' {
            return None;
        }
        assert(digits.take(i - start + 1).drop_last() =~= digits.take(i - start));
        value = value * 10 + (c as u32 - '0' as u32);
        i = i + 1;
        if value > 0xffff {
            proof {
                if forall|k: int| 0 <= k < digits.len() ==> is_digit(#[trigger] digits[k]) {
                    lemma_digits_value_grows(digits, i - start);
                }
            }
            return None;
        }
    }
    assert(digits.take(digits.len() as int) =~= digits);
    Some(value as u16)
}

// ---------------------------------------------------------------------------
// Lists of texts
// ---------------------------------------------------------------------------
/// The texts that a list of strings holds.
pub open spec fn texts(v: Seq<String>) -> Seq<Seq<char>> {
    v.map_values(|s: String| s@)
}

/// The text of a string that may be absent.
pub open spec fn text_view(text: Option<String>) -> Option<Seq<char>> {
    match text {
        Some(text) => Some(text@),
        None => None,
    }
}

/// The texts one after another, with `separator` between neighbours.
pub open spec fn joined(parts: Seq<Seq<char>>, separator: Seq<char>) -> Seq<char>
    decreases parts.len(),
{
    if parts.len() == 0 {
        seq![]
    } else if parts.len() == 1 {
        parts[0]
    } else {
        joined(parts.drop_last(), separator) + separator + parts.last()
    }
}

/// One text made of the given ones, with `separator` between neighbours.
pub fn join(parts: &Vec<String>, separator: &str) -> (r: String)
    ensures
        r@ == joined(texts(parts@), separator@),
{
    let mut out: String = String::new();
    let mut i: usize = 0;
    while i < parts.len()
        invariant
            i <= parts.len(),
            out@ == joined(texts(parts@).take(i as int), separator@),
        decreases parts.len() - i,
    {
        if i > 0 {
            out.append(separator);
        }
        out.append(parts[i].as_str());
        proof {
            let upto = texts(parts@).take(i + 1);
            assert(upto.drop_last() =~= texts(parts@).take(i as int));
            assert(upto.last() == parts@[i as int]@);
            if i == 0 {
                assert(out@ =~= parts@[0]@);
            }
        }
        i = i + 1;
    }
    assert(texts(parts@).take(parts.len() as int) =~= texts(parts@));
    out
}

/// Whether one text stands before another in character order.
pub open spec fn precedes(a: Seq<char>, b: Seq<char>) -> bool
    decreases b.len(),
{
    if b.len() == 0 {
        false
    } else if a.len() == 0 {
        true
    } else if a[0] == b[0] {
        precedes(a.drop_first(), b.drop_first())
    } else {
        a[0] < b[0]
    }
}

pub proof fn lemma_precedes_transitive(a: Seq<char>, b: Seq<char>, c: Seq<char>)
    requires
        precedes(a, b),
        precedes(b, c),
    ensures
        precedes(a, c),
    decreases b.len(),
{
    if a.len() > 0 && a[0] == b[0] && b[0] == c[0] {
        lemma_precedes_transitive(a.drop_first(), b.drop_first(), c.drop_first());
    }
}

pub proof fn lemma_precedes_irreflexive(a: Seq<char>)
    ensures
        !precedes(a, a),
    decreases a.len(),
{
    if a.len() > 0 {
        lemma_precedes_irreflexive(a.drop_first());
    }
}

pub proof fn lemma_precedes_total(a: Seq<char>, b: Seq<char>)
    ensures
        precedes(a, b) || precedes(b, a) || a == b,
    decreases a.len(),
{
    if a.len() > 0 && b.len() > 0 && a[0] == b[0] {
        lemma_precedes_total(a.drop_first(), b.drop_first());
        if a.drop_first() == b.drop_first() {
            assert(a =~= seq![a[0]] + a.drop_first());
            assert(b =~= seq![b[0]] + b.drop_first());
        }
    } else if a.len() == 0 && b.len() == 0 {
        assert(a =~= b);
    }
}

/// Whether `a` stands before `b` in character order.
pub fn stands_before(a: &str, b: &str) -> (r: bool)
    ensures
        r == precedes(a@, b@),
{
    let left = chars_of(a);
    let right = chars_of(b);
    let mut i: usize = 0;
    assert(left@.skip(0) =~= a@);
    assert(right@.skip(0) =~= b@);
    while i < left.len() && i < right.len()
        invariant
            i <= left.len(),
            i <= right.len(),
            precedes(a@, b@) == precedes(left@.skip(i as int), right@.skip(i as int)),
        decreases left.len() - i,
    {
        if left[i] != right[i] {
            return left[i] < right[i];
        }
        assert(left@.skip(i as int).drop_first() =~= left@.skip(i + 1));
        assert(right@.skip(i as int).drop_first() =~= right@.skip(i + 1));
        i = i + 1;
    }
    i < right.len()
}

/// Whether each text of a list stands before every later one.
pub open spec fn strictly_increasing(v: Seq<Seq<char>>) -> bool {
    forall|i: int, j: int| 0 <= i < j < v.len() ==> precedes(#[trigger] v[i], #[trigger] v[j])
}

/// The place of a text in a strictly increasing list: every text before it
/// stands before `wanted`, and none from it on does.
fn place_of(v: &Vec<String>, wanted: &str) -> (at: usize)
    requires
        strictly_increasing(texts(v@)),
    ensures
        at <= v.len(),
        forall|i: int| 0 <= i < at ==> precedes(#[trigger] v@[i]@, wanted@),
        forall|i: int| at <= i < v.len() ==> !precedes(#[trigger] v@[i]@, wanted@),
{
    let mut low: usize = 0;
    let mut high: usize = v.len();
    while low < high
        invariant
            strictly_increasing(texts(v@)),
            low <= high <= v.len(),
            forall|i: int| 0 <= i < low ==> precedes(#[trigger] v@[i]@, wanted@),
            forall|i: int| high <= i < v.len() ==> !precedes(#[trigger] v@[i]@, wanted@),
        decreases high - low,
    {
        let middle: usize = low + (high - low) / 2;
        let ghost all = texts(v@);
        if stands_before(v[middle].as_str(), wanted) {
            assert forall|i: int| 0 <= i < middle + 1 implies precedes(#[trigger] v@[i]@, wanted@) by {
                if i < middle {
                    assert(precedes(all[i], all[middle as int]));
                    lemma_precedes_transitive(v@[i]@, v@[middle as int]@, wanted@);
                }
            }
            low = middle + 1;
        } else {
            assert forall|i: int| middle <= i < v.len() implies !precedes(
                #[trigger] v@[i]@,
                wanted@,
            ) by {
                if i > middle && precedes(v@[i]@, wanted@) {
                    assert(precedes(all[middle as int], all[i]));
                    lemma_precedes_transitive(v@[middle as int]@, v@[i]@, wanted@);
                }
            }
            high = middle;
        }
    }
    low
}

/// Adds a text to a strictly increasing list, in its place, unless it is there.
fn insert_in_order(v: &mut Vec<String>, wanted: String)
    requires
        strictly_increasing(texts(old(v)@)),
    ensures
        strictly_increasing(texts(final(v)@)),
        forall|t: Seq<char>|
            #![auto]
            texts(final(v)@).contains(t) <==> texts(old(v)@).contains(t) || t == wanted@,
{
    let at = place_of(v, wanted.as_str());
    let ghost before = texts(v@);
    if at < v.len() && same(v[at].as_str(), wanted.as_str()) {
        assert(before[at as int] == wanted@);
        return;
    }
    let ghost text = wanted@;
    v.insert(at, wanted);
    proof {
        let after = texts(v@);
        assert(after =~= before.insert(at as int, text));
        assert forall|i: int, j: int| 0 <= i < j < after.len() implies precedes(
            #[trigger] after[i],
            #[trigger] after[j],
        ) by {
            if j < at {
                assert(precedes(before[i], before[j]));
            } else if j == at {
                assert(precedes(old(v)@[i]@, text));
            } else if i < at {
                assert(precedes(before[i], before[j - 1]));
            } else if i == at {
                assert(!precedes(old(v)@[at as int]@, text));
                lemma_precedes_total(text, before[at as int]);
                if j - 1 > at {
                    assert(precedes(before[at as int], before[j - 1]));
                    lemma_precedes_transitive(text, before[at as int], before[j - 1]);
                }
            } else {
                assert(precedes(before[i - 1], before[j - 1]));
            }
        }
        assert forall|t: Seq<char>|
            #![auto]
            after.contains(t) <==> before.contains(t) || t == text by {
            if before.contains(t) {
                let k = choose|k: int| 0 <= k < before.len() && before[k] == t;
                if k < at {
                    assert(after[k] == t);
                } else {
                    assert(after[k + 1] == t);
                }
            }
            if t == text {
                assert(after[at as int] == t);
            }
            if after.contains(t) {
                let k = choose|k: int| 0 <= k < after.len() && after[k] == t;
                if k < at {
                    assert(before[k] == t);
                } else if k > at {
                    assert(before[k - 1] == t);
                }
            }
        }
    }
}

/// The distinct texts of a list, in character order.
pub fn sorted_distinct(v: Vec<String>) -> (r: Vec<String>)
    ensures
        strictly_increasing(texts(r@)),
        forall|t: Seq<char>| #![auto] texts(r@).contains(t) <==> texts(v@).contains(t),
{
    let mut out: Vec<String> = Vec::new();
    let mut i: usize = 0;
    while i < v.len()
        invariant
            i <= v.len(),
            strictly_increasing(texts(out@)),
            forall|t: Seq<char>|
                #![auto]
                texts(out@).contains(t) <==> texts(v@).take(i as int).contains(t),
        decreases v.len() - i,
    {
        let ghost seen = texts(v@).take(i as int);
        let ghost next = texts(v@).take(i + 1);
        insert_in_order(&mut out, v[i].clone());
        proof {
            assert(next =~= seen.push(v@[i as int]@));
            assert forall|t: Seq<char>|
                #![auto]
                next.contains(t) <==> seen.contains(t) || t == v@[i as int]@ by {
                if seen.contains(t) {
                    let k = choose|k: int| 0 <= k < seen.len() && seen[k] == t;
                    assert(next[k] == t);
                }
                if t == v@[i as int]@ {
                    assert(next[i as int] == t);
                }
            }
        }
        i = i + 1;
    }
    assert(texts(v@).take(v.len() as int) =~= texts(v@));
    out
}

/// Two strictly increasing lists that hold the same texts are the same list.
pub proof fn lemma_sorted_distinct_unique(a: Seq<Seq<char>>, b: Seq<Seq<char>>)
    requires
        strictly_increasing(a),
        strictly_increasing(b),
        forall|t: Seq<char>| a.contains(t) <==> b.contains(t),
    ensures
        a == b,
    decreases a.len(),
{
    if a.len() == 0 {
        if b.len() > 0 {
            assert(b.contains(b[0]));
        }
        assert(a =~= b);
    } else {
        assert(a.contains(a.last()));
        assert(b.len() > 0);
        let p = choose|p: int| 0 <= p < b.len() && b[p] == a.last();
        assert(b.contains(b.last()));
        let q = choose|q: int| 0 <= q < a.len() && a[q] == b.last();
        if a.last() != b.last() {
            assert(precedes(b[p], b[b.len() - 1]));
            assert(precedes(a[q], a[a.len() - 1]));
            lemma_precedes_transitive(a.last(), b.last(), a.last());
            lemma_precedes_irreflexive(a.last());
        }
        assert forall|t: Seq<char>| a.drop_last().contains(t) <==> b.drop_last().contains(t) by {
            lemma_drop_last_contains(a, t);
            lemma_drop_last_contains(b, t);
        }
        lemma_sorted_distinct_unique(a.drop_last(), b.drop_last());
        assert(a =~= a.drop_last().push(a.last()));
        assert(b =~= b.drop_last().push(b.last()));
    }
}

proof fn lemma_drop_last_contains(a: Seq<Seq<char>>, t: Seq<char>)
    requires
        a.len() > 0,
        strictly_increasing(a),
    ensures
        a.drop_last().contains(t) <==> a.contains(t) && t != a.last(),
{
    if a.drop_last().contains(t) {
        let k = choose|k: int| 0 <= k < a.drop_last().len() && a.drop_last()[k] == t;
        assert(a[k] == t);
        assert(precedes(a[k], a[a.len() - 1]));
        lemma_precedes_irreflexive(t);
    }
    if a.contains(t) && t != a.last() {
        let k = choose|k: int| 0 <= k < a.len() && a[k] == t;
        assert(a.drop_last()[k] == t);
    }
}

// ---------------------------------------------------------------------------
// Pieces
// ---------------------------------------------------------------------------
/// The pieces of a text between separators.
pub open spec fn pieces(s: Seq<char>, separator: char) -> Seq<Seq<char>>
    decreases s.len(),
{
    if s.len() == 0 {
        seq![seq![]]
    } else {
        let before = pieces(s.drop_last(), separator);
        if s.last() == separator {
            before.push(seq![])
        } else {
            before.drop_last().push(before.last().push(s.last()))
        }
    }
}

/// What a list of character lists holds.
pub open spec fn char_lists(v: Seq<Vec<char>>) -> Seq<Seq<char>> {
    v.map_values(|piece: Vec<char>| piece@)
}

/// The pieces of a text between separators.
pub fn split(s: &Vec<char>, separator: char) -> (r: Vec<Vec<char>>)
    ensures
        char_lists(r@) == pieces(s@, separator),
{
    let mut done: Vec<Vec<char>> = Vec::new();
    let mut current: Vec<char> = Vec::new();
    let mut i: usize = 0;
    assert(char_lists(done@).push(current@) =~= pieces(s@.take(0), separator));
    while i < s.len()
        invariant
            i <= s.len(),
            char_lists(done@).push(current@) == pieces(s@.take(i as int), separator),
        decreases s.len() - i,
    {
        let ghost before = char_lists(done@);
        let ghost piece = current@;
        assert(s@.take(i + 1).drop_last() =~= s@.take(i as int));
        assert(before.push(piece).drop_last() =~= before);
        if s[i] == separator {
            done.push(current);
            assert(char_lists(done@) =~= before.push(piece));
            current = Vec::new();
            assert(current@ =~= seq![]);
        } else {
            current.push(s[i]);
        }
        i = i + 1;
    }
    assert(s@.take(s.len() as int) =~= s@);
    let ghost before = char_lists(done@);
    let ghost piece = current@;
    done.push(current);
    assert(char_lists(done@) =~= before.push(piece));
    done
}

} // verus!
