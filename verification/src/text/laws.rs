//! What the text helpers promise.

use crate::text;
use vstd::prelude::*;

verus! {

/// Spaces, tabs and line ends are white space, and so are the wider ones of Unicode (the no-break
/// space, the em and en spaces, the ideographic space and their like); the printable characters of
/// ASCII and of Latin-1 are not, nor is anything above the ideographic space.
pub proof fn law_what_is_white(c: char)
    ensures
        c == ' ' || c == '\t' || c == '\n' || c == '\r' || c == '\u{b}' || c == '\u{c}'
            ==> text::is_white(c),
        c == '\u{85}' || c == '\u{a0}' || c == '\u{1680}' || '\u{2000}' as u32 <= c as u32
            <= '\u{200a}' as u32 || c == '\u{2028}' || c == '\u{2029}' || c == '\u{202f}' || c
            == '\u{205f}' || c == '\u{3000}' ==> text::is_white(c),
        '!' as u32 <= c as u32 <= '~' as u32 ==> !text::is_white(c),
        '\u{a1}' as u32 <= c as u32 <= '\u{ff}' as u32 ==> !text::is_white(c),
        c as u32 > '\u{3000}' as u32 ==> !text::is_white(c),
{
}

/// `t` is `s` without the white space at its ends: what is cut off is white, and what is left
/// neither starts nor ends so.
pub open spec fn is_trimmed(s: Seq<char>, t: Seq<char>, from: int, to: int) -> bool {
    &&& 0 <= from <= to <= s.len()
    &&& t == s.subrange(from, to)
    &&& forall|i: int| 0 <= i < from ==> text::is_white(#[trigger] s[i])
    &&& forall|i: int| to <= i < s.len() ==> text::is_white(#[trigger] s[i])
    &&& t.len() > 0 ==> !text::is_white(t[0]) && !text::is_white(t.last())
}

/// Trimming takes the white space at both ends and nothing else.
pub proof fn law_trimming_takes_the_ends(s: Seq<char>)
    ensures
        exists|from: int, to: int| is_trimmed(s, text::trimmed(s), from, to),
{
    let from = lemma_start(s);
    let rest = s.skip(from);
    let len = lemma_end(rest);
    text::lemma_trimmed(s);
    assert(text::trimmed(s) =~= s.subrange(from, from + len));
    assert forall|i: int| from + len <= i < s.len() implies text::is_white(#[trigger] s[i]) by {
        assert(rest[i - from] == s[i]);
    }
    assert(is_trimmed(s, text::trimmed(s), from, from + len));
}

proof fn lemma_start(s: Seq<char>) -> (from: int)
    ensures
        0 <= from <= s.len(),
        text::trimmed_start(s) == s.skip(from),
        forall|i: int| 0 <= i < from ==> text::is_white(#[trigger] s[i]),
    decreases s.len(),
{
    if s.len() > 0 && text::is_white(s[0]) {
        let rest = s.skip(1);
        let from = lemma_start(rest);
        assert(rest.skip(from) =~= s.skip(from + 1));
        assert forall|i: int| 0 <= i < from + 1 implies text::is_white(#[trigger] s[i]) by {
            if i > 0 {
                assert(rest[i - 1] == s[i]);
            }
        }
        from + 1
    } else {
        assert(s.skip(0) =~= s);
        0
    }
}

proof fn lemma_end(s: Seq<char>) -> (len: int)
    ensures
        0 <= len <= s.len(),
        text::trimmed_end(s) == s.take(len),
        forall|i: int| len <= i < s.len() ==> text::is_white(#[trigger] s[i]),
    decreases s.len(),
{
    if s.len() > 0 && text::is_white(s.last()) {
        let init = s.drop_last();
        let len = lemma_end(init);
        assert(init.take(len) =~= s.take(len));
        assert forall|i: int| len <= i < s.len() implies text::is_white(#[trigger] s[i]) by {
            if i < init.len() {
                assert(init[i] == s[i]);
            }
        }
        len
    } else {
        assert(s.take(s.len() as int) =~= s);
        s.len() as int
    }
}

/// A text without white space at its ends is as it is when trimmed.
pub proof fn law_nothing_to_trim(s: Seq<char>)
    requires
        s.len() > 0 ==> !text::is_white(s[0]) && !text::is_white(s.last()),
    ensures
        text::trimmed(s) == s,
{
}

/// Lowering changes the capitals A to Z to a to z and nothing else.
pub proof fn law_lowering_changes_capitals(s: Seq<char>)
    ensures
        text::lowered(s).len() == s.len(),
        forall|i: int|
            0 <= i < s.len() ==> (#[trigger] text::lowered(s)[i]) as u32 == (if 'A' as u32
                <= s[i] as u32 <= 'Z' as u32 {
                s[i] as u32 + 32
            } else {
                s[i] as int
            }),
{
}

/// A number in decimal reads back as that number, if it is not over the limit.
pub proof fn law_decimals_read_back(n: nat, max: int)
    ensures
        text::number(text::decimal(n), max) == (if n <= max {
            Some(n as int)
        } else {
            None
        }),
        text::decimal(n).len() >= 1,
        n > 0 ==> text::decimal(n)[0] != '0',
        text::decimal(0) == seq!['0'],
{
    lemma_decimal(n);
    let d = text::decimal(n);
    assert(text::is_digit(d[0]));
    assert(text::digits_of(d) == d);
}

pub(crate) proof fn lemma_decimal(n: nat)
    ensures
        text::digits_value(text::decimal(n)) == n,
        forall|i: int|
            0 <= i < text::decimal(n).len() ==> text::is_digit(#[trigger] text::decimal(n)[i]),
        text::decimal(n).len() >= 1,
        n > 0 ==> text::decimal(n)[0] != '0',
    decreases n,
{
    let d = text::decimal(n);
    reveal_with_fuel(text::digits_value, 2);
    if n < 10 {
        assert(d.drop_last() =~= Seq::empty());
    } else {
        lemma_decimal(n / 10);
        assert(d.drop_last() =~= text::decimal(n / 10));
        assert forall|i: int| 0 <= i < d.len() implies text::is_digit(#[trigger] d[i]) by {
            if i < d.len() - 1 {
                assert(d[i] == text::decimal(n / 10)[i]);
            }
        }
        assert(d[0] == text::decimal(n / 10)[0]);
    }
}

/// A text says a number only if it is one or more digits, after a `+` or not.
pub proof fn law_only_digits_are_a_number(s: Seq<char>, max: int, i: int)
    ensures
        s.len() == 0 ==> text::number(s, max) is None,
        s == seq!['+'] ==> text::number(s, max) is None,
        0 <= i < s.len() && !('0' as u32 <= s[i] as u32 <= '9' as u32) && !(i == 0 && s[0] == '+')
            ==> text::number(s, max) is None,
        text::number(s, max) matches Some(x) ==> x <= max,
{
    let d = text::digits_of(s);
    if 0 <= i < s.len() && !('0' as u32 <= s[i] as u32 <= '9' as u32) && !(i == 0 && s[0] == '+') {
        if s[0] == '+' {
            assert(d[i - 1] == s[i]);
        } else {
            assert(d[i] == s[i]);
        }
    }
}

} // verus!
