//! Text helpers: decimal numbers, trimming, ASCII case.

pub mod laws;

use vstd::prelude::*;
use vstd::string::{StrSliceExecFns, StringExecFns};

verus! {

// ── Decimal numbers ───────────────────────────────────────────────────────────────────

/// The decimal digit `d`.
pub open spec fn digit(d: nat) -> char {
    (48 + d) as char
}

/// A number in decimal, without leading zeros.
pub open spec fn decimal(n: nat) -> Seq<char>
    decreases n,
{
    if n < 10 {
        seq![digit(n)]
    } else {
        decimal(n / 10).push(digit(n % 10))
    }
}

fn digit_str(d: u32) -> (r: &'static str)
    requires
        d < 10,
    ensures
        r@ == seq![digit(d as nat)],
{
    proof {
        reveal_strlit("0");
        reveal_strlit("1");
        reveal_strlit("2");
        reveal_strlit("3");
        reveal_strlit("4");
        reveal_strlit("5");
        reveal_strlit("6");
        reveal_strlit("7");
        reveal_strlit("8");
        reveal_strlit("9");
    }
    let r: &'static str = match d {
        0 => "0",
        1 => "1",
        2 => "2",
        3 => "3",
        4 => "4",
        5 => "5",
        6 => "6",
        7 => "7",
        8 => "8",
        _ => "9",
    };
    assert(r@ =~= seq![digit(d as nat)]);
    r
}

/// Append a number in decimal.
pub fn push_decimal(s: &mut String, n: u32)
    ensures
        final(s)@ == old(s)@ + decimal(n as nat),
    decreases n,
{
    if n >= 10 {
        push_decimal(s, n / 10);
    }
    s.append(digit_str(n % 10));
    assert(s@ =~= old(s)@ + decimal(n as nat));
}

// ── Trimming ──────────────────────────────────────────────────────────────────────────

/// Unicode white space.
pub open spec fn is_white(c: char) -> bool {
    ||| 0x9 <= c as u32 <= 0xd
    ||| c as u32 == 0x20
    ||| c as u32 == 0x85
    ||| c as u32 == 0xa0
    ||| c as u32 == 0x1680
    ||| 0x2000 <= c as u32 <= 0x200a
    ||| c as u32 == 0x2028
    ||| c as u32 == 0x2029
    ||| c as u32 == 0x202f
    ||| c as u32 == 0x205f
    ||| c as u32 == 0x3000
}

pub fn white(c: char) -> (b: bool)
    ensures
        b == is_white(c),
{
    let u: u32 = c as u32;
    (0x9 <= u && u <= 0xd) || u == 0x20 || u == 0x85 || u == 0xa0 || u == 0x1680 || (0x2000 <= u
        && u <= 0x200a) || u == 0x2028 || u == 0x2029 || u == 0x202f || u == 0x205f || u == 0x3000
}

/// Without leading white space.
pub open spec fn trimmed_start(s: Seq<char>) -> Seq<char>
    decreases s.len(),
{
    if s.len() > 0 && is_white(s[0]) {
        trimmed_start(s.skip(1))
    } else {
        s
    }
}

/// Without trailing white space.
pub open spec fn trimmed_end(s: Seq<char>) -> Seq<char>
    decreases s.len(),
{
    if s.len() > 0 && is_white(s.last()) {
        trimmed_end(s.drop_last())
    } else {
        s
    }
}

/// Without white space at either end.
pub open spec fn trimmed(s: Seq<char>) -> Seq<char> {
    trimmed_end(trimmed_start(s))
}

/// Without white space at either end.
pub fn trim<'a>(s: &'a str) -> (t: &'a str)
    ensures
        t@ == trimmed(s@),
{
    let len: usize = s.unicode_len();
    let mut from: usize = 0;
    assert(s@.skip(0) =~= s@);
    while from < len && white(s.get_char(from))
        invariant
            from <= len,
            len == s@.len(),
            trimmed_start(s@) == trimmed_start(s@.skip(from as int)),
        decreases len - from,
    {
        assert(s@.skip(from as int).skip(1) =~= s@.skip(from + 1));
        from = from + 1;
    }
    assert(trimmed_start(s@) == s@.skip(from as int));
    let mut to: usize = len;
    assert(s@.subrange(from as int, to as int) =~= s@.skip(from as int));
    while from < to && white(s.get_char(to - 1))
        invariant
            from <= to <= len,
            len == s@.len(),
            trimmed(s@) == trimmed_end(s@.subrange(from as int, to as int)),
        decreases to,
    {
        assert(s@.subrange(from as int, to as int).drop_last() =~= s@.subrange(
            from as int,
            to - 1,
        ));
        to = to - 1;
    }
    s.substring_char(from, to)
}

/// What is trimmed has no white space at either end.
pub proof fn lemma_trimmed(s: Seq<char>)
    ensures
        trimmed(s).len() > 0 ==> !is_white(trimmed(s)[0]) && !is_white(trimmed(s).last()),
        trimmed(trimmed(s)) == trimmed(s),
        trimmed(s).len() <= s.len(),
{
    lemma_trimmed_start(s);
    lemma_trimmed_end(trimmed_start(s));
}

proof fn lemma_trimmed_start(s: Seq<char>)
    ensures
        trimmed_start(s).len() > 0 ==> !is_white(trimmed_start(s)[0]),
        trimmed_start(s).len() <= s.len(),
    decreases s.len(),
{
    if s.len() > 0 && is_white(s[0]) {
        lemma_trimmed_start(s.skip(1));
    }
}

proof fn lemma_trimmed_end(s: Seq<char>)
    ensures
        trimmed_end(s).len() > 0 ==> !is_white(trimmed_end(s).last()) && trimmed_end(s)[0] == s[0],
        trimmed_end(s).len() <= s.len(),
    decreases s.len(),
{
    if s.len() > 0 && is_white(s.last()) {
        lemma_trimmed_end(s.drop_last());
    }
}

// ── ASCII case ────────────────────────────────────────────────────────────────────────

/// An ASCII capital as its small letter, any other character as it is.
pub open spec fn lower(c: char) -> char {
    if 65 <= c as u32 <= 90 {
        (c as u32 + 32) as char
    } else {
        c
    }
}

/// With small letters for the ASCII capitals.
pub open spec fn lowered(s: Seq<char>) -> Seq<char> {
    s.map_values(|c: char| lower(c))
}

fn lower_code(c: char) -> (u: u32)
    ensures
        u == lower(c) as u32,
{
    let u: u32 = c as u32;
    if 65 <= u && u <= 90 {
        u + 32
    } else {
        u
    }
}

/// Whether two texts are the same but for ASCII case.
pub fn same_but_case(a: &str, b: &str) -> (same: bool)
    ensures
        same == (lowered(a@) == lowered(b@)),
{
    let len: usize = a.unicode_len();
    if len != b.unicode_len() {
        assert(lowered(a@).len() != lowered(b@).len());
        return false;
    }
    let mut i: usize = 0;
    while i < len
        invariant
            i <= len,
            len == a@.len(),
            len == b@.len(),
            forall|j: int| 0 <= j < i ==> lower(#[trigger] a@[j]) == lower(b@[j]),
        decreases len - i,
    {
        if lower_code(a.get_char(i)) != lower_code(b.get_char(i)) {
            assert(lowered(a@)[i as int] != lowered(b@)[i as int]);
            return false;
        }
        i = i + 1;
    }
    assert(lowered(a@) =~= lowered(b@));
    true
}

/// Whether two texts are the same.
pub fn same(a: &str, b: &str) -> (same: bool)
    ensures
        same == (a@ == b@),
{
    let len: usize = a.unicode_len();
    if len != b.unicode_len() {
        return false;
    }
    let mut i: usize = 0;
    while i < len
        invariant
            i <= len,
            len == a@.len(),
            len == b@.len(),
            forall|j: int| 0 <= j < i ==> #[trigger] a@[j] == b@[j],
        decreases len - i,
    {
        if a.get_char(i) != b.get_char(i) {
            return false;
        }
        i = i + 1;
    }
    assert(a@ =~= b@);
    true
}

/// The ASCII small letter of a capital.
fn small_letter(c: char) -> (r: &'static str)
    requires
        65 <= c as u32 <= 90,
    ensures
        r@ == seq![lower(c)],
{
    let letters: &'static str = "abcdefghijklmnopqrstuvwxyz";
    proof {
        reveal_strlit("abcdefghijklmnopqrstuvwxyz");
    }
    let k: usize = (c as u32 - 65) as usize;
    let r: &'static str = letters.substring_char(k, k + 1);
    assert(r@ =~= seq![letters@[k as int]]);
    assert(letters@[k as int] == lower(c)) by {
        lemma_letters(k as int);
    }
    r
}

proof fn lemma_letters(k: int)
    requires
        0 <= k < 26,
    ensures
        "abcdefghijklmnopqrstuvwxyz"@.len() == 26,
        "abcdefghijklmnopqrstuvwxyz"@[k] as u32 == 97 + k,
{
    reveal_strlit("abcdefghijklmnopqrstuvwxyz");
}

/// With small letters for the ASCII capitals.
pub fn to_lower(s: &str) -> (r: String)
    ensures
        r@ == lowered(s@),
{
    let len: usize = s.unicode_len();
    let mut r: String = String::new();
    let mut i: usize = 0;
    while i < len
        invariant
            i <= len,
            len == s@.len(),
            r@ == lowered(s@).take(i as int),
        decreases len - i,
    {
        let c: char = s.get_char(i);
        let ghost before = r@;
        if 65 <= c as u32 && c as u32 <= 90 {
            r.append(small_letter(c));
        } else {
            r.append(s.substring_char(i, i + 1));
        }
        assert(r@ =~= before.push(lower(c)));
        assert(r@ =~= lowered(s@).take(i + 1));
        i = i + 1;
    }
    assert(lowered(s@).take(len as int) =~= lowered(s@));
    r
}

/// What is lowered has no capitals left.
pub proof fn lemma_lowered_twice(s: Seq<char>)
    ensures
        lowered(lowered(s)) == lowered(s),
{
    assert(lowered(lowered(s)) =~= lowered(s));
}

// ── Searching ─────────────────────────────────────────────────────────────────────────

/// Where `c` first occurs.
pub fn find(s: &str, c: char) -> (at: Option<usize>)
    ensures
        match at {
            Some(i) => i < s@.len() && s@[i as int] == c && !s@.take(i as int).contains(c),
            None => !s@.contains(c),
        },
{
    let len: usize = s.unicode_len();
    let mut i: usize = 0;
    while i < len
        invariant
            i <= len,
            len == s@.len(),
            forall|j: int| 0 <= j < i ==> s@[j] != c,
        decreases len - i,
    {
        if s.get_char(i) == c {
            return Some(i);
        }
        i = i + 1;
    }
    None
}

/// An occurrence with none before it is the first one.
pub proof fn lemma_first(s: Seq<char>, c: char, i: int)
    requires
        0 <= i < s.len(),
        s[i] == c,
        !s.take(i).contains(c),
    ensures
        s.contains(c),
        s.index_of_first(c) == Some(i),
{
    s.index_of_first_ensures(c);
    let k = s.index_of_first(c)->0;
    if k < i {
        assert(s.take(i)[k] == c);
    }
}

// ── Reading decimal numbers ───────────────────────────────────────────────────────────

pub open spec fn is_digit(c: char) -> bool {
    48 <= c as u32 <= 57
}

/// The number that decimal digits stand for.
pub open spec fn digits_value(s: Seq<char>) -> int
    decreases s.len(),
{
    if s.len() == 0 {
        0
    } else {
        10 * digits_value(s.drop_last()) + (s.last() as u32 - 48)
    }
}

/// A text is a number: digits, at least one, after an optional `+`.
pub open spec fn digits_of(s: Seq<char>) -> Seq<char> {
    if s.len() > 0 && s[0] == '+' {
        s.skip(1)
    } else {
        s
    }
}

/// The number that a text says, if it is one of at most `max`.
pub open spec fn number(s: Seq<char>, max: int) -> Option<int> {
    let d = digits_of(s);
    if d.len() > 0 && (forall|i: int| 0 <= i < d.len() ==> is_digit(#[trigger] d[i]))
        && digits_value(d) <= max {
        Some(digits_value(d))
    } else {
        None
    }
}

/// More digits do not make a number smaller.
proof fn lemma_value_grows(s: Seq<char>, k: int)
    requires
        0 <= k <= s.len(),
        forall|i: int| 0 <= i < s.len() ==> is_digit(#[trigger] s[i]),
    ensures
        digits_value(s.take(k)) <= digits_value(s),
    decreases s.len() - k,
{
    if k < s.len() {
        lemma_value_grows(s, k + 1);
        lemma_value_is_natural(s.take(k));
        assert(s.take(k + 1).drop_last() =~= s.take(k));
        assert(is_digit(s[k]));
    } else {
        assert(s.take(k) =~= s);
    }
}

proof fn lemma_value_is_natural(s: Seq<char>)
    requires
        forall|i: int| 0 <= i < s.len() ==> is_digit(#[trigger] s[i]),
    ensures
        0 <= digits_value(s),
    decreases s.len(),
{
    if s.len() > 0 {
        assert(is_digit(s[s.len() - 1]));
        assert forall|i: int| 0 <= i < s.drop_last().len() implies is_digit(
            #[trigger] s.drop_last()[i],
        ) by {
            assert(is_digit(s[i]));
        }
        lemma_value_is_natural(s.drop_last());
    }
}

/// The number that a text says, if it is one of at most `max`.
pub fn parse_number(s: &str, max: u32) -> (n: Option<u32>)
    ensures
        match n {
            Some(x) => number(s@, max as int) == Some(x as int),
            None => number(s@, max as int) is None,
        },
{
    let all: usize = s.unicode_len();
    let digits: &str = if all > 0 && s.get_char(0) == '+' {
        s.substring_char(1, all)
    } else {
        s
    };
    assert(digits@ =~= digits_of(s@));
    let len: usize = digits.unicode_len();
    if len == 0 {
        return None;
    }
    let mut value: u64 = 0;
    let mut i: usize = 0;
    assert(digits@.take(0).len() == 0);
    while i < len
        invariant
            i <= len,
            len == digits@.len(),
            digits@ == digits_of(s@),
            value <= max,
            value == digits_value(digits@.take(i as int)),
            forall|j: int| 0 <= j < i ==> is_digit(#[trigger] digits@[j]),
        decreases len - i,
    {
        let c: char = digits.get_char(i);
        let u: u32 = c as u32;
        if u < 48 || u > 57 {
            assert(!is_digit(digits@[i as int]));
            return None;
        }
        assert(digits@.take(i + 1).drop_last() =~= digits@.take(i as int));
        value = 10 * value + (u - 48) as u64;
        assert(value == digits_value(digits@.take(i + 1)));
        if value > max as u64 {
            proof {
                if forall|j: int| 0 <= j < len ==> is_digit(#[trigger] digits@[j]) {
                    lemma_value_grows(digits@, i + 1);
                }
            }
            return None;
        }
        i = i + 1;
    }
    assert(digits@.take(len as int) =~= digits@);
    Some(value as u32)
}

} // verus!
