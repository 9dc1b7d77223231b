//! Reading one attribute: trimming its line terminator, and interpreting its
//! text as a sector count or as a read-only flag.
use vstd::prelude::*;

verus! {

/// The text of an attribute file once its single trailing line terminator is
/// removed; an empty file holds no value.
pub open spec fn trimmed(s: Seq<char>) -> Option<Seq<char>> {
    if s.len() == 0 {
        None
    } else if s.last() == '\n' {
        Some(s.drop_last())
    } else {
        Some(s)
    }
}

/// The value of an attribute whose raw contents are `raw`, where `None`
/// stands for a file that could not be read.
pub open spec fn text_of(raw: Option<Seq<char>>) -> Option<Seq<char>> {
    match raw {
        Some(s) => trimmed(s),
        None => None,
    }
}

pub open spec fn is_digit(c: char) -> bool {
    '0' <= c && c <= '9'
}

pub open spec fn digit_value(c: char) -> nat {
    (c as u32 - '0' as u32) as nat
}

pub open spec fn all_digits(s: Seq<char>) -> bool {
    forall|i: int| 0 <= i < s.len() ==> is_digit(#[trigger] s[i])
}

/// The number that a string of decimal digits denotes.
pub open spec fn decimal_value(s: Seq<char>) -> nat
    decreases s.len(),
{
    if s.len() == 0 {
        0
    } else {
        decimal_value(s.drop_last()) * 10 + digit_value(s.last())
    }
}

/// The digits of a count, after an optional leading plus sign.
pub open spec fn unsigned_part(s: Seq<char>) -> Seq<char> {
    if s.len() > 0 && s[0] == '+' {
        s.drop_first()
    } else {
        s
    }
}

/// The count that a text denotes: one or more decimal digits, optionally
/// after a plus sign, whose value fits in a `usize`.
pub open spec fn count_value(s: Seq<char>) -> Option<nat> {
    let d = unsigned_part(s);
    if d.len() > 0 && all_digits(d) && decimal_value(d) <= usize::MAX {
        Some(decimal_value(d))
    } else {
        None
    }
}

/// The count held by an attribute with raw contents `raw`.
pub open spec fn count_of(raw: Option<Seq<char>>) -> Option<nat> {
    match text_of(raw) {
        Some(t) => count_value(t),
        None => None,
    }
}

/// A read-only flag is set exactly when the attribute's text is `1`.
pub open spec fn flag_of(raw: Option<Seq<char>>) -> bool {
    text_of(raw) == Some(seq!['1'])
}

pub open spec fn opt_view(raw: Option<String>) -> Option<Seq<char>> {
    match raw {
        Some(s) => Some(s@),
        None => None,
    }
}

/// Adding digits never makes a decimal number smaller.
proof fn lemma_prefix_value_le(s: Seq<char>, j: int)
    requires
        0 <= j <= s.len(),
    ensures
        decimal_value(s.subrange(0, j)) <= decimal_value(s),
    decreases s.len(),
{
    if j < s.len() {
        let p = s.drop_last();
        assert(p.subrange(0, j) =~= s.subrange(0, j));
        lemma_prefix_value_le(p, j);
    } else {
        assert(s.subrange(0, j) =~= s);
    }
}

/// Removes the single trailing line terminator of an attribute's text; an
/// empty text gives no value.
pub fn trim_terminator(raw: &str) -> (r: Option<&str>)
    ensures
        match r {
            Some(t) => trimmed(raw@) == Some(t@),
            None => trimmed(raw@) is None,
        },
{
    let n = raw.unicode_len();
    if n == 0 {
        None
    } else if raw.get_char(n - 1) == '\n' {
        let t = raw.substring_char(0, n - 1);
        assert(t@ =~= raw@.drop_last());
        Some(t)
    } else {
        Some(raw)
    }
}

/// Parses a text as a count: decimal digits, optionally after a plus sign.
/// Gives no value for any other text, or for a count that overflows `usize`.
pub fn parse_count(text: &str) -> (r: Option<usize>)
    ensures
        match r {
            Some(v) => count_value(text@) == Some(v as nat),
            None => count_value(text@) is None,
        },
{
    let n = text.unicode_len();
    let mut start: usize = 0;
    if n > 0 && text.get_char(0) == '+' {
        start = 1;
    }
    if start >= n {
        return None;
    }
    let ghost d = unsigned_part(text@);
    assert(d =~= text@.subrange(start as int, n as int));
    let mut acc: usize = 0;
    let mut i: usize = start;
    while i < n
        invariant
            start <= i <= n,
            n == text@.len(),
            d == text@.subrange(start as int, n as int),
            d == unsigned_part(text@),
            all_digits(d.subrange(0, i - start)),
            acc as nat == decimal_value(d.subrange(0, i - start)),
        decreases n - i,
    {
        let c = text.get_char(i);
        if c < '0' || c > '9' {
            assert(!is_digit(d[i - start]));
            return None;
        }
        let ghost prefix = d.subrange(0, i + 1 - start);
        assert(prefix.drop_last() =~= d.subrange(0, i - start));
        assert(prefix.last() == c);
        let digit = (c as u32 - '0' as u32) as usize;
        assert(decimal_value(prefix) == acc * 10 + digit);
        match acc.checked_mul(10) {
            Some(m) => match m.checked_add(digit) {
                Some(v) => {
                    acc = v;
                },
                None => {
                    proof {
                        lemma_prefix_value_le(d, i + 1 - start);
                    }
                    return None;
                },
            },
            None => {
                proof {
                    lemma_prefix_value_le(d, i + 1 - start);
                }
                return None;
            },
        }
        i = i + 1;
    }
    assert(d.subrange(0, n - start) =~= d);
    Some(acc)
}

/// The text of an attribute whose raw contents are `raw` (`None` where the
/// file could not be read), without its trailing line terminator.
pub fn attribute_text(raw: &Option<String>) -> (r: Option<&str>)
    ensures
        match r {
            Some(t) => text_of(opt_view(*raw)) == Some(t@),
            None => text_of(opt_view(*raw)) is None,
        },
{
    match raw {
        Some(s) => trim_terminator(s.as_str()),
        None => None,
    }
}

/// The count held by an attribute, if it is readable and well formed.
pub fn read_count(raw: &Option<String>) -> (r: Option<usize>)
    ensures
        match r {
            Some(v) => count_of(opt_view(*raw)) == Some(v as nat),
            None => count_of(opt_view(*raw)) is None,
        },
{
    match attribute_text(raw) {
        Some(t) => parse_count(t),
        None => None,
    }
}

/// Whether an attribute holds the set read-only flag `1`; an unreadable or
/// empty attribute, or any other text, reads as not set.
pub fn read_flag(raw: &Option<String>) -> (r: bool)
    ensures
        r == flag_of(opt_view(*raw)),
{
    match attribute_text(raw) {
        Some(t) => {
            let set = t.unicode_len() == 1 && t.get_char(0) == '1';
            if set {
                assert(t@ =~= seq!['1']);
            }
            set
        },
        None => false,
    }
}

} // verus!
