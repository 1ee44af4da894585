//! When a collection is triggered.

use crate::util::text;
use crate::util::text::{decimal_string, is_ascii, parse_unsigned, strip_prefix};
use vstd::prelude::*;
use vstd::string::*;

verus! {

/// What triggers a collection.
#[derive(Copy, Clone, Debug, PartialEq, Eq, Structural)]
pub enum GCTriggerSelector {
    /// A heap of this many bytes is full.
    FixedHeapSize(usize),
    /// A heap whose size varies between two bounds, in bytes, is full.
    DynamicHeapSize(usize, usize),
    /// The virtual machine decides.
    Delegated,
}

/// What `str::to_lowercase` returns: the text in lower case, as Unicode defines
/// it.
pub uninterp spec fn lowercase_of(s: Seq<char>) -> Seq<char>;

/// What `char::is_alphabetic` returns: whether Unicode counts the character as
/// alphabetic.
pub uninterp spec fn is_alphabetic(c: char) -> bool;

/// What formatting a text with `{:?}` gives: the text in quotes, with what needs
/// it escaped.
pub uninterp spec fn debug_of(s: Seq<char>) -> Seq<char>;

/// What `regex::Regex::captures` finds: the text that the group of that name
/// captures in the leftmost match of the pattern, where there is one.
pub uninterp spec fn captured_of(pattern: Seq<char>, group: Seq<char>, s: Seq<char>) -> Option<
    Seq<char>,
>;

/// The character in lower case, if it is an ASCII letter.
pub open spec fn ascii_lower_char(c: char) -> char {
    if 'A' <= c && c <= 'Z' {
        (c as u32 + 32) as char
    } else {
        c
    }
}

/// The text with its ASCII letters in lower case.
pub open spec fn ascii_lower(s: Seq<char>) -> Seq<char> {
    Seq::new(s.len(), |i: int| ascii_lower_char(s[i]))
}

/// Whether the character is an ASCII letter.
pub open spec fn is_ascii_letter(c: char) -> bool {
    ('a' <= c && c <= 'z') || ('A' <= c && c <= 'Z')
}

/// `str::to_lowercase`: the text in lower case. Of a text of ASCII characters
/// just the letters change, each to its own lower case.
#[verifier::external_body]
pub(crate) fn to_lowercase(s: &str) -> (r: String)
    ensures
        r@ == lowercase_of(s@),
        text::is_ascii_text(s@) ==> r@ == ascii_lower(s@),
{
    s.to_lowercase()
}

/// `char::is_alphabetic`. Of the ASCII characters just the letters are
/// alphabetic.
#[verifier::external_body]
fn char_is_alphabetic(c: char) -> (r: bool)
    ensures
        r == is_alphabetic(c),
        (c as u32) < 128 ==> r == is_ascii_letter(c),
{
    c.is_alphabetic()
}

/// Whether the character stands for itself in a quoted text.
pub open spec fn is_plain(c: char) -> bool {
    ' ' <= c && c <= '~' && c != '"' && c != '\\'
}

/// Formatting a text with `{:?}`. Printable ASCII characters other than the
/// double quote and the backslash stand for themselves between the quotes.
#[verifier::external_body]
fn debug_string(s: &str) -> (r: String)
    ensures
        r@ == debug_of(s@),
        (forall|i: int| 0 <= i < s@.len() ==> is_plain(#[trigger] s@[i])) ==> r@ == seq!['"'] + s@
            + seq!['"'],
{
    format!("{:?}", s)
}

/// The pattern of a heap of fixed size.
pub open spec fn fixed_pattern() -> Seq<char> {
    "^FixedHeapSize:(?P<size>\\d+[kKmMgGtT]?)$"@
}

/// The pattern of a heap whose size varies.
pub open spec fn dynamic_pattern() -> Seq<char> {
    "^DynamicHeapSize:(?P<min>\\d+[kKmMgGtT]?),(?P<max>\\d+[kKmMgGtT]?)$"@
}

/// Whether the character is a letter for a unit of size.
pub open spec fn is_unit(c: char) -> bool {
    c == 'k' || c == 'K' || c == 'm' || c == 'M' || c == 'g' || c == 'G' || c == 't' || c == 'T'
}

/// Whether the text is one or more ASCII digits, with a letter for a unit behind
/// them or not.
pub open spec fn is_size_text(s: Seq<char>) -> bool {
    let n = if s.len() > 0 && is_unit(s.last()) {
        s.len() - 1
    } else {
        s.len() as int
    };
    n > 0 && forall|i: int| 0 <= i < n ==> text::is_digit(#[trigger] s[i])
}

/// The size in a text that asks for a heap of fixed size.
pub open spec fn fixed_group(s: Seq<char>) -> Option<Seq<char>> {
    let rest = s.subrange("FixedHeapSize:"@.len() as int, s.len() as int);
    if text::begins_with(s, "FixedHeapSize:"@) && is_size_text(rest) {
        Some(rest)
    } else {
        None
    }
}

/// The two sizes in a text that asks for a heap whose size varies.
pub open spec fn dynamic_groups(s: Seq<char>) -> Option<(Seq<char>, Seq<char>)> {
    let rest = s.subrange("DynamicHeapSize:"@.len() as int, s.len() as int);
    let sizes = text::split_on(rest, ',');
    if text::begins_with(s, "DynamicHeapSize:"@) && sizes.len() == 2 && is_size_text(sizes[0])
        && is_size_text(sizes[1]) {
        Some((sizes[0], sizes[1]))
    } else {
        None
    }
}

/// What the groups of the two patterns capture in a text of ASCII characters.
pub open spec fn ascii_group(pattern: Seq<char>, group: Seq<char>, s: Seq<char>) -> Option<
    Seq<char>,
> {
    if pattern == fixed_pattern() {
        fixed_group(s)
    } else {
        match dynamic_groups(s) {
            None => None,
            Some(sizes) => if group == "min"@ {
                Some(sizes.0)
            } else {
                Some(sizes.1)
            },
        }
    }
}

/// The text of an optional string.
pub open spec fn text_of(s: Option<String>) -> Option<Seq<char>> {
    match s {
        Some(t) => Some(t@),
        None => None,
    }
}

/// `regex::Regex::captures`, and `regex::Captures::name` on what it finds: the
/// text that a group captures. In a text of ASCII characters the class of
/// digits holds the ten ASCII digits, so what the two patterns capture there is
/// stated outright. Elsewhere it holds the digits of every script.
#[verifier::external_body]
fn capture(pattern: &str, group: &str, s: &str) -> (r: Option<String>)
    requires
        (pattern@ == fixed_pattern() && group@ == "size"@) || (pattern@ == dynamic_pattern() && (
        group@ == "min"@ || group@ == "max"@)),
    ensures
        text_of(r) == captured_of(pattern@, group@, s@),
        text::is_ascii_text(s@) ==> text_of(r) == ascii_group(pattern@, group@, s@),
{
    let re = regex::Regex::new(pattern).unwrap();
    re.captures(s).and_then(|c| c.name(group).map(|m| m.as_str().to_owned()))
}

/// How many bytes a unit has.
pub open spec fn unit_size(c: char) -> Option<int> {
    if c == 'k' {
        Some(0x400)
    } else if c == 'm' {
        Some(0x10_0000)
    } else if c == 'g' {
        Some(0x4000_0000)
    } else if c == 't' {
        Some(0x100_0000_0000)
    } else {
        None
    }
}

/// The size that a text in lower case stands for, where sizes go up to `limit`:
/// a number, with a unit behind it where the text ends in a letter.
pub open spec fn size_of_lowercase(s: Seq<char>, in_letter: bool, limit: int) -> Result<
    int,
    Seq<char>,
> {
    if in_letter {
        match text::unsigned_of(s.drop_last(), u64::MAX as int) {
            Err(e) => Err(e.text()),
            Ok(num) => match unit_size(s.last()) {
                None => Err("Unknown size descriptor: \""@ + seq![s.last()] + "\""@),
                Some(unit) => if num * unit > u64::MAX {
                    Err("size overflow: "@ + s)
                } else if num * unit > limit {
                    Err("size overflow: "@ + text::decimal((num * unit) as nat))
                } else {
                    Ok(num * unit)
                },
            },
        }
    } else {
        match text::unsigned_of(s, limit) {
            Err(e) => Err(e.text()),
            Ok(n) => Ok(n),
        }
    }
}

/// Whether the text ends in a character that is alphabetic.
pub open spec fn ends_alphabetic(s: Seq<char>) -> bool {
    s.len() > 0 && is_alphabetic(s.last())
}

/// The size that the text stands for, where sizes go up to `limit`.
pub open spec fn size_of(s: Seq<char>, limit: int) -> Result<int, Seq<char>> {
    size_of_lowercase(lowercase_of(s), ends_alphabetic(lowercase_of(s)), limit)
}

/// The size that a text of ASCII characters stands for.
pub open spec fn ascii_size_of(s: Seq<char>, limit: int) -> Result<int, Seq<char>> {
    let lower = ascii_lower(s);
    size_of_lowercase(lower, lower.len() > 0 && is_ascii_letter(lower.last()), limit)
}

/// The size that a captured text stands for. No digit but the ASCII digits has a
/// value.
pub open spec fn group_size(s: Seq<char>) -> Result<int, Seq<char>> {
    if text::is_ascii_text(s) {
        ascii_size_of(s, usize::MAX as int)
    } else if is_unit(s.last()) {
        match text::unsigned_of(s.drop_last(), u64::MAX as int) {
            Err(e) => Err(e.text()),
            Ok(n) => Ok(n),
        }
    } else {
        match text::unsigned_of(s, usize::MAX as int) {
            Err(e) => Err(e.text()),
            Ok(n) => Ok(n),
        }
    }
}

/// A text with a character that is no digit behind the sign is no number.
proof fn no_number_with_other_characters(s: Seq<char>, i: int, acc: int, max: int, k: int)
    requires
        0 <= i <= k < s.len(),
        !text::is_digit(s[k]),
    ensures
        text::digits_from(s, i, acc, max) is Err,
    decreases s.len() - i,
{
    if i < k && text::is_digit(s[i]) && acc * 10 + text::digit_of(s[i]) <= max {
        no_number_with_other_characters(
            s,
            i + 1,
            acc * 10 + text::digit_of(s[i]),
            max,
            k,
        );
    }
}

/// What the text stands for, given what the patterns capture in it.
pub open spec fn trigger_of(
    s: Seq<char>,
    fixed: Option<Seq<char>>,
    min: Option<Seq<char>>,
    max: Option<Seq<char>>,
) -> Result<GCTriggerSelector, Seq<char>> {
    if s.len() == 0 {
        Err("No GC trigger policy is supplied"@)
    } else if fixed is Some {
        match group_size(fixed->0) {
            Ok(n) => Ok(GCTriggerSelector::FixedHeapSize(n as usize)),
            Err(e) => Err(e),
        }
    } else if min is Some && max is Some {
        match group_size(min->0) {
            Err(e) => Err(e),
            Ok(a) => match group_size(max->0) {
                Err(e) => Err(e),
                Ok(b) => Ok(GCTriggerSelector::DynamicHeapSize(a as usize, b as usize)),
            },
        }
    } else if text::begins_with(s, "Delegated"@) {
        Ok(GCTriggerSelector::Delegated)
    } else {
        Err("Failed to parse the GC trigger option: "@ + debug_of(s))
    }
}

/// What the text stands for.
pub open spec fn trigger_of_text(s: Seq<char>) -> Result<GCTriggerSelector, Seq<char>> {
    trigger_of(
        s,
        captured_of(fixed_pattern(), "size"@, s),
        captured_of(dynamic_pattern(), "min"@, s),
        captured_of(dynamic_pattern(), "max"@, s),
    )
}

/// `a` with `b` behind it.
fn joined(a: &str, b: &str) -> (r: String)
    ensures
        r@ == a@ + b@,
{
    let mut s = a.to_owned();
    s.append(b);
    s
}

impl GCTriggerSelector {
    /// The largest size that the heap may have. What the virtual machine decides
    /// is not known.
    pub fn max_heap_size(&self) -> (r: usize)
        requires
            !(*self is Delegated),
        ensures
            match *self {
                GCTriggerSelector::FixedHeapSize(s) => r == s,
                GCTriggerSelector::DynamicHeapSize(_, s) => r == s,
                GCTriggerSelector::Delegated => false,
            },
    {
        match self {
            GCTriggerSelector::FixedHeapSize(s) => *s,
            GCTriggerSelector::DynamicHeapSize(_, s) => *s,
            GCTriggerSelector::Delegated => 0,
        }
    }

    /// Reads a size from a text in lower case. `in_letter` says whether the text
    /// ends in a letter.
    pub fn parse_lowercase_size(s: &str, in_letter: bool, limit: u64) -> (r: Result<u64, String>)
        requires
            in_letter ==> s@.len() > 0,
        ensures
            match r {
                Ok(n) => size_of_lowercase(s@, in_letter, limit as int) == Ok::<int, Seq<char>>(
                    n as int,
                ) && n <= limit,
                Err(e) => size_of_lowercase(s@, in_letter, limit as int) == Err::<int, Seq<char>>(
                    e@,
                ),
            },
    {
        if in_letter {
            let n: usize = s.unicode_len();
            let digits = s.substring_char(0, n - 1);
            assert(digits@ =~= s@.drop_last());
            let num: u64 = match parse_unsigned(digits, u64::MAX) {
                Ok(num) => num,
                Err(e) => {
                    return Err(e.message());
                },
            };
            let c = s.get_char(n - 1);
            let size: Option<u64> = if c == 'k' {
                num.checked_mul(0x400)
            } else if c == 'm' {
                num.checked_mul(0x10_0000)
            } else if c == 'g' {
                num.checked_mul(0x4000_0000)
            } else if c == 't' {
                num.checked_mul(0x100_0000_0000)
            } else {
                let last = s.substring_char(n - 1, n);
                assert(last@ =~= seq![s@.last()]);
                let mut m = joined("Unknown size descriptor: \"", last);
                m.append("\"");
                return Err(m);
            };
            match size {
                None => Err(joined("size overflow: ", s)),
                Some(size) => if size > limit {
                    let d = decimal_string(size);
                    Err(joined("size overflow: ", d.as_str()))
                } else {
                    Ok(size)
                },
            }
        } else {
            match parse_unsigned(s, limit) {
                Ok(n) => Ok(n),
                Err(e) => Err(e.message()),
            }
        }
    }

    /// Reads a size, where sizes go up to `limit`.
    pub fn parse_size_within(s: &str, limit: u64) -> (r: Result<u64, String>)
        ensures
            match r {
                Ok(n) => size_of(s@, limit as int) == Ok::<int, Seq<char>>(n as int) && n <= limit,
                Err(e) => size_of(s@, limit as int) == Err::<int, Seq<char>>(e@),
            },
            text::is_ascii_text(s@) ==> size_of(s@, limit as int) == ascii_size_of(
                s@,
                limit as int,
            ),
    {
        let lower = to_lowercase(s);
        let n: usize = lower.as_str().unicode_len();
        let mut in_letter = false;
        if n > 0 {
            in_letter = char_is_alphabetic(lower.as_str().get_char(n - 1));
            assert(text::is_ascii_text(s@) ==> lower@.last() == ascii_lower_char(s@.last())
                && (s@.last() as u32) < 128);
        }
        Self::parse_lowercase_size(lower.as_str(), in_letter, limit)
    }

    /// Reads a size: a number of bytes, or a number and one of the letters `k`,
    /// `m`, `g` and `t` in either case.
    pub fn parse_size(s: &str) -> (r: Result<usize, String>)
        ensures
            match r {
                Ok(n) => size_of(s@, usize::MAX as int) == Ok::<int, Seq<char>>(n as int),
                Err(e) => size_of(s@, usize::MAX as int) == Err::<int, Seq<char>>(e@),
            },
            text::is_ascii_text(s@) ==> size_of(s@, usize::MAX as int) == ascii_size_of(
                s@,
                usize::MAX as int,
            ),
    {
        match Self::parse_size_within(s, usize::MAX as u64) {
            Ok(n) => Ok(n as usize),
            Err(e) => Err(e),
        }
    }

    /// Reads a size that was captured.
    fn parse_group(s: &str) -> (r: Result<usize, String>)
        ensures
            match r {
                Ok(n) => group_size(s@) == Ok::<int, Seq<char>>(n as int),
                Err(e) => group_size(s@) == Err::<int, Seq<char>>(e@),
            },
    {
        if is_ascii(s) {
            Self::parse_size(s)
        } else {
            let n: usize = s.unicode_len();
            let ghost k = choose|k: int| 0 <= k < s@.len() && ((#[trigger] s@[k]) as u32) >= 128;
            let c = s.get_char(n - 1);
            if c == 'k' || c == 'K' || c == 'm' || c == 'M' || c == 'g' || c == 'G' || c == 't' || c
                == 'T' {
                let digits = s.substring_char(0, n - 1);
                assert(digits@ =~= s@.drop_last());
                proof {
                    assert(digits@[k] == s@[k]);
                    no_number_with_other_characters(
                        digits@,
                        text::after_sign(digits@, '+'),
                        0,
                        u64::MAX as int,
                        k,
                    );
                }
                match parse_unsigned(digits, u64::MAX) {
                    Ok(_) => Ok(0),
                    Err(e) => Err(e.message()),
                }
            } else {
                proof {
                    no_number_with_other_characters(
                        s@,
                        text::after_sign(s@, '+'),
                        0,
                        usize::MAX as int,
                        k,
                    );
                }
                match parse_unsigned(s, usize::MAX as u64) {
                    Ok(_) => Ok(0),
                    Err(e) => Err(e.message()),
                }
            }
        }
    }

    /// Whether a fixed size is above zero, and bounds are in order.
    pub open spec fn is_valid(self) -> bool {
        match self {
            GCTriggerSelector::FixedHeapSize(size) => size > 0,
            GCTriggerSelector::DynamicHeapSize(min, max) => min <= max,
            GCTriggerSelector::Delegated => true,
        }
    }

    /// Whether a fixed size is above zero, and bounds are in order.
    pub fn validate(&self) -> (r: bool)
        ensures
            r == self.is_valid(),
    {
        match self {
            GCTriggerSelector::FixedHeapSize(size) => *size > 0,
            GCTriggerSelector::DynamicHeapSize(min, max) => *min <= *max,
            GCTriggerSelector::Delegated => true,
        }
    }

    /// What the text stands for, given what the patterns capture in it.
    pub fn from_captures(
        s: &str,
        fixed: Option<String>,
        min: Option<String>,
        max: Option<String>,
    ) -> (r: Result<GCTriggerSelector, String>)
        ensures
            match r {
                Ok(t) => trigger_of(s@, text_of(fixed), text_of(min), text_of(max)) == Ok::<
                    GCTriggerSelector,
                    Seq<char>,
                >(t),
                Err(e) => trigger_of(s@, text_of(fixed), text_of(min), text_of(max)) == Err::<
                    GCTriggerSelector,
                    Seq<char>,
                >(e@),
            },
    {
        if s.unicode_len() == 0 {
            return Err("No GC trigger policy is supplied".to_owned());
        }
        if let Some(size) = fixed {
            return match Self::parse_group(size.as_str()) {
                Ok(n) => Ok(GCTriggerSelector::FixedHeapSize(n)),
                Err(e) => Err(e),
            };
        }
        if let (Some(a), Some(b)) = (min, max) {
            let low: usize = match Self::parse_group(a.as_str()) {
                Ok(n) => n,
                Err(e) => {
                    return Err(e);
                },
            };
            let high: usize = match Self::parse_group(b.as_str()) {
                Ok(n) => n,
                Err(e) => {
                    return Err(e);
                },
            };
            return Ok(GCTriggerSelector::DynamicHeapSize(low, high));
        }
        if strip_prefix(s, "Delegated").is_some() {
            return Ok(GCTriggerSelector::Delegated);
        }
        let quoted = debug_string(s);
        Err(joined("Failed to parse the GC trigger option: ", quoted.as_str()))
    }

    /// Reads what triggers a collection: `FixedHeapSize` with a size,
    /// `DynamicHeapSize` with two, or anything that begins with `Delegated`.
    pub fn from_str(s: &str) -> (r: Result<GCTriggerSelector, String>)
        ensures
            match r {
                Ok(t) => trigger_of_text(s@) == Ok::<GCTriggerSelector, Seq<char>>(t),
                Err(e) => trigger_of_text(s@) == Err::<GCTriggerSelector, Seq<char>>(e@),
            },
            text::is_ascii_text(s@) ==> trigger_of_text(s@) == trigger_of(
                s@,
                fixed_group(s@),
                ascii_group(dynamic_pattern(), "min"@, s@),
                ascii_group(dynamic_pattern(), "max"@, s@),
            ),
    {
        let fixed = capture("^FixedHeapSize:(?P<size>\\d+[kKmMgGtT]?)$", "size", s);
        let min = capture(
            "^DynamicHeapSize:(?P<min>\\d+[kKmMgGtT]?),(?P<max>\\d+[kKmMgGtT]?)$",
            "min",
            s,
        );
        let max = capture(
            "^DynamicHeapSize:(?P<min>\\d+[kKmMgGtT]?),(?P<max>\\d+[kKmMgGtT]?)$",
            "max",
            s,
        );
        Self::from_captures(s, fixed, min, max)
    }
}

} // verus!
