//! What texts about the heap size stand for.

use crate::util::gc_trigger;
use crate::util::gc_trigger::GCTriggerSelector;
use crate::util::text;
use crate::util::text_laws;
use vstd::prelude::*;
use vstd::string::*;

verus! {

/// How many bytes a letter stands for: 1024 to the power of one, two, three or
/// four, in either case, and none for any other letter.
pub open spec fn bytes_of(c: char) -> int {
    if c == 'k' || c == 'K' {
        1024
    } else if c == 'm' || c == 'M' {
        1024int * 1024
    } else if c == 'g' || c == 'G' {
        1024int * 1024 * 1024
    } else if c == 't' || c == 'T' {
        1024int * 1024 * 1024 * 1024
    } else {
        0
    }
}

/// A capital letter and its small letter are 32 places apart; no other character
/// changes.
pub proof fn letters_are_lowered(s: Seq<char>)
    ensures
        gc_trigger::ascii_lower(s).len() == s.len(),
        forall|i: int|
            #![trigger gc_trigger::ascii_lower(s)[i]]
            0 <= i < s.len() ==> gc_trigger::ascii_lower(s)[i] as u32 == s[i] as u32 + (if 65
                <= s[i] as u32 <= 90 {
                32int
            } else {
                0
            }),
{
}

/// The letters are those from `a` to `z` and from `A` to `Z`, and what stands for
/// itself between quotes is what can be printed, without the quote and the
/// backslash.
pub proof fn letters_and_plain_characters(c: char)
    ensures
        gc_trigger::is_ascii_letter(c) <==> 65 <= c as u32 <= 90 || 97 <= c as u32 <= 122,
        gc_trigger::is_plain(c) <==> 32 <= c as u32 <= 126 && c as u32 != 34 && c as u32 != 92,
        gc_trigger::is_unit(c) <==> bytes_of(c) > 0,
{
}

/// A text in lower case that does not end in a letter stands for its number, up to
/// the limit. One that does stands for the number before the letter times what the
/// letter stands for, as far as that fits in 64 bits and does not exceed the limit.
pub proof fn size_is_number_times_unit(s: Seq<char>, limit: int)
    requires
        0 <= limit <= u64::MAX,
    ensures
        match text::unsigned_of(s, limit) {
            Ok(n) => gc_trigger::size_of_lowercase(s, false, limit) == Ok::<int, Seq<char>>(n),
            Err(e) => gc_trigger::size_of_lowercase(s, false, limit) == Err::<int, Seq<char>>(
                e.text(),
            ),
        },
        s.len() > 0 ==> match text::unsigned_of(s.drop_last(), u64::MAX as int) {
            Err(e) => gc_trigger::size_of_lowercase(s, true, limit) == Err::<int, Seq<char>>(
                e.text(),
            ),
            Ok(n) => {
                let c = s.last();
                let size = n * bytes_of(c);
                let r = gc_trigger::size_of_lowercase(s, true, limit);
                if c != 'k' && c != 'm' && c != 'g' && c != 't' {
                    r == Err::<int, Seq<char>>("Unknown size descriptor: \""@ + seq![c] + "\""@)
                } else if size > u64::MAX {
                    r == Err::<int, Seq<char>>("size overflow: "@ + s)
                } else if size > limit {
                    r == Err::<int, Seq<char>>("size overflow: "@ + text::decimal(size as nat))
                } else {
                    r == Ok::<int, Seq<char>>(size)
                }
            },
        },
{
}

/// A size is read in lower case, with a unit exactly if the text ends in a letter. No
/// text is no size.
pub proof fn sizes_are_read_in_lower_case(s: Seq<char>, limit: int)
    ensures
        s.len() == 0 ==> gc_trigger::ascii_size_of(s, limit) == Err::<int, Seq<char>>(
            "cannot parse integer from empty string"@,
        ),
        s.len() > 0 ==> {
            let c = s.last() as u32;
            gc_trigger::ascii_size_of(s, limit) == gc_trigger::size_of_lowercase(
                gc_trigger::ascii_lower(s),
                65 <= c <= 90 || 97 <= c <= 122,
                limit,
            )
        },
        ({
            let t = gc_trigger::lowercase_of(s);
            &&& t.len() == 0 ==> gc_trigger::size_of(s, limit) == Err::<int, Seq<char>>(
                "cannot parse integer from empty string"@,
            )
            &&& t.len() > 0 ==> gc_trigger::size_of(s, limit) == gc_trigger::size_of_lowercase(
                t,
                gc_trigger::is_alphabetic(t.last()),
                limit,
            )
        }),
{
}

/// A number that was written is read back as a size, and with a letter behind it,
/// in either case, as that many kibibytes, mebibytes, gibibytes or tebibytes.
pub proof fn written_size_is_read_back(n: nat, c: char, limit: int)
    requires
        0 <= limit <= u64::MAX,
    ensures
        n <= limit ==> gc_trigger::ascii_size_of(text::decimal(n), limit) == Ok::<int, Seq<char>>(
            n as int,
        ),
        bytes_of(c) > 0 && n * bytes_of(c) <= limit ==> gc_trigger::ascii_size_of(
            text::decimal(n).push(c),
            limit,
        ) == Ok::<int, Seq<char>>(n * bytes_of(c)),
{
    let d = text::decimal(n);
    text_laws::number_is_written(n);
    let low = gc_trigger::ascii_lower(d);
    assert forall|i: int| 0 <= i < d.len() implies low[i] == d[i] by {
        assert('0' <= d[i] <= '9');
    }
    assert(low =~= d);
    assert('0' <= d[d.len() - 1] <= '9');
    if n <= limit {
        text::decimal_is_read_back(n, limit);
    }
    if bytes_of(c) > 0 && n * bytes_of(c) <= limit {
        let s = d.push(c);
        let l = gc_trigger::ascii_lower(s);
        let k = gc_trigger::ascii_lower_char(c);
        assert forall|i: int| 0 <= i < d.len() implies l[i] == d[i] by {
            assert('0' <= d[i] <= '9');
            assert(s[i] == d[i]);
        }
        assert(l =~= d.push(k));
        assert(l.drop_last() =~= d);
        assert(k == 'k' || k == 'm' || k == 'g' || k == 't');
        assert(bytes_of(k) == bytes_of(c));
        assert(n <= n * bytes_of(c)) by (nonlinear_arith)
            requires
                bytes_of(c) > 0,
        ;
        text::decimal_is_read_back(n, u64::MAX as int);
        size_is_number_times_unit(l, limit);
    }
}

/// Whether the text is digits, at least one, with a letter for a unit behind them
/// or not.
pub open spec fn digits_and_unit(s: Seq<char>) -> bool {
    ||| s.len() > 0 && text_laws::all_digits(s)
    ||| s.len() > 1 && text_laws::all_digits(s.drop_last()) && bytes_of(s.last()) > 0
}

/// A size is digits with or without a letter behind them.
pub proof fn size_text_is_digits_and_unit(s: Seq<char>)
    ensures
        gc_trigger::is_size_text(s) <==> digits_and_unit(s),
{
    if s.len() > 0 {
        letters_and_plain_characters(s.last());
        let p = s.drop_last();
        if gc_trigger::is_unit(s.last()) {
            assert(!('0' <= s[s.len() - 1] <= '9'));
            if gc_trigger::is_size_text(s) {
                assert forall|i: int| 0 <= i < p.len() implies '0' <= #[trigger] p[i] <= '9' by {
                    assert(text::is_digit(s[i]));
                }
            }
            if text_laws::all_digits(p) {
                assert forall|i: int| 0 <= i < p.len() implies text::is_digit(#[trigger] s[i]) by {
                    assert(p[i] == s[i]);
                }
            }
        } else {
            if gc_trigger::is_size_text(s) {
                assert forall|i: int| 0 <= i < s.len() implies '0' <= #[trigger] s[i] <= '9' by {
                    assert(text::is_digit(s[i]));
                }
            }
            if text_laws::all_digits(s) {
                assert forall|i: int| 0 <= i < s.len() implies text::is_digit(
                    #[trigger] s[i],
                ) by {}
            }
        }
    }
}

/// A size has no comma.
proof fn size_text_has_no_comma(s: Seq<char>)
    requires
        digits_and_unit(s),
    ensures
        !s.contains(','),
{
    if s.contains(',') {
        let i = choose|i: int| 0 <= i < s.len() && s[i] == ',';
        if text_laws::all_digits(s) {
            assert('0' <= s[i] <= '9');
        } else if i < s.len() - 1 {
            assert(s.drop_last()[i] == s[i]);
        }
    }
}

/// Where there is no character to split on, splitting goes on further behind.
proof fn split_goes_on(s: Seq<char>, c: char, start: int, i: int, k: int)
    requires
        0 <= i <= k <= s.len(),
        forall|j: int| i <= j < k ==> s[j] != c,
    ensures
        text::split_from(s, c, start, i) == text::split_from(s, c, start, k),
    decreases k - i,
{
    if i < k {
        split_goes_on(s, c, start, i + 1, k);
    }
}

/// Two texts without `c`, with `c` between them, are split in two.
pub proof fn split_in_two(a: Seq<char>, b: Seq<char>, c: char)
    requires
        !a.contains(c),
        !b.contains(c),
    ensures
        text::split_on(a + seq![c] + b, c) == seq![a, b],
{
    let s = a + seq![c] + b;
    let n = a.len() as int;
    assert forall|j: int| 0 <= j < n implies s[j] != c by {
        assert(a[j] == s[j]);
        assert(a.contains(a[j]));
    }
    assert forall|j: int| n + 1 <= j < s.len() implies s[j] != c by {
        assert(b[j - n - 1] == s[j]);
        assert(b.contains(b[j - n - 1]));
    }
    split_goes_on(s, c, 0, 0, n);
    assert(s[n] == c);
    split_goes_on(s, c, n + 1, n + 1, s.len() as int);
    assert(s.subrange(0, n) =~= a);
    assert(s.subrange(n + 1, s.len() as int) =~= b);
    assert(text::split_on(s, c) =~= seq![a, b]);
}

/// A text asks for a heap of fixed size exactly if it is `FixedHeapSize:` with a
/// size behind it, which is captured.
pub proof fn fixed_size_is_captured(s: Seq<char>, t: Seq<char>)
    ensures
        gc_trigger::fixed_group(s) == Some(t) <==> s == "FixedHeapSize:"@ + t && digits_and_unit(t),
{
    let p = "FixedHeapSize:"@;
    text_laws::prefix_is_followed(s, p);
    let rest = s.subrange(p.len() as int, s.len() as int);
    if text::begins_with(s, p) {
        assert(s =~= p + rest);
        size_text_is_digits_and_unit(rest);
    }
    if s == p + t {
        assert(text::begins_with(p + t, p));
        assert(rest =~= t);
    }
}

/// A text asks for a heap whose size varies exactly if it is `DynamicHeapSize:`
/// with two sizes behind it and a comma between them; both are captured.
pub proof fn dynamic_sizes_are_captured(s: Seq<char>, a: Seq<char>, b: Seq<char>)
    ensures
        gc_trigger::dynamic_groups(s) == Some((a, b)) <==> s == "DynamicHeapSize:"@ + (a
            + seq![','] + b) && digits_and_unit(a) && digits_and_unit(b),
{
    let p = "DynamicHeapSize:"@;
    text_laws::prefix_is_followed(s, p);
    let rest = s.subrange(p.len() as int, s.len() as int);
    let sizes = text::split_on(rest, ',');
    if text::begins_with(s, p) {
        assert(s =~= p + rest);
        if sizes.len() == 2 {
            size_text_is_digits_and_unit(sizes[0]);
            size_text_is_digits_and_unit(sizes[1]);
            text::pieces_rejoin(rest, ',');
            assert(sizes.drop_first() =~= seq![sizes[1]]);
            assert(text::join_with(sizes.drop_first(), ',') == sizes[1]);
            assert(rest == sizes[0] + seq![','] + sizes[1]);
        }
    }
    if s == p + (a + seq![','] + b) && digits_and_unit(a) && digits_and_unit(b) {
        let t = a + seq![','] + b;
        assert(text::begins_with(p + t, p));
        assert(rest =~= t);
        size_text_has_no_comma(a);
        size_text_has_no_comma(b);
        split_in_two(a, b, ',');
        size_text_is_digits_and_unit(a);
        size_text_is_digits_and_unit(b);
    }
}

/// What triggers a collection goes by what was captured: no text is an error; a
/// fixed size comes first, two sizes next; then anything that begins with
/// `Delegated`; and any other text is an error that quotes it.
pub proof fn trigger_goes_by_captures(
    s: Seq<char>,
    fixed: Option<Seq<char>>,
    min: Option<Seq<char>>,
    max: Option<Seq<char>>,
)
    ensures
        ({
            let r = gc_trigger::trigger_of(s, fixed, min, max);
            &&& s.len() == 0 ==> r == Err::<GCTriggerSelector, Seq<char>>(
                "No GC trigger policy is supplied"@,
            )
            &&& s.len() > 0 && fixed is Some ==> match gc_trigger::group_size(fixed->0) {
                Ok(n) => r == Ok::<GCTriggerSelector, Seq<char>>(
                    GCTriggerSelector::FixedHeapSize(n as usize),
                ),
                Err(e) => r == Err::<GCTriggerSelector, Seq<char>>(e),
            }
            &&& s.len() > 0 && fixed is None && min is Some && max is Some ==> match (
                gc_trigger::group_size(min->0),
                gc_trigger::group_size(max->0),
            ) {
                (Ok(a), Ok(b)) => r == Ok::<GCTriggerSelector, Seq<char>>(
                    GCTriggerSelector::DynamicHeapSize(a as usize, b as usize),
                ),
                (Err(e), _) => r == Err::<GCTriggerSelector, Seq<char>>(e),
                (Ok(_), Err(e)) => r == Err::<GCTriggerSelector, Seq<char>>(e),
            }
            &&& s.len() > 0 && fixed is None && (min is None || max is None) ==> (if exists|
                rest: Seq<char>,
            |
                s == "Delegated"@ + rest {
                r == Ok::<GCTriggerSelector, Seq<char>>(GCTriggerSelector::Delegated)
            } else {
                r == Err::<GCTriggerSelector, Seq<char>>(
                    "Failed to parse the GC trigger option: "@ + gc_trigger::debug_of(s),
                )
            })
        }),
{
    text_laws::prefix_is_followed(s, "Delegated"@);
}

/// A captured size of ASCII characters stands for its size. One with other digits
/// stands for none.
pub proof fn captured_size_is_read(t: Seq<char>)
    ensures
        text::is_ascii_text(t) ==> gc_trigger::group_size(t) == gc_trigger::ascii_size_of(
            t,
            usize::MAX as int,
        ),
        ({
            let n = if bytes_of(t.last()) > 0 {
                text::unsigned_of(t.drop_last(), u64::MAX as int)
            } else {
                text::unsigned_of(t, usize::MAX as int)
            };
            !text::is_ascii_text(t) ==> match n {
                Ok(v) => gc_trigger::group_size(t) == Ok::<int, Seq<char>>(v),
                Err(e) => gc_trigger::group_size(t) == Err::<int, Seq<char>>(e.text()),
            }
        }),
{
    letters_and_plain_characters(t.last());
}

/// Digits and units are ASCII characters.
proof fn size_text_is_ascii(t: Seq<char>)
    requires
        digits_and_unit(t),
    ensures
        text::is_ascii_text(t),
{
    assert forall|i: int| 0 <= i < t.len() implies ((#[trigger] t[i]) as u32) < 128 by {
        if text_laws::all_digits(t) {
            assert('0' <= t[i] <= '9');
        } else if i < t.len() - 1 {
            assert(t.drop_last()[i] == t[i]);
        }
    }
}

/// A heap of fixed size that was written is read back.
pub proof fn fixed_heap_is_read_back(n: nat, c: char)
    requires
        bytes_of(c) > 0,
        n * bytes_of(c) <= usize::MAX,
    ensures
        ({
            let s = "FixedHeapSize:"@ + text::decimal(n).push(c);
            gc_trigger::trigger_of(s, gc_trigger::fixed_group(s), None, None) == Ok::<
                GCTriggerSelector,
                Seq<char>,
            >(GCTriggerSelector::FixedHeapSize((n * bytes_of(c)) as usize))
        }),
{
    let t = text::decimal(n).push(c);
    let s = "FixedHeapSize:"@ + t;
    written_digits_and_unit(n, c);
    fixed_size_is_captured(s, t);
    size_text_is_ascii(t);
    written_size_is_read_back(n, c, usize::MAX as int);
    captured_size_is_read(t);
}

/// A heap whose size varies that was written is read back.
pub proof fn dynamic_heap_is_read_back(n: nat, c: char, m: nat, d: char)
    requires
        bytes_of(c) > 0,
        bytes_of(d) > 0,
        n * bytes_of(c) <= usize::MAX,
        m * bytes_of(d) <= usize::MAX,
    ensures
        ({
            let s = "DynamicHeapSize:"@ + (text::decimal(n).push(c) + seq![','] + text::decimal(
                m,
            ).push(d));
            let g = gc_trigger::dynamic_groups(s);
            &&& g is Some
            &&& gc_trigger::trigger_of(s, None, Some((g->0).0), Some((g->0).1)) == Ok::<
                GCTriggerSelector,
                Seq<char>,
            >(
                GCTriggerSelector::DynamicHeapSize(
                    (n * bytes_of(c)) as usize,
                    (m * bytes_of(d)) as usize,
                ),
            )
        }),
{
    let a = text::decimal(n).push(c);
    let b = text::decimal(m).push(d);
    let s = "DynamicHeapSize:"@ + (a + seq![','] + b);
    written_digits_and_unit(n, c);
    written_digits_and_unit(m, d);
    dynamic_sizes_are_captured(s, a, b);
    size_text_is_ascii(a);
    size_text_is_ascii(b);
    written_size_is_read_back(n, c, usize::MAX as int);
    written_size_is_read_back(m, d, usize::MAX as int);
    captured_size_is_read(a);
    captured_size_is_read(b);
}

/// A written number with a unit behind it is a size.
proof fn written_digits_and_unit(n: nat, c: char)
    requires
        bytes_of(c) > 0,
    ensures
        digits_and_unit(text::decimal(n).push(c)),
{
    text_laws::number_is_written(n);
    assert(text::decimal(n).push(c).drop_last() =~= text::decimal(n));
}

/// The groups of the two patterns capture what the two forms hold.
pub proof fn groups_capture_forms(s: Seq<char>)
    ensures
        gc_trigger::ascii_group(gc_trigger::fixed_pattern(), "size"@, s)
            == gc_trigger::fixed_group(s),
        gc_trigger::dynamic_groups(s) is None ==> gc_trigger::ascii_group(
            gc_trigger::dynamic_pattern(),
            "min"@,
            s,
        ) is None && gc_trigger::ascii_group(gc_trigger::dynamic_pattern(), "max"@, s) is None,
        gc_trigger::dynamic_groups(s) matches Some(g) ==> gc_trigger::ascii_group(
            gc_trigger::dynamic_pattern(),
            "min"@,
            s,
        ) == Some(g.0) && gc_trigger::ascii_group(gc_trigger::dynamic_pattern(), "max"@, s)
            == Some(g.1),
{
    reveal_strlit("min");
    reveal_strlit("max");
    reveal_strlit("^FixedHeapSize:(?P<size>\\d+[kKmMgGtT]?)$");
    reveal_strlit("^DynamicHeapSize:(?P<min>\\d+[kKmMgGtT]?),(?P<max>\\d+[kKmMgGtT]?)$");
    assert("min"@[1] != "max"@[1]);
    assert(gc_trigger::fixed_pattern()[1] != gc_trigger::dynamic_pattern()[1]);
}

/// A fixed size has to be above zero, and two bounds have to be in order.
pub proof fn valid_triggers(a: usize, b: usize)
    ensures
        GCTriggerSelector::FixedHeapSize(a).is_valid() <==> a >= 1,
        GCTriggerSelector::DynamicHeapSize(a, b).is_valid() <==> !(b < a),
        GCTriggerSelector::Delegated.is_valid(),
{
}

} // verus!
