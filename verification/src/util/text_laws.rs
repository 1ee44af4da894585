//! What texts are read as.

use crate::util::text;
use crate::util::text::IntError;
use vstd::prelude::*;
use vstd::string::*;

verus! {

/// Whether the text has only decimal digits.
pub open spec fn all_digits(s: Seq<char>) -> bool {
    forall|i: int| 0 <= i < s.len() ==> '0' <= #[trigger] s[i] <= '9'
}

/// The number that decimal digits stand for.
pub open spec fn value(s: Seq<char>) -> int
    decreases s.len(),
{
    if s.len() == 0 {
        0
    } else {
        10 * value(s.drop_last()) + (s.last() as u32 - 48)
    }
}

/// The text without the sign `c` that it begins with, if it does.
pub open spec fn unsigned_part(s: Seq<char>, c: char) -> Seq<char> {
    if s.len() > 0 && s[0] == c {
        s.skip(1)
    } else {
        s
    }
}

/// A longer row of digits is no smaller number.
proof fn value_grows(s: Seq<char>, n: int)
    requires
        all_digits(s),
        0 <= n <= s.len(),
    ensures
        0 <= value(s.take(n)) <= value(s),
    decreases s.len(),
{
    let p = s.drop_last();
    if s.len() > 0 {
        assert(all_digits(p));
        if n < s.len() {
            value_grows(p, n);
            assert(p.take(n) =~= s.take(n));
        } else {
            value_grows(p, p.len() as int);
            assert(p.take(p.len() as int) =~= p);
            assert(s.take(n) =~= s);
        }
        assert('0' <= s[s.len() - 1]);
    } else {
        assert(s.take(n) =~= s);
    }
}

/// Reading digits goes on as it began.
proof fn digits_are_read(s: Seq<char>, from: int, i: int, max: int)
    requires
        0 <= from <= i <= s.len(),
        0 <= max,
        all_digits(s.subrange(from, i)),
        value(s.subrange(from, i)) <= max,
    ensures
        ({
            let t = s.subrange(from, s.len() as int);
            match text::digits_from(s, i, value(s.subrange(from, i)), max) {
                Ok(n) => all_digits(t) && n == value(t) && n <= max,
                Err(IntError::InvalidDigit) => exists|k: int|
                    #![trigger t[k]]
                    0 <= k < t.len() && !('0' <= t[k] <= '9') && all_digits(t.take(k)) && value(
                        t.take(k),
                    ) <= max,
                Err(IntError::PosOverflow) => exists|k: int|
                    #![trigger t.take(k)]
                    0 <= k <= t.len() && all_digits(t.take(k)) && value(t.take(k)) > max,
                Err(_) => false,
            }
        }),
    decreases s.len() - i,
{
    let t = s.subrange(from, s.len() as int);
    let p = s.subrange(from, i);
    let k = i - from;
    assert(t.take(k) =~= p);
    if i < s.len() {
        assert(t[k] == s[i]);
        if '0' <= s[i] <= '9' {
            let q = s.subrange(from, i + 1);
            assert(q.drop_last() =~= p);
            assert(t.take(k + 1) =~= q);
            assert forall|j: int| 0 <= j < q.len() implies '0' <= #[trigger] q[j] <= '9' by {
                if j < p.len() {
                    assert(q[j] == p[j]);
                }
            }
            if value(q) <= max {
                digits_are_read(s, from, i + 1, max);
            } else {
                assert(value(t.take(k + 1)) > max);
            }
        }
    } else {
        assert(t =~= p);
    }
}

/// A text is a number between 0 and `max` exactly if it has a digit, nothing but
/// digits behind a plus sign that it may begin with, and these stand for no more
/// than `max`; the number is what they stand for.
///
/// An empty text is one error. Otherwise the error is what comes first: a
/// character that is no digit, or a digit with which the number is beyond `max`. A
/// sign alone has no digit.
pub proof fn number_is_read(s: Seq<char>, max: int)
    requires
        0 <= max,
    ensures
        ({
            let t = unsigned_part(s, '+');
            match text::unsigned_of(s, max) {
                Ok(n) => t.len() > 0 && all_digits(t) && n == value(t) && n <= max,
                Err(IntError::Empty) => s.len() == 0,
                Err(IntError::InvalidDigit) => s.len() > 0 && (t.len() == 0 || exists|k: int|
                    #![trigger t[k]]
                    0 <= k < t.len() && !('0' <= t[k] <= '9') && all_digits(t.take(k)) && value(
                        t.take(k),
                    ) <= max),
                Err(IntError::PosOverflow) => exists|k: int|
                    #![trigger t.take(k)]
                    0 <= k <= t.len() && all_digits(t.take(k)) && value(t.take(k)) > max,
                Err(IntError::NegOverflow) => false,
            }
        }),
        ({
            let t = unsigned_part(s, '+');
            t.len() > 0 && all_digits(t) && value(t) <= max ==> text::unsigned_of(s, max) == Ok::<
                int,
                IntError,
            >(value(t))
        }),
{
    let from = text::after_sign(s, '+');
    let t = unsigned_part(s, '+');
    if s.len() > 0 {
        assert(t =~= s.subrange(from, s.len() as int));
        assert(s.subrange(from, from) =~= Seq::<char>::empty());
        digits_are_read(s, from, from, max);
        assert(seq!['+'][0] == '+');
        if s == seq!['+'] {
            assert(t.len() == 0);
        } else if t.len() == 0 {
            assert(s =~= seq!['+']);
        }
        if t.len() > 0 && all_digits(t) && value(t) <= max {
            number_in_range(t, max);
        }
    }
}

/// A number that was read is not below zero.
pub proof fn value_of_number(s: Seq<char>)
    requires
        text::unsigned_of(s, usize::MAX as int) is Ok,
    ensures
        0 <= text::unsigned_of(s, usize::MAX as int)->Ok_0 <= usize::MAX,
{
    let t = unsigned_part(s, '+');
    number_is_read(s, usize::MAX as int);
    value_grows(t, 0);
}

/// No prefix of digits in range is a reason to refuse them.
proof fn number_in_range(t: Seq<char>, max: int)
    requires
        all_digits(t),
        value(t) <= max,
    ensures
        forall|k: int|
            #![trigger t.take(k)]
            0 <= k <= t.len() ==> value(t.take(k)) <= max,
{
    assert forall|k: int| #![trigger t.take(k)] 0 <= k <= t.len() implies value(t.take(k))
        <= max by {
        value_grows(t, k);
    }
}

/// A text with a minus sign and something behind it is a number of 32 bits exactly
/// if what follows are digits that stand for no more than two to the power of 31.
/// Any other text is one if it is a number below that.
pub proof fn signed_number_is_read(s: Seq<char>)
    ensures
        ({
            let t = s.skip(1);
            s.len() > 1 && s[0] == '-' ==> match text::signed_of(s) {
                Ok(n) => all_digits(t) && n == -value(t) && n >= -0x8000_0000,
                Err(IntError::InvalidDigit) => exists|k: int|
                    #![trigger t[k]]
                    0 <= k < t.len() && !('0' <= t[k] <= '9') && all_digits(t.take(k)) && value(
                        t.take(k),
                    ) <= 0x8000_0000,
                Err(IntError::NegOverflow) => exists|k: int|
                    #![trigger t.take(k)]
                    0 <= k <= t.len() && all_digits(t.take(k)) && value(t.take(k)) > 0x8000_0000,
                Err(_) => false,
            }
        }),
        s.len() > 1 && s[0] == '-' && all_digits(s.skip(1)) && value(s.skip(1)) <= 0x8000_0000
            ==> text::signed_of(s) == Ok::<int, IntError>(-value(s.skip(1))),
        !(s.len() > 1 && s[0] == '-') ==> text::signed_of(s) == text::unsigned_of(s, 0x7fff_ffff),
{
    let t = s.skip(1);
    if s.len() > 1 && s[0] == '-' {
        assert(t =~= s.subrange(1, s.len() as int));
        assert(s.subrange(1, 1) =~= Seq::<char>::empty());
        digits_are_read(s, 1, 1, 0x8000_0000);
        if all_digits(t) && value(t) <= 0x8000_0000 {
            number_in_range(t, 0x8000_0000);
        }
    }
}

/// What is wrong with a number is said as the standard library says it.
pub proof fn number_errors_in_words(e: IntError)
    ensures
        e is Empty ==> e.text() == "cannot parse integer from empty string"@,
        e is InvalidDigit ==> e.text() == "invalid digit found in string"@,
        e is PosOverflow ==> e.text() == "number too large to fit in target type"@,
        e is NegOverflow ==> e.text() == "number too small to fit in target type"@,
{
}

/// A written number has only digits, they stand for the number, and none but the
/// last is a zero that nothing stands before.
pub proof fn number_is_written(n: nat)
    ensures
        text::decimal(n).len() > 0,
        all_digits(text::decimal(n)),
        value(text::decimal(n)) == n,
        text::decimal(n)[0] == '0' ==> n == 0,
        n == 0 ==> text::decimal(n).len() == 1,
    decreases n,
{
    let s = text::decimal(n);
    if n >= 10 {
        let p = text::decimal(n / 10);
        number_is_written(n / 10);
        assert(s.drop_last() =~= p);
        assert(s[0] == p[0]);
        assert forall|i: int| 0 <= i < s.len() implies '0' <= #[trigger] s[i] <= '9' by {
            if i < p.len() {
                assert(s[i] == p[i]);
            }
        }
    } else {
        assert(s.drop_last() =~= Seq::<char>::empty());
        assert(value(s.drop_last()) == 0);
    }
}

/// Several numbers are written each by itself.
pub proof fn numbers_are_written(v: Seq<u64>)
    ensures
        text::decimals(v).len() == v.len(),
        forall|i: int|
            #![trigger text::decimals(v)[i]]
            0 <= i < v.len() ==> text::decimals(v)[i].len() > 0 && all_digits(text::decimals(v)[i])
                && value(text::decimals(v)[i]) == v[i] && (text::decimals(v)[i][0] == '0' ==> v[i]
                == 0),
{
    assert forall|i: int|
        #![trigger text::decimals(v)[i]]
        0 <= i < v.len() implies text::decimals(v)[i].len() > 0 && all_digits(text::decimals(v)[i])
        && value(text::decimals(v)[i]) == v[i] && (text::decimals(v)[i][0] == '0' ==> v[i]
        == 0) by {
        number_is_written(v[i] as nat);
    }
}

/// The cells follow each other, each with the end behind it.
pub proof fn cells_follow_each_other(cells: Seq<Seq<char>>, end: Seq<char>)
    ensures
        text::cells_with(cells, end) == cells.map_values(|c: Seq<char>| c + end).flatten(),
    decreases cells.len(),
{
    let f = |c: Seq<char>| c + end;
    if cells.len() == 0 {
        assert(cells.map_values(f) =~= Seq::<Seq<char>>::empty());
        assert(cells.map_values(f).flatten() =~= Seq::<char>::empty());
    } else {
        let p = cells.drop_last();
        cells_follow_each_other(p, end);
        assert(cells.map_values(f) =~= p.map_values(f).push(f(cells.last())));
        p.map_values(f).lemma_flatten_push(f(cells.last()));
        assert(text::cells_with(cells, end) =~= cells.map_values(f).flatten());
    }
}

/// A text begins with another exactly if it is that text with something behind
/// it.
pub proof fn prefix_is_followed(s: Seq<char>, prefix: Seq<char>)
    ensures
        text::begins_with(s, prefix) <==> exists|rest: Seq<char>| s == prefix + rest,
        forall|rest: Seq<char>| #[trigger]
            text::begins_with(prefix + rest, prefix),
{
    if text::begins_with(s, prefix) {
        let rest = s.subrange(prefix.len() as int, s.len() as int);
        assert(s =~= prefix + rest);
    }
    assert forall|rest: Seq<char>| #[trigger] text::begins_with(prefix + rest, prefix) by {
        assert((prefix + rest).subrange(0, prefix.len() as int) =~= prefix);
    }
}

/// A text is of ASCII characters exactly if all its characters are below 128.
pub proof fn ascii_is_below_limit(s: Seq<char>)
    ensures
        text::is_ascii_text(s) <==> forall|i: int|
            0 <= i < s.len() ==> (#[trigger] s[i]) as u32 <= 127,
{
}

/// The views of slices and strings are taken one by one.
pub proof fn texts_are_views(v: Seq<&str>, w: Seq<String>)
    ensures
        text::texts(v).len() == v.len(),
        forall|i: int| 0 <= i < v.len() ==> #[trigger] text::texts(v)[i] == v[i]@,
        text::string_texts(w).len() == w.len(),
        forall|i: int| 0 <= i < w.len() ==> #[trigger] text::string_texts(w)[i] == w[i]@,
{
}

/// Whether the character stands between words.
pub open spec fn between_words(c: char) -> bool {
    c == ',' || c == ' ' || c == '\t' || c == '\n' || c == '\x0c' || c == '\r'
}

/// The text with a blank for every character that stands between words.
pub open spec fn blanked(s: Seq<char>) -> Seq<char> {
    s.map_values(
        |c: char|
            if between_words(c) {
                ' '
            } else {
                c
            },
    )
}

/// The words are the pieces between commas and white space that are not empty.
pub proof fn words_are_pieces(s: Seq<char>)
    ensures
        text::words_of(s) == text::split_on(blanked(s), ' ').filter(|w: Seq<char>| w.len() > 0),
{
    words_from_are_pieces(s, 0, 0);
}

/// The words from a place on are the pieces from there on.
proof fn words_from_are_pieces(s: Seq<char>, start: int, i: int)
    requires
        0 <= start <= i <= s.len(),
        forall|k: int| start <= k < i ==> !between_words(#[trigger] s[k]),
    ensures
        text::words_from(s, start, i) == text::split_from(blanked(s), ' ', start, i).filter(
            |w: Seq<char>| w.len() > 0,
        ),
    decreases s.len() - i,
{
    reveal(Seq::filter);
    let b = blanked(s);
    let p = |w: Seq<char>| w.len() > 0;
    let first = b.subrange(start, i);
    assert(first =~= s.subrange(start, i)) by {
        assert forall|k: int| start <= k < i implies b[k] == s[k] by {
            assert(!between_words(s[k]));
        }
    }
    let one = seq![first];
    let none = Seq::<Seq<char>>::empty();
    assert(one =~= none.push(first));
    none.lemma_filter_push(first, p);
    assert(none.filter(p) =~= none);
    assert(one.filter(p) =~= text::word_at(s, start, i));
    if i < s.len() {
        assert(b[i] == ' ' <==> between_words(s[i]));
        if between_words(s[i]) {
            words_from_are_pieces(s, i + 1, i + 1);
            Seq::filter_distributes_over_add(one, text::split_from(b, ' ', i + 1, i + 1), p);
        } else {
            words_from_are_pieces(s, start, i + 1);
        }
    } else {
        assert(i == s.len());
    }
}

} // verus!
