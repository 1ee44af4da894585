//! What the values of options are read as, and which of them may be taken.

use crate::util::options;
use crate::util::options::{
    AffinityKind, CpuListError, NurserySize, NurseryZeroingOptions, PlanSelector,
};
use crate::util::text;
use crate::util::text::IntError;
use crate::util::text_laws;
use vstd::prelude::*;
use vstd::string::*;

verus! {

/// A way of zeroing is read by its name, and no other text is one.
pub proof fn zeroing_is_read_by_name(s: Seq<char>)
    ensures
        NurseryZeroingOptions::named(s) == Some(NurseryZeroingOptions::Temporal) <==> s
            == "Temporal"@,
        NurseryZeroingOptions::named(s) == Some(NurseryZeroingOptions::Nontemporal) <==> s
            == "Nontemporal"@,
        NurseryZeroingOptions::named(s) == Some(NurseryZeroingOptions::Concurrent) <==> s
            == "Concurrent"@,
        NurseryZeroingOptions::named(s) == Some(NurseryZeroingOptions::Adaptive) <==> s
            == "Adaptive"@,
{
    reveal_strlit("Temporal");
    reveal_strlit("Nontemporal");
    reveal_strlit("Concurrent");
    reveal_strlit("Adaptive");
    assert("Temporal"@.len() == 8);
    assert("Nontemporal"@.len() == 11);
    assert("Concurrent"@.len() == 10);
    assert("Adaptive"@.len() == 8);
    assert("Temporal"@[0] != "Adaptive"@[0]);
}

/// A plan is read by its name, and no other text is one.
#[verifier::spinoff_prover]
pub proof fn plan_is_read_by_name(s: Seq<char>)
    ensures
        PlanSelector::named(s) == Some(PlanSelector::NoGC) <==> s == "NoGC"@,
        PlanSelector::named(s) == Some(PlanSelector::SemiSpace) <==> s == "SemiSpace"@,
        PlanSelector::named(s) == Some(PlanSelector::GenCopy) <==> s == "GenCopy"@,
        PlanSelector::named(s) == Some(PlanSelector::GenImmix) <==> s == "GenImmix"@,
        PlanSelector::named(s) == Some(PlanSelector::MarkSweep) <==> s == "MarkSweep"@,
        PlanSelector::named(s) == Some(PlanSelector::PageProtect) <==> s == "PageProtect"@,
        PlanSelector::named(s) == Some(PlanSelector::Immix) <==> s == "Immix"@,
        PlanSelector::named(s) == Some(PlanSelector::MarkCompact) <==> s == "MarkCompact"@,
        PlanSelector::named(s) == Some(PlanSelector::StickyImmix) <==> s == "StickyImmix"@,
        PlanSelector::named(s) == Some(PlanSelector::MyGC) <==> s == "MyGC"@,
{
    reveal_strlit("NoGC");
    reveal_strlit("SemiSpace");
    reveal_strlit("GenCopy");
    reveal_strlit("GenImmix");
    reveal_strlit("MarkSweep");
    reveal_strlit("PageProtect");
    reveal_strlit("Immix");
    reveal_strlit("MarkCompact");
    reveal_strlit("StickyImmix");
    reveal_strlit("MyGC");
    assert("NoGC"@.len() == 4);
    assert("SemiSpace"@.len() == 9);
    assert("GenCopy"@.len() == 7);
    assert("GenImmix"@.len() == 8);
    assert("MarkSweep"@.len() == 9);
    assert("PageProtect"@.len() == 11);
    assert("Immix"@.len() == 5);
    assert("MarkCompact"@.len() == 11);
    assert("StickyImmix"@.len() == 11);
    assert("MyGC"@.len() == 4);
    assert("NoGC"@[0] != "MyGC"@[0]);
    assert("SemiSpace"@[0] != "MarkSweep"@[0]);
    assert("PageProtect"@[0] != "MarkCompact"@[0]);
    assert("PageProtect"@[0] != "StickyImmix"@[0]);
    assert("MarkCompact"@[0] != "StickyImmix"@[0]);
}

/// Whether the text is an event: a name, a process and a core with commas between
/// them, both numbers of 32 bits.
pub open spec fn is_event(s: Seq<char>, e: (Seq<char>, i32, i32)) -> bool {
    let parts = text::split_on(s, ',');
    &&& parts.len() == 3
    &&& parts[0] == e.0
    &&& text::signed_of(parts[1]) == Ok::<int, IntError>(e.1 as int)
    &&& text::signed_of(parts[2]) == Ok::<int, IntError>(e.2 as int)
}

/// A text is read as an event exactly if it is one. Otherwise the error says that
/// there are not three parts, or that a number is none.
pub proof fn event_is_read(s: Seq<char>, e: (Seq<char>, i32, i32))
    ensures
        options::perf_event_of(s) == Ok::<(Seq<char>, i32, i32), Seq<char>>(e) <==> is_event(s, e),
        text::split_on(s, ',').len() != 3 <==> options::perf_event_of(s) == Err::<
            (Seq<char>, i32, i32),
            Seq<char>,
        >("Please supply (event name, pid, cpu)"@),
        options::perf_event_of(s) matches Err(m) ==> m == "Please supply (event name, pid, cpu)"@
            || m == "Failed to parse cpu"@,
{
    let parts = text::split_on(s, ',');
    reveal_strlit("Please supply (event name, pid, cpu)");
    reveal_strlit("Failed to parse cpu");
    assert("Failed to parse cpu"@.len() != "Please supply (event name, pid, cpu)"@.len());
    text_laws::signed_number_is_read(parts[1]);
    text_laws::signed_number_is_read(parts[2]);
    text_laws::number_is_read(parts[1], 0x7fff_ffff);
    text_laws::number_is_read(parts[2], 0x7fff_ffff);
    value_is_natural(parts[1]);
    value_is_natural(parts[2]);
}

/// Digits stand for no number below zero.
proof fn digits_are_natural(s: Seq<char>)
    requires
        text_laws::all_digits(s),
    ensures
        text_laws::value(s) >= 0,
    decreases s.len(),
{
    if s.len() > 0 {
        let p = s.drop_last();
        assert forall|i: int| 0 <= i < p.len() implies '0' <= #[trigger] p[i] <= '9' by {
            assert(p[i] == s[i]);
        }
        digits_are_natural(p);
        assert('0' <= s[s.len() - 1]);
    }
}

/// What follows a sign stands for no number below zero.
proof fn value_is_natural(s: Seq<char>)
    ensures
        text_laws::all_digits(s.skip(1)) ==> text_laws::value(s.skip(1)) >= 0,
        text_laws::all_digits(s) ==> text_laws::value(s) >= 0,
        text_laws::all_digits(text_laws::unsigned_part(s, '+')) ==> text_laws::value(
            text_laws::unsigned_part(s, '+'),
        ) >= 0,
{
    if text_laws::all_digits(s.skip(1)) {
        digits_are_natural(s.skip(1));
    }
    if text_laws::all_digits(s) {
        digits_are_natural(s);
    }
    if text_laws::all_digits(text_laws::unsigned_part(s, '+')) {
        digits_are_natural(text_laws::unsigned_part(s, '+'));
    }
}

/// Those of the texts that are not empty.
pub open spec fn not_empty(items: Seq<Seq<char>>) -> Seq<Seq<char>> {
    items.filter(|s: Seq<char>| s.len() > 0)
}

/// Events are read between semicolons: if every text between them that is not
/// empty is an event these are the events, in order, and otherwise the first that
/// is none is the error.
pub proof fn events_are_read(s: Seq<char>)
    ensures
        ({
            let items = not_empty(text::split_on(s, ';'));
            match options::perf_events_of(s) {
                Ok(v) => v.len() == items.len() && forall|i: int|
                    #![trigger items[i]]
                    0 <= i < items.len() ==> is_event(items[i], v[i]),
                Err(e) => exists|i: int|
                    #![trigger items[i]]
                    0 <= i < items.len() && options::perf_event_of(items[i]) == Err::<
                        (Seq<char>, i32, i32),
                        Seq<char>,
                    >(e) && forall|j: int|
                        #![trigger items[j]]
                        0 <= j < i ==> options::perf_event_of(items[j]) is Ok,
            }
        }),
{
    let all = text::split_on(s, ';');
    assert(all.take(0) =~= Seq::<Seq<char>>::empty());
    reveal(Seq::filter);
    assert(not_empty(all.take(0)) =~= Seq::<Seq<char>>::empty());
    events_from(all, 0, Seq::empty());
}

/// Events are read from a place on, behind those that were found.
proof fn events_from(all: Seq<Seq<char>>, i: int, found: Seq<(Seq<char>, i32, i32)>)
    requires
        0 <= i <= all.len(),
        found.len() == not_empty(all.take(i)).len(),
        forall|j: int|
            #![trigger found[j]]
            0 <= j < found.len() ==> options::perf_event_of(not_empty(all.take(i))[j]) == Ok::<
                (Seq<char>, i32, i32),
                Seq<char>,
            >(found[j]),
    ensures
        ({
            let items = not_empty(all);
            match options::perf_events_from(all, i, found) {
                Ok(v) => v.len() == items.len() && forall|j: int|
                    #![trigger items[j]]
                    0 <= j < items.len() ==> is_event(items[j], v[j]),
                Err(e) => exists|j: int|
                    #![trigger items[j]]
                    0 <= j < items.len() && options::perf_event_of(items[j]) == Err::<
                        (Seq<char>, i32, i32),
                        Seq<char>,
                    >(e) && forall|m: int|
                        #![trigger items[m]]
                        0 <= m < j ==> options::perf_event_of(items[m]) is Ok,
            }
        }),
    decreases all.len() - i,
{
    let items = not_empty(all);
    let p = |s: Seq<char>| s.len() > 0;
    let done = not_empty(all.take(i));
    if i < all.len() {
        assert(all.take(i + 1) =~= all.take(i).push(all[i]));
        all.take(i).lemma_filter_push(all[i], p);
        if all[i].len() == 0 {
            events_from(all, i + 1, found);
        } else {
            let next = not_empty(all.take(i + 1));
            assert(next == done.push(all[i]));
            match options::perf_event_of(all[i]) {
                Ok(e) => {
                    let more = found.push(e);
                    assert forall|j: int|
                        #![trigger more[j]]
                        0 <= j < more.len() implies options::perf_event_of(next[j]) == Ok::<
                        (Seq<char>, i32, i32),
                        Seq<char>,
                    >(more[j]) by {
                        if j < found.len() {
                            assert(more[j] == found[j]);
                            assert(next[j] == done[j]);
                        }
                    }
                    events_from(all, i + 1, more);
                },
                Err(e) => {
                    assert(all =~= all.take(i + 1) + all.skip(i + 1));
                    Seq::filter_distributes_over_add(all.take(i + 1), all.skip(i + 1), p);
                    let n = done.len() as int;
                    assert(items[n] == all[i]);
                    assert forall|m: int| #![trigger items[m]] 0 <= m < n implies
                        options::perf_event_of(items[m]) is Ok by {
                        assert(items[m] == done[m]);
                        assert(found[m] == found[m]);
                    }
                },
            }
        }
    } else {
        assert(all.take(i) =~= all);
        assert forall|j: int| #![trigger items[j]] 0 <= j < items.len() implies is_event(
            items[j],
            found[j],
        ) by {
            assert(found[j] == found[j]);
            event_is_read(items[j], found[j]);
        }
    }
}

/// The names of events are taken as texts, and nothing else changes.
pub proof fn event_names_are_texts(v: Seq<(String, i32, i32)>)
    ensures
        options::event_texts(v).len() == v.len(),
        forall|i: int|
            #![trigger options::event_texts(v)[i]]
            0 <= i < v.len() ==> options::event_texts(v)[i].0 == v[i].0@ && options::event_texts(
                v,
            )[i].1 == v[i].1 && options::event_texts(v)[i].2 == v[i].2,
{
}

/// The number of 16 bits that the text stands for.
pub open spec fn core_number(s: Seq<char>, n: int) -> bool {
    text::unsigned_of(s, 0xffff) == Ok::<int, IntError>(n)
}

/// Whether the item names the cores from `a` to `b`: it is one number, or two with
/// a minus sign between them of which the first is below the second.
pub open spec fn names_range(item: Seq<char>, a: int, b: int) -> bool {
    let ends = text::split_on(item, '-');
    ||| ends.len() == 1 && core_number(item, a) && a == b
    ||| ends.len() == 2 && core_number(ends[0], a) && core_number(ends[1], b) && a < b
}

/// One piece is left exactly where there is nothing to split on.
proof fn one_piece_without(s: Seq<char>, c: char)
    ensures
        text::split_on(s, c).len() == 1 <==> !s.contains(c),
        text::split_on(s, c).len() >= 1,
{
    text::pieces_rejoin(s, c);
    let pieces = text::split_on(s, c);
    if pieces.len() == 1 {
        assert(pieces[0] == s);
        assert(!pieces[0].contains(c));
    }
    if pieces.len() > 1 {
        let rest = text::join_with(pieces.drop_first(), c);
        assert(s == pieces[0] + seq![c] + rest);
        assert(s[pieces[0].len() as int] == c);
    }
    if pieces.len() == 0 {
        split_has_a_piece(s, c, 0, 0);
    }
}

/// There is always a piece.
proof fn split_has_a_piece(s: Seq<char>, c: char, start: int, i: int)
    ensures
        text::split_from(s, c, start, i).len() >= 1,
    decreases s.len() - i,
{
    if i < s.len() && s[i] != c {
        split_has_a_piece(s, c, start, i + 1);
    }
}

/// An item of a list of cores is read as the cores that it names. It is refused if
/// it names none: as a bad range if it is two numbers of which the first is not
/// below the second, otherwise as a bad item.
pub proof fn cores_are_read(item: Seq<char>, a: int, b: int)
    ensures
        options::cores_of(item) == Ok::<(int, int), CpuListError>((a, b)) <==> names_range(
            item,
            a,
            b,
        ),
        ({
            let ends = text::split_on(item, '-');
            options::cores_of(item) == Err::<(int, int), CpuListError>(CpuListError::BadRange)
                <==> ends.len() == 2 && exists|x: int, y: int|
                #![trigger core_number(ends[0], x), core_number(ends[1], y)]
                core_number(ends[0], x) && core_number(ends[1], y) && x >= y
        }),
{
    one_piece_without(item, '-');
    let ends = text::split_on(item, '-');
    if ends.len() == 2 {
        if let (Ok(x), Ok(y)) = (
            text::unsigned_of(ends[0], 0xffff),
            text::unsigned_of(ends[1], 0xffff),
        ) {
            assert(core_number(ends[0], x) && core_number(ends[1], y));
        }
    }
}

/// A core is named by an item exactly if it lies between its ends.
pub proof fn named_cores_lie_between(item: Seq<char>, core: u16)
    ensures
        options::names_core(item, core) <==> exists|a: int, b: int|
            #[trigger] names_range(item, a, b) && a <= core <= b,
{
    if options::names_core(item, core) {
        let ends = options::cores_of(item)->Ok_0;
        cores_are_read(item, ends.0, ends.1);
        assert(names_range(item, ends.0, ends.1));
    }
    if exists|a: int, b: int| #[trigger] names_range(item, a, b) && a <= core <= b {
        let (a, b) = choose|a: int, b: int|
            #[trigger] names_range(item, a, b) && a <= core <= b;
        cores_are_read(item, a, b);
    }
}

/// The first bad item of a list is its error.
proof fn first_bad_item(items: Seq<Seq<char>>, i: int)
    requires
        0 <= i,
    ensures
        match options::cpulist_error(items, i) {
            None => forall|j: int|
                #![trigger items[j]]
                i <= j < items.len() ==> options::cores_of(items[j]) is Ok,
            Some(e) => exists|k: int|
                #![trigger items[k]]
                i <= k < items.len() && options::cores_of(items[k]) == Err::<
                    (int, int),
                    CpuListError,
                >(e) && forall|j: int|
                    #![trigger items[j]]
                    i <= j < k ==> options::cores_of(items[j]) is Ok,
        },
    decreases items.len() - i,
{
    if i < items.len() {
        first_bad_item(items, i + 1);
        if options::cores_of(items[i]) is Err {
            assert(options::cores_of(items[i]) is Err);
        } else if let Some(e) = options::cpulist_error(items, i + 1) {
            let k = choose|k: int|
                #![trigger items[k]]
                i + 1 <= k < items.len() && options::cores_of(items[k]) == Err::<
                    (int, int),
                    CpuListError,
                >(e) && forall|j: int|
                    #![trigger items[j]]
                    i + 1 <= j < k ==> options::cores_of(items[j]) is Ok;
            assert forall|j: int| #![trigger items[j]] i <= j < k implies options::cores_of(
                items[j],
            ) is Ok by {}
        }
    }
}

/// A list of cores is read as its cores, each once, in rising order; no text is the
/// default. If an item is bad, the first that is says why.
pub proof fn core_list_is_read(s: Seq<char>, r: Result<AffinityKind, String>)
    requires
        options::cpulist_read(s, r),
    ensures
        s.len() == 0 ==> r == Ok::<AffinityKind, String>(AffinityKind::OsDefault),
        ({
            let items = text::split_on(s, ',');
            s.len() > 0 ==> match r {
                Ok(AffinityKind::OsDefault) => false,
                Ok(AffinityKind::RoundRobin(v)) => {
                    &&& forall|k: int|
                        #![trigger items[k]]
                        0 <= k < items.len() ==> options::cores_of(items[k]) is Ok
                    &&& forall|i: int, j: int| 0 <= i < j < v@.len() ==> v@[i] < v@[j]
                    &&& forall|core: u16|
                        #![trigger v@.contains(core)]
                        v@.contains(core) <==> exists|k: int|
                            0 <= k < items.len() && options::names_core(#[trigger] items[k], core)
                },
                Err(m) => exists|k: int|
                    #![trigger items[k]]
                    0 <= k < items.len() && (forall|j: int|
                        #![trigger items[j]]
                        0 <= j < k ==> options::cores_of(items[j]) is Ok) && match options::cores_of(
                        items[k],
                    ) {
                        Ok(_) => false,
                        Err(CpuListError::BadItem) => m@
                            == "Core ids have been incorrectly specified"@,
                        Err(CpuListError::BadRange) => m@
                            == "Starting core id in range should be less than the end"@,
                    },
            }
        }),
{
    first_bad_item(text::split_on(s, ','), 0);
}

/// Threads can be bound to cores that the machine has.
pub proof fn bound_cores_exist(a: AffinityKind, n: u16)
    ensures
        a.valid_for(n) <==> match a {
            AffinityKind::OsDefault => true,
            AffinityKind::RoundRobin(v) => forall|core: u16| #[trigger]
                v@.contains(core) ==> core < n,
        },
{
    if let AffinityKind::RoundRobin(v) = a {
        if a.valid_for(n) {
            assert forall|core: u16| #[trigger] v@.contains(core) implies core < n by {
                let i = choose|i: int| 0 <= i < v@.len() && v@[i] == core;
                assert(v@[i] < n);
            }
        }
        if forall|core: u16| #[trigger] v@.contains(core) ==> core < n {
            assert forall|i: int| 0 <= i < v@.len() implies #[trigger] v@[i] < n by {
                assert(v@.contains(v@[i]));
            }
        }
    }
}

/// What a decimal fraction stands for is what was said of it first.
pub proof fn first_reading_counts(v: Seq<(Seq<char>, u64)>, i: int, s: Seq<char>)
    requires
        0 <= i,
    ensures
        match options::bits_from(v, i, s) {
            None => forall|j: int| #![trigger v[j]] i <= j < v.len() ==> v[j].0 != s,
            Some(bits) => exists|k: int|
                #![trigger v[k]]
                i <= k < v.len() && v[k].0 == s && v[k].1 == bits && forall|j: int|
                    #![trigger v[j]]
                    i <= j < k ==> v[j].0 != s,
        },
    decreases v.len() - i,
{
    if i < v.len() && v[i].0 != s {
        first_reading_counts(v, i + 1, s);
        if let Some(bits) = options::bits_from(v, i + 1, s) {
            let k = choose|k: int|
                #![trigger v[k]]
                i + 1 <= k < v.len() && v[k].0 == s && v[k].1 == bits && forall|j: int|
                    #![trigger v[j]]
                    i + 1 <= j < k ==> v[j].0 != s;
            assert forall|j: int| #![trigger v[j]] i <= j < k implies v[j].0 != s by {}
        }
    } else if i < v.len() {
        assert(v[i].0 == s);
    }
}

/// Whether the text is a size in bytes, or an underscore for the size `default`.
pub open spec fn is_size(s: Seq<char>, default: int, n: int) -> bool {
    if s == "_"@ {
        n == default
    } else {
        text::unsigned_of(s, usize::MAX as int) == Ok::<int, IntError>(n)
    }
}

/// Whether the text is a fraction, or an underscore for the fraction `default`.
pub open spec fn is_fraction(
    s: Seq<char>,
    p: Seq<(Seq<char>, u64)>,
    default: u64,
    bits: u64,
) -> bool {
    if s == "_"@ {
        bits == default
    } else {
        options::bits_from(p, 0, s) == Some(bits)
    }
}

/// A nursery is read from a text of two parts with a colon between them: how it is
/// bounded, and the bounds with a comma between them. An underscore is a default
/// bound: two mebibytes at least, one quarter at least, the whole heap at most.
pub proof fn nursery_is_read(s: Seq<char>, p: Seq<(Seq<char>, u64)>)
    ensures
        ({
            let parts = text::split_on(s, ':');
            let values = text::split_on(parts[1], ',');
            let high = if usize::MAX >= 0x100_0000_0000 {
                0x100_0000_0000int
            } else {
                0x200_0000int
            };
            match options::nursery_of(s, p) {
                Ok(NurserySize::Bounded { min, max }) => parts.len() == 2 && parts[0]
                    == "Bounded"@ && values.len() == 2 && is_size(
                    values[0],
                    0x20_0000,
                    min as int,
                ) && is_size(values[1], high, max as int),
                Ok(NurserySize::ProportionalBounded { min, max }) => parts.len() == 2 && parts[0]
                    == "ProportionalBounded"@ && values.len() == 2 && is_fraction(
                    values[0],
                    p,
                    0x3FD0_0000_0000_0000,
                    min,
                ) && is_fraction(values[1], p, 0x3FF0_0000_0000_0000, max),
                Ok(NurserySize::Fixed(n)) => parts.len() == 2 && parts[0] == "Fixed"@
                    && values.len() == 1 && text::unsigned_of(values[0], usize::MAX as int) == Ok::<
                    int,
                    IntError,
                >(n as int),
                Err(e) => {
                    if parts.len() != 2 {
                        e == "Invalid format"@
                    } else if parts[0] == "Bounded"@ {
                        if values.len() != 2 {
                            e == "Bounded requires two values"@
                        } else {
                            e == "Failed to parse \"usize\""@ && !((exists|n: int|
                                is_size(values[0], 0, n)) && (exists|n: int|
                                is_size(values[1], 0, n)))
                        }
                    } else if parts[0] == "ProportionalBounded"@ {
                        if values.len() != 2 {
                            e == "ProportionalBounded requires two values"@
                        } else {
                            e == "Failed to parse \"f64\""@ && !((exists|n: u64|
                                is_fraction(values[0], p, 0, n)) && (exists|n: u64|
                                is_fraction(values[1], p, 0, n)))
                        }
                    } else if parts[0] == "Fixed"@ {
                        if values.len() != 1 {
                            e == "Fixed requires one value"@
                        } else {
                            e == "Invalid size value"@ && text::unsigned_of(
                                values[0],
                                usize::MAX as int,
                            ) is Err
                        }
                    } else {
                        e == "Unknown variant"@
                    }
                },
            }
        }),
{
    let parts = text::split_on(s, ':');
    let values = text::split_on(parts[1], ',');
    text_laws::number_is_read(values[0], usize::MAX as int);
    text_laws::number_is_read(values[1], usize::MAX as int);
    value_is_natural(values[0]);
    value_is_natural(values[1]);
    reveal_strlit("Bounded");
    reveal_strlit("ProportionalBounded");
    reveal_strlit("Fixed");
    assert("Bounded"@.len() == 7);
    assert("ProportionalBounded"@.len() == 19);
    assert("Fixed"@.len() == 5);
}

/// A nursery has its bounds in order. As proportions they lie above zero and do
/// not exceed one, whose bits are given.
pub proof fn valid_nurseries(a: usize, b: usize, x: u64, y: u64)
    ensures
        (NurserySize::Bounded { min: a, max: b }).is_valid() <==> !(b < a),
        (NurserySize::ProportionalBounded { min: x, max: y }).is_valid() <==> x >= 1 && !(y < x)
            && y <= 0x3FF0_0000_0000_0000,
        NurserySize::Fixed(a).is_valid(),
{
}

} // verus!
