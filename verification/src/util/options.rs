//! The values that options take, and how they are read from text.

use crate::util::text;
use crate::util::text::{
    has_char, parse_signed, parse_u16, parse_usize, same, split,
};
use vstd::prelude::*;
use vstd::string::*;

verus! {

/// The stress factor that never triggers a stress collection.
pub const DEFAULT_STRESS_FACTOR: usize = usize::MAX;

/// The smallest nursery, in bytes, where none is given.
pub const DEFAULT_MIN_NURSERY: usize = 0x20_0000;

/// The largest nursery, in bytes, where none is given and addresses have 32
/// bits.
pub const DEFAULT_MAX_NURSERY_32: usize = 0x200_0000;

/// The smallest nursery as a proportion of the heap, where none is given: the
/// bits of one quarter.
pub const DEFAULT_PROPORTIONAL_MIN_NURSERY: u64 = 0x3FD0_0000_0000_0000;

/// The largest nursery as a proportion of the heap, where none is given: the
/// bits of one.
pub const DEFAULT_PROPORTIONAL_MAX_NURSERY: u64 = 0x3FF0_0000_0000_0000;

/// The largest nursery, in bytes, where none is given.
pub open spec fn default_max_nursery_size() -> int {
    if usize::MAX >= 0x100_0000_0000 {
        0x100_0000_0000
    } else {
        0x200_0000
    }
}

/// The largest nursery, in bytes, where none is given.
pub fn default_max_nursery() -> (r: usize)
    ensures
        r == default_max_nursery_size(),
{
    if usize::MAX as u64 >= 0x100_0000_0000u64 {
        0x100_0000_0000u64 as usize
    } else {
        DEFAULT_MAX_NURSERY_32
    }
}

/// How new objects are zeroed.
#[derive(Copy, Clone, Debug, PartialEq, Eq, Structural)]
pub enum NurseryZeroingOptions {
    /// By ordinary writes.
    Temporal,
    /// By writes that bypass the cache.
    Nontemporal,
    /// By a thread of its own.
    Concurrent,
    /// By writes that bypass the cache and a thread of its own.
    Adaptive,
}

impl NurseryZeroingOptions {
    /// The option of that name.
    pub open spec fn named(s: Seq<char>) -> Option<NurseryZeroingOptions> {
        if s == "Temporal"@ {
            Some(NurseryZeroingOptions::Temporal)
        } else if s == "Nontemporal"@ {
            Some(NurseryZeroingOptions::Nontemporal)
        } else if s == "Concurrent"@ {
            Some(NurseryZeroingOptions::Concurrent)
        } else if s == "Adaptive"@ {
            Some(NurseryZeroingOptions::Adaptive)
        } else {
            None
        }
    }

    /// The option of that name.
    pub fn from_str(s: &str) -> (r: Option<NurseryZeroingOptions>)
        ensures
            r == NurseryZeroingOptions::named(s@),
    {
        if same(s, "Temporal") {
            Some(NurseryZeroingOptions::Temporal)
        } else if same(s, "Nontemporal") {
            Some(NurseryZeroingOptions::Nontemporal)
        } else if same(s, "Concurrent") {
            Some(NurseryZeroingOptions::Concurrent)
        } else if same(s, "Adaptive") {
            Some(NurseryZeroingOptions::Adaptive)
        } else {
            None
        }
    }
}

/// The plan that collects garbage.
#[derive(Copy, Clone, Debug, PartialEq, Eq, Structural)]
pub enum PlanSelector {
    /// Nothing is collected.
    NoGC,
    /// Two halves, copied between.
    SemiSpace,
    /// A copying nursery before two halves.
    GenCopy,
    /// A copying nursery before Immix.
    GenImmix,
    /// Marking and sweeping.
    MarkSweep,
    /// A page for every object, protected once the object is dead.
    PageProtect,
    /// Lines and blocks, with opportunistic copying.
    Immix,
    /// Marking and compacting.
    MarkCompact,
    /// Immix with sticky marks.
    StickyImmix,
    /// A plan under development.
    MyGC,
}

impl PlanSelector {
    /// The plan of that name.
    pub open spec fn named(s: Seq<char>) -> Option<PlanSelector> {
        if s == "NoGC"@ {
            Some(PlanSelector::NoGC)
        } else if s == "SemiSpace"@ {
            Some(PlanSelector::SemiSpace)
        } else if s == "GenCopy"@ {
            Some(PlanSelector::GenCopy)
        } else if s == "GenImmix"@ {
            Some(PlanSelector::GenImmix)
        } else if s == "MarkSweep"@ {
            Some(PlanSelector::MarkSweep)
        } else if s == "PageProtect"@ {
            Some(PlanSelector::PageProtect)
        } else if s == "Immix"@ {
            Some(PlanSelector::Immix)
        } else if s == "MarkCompact"@ {
            Some(PlanSelector::MarkCompact)
        } else if s == "StickyImmix"@ {
            Some(PlanSelector::StickyImmix)
        } else if s == "MyGC"@ {
            Some(PlanSelector::MyGC)
        } else {
            None
        }
    }

    /// The plan of that name.
    pub fn from_str(s: &str) -> (r: Option<PlanSelector>)
        ensures
            r == PlanSelector::named(s@),
    {
        if same(s, "NoGC") {
            Some(PlanSelector::NoGC)
        } else if same(s, "SemiSpace") {
            Some(PlanSelector::SemiSpace)
        } else if same(s, "GenCopy") {
            Some(PlanSelector::GenCopy)
        } else if same(s, "GenImmix") {
            Some(PlanSelector::GenImmix)
        } else if same(s, "MarkSweep") {
            Some(PlanSelector::MarkSweep)
        } else if same(s, "PageProtect") {
            Some(PlanSelector::PageProtect)
        } else if same(s, "Immix") {
            Some(PlanSelector::Immix)
        } else if same(s, "MarkCompact") {
            Some(PlanSelector::MarkCompact)
        } else if same(s, "StickyImmix") {
            Some(PlanSelector::StickyImmix)
        } else if same(s, "MyGC") {
            Some(PlanSelector::MyGC)
        } else {
            None
        }
    }
}

/// Events of the processor to count.
///
/// An event is its name, a process and a core with commas between them. Events
/// have semicolons between them.
#[derive(Debug, Clone, PartialEq, Eq)]
pub struct PerfEventOptions {
    /// The name, the process and the core of each event.
    pub events: Vec<(String, i32, i32)>,
}

/// The event that a text without semicolons stands for.
pub open spec fn perf_event_of(s: Seq<char>) -> Result<(Seq<char>, i32, i32), Seq<char>> {
    let parts = text::split_on(s, ',');
    if parts.len() != 3 {
        Err("Please supply (event name, pid, cpu)"@)
    } else {
        match text::signed_of(parts[1]) {
            Err(_) => Err("Failed to parse cpu"@),
            Ok(pid) => match text::signed_of(parts[2]) {
                Err(_) => Err("Failed to parse cpu"@),
                Ok(cpu) => Ok((parts[0], pid as i32, cpu as i32)),
            },
        }
    }
}

/// The events behind `found` that the texts from place `i` on stand for. Empty
/// texts are passed over, and the first text that is no event is the error.
pub open spec fn perf_events_from(
    items: Seq<Seq<char>>,
    i: int,
    found: Seq<(Seq<char>, i32, i32)>,
) -> Result<Seq<(Seq<char>, i32, i32)>, Seq<char>>
    decreases items.len() - i,
{
    if i >= items.len() {
        Ok(found)
    } else if items[i].len() == 0 {
        perf_events_from(items, i + 1, found)
    } else {
        match perf_event_of(items[i]) {
            Err(e) => Err(e),
            Ok(event) => perf_events_from(items, i + 1, found.push(event)),
        }
    }
}

/// The events that the text stands for.
pub open spec fn perf_events_of(s: Seq<char>) -> Result<Seq<(Seq<char>, i32, i32)>, Seq<char>> {
    perf_events_from(text::split_on(s, ';'), 0, Seq::empty())
}

/// The events, with their names as texts.
pub open spec fn event_texts(v: Seq<(String, i32, i32)>) -> Seq<(Seq<char>, i32, i32)> {
    Seq::new(v.len(), |i: int| (v[i].0@, v[i].1, v[i].2))
}

impl PerfEventOptions {
    /// Reads one event.
    fn parse_perf_event(s: &str) -> (r: Result<(String, i32, i32), String>)
        ensures
            match r {
                Ok(e) => perf_event_of(s@) == Ok::<(Seq<char>, i32, i32), Seq<char>>(
                    (e.0@, e.1, e.2),
                ),
                Err(e) => perf_event_of(s@) == Err::<(Seq<char>, i32, i32), Seq<char>>(e@),
            },
    {
        let parts = split(s, ',');
        assert(text::texts(parts@).len() == parts@.len());
        if parts.len() != 3 {
            return Err("Please supply (event name, pid, cpu)".to_owned());
        }
        assert(text::texts(parts@)[0] == parts@[0]@);
        assert(text::texts(parts@)[1] == parts@[1]@);
        assert(text::texts(parts@)[2] == parts@[2]@);
        let event_name = parts[0].to_owned();
        let pid: i32 = match parse_signed(parts[1]) {
            Ok(n) => n,
            Err(_) => {
                return Err("Failed to parse cpu".to_owned());
            },
        };
        let cpu: i32 = match parse_signed(parts[2]) {
            Ok(n) => n,
            Err(_) => {
                return Err("Failed to parse cpu".to_owned());
            },
        };
        Ok((event_name, pid, cpu))
    }

    /// Reads events.
    pub fn parse_perf_events(events: &str) -> (r: Result<Vec<(String, i32, i32)>, String>)
        ensures
            match r {
                Ok(v) => perf_events_of(events@) == Ok::<
                    Seq<(Seq<char>, i32, i32)>,
                    Seq<char>,
                >(event_texts(v@)),
                Err(e) => perf_events_of(events@) == Err::<
                    Seq<(Seq<char>, i32, i32)>,
                    Seq<char>,
                >(e@),
            },
    {
        let items = split(events, ';');
        let ghost all = text::texts(items@);
        let mut found: Vec<(String, i32, i32)> = Vec::new();
        let mut i: usize = 0;
        assert(event_texts(found@) =~= Seq::<(Seq<char>, i32, i32)>::empty());
        while i < items.len()
            invariant
                i <= items@.len(),
                all == text::texts(items@),
                perf_events_of(events@) == perf_events_from(all, i as int, event_texts(found@)),
            decreases items@.len() - i,
        {
            assert(all[i as int] == items@[i as int]@);
            if items[i].unicode_len() > 0 {
                let ghost before = event_texts(found@);
                match Self::parse_perf_event(items[i]) {
                    Err(e) => {
                        return Err(e);
                    },
                    Ok(event) => {
                        let ghost model = (event.0@, event.1, event.2);
                        found.push(event);
                        assert(event_texts(found@) =~= before.push(model));
                    },
                }
            }
            i = i + 1;
        }
        Ok(found)
    }

    /// Reads events.
    pub fn from_str(s: &str) -> (r: Result<PerfEventOptions, String>)
        ensures
            match r {
                Ok(v) => perf_events_of(s@) == Ok::<Seq<(Seq<char>, i32, i32)>, Seq<char>>(
                    event_texts(v.events@),
                ),
                Err(e) => perf_events_of(s@) == Err::<Seq<(Seq<char>, i32, i32)>, Seq<char>>(e@),
            },
    {
        match Self::parse_perf_events(s) {
            Ok(events) => Ok(PerfEventOptions { events }),
            Err(e) => Err(e),
        }
    }
}

/// How threads are bound to cores.
#[derive(Clone, Debug, PartialEq)]
pub enum AffinityKind {
    /// As the operating system sees fit.
    OsDefault,
    /// To the cores of a list in turn.
    RoundRobin(Vec<u16>),
}

/// Why a text is no list of cores.
#[derive(Clone, Copy, Debug, PartialEq, Eq, Structural)]
pub enum CpuListError {
    /// An item is neither a core nor a range of cores.
    BadItem,
    /// A range does not begin below its end.
    BadRange,
}

impl CpuListError {
    /// The error in words.
    pub open spec fn text(self) -> Seq<char> {
        match self {
            CpuListError::BadItem => "Core ids have been incorrectly specified"@,
            CpuListError::BadRange => "Starting core id in range should be less than the end"@,
        }
    }

    /// The error in words.
    fn message(self) -> (r: String)
        ensures
            r@ == self.text(),
    {
        match self {
            CpuListError::BadItem => "Core ids have been incorrectly specified".to_owned(),
            CpuListError::BadRange => {
                "Starting core id in range should be less than the end".to_owned()
            },
        }
    }
}

/// The first and the last core of an item: a core, or two cores with a minus
/// sign between them.
pub open spec fn cores_of(item: Seq<char>) -> Result<(int, int), CpuListError> {
    let ends = text::split_on(item, '-');
    if !item.contains('-') {
        match text::unsigned_of(item, 0xffff) {
            Ok(n) => Ok((n, n)),
            Err(_) => Err(CpuListError::BadItem),
        }
    } else if ends.len() != 2 {
        Err(CpuListError::BadItem)
    } else {
        match (text::unsigned_of(ends[0], 0xffff), text::unsigned_of(ends[1], 0xffff)) {
            (Ok(first), Ok(last)) => if first >= last {
                Err(CpuListError::BadRange)
            } else {
                Ok((first, last))
            },
            _ => Err(CpuListError::BadItem),
        }
    }
}

/// Whether the item names the core.
pub open spec fn names_core(item: Seq<char>, core: u16) -> bool {
    cores_of(item) matches Ok(ends) && ends.0 <= core <= ends.1
}

/// The error of the first bad item from place `i` on.
pub open spec fn cpulist_error(items: Seq<Seq<char>>, i: int) -> Option<CpuListError>
    decreases items.len() - i,
{
    if i >= items.len() {
        None
    } else {
        match cores_of(items[i]) {
            Err(e) => Some(e),
            Ok(_) => cpulist_error(items, i + 1),
        }
    }
}

/// Whether the cores rise strictly.
pub open spec fn rising(v: Seq<u16>) -> bool {
    forall|i: int, j: int| 0 <= i < j < v.len() ==> v[i] < v[j]
}

/// Whether `v` holds exactly the cores that one of the first `n` items names.
pub open spec fn holds_cores(v: Seq<u16>, items: Seq<Seq<char>>, n: int) -> bool {
    forall|core: u16|
        #![trigger v.contains(core)]
        v.contains(core) <==> exists|k: int| 0 <= k < n && names_core(#[trigger] items[k], core)
}

/// What reading a list of cores gives: nothing is the default, and a list gives
/// its cores, each once, in rising order.
pub open spec fn cpulist_read(s: Seq<char>, r: Result<AffinityKind, String>) -> bool {
    let items = text::split_on(s, ',');
    if s.len() == 0 {
        r == Ok::<AffinityKind, String>(AffinityKind::OsDefault)
    } else {
        match cpulist_error(items, 0) {
            Some(e) => r matches Err(m) && m@ == e.text(),
            None => r matches Ok(AffinityKind::RoundRobin(v)) && rising(v@) && holds_cores(
                v@,
                items,
                items.len() as int,
            ),
        }
    }
}

/// Puts the core into the list, unless it is there.
fn insert_core(v: &mut Vec<u16>, core: u16)
    requires
        rising(old(v)@),
    ensures
        rising(final(v)@),
        forall|c: u16| #[trigger] final(v)@.contains(c) <==> old(v)@.contains(c) || c == core,
{
    let mut i: usize = 0;
    while i < v.len() && v[i] < core
        invariant
            i <= v@.len(),
            *v == *old(v),
            forall|k: int| 0 <= k < i ==> v@[k] < core,
        decreases v@.len() - i,
    {
        i = i + 1;
    }
    if i < v.len() && v[i] == core {
        assert(v@[i as int] == core);
        return;
    }
    let ghost before = v@;
    v.insert(i, core);
    assert(v@ =~= before.insert(i as int, core));
    assert forall|c: u16| #[trigger] v@.contains(c) <==> before.contains(c) || c == core by {
        if before.contains(c) {
            let k = choose|k: int| 0 <= k < before.len() && before[k] == c;
            if k < i {
                assert(v@[k] == c);
            } else {
                assert(v@[k + 1] == c);
            }
        }
        if c == core {
            assert(v@[i as int] == core);
        }
        if v@.contains(c) && c != core {
            let k = choose|k: int| 0 <= k < v@.len() && v@[k] == c;
            if k < i {
                assert(before[k] == c);
            } else {
                assert(before[k - 1] == c);
            }
        }
    }
}

/// Puts the cores from `first` to `last` into the list.
fn insert_cores(v: &mut Vec<u16>, first: u16, last: u16)
    requires
        rising(old(v)@),
        first <= last,
    ensures
        rising(final(v)@),
        forall|c: u16| #[trigger]
            final(v)@.contains(c) <==> old(v)@.contains(c) || first <= c <= last,
{
    let mut core: u16 = first;
    insert_core(v, core);
    while core < last
        invariant
            first <= core <= last,
            rising(v@),
            forall|c: u16| #[trigger] v@.contains(c) <==> old(v)@.contains(c) || first <= c <= core,
        decreases last - core,
    {
        core = core + 1;
        insert_core(v, core);
    }
}

impl AffinityKind {
    /// Reads one item of a list of cores.
    fn parse_item(item: &str) -> (r: Result<(u16, u16), CpuListError>)
        ensures
            match r {
                Ok(p) => cores_of(item@) == Ok::<(int, int), CpuListError>((p.0 as int, p.1 as int))
                    && p.0 <= p.1,
                Err(e) => cores_of(item@) == Err::<(int, int), CpuListError>(e),
            },
    {
        if !has_char(item, '-') {
            match parse_u16(item) {
                Ok(core) => Ok((core, core)),
                Err(_) => Err(CpuListError::BadItem),
            }
        } else {
            let range = split(item, '-');
            assert(text::texts(range@).len() == range@.len());
            if range.len() == 2 {
                assert(text::texts(range@)[0] == range@[0]@);
                assert(text::texts(range@)[1] == range@[1]@);
                if let Ok(start) = parse_u16(range[0]) {
                    if let Ok(end) = parse_u16(range[1]) {
                        if start >= end {
                            return Err(CpuListError::BadRange);
                        }
                        return Ok((start, end));
                    }
                }
            }
            Err(CpuListError::BadItem)
        }
    }

    /// Reads a list of cores: cores and ranges of cores with commas between
    /// them, and no spaces.
    pub fn parse_cpulist(cpulist: &str) -> (r: Result<AffinityKind, String>)
        ensures
            cpulist_read(cpulist@, r),
    {
        if cpulist.unicode_len() == 0 {
            return Ok(AffinityKind::OsDefault);
        }
        let items = split(cpulist, ',');
        let ghost all = text::texts(items@);
        let mut cpuset: Vec<u16> = Vec::new();
        let mut i: usize = 0;
        while i < items.len()
            invariant
                i <= items@.len(),
                cpulist@.len() > 0,
                all == text::texts(items@),
                all == text::split_on(cpulist@, ','),
                rising(cpuset@),
                holds_cores(cpuset@, all, i as int),
                cpulist_error(all, 0) == cpulist_error(all, i as int),
            decreases items@.len() - i,
        {
            assert(all[i as int] == items@[i as int]@);
            match Self::parse_item(items[i]) {
                Err(e) => {
                    return Err(e.message());
                },
                Ok((first, last)) => {
                    let ghost before = cpuset@;
                    insert_cores(&mut cpuset, first, last);
                    assert forall|core: u16| #[trigger] cpuset@.contains(core) <==> exists|k: int|
                        0 <= k < i + 1 && names_core(#[trigger] all[k], core) by {
                        assert(names_core(all[i as int], core) == (first <= core <= last));
                        if before.contains(core) {
                            let k = choose|k: int|
                                0 <= k < i && names_core(#[trigger] all[k], core);
                            assert(0 <= k < i + 1 && names_core(all[k], core));
                        }
                        if exists|k: int| 0 <= k < i + 1 && names_core(#[trigger] all[k], core) {
                            let k = choose|k: int|
                                0 <= k < i + 1 && names_core(#[trigger] all[k], core);
                            if k < i {
                                assert(0 <= k < i && names_core(all[k], core));
                            }
                        }
                    }
                },
            }
            i = i + 1;
        }
        Ok(AffinityKind::RoundRobin(cpuset))
    }

    /// Reads a list of cores.
    pub fn from_str(s: &str) -> (r: Result<AffinityKind, String>)
        ensures
            cpulist_read(s@, r),
    {
        Self::parse_cpulist(s)
    }

    /// Whether every core is below the number of cores.
    pub open spec fn valid_for(self, num_cpu: u16) -> bool {
        match self {
            AffinityKind::OsDefault => true,
            AffinityKind::RoundRobin(v) => forall|i: int|
                0 <= i < v@.len() ==> #[trigger] v@[i] < num_cpu,
        }
    }

    /// Whether every core is below the number of cores.
    pub fn validate_for(&self, num_cpu: u16) -> (r: bool)
        ensures
            r == self.valid_for(num_cpu),
    {
        if let AffinityKind::RoundRobin(cpuset) = self {
            let ghost cores = cpuset@;
            let mut i: usize = 0;
            while i < cpuset.len()
                invariant
                    *self == AffinityKind::RoundRobin(*cpuset),
                    cores == cpuset@,
                    self.valid_for(num_cpu) == (forall|k: int|
                        0 <= k < cores.len() ==> #[trigger] cores[k] < num_cpu),
                    i <= cpuset@.len(),
                    forall|k: int| 0 <= k < i ==> #[trigger] cpuset@[k] < num_cpu,
                decreases cpuset@.len() - i,
            {
                if cpuset[i] >= num_cpu {
                    assert(!(cores[i as int] < num_cpu));
                    return false;
                }
                i = i + 1;
            }
        }
        true
    }

    /// Whether the threads can be bound so on this machine. A machine has at
    /// least one core, numbered 0.
    pub fn validate(&self) -> (r: bool)
        ensures
            exists|n: u16| 1 <= n && r == #[trigger] self.valid_for(n),
    {
        let n: u16 = get_total_num_cpus();
        self.validate_for(n)
    }
}

/// `num_cpus::get`: how many cores this thread may use, at least one. The number
/// is the machine's and may change, so nothing more is said of it.
#[verifier::external_body]
pub(crate) fn available_cpus() -> (r: usize)
    ensures
        r >= 1,
{
    num_cpus::get()
}

/// How many cores this thread may use, at most what a core's number can be.
pub fn get_total_num_cpus() -> (r: u16)
    ensures
        r >= 1,
{
    let n: usize = available_cpus();
    core_count(n)
}

/// How many of `n` cores are counted: all, up to what a core's number can be.
pub fn core_count(n: usize) -> (r: u16)
    ensures
        r == (if n > 0xffff {
            0xffff
        } else {
            n as int
        }),
{
    if n > 0xffff {
        0xffff
    } else {
        n as u16
    }
}

/// Decimal fractions and the bits of the numbers of double precision that they
/// stand for. A text that is not here stands for no number.
#[derive(Clone, Debug)]
pub struct Proportions {
    /// The texts and the bits.
    pub readings: Vec<(String, u64)>,
}

/// The bits that the first of the texts from place `i` on that is `s` stands for.
pub open spec fn bits_from(v: Seq<(Seq<char>, u64)>, i: int, s: Seq<char>) -> Option<u64>
    decreases v.len() - i,
{
    if i >= v.len() {
        None
    } else if v[i].0 == s {
        Some(v[i].1)
    } else {
        bits_from(v, i + 1, s)
    }
}

impl View for Proportions {
    type V = Seq<(Seq<char>, u64)>;

    /// The texts and the bits.
    open spec fn view(&self) -> Seq<(Seq<char>, u64)> {
        Seq::new(self.readings@.len(), |i: int| (self.readings@[i].0@, self.readings@[i].1))
    }
}

impl Proportions {
    /// No texts.
    pub fn new() -> (r: Proportions)
        ensures
            r@ == Seq::<(Seq<char>, u64)>::empty(),
    {
        let r = Proportions { readings: Vec::new() };
        assert(r@ =~= Seq::<(Seq<char>, u64)>::empty());
        r
    }

    /// Adds a text and its bits.
    pub fn learn(&mut self, s: &str, bits: u64)
        ensures
            final(self)@ == old(self)@.push((s@, bits)),
    {
        self.readings.push((s.to_owned(), bits));
        assert(self@ =~= old(self)@.push((s@, bits)));
    }

    /// The bits that the text stands for.
    pub fn bits(&self, s: &str) -> (r: Option<u64>)
        ensures
            r == bits_from(self@, 0, s@),
    {
        let mut i: usize = 0;
        while i < self.readings.len()
            invariant
                i <= self.readings@.len(),
                bits_from(self@, 0, s@) == bits_from(self@, i as int, s@),
            decreases self.readings@.len() - i,
        {
            assert(self@[i as int] == (self.readings@[i as int].0@, self.readings@[i as int].1));
            if same(self.readings[i].0.as_str(), s) {
                return Some(self.readings[i].1);
            }
            i = i + 1;
        }
        None
    }
}

/// How large the nursery is.
#[derive(Copy, Clone, Debug, PartialEq, Eq, Structural)]
pub enum NurserySize {
    /// Between two sizes in bytes.
    Bounded {
        /// The smallest size.
        min: usize,
        /// The largest size.
        max: usize,
    },
    /// Between two proportions of the heap, given by the bits of numbers of
    /// double precision.
    ProportionalBounded {
        /// The smallest proportion.
        min: u64,
        /// The largest proportion.
        max: u64,
    },
    /// Of one size in bytes.
    Fixed(usize),
}

/// The size in bytes that the text stands for, or `default` for an underscore.
pub open spec fn size_or(s: Seq<char>, default: int) -> Result<int, Seq<char>> {
    if s == "_"@ {
        Ok(default)
    } else {
        match text::unsigned_of(s, usize::MAX as int) {
            Ok(n) => Ok(n),
            Err(_) => Err("Failed to parse \"usize\""@),
        }
    }
}

/// The proportion that the text stands for, or `default` for an underscore.
pub open spec fn proportion_or(
    s: Seq<char>,
    p: Seq<(Seq<char>, u64)>,
    default: u64,
) -> Result<u64, Seq<char>> {
    if s == "_"@ {
        Ok(default)
    } else {
        match bits_from(p, 0, s) {
            Some(bits) => Ok(bits),
            None => Err("Failed to parse \"f64\""@),
        }
    }
}

/// Both results, or the first error.
pub open spec fn both<T>(a: Result<T, Seq<char>>, b: Result<T, Seq<char>>) -> Result<
    (T, T),
    Seq<char>,
> {
    match a {
        Err(e) => Err(e),
        Ok(x) => match b {
            Err(e) => Err(e),
            Ok(y) => Ok((x, y)),
        },
    }
}

/// The nursery that the text stands for.
pub open spec fn nursery_of(s: Seq<char>, p: Seq<(Seq<char>, u64)>) -> Result<
    NurserySize,
    Seq<char>,
> {
    let parts = text::split_on(s, ':');
    let values = text::split_on(parts[1], ',');
    if parts.len() != 2 {
        Err("Invalid format"@)
    } else if parts[0] == "Bounded"@ {
        if values.len() != 2 {
            Err("Bounded requires two values"@)
        } else {
            match both(
                size_or(values[0], DEFAULT_MIN_NURSERY as int),
                size_or(values[1], default_max_nursery_size()),
            ) {
                Ok(v) => Ok(NurserySize::Bounded { min: v.0 as usize, max: v.1 as usize }),
                Err(e) => Err(e),
            }
        }
    } else if parts[0] == "ProportionalBounded"@ {
        if values.len() != 2 {
            Err("ProportionalBounded requires two values"@)
        } else {
            match both(
                proportion_or(values[0], p, DEFAULT_PROPORTIONAL_MIN_NURSERY),
                proportion_or(values[1], p, DEFAULT_PROPORTIONAL_MAX_NURSERY),
            ) {
                Ok(v) => Ok(NurserySize::ProportionalBounded { min: v.0, max: v.1 }),
                Err(e) => Err(e),
            }
        }
    } else if parts[0] == "Fixed"@ {
        if values.len() != 1 {
            Err("Fixed requires one value"@)
        } else {
            match text::unsigned_of(values[0], usize::MAX as int) {
                Ok(n) => Ok(NurserySize::Fixed(n as usize)),
                Err(_) => Err("Invalid size value"@),
            }
        }
    } else {
        Err("Unknown variant"@)
    }
}

/// Reads a size, or takes the default for an underscore.
fn default_or_parse_size(val: &str, default_value: usize) -> (r: Result<usize, String>)
    ensures
        match r {
            Ok(n) => size_or(val@, default_value as int) == Ok::<int, Seq<char>>(n as int),
            Err(e) => size_or(val@, default_value as int) == Err::<int, Seq<char>>(e@),
        },
{
    if same(val, "_") {
        Ok(default_value)
    } else {
        match parse_usize(val) {
            Ok(n) => Ok(n),
            Err(_) => Err("Failed to parse \"usize\"".to_owned()),
        }
    }
}

/// Reads a proportion, or takes the default for an underscore.
fn default_or_parse_proportion(val: &str, p: &Proportions, default_value: u64) -> (r: Result<
    u64,
    String,
>)
    ensures
        match r {
            Ok(n) => proportion_or(val@, p@, default_value) == Ok::<u64, Seq<char>>(n),
            Err(e) => proportion_or(val@, p@, default_value) == Err::<u64, Seq<char>>(e@),
        },
{
    if same(val, "_") {
        Ok(default_value)
    } else {
        match p.bits(val) {
            Some(bits) => Ok(bits),
            None => Err("Failed to parse \"f64\"".to_owned()),
        }
    }
}

impl NurserySize {
    /// Whether the bounds are in order, and proportions are above zero and at
    /// most one.
    ///
    /// The bits of numbers of double precision that are not below zero are
    /// ordered as the numbers are. The bits of all others, and of what is no
    /// number, lie above the bits of one.
    pub open spec fn is_valid(self) -> bool {
        match self {
            NurserySize::Bounded { min, max } => min <= max,
            NurserySize::ProportionalBounded { min, max } => 0 < min <= max
                <= DEFAULT_PROPORTIONAL_MAX_NURSERY,
            NurserySize::Fixed(_) => true,
        }
    }

    /// Whether the bounds are in order.
    pub fn validate(&self) -> (r: bool)
        ensures
            r == self.is_valid(),
    {
        match *self {
            NurserySize::Bounded { min, max } => min <= max,
            NurserySize::ProportionalBounded { min, max } => 0 < min && min <= max && max
                <= DEFAULT_PROPORTIONAL_MAX_NURSERY,
            NurserySize::Fixed(_) => true,
        }
    }

    /// The texts of the proportions, where the text speaks of two.
    pub fn proportion_texts<'a>(s: &'a str) -> (r: Option<(&'a str, &'a str)>)
        ensures
            ({
                let parts = text::split_on(s@, ':');
                let values = text::split_on(parts[1], ',');
                match r {
                    Some(v) => parts.len() == 2 && parts[0] == "ProportionalBounded"@
                        && values.len() == 2 && values[0] == v.0@ && values[1] == v.1@,
                    None => parts.len() != 2 || parts[0] != "ProportionalBounded"@ || values.len()
                        != 2,
                }
            }),
    {
        let parts = split(s, ':');
        assert(text::texts(parts@).len() == parts@.len());
        if parts.len() != 2 {
            return None;
        }
        assert(text::texts(parts@)[0] == parts@[0]@);
        assert(text::texts(parts@)[1] == parts@[1]@);
        let values = split(parts[1], ',');
        assert(text::texts(values@).len() == values@.len());
        if !same(parts[0], "ProportionalBounded") || values.len() != 2 {
            return None;
        }
        assert(text::texts(values@)[0] == values@[0]@);
        assert(text::texts(values@)[1] == values@[1]@);
        Some((values[0], values[1]))
    }

    /// Reads a nursery size: `Bounded` or `ProportionalBounded` with two values,
    /// or `Fixed` with one. An underscore stands for the default of a bound.
    pub fn from_str(s: &str, p: &Proportions) -> (r: Result<NurserySize, String>)
        ensures
            match r {
                Ok(n) => nursery_of(s@, p@) == Ok::<NurserySize, Seq<char>>(n),
                Err(e) => nursery_of(s@, p@) == Err::<NurserySize, Seq<char>>(e@),
            },
    {
        let parts = split(s, ':');
        assert(text::texts(parts@).len() == parts@.len());
        if parts.len() != 2 {
            return Err("Invalid format".to_owned());
        }
        assert(text::texts(parts@)[0] == parts@[0]@);
        assert(text::texts(parts@)[1] == parts@[1]@);
        let variant = parts[0];
        let values = split(parts[1], ',');
        assert(text::texts(values@).len() == values@.len());
        assert(values@.len() > 0 ==> text::texts(values@)[0] == values@[0]@);
        assert(values@.len() > 1 ==> text::texts(values@)[1] == values@[1]@);
        if same(variant, "Bounded") {
            if values.len() == 2 {
                let min: usize = match default_or_parse_size(values[0], DEFAULT_MIN_NURSERY) {
                    Ok(n) => n,
                    Err(e) => {
                        return Err(e);
                    },
                };
                let max: usize = match default_or_parse_size(values[1], default_max_nursery()) {
                    Ok(n) => n,
                    Err(e) => {
                        return Err(e);
                    },
                };
                Ok(NurserySize::Bounded { min, max })
            } else {
                Err("Bounded requires two values".to_owned())
            }
        } else if same(variant, "ProportionalBounded") {
            if values.len() == 2 {
                let min: u64 = match default_or_parse_proportion(
                    values[0],
                    p,
                    DEFAULT_PROPORTIONAL_MIN_NURSERY,
                ) {
                    Ok(n) => n,
                    Err(e) => {
                        return Err(e);
                    },
                };
                let max: u64 = match default_or_parse_proportion(
                    values[1],
                    p,
                    DEFAULT_PROPORTIONAL_MAX_NURSERY,
                ) {
                    Ok(n) => n,
                    Err(e) => {
                        return Err(e);
                    },
                };
                Ok(NurserySize::ProportionalBounded { min, max })
            } else {
                Err("ProportionalBounded requires two values".to_owned())
            }
        } else if same(variant, "Fixed") {
            if values.len() == 1 {
                match parse_usize(values[0]) {
                    Ok(n) => Ok(NurserySize::Fixed(n)),
                    Err(_) => Err("Invalid size value".to_owned()),
                }
            } else {
                Err("Fixed requires one value".to_owned())
            }
        } else {
            Err("Unknown variant".to_owned())
        }
    }
}

} // verus!
