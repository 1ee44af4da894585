//! The table of options.

use crate::util::gc_trigger;
use crate::util::gc_trigger::{to_lowercase, GCTriggerSelector};
use crate::util::options;
use crate::util::options::{
    available_cpus, AffinityKind, NurserySize, NurseryZeroingOptions, PerfEventOptions,
    PlanSelector, Proportions, DEFAULT_PROPORTIONAL_MAX_NURSERY, DEFAULT_PROPORTIONAL_MIN_NURSERY,
    DEFAULT_STRESS_FACTOR,
};
use crate::util::text;
use crate::util::text::{parse_usize, same, split, strip_prefix, words};
use vstd::prelude::*;

verus! {

/// A value that an option can take.
pub trait OptionValue: Sized {
    /// Whether the text stands for a value. `p` says what decimal fractions
    /// stand for.
    spec fn readable(s: Seq<char>, p: Seq<(Seq<char>, u64)>) -> bool;

    /// Whether the text stands for the value.
    spec fn reads_as(s: Seq<char>, p: Seq<(Seq<char>, u64)>, value: Self) -> bool;

    /// The value that the text stands for.
    fn from_text(s: &str, p: &Proportions) -> (r: Option<Self>)
        ensures
            r is Some <==> Self::readable(s@, p@),
            r matches Some(value) ==> Self::reads_as(s@, p@, value),
    ;
}

impl OptionValue for bool {
    open spec fn readable(s: Seq<char>, p: Seq<(Seq<char>, u64)>) -> bool {
        s == "true"@ || s == "false"@
    }

    open spec fn reads_as(s: Seq<char>, p: Seq<(Seq<char>, u64)>, value: Self) -> bool {
        Self::readable(s, p) && value == (s == "true"@)
    }

    fn from_text(s: &str, p: &Proportions) -> (r: Option<Self>) {
        if same(s, "true") {
            Some(true)
        } else if same(s, "false") {
            Some(false)
        } else {
            None
        }
    }
}

impl OptionValue for usize {
    open spec fn readable(s: Seq<char>, p: Seq<(Seq<char>, u64)>) -> bool {
        text::unsigned_of(s, usize::MAX as int) is Ok
    }

    open spec fn reads_as(s: Seq<char>, p: Seq<(Seq<char>, u64)>, value: Self) -> bool {
        text::unsigned_of(s, usize::MAX as int) == Ok::<int, text::IntError>(value as int)
    }

    fn from_text(s: &str, p: &Proportions) -> (r: Option<Self>) {
        match parse_usize(s) {
            Ok(n) => Some(n),
            Err(_) => None,
        }
    }
}

/// An address.
#[derive(Copy, Clone, Debug, PartialEq, Eq, Structural)]
pub struct Address {
    /// The address as a number.
    pub raw: usize,
}

impl OptionValue for Address {
    open spec fn readable(s: Seq<char>, p: Seq<(Seq<char>, u64)>) -> bool {
        text::unsigned_of(s, usize::MAX as int) is Ok
    }

    open spec fn reads_as(s: Seq<char>, p: Seq<(Seq<char>, u64)>, value: Self) -> bool {
        text::unsigned_of(s, usize::MAX as int) == Ok::<int, text::IntError>(value.raw as int)
    }

    fn from_text(s: &str, p: &Proportions) -> (r: Option<Self>) {
        match parse_usize(s) {
            Ok(n) => Some(Address { raw: n }),
            Err(_) => None,
        }
    }
}

impl OptionValue for PlanSelector {
    open spec fn readable(s: Seq<char>, p: Seq<(Seq<char>, u64)>) -> bool {
        PlanSelector::named(s) is Some
    }

    open spec fn reads_as(s: Seq<char>, p: Seq<(Seq<char>, u64)>, value: Self) -> bool {
        PlanSelector::named(s) == Some(value)
    }

    fn from_text(s: &str, p: &Proportions) -> (r: Option<Self>) {
        PlanSelector::from_str(s)
    }
}

impl OptionValue for NurseryZeroingOptions {
    open spec fn readable(s: Seq<char>, p: Seq<(Seq<char>, u64)>) -> bool {
        NurseryZeroingOptions::named(s) is Some
    }

    open spec fn reads_as(s: Seq<char>, p: Seq<(Seq<char>, u64)>, value: Self) -> bool {
        NurseryZeroingOptions::named(s) == Some(value)
    }

    fn from_text(s: &str, p: &Proportions) -> (r: Option<Self>) {
        NurseryZeroingOptions::from_str(s)
    }
}

impl OptionValue for NurserySize {
    open spec fn readable(s: Seq<char>, p: Seq<(Seq<char>, u64)>) -> bool {
        options::nursery_of(s, p) is Ok
    }

    open spec fn reads_as(s: Seq<char>, p: Seq<(Seq<char>, u64)>, value: Self) -> bool {
        options::nursery_of(s, p) == Ok::<NurserySize, Seq<char>>(value)
    }

    fn from_text(s: &str, p: &Proportions) -> (r: Option<Self>) {
        match NurserySize::from_str(s, p) {
            Ok(v) => Some(v),
            Err(_) => None,
        }
    }
}

impl OptionValue for PerfEventOptions {
    open spec fn readable(s: Seq<char>, p: Seq<(Seq<char>, u64)>) -> bool {
        options::perf_events_of(s) is Ok
    }

    open spec fn reads_as(s: Seq<char>, p: Seq<(Seq<char>, u64)>, value: Self) -> bool {
        options::perf_events_of(s) == Ok::<Seq<(Seq<char>, i32, i32)>, Seq<char>>(
            options::event_texts(value.events@),
        )
    }

    fn from_text(s: &str, p: &Proportions) -> (r: Option<Self>) {
        match PerfEventOptions::from_str(s) {
            Ok(v) => Some(v),
            Err(_) => None,
        }
    }
}

impl OptionValue for AffinityKind {
    open spec fn readable(s: Seq<char>, p: Seq<(Seq<char>, u64)>) -> bool {
        s.len() == 0 || options::cpulist_error(text::split_on(s, ','), 0) is None
    }

    open spec fn reads_as(s: Seq<char>, p: Seq<(Seq<char>, u64)>, value: Self) -> bool {
        options::cpulist_read(s, Ok(value))
    }

    fn from_text(s: &str, p: &Proportions) -> (r: Option<Self>) {
        match AffinityKind::from_str(s) {
            Ok(v) => Some(v),
            Err(_) => None,
        }
    }
}

impl OptionValue for GCTriggerSelector {
    open spec fn readable(s: Seq<char>, p: Seq<(Seq<char>, u64)>) -> bool {
        gc_trigger::trigger_of_text(s) is Ok
    }

    open spec fn reads_as(s: Seq<char>, p: Seq<(Seq<char>, u64)>, value: Self) -> bool {
        gc_trigger::trigger_of_text(s) == Ok::<GCTriggerSelector, Seq<char>>(value)
    }

    fn from_text(s: &str, p: &Proportions) -> (r: Option<Self>) {
        match GCTriggerSelector::from_str(s) {
            Ok(v) => Some(v),
            Err(_) => None,
        }
    }
}

/// Decides whether an option may take a value.
pub trait Validator<T> {
    /// Whether the answer for the value may be `r`.
    spec fn outcome(&self, value: T, r: bool) -> bool;

    /// Whether the option may take the value.
    fn check(&self, value: &T) -> (r: bool)
        ensures
            self.outcome(*value, r),
    ;
}

/// Every value may be taken.
#[derive(Copy, Clone, Debug)]
pub struct AlwaysValid;

impl<T> Validator<T> for AlwaysValid {
    open spec fn outcome(&self, value: T, r: bool) -> bool {
        r
    }

    fn check(&self, value: &T) -> (r: bool) {
        true
    }
}

/// Every number but zero may be taken.
#[derive(Copy, Clone, Debug)]
pub struct NotZero;

impl Validator<usize> for NotZero {
    open spec fn outcome(&self, value: usize, r: bool) -> bool {
        r == (value > 0)
    }

    fn check(&self, value: &usize) -> (r: bool) {
        *value > 0
    }
}

/// A value may be taken only where the feature is there.
#[derive(Copy, Clone, Debug)]
pub struct Gated {
    /// Whether the feature is there.
    pub enabled: bool,
}

impl<T> Validator<T> for Gated {
    open spec fn outcome(&self, value: T, r: bool) -> bool {
        r == self.enabled
    }

    fn check(&self, value: &T) -> (r: bool) {
        self.enabled
    }
}

/// The bounds of the nursery have to be in order.
#[derive(Copy, Clone, Debug)]
pub struct ValidNursery;

impl Validator<NurserySize> for ValidNursery {
    open spec fn outcome(&self, value: NurserySize, r: bool) -> bool {
        r == value.is_valid()
    }

    fn check(&self, value: &NurserySize) -> (r: bool) {
        value.validate()
    }
}

/// The machine has to have the cores.
#[derive(Copy, Clone, Debug)]
pub struct ValidAffinity;

impl Validator<AffinityKind> for ValidAffinity {
    open spec fn outcome(&self, value: AffinityKind, r: bool) -> bool {
        exists|n: u16| 1 <= n && r == #[trigger] value.valid_for(n)
    }

    fn check(&self, value: &AffinityKind) -> (r: bool) {
        value.validate()
    }
}

/// The bounds of the heap have to be in order.
#[derive(Copy, Clone, Debug)]
pub struct ValidTrigger;

impl Validator<GCTriggerSelector> for ValidTrigger {
    open spec fn outcome(&self, value: GCTriggerSelector, r: bool) -> bool {
        r == value.is_valid()
    }

    fn check(&self, value: &GCTriggerSelector) -> (r: bool) {
        value.validate()
    }
}

/// Huge pages can be asked for on Linux only.
#[derive(Copy, Clone, Debug)]
pub struct HugePages {
    /// Whether this is Linux.
    pub is_linux: bool,
}

impl Validator<bool> for HugePages {
    open spec fn outcome(&self, value: bool, r: bool) -> bool {
        r == (!value || self.is_linux)
    }

    fn check(&self, value: &bool) -> (r: bool) {
        !*value || self.is_linux
    }
}

/// An option.
#[derive(Clone)]
pub struct MMTKOption<T, V> {
    /// Its value.
    pub value: T,
    /// What decides which values it may take.
    pub validator: V,
    /// Whether it can be set by an environment variable.
    pub from_env_var: bool,
    /// Whether it can be set on the command line.
    pub from_command_line: bool,
}

/// What setting an option from a text does. `p` says what decimal fractions
/// stand for.
pub open spec fn option_set<T: OptionValue, V: Validator<T>>(
    old: MMTKOption<T, V>,
    new: MMTKOption<T, V>,
    s: Seq<char>,
    p: Seq<(Seq<char>, u64)>,
    r: bool,
) -> bool {
    &&& new == (MMTKOption { value: new.value, ..old })
    &&& if T::readable(s, p) {
        exists|value: T|
            {
                &&& #[trigger] T::reads_as(s, p, value)
                &&& old.validator.outcome(value, r)
                &&& new.value == (if r {
                    value
                } else {
                    old.value
                })
            }
    } else {
        !r && new.value == old.value
    }
}

impl<T, V> MMTKOption<T, V> {
    /// An option with its first value, which may be any value.
    pub fn new(value: T, validator: V, from_env_var: bool, from_command_line: bool) -> (r:
        MMTKOption<T, V>)
        ensures
            r == (MMTKOption { value, validator, from_env_var, from_command_line }),
    {
        MMTKOption { value, validator, from_env_var, from_command_line }
    }
}

impl<T, V> std::ops::Deref for MMTKOption<T, V> {
    type Target = T;

    /// The value of the option.
    fn deref(&self) -> (r: &T)
        ensures
            *r == self.value,
    {
        &self.value
    }
}

impl<T, V: Validator<T>> MMTKOption<T, V> {
    /// Sets the option, if it may take the value. Returns whether it may.
    pub fn set(&mut self, value: T) -> (r: bool)
        ensures
            old(self).validator.outcome(value, r),
            *final(self) == (MMTKOption {
                value: if r {
                    value
                } else {
                    old(self).value
                },
                ..*old(self)
            }),
    {
        if self.validator.check(&value) {
            self.value = value;
            return true;
        }
        false
    }
}

impl<T: OptionValue, V: Validator<T>> MMTKOption<T, V> {
    /// Sets the option to the value that the text stands for, if there is one
    /// and the option may take it. Returns whether it was set.
    fn set_from_text(&mut self, s: &str, p: &Proportions) -> (r: bool)
        ensures
            option_set(*old(self), *final(self), s@, p@, r),
    {
        match T::from_text(s, p) {
            Some(value) => {
                let r = self.set(value);
                assert(T::reads_as(s@, p@, value));
                r
            },
            None => false,
        }
    }
}

/// What the options depend on outside the collector.
#[derive(Copy, Clone, Debug, PartialEq, Eq, Structural)]
pub struct Platform {
    /// How many cores there are.
    pub num_cpus: usize,
    /// The size of the heap, in bytes, where none is given.
    pub default_heap_size: usize,
    /// Whether this is Linux.
    pub is_linux: bool,
    /// Whether events of the processor can be counted.
    pub perf_counter: bool,
    /// Whether work packets are measured.
    pub work_packet_stats: bool,
}

impl Platform {
    /// The platform of this machine: as given, with the number of its cores.
    pub fn detect(
        default_heap_size: usize,
        is_linux: bool,
        perf_counter: bool,
        work_packet_stats: bool,
    ) -> (r: Platform)
        ensures
            r.num_cpus >= 1,
            r == (Platform {
                num_cpus: r.num_cpus,
                default_heap_size,
                is_linux,
                perf_counter,
                work_packet_stats,
            }),
    {
        Platform {
            num_cpus: available_cpus(),
            default_heap_size,
            is_linux,
            perf_counter,
            work_packet_stats,
        }
    }
}

/// The options.
#[derive(Clone)]
pub struct Options {
    /// The plan that collects garbage.
    pub plan: MMTKOption<PlanSelector, AlwaysValid>,
    /// How many threads collect garbage.
    pub threads: MMTKOption<usize, NotZero>,
    /// Whether just the changed part of a stack is scanned.
    pub use_short_stack_scans: MMTKOption<bool, AlwaysValid>,
    /// Whether a return barrier is used.
    pub use_return_barrier: MMTKOption<bool, AlwaysValid>,
    /// Whether sweeping is finished when a collection starts.
    pub eager_complete_sweep: MMTKOption<bool, AlwaysValid>,
    /// Whether collections that the program asks for are ignored.
    pub ignore_system_gc: MMTKOption<bool, AlwaysValid>,
    /// How large the nursery is.
    pub nursery: MMTKOption<NurserySize, ValidNursery>,
    /// Whether a collection that the program asks for takes the whole heap.
    pub full_heap_system_gc: MMTKOption<bool, AlwaysValid>,
    /// Whether objects are not finalized.
    pub no_finalizer: MMTKOption<bool, AlwaysValid>,
    /// Whether weak references are treated as strong ones.
    pub no_reference_types: MMTKOption<bool, AlwaysValid>,
    /// How new objects are zeroed.
    pub nursery_zeroing: MMTKOption<NurseryZeroingOptions, AlwaysValid>,
    /// How many bytes lie between stress collections.
    pub stress_factor: MMTKOption<usize, AlwaysValid>,
    /// How many bytes lie between analyses.
    pub analysis_factor: MMTKOption<usize, AlwaysValid>,
    /// Whether stress collections come at exactly so many bytes.
    pub precise_stress: MMTKOption<bool, AlwaysValid>,
    /// Where the space of the virtual machine starts.
    pub vm_space_start: MMTKOption<Address, AlwaysValid>,
    /// How large the space of the virtual machine is.
    pub vm_space_size: MMTKOption<usize, NotZero>,
    /// Events to count for work packets.
    pub work_perf_events: MMTKOption<PerfEventOptions, Gated>,
    /// Events to count for the collector and the program.
    pub phase_perf_events: MMTKOption<PerfEventOptions, Gated>,
    /// Whether events in the kernel are left out.
    pub perf_exclude_kernel: MMTKOption<bool, Gated>,
    /// How threads are bound to cores.
    pub thread_affinity: MMTKOption<AffinityKind, ValidAffinity>,
    /// What triggers a collection.
    pub gc_trigger: MMTKOption<GCTriggerSelector, ValidTrigger>,
    /// Whether huge pages are asked for.
    pub transparent_hugepages: MMTKOption<bool, HugePages>,
    /// Whether live bytes are counted.
    pub count_live_bytes_in_gc: MMTKOption<bool, AlwaysValid>,
    /// What decimal fractions stand for.
    pub proportions: Proportions,
}

/// The place in the table of the option of that name.
pub open spec fn place_of(key: Seq<char>) -> int {
    if key == "plan"@ {
        0
    } else if key == "threads"@ {
        1
    } else if key == "use_short_stack_scans"@ {
        2
    } else if key == "use_return_barrier"@ {
        3
    } else if key == "eager_complete_sweep"@ {
        4
    } else if key == "ignore_system_gc"@ {
        5
    } else if key == "nursery"@ {
        6
    } else if key == "full_heap_system_gc"@ {
        7
    } else if key == "no_finalizer"@ {
        8
    } else if key == "no_reference_types"@ {
        9
    } else if key == "nursery_zeroing"@ {
        10
    } else if key == "stress_factor"@ {
        11
    } else if key == "analysis_factor"@ {
        12
    } else if key == "precise_stress"@ {
        13
    } else if key == "vm_space_start"@ {
        14
    } else if key == "vm_space_size"@ {
        15
    } else if key == "work_perf_events"@ {
        16
    } else if key == "phase_perf_events"@ {
        17
    } else if key == "perf_exclude_kernel"@ {
        18
    } else if key == "thread_affinity"@ {
        19
    } else if key == "gc_trigger"@ {
        20
    } else if key == "transparent_hugepages"@ {
        21
    } else if key == "count_live_bytes_in_gc"@ {
        22
    } else {
        -1
    }
}

/// Whether an option has that name.
pub open spec fn is_option(key: Seq<char>) -> bool {
    place_of(key) >= 0
}

/// What setting the option of that name from the text does: that option is set,
/// and no other is touched.
pub open spec fn set_by_key(old: Options, new: Options, key: Seq<char>, s: Seq<char>, r: bool) -> bool {
    let p = old.proportions@;
    if key == "plan"@ {
        option_set(old.plan, new.plan, s, p, r) && new == (Options { plan: new.plan, ..old })
    } else if key == "threads"@ {
        option_set(old.threads, new.threads, s, p, r) && new == (Options { threads: new.threads, ..old })
    } else if key == "use_short_stack_scans"@ {
        option_set(old.use_short_stack_scans, new.use_short_stack_scans, s, p, r) && new == (Options { use_short_stack_scans: new.use_short_stack_scans, ..old })
    } else if key == "use_return_barrier"@ {
        option_set(old.use_return_barrier, new.use_return_barrier, s, p, r) && new == (Options { use_return_barrier: new.use_return_barrier, ..old })
    } else if key == "eager_complete_sweep"@ {
        option_set(old.eager_complete_sweep, new.eager_complete_sweep, s, p, r) && new == (Options { eager_complete_sweep: new.eager_complete_sweep, ..old })
    } else if key == "ignore_system_gc"@ {
        option_set(old.ignore_system_gc, new.ignore_system_gc, s, p, r) && new == (Options { ignore_system_gc: new.ignore_system_gc, ..old })
    } else if key == "nursery"@ {
        option_set(old.nursery, new.nursery, s, p, r) && new == (Options { nursery: new.nursery, ..old })
    } else if key == "full_heap_system_gc"@ {
        option_set(old.full_heap_system_gc, new.full_heap_system_gc, s, p, r) && new == (Options { full_heap_system_gc: new.full_heap_system_gc, ..old })
    } else if key == "no_finalizer"@ {
        option_set(old.no_finalizer, new.no_finalizer, s, p, r) && new == (Options { no_finalizer: new.no_finalizer, ..old })
    } else if key == "no_reference_types"@ {
        option_set(old.no_reference_types, new.no_reference_types, s, p, r) && new == (Options { no_reference_types: new.no_reference_types, ..old })
    } else if key == "nursery_zeroing"@ {
        option_set(old.nursery_zeroing, new.nursery_zeroing, s, p, r) && new == (Options { nursery_zeroing: new.nursery_zeroing, ..old })
    } else if key == "stress_factor"@ {
        option_set(old.stress_factor, new.stress_factor, s, p, r) && new == (Options { stress_factor: new.stress_factor, ..old })
    } else if key == "analysis_factor"@ {
        option_set(old.analysis_factor, new.analysis_factor, s, p, r) && new == (Options { analysis_factor: new.analysis_factor, ..old })
    } else if key == "precise_stress"@ {
        option_set(old.precise_stress, new.precise_stress, s, p, r) && new == (Options { precise_stress: new.precise_stress, ..old })
    } else if key == "vm_space_start"@ {
        option_set(old.vm_space_start, new.vm_space_start, s, p, r) && new == (Options { vm_space_start: new.vm_space_start, ..old })
    } else if key == "vm_space_size"@ {
        option_set(old.vm_space_size, new.vm_space_size, s, p, r) && new == (Options { vm_space_size: new.vm_space_size, ..old })
    } else if key == "work_perf_events"@ {
        option_set(old.work_perf_events, new.work_perf_events, s, p, r) && new == (Options { work_perf_events: new.work_perf_events, ..old })
    } else if key == "phase_perf_events"@ {
        option_set(old.phase_perf_events, new.phase_perf_events, s, p, r) && new == (Options { phase_perf_events: new.phase_perf_events, ..old })
    } else if key == "perf_exclude_kernel"@ {
        option_set(old.perf_exclude_kernel, new.perf_exclude_kernel, s, p, r) && new == (Options { perf_exclude_kernel: new.perf_exclude_kernel, ..old })
    } else if key == "thread_affinity"@ {
        option_set(old.thread_affinity, new.thread_affinity, s, p, r) && new == (Options { thread_affinity: new.thread_affinity, ..old })
    } else if key == "gc_trigger"@ {
        option_set(old.gc_trigger, new.gc_trigger, s, p, r) && new == (Options { gc_trigger: new.gc_trigger, ..old })
    } else if key == "transparent_hugepages"@ {
        option_set(old.transparent_hugepages, new.transparent_hugepages, s, p, r) && new == (Options { transparent_hugepages: new.transparent_hugepages, ..old })
    } else if key == "count_live_bytes_in_gc"@ {
        option_set(old.count_live_bytes_in_gc, new.count_live_bytes_in_gc, s, p, r) && new == (Options { count_live_bytes_in_gc: new.count_live_bytes_in_gc, ..old })
    } else {
        false
    }
}

/// Whether the text stands for a value of the option at that place in the table.
/// `p` says what decimal fractions stand for.
pub open spec fn readable_at(i: int, s: Seq<char>, p: Seq<(Seq<char>, u64)>) -> bool {
    if i == 0 {
        PlanSelector::readable(s, p)
    } else if i == 1 || i == 11 || i == 12 || i == 15 {
        usize::readable(s, p)
    } else if i == 6 {
        NurserySize::readable(s, p)
    } else if i == 10 {
        NurseryZeroingOptions::readable(s, p)
    } else if i == 14 {
        Address::readable(s, p)
    } else if i == 16 || i == 17 {
        PerfEventOptions::readable(s, p)
    } else if i == 19 {
        AffinityKind::readable(s, p)
    } else if i == 20 {
        GCTriggerSelector::readable(s, p)
    } else {
        i >= 0 && bool::readable(s, p)
    }
}

impl Options {
    /// Whether the option at that place in the table can be set by an
    /// environment variable.
    pub open spec fn env_var_flag_at(self, i: int) -> bool {
        if i == 0 {
            self.plan.from_env_var
        } else if i == 1 {
            self.threads.from_env_var
        } else if i == 2 {
            self.use_short_stack_scans.from_env_var
        } else if i == 3 {
            self.use_return_barrier.from_env_var
        } else if i == 4 {
            self.eager_complete_sweep.from_env_var
        } else if i == 5 {
            self.ignore_system_gc.from_env_var
        } else if i == 6 {
            self.nursery.from_env_var
        } else if i == 7 {
            self.full_heap_system_gc.from_env_var
        } else if i == 8 {
            self.no_finalizer.from_env_var
        } else if i == 9 {
            self.no_reference_types.from_env_var
        } else if i == 10 {
            self.nursery_zeroing.from_env_var
        } else if i == 11 {
            self.stress_factor.from_env_var
        } else if i == 12 {
            self.analysis_factor.from_env_var
        } else if i == 13 {
            self.precise_stress.from_env_var
        } else if i == 14 {
            self.vm_space_start.from_env_var
        } else if i == 15 {
            self.vm_space_size.from_env_var
        } else if i == 16 {
            self.work_perf_events.from_env_var
        } else if i == 17 {
            self.phase_perf_events.from_env_var
        } else if i == 18 {
            self.perf_exclude_kernel.from_env_var
        } else if i == 19 {
            self.thread_affinity.from_env_var
        } else if i == 20 {
            self.gc_trigger.from_env_var
        } else if i == 21 {
            self.transparent_hugepages.from_env_var
        } else if i == 22 {
            self.count_live_bytes_in_gc.from_env_var
        } else {
            false
        }
    }

    /// Whether the option at that place in the table can be set on the command
    /// line.
    pub open spec fn command_line_flag_at(self, i: int) -> bool {
        if i == 0 {
            self.plan.from_command_line
        } else if i == 1 {
            self.threads.from_command_line
        } else if i == 2 {
            self.use_short_stack_scans.from_command_line
        } else if i == 3 {
            self.use_return_barrier.from_command_line
        } else if i == 4 {
            self.eager_complete_sweep.from_command_line
        } else if i == 5 {
            self.ignore_system_gc.from_command_line
        } else if i == 6 {
            self.nursery.from_command_line
        } else if i == 7 {
            self.full_heap_system_gc.from_command_line
        } else if i == 8 {
            self.no_finalizer.from_command_line
        } else if i == 9 {
            self.no_reference_types.from_command_line
        } else if i == 10 {
            self.nursery_zeroing.from_command_line
        } else if i == 11 {
            self.stress_factor.from_command_line
        } else if i == 12 {
            self.analysis_factor.from_command_line
        } else if i == 13 {
            self.precise_stress.from_command_line
        } else if i == 14 {
            self.vm_space_start.from_command_line
        } else if i == 15 {
            self.vm_space_size.from_command_line
        } else if i == 16 {
            self.work_perf_events.from_command_line
        } else if i == 17 {
            self.phase_perf_events.from_command_line
        } else if i == 18 {
            self.perf_exclude_kernel.from_command_line
        } else if i == 19 {
            self.thread_affinity.from_command_line
        } else if i == 20 {
            self.gc_trigger.from_command_line
        } else if i == 21 {
            self.transparent_hugepages.from_command_line
        } else if i == 22 {
            self.count_live_bytes_in_gc.from_command_line
        } else {
            false
        }
    }

    /// Whether the option of that name can be set by an environment variable.
    pub open spec fn env_var_flag(self, key: Seq<char>) -> bool {
        self.env_var_flag_at(place_of(key))
    }

    /// Whether the option of that name can be set on the command line.
    pub open spec fn command_line_flag(self, key: Seq<char>) -> bool {
        self.command_line_flag_at(place_of(key))
    }

    /// The place in the table of the option of that name.
    fn place(s: &str) -> (r: i8)
        ensures
            r == place_of(s@),
    {
        if same(s, "plan") {
            0
        } else if same(s, "threads") {
            1
        } else if same(s, "use_short_stack_scans") {
            2
        } else if same(s, "use_return_barrier") {
            3
        } else if same(s, "eager_complete_sweep") {
            4
        } else if same(s, "ignore_system_gc") {
            5
        } else if same(s, "nursery") {
            6
        } else if same(s, "full_heap_system_gc") {
            7
        } else if same(s, "no_finalizer") {
            8
        } else if same(s, "no_reference_types") {
            9
        } else if same(s, "nursery_zeroing") {
            10
        } else if same(s, "stress_factor") {
            11
        } else if same(s, "analysis_factor") {
            12
        } else if same(s, "precise_stress") {
            13
        } else if same(s, "vm_space_start") {
            14
        } else if same(s, "vm_space_size") {
            15
        } else if same(s, "work_perf_events") {
            16
        } else if same(s, "phase_perf_events") {
            17
        } else if same(s, "perf_exclude_kernel") {
            18
        } else if same(s, "thread_affinity") {
            19
        } else if same(s, "gc_trigger") {
            20
        } else if same(s, "transparent_hugepages") {
            21
        } else if same(s, "count_live_bytes_in_gc") {
            22
        } else {
            -1
        }
    }

    /// Whether the option of that name can be set on the command line.
    pub fn settable_from_command_line(&self, s: &str) -> (r: bool)
        ensures
            r == self.command_line_flag(s@),
    {
        let i: i8 = Self::place(s);
        if i == 0 {
            self.plan.from_command_line
        } else if i == 1 {
            self.threads.from_command_line
        } else if i == 2 {
            self.use_short_stack_scans.from_command_line
        } else if i == 3 {
            self.use_return_barrier.from_command_line
        } else if i == 4 {
            self.eager_complete_sweep.from_command_line
        } else if i == 5 {
            self.ignore_system_gc.from_command_line
        } else if i == 6 {
            self.nursery.from_command_line
        } else if i == 7 {
            self.full_heap_system_gc.from_command_line
        } else if i == 8 {
            self.no_finalizer.from_command_line
        } else if i == 9 {
            self.no_reference_types.from_command_line
        } else if i == 10 {
            self.nursery_zeroing.from_command_line
        } else if i == 11 {
            self.stress_factor.from_command_line
        } else if i == 12 {
            self.analysis_factor.from_command_line
        } else if i == 13 {
            self.precise_stress.from_command_line
        } else if i == 14 {
            self.vm_space_start.from_command_line
        } else if i == 15 {
            self.vm_space_size.from_command_line
        } else if i == 16 {
            self.work_perf_events.from_command_line
        } else if i == 17 {
            self.phase_perf_events.from_command_line
        } else if i == 18 {
            self.perf_exclude_kernel.from_command_line
        } else if i == 19 {
            self.thread_affinity.from_command_line
        } else if i == 20 {
            self.gc_trigger.from_command_line
        } else if i == 21 {
            self.transparent_hugepages.from_command_line
        } else if i == 22 {
            self.count_live_bytes_in_gc.from_command_line
        } else {
            false
        }
    }

    /// Whether the text stands for a value of the option of that name.
    pub fn can_read(&self, s: &str, val: &str) -> (r: bool)
        ensures
            r == readable_at(place_of(s@), val@, self.proportions@),
    {
        let i: i8 = Self::place(s);
        let p = &self.proportions;
        if i == 0 {
            PlanSelector::from_text(val, p).is_some()
        } else if i == 1 || i == 11 || i == 12 || i == 15 {
            usize::from_text(val, p).is_some()
        } else if i == 6 {
            NurserySize::from_text(val, p).is_some()
        } else if i == 10 {
            NurseryZeroingOptions::from_text(val, p).is_some()
        } else if i == 14 {
            Address::from_text(val, p).is_some()
        } else if i == 16 || i == 17 {
            PerfEventOptions::from_text(val, p).is_some()
        } else if i == 19 {
            AffinityKind::from_text(val, p).is_some()
        } else if i == 20 {
            GCTriggerSelector::from_text(val, p).is_some()
        } else {
            i >= 0 && bool::from_text(val, p).is_some()
        }
    }

    /// The options with their first values.
    pub fn new(platform: &Platform) -> (r: Options)
        ensures
            r.plan == (MMTKOption {
                value: PlanSelector::GenImmix,
                validator: AlwaysValid,
                from_env_var: true,
                from_command_line: true,
            }),
            r.threads == (MMTKOption {
                value: platform.num_cpus,
                validator: NotZero,
                from_env_var: true,
                from_command_line: true,
            }),
            r.use_short_stack_scans == (MMTKOption {
                value: false,
                validator: AlwaysValid,
                from_env_var: true,
                from_command_line: true,
            }),
            r.use_return_barrier == (MMTKOption {
                value: false,
                validator: AlwaysValid,
                from_env_var: true,
                from_command_line: true,
            }),
            r.eager_complete_sweep == (MMTKOption {
                value: false,
                validator: AlwaysValid,
                from_env_var: true,
                from_command_line: true,
            }),
            r.ignore_system_gc == (MMTKOption {
                value: false,
                validator: AlwaysValid,
                from_env_var: true,
                from_command_line: true,
            }),
            r.nursery == (MMTKOption {
                value: NurserySize::ProportionalBounded {
                min: DEFAULT_PROPORTIONAL_MIN_NURSERY,
                max: DEFAULT_PROPORTIONAL_MAX_NURSERY,
            },
                validator: ValidNursery,
                from_env_var: true,
                from_command_line: true,
            }),
            r.full_heap_system_gc == (MMTKOption {
                value: false,
                validator: AlwaysValid,
                from_env_var: true,
                from_command_line: true,
            }),
            r.no_finalizer == (MMTKOption {
                value: false,
                validator: AlwaysValid,
                from_env_var: true,
                from_command_line: true,
            }),
            r.no_reference_types == (MMTKOption {
                value: true,
                validator: AlwaysValid,
                from_env_var: true,
                from_command_line: true,
            }),
            r.nursery_zeroing == (MMTKOption {
                value: NurseryZeroingOptions::Temporal,
                validator: AlwaysValid,
                from_env_var: true,
                from_command_line: true,
            }),
            r.stress_factor == (MMTKOption {
                value: DEFAULT_STRESS_FACTOR,
                validator: AlwaysValid,
                from_env_var: true,
                from_command_line: true,
            }),
            r.analysis_factor == (MMTKOption {
                value: DEFAULT_STRESS_FACTOR,
                validator: AlwaysValid,
                from_env_var: true,
                from_command_line: true,
            }),
            r.precise_stress == (MMTKOption {
                value: true,
                validator: AlwaysValid,
                from_env_var: true,
                from_command_line: true,
            }),
            r.vm_space_start == (MMTKOption {
                value: Address { raw: 0 },
                validator: AlwaysValid,
                from_env_var: true,
                from_command_line: true,
            }),
            r.vm_space_size == (MMTKOption {
                value: 0xdc0_0000usize,
                validator: NotZero,
                from_env_var: true,
                from_command_line: true,
            }),
            r.work_perf_events.value.events@ == Seq::<(String, i32, i32)>::empty(),
            r.work_perf_events == (MMTKOption {
                value: r.work_perf_events.value,
                validator: Gated { enabled: platform.perf_counter && platform.work_packet_stats },
                from_env_var: true,
                from_command_line: true,
            }),
            r.phase_perf_events.value.events@ == Seq::<(String, i32, i32)>::empty(),
            r.phase_perf_events == (MMTKOption {
                value: r.phase_perf_events.value,
                validator: Gated { enabled: platform.perf_counter },
                from_env_var: true,
                from_command_line: true,
            }),
            r.perf_exclude_kernel == (MMTKOption {
                value: false,
                validator: Gated { enabled: platform.perf_counter },
                from_env_var: true,
                from_command_line: true,
            }),
            r.thread_affinity == (MMTKOption {
                value: AffinityKind::OsDefault,
                validator: ValidAffinity,
                from_env_var: true,
                from_command_line: true,
            }),
            r.gc_trigger == (MMTKOption {
                value: GCTriggerSelector::FixedHeapSize(platform.default_heap_size),
                validator: ValidTrigger,
                from_env_var: true,
                from_command_line: true,
            }),
            r.transparent_hugepages == (MMTKOption {
                value: false,
                validator: HugePages { is_linux: platform.is_linux },
                from_env_var: true,
                from_command_line: true,
            }),
            r.count_live_bytes_in_gc == (MMTKOption {
                value: false,
                validator: AlwaysValid,
                from_env_var: true,
                from_command_line: true,
            }),
            r.proportions@ == Seq::<(Seq<char>, u64)>::empty(),
            forall|key: Seq<char>|
                #![trigger r.env_var_flag(key)]
                #![trigger r.command_line_flag(key)]
                is_option(key) ==> r.env_var_flag(key) && r.command_line_flag(key),
    {
        Options {
            plan: MMTKOption::new(PlanSelector::GenImmix, AlwaysValid, true, true),
            threads: MMTKOption::new(platform.num_cpus, NotZero, true, true),
            use_short_stack_scans: MMTKOption::new(false, AlwaysValid, true, true),
            use_return_barrier: MMTKOption::new(false, AlwaysValid, true, true),
            eager_complete_sweep: MMTKOption::new(false, AlwaysValid, true, true),
            ignore_system_gc: MMTKOption::new(false, AlwaysValid, true, true),
            nursery: MMTKOption::new(NurserySize::ProportionalBounded {
                min: DEFAULT_PROPORTIONAL_MIN_NURSERY,
                max: DEFAULT_PROPORTIONAL_MAX_NURSERY,
            }, ValidNursery, true, true),
            full_heap_system_gc: MMTKOption::new(false, AlwaysValid, true, true),
            no_finalizer: MMTKOption::new(false, AlwaysValid, true, true),
            no_reference_types: MMTKOption::new(true, AlwaysValid, true, true),
            nursery_zeroing: MMTKOption::new(NurseryZeroingOptions::Temporal, AlwaysValid, true, true),
            stress_factor: MMTKOption::new(DEFAULT_STRESS_FACTOR, AlwaysValid, true, true),
            analysis_factor: MMTKOption::new(DEFAULT_STRESS_FACTOR, AlwaysValid, true, true),
            precise_stress: MMTKOption::new(true, AlwaysValid, true, true),
            vm_space_start: MMTKOption::new(Address { raw: 0 }, AlwaysValid, true, true),
            vm_space_size: MMTKOption::new(0xdc0_0000usize, NotZero, true, true),
            work_perf_events: MMTKOption::new(PerfEventOptions { events: Vec::new() }, Gated { enabled: platform.perf_counter && platform.work_packet_stats }, true, true),
            phase_perf_events: MMTKOption::new(PerfEventOptions { events: Vec::new() }, Gated { enabled: platform.perf_counter }, true, true),
            perf_exclude_kernel: MMTKOption::new(false, Gated { enabled: platform.perf_counter }, true, true),
            thread_affinity: MMTKOption::new(AffinityKind::OsDefault, ValidAffinity, true, true),
            gc_trigger: MMTKOption::new(GCTriggerSelector::FixedHeapSize(platform.default_heap_size), ValidTrigger, true, true),
            transparent_hugepages: MMTKOption::new(false, HugePages { is_linux: platform.is_linux }, true, true),
            count_live_bytes_in_gc: MMTKOption::new(false, AlwaysValid, true, true),
            proportions: Proportions::new(),
        }
    }

    /// Learns what a decimal fraction stands for.
    pub fn learn_proportion(&mut self, s: &str, bits: u64)
        ensures
            *final(self) == (Options { proportions: final(self).proportions, ..*old(self) }),
            final(self).proportions@ == old(self).proportions@.push((s@, bits)),
    {
        self.proportions.learn(s, bits);
    }

    /// Sets the option of that name from the text. Returns whether it was set.
    fn set_inner(&mut self, s: &str, val: &str) -> (r: bool)
        requires
            is_option(s@),
        ensures
            set_by_key(*old(self), *final(self), s@, val@, r),
    {
        if same(s, "plan") {
            self.plan.set_from_text(val, &self.proportions)
        } else if same(s, "threads") {
            self.threads.set_from_text(val, &self.proportions)
        } else if same(s, "use_short_stack_scans") {
            self.use_short_stack_scans.set_from_text(val, &self.proportions)
        } else if same(s, "use_return_barrier") {
            self.use_return_barrier.set_from_text(val, &self.proportions)
        } else if same(s, "eager_complete_sweep") {
            self.eager_complete_sweep.set_from_text(val, &self.proportions)
        } else if same(s, "ignore_system_gc") {
            self.ignore_system_gc.set_from_text(val, &self.proportions)
        } else if same(s, "nursery") {
            self.nursery.set_from_text(val, &self.proportions)
        } else if same(s, "full_heap_system_gc") {
            self.full_heap_system_gc.set_from_text(val, &self.proportions)
        } else if same(s, "no_finalizer") {
            self.no_finalizer.set_from_text(val, &self.proportions)
        } else if same(s, "no_reference_types") {
            self.no_reference_types.set_from_text(val, &self.proportions)
        } else if same(s, "nursery_zeroing") {
            self.nursery_zeroing.set_from_text(val, &self.proportions)
        } else if same(s, "stress_factor") {
            self.stress_factor.set_from_text(val, &self.proportions)
        } else if same(s, "analysis_factor") {
            self.analysis_factor.set_from_text(val, &self.proportions)
        } else if same(s, "precise_stress") {
            self.precise_stress.set_from_text(val, &self.proportions)
        } else if same(s, "vm_space_start") {
            self.vm_space_start.set_from_text(val, &self.proportions)
        } else if same(s, "vm_space_size") {
            self.vm_space_size.set_from_text(val, &self.proportions)
        } else if same(s, "work_perf_events") {
            self.work_perf_events.set_from_text(val, &self.proportions)
        } else if same(s, "phase_perf_events") {
            self.phase_perf_events.set_from_text(val, &self.proportions)
        } else if same(s, "perf_exclude_kernel") {
            self.perf_exclude_kernel.set_from_text(val, &self.proportions)
        } else if same(s, "thread_affinity") {
            self.thread_affinity.set_from_text(val, &self.proportions)
        } else if same(s, "gc_trigger") {
            self.gc_trigger.set_from_text(val, &self.proportions)
        } else if same(s, "transparent_hugepages") {
            self.transparent_hugepages.set_from_text(val, &self.proportions)
        } else if same(s, "count_live_bytes_in_gc") {
            self.count_live_bytes_in_gc.set_from_text(val, &self.proportions)
        } else {
            false
        }
    }

    /// Sets an option that can be set by an environment variable. Returns
    /// whether it was set.
    pub fn set_from_env_var(&mut self, s: &str, val: &str) -> (r: bool)
        requires
            old(self).env_var_flag(s@),
        ensures
            set_by_key(*old(self), *final(self), s@, val@, r),
    {
        self.set_inner(s, val)
    }

    /// Sets an option that can be set on the command line. Returns whether it
    /// was set.
    pub fn set_from_command_line(&mut self, s: &str, val: &str) -> (r: bool)
        requires
            old(self).command_line_flag(s@),
        ensures
            set_by_key(*old(self), *final(self), s@, val@, r),
    {
        self.set_inner(s, val)
    }

    /// Sets the options that the words from place `i` on name.
    fn set_words(&mut self, found: &Vec<&str>, i: usize) -> (r: bool)
        requires
            i <= found@.len(),
        ensures
            words_set(text::texts(found@), i as int, *old(self), *final(self), r),
        decreases found@.len() - i,
    {
        if i == found.len() {
            return true;
        }
        let kv_pair = split(found[i], '=');
        assert(text::texts(found@)[i as int] == found@[i as int]@);
        assert(text::texts(kv_pair@).len() == kv_pair@.len());
        if kv_pair.len() != 2 {
            return false;
        }
        assert(text::texts(kv_pair@)[0] == kv_pair@[0]@);
        assert(text::texts(kv_pair@)[1] == kv_pair@[1]@);
        let key = kv_pair[0];
        let val = kv_pair[1];
        if !self.settable_from_command_line(key) {
            return false;
        }
        let ok = self.set_from_command_line(key, val);
        let ghost middle = *self;
        assert(set_by_key(*old(self), middle, key@, val@, ok));
        if !ok {
            return false;
        }
        self.set_words(found, i + 1)
    }

    /// Sets the options that the text names: names and values with an equals
    /// sign between them, and commas or white space between the pairs. Stops at
    /// what is no such pair, at what is no option that can be set on the command
    /// line and at a value that an option cannot take. Returns whether
    /// everything was set.
    pub fn set_bulk_from_command_line(&mut self, options: &str) -> (r: bool)
        ensures
            words_set(text::words_of(options@), 0, *old(self), *final(self), r),
    {
        let found = words(options);
        self.set_words(&found, 0)
    }

    /// Sets the options that the variables from place `i` on name.
    fn read_env_vars(&mut self, vars: &Vec<(String, String)>, i: usize)
        requires
            i <= vars@.len(),
            forall|key: Seq<char>| is_option(key) ==> #[trigger] old(self).env_var_flag(key),
        ensures
            env_vars_read(vars@, i as int, *old(self), *final(self)),
        decreases vars@.len() - i,
    {
        if i == vars.len() {
            return;
        }
        let key = vars[i].0.as_str();
        let val = vars[i].1.as_str();
        if let Some(rest_of_key) = strip_prefix(key, "MMTK_") {
            let lowercase = to_lowercase(rest_of_key);
            if Self::place(lowercase.as_str()) >= 0 {
                let r = self.set_from_env_var(lowercase.as_str(), val);
                proof {
                    assert(set_by_key(*old(self), *self, lowercase@, val@, r));
                    setting_keeps_flags(*old(self), *self, lowercase@, val@, r);
                }
            }
        }
        let ghost middle = *self;
        assert(env_var_read(vars@[i as int].0@, vars@[i as int].1@, *old(self), middle));
        self.read_env_vars(vars, i + 1)
    }

    /// Sets the options that environment variables name: `MMTK_` and the name of
    /// the option in any case. Other variables are passed over, and so are
    /// values that an option cannot take.
    pub fn read_env_var_settings(&mut self, vars: &Vec<(String, String)>)
        requires
            forall|key: Seq<char>| is_option(key) ==> #[trigger] old(self).env_var_flag(key),
        ensures
            env_vars_read(vars@, 0, *old(self), *final(self)),
    {
        self.read_env_vars(vars, 0)
    }

    /// Whether there are stress collections: one of the two factors is set.
    pub fn is_stress_test_gc_enabled(&self) -> (r: bool)
        ensures
            r == (self.stress_factor.value != usize::MAX || self.analysis_factor.value
                != usize::MAX),
    {
        self.stress_factor.value != DEFAULT_STRESS_FACTOR || self.analysis_factor.value
            != DEFAULT_STRESS_FACTOR
    }
}

/// What setting the options that the words from place `i` on name does.
pub open spec fn words_set(
    found: Seq<Seq<char>>,
    i: int,
    old: Options,
    new: Options,
    r: bool,
) -> bool
    decreases found.len() - i,
{
    if i >= found.len() {
        r && new == old
    } else {
        let kv_pair = text::split_on(found[i], '=');
        if kv_pair.len() != 2 || !old.command_line_flag(kv_pair[0]) {
            !r && new == old
        } else {
            exists|middle: Options, ok: bool|
                {
                    &&& #[trigger] set_by_key(old, middle, kv_pair[0], kv_pair[1], ok)
                    &&& if ok {
                        words_set(found, i + 1, middle, new, r)
                    } else {
                        !r && new == middle
                    }
                }
        }
    }
}

/// What reading one environment variable does.
pub open spec fn env_var_read(key: Seq<char>, val: Seq<char>, old: Options, new: Options) -> bool {
    let name = gc_trigger::lowercase_of(key.subrange("MMTK_"@.len() as int, key.len() as int));
    if text::begins_with(key, "MMTK_"@) && is_option(name) {
        exists|r: bool| set_by_key(old, new, name, val, r)
    } else {
        new == old
    }
}

/// What reading the environment variables from place `i` on does.
pub open spec fn env_vars_read(
    vars: Seq<(String, String)>,
    i: int,
    old: Options,
    new: Options,
) -> bool
    decreases vars.len() - i,
{
    if i >= vars.len() {
        new == old
    } else {
        exists|middle: Options|
            {
                &&& #[trigger] env_var_read(vars[i].0@, vars[i].1@, old, middle)
                &&& env_vars_read(vars, i + 1, middle, new)
            }
    }
}



/// Whether every option can be set from the same places.
pub open spec fn same_flags(a: Options, b: Options) -> bool {
    &&& a.plan.from_env_var == b.plan.from_env_var
    &&& a.plan.from_command_line == b.plan.from_command_line
    &&& a.threads.from_env_var == b.threads.from_env_var
    &&& a.threads.from_command_line == b.threads.from_command_line
    &&& a.use_short_stack_scans.from_env_var == b.use_short_stack_scans.from_env_var
    &&& a.use_short_stack_scans.from_command_line == b.use_short_stack_scans.from_command_line
    &&& a.use_return_barrier.from_env_var == b.use_return_barrier.from_env_var
    &&& a.use_return_barrier.from_command_line == b.use_return_barrier.from_command_line
    &&& a.eager_complete_sweep.from_env_var == b.eager_complete_sweep.from_env_var
    &&& a.eager_complete_sweep.from_command_line == b.eager_complete_sweep.from_command_line
    &&& a.ignore_system_gc.from_env_var == b.ignore_system_gc.from_env_var
    &&& a.ignore_system_gc.from_command_line == b.ignore_system_gc.from_command_line
    &&& a.nursery.from_env_var == b.nursery.from_env_var
    &&& a.nursery.from_command_line == b.nursery.from_command_line
    &&& a.full_heap_system_gc.from_env_var == b.full_heap_system_gc.from_env_var
    &&& a.full_heap_system_gc.from_command_line == b.full_heap_system_gc.from_command_line
    &&& a.no_finalizer.from_env_var == b.no_finalizer.from_env_var
    &&& a.no_finalizer.from_command_line == b.no_finalizer.from_command_line
    &&& a.no_reference_types.from_env_var == b.no_reference_types.from_env_var
    &&& a.no_reference_types.from_command_line == b.no_reference_types.from_command_line
    &&& a.nursery_zeroing.from_env_var == b.nursery_zeroing.from_env_var
    &&& a.nursery_zeroing.from_command_line == b.nursery_zeroing.from_command_line
    &&& a.stress_factor.from_env_var == b.stress_factor.from_env_var
    &&& a.stress_factor.from_command_line == b.stress_factor.from_command_line
    &&& a.analysis_factor.from_env_var == b.analysis_factor.from_env_var
    &&& a.analysis_factor.from_command_line == b.analysis_factor.from_command_line
    &&& a.precise_stress.from_env_var == b.precise_stress.from_env_var
    &&& a.precise_stress.from_command_line == b.precise_stress.from_command_line
    &&& a.vm_space_start.from_env_var == b.vm_space_start.from_env_var
    &&& a.vm_space_start.from_command_line == b.vm_space_start.from_command_line
    &&& a.vm_space_size.from_env_var == b.vm_space_size.from_env_var
    &&& a.vm_space_size.from_command_line == b.vm_space_size.from_command_line
    &&& a.work_perf_events.from_env_var == b.work_perf_events.from_env_var
    &&& a.work_perf_events.from_command_line == b.work_perf_events.from_command_line
    &&& a.phase_perf_events.from_env_var == b.phase_perf_events.from_env_var
    &&& a.phase_perf_events.from_command_line == b.phase_perf_events.from_command_line
    &&& a.perf_exclude_kernel.from_env_var == b.perf_exclude_kernel.from_env_var
    &&& a.perf_exclude_kernel.from_command_line == b.perf_exclude_kernel.from_command_line
    &&& a.thread_affinity.from_env_var == b.thread_affinity.from_env_var
    &&& a.thread_affinity.from_command_line == b.thread_affinity.from_command_line
    &&& a.gc_trigger.from_env_var == b.gc_trigger.from_env_var
    &&& a.gc_trigger.from_command_line == b.gc_trigger.from_command_line
    &&& a.transparent_hugepages.from_env_var == b.transparent_hugepages.from_env_var
    &&& a.transparent_hugepages.from_command_line == b.transparent_hugepages.from_command_line
    &&& a.count_live_bytes_in_gc.from_env_var == b.count_live_bytes_in_gc.from_env_var
    &&& a.count_live_bytes_in_gc.from_command_line == b.count_live_bytes_in_gc.from_command_line
}

/// Setting an option changes nothing about where any option can be set from.
proof fn setting_keeps_each_flag(old: Options, new: Options, key: Seq<char>, s: Seq<char>, r: bool)
    requires
        set_by_key(old, new, key, s, r),
    ensures
        same_flags(old, new),
{
}

/// Where every option can be set from the same places, the table says so.
proof fn env_var_flags_agree(a: Options, b: Options, i: int)
    requires
        same_flags(a, b),
    ensures
        b.env_var_flag_at(i) == a.env_var_flag_at(i),
{
}

/// Where every option can be set from the same places, the table says so.
proof fn command_line_flags_agree(a: Options, b: Options, i: int)
    requires
        same_flags(a, b),
    ensures
        b.command_line_flag_at(i) == a.command_line_flag_at(i),
{
}

/// Where every option can be set from the same places, the names say so.
#[verifier::spinoff_prover]
proof fn flags_agree(a: Options, b: Options)
    requires
        same_flags(a, b),
    ensures
        forall|k: Seq<char>| #[trigger] b.env_var_flag(k) == a.env_var_flag(k),
        forall|k: Seq<char>| #[trigger] b.command_line_flag(k) == a.command_line_flag(k),
{
    assert forall|k: Seq<char>| #[trigger] b.env_var_flag(k) == a.env_var_flag(k) by {
        env_var_flags_agree(a, b, place_of(k));
    }
    assert forall|k: Seq<char>| #[trigger] b.command_line_flag(k) == a.command_line_flag(k) by {
        command_line_flags_agree(a, b, place_of(k));
    }
}

/// Setting an option changes nothing about which options can be set from where.
pub proof fn setting_keeps_flags(old: Options, new: Options, key: Seq<char>, s: Seq<char>, r: bool)
    requires
        set_by_key(old, new, key, s, r),
    ensures
        forall|k: Seq<char>| #[trigger] new.env_var_flag(k) == old.env_var_flag(k),
        forall|k: Seq<char>| #[trigger] new.command_line_flag(k) == old.command_line_flag(k),
{
    setting_keeps_each_flag(old, new, key, s, r);
    flags_agree(old, new);
}

/// A value that was refused changes nothing.
pub proof fn refused_value_changes_nothing(old: Options, new: Options, key: Seq<char>, s: Seq<char>)
    requires
        set_by_key(old, new, key, s, false),
    ensures
        new == old,
{
}

/// Only the binding of threads to cores depends on the machine: whether any
/// other option takes a value is decided by the options and the text alone.
pub proof fn outcome_is_determined(
    old: Options,
    a: Options,
    b: Options,
    key: Seq<char>,
    s: Seq<char>,
    r: bool,
    t: bool,
)
    requires
        set_by_key(old, a, key, s, r),
        set_by_key(old, b, key, s, t),
        key != "thread_affinity"@,
    ensures
        r == t,
{
}

} // verus!
