//! Which option each name stands for, and what setting it does.

use crate::util::gc_trigger;
use crate::util::gc_trigger::GCTriggerSelector;
use crate::util::option_table;
use crate::util::option_table::{
    Address, AlwaysValid, Gated, HugePages, MMTKOption, NotZero, OptionValue, Options,
    ValidAffinity, ValidNursery, ValidTrigger, Validator,
};
use crate::util::options;
use crate::util::options::{
    AffinityKind, NurserySize, NurseryZeroingOptions, PerfEventOptions, PlanSelector,
};
use crate::util::text;
use crate::util::text::IntError;
use crate::util::text_laws;
use vstd::prelude::*;
use vstd::string::*;

verus! {

/// The names of the options, in order.
pub open spec fn option_names() -> Seq<Seq<char>> {
    seq![
        "plan"@,
        "threads"@,
        "use_short_stack_scans"@,
        "use_return_barrier"@,
        "eager_complete_sweep"@,
        "ignore_system_gc"@,
        "nursery"@,
        "full_heap_system_gc"@,
        "no_finalizer"@,
        "no_reference_types"@,
        "nursery_zeroing"@,
        "stress_factor"@,
        "analysis_factor"@,
        "precise_stress"@,
        "vm_space_start"@,
        "vm_space_size"@,
        "work_perf_events"@,
        "phase_perf_events"@,
        "perf_exclude_kernel"@,
        "thread_affinity"@,
        "gc_trigger"@,
        "transparent_hugepages"@,
        "count_live_bytes_in_gc"@,
    ]
}

/// No two options have the same name.
#[verifier::spinoff_prover]
pub proof fn names_are_distinct(i: int, j: int)
    requires
        0 <= i < j < 23,
    ensures
        option_names()[i] != option_names()[j],
{
    reveal_strlit("plan");
    reveal_strlit("threads");
    reveal_strlit("use_short_stack_scans");
    reveal_strlit("use_return_barrier");
    reveal_strlit("eager_complete_sweep");
    reveal_strlit("ignore_system_gc");
    reveal_strlit("nursery");
    reveal_strlit("full_heap_system_gc");
    reveal_strlit("no_finalizer");
    reveal_strlit("no_reference_types");
    reveal_strlit("nursery_zeroing");
    reveal_strlit("stress_factor");
    reveal_strlit("analysis_factor");
    reveal_strlit("precise_stress");
    reveal_strlit("vm_space_start");
    reveal_strlit("vm_space_size");
    reveal_strlit("work_perf_events");
    reveal_strlit("phase_perf_events");
    reveal_strlit("perf_exclude_kernel");
    reveal_strlit("thread_affinity");
    reveal_strlit("gc_trigger");
    reveal_strlit("transparent_hugepages");
    reveal_strlit("count_live_bytes_in_gc");
    assert("plan"@.len() == 4);
    assert("threads"@.len() == 7);
    assert("use_short_stack_scans"@.len() == 21);
    assert("use_return_barrier"@.len() == 18);
    assert("eager_complete_sweep"@.len() == 20);
    assert("ignore_system_gc"@.len() == 16);
    assert("nursery"@.len() == 7);
    assert("full_heap_system_gc"@.len() == 19);
    assert("no_finalizer"@.len() == 12);
    assert("no_reference_types"@.len() == 18);
    assert("nursery_zeroing"@.len() == 15);
    assert("stress_factor"@.len() == 13);
    assert("analysis_factor"@.len() == 15);
    assert("precise_stress"@.len() == 14);
    assert("vm_space_start"@.len() == 14);
    assert("vm_space_size"@.len() == 13);
    assert("work_perf_events"@.len() == 16);
    assert("phase_perf_events"@.len() == 17);
    assert("perf_exclude_kernel"@.len() == 19);
    assert("thread_affinity"@.len() == 15);
    assert("gc_trigger"@.len() == 10);
    assert("transparent_hugepages"@.len() == 21);
    assert("count_live_bytes_in_gc"@.len() == 22);
    assert("threads"@[0] != "nursery"@[0]);
    assert("use_short_stack_scans"@[0] != "transparent_hugepages"@[0]);
    assert("use_return_barrier"@[0] != "no_reference_types"@[0]);
    assert("ignore_system_gc"@[0] != "work_perf_events"@[0]);
    assert("full_heap_system_gc"@[0] != "perf_exclude_kernel"@[0]);
    assert("nursery_zeroing"@[0] != "analysis_factor"@[0]);
    assert("nursery_zeroing"@[0] != "thread_affinity"@[0]);
    assert("stress_factor"@[0] != "vm_space_size"@[0]);
    assert("analysis_factor"@[0] != "thread_affinity"@[0]);
    assert("precise_stress"@[0] != "vm_space_start"@[0]);
}

/// The place of an option is that of its name, and a text that is no name has no
/// place.
pub proof fn options_are_in_order(key: Seq<char>, i: int)
    ensures
        0 <= i < 23 && key == option_names()[i] ==> option_table::place_of(key) == i,
        option_table::place_of(key) >= 0 ==> option_table::place_of(key) < 23 && key
            == option_names()[option_table::place_of(key)],
        option_table::is_option(key) <==> option_names().contains(key),
{
    assert forall|a: int, b: int| 0 <= a < b < 23 implies #[trigger] option_names()[a]
        != #[trigger] option_names()[b] by {
        names_are_distinct(a, b);
    }
    let names = option_names();
    let k = option_table::place_of(key);
    if names.contains(key) {
        let j = choose|j: int| 0 <= j < names.len() && names[j] == key;
        place_of_name(j);
    }
    if 0 <= i < 23 && key == names[i] {
        place_of_name(i);
    }
    if k >= 0 {
        assert(names[k] == key);
    }
}

/// The place of a name.
#[verifier::spinoff_prover]
proof fn place_of_name(i: int)
    requires
        0 <= i < 23,
    ensures
        option_table::place_of(option_names()[i]) == i,
{
    reveal_strlit("plan");
    reveal_strlit("threads");
    reveal_strlit("use_short_stack_scans");
    reveal_strlit("use_return_barrier");
    reveal_strlit("eager_complete_sweep");
    reveal_strlit("ignore_system_gc");
    reveal_strlit("nursery");
    reveal_strlit("full_heap_system_gc");
    reveal_strlit("no_finalizer");
    reveal_strlit("no_reference_types");
    reveal_strlit("nursery_zeroing");
    reveal_strlit("stress_factor");
    reveal_strlit("analysis_factor");
    reveal_strlit("precise_stress");
    reveal_strlit("vm_space_start");
    reveal_strlit("vm_space_size");
    reveal_strlit("work_perf_events");
    reveal_strlit("phase_perf_events");
    reveal_strlit("perf_exclude_kernel");
    reveal_strlit("thread_affinity");
    reveal_strlit("gc_trigger");
    reveal_strlit("transparent_hugepages");
    reveal_strlit("count_live_bytes_in_gc");
    assert("plan"@.len() == 4);
    assert("threads"@.len() == 7);
    assert("use_short_stack_scans"@.len() == 21);
    assert("use_return_barrier"@.len() == 18);
    assert("eager_complete_sweep"@.len() == 20);
    assert("ignore_system_gc"@.len() == 16);
    assert("nursery"@.len() == 7);
    assert("full_heap_system_gc"@.len() == 19);
    assert("no_finalizer"@.len() == 12);
    assert("no_reference_types"@.len() == 18);
    assert("nursery_zeroing"@.len() == 15);
    assert("stress_factor"@.len() == 13);
    assert("analysis_factor"@.len() == 15);
    assert("precise_stress"@.len() == 14);
    assert("vm_space_start"@.len() == 14);
    assert("vm_space_size"@.len() == 13);
    assert("work_perf_events"@.len() == 16);
    assert("phase_perf_events"@.len() == 17);
    assert("perf_exclude_kernel"@.len() == 19);
    assert("thread_affinity"@.len() == 15);
    assert("gc_trigger"@.len() == 10);
    assert("transparent_hugepages"@.len() == 21);
    assert("count_live_bytes_in_gc"@.len() == 22);
    assert("threads"@[0] != "nursery"@[0]);
    assert("use_short_stack_scans"@[0] != "transparent_hugepages"@[0]);
    assert("use_return_barrier"@[0] != "no_reference_types"@[0]);
    assert("ignore_system_gc"@[0] != "work_perf_events"@[0]);
    assert("full_heap_system_gc"@[0] != "perf_exclude_kernel"@[0]);
    assert("nursery_zeroing"@[0] != "analysis_factor"@[0]);
    assert("nursery_zeroing"@[0] != "thread_affinity"@[0]);
    assert("stress_factor"@[0] != "vm_space_size"@[0]);
    assert("analysis_factor"@[0] != "thread_affinity"@[0]);
    assert("precise_stress"@[0] != "vm_space_start"@[0]);
}

/// Whether an option can be set by an environment variable or on the command line
/// is what the option of that name says; nothing else can be set.
pub proof fn flags_go_by_names(o: Options, key: Seq<char>)
    ensures
        o.env_var_flag("plan"@) == o.plan.from_env_var,
        o.command_line_flag("plan"@) == o.plan.from_command_line,
        o.env_var_flag("threads"@) == o.threads.from_env_var,
        o.command_line_flag("threads"@) == o.threads.from_command_line,
        o.env_var_flag("use_short_stack_scans"@) == o.use_short_stack_scans.from_env_var,
        o.command_line_flag("use_short_stack_scans"@) == o.use_short_stack_scans.from_command_line,
        o.env_var_flag("use_return_barrier"@) == o.use_return_barrier.from_env_var,
        o.command_line_flag("use_return_barrier"@) == o.use_return_barrier.from_command_line,
        o.env_var_flag("eager_complete_sweep"@) == o.eager_complete_sweep.from_env_var,
        o.command_line_flag("eager_complete_sweep"@) == o.eager_complete_sweep.from_command_line,
        o.env_var_flag("ignore_system_gc"@) == o.ignore_system_gc.from_env_var,
        o.command_line_flag("ignore_system_gc"@) == o.ignore_system_gc.from_command_line,
        o.env_var_flag("nursery"@) == o.nursery.from_env_var,
        o.command_line_flag("nursery"@) == o.nursery.from_command_line,
        o.env_var_flag("full_heap_system_gc"@) == o.full_heap_system_gc.from_env_var,
        o.command_line_flag("full_heap_system_gc"@) == o.full_heap_system_gc.from_command_line,
        o.env_var_flag("no_finalizer"@) == o.no_finalizer.from_env_var,
        o.command_line_flag("no_finalizer"@) == o.no_finalizer.from_command_line,
        o.env_var_flag("no_reference_types"@) == o.no_reference_types.from_env_var,
        o.command_line_flag("no_reference_types"@) == o.no_reference_types.from_command_line,
        o.env_var_flag("nursery_zeroing"@) == o.nursery_zeroing.from_env_var,
        o.command_line_flag("nursery_zeroing"@) == o.nursery_zeroing.from_command_line,
        o.env_var_flag("stress_factor"@) == o.stress_factor.from_env_var,
        o.command_line_flag("stress_factor"@) == o.stress_factor.from_command_line,
        o.env_var_flag("analysis_factor"@) == o.analysis_factor.from_env_var,
        o.command_line_flag("analysis_factor"@) == o.analysis_factor.from_command_line,
        o.env_var_flag("precise_stress"@) == o.precise_stress.from_env_var,
        o.command_line_flag("precise_stress"@) == o.precise_stress.from_command_line,
        o.env_var_flag("vm_space_start"@) == o.vm_space_start.from_env_var,
        o.command_line_flag("vm_space_start"@) == o.vm_space_start.from_command_line,
        o.env_var_flag("vm_space_size"@) == o.vm_space_size.from_env_var,
        o.command_line_flag("vm_space_size"@) == o.vm_space_size.from_command_line,
        o.env_var_flag("work_perf_events"@) == o.work_perf_events.from_env_var,
        o.command_line_flag("work_perf_events"@) == o.work_perf_events.from_command_line,
        o.env_var_flag("phase_perf_events"@) == o.phase_perf_events.from_env_var,
        o.command_line_flag("phase_perf_events"@) == o.phase_perf_events.from_command_line,
        o.env_var_flag("perf_exclude_kernel"@) == o.perf_exclude_kernel.from_env_var,
        o.command_line_flag("perf_exclude_kernel"@) == o.perf_exclude_kernel.from_command_line,
        o.env_var_flag("thread_affinity"@) == o.thread_affinity.from_env_var,
        o.command_line_flag("thread_affinity"@) == o.thread_affinity.from_command_line,
        o.env_var_flag("gc_trigger"@) == o.gc_trigger.from_env_var,
        o.command_line_flag("gc_trigger"@) == o.gc_trigger.from_command_line,
        o.env_var_flag("transparent_hugepages"@) == o.transparent_hugepages.from_env_var,
        o.command_line_flag("transparent_hugepages"@) == o.transparent_hugepages.from_command_line,
        o.env_var_flag("count_live_bytes_in_gc"@) == o.count_live_bytes_in_gc.from_env_var,
        o.command_line_flag("count_live_bytes_in_gc"@) == o.count_live_bytes_in_gc.from_command_line,
        !option_names().contains(key) ==> !o.env_var_flag(key) && !o.command_line_flag(key),
{
    options_are_in_order(key, 0);
    place_of_name(0);
    place_of_name(1);
    place_of_name(2);
    place_of_name(3);
    place_of_name(4);
    place_of_name(5);
    place_of_name(6);
    place_of_name(7);
    place_of_name(8);
    place_of_name(9);
    place_of_name(10);
    place_of_name(11);
    place_of_name(12);
    place_of_name(13);
    place_of_name(14);
    place_of_name(15);
    place_of_name(16);
    place_of_name(17);
    place_of_name(18);
    place_of_name(19);
    place_of_name(20);
    place_of_name(21);
    place_of_name(22);
    assert(option_names()[0] == "plan"@);
    assert(option_names()[1] == "threads"@);
    assert(option_names()[2] == "use_short_stack_scans"@);
    assert(option_names()[3] == "use_return_barrier"@);
    assert(option_names()[4] == "eager_complete_sweep"@);
    assert(option_names()[5] == "ignore_system_gc"@);
    assert(option_names()[6] == "nursery"@);
    assert(option_names()[7] == "full_heap_system_gc"@);
    assert(option_names()[8] == "no_finalizer"@);
    assert(option_names()[9] == "no_reference_types"@);
    assert(option_names()[10] == "nursery_zeroing"@);
    assert(option_names()[11] == "stress_factor"@);
    assert(option_names()[12] == "analysis_factor"@);
    assert(option_names()[13] == "precise_stress"@);
    assert(option_names()[14] == "vm_space_start"@);
    assert(option_names()[15] == "vm_space_size"@);
    assert(option_names()[16] == "work_perf_events"@);
    assert(option_names()[17] == "phase_perf_events"@);
    assert(option_names()[18] == "perf_exclude_kernel"@);
    assert(option_names()[19] == "thread_affinity"@);
    assert(option_names()[20] == "gc_trigger"@);
    assert(option_names()[21] == "transparent_hugepages"@);
    assert(option_names()[22] == "count_live_bytes_in_gc"@);
}

/// What a text has to be for an option to take it goes by the name of the option.
pub proof fn readings_go_by_names(s: Seq<char>, p: Seq<(Seq<char>, u64)>, key: Seq<char>)
    ensures
        option_table::readable_at(option_table::place_of("plan"@), s, p) == PlanSelector::readable(s, p),
        option_table::readable_at(option_table::place_of("threads"@), s, p) == usize::readable(s, p),
        option_table::readable_at(option_table::place_of("use_short_stack_scans"@), s, p) == bool::readable(s, p),
        option_table::readable_at(option_table::place_of("use_return_barrier"@), s, p) == bool::readable(s, p),
        option_table::readable_at(option_table::place_of("eager_complete_sweep"@), s, p) == bool::readable(s, p),
        option_table::readable_at(option_table::place_of("ignore_system_gc"@), s, p) == bool::readable(s, p),
        option_table::readable_at(option_table::place_of("nursery"@), s, p) == NurserySize::readable(s, p),
        option_table::readable_at(option_table::place_of("full_heap_system_gc"@), s, p) == bool::readable(s, p),
        option_table::readable_at(option_table::place_of("no_finalizer"@), s, p) == bool::readable(s, p),
        option_table::readable_at(option_table::place_of("no_reference_types"@), s, p) == bool::readable(s, p),
        option_table::readable_at(option_table::place_of("nursery_zeroing"@), s, p) == NurseryZeroingOptions::readable(s, p),
        option_table::readable_at(option_table::place_of("stress_factor"@), s, p) == usize::readable(s, p),
        option_table::readable_at(option_table::place_of("analysis_factor"@), s, p) == usize::readable(s, p),
        option_table::readable_at(option_table::place_of("precise_stress"@), s, p) == bool::readable(s, p),
        option_table::readable_at(option_table::place_of("vm_space_start"@), s, p) == Address::readable(s, p),
        option_table::readable_at(option_table::place_of("vm_space_size"@), s, p) == usize::readable(s, p),
        option_table::readable_at(option_table::place_of("work_perf_events"@), s, p) == PerfEventOptions::readable(s, p),
        option_table::readable_at(option_table::place_of("phase_perf_events"@), s, p) == PerfEventOptions::readable(s, p),
        option_table::readable_at(option_table::place_of("perf_exclude_kernel"@), s, p) == bool::readable(s, p),
        option_table::readable_at(option_table::place_of("thread_affinity"@), s, p) == AffinityKind::readable(s, p),
        option_table::readable_at(option_table::place_of("gc_trigger"@), s, p) == GCTriggerSelector::readable(s, p),
        option_table::readable_at(option_table::place_of("transparent_hugepages"@), s, p) == bool::readable(s, p),
        option_table::readable_at(option_table::place_of("count_live_bytes_in_gc"@), s, p) == bool::readable(s, p),
        !option_names().contains(key) ==> !option_table::readable_at(
            option_table::place_of(key),
            s,
            p,
        ),
{
    options_are_in_order(key, 0);
    place_of_name(0);
    place_of_name(1);
    place_of_name(2);
    place_of_name(3);
    place_of_name(4);
    place_of_name(5);
    place_of_name(6);
    place_of_name(7);
    place_of_name(8);
    place_of_name(9);
    place_of_name(10);
    place_of_name(11);
    place_of_name(12);
    place_of_name(13);
    place_of_name(14);
    place_of_name(15);
    place_of_name(16);
    place_of_name(17);
    place_of_name(18);
    place_of_name(19);
    place_of_name(20);
    place_of_name(21);
    place_of_name(22);
    assert(option_names()[0] == "plan"@);
    assert(option_names()[1] == "threads"@);
    assert(option_names()[2] == "use_short_stack_scans"@);
    assert(option_names()[3] == "use_return_barrier"@);
    assert(option_names()[4] == "eager_complete_sweep"@);
    assert(option_names()[5] == "ignore_system_gc"@);
    assert(option_names()[6] == "nursery"@);
    assert(option_names()[7] == "full_heap_system_gc"@);
    assert(option_names()[8] == "no_finalizer"@);
    assert(option_names()[9] == "no_reference_types"@);
    assert(option_names()[10] == "nursery_zeroing"@);
    assert(option_names()[11] == "stress_factor"@);
    assert(option_names()[12] == "analysis_factor"@);
    assert(option_names()[13] == "precise_stress"@);
    assert(option_names()[14] == "vm_space_start"@);
    assert(option_names()[15] == "vm_space_size"@);
    assert(option_names()[16] == "work_perf_events"@);
    assert(option_names()[17] == "phase_perf_events"@);
    assert(option_names()[18] == "perf_exclude_kernel"@);
    assert(option_names()[19] == "thread_affinity"@);
    assert(option_names()[20] == "gc_trigger"@);
    assert(option_names()[21] == "transparent_hugepages"@);
    assert(option_names()[22] == "count_live_bytes_in_gc"@);
}

/// What each kind of value is read from: a truth value from its word, a number and
/// an address from digits, a plan and a way of zeroing from its name, and the
/// others as their forms say.
pub proof fn values_are_read_from(s: Seq<char>, p: Seq<(Seq<char>, u64)>)
    ensures
        bool::reads_as(s, p, true) <==> s == "true"@,
        bool::reads_as(s, p, false) <==> s == "false"@,
        bool::readable(s, p) <==> s == "true"@ || s == "false"@,
        forall|n: usize| #[trigger]
            usize::reads_as(s, p, n) <==> text::unsigned_of(s, usize::MAX as int) == Ok::<
                int,
                IntError,
            >(n as int),
        usize::readable(s, p) <==> exists|n: usize| #[trigger] usize::reads_as(s, p, n),
        forall|a: Address| #[trigger]
            Address::reads_as(s, p, a) <==> text::unsigned_of(s, usize::MAX as int) == Ok::<
                int,
                IntError,
            >(a.raw as int),
        Address::readable(s, p) <==> usize::readable(s, p),
        forall|v: PlanSelector| #[trigger]
            PlanSelector::reads_as(s, p, v) <==> PlanSelector::named(s) == Some(v),
        PlanSelector::readable(s, p) <==> PlanSelector::named(s) is Some,
        forall|v: NurseryZeroingOptions| #[trigger]
            NurseryZeroingOptions::reads_as(s, p, v) <==> NurseryZeroingOptions::named(s) == Some(
                v,
            ),
        NurseryZeroingOptions::readable(s, p) <==> NurseryZeroingOptions::named(s) is Some,
        forall|v: NurserySize| #[trigger]
            NurserySize::reads_as(s, p, v) <==> options::nursery_of(s, p) == Ok::<
                NurserySize,
                Seq<char>,
            >(v),
        NurserySize::readable(s, p) <==> options::nursery_of(s, p) is Ok,
        forall|v: PerfEventOptions| #[trigger]
            PerfEventOptions::reads_as(s, p, v) <==> options::perf_events_of(s) == Ok::<
                Seq<(Seq<char>, i32, i32)>,
                Seq<char>,
            >(options::event_texts(v.events@)),
        PerfEventOptions::readable(s, p) <==> options::perf_events_of(s) is Ok,
        forall|v: AffinityKind| #[trigger]
            AffinityKind::reads_as(s, p, v) <==> options::cpulist_read(s, Ok(v)),
        AffinityKind::readable(s, p) <==> s.len() == 0 || options::cpulist_error(
            text::split_on(s, ','),
            0,
        ) is None,
        forall|v: GCTriggerSelector| #[trigger]
            GCTriggerSelector::reads_as(s, p, v) <==> gc_trigger::trigger_of_text(s) == Ok::<
                GCTriggerSelector,
                Seq<char>,
            >(v),
        GCTriggerSelector::readable(s, p) <==> gc_trigger::trigger_of_text(s) is Ok,
{
    reveal_strlit("true");
    reveal_strlit("false");
    assert("true"@.len() != "false"@.len());
    text_laws::number_is_read(s, usize::MAX as int);
    if let Ok(n) = text::unsigned_of(s, usize::MAX as int) {
        text_laws::value_of_number(s);
        assert(usize::reads_as(s, p, n as usize));
    }
}

/// Which values may be taken: any; any number but zero; any where the feature is
/// there; those whose bounds are in order; cores that a machine has; and huge pages
/// on Linux only.
pub proof fn values_may_be_taken(
    n: usize,
    size: NurserySize,
    cores: AffinityKind,
    trigger: GCTriggerSelector,
    b: bool,
    feature: bool,
    r: bool,
)
    ensures
        Validator::<usize>::outcome(&AlwaysValid, n, r) <==> r,
        Validator::<bool>::outcome(&AlwaysValid, b, r) <==> r,
        NotZero.outcome(n, r) <==> (r <==> n != 0),
        Validator::<bool>::outcome(&(Gated { enabled: feature }), b, r) <==> (r <==> feature),
        ValidNursery.outcome(size, r) <==> (r <==> size.is_valid()),
        ValidTrigger.outcome(trigger, r) <==> (r <==> trigger.is_valid()),
        ValidAffinity.outcome(cores, r) ==> (r ==> exists|m: u16|
            1 <= m && #[trigger] cores.valid_for(m)) && (!r ==> exists|m: u16|
            1 <= m && !#[trigger] cores.valid_for(m)),
        (HugePages { is_linux: feature }).outcome(b, r) <==> (r <==> (b ==> feature)),
{
}

/// Setting an option from a text that stands for no value is refused. Otherwise
/// what decides gives its answer on a value that the text stands for, which the
/// option takes if the answer is yes. A refused value leaves the option as it was,
/// and nothing but the value ever changes.
pub proof fn option_takes_what_it_may<T: OptionValue, V: Validator<T>>(
    old: MMTKOption<T, V>,
    new: MMTKOption<T, V>,
    s: Seq<char>,
    p: Seq<(Seq<char>, u64)>,
    r: bool,
)
    requires
        option_table::option_set(old, new, s, p, r),
    ensures
        new.validator == old.validator,
        new.from_env_var == old.from_env_var,
        new.from_command_line == old.from_command_line,
        r ==> T::readable(s, p) && T::reads_as(s, p, new.value) && old.validator.outcome(
            new.value,
            true,
        ),
        !r ==> new.value == old.value && (T::readable(s, p) ==> exists|value: T| #[trigger]
            T::reads_as(s, p, value) && old.validator.outcome(value, false)),
{
}

/// Setting an option by its name sets that option from the text, and leaves every
/// other option as it was.
#[verifier::spinoff_prover]
#[verifier::rlimit(60)]
pub proof fn name_sets_its_option(
    old: Options,
    new: Options,
    key: Seq<char>,
    s: Seq<char>,
    r: bool,
)
    requires
        option_table::set_by_key(old, new, key, s, r),
    ensures
        option_names().contains(key),
        new.proportions == old.proportions,
        key == "plan"@ ==> option_table::option_set(
            old.plan,
            new.plan,
            s,
            old.proportions@,
            r,
        ),
        key != "plan"@ ==> new.plan == old.plan,
        key == "threads"@ ==> option_table::option_set(
            old.threads,
            new.threads,
            s,
            old.proportions@,
            r,
        ),
        key != "threads"@ ==> new.threads == old.threads,
        key == "use_short_stack_scans"@ ==> option_table::option_set(
            old.use_short_stack_scans,
            new.use_short_stack_scans,
            s,
            old.proportions@,
            r,
        ),
        key != "use_short_stack_scans"@ ==> new.use_short_stack_scans == old.use_short_stack_scans,
        key == "use_return_barrier"@ ==> option_table::option_set(
            old.use_return_barrier,
            new.use_return_barrier,
            s,
            old.proportions@,
            r,
        ),
        key != "use_return_barrier"@ ==> new.use_return_barrier == old.use_return_barrier,
        key == "eager_complete_sweep"@ ==> option_table::option_set(
            old.eager_complete_sweep,
            new.eager_complete_sweep,
            s,
            old.proportions@,
            r,
        ),
        key != "eager_complete_sweep"@ ==> new.eager_complete_sweep == old.eager_complete_sweep,
        key == "ignore_system_gc"@ ==> option_table::option_set(
            old.ignore_system_gc,
            new.ignore_system_gc,
            s,
            old.proportions@,
            r,
        ),
        key != "ignore_system_gc"@ ==> new.ignore_system_gc == old.ignore_system_gc,
        key == "nursery"@ ==> option_table::option_set(
            old.nursery,
            new.nursery,
            s,
            old.proportions@,
            r,
        ),
        key != "nursery"@ ==> new.nursery == old.nursery,
        key == "full_heap_system_gc"@ ==> option_table::option_set(
            old.full_heap_system_gc,
            new.full_heap_system_gc,
            s,
            old.proportions@,
            r,
        ),
        key != "full_heap_system_gc"@ ==> new.full_heap_system_gc == old.full_heap_system_gc,
        key == "no_finalizer"@ ==> option_table::option_set(
            old.no_finalizer,
            new.no_finalizer,
            s,
            old.proportions@,
            r,
        ),
        key != "no_finalizer"@ ==> new.no_finalizer == old.no_finalizer,
        key == "no_reference_types"@ ==> option_table::option_set(
            old.no_reference_types,
            new.no_reference_types,
            s,
            old.proportions@,
            r,
        ),
        key != "no_reference_types"@ ==> new.no_reference_types == old.no_reference_types,
        key == "nursery_zeroing"@ ==> option_table::option_set(
            old.nursery_zeroing,
            new.nursery_zeroing,
            s,
            old.proportions@,
            r,
        ),
        key != "nursery_zeroing"@ ==> new.nursery_zeroing == old.nursery_zeroing,
        key == "stress_factor"@ ==> option_table::option_set(
            old.stress_factor,
            new.stress_factor,
            s,
            old.proportions@,
            r,
        ),
        key != "stress_factor"@ ==> new.stress_factor == old.stress_factor,
        key == "analysis_factor"@ ==> option_table::option_set(
            old.analysis_factor,
            new.analysis_factor,
            s,
            old.proportions@,
            r,
        ),
        key != "analysis_factor"@ ==> new.analysis_factor == old.analysis_factor,
        key == "precise_stress"@ ==> option_table::option_set(
            old.precise_stress,
            new.precise_stress,
            s,
            old.proportions@,
            r,
        ),
        key != "precise_stress"@ ==> new.precise_stress == old.precise_stress,
        key == "vm_space_start"@ ==> option_table::option_set(
            old.vm_space_start,
            new.vm_space_start,
            s,
            old.proportions@,
            r,
        ),
        key != "vm_space_start"@ ==> new.vm_space_start == old.vm_space_start,
        key == "vm_space_size"@ ==> option_table::option_set(
            old.vm_space_size,
            new.vm_space_size,
            s,
            old.proportions@,
            r,
        ),
        key != "vm_space_size"@ ==> new.vm_space_size == old.vm_space_size,
        key == "work_perf_events"@ ==> option_table::option_set(
            old.work_perf_events,
            new.work_perf_events,
            s,
            old.proportions@,
            r,
        ),
        key != "work_perf_events"@ ==> new.work_perf_events == old.work_perf_events,
        key == "phase_perf_events"@ ==> option_table::option_set(
            old.phase_perf_events,
            new.phase_perf_events,
            s,
            old.proportions@,
            r,
        ),
        key != "phase_perf_events"@ ==> new.phase_perf_events == old.phase_perf_events,
        key == "perf_exclude_kernel"@ ==> option_table::option_set(
            old.perf_exclude_kernel,
            new.perf_exclude_kernel,
            s,
            old.proportions@,
            r,
        ),
        key != "perf_exclude_kernel"@ ==> new.perf_exclude_kernel == old.perf_exclude_kernel,
        key == "thread_affinity"@ ==> option_table::option_set(
            old.thread_affinity,
            new.thread_affinity,
            s,
            old.proportions@,
            r,
        ),
        key != "thread_affinity"@ ==> new.thread_affinity == old.thread_affinity,
        key == "gc_trigger"@ ==> option_table::option_set(
            old.gc_trigger,
            new.gc_trigger,
            s,
            old.proportions@,
            r,
        ),
        key != "gc_trigger"@ ==> new.gc_trigger == old.gc_trigger,
        key == "transparent_hugepages"@ ==> option_table::option_set(
            old.transparent_hugepages,
            new.transparent_hugepages,
            s,
            old.proportions@,
            r,
        ),
        key != "transparent_hugepages"@ ==> new.transparent_hugepages == old.transparent_hugepages,
        key == "count_live_bytes_in_gc"@ ==> option_table::option_set(
            old.count_live_bytes_in_gc,
            new.count_live_bytes_in_gc,
            s,
            old.proportions@,
            r,
        ),
        key != "count_live_bytes_in_gc"@ ==> new.count_live_bytes_in_gc == old.count_live_bytes_in_gc,
{
    reveal_strlit("plan");
    reveal_strlit("threads");
    reveal_strlit("use_short_stack_scans");
    reveal_strlit("use_return_barrier");
    reveal_strlit("eager_complete_sweep");
    reveal_strlit("ignore_system_gc");
    reveal_strlit("nursery");
    reveal_strlit("full_heap_system_gc");
    reveal_strlit("no_finalizer");
    reveal_strlit("no_reference_types");
    reveal_strlit("nursery_zeroing");
    reveal_strlit("stress_factor");
    reveal_strlit("analysis_factor");
    reveal_strlit("precise_stress");
    reveal_strlit("vm_space_start");
    reveal_strlit("vm_space_size");
    reveal_strlit("work_perf_events");
    reveal_strlit("phase_perf_events");
    reveal_strlit("perf_exclude_kernel");
    reveal_strlit("thread_affinity");
    reveal_strlit("gc_trigger");
    reveal_strlit("transparent_hugepages");
    reveal_strlit("count_live_bytes_in_gc");
    assert("plan"@.len() == 4);
    assert("threads"@.len() == 7);
    assert("use_short_stack_scans"@.len() == 21);
    assert("use_return_barrier"@.len() == 18);
    assert("eager_complete_sweep"@.len() == 20);
    assert("ignore_system_gc"@.len() == 16);
    assert("nursery"@.len() == 7);
    assert("full_heap_system_gc"@.len() == 19);
    assert("no_finalizer"@.len() == 12);
    assert("no_reference_types"@.len() == 18);
    assert("nursery_zeroing"@.len() == 15);
    assert("stress_factor"@.len() == 13);
    assert("analysis_factor"@.len() == 15);
    assert("precise_stress"@.len() == 14);
    assert("vm_space_start"@.len() == 14);
    assert("vm_space_size"@.len() == 13);
    assert("work_perf_events"@.len() == 16);
    assert("phase_perf_events"@.len() == 17);
    assert("perf_exclude_kernel"@.len() == 19);
    assert("thread_affinity"@.len() == 15);
    assert("gc_trigger"@.len() == 10);
    assert("transparent_hugepages"@.len() == 21);
    assert("count_live_bytes_in_gc"@.len() == 22);
    assert("threads"@[0] != "nursery"@[0]);
    assert("use_short_stack_scans"@[0] != "transparent_hugepages"@[0]);
    assert("use_return_barrier"@[0] != "no_reference_types"@[0]);
    assert("ignore_system_gc"@[0] != "work_perf_events"@[0]);
    assert("full_heap_system_gc"@[0] != "perf_exclude_kernel"@[0]);
    assert("nursery_zeroing"@[0] != "analysis_factor"@[0]);
    assert("nursery_zeroing"@[0] != "thread_affinity"@[0]);
    assert("stress_factor"@[0] != "vm_space_size"@[0]);
    assert("analysis_factor"@[0] != "thread_affinity"@[0]);
    assert("precise_stress"@[0] != "vm_space_start"@[0]);
    assert(option_names()[0] == "plan"@);
    assert(option_names()[1] == "threads"@);
    assert(option_names()[2] == "use_short_stack_scans"@);
    assert(option_names()[3] == "use_return_barrier"@);
    assert(option_names()[4] == "eager_complete_sweep"@);
    assert(option_names()[5] == "ignore_system_gc"@);
    assert(option_names()[6] == "nursery"@);
    assert(option_names()[7] == "full_heap_system_gc"@);
    assert(option_names()[8] == "no_finalizer"@);
    assert(option_names()[9] == "no_reference_types"@);
    assert(option_names()[10] == "nursery_zeroing"@);
    assert(option_names()[11] == "stress_factor"@);
    assert(option_names()[12] == "analysis_factor"@);
    assert(option_names()[13] == "precise_stress"@);
    assert(option_names()[14] == "vm_space_start"@);
    assert(option_names()[15] == "vm_space_size"@);
    assert(option_names()[16] == "work_perf_events"@);
    assert(option_names()[17] == "phase_perf_events"@);
    assert(option_names()[18] == "perf_exclude_kernel"@);
    assert(option_names()[19] == "thread_affinity"@);
    assert(option_names()[20] == "gc_trigger"@);
    assert(option_names()[21] == "transparent_hugepages"@);
    assert(option_names()[22] == "count_live_bytes_in_gc"@);
}

/// Whether word `i` is the name of an option that can be set on the command line
/// and a value, with an equals sign between them.
#[verifier::opaque]
pub open spec fn is_setting(found: Seq<Seq<char>>, i: int, o: Options) -> bool {
    let kv = text::split_on(found[i], '=');
    kv.len() == 2 && o.command_line_flag(kv[0])
}

/// Whether word `i` takes the options from `old` to `new`, with the answer `r`.
#[verifier::opaque]
pub open spec fn word_sets(
    found: Seq<Seq<char>>,
    i: int,
    old: Options,
    new: Options,
    r: bool,
) -> bool {
    let kv = text::split_on(found[i], '=');
    is_setting(found, i, old) && option_table::set_by_key(old, new, kv[0], kv[1], r)
}

/// What setting the options that the words from place `i` on name does.
#[verifier::opaque]
spec fn rest_set(found: Seq<Seq<char>>, i: int, old: Options, new: Options, r: bool) -> bool {
    option_table::words_set(found, i, old, new, r)
}

/// One word: there is none left, it is no setting, it was refused, or it was set and
/// the others follow.
#[verifier::spinoff_prover]
#[verifier::rlimit(60)]
proof fn one_word_is_set(
    found: Seq<Seq<char>>,
    i: int,
    old: Options,
    new: Options,
    r: bool,
) -> (step: (Options, bool))
    requires
        0 <= i <= found.len(),
        rest_set(found, i, old, new, r),
    ensures
        i == found.len() ==> r && new == old,
        i < found.len() && !is_setting(found, i, old) ==> !r && new == old,
        i < found.len() && is_setting(found, i, old) ==> {
            &&& word_sets(found, i, old, step.0, step.1)
            &&& step.1 ==> rest_set(found, i + 1, step.0, new, r)
            &&& !step.1 ==> !r && step.0 == old && new == old
        },
{
    reveal(rest_set);
    reveal(is_setting);
    reveal(word_sets);
    if i < found.len() && is_setting(found, i, old) {
        let kv = text::split_on(found[i], '=');
        let (middle, ok) = choose|middle: Options, ok: bool|
            {
                &&& #[trigger] option_table::set_by_key(old, middle, kv[0], kv[1], ok)
                &&& if ok {
                    option_table::words_set(found, i + 1, middle, new, r)
                } else {
                    !r && new == middle
                }
            };
        if !ok {
            option_table::refused_value_changes_nothing(old, middle, kv[0], kv[1]);
        }
        (middle, ok)
    } else {
        (old, false)
    }
}

/// The words are set one after the other, up to the first that cannot be: `states`
/// are the options before the first word, and after each word that was set. Where
/// all of them were set the answer is yes. Otherwise the word behind the last that
/// was set is no setting, or its value was refused.
pub proof fn words_are_set_in_order(
    found: Seq<Seq<char>>,
    old: Options,
    new: Options,
    r: bool,
) -> (states: Seq<Options>)
    requires
        option_table::words_set(found, 0, old, new, r),
    ensures
        1 <= states.len() <= found.len() + 1,
        states[0] == old,
        states.last() == new,
        forall|k: int|
            #![trigger states[k]]
            0 <= k < states.len() - 1 ==> word_sets(found, k, states[k], states[k + 1], true),
        r <==> states.len() == found.len() + 1,
        !r ==> !is_setting(found, states.len() - 1, new) || word_sets(
            found,
            states.len() - 1,
            new,
            new,
            false,
        ),
{
    assert(rest_set(found, 0, old, new, r)) by {
        reveal(rest_set);
    }
    words_from_are_set(found, 0, old, new, r)
}

/// The same from a place on.
proof fn words_from_are_set(
    found: Seq<Seq<char>>,
    i: int,
    old: Options,
    new: Options,
    r: bool,
) -> (states: Seq<Options>)
    requires
        0 <= i <= found.len(),
        rest_set(found, i, old, new, r),
    ensures
        1 <= states.len() <= found.len() - i + 1,
        states[0] == old,
        states.last() == new,
        forall|k: int|
            #![trigger states[k]]
            0 <= k < states.len() - 1 ==> word_sets(found, i + k, states[k], states[k + 1], true),
        r <==> states.len() == found.len() - i + 1,
        !r ==> !is_setting(found, i + states.len() - 1, new) || word_sets(
            found,
            i + states.len() - 1,
            new,
            new,
            false,
        ),
    decreases found.len() - i,
{
    let (middle, ok) = one_word_is_set(found, i, old, new, r);
    if i < found.len() && is_setting(found, i, old) && ok {
        let rest = words_from_are_set(found, i + 1, middle, new, r);
        let states = seq![old] + rest;
        assert forall|k: int| #![trigger states[k]] 0 <= k < states.len() - 1 implies word_sets(
            found,
            i + k,
            states[k],
            states[k + 1],
            true,
        ) by {
            if k > 0 {
                assert(states[k] == rest[k - 1]);
                assert(states[k + 1] == rest[k]);
                assert(word_sets(found, i + 1 + (k - 1), rest[k - 1], rest[k - 1 + 1], true));
            } else {
                assert(states[1] == rest[0]);
            }
        }
        assert(i + 1 + rest.len() - 1 == i + states.len() - 1);
        states
    } else {
        seq![old]
    }
}

/// An environment variable whose name is `MMTK_` and, in any case, the name of an
/// option sets that option from its value. No other variable changes anything.
pub proof fn variable_sets_its_option(
    key: Seq<char>,
    val: Seq<char>,
    old: Options,
    new: Options,
    rest: Seq<char>,
)
    requires
        option_table::env_var_read(key, val, old, new),
    ensures
        key == "MMTK_"@ + rest && option_names().contains(gc_trigger::lowercase_of(rest))
            ==> exists|r: bool|
            #[trigger] option_table::set_by_key(old, new, gc_trigger::lowercase_of(rest), val, r),
        key == "MMTK_"@ + rest && !option_names().contains(gc_trigger::lowercase_of(rest)) ==> new
            == old,
        (forall|t: Seq<char>| key != "MMTK_"@ + t) ==> new == old,
{
    let p = "MMTK_"@;
    text_laws::prefix_is_followed(key, p);
    let name = gc_trigger::lowercase_of(key.subrange(p.len() as int, key.len() as int));
    options_are_in_order(name, 0);
    if key == p + rest {
        assert(text::begins_with(p + rest, p));
        assert(key.subrange(p.len() as int, key.len() as int) =~= rest);
    }
}

/// The environment variables are read one after the other, all of them: `states`
/// are the options before the first and after each.
pub proof fn variables_are_read_in_order(
    vars: Seq<(String, String)>,
    i: int,
    old: Options,
    new: Options,
) -> (states: Seq<Options>)
    requires
        0 <= i <= vars.len(),
        option_table::env_vars_read(vars, i, old, new),
    ensures
        states.len() == vars.len() - i + 1,
        states[0] == old,
        states.last() == new,
        forall|k: int|
            #![trigger states[k]]
            0 <= k < states.len() - 1 ==> option_table::env_var_read(
                vars[i + k].0@,
                vars[i + k].1@,
                states[k],
                states[k + 1],
            ),
    decreases vars.len() - i,
{
    if i >= vars.len() {
        seq![old]
    } else {
        let middle = choose|middle: Options|
            {
                &&& #[trigger] option_table::env_var_read(vars[i].0@, vars[i].1@, old, middle)
                &&& option_table::env_vars_read(vars, i + 1, middle, new)
            };
        let rest = variables_are_read_in_order(vars, i + 1, middle, new);
        let states = seq![old] + rest;
        assert forall|k: int|
            #![trigger states[k]]
            0 <= k < states.len() - 1 implies option_table::env_var_read(
            vars[i + k].0@,
            vars[i + k].1@,
            states[k],
            states[k + 1],
        ) by {
            if k > 0 {
                assert(states[k] == rest[k - 1]);
                assert(states[k + 1] == rest[k]);
            } else {
                assert(states[1] == rest[0]);
            }
        }
        states
    }
}

} // verus!
