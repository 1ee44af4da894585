use lxr_core::util::gc_trigger::GCTriggerSelector;
use lxr_core::util::option_table::{Address, Options, Platform};
use lxr_core::util::options::{
    core_count, default_max_nursery, get_total_num_cpus, AffinityKind, NurserySize, NurseryZeroingOptions,
    PerfEventOptions, PlanSelector, Proportions, DEFAULT_MIN_NURSERY,
    DEFAULT_PROPORTIONAL_MAX_NURSERY, DEFAULT_PROPORTIONAL_MIN_NURSERY, DEFAULT_STRESS_FACTOR,
};

const HEAP: usize = 1 << 30;

fn defaults() -> Options {
    Options::new(&Platform::detect(HEAP, true, false, false))
}

fn with_perf() -> Options {
    Options::new(&Platform::detect(HEAP, true, true, true))
}

fn vars(pairs: &[(&str, &str)]) -> Vec<(String, String)> {
    pairs.iter().map(|(k, v)| (k.to_string(), v.to_string())).collect()
}

fn proportions() -> Proportions {
    let mut p = Proportions::new();
    for s in ["0.1", "0.8", "1.5", "0"] {
        p.learn(s, s.parse::<f64>().unwrap().to_bits());
    }
    p
}

#[test]
fn test_bounded() {
    let p = Proportions::new();
    // Simple case
    assert_eq!(NurserySize::from_str("Bounded:1,2", &p).unwrap(), NurserySize::Bounded { min: 1, max: 2 });
    // Default min
    assert_eq!(
        NurserySize::from_str("Bounded:_,2", &p).unwrap(),
        NurserySize::Bounded { min: DEFAULT_MIN_NURSERY, max: 2 }
    );
    // Default max
    assert_eq!(
        NurserySize::from_str("Bounded:1,_", &p).unwrap(),
        NurserySize::Bounded { min: 1, max: default_max_nursery() }
    );
    // Default both
    assert_eq!(
        NurserySize::from_str("Bounded:_,_", &p).unwrap(),
        NurserySize::Bounded { min: DEFAULT_MIN_NURSERY, max: default_max_nursery() }
    );
}

#[test]
fn test_proportional() {
    let p = proportions();
    // Simple case
    let result = NurserySize::from_str("ProportionalBounded:0.1,0.8", &p).unwrap();
    if let NurserySize::ProportionalBounded { min, max } = result {
        assert_eq!(f64::from_bits(min), 0.1);
        assert_eq!(f64::from_bits(max), 0.8);
    } else {
        panic!("Failed: {:?}", result);
    }

    // Default min
    let result = NurserySize::from_str("ProportionalBounded:_,0.8", &p).unwrap();
    if let NurserySize::ProportionalBounded { min, max } = result {
        assert_eq!(min, DEFAULT_PROPORTIONAL_MIN_NURSERY);
        assert_eq!(f64::from_bits(max), 0.8);
    } else {
        panic!("Failed: {:?}", result);
    }

    // Default max
    let result = NurserySize::from_str("ProportionalBounded:0.1,_", &p).unwrap();
    if let NurserySize::ProportionalBounded { min, max } = result {
        assert_eq!(f64::from_bits(min), 0.1);
        assert_eq!(max, DEFAULT_PROPORTIONAL_MAX_NURSERY);
    } else {
        panic!("Failed: {:?}", result);
    }

    // Default both
    let result = NurserySize::from_str("ProportionalBounded:_,_", &p).unwrap();
    if let NurserySize::ProportionalBounded { min, max } = result {
        assert_eq!(min, DEFAULT_PROPORTIONAL_MIN_NURSERY);
        assert_eq!(max, DEFAULT_PROPORTIONAL_MAX_NURSERY);
    } else {
        panic!("Failed: {:?}", result);
    }
}

#[test]
fn default_proportions_are_a_quarter_and_one() {
    assert_eq!(f64::from_bits(DEFAULT_PROPORTIONAL_MIN_NURSERY), 0.25);
    assert_eq!(f64::from_bits(DEFAULT_PROPORTIONAL_MAX_NURSERY), 1.0);
}

#[test]
fn nursery_errors() {
    let p = proportions();
    let err = |s: &str| NurserySize::from_str(s, &p).unwrap_err();
    assert_eq!(err("Bounded"), "Invalid format");
    assert_eq!(err("Bounded:1:2"), "Invalid format");
    assert_eq!(err("Bounded:1"), "Bounded requires two values");
    assert_eq!(err("Bounded:x,2"), "Failed to parse \"usize\"");
    assert_eq!(err("ProportionalBounded:0.1"), "ProportionalBounded requires two values");
    assert_eq!(err("ProportionalBounded:x,_"), "Failed to parse \"f64\"");
    assert_eq!(err("Fixed:1,2"), "Fixed requires one value");
    assert_eq!(err("Fixed:-1"), "Invalid size value");
    assert_eq!(err("Other:1"), "Unknown variant");
    assert_eq!(NurserySize::from_str("Fixed:8192", &p), Ok(NurserySize::Fixed(8192)));
}

#[test]
fn nursery_validity_agrees_with_floats() {
    let values = [0.0, -0.0, -0.5, 0.1, 0.25, 0.8, 1.0, 1.5, f64::NAN, f64::INFINITY, 5e-324];
    for min in values {
        for max in values {
            let n = NurserySize::ProportionalBounded { min: min.to_bits(), max: max.to_bits() };
            assert_eq!(n.validate(), 0.0 < min && min <= max && max <= 1.0);
        }
    }
    assert!(NurserySize::Bounded { min: 2, max: 2 }.validate());
    assert!(!NurserySize::Bounded { min: 3, max: 2 }.validate());
    assert!(NurserySize::Fixed(0).validate());
}

#[test]
fn texts_of_proportions() {
    assert_eq!(
        NurserySize::proportion_texts("ProportionalBounded:0.1,_"),
        Some(("0.1", "_"))
    );
    assert_eq!(NurserySize::proportion_texts("Bounded:1,2"), None);
    assert_eq!(NurserySize::proportion_texts("ProportionalBounded:0.1"), None);
}

#[test]
fn test_parse_size() {
    // correct cases
    assert_eq!(GCTriggerSelector::parse_size("0"), Ok(0));
    assert_eq!(GCTriggerSelector::parse_size("1K"), Ok(1024));
    assert_eq!(GCTriggerSelector::parse_size("1k"), Ok(1024));
    assert_eq!(GCTriggerSelector::parse_size("2M"), Ok(2 * 1024 * 1024));
    assert_eq!(GCTriggerSelector::parse_size("2m"), Ok(2 * 1024 * 1024));
    assert_eq!(GCTriggerSelector::parse_size("2G"), Ok(2 * 1024 * 1024 * 1024));
    assert_eq!(GCTriggerSelector::parse_size("2g"), Ok(2 * 1024 * 1024 * 1024));
    assert_eq!(GCTriggerSelector::parse_size("2T"), Ok(2 * 1024 * 1024 * 1024 * 1024));

    // empty
    assert_eq!(
        GCTriggerSelector::parse_size(""),
        Err("cannot parse integer from empty string".to_string())
    );

    // negative number - we dont care about actual error message
    assert!(GCTriggerSelector::parse_size("-1").is_err());

    // no number
    assert!(GCTriggerSelector::parse_size("k").is_err());
}

#[test]
fn test_parse_overflow_size() {
    assert_eq!(
        GCTriggerSelector::parse_size_within("4G", 0xffff_ffff),
        Err("size overflow: 4294967296".to_string())
    );
    assert_eq!(GCTriggerSelector::parse_size_within("4294967295", 0xffff_ffff), Ok(4294967295));
}

#[test]
fn size_errors() {
    let err = |s: &str| GCTriggerSelector::parse_size(s).unwrap_err();
    assert_eq!(err("1X"), "Unknown size descriptor: \"x\"");
    assert_eq!(err("16777216T"), "size overflow: 16777216t");
    assert_eq!(err("-1"), "invalid digit found in string");
    assert_eq!(err("k"), "cannot parse integer from empty string");
    // A letter of more than one byte is a descriptor too.
    assert_eq!(err("1\u{e9}"), "Unknown size descriptor: \"\u{e9}\"");
    assert_eq!(err("\u{e9}"), "cannot parse integer from empty string");
    assert!(GCTriggerSelector::parse_size_within("1\u{e9}", 0xffff_ffff).is_err());
    assert_eq!(err("18446744073709551616"), "number too large to fit in target type");
    assert_eq!(err("18446744073709551616k"), "number too large to fit in target type");
    // The Kelvin sign is a `k` in lower case.
    assert_eq!(GCTriggerSelector::parse_size("3\u{212a}"), Ok(3072));
}

#[test]
fn test_parse_fixed_heap() {
    assert_eq!(
        GCTriggerSelector::from_str("FixedHeapSize:1024"),
        Ok(GCTriggerSelector::FixedHeapSize(1024))
    );
    assert_eq!(
        GCTriggerSelector::from_str("FixedHeapSize:4m"),
        Ok(GCTriggerSelector::FixedHeapSize(4 * 1024 * 1024))
    );
    assert_eq!(
        GCTriggerSelector::from_str("FixedHeapSize:4t"),
        Ok(GCTriggerSelector::FixedHeapSize(4 * 1024 * 1024 * 1024 * 1024))
    );

    // incorrect
    assert!(GCTriggerSelector::from_str("FixedHeapSize").is_err());
    assert!(GCTriggerSelector::from_str("FixedHeapSize:").is_err());
    assert!(GCTriggerSelector::from_str("FixedHeapSize:-1").is_err());
}

#[test]
fn test_parse_dynamic_heap() {
    assert_eq!(
        GCTriggerSelector::from_str("DynamicHeapSize:1024,2048"),
        Ok(GCTriggerSelector::DynamicHeapSize(1024, 2048))
    );
    assert_eq!(
        GCTriggerSelector::from_str("DynamicHeapSize:1024,1024"),
        Ok(GCTriggerSelector::DynamicHeapSize(1024, 1024))
    );
    assert_eq!(
        GCTriggerSelector::from_str("DynamicHeapSize:1m,2m"),
        Ok(GCTriggerSelector::DynamicHeapSize(1024 * 1024, 2 * 1024 * 1024))
    );

    // incorrect
    assert!(GCTriggerSelector::from_str("DynamicHeapSize:1024,1024,").is_err());
}

#[test]
fn trigger_errors() {
    let err = |s: &str| GCTriggerSelector::from_str(s).unwrap_err();
    assert_eq!(err(""), "No GC trigger policy is supplied");
    assert_eq!(err("Other"), "Failed to parse the GC trigger option: \"Other\"");
    assert_eq!(err("a\"b\n"), "Failed to parse the GC trigger option: \"a\\\"b\\n\"");
    assert_eq!(err("FixedHeapSize:99999999999999999999"), "number too large to fit in target type");
    assert_eq!(err("FixedHeapSize:1\n"), "Failed to parse the GC trigger option: \"FixedHeapSize:1\\n\"");
    assert_eq!(err("xFixedHeapSize:1"), "Failed to parse the GC trigger option: \"xFixedHeapSize:1\"");
    // Digits of other scripts are digits of the pattern, but of no number.
    assert_eq!(err("FixedHeapSize:\u{0663}"), "invalid digit found in string");
    assert_eq!(err("FixedHeapSize:1\u{0663}k"), "invalid digit found in string");
    assert_eq!(err("DynamicHeapSize:1,\u{0663}"), "invalid digit found in string");
    assert_eq!(err("DynamicHeapSize:1k,99999999999999999999t"), "number too large to fit in target type");
    assert_eq!(GCTriggerSelector::from_str("Delegated"), Ok(GCTriggerSelector::Delegated));
    assert_eq!(GCTriggerSelector::from_str("Delegated:x"), Ok(GCTriggerSelector::Delegated));
}

#[test]
fn trigger_from_captures() {
    let text = |s: &str| Some(s.to_string());
    assert_eq!(
        GCTriggerSelector::from_captures("x", text("2k"), None, None),
        Ok(GCTriggerSelector::FixedHeapSize(2048))
    );
    assert_eq!(
        GCTriggerSelector::from_captures("x", None, text("1"), text("2G")),
        Ok(GCTriggerSelector::DynamicHeapSize(1, 2 << 30))
    );
    assert_eq!(
        GCTriggerSelector::from_captures("x", None, text("1"), None),
        Err("Failed to parse the GC trigger option: \"x\"".to_string())
    );
}

#[test]
fn largest_heap() {
    assert_eq!(GCTriggerSelector::FixedHeapSize(7).max_heap_size(), 7);
    assert_eq!(GCTriggerSelector::DynamicHeapSize(7, 9).max_heap_size(), 9);
}

#[test]
fn test_validate() {
    assert!(GCTriggerSelector::FixedHeapSize(1024).validate());
    assert!(GCTriggerSelector::DynamicHeapSize(1024, 2048).validate());
    assert!(GCTriggerSelector::DynamicHeapSize(1024, 1024).validate());

    assert!(!GCTriggerSelector::FixedHeapSize(0).validate());
    assert!(!GCTriggerSelector::DynamicHeapSize(2048, 1024).validate());
}

#[test]
fn no_env_var() {
    let mut options = defaults();
    options.read_env_var_settings(&vars(&[]));
    assert_eq!(*options.stress_factor, DEFAULT_STRESS_FACTOR);
}

#[test]
fn with_valid_env_var() {
    let mut options = defaults();
    options.read_env_var_settings(&vars(&[("MMTK_STRESS_FACTOR", "4096")]));
    assert_eq!(*options.stress_factor, 4096);
}

#[test]
fn with_multiple_valid_env_vars() {
    let mut options = defaults();
    options.read_env_var_settings(&vars(&[
        ("MMTK_STRESS_FACTOR", "4096"),
        ("MMTK_NO_FINALIZER", "true"),
    ]));
    assert_eq!(*options.stress_factor, 4096);
    assert!(*options.no_finalizer);
}

#[test]
fn with_invalid_env_var_value() {
    // invalid value, we cannot parse the value, so use the default value
    let mut options = defaults();
    options.read_env_var_settings(&vars(&[("MMTK_STRESS_FACTOR", "abc")]));
    assert_eq!(*options.stress_factor, DEFAULT_STRESS_FACTOR);
}

#[test]
fn with_invalid_env_var_key() {
    let mut options = defaults();
    options.read_env_var_settings(&vars(&[("MMTK_ABC", "42")]));
    assert_eq!(*options.stress_factor, DEFAULT_STRESS_FACTOR);
}

#[test]
fn ignore_env_var() {
    // The variables are not read.
    let _ = vars(&[("MMTK_STRESS_FACTOR", "42")]);
    let options = defaults();
    assert_eq!(*options.stress_factor, DEFAULT_STRESS_FACTOR);
}

#[test]
fn names_of_variables_in_any_case() {
    let mut options = with_perf();
    let threads = *options.threads;
    options.read_env_var_settings(&vars(&[
        ("mmtk_THREADS", "7777"),
        ("MMTK_Stress_Factor", "5"),
        ("PATH", "x"),
        // The Kelvin sign is a `k` in lower case.
        ("MMTK_WOR\u{212a}_PERF_EVENTS", "a,1,2"),
    ]));
    assert_eq!(*options.threads, threads);
    assert_eq!(*options.stress_factor, 5);
    assert_eq!(
        *options.work_perf_events,
        PerfEventOptions { events: vec![("a".to_string(), 1, 2)] }
    );
}

#[test]
fn test_str_option_default() {
    let options = defaults();
    assert_eq!(*options.work_perf_events, PerfEventOptions { events: vec![] });
}

#[test]
fn test_work_perf_events_option_from_env_var() {
    let mut options = with_perf();
    options
        .read_env_var_settings(&vars(&[("MMTK_WORK_PERF_EVENTS", "PERF_COUNT_HW_CPU_CYCLES,0,-1")]));
    assert_eq!(
        *options.work_perf_events,
        PerfEventOptions { events: vec![("PERF_COUNT_HW_CPU_CYCLES".to_string(), 0, -1)] }
    );
}

#[test]
fn test_invalid_work_perf_events_option_from_env_var() {
    let mut options = with_perf();
    options.read_env_var_settings(&vars(&[("MMTK_WORK_PERF_EVENTS", "PERF_COUNT_HW_CPU_CYCLES")]));
    // invalid value from env var, use default.
    assert_eq!(*options.work_perf_events, PerfEventOptions { events: vec![] });
}

#[test]
fn test_phase_perf_events_option_without_feature() {
    let mut options = defaults();
    options
        .read_env_var_settings(&vars(&[("MMTK_PHASE_PERF_EVENTS", "PERF_COUNT_HW_CPU_CYCLES,0,-1")]));
    // invalid value from env var, use default.
    assert_eq!(*options.work_perf_events, PerfEventOptions { events: vec![] });
    assert_eq!(*options.phase_perf_events, PerfEventOptions { events: vec![] });
}

#[test]
fn perf_events() {
    assert_eq!(
        PerfEventOptions::from_str("a,1,-2;;b,+3,4;"),
        Ok(PerfEventOptions { events: vec![("a".to_string(), 1, -2), ("b".to_string(), 3, 4)] })
    );
    assert_eq!(PerfEventOptions::from_str(""), Ok(PerfEventOptions { events: vec![] }));
    let err = |s: &str| PerfEventOptions::from_str(s).unwrap_err();
    assert_eq!(err("a,1"), "Please supply (event name, pid, cpu)");
    assert_eq!(err("a,x,1"), "Failed to parse cpu");
    assert_eq!(err("a,1,2147483648"), "Failed to parse cpu");
    assert_eq!(err("a,1,2;b"), "Please supply (event name, pid, cpu)");
}

#[test]
fn test_thread_affinity_invalid_option() {
    let mut options = defaults();
    options.read_env_var_settings(&vars(&[("MMTK_THREAD_AFFINITY", "0-")]));
    // invalid value from env var, use default.
    assert_eq!(*options.thread_affinity, AffinityKind::OsDefault);
}

#[test]
fn test_thread_affinity_single_core() {
    let mut options = defaults();
    options.read_env_var_settings(&vars(&[("MMTK_THREAD_AFFINITY", "0")]));
    assert_eq!(*options.thread_affinity, AffinityKind::RoundRobin(vec![0_u16]));
}

#[test]
fn test_thread_affinity_generate_core_list() {
    let mut vec = vec![0_u16];
    let mut cpu_list = String::new();
    let num_cpus = get_total_num_cpus();

    cpu_list.push('0');
    for cpu in 1..num_cpus {
        cpu_list.push_str(format!(",{}", cpu).as_str());
        vec.push(cpu);
    }

    let mut options = defaults();
    options.read_env_var_settings(&vars(&[("MMTK_THREAD_AFFINITY", &cpu_list)]));
    assert_eq!(*options.thread_affinity, AffinityKind::RoundRobin(vec));
}

#[test]
fn test_thread_affinity_single_range() {
    let affinity = AffinityKind::from_str("0-1");
    assert_eq!(affinity, Ok(AffinityKind::RoundRobin(vec![0_u16, 1_u16])));
}

#[test]
fn test_thread_affinity_complex_core_list() {
    let affinity = AffinityKind::from_str("0,1-2,4");
    assert_eq!(affinity, Ok(AffinityKind::RoundRobin(vec![0_u16, 1_u16, 2_u16, 4_u16])));
}

#[test]
fn test_thread_affinity_space_in_core_list() {
    let affinity = AffinityKind::from_str("0,1-2,4, 6");
    assert_eq!(affinity, Err("Core ids have been incorrectly specified".to_string()));
}

#[test]
fn test_thread_affinity_bad_core_list() {
    let affinity = AffinityKind::from_str("0,1-2,4,");
    assert_eq!(affinity, Err("Core ids have been incorrectly specified".to_string()));
}

#[test]
fn test_thread_affinity_range_start_greater_than_end() {
    let affinity = AffinityKind::from_str("1-0");
    assert_eq!(
        affinity,
        Err("Starting core id in range should be less than the end".to_string())
    );
}

#[test]
fn test_thread_affinity_bad_range_option() {
    let affinity = AffinityKind::from_str("0-1-4");
    assert_eq!(affinity, Err("Core ids have been incorrectly specified".to_string()));
}

#[test]
fn cores_are_sorted_and_each_is_there_once() {
    assert_eq!(
        AffinityKind::from_str("5,1-3,2,5,0"),
        Ok(AffinityKind::RoundRobin(vec![0, 1, 2, 3, 5]))
    );
    assert_eq!(AffinityKind::from_str(""), Ok(AffinityKind::OsDefault));
    assert_eq!(
        AffinityKind::from_str("65535"),
        Ok(AffinityKind::RoundRobin(vec![65535]))
    );
    assert!(AffinityKind::from_str("65536").is_err());
    // The first bad item decides.
    assert_eq!(
        AffinityKind::from_str("x,1-0"),
        Err("Core ids have been incorrectly specified".to_string())
    );
}

#[test]
fn cores_have_to_be_there() {
    let affinity = AffinityKind::RoundRobin(vec![0, 3]);
    assert!(affinity.validate_for(4));
    assert!(!affinity.validate_for(3));
    assert!(AffinityKind::OsDefault.validate_for(0));
    assert!(AffinityKind::OsDefault.validate());
    assert!(AffinityKind::RoundRobin(vec![0]).validate());
    assert!(!AffinityKind::RoundRobin(vec![65535]).validate());
}

#[test]
fn test_process_valid() {
    let mut options = defaults();
    let success = options.set_from_command_line("no_finalizer", "true");
    assert!(success);
    assert!(*options.no_finalizer);
}

#[test]
fn test_process_invalid() {
    let mut options = defaults();
    let default_no_finalizer = *options.no_finalizer;
    let success = options.set_from_command_line("no_finalizer", "100");
    assert!(!success);
    assert_eq!(*options.no_finalizer, default_no_finalizer);
}

#[test]
fn test_process_bulk_empty() {
    let mut options = defaults();
    let success = options.set_bulk_from_command_line("");
    assert!(success);
}

#[test]
fn test_process_bulk_valid() {
    let mut options = defaults();
    let success = options.set_bulk_from_command_line("no_finalizer=true stress_factor=42");
    assert!(success);
    assert!(*options.no_finalizer);
    assert_eq!(*options.stress_factor, 42);
}

#[test]
fn test_process_bulk_comma_separated_valid() {
    let mut options = defaults();
    let success = options.set_bulk_from_command_line("no_finalizer=true,stress_factor=42");
    assert!(success);
    assert!(*options.no_finalizer);
    assert_eq!(*options.stress_factor, 42);
}

#[test]
fn test_process_bulk_invalid() {
    let mut options = defaults();
    let success = options.set_bulk_from_command_line("no_finalizer=true stress_factor=a");
    assert!(!success);
}

#[test]
fn bulk_stops_at_what_is_no_option() {
    let mut options = defaults();
    assert!(!options.set_bulk_from_command_line("no_finalizer=true abc=1 stress_factor=42"));
    assert!(*options.no_finalizer);
    assert_eq!(*options.stress_factor, DEFAULT_STRESS_FACTOR);
    assert!(!options.set_bulk_from_command_line("stress_factor"));
    assert!(!options.set_bulk_from_command_line("stress_factor=1=2"));
    assert!(options.set_bulk_from_command_line(" ,\tthreads=3,\n,plan=Immix\r"));
    assert_eq!(*options.threads, 3);
    assert_eq!(*options.plan, PlanSelector::Immix);
}

#[test]
fn test_set_typed_option_valid() {
    let mut options = defaults();
    let success = options.no_finalizer.set(true);
    assert!(success);
    assert!(*options.no_finalizer);
}

#[test]
fn test_set_typed_option_invalid() {
    let mut options = defaults();
    let threads = *options.threads;
    let success = options.threads.set(0);
    assert!(!success);
    assert_eq!(*options.threads, threads);
}

#[test]
fn every_option_can_be_set_by_name() {
    let mut options = with_perf();
    options.learn_proportion("0.5", 0.5f64.to_bits());
    for (key, val) in [
        ("plan", "MyGC"),
        ("threads", "2"),
        ("use_short_stack_scans", "true"),
        ("use_return_barrier", "true"),
        ("eager_complete_sweep", "true"),
        ("ignore_system_gc", "true"),
        ("nursery", "ProportionalBounded:0.5,_"),
        ("full_heap_system_gc", "true"),
        ("no_finalizer", "true"),
        ("no_reference_types", "false"),
        ("nursery_zeroing", "Adaptive"),
        ("stress_factor", "1"),
        ("analysis_factor", "2"),
        ("precise_stress", "false"),
        ("vm_space_start", "4096"),
        ("vm_space_size", "8192"),
        ("work_perf_events", "a,1,2"),
        ("phase_perf_events", "b,1,2"),
        ("perf_exclude_kernel", "true"),
        ("thread_affinity", "0"),
        ("gc_trigger", "DynamicHeapSize:1k,2k"),
        ("transparent_hugepages", "true"),
        ("count_live_bytes_in_gc", "true"),
    ] {
        assert!(options.set_from_command_line(key, val), "{}", key);
    }
    assert_eq!(*options.plan, PlanSelector::MyGC);
    assert_eq!(*options.threads, 2);
    assert!(*options.use_short_stack_scans);
    assert!(*options.use_return_barrier);
    assert!(*options.eager_complete_sweep);
    assert!(*options.ignore_system_gc);
    assert_eq!(
        *options.nursery,
        NurserySize::ProportionalBounded {
            min: 0.5f64.to_bits(),
            max: DEFAULT_PROPORTIONAL_MAX_NURSERY
        }
    );
    assert!(*options.full_heap_system_gc);
    assert!(*options.no_finalizer);
    assert!(!*options.no_reference_types);
    assert_eq!(*options.nursery_zeroing, NurseryZeroingOptions::Adaptive);
    assert_eq!(*options.stress_factor, 1);
    assert_eq!(*options.analysis_factor, 2);
    assert!(!*options.precise_stress);
    assert_eq!(*options.vm_space_start, Address { raw: 4096 });
    assert_eq!(*options.vm_space_size, 8192);
    assert_eq!(options.work_perf_events.events.len(), 1);
    assert_eq!(options.phase_perf_events.events[0].0, "b");
    assert!(*options.perf_exclude_kernel);
    assert_eq!(*options.thread_affinity, AffinityKind::RoundRobin(vec![0]));
    assert_eq!(*options.gc_trigger, GCTriggerSelector::DynamicHeapSize(1024, 2048));
    assert!(*options.transparent_hugepages);
    assert!(*options.count_live_bytes_in_gc);
}

#[test]
fn values_that_options_refuse() {
    let mut options = defaults();
    assert!(!options.set_from_command_line("threads", "0"));
    assert!(options.can_read("threads", "0"));
    assert!(!options.can_read("threads", "many"));
    assert!(!options.can_read("no_such_option", "0"));
    assert!(!options.set_from_command_line("vm_space_size", "0"));
    assert!(!options.set_from_command_line("nursery", "Bounded:2,1"));
    assert!(!options.set_from_command_line("nursery", "ProportionalBounded:0.3,_"));
    assert!(!options.set_from_command_line("gc_trigger", "FixedHeapSize:0"));
    assert!(!options.set_from_command_line("thread_affinity", "65535"));
    assert!(!options.set_from_command_line("perf_exclude_kernel", "true"));
    assert!(!options.set_from_command_line("work_perf_events", "a,1,2"));
    assert!(!options.set_from_command_line("plan", "immix"));
    assert!(!options.set_from_command_line("nursery_zeroing", "x"));
    let mut elsewhere = Options::new(&Platform::detect(HEAP, false, false, false));
    assert!(!elsewhere.set_from_command_line("transparent_hugepages", "true"));
    assert!(elsewhere.set_from_command_line("transparent_hugepages", "false"));
}

#[test]
fn first_values() {
    let options = Options::new(&Platform {
        num_cpus: 6,
        default_heap_size: 123,
        is_linux: true,
        perf_counter: false,
        work_packet_stats: false,
    });
    assert_eq!(*options.plan, PlanSelector::GenImmix);
    assert_eq!(*options.threads, 6);
    assert_eq!(*options.vm_space_size, 0xdc0_0000);
    assert_eq!(*options.gc_trigger, GCTriggerSelector::FixedHeapSize(123));
    assert!(*options.no_reference_types);
    assert!(*options.precise_stress);
    assert_eq!(*options.nursery_zeroing, NurseryZeroingOptions::Temporal);
    assert!(*defaults().threads >= 1);
}

#[test]
fn stress_collections_need_a_factor() {
    let mut options = defaults();
    assert!(!options.is_stress_test_gc_enabled());
    assert!(options.stress_factor.set(10));
    assert!(options.is_stress_test_gc_enabled());
    let mut options = defaults();
    assert!(options.analysis_factor.set(10));
    assert!(options.is_stress_test_gc_enabled());
}

#[test]
fn names_of_plans() {
    for (name, plan) in [
        ("NoGC", PlanSelector::NoGC),
        ("SemiSpace", PlanSelector::SemiSpace),
        ("GenCopy", PlanSelector::GenCopy),
        ("GenImmix", PlanSelector::GenImmix),
        ("MarkSweep", PlanSelector::MarkSweep),
        ("PageProtect", PlanSelector::PageProtect),
        ("Immix", PlanSelector::Immix),
        ("MarkCompact", PlanSelector::MarkCompact),
        ("StickyImmix", PlanSelector::StickyImmix),
        ("MyGC", PlanSelector::MyGC),
    ] {
        assert_eq!(PlanSelector::from_str(name), Some(plan));
    }
    assert_eq!(PlanSelector::from_str("LXR"), None);
    assert_eq!(NurseryZeroingOptions::from_str("Temporal"), Some(NurseryZeroingOptions::Temporal));
    assert_eq!(
        NurseryZeroingOptions::from_str("Nontemporal"),
        Some(NurseryZeroingOptions::Nontemporal)
    );
    assert_eq!(
        NurseryZeroingOptions::from_str("Concurrent"),
        Some(NurseryZeroingOptions::Concurrent)
    );
    assert_eq!(NurseryZeroingOptions::from_str("temporal"), None);
}

#[test]
fn cores_are_counted_up_to_the_largest_number() {
    assert_eq!(core_count(1), 1);
    assert_eq!(core_count(64), 64);
    assert_eq!(core_count(0xffff), 0xffff);
    assert_eq!(core_count(0x1_0000), 0xffff);
    assert_eq!(core_count(usize::MAX), 0xffff);
}
