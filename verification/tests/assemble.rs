use pprof_converter::assemble::{build_profile, build_sample, cycles_to_nanoseconds};
use pprof_converter::decode::{parse_line, Frame};
use pprof_converter::intern::{intern_frames, StringTable};
use pprof_converter::profile::{
    Function, Line, Location, Profile, Sample, ValueType, FREQUENCY, NANOSECONDS_PER_SECOND,
};
use pprof_converter::registry::Registry;
use pprof_converter::symbol::Symbol;

fn frames_of(lines: &[&str]) -> Vec<Frame> {
    lines.iter().map(|line| parse_line(line).unwrap()).collect()
}

fn string_at(profile: &Profile, index: u64) -> &str {
    &profile.string_table[index as usize]
}

fn function_named<'a>(profile: &'a Profile, name: &str) -> Vec<&'a Function> {
    profile.function.iter().filter(|f| string_at(profile, f.name) == name).collect()
}

#[test]
fn new_table_holds_the_empty_string() {
    let table = StringTable::new();
    assert_eq!(table.len(), 1);
    assert_eq!(table.index_of(&String::new()), Some(0));
    assert_eq!(table.index_of(&"a".to_string()), None);
    assert_eq!(table.into_strings(), vec![String::new()]);
}

#[test]
fn intern_gives_each_string_one_index() {
    let mut table = StringTable::new();
    assert_eq!(table.intern("foo".to_string()), 1);
    assert_eq!(table.intern("bar".to_string()), 2);
    assert_eq!(table.intern("foo".to_string()), 1);
    assert_eq!(table.intern(String::new()), 0);
    assert_eq!(table.len(), 3);
    assert_eq!(table.index_of(&"bar".to_string()), Some(2));
    assert_eq!(table.into_strings(), vec!["".to_string(), "foo".to_string(), "bar".to_string()]);
}

#[test]
fn intern_frames_collects_in_order_of_first_occurrence() {
    let frames = frames_of(&["main; lib.c:foo 1", "foo; other.c:baz 2"]);
    let table = intern_frames(&frames);
    let expected: Vec<String> = [
        "", "foo", "lib.c", "main", "<Unknown>", "baz", "other.c", "samples", "count", "cpu",
        "nanoseconds",
    ].iter().map(|s| s.to_string()).collect();
    assert_eq!(table.into_strings(), expected);
}

#[test]
fn intern_frames_of_nothing_holds_the_labels() {
    let table = intern_frames(&Vec::new());
    let expected: Vec<String> =
        ["", "samples", "count", "cpu", "nanoseconds"].iter().map(|s| s.to_string()).collect();
    assert_eq!(table.into_strings(), expected);
}

#[test]
fn intern_frames_keeps_a_label_that_is_a_name() {
    let frames = frames_of(&["cpu; count 1"]);
    let table = intern_frames(&frames);
    let expected: Vec<String> = ["", "count", "<Unknown>", "cpu", "samples", "nanoseconds"]
        .iter().map(|s| s.to_string()).collect();
    assert_eq!(table.into_strings(), expected);
}

#[test]
fn registry_numbers_names_from_one() {
    let frames = frames_of(&["a.c:foo; bar 1"]);
    let table = intern_frames(&frames);
    let mut registry = Registry::new();
    assert_eq!(registry.len(), 0);
    let bar = Symbol { name: Some("bar".to_string()), file: None };
    let foo = Symbol { name: Some("foo".to_string()), file: Some("a.c".to_string()) };
    assert_eq!(registry.resolve(&bar, &table), 1);
    assert_eq!(registry.resolve(&foo, &table), 2);
    assert_eq!(registry.resolve(&bar, &table), 1);
    assert_eq!(registry.len(), 2);
    let (functions, locations) = registry.into_tables();
    let bar_index = table.index_of(&"bar".to_string()).unwrap() as u64;
    let foo_index = table.index_of(&"foo".to_string()).unwrap() as u64;
    let unknown_index = table.index_of(&"<Unknown>".to_string()).unwrap() as u64;
    let file_index = table.index_of(&"a.c".to_string()).unwrap() as u64;
    assert_eq!(
        functions,
        vec![
            Function { id: 1, name: bar_index, system_name: bar_index, filename: unknown_index },
            Function { id: 2, name: foo_index, system_name: foo_index, filename: file_index },
        ]
    );
    assert_eq!(
        locations,
        vec![
            Location { id: 1, line: vec![Line { function_id: 1, line: 0 }] },
            Location { id: 2, line: vec![Line { function_id: 2, line: 0 }] },
        ]
    );
}

#[test]
fn registry_keys_on_the_name_alone() {
    let frames = frames_of(&["a.c:foo 1", "b.c:foo 1"]);
    let table = intern_frames(&frames);
    let mut registry = Registry::new();
    let first = Symbol { name: Some("foo".to_string()), file: Some("a.c".to_string()) };
    let second = Symbol { name: Some("foo".to_string()), file: Some("b.c".to_string()) };
    assert_eq!(registry.resolve(&first, &table), 1);
    assert_eq!(registry.resolve(&second, &table), 1);
    let (functions, locations) = registry.into_tables();
    assert_eq!(functions.len(), 1);
    assert_eq!(locations.len(), 1);
    assert_eq!(functions[0].filename, table.index_of(&"a.c".to_string()).unwrap() as u64);
}

#[test]
fn registry_takes_a_missing_name_for_unknown() {
    let frames = vec![Frame { stack: vec![Symbol { name: None, file: None }], cycles: 1 }];
    let table = intern_frames(&frames);
    let mut registry = Registry::new();
    assert_eq!(registry.resolve(&frames[0].stack[0], &table), 1);
    let (functions, _) = registry.into_tables();
    let unknown = table.index_of(&"<Unknown>".to_string()).unwrap() as u64;
    assert_eq!(
        functions,
        vec![Function { id: 1, name: unknown, system_name: unknown, filename: unknown }]
    );
}

#[test]
fn nanoseconds_at_one_gigahertz() {
    assert_eq!(FREQUENCY, 1_000_000_000);
    assert_eq!(NANOSECONDS_PER_SECOND, 1_000_000_000);
    assert_eq!(cycles_to_nanoseconds(0), 0);
    assert_eq!(cycles_to_nanoseconds(5), 5);
    assert_eq!(cycles_to_nanoseconds(9_223_372_037), 9_223_372_037);
    assert_eq!(cycles_to_nanoseconds(u64::MAX), u64::MAX);
}

#[test]
fn sample_follows_the_stack() {
    let frames = frames_of(&["main; foo; bar 5", "main; baz; foo 7"]);
    let table = intern_frames(&frames);
    let mut registry = Registry::new();
    let first = build_sample(&frames[0], &mut registry, &table);
    assert_eq!(first, Sample { location_id: vec![1, 2, 3], value: vec![5, 5] });
    let second = build_sample(&frames[1], &mut registry, &table);
    assert_eq!(second, Sample { location_id: vec![2, 4, 3], value: vec![7, 7] });
    assert_eq!(registry.len(), 4);
}

#[test]
fn sample_of_an_empty_stack() {
    let frame = Frame { stack: Vec::new(), cycles: 9 };
    let table = intern_frames(&Vec::new());
    let mut registry = Registry::new();
    let sample = build_sample(&frame, &mut registry, &table);
    assert_eq!(sample, Sample { location_id: Vec::new(), value: vec![9, 9] });
    assert_eq!(registry.len(), 0);
}

#[test]
fn profile_of_one_line() {
    let profile = build_profile(&frames_of(&["a 1"]));
    let strings: Vec<String> = ["", "a", "<Unknown>", "samples", "count", "cpu", "nanoseconds"]
        .iter().map(|s| s.to_string()).collect();
    let expected = Profile {
        sample_type: vec![
            ValueType { field_type: 3, unit: 4 },
            ValueType { field_type: 5, unit: 6 },
        ],
        sample: vec![Sample { location_id: vec![1], value: vec![1, 1] }],
        string_table: strings,
        function: vec![Function { id: 1, name: 1, system_name: 1, filename: 2 }],
        location: vec![Location { id: 1, line: vec![Line { function_id: 1, line: 0 }] }],
        period_type: ValueType { field_type: 5, unit: 6 },
        period: 1,
    };
    assert_eq!(profile, expected);
}

#[test]
fn profile_of_no_frames() {
    let profile = build_profile(&Vec::new());
    assert_eq!(profile.string_table, vec!["", "samples", "count", "cpu", "nanoseconds"]);
    assert_eq!(profile.sample_type, vec![
        ValueType { field_type: 1, unit: 2 },
        ValueType { field_type: 3, unit: 4 },
    ]);
    assert_eq!(profile.period_type, ValueType { field_type: 3, unit: 4 });
    assert_eq!(profile.period, 1);
    assert!(profile.sample.is_empty());
    assert!(profile.function.is_empty());
    assert!(profile.location.is_empty());
}

#[test]
fn string_table_starts_with_the_empty_string() {
    let inputs: [&[&str]; 4] =
        [&[], &["a 1"], &[" 1"], &["x.c:; y.c:b 2", "samples; count; cpu; nanoseconds 3"]];
    for lines in inputs {
        let profile = build_profile(&frames_of(lines));
        assert_eq!(profile.string_table[0], "");
    }
}

#[test]
fn string_table_holds_no_string_twice() {
    let profile = build_profile(&frames_of(&[
        " 1", "a.c:a; a.c:b; b.c:a 2", "cpu; a; a.c 3", "; :  4",
    ]));
    let mut seen = std::collections::HashSet::new();
    for s in &profile.string_table {
        assert!(seen.insert(s.clone()));
    }
    assert_eq!(function_named(&profile, "").len(), 1);
    assert_eq!(function_named(&profile, "")[0].name, 0);
}

#[test]
fn functions_are_the_distinct_names() {
    let lines = ["a.c:f; g; b.c:f 1", "g; h; c.c:g 2", "f 3"];
    let frames = frames_of(&lines);
    let profile = build_profile(&frames);
    let mut names = std::collections::HashSet::new();
    for frame in &frames {
        for symbol in &frame.stack {
            names.insert(symbol.name());
        }
    }
    assert_eq!(names.len(), 3);
    assert_eq!(profile.function.len(), names.len());
    assert_eq!(profile.location.len(), names.len());
}

#[test]
fn locations_share_the_identifiers_of_functions() {
    let profile = build_profile(&frames_of(&["a; b; c 1", "c; d; a 2"]));
    assert_eq!(profile.function.len(), 4);
    assert_eq!(profile.location.len(), 4);
    for (k, (function, location)) in
        profile.function.iter().zip(profile.location.iter()).enumerate()
    {
        assert_eq!(function.id, k as u64 + 1);
        assert_eq!(location.id, function.id);
        assert_eq!(location.line, vec![Line { function_id: function.id, line: 0 }]);
        assert_eq!(function.system_name, function.name);
    }
}

#[test]
fn samples_hold_cycles_and_nanoseconds() {
    let profile = build_profile(&frames_of(&[
        "a 0", "a 1", "b 123456789012", "c 18446744073709551615",
    ]));
    let cycles = [0u64, 1, 123456789012, u64::MAX];
    assert_eq!(profile.sample.len(), 4);
    for (sample, count) in profile.sample.iter().zip(cycles.iter()) {
        assert_eq!(sample.value.len(), 2);
        assert_eq!(sample.value[0], *count);
        let expected = sample.value[0] as u128 * 1_000_000_000 / FREQUENCY as u128;
        assert_eq!(sample.value[1] as u128, expected);
    }
}

#[test]
fn equal_stacks_give_one_sample_each() {
    let profile = build_profile(&frames_of(&["a; b 1", "a; b 1", "a; b 2"]));
    assert_eq!(profile.sample.len(), 3);
    assert_eq!(profile.sample[0], profile.sample[1]);
    assert_eq!(profile.sample[2], Sample { location_id: vec![1, 2], value: vec![2, 2] });
    assert_eq!(profile.function.len(), 2);
}

#[test]
fn building_twice_gives_the_same_profile() {
    let frames = frames_of(&["x.c:a; b<T>; y.c:c 10", "c; a 20", " 30"]);
    assert_eq!(build_profile(&frames), build_profile(&frames));
    assert_eq!(build_profile(&frames), build_profile(&frames.clone()));
}
