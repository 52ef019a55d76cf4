use pprof_converter::profile::{Function, Profile, Sample};
use pprof_converter::{
    build_profile, convert, encode_profile, parse_line, ConvertError, Frame, ParseError, Symbol,
};
use pprof_converter::convert::parse_lines;

fn owned(lines: &[&str]) -> Vec<String> {
    lines.iter().map(|line| line.to_string()).collect()
}

fn profile_of_lines(lines: &[&str]) -> Profile {
    build_profile(&parse_lines(&owned(lines)).unwrap())
}

fn name_of<'a>(profile: &'a Profile, function: &Function) -> &'a str {
    &profile.string_table[function.name as usize]
}

fn file_of<'a>(profile: &'a Profile, function: &Function) -> &'a str {
    &profile.string_table[function.filename as usize]
}

fn functions_named<'a>(profile: &'a Profile, name: &str) -> Vec<&'a Function> {
    profile.function.iter().filter(|f| name_of(profile, f) == name).collect()
}

#[test]
fn three_frames_give_three_functions_and_one_sample() {
    let frame = parse_line("main; foo; bar 5").unwrap();
    let names: Vec<String> = frame.stack.iter().map(|s| s.name()).collect();
    assert_eq!(names, vec!["bar", "foo", "main"]);
    assert_eq!(frame.cycles, 5);
    let profile = build_profile(&vec![frame]);
    assert_eq!(profile.function.len(), 3);
    let functions: Vec<&str> = profile.function.iter().map(|f| name_of(&profile, f)).collect();
    assert_eq!(functions, vec!["bar", "foo", "main"]);
    assert_eq!(profile.sample.len(), 1);
    assert_eq!(profile.sample[0].location_id.len(), 3);
    assert_eq!(profile.sample[0], Sample { location_id: vec![1, 2, 3], value: vec![5, 5] });
}

#[test]
fn angle_brackets_of_a_name_become_braces() {
    let profile = profile_of_lines(&["foo<T>; bar 3"]);
    assert_eq!(functions_named(&profile, "foo{T}").len(), 1);
    assert!(functions_named(&profile, "foo<T>").is_empty());
    assert!(!profile.string_table.contains(&"foo<T>".to_string()));
}

#[test]
fn file_prefix_becomes_the_filename() {
    let profile = profile_of_lines(&["lib.c:foo; bar 10"]);
    let foo = functions_named(&profile, "foo");
    assert_eq!(foo.len(), 1);
    assert_eq!(file_of(&profile, foo[0]), "lib.c");
    let bar = functions_named(&profile, "bar");
    assert_eq!(file_of(&profile, bar[0]), "<Unknown>");
    assert_eq!(profile.sample[0].value, vec![10, 10]);
}

#[test]
fn line_without_space_fails_the_run() {
    assert_eq!(convert(&owned(&["onlyaframe"])), Err(ConvertError::Parse(ParseError::NoCycles)));
    assert_eq!(
        convert(&owned(&["main; foo 5", "onlyaframe", "bar 1"])),
        Err(ConvertError::Parse(ParseError::NoCycles))
    );
}

#[test]
fn same_name_in_two_files_is_one_function() {
    let profile = profile_of_lines(&["a.c:foo; x 1", "b.c:foo; y 1"]);
    let foo = functions_named(&profile, "foo");
    assert_eq!(foo.len(), 1);
    assert_eq!(file_of(&profile, foo[0]), "a.c");
    assert_eq!(profile.function.len(), 3);
    let swapped = profile_of_lines(&["b.c:foo; y 1", "a.c:foo; x 1"]);
    let foo = functions_named(&swapped, "foo");
    assert_eq!(foo.len(), 1);
    assert_eq!(file_of(&swapped, foo[0]), "b.c");
}

#[test]
fn lines_that_decode_are_converted() {
    assert!(convert(&owned(&["main; foo; bar 5"])).is_ok());
    assert!(convert(&owned(&["a 1", "+2 +2", "x.c:y<z>; ;  3"])).is_ok());
    assert!(convert(&Vec::new()).is_ok());
}

#[test]
fn long_stack_is_converted() {
    let tokens: Vec<String> = (0..5000).map(|i| format!("f{}.c:function<{}>", i % 13, i)).collect();
    let line = format!("{} 77", tokens.join("; "));
    let lines = vec![line];
    let frames = parse_lines(&lines).unwrap();
    assert_eq!(frames[0].stack.len(), 5000);
    assert_eq!(frames[0].stack[0].name(), "function{4999}");
    let profile = build_profile(&frames);
    assert_eq!(profile.function.len(), 5000);
    assert_eq!(profile.sample[0].location_id, (1..=5000).collect::<Vec<u64>>());
    assert_eq!(convert(&lines), Ok(encode_profile(&profile).unwrap()));
}

#[test]
fn first_failing_line_gives_the_error() {
    assert_eq!(
        parse_lines(&owned(&["a 1", "b x", "nospace"])),
        Err(ParseError::InvalidCycle)
    );
    assert_eq!(
        parse_lines(&owned(&["a 1", "nospace", "b x"])),
        Err(ParseError::NoCycles)
    );
    assert_eq!(
        convert(&owned(&["a 1", "b x"])),
        Err(ConvertError::Parse(ParseError::InvalidCycle))
    );
}

#[test]
fn lines_decode_in_order() {
    let frames = parse_lines(&owned(&["a 1", "f.c:b; a 2"])).unwrap();
    let a = Symbol { name: Some("a".to_string()), file: None };
    let b = Symbol { name: Some("b".to_string()), file: Some("f.c".to_string()) };
    assert_eq!(
        frames,
        vec![
            Frame { stack: vec![a.clone()], cycles: 1 },
            Frame { stack: vec![a, b], cycles: 2 },
        ]
    );
    assert_eq!(parse_lines(&Vec::new()), Ok(Vec::new()));
}

#[test]
fn convert_is_decode_build_encode() {
    let lines = owned(&["main; lib.c:foo<T>; bar 5", "main; baz 7"]);
    let frames = parse_lines(&lines).unwrap();
    let expected = encode_profile(&build_profile(&frames)).unwrap();
    assert_eq!(convert(&lines), Ok(expected));
}

#[test]
fn convert_of_no_lines_is_a_profile_without_samples() {
    let bytes = convert(&Vec::new()).unwrap();
    assert_eq!(bytes, encode_profile(&build_profile(&Vec::new())).unwrap());
    assert_eq!(&bytes[0..6], &[0x0a, 0x04, 0x08, 0x01, 0x10, 0x02]);
}

#[test]
fn converting_twice_gives_the_same_bytes() {
    let lines = owned(&["x.c:a; b<T>; y.c:c 10", "c; a 20", " 30"]);
    assert_eq!(convert(&lines), convert(&lines));
}

#[test]
fn convert_error_messages() {
    assert_eq!(ConvertError::Parse(ParseError::NoCycles).message(), "no cycles available");
    assert_eq!(ConvertError::Parse(ParseError::InvalidCycle).message(), "invalid cycle");
    assert_eq!(
        ConvertError::Serialization(pprof_converter::SerializationError::Writer).message(),
        "protobuf serialization"
    );
    assert_eq!(
        ConvertError::Serialization(pprof_converter::SerializationError::TooLong).message(),
        "field too long"
    );
}
