use pprof_converter::assemble::build_profile;
use pprof_converter::decode::parse_line;
use pprof_converter::profile::{Function, Line, Location, Profile, Sample, ValueType};
use pprof_converter::wire::{
    append_written, encode_function, encode_line, encode_location, encode_profile, encode_sample,
    encode_value_type, SerializationError, MAX_FIELD_NUMBER,
};
use protobuf::error::WireError;
use protobuf::wire_format::WireType;
use protobuf::{CodedInputStream, ProtobufError};

fn read_numbers(bytes: &[u8]) -> Vec<(u32, u64)> {
    let mut stream = CodedInputStream::from_bytes(bytes);
    let mut fields = Vec::new();
    while !stream.eof().unwrap() {
        let (field, wire_type) = stream.read_tag_unpack().unwrap();
        assert_eq!(wire_type, WireType::WireTypeVarint);
        fields.push((field, stream.read_uint64().unwrap()));
    }
    fields
}

fn number(fields: &[(u32, u64)], field: u32) -> u64 {
    fields.iter().filter(|(f, _)| *f == field).map(|(_, v)| *v).last().unwrap_or(0)
}

fn read_packed(bytes: &[u8]) -> Vec<u64> {
    let mut stream = CodedInputStream::from_bytes(bytes);
    let mut values = Vec::new();
    while !stream.eof().unwrap() {
        values.push(stream.read_raw_varint64().unwrap());
    }
    values
}

fn read_value_type(bytes: &[u8]) -> ValueType {
    let fields = read_numbers(bytes);
    ValueType { field_type: number(&fields, 1), unit: number(&fields, 2) }
}

fn read_function(bytes: &[u8]) -> Function {
    let fields = read_numbers(bytes);
    Function {
        id: number(&fields, 1),
        name: number(&fields, 2),
        system_name: number(&fields, 3),
        filename: number(&fields, 4),
    }
}

fn read_line(bytes: &[u8]) -> Line {
    let fields = read_numbers(bytes);
    Line { function_id: number(&fields, 1), line: number(&fields, 2) }
}

fn read_location(bytes: &[u8]) -> Location {
    let mut stream = CodedInputStream::from_bytes(bytes);
    let mut location = Location { id: 0, line: Vec::new() };
    while !stream.eof().unwrap() {
        let (field, wire_type) = stream.read_tag_unpack().unwrap();
        match (field, wire_type) {
            (1, WireType::WireTypeVarint) => location.id = stream.read_uint64().unwrap(),
            (4, WireType::WireTypeLengthDelimited) => {
                location.line.push(read_line(&stream.read_bytes().unwrap()))
            }
            _ => panic!("unexpected field {} in a location", field),
        }
    }
    location
}

fn read_sample(bytes: &[u8]) -> Sample {
    let mut stream = CodedInputStream::from_bytes(bytes);
    let mut sample = Sample { location_id: Vec::new(), value: Vec::new() };
    while !stream.eof().unwrap() {
        let (field, wire_type) = stream.read_tag_unpack().unwrap();
        assert_eq!(wire_type, WireType::WireTypeLengthDelimited);
        let values = read_packed(&stream.read_bytes().unwrap());
        match field {
            1 => sample.location_id.extend(values),
            2 => sample.value.extend(values),
            _ => panic!("unexpected field {} in a sample", field),
        }
    }
    sample
}

fn read_profile(bytes: &[u8]) -> Profile {
    let mut stream = CodedInputStream::from_bytes(bytes);
    let mut profile = Profile {
        sample_type: Vec::new(),
        sample: Vec::new(),
        string_table: Vec::new(),
        function: Vec::new(),
        location: Vec::new(),
        period_type: ValueType { field_type: 0, unit: 0 },
        period: 0,
    };
    while !stream.eof().unwrap() {
        let (field, wire_type) = stream.read_tag_unpack().unwrap();
        match (field, wire_type) {
            (1, WireType::WireTypeLengthDelimited) => {
                profile.sample_type.push(read_value_type(&stream.read_bytes().unwrap()))
            }
            (2, WireType::WireTypeLengthDelimited) => {
                profile.sample.push(read_sample(&stream.read_bytes().unwrap()))
            }
            (4, WireType::WireTypeLengthDelimited) => {
                profile.location.push(read_location(&stream.read_bytes().unwrap()))
            }
            (5, WireType::WireTypeLengthDelimited) => {
                profile.function.push(read_function(&stream.read_bytes().unwrap()))
            }
            (6, WireType::WireTypeLengthDelimited) => {
                profile.string_table.push(stream.read_string().unwrap())
            }
            (11, WireType::WireTypeLengthDelimited) => {
                profile.period_type = read_value_type(&stream.read_bytes().unwrap())
            }
            (12, WireType::WireTypeVarint) => profile.period = stream.read_uint64().unwrap(),
            _ => panic!("unexpected field {} in a profile", field),
        }
    }
    profile
}

#[test]
fn field_numbers_have_29_bits() {
    assert_eq!(MAX_FIELD_NUMBER, 536_870_911);
    assert_eq!(MAX_FIELD_NUMBER, protobuf::wire_format::FIELD_NUMBER_MAX);
}

#[test]
fn value_type_is_two_varint_fields() {
    let bytes = encode_value_type(&ValueType { field_type: 1, unit: 2 }).unwrap();
    assert_eq!(bytes, vec![0x08, 0x01, 0x10, 0x02]);
}

#[test]
fn zero_is_left_out() {
    assert_eq!(encode_value_type(&ValueType { field_type: 0, unit: 0 }).unwrap(), Vec::<u8>::new());
    assert_eq!(encode_value_type(&ValueType { field_type: 0, unit: 7 }).unwrap(), vec![0x10, 0x07]);
    assert_eq!(encode_line(&Line { function_id: 1, line: 0 }).unwrap(), vec![0x08, 0x01]);
    assert_eq!(encode_line(&Line { function_id: 0, line: 3 }).unwrap(), vec![0x10, 0x03]);
}

#[test]
fn function_is_four_varint_fields() {
    let function = Function { id: 1, name: 2, system_name: 2, filename: 3 };
    assert_eq!(
        encode_function(&function).unwrap(),
        vec![0x08, 0x01, 0x10, 0x02, 0x18, 0x02, 0x20, 0x03]
    );
}

#[test]
fn varint_takes_seven_bits_a_byte() {
    let at = |id: u64| encode_function(&Function { id, name: 0, system_name: 0, filename: 0 })
        .unwrap();
    assert_eq!(at(127), vec![0x08, 0x7f]);
    assert_eq!(at(128), vec![0x08, 0x80, 0x01]);
    assert_eq!(at(300), vec![0x08, 0xac, 0x02]);
    assert_eq!(at(16_384), vec![0x08, 0x80, 0x80, 0x01]);
    assert_eq!(
        at(u64::MAX),
        vec![0x08, 0xff, 0xff, 0xff, 0xff, 0xff, 0xff, 0xff, 0xff, 0xff, 0x01]
    );
}

#[test]
fn location_holds_its_lines() {
    let location = Location { id: 1, line: vec![Line { function_id: 1, line: 0 }] };
    assert_eq!(encode_location(&location).unwrap(), vec![0x08, 0x01, 0x22, 0x02, 0x08, 0x01]);
    let bare = Location { id: 2, line: Vec::new() };
    assert_eq!(encode_location(&bare).unwrap(), vec![0x08, 0x02]);
    let two = Location {
        id: 3,
        line: vec![Line { function_id: 3, line: 9 }, Line { function_id: 0, line: 0 }],
    };
    assert_eq!(
        encode_location(&two).unwrap(),
        vec![0x08, 0x03, 0x22, 0x04, 0x08, 0x03, 0x10, 0x09, 0x22, 0x00]
    );
}

#[test]
fn sample_packs_its_numbers() {
    let sample = Sample { location_id: vec![3, 2, 1], value: vec![5, 5] };
    assert_eq!(
        encode_sample(&sample).unwrap(),
        vec![0x0a, 0x03, 0x03, 0x02, 0x01, 0x12, 0x02, 0x05, 0x05]
    );
}

#[test]
fn sample_packs_long_numbers() {
    let sample = Sample { location_id: vec![300, 0], value: vec![u64::MAX] };
    assert_eq!(
        encode_sample(&sample).unwrap(),
        vec![
            0x0a, 0x03, 0xac, 0x02, 0x00, 0x12, 0x0a, 0xff, 0xff, 0xff, 0xff, 0xff, 0xff, 0xff,
            0xff, 0xff, 0x01,
        ]
    );
}

#[test]
fn sample_leaves_out_an_empty_list() {
    let sample = Sample { location_id: Vec::new(), value: vec![1, 1] };
    assert_eq!(encode_sample(&sample).unwrap(), vec![0x12, 0x02, 0x01, 0x01]);
    let nothing = Sample { location_id: Vec::new(), value: Vec::new() };
    assert_eq!(encode_sample(&nothing).unwrap(), Vec::<u8>::new());
}

#[test]
fn length_of_a_field_is_a_varint() {
    let sample = Sample { location_id: vec![1; 200], value: Vec::new() };
    let bytes = encode_sample(&sample).unwrap();
    assert_eq!(bytes.len(), 203);
    assert_eq!(&bytes[0..3], &[0x0a, 0xc8, 0x01]);
    assert!(bytes[3..].iter().all(|b| *b == 1));
}

#[test]
fn profile_of_one_line_in_bytes() {
    let frames = vec![parse_line("a 1").unwrap()];
    let bytes = encode_profile(&build_profile(&frames)).unwrap();
    let mut expected: Vec<u8> = vec![
        0x0a, 0x04, 0x08, 0x03, 0x10, 0x04,
        0x0a, 0x04, 0x08, 0x05, 0x10, 0x06,
        0x12, 0x07, 0x0a, 0x01, 0x01, 0x12, 0x02, 0x01, 0x01,
        0x22, 0x06, 0x08, 0x01, 0x22, 0x02, 0x08, 0x01,
        0x2a, 0x08, 0x08, 0x01, 0x10, 0x01, 0x18, 0x01, 0x20, 0x02,
    ];
    for s in ["", "a", "<Unknown>", "samples", "count", "cpu", "nanoseconds"] {
        expected.push(0x32);
        expected.push(s.len() as u8);
        expected.extend_from_slice(s.as_bytes());
    }
    expected.extend_from_slice(&[0x5a, 0x04, 0x08, 0x05, 0x10, 0x06, 0x60, 0x01]);
    assert_eq!(bytes, expected);
}

#[test]
fn strings_are_written_in_utf8() {
    let profile = Profile {
        sample_type: Vec::new(),
        sample: Vec::new(),
        string_table: vec![String::new(), "größe".to_string()],
        function: Vec::new(),
        location: Vec::new(),
        period_type: ValueType { field_type: 0, unit: 0 },
        period: 0,
    };
    assert_eq!(
        encode_profile(&profile).unwrap(),
        vec![0x32, 0x00, 0x32, 0x07, b'g', b'r', 0xc3, 0xb6, 0xc3, 0x9f, b'e', 0x5a, 0x00]
    );
}

#[test]
fn profile_reads_back() {
    let lines = [
        "main; lib.c:foo<T>; bar 5",
        "main; other.c:foo<T>; baz 300",
        "a.c:größe; ; main 18446744073709551615",
        " 0",
    ];
    let frames: Vec<_> = lines.iter().map(|line| parse_line(line).unwrap()).collect();
    let profile = build_profile(&frames);
    let bytes = encode_profile(&profile).unwrap();
    assert_eq!(read_profile(&bytes), profile);
}

#[test]
fn profile_of_many_functions_reads_back() {
    let mut lines = Vec::new();
    for i in 0..300 {
        lines.push(format!("file{}.c:function{}; root {}", i % 7, i, i * 1000));
    }
    let frames: Vec<_> = lines.iter().map(|line| parse_line(line).unwrap()).collect();
    let profile = build_profile(&frames);
    assert_eq!(profile.function.len(), 301);
    let bytes = encode_profile(&profile).unwrap();
    assert_eq!(read_profile(&bytes), profile);
}

#[test]
fn encoding_a_built_profile_succeeds() {
    let lines = ["main; foo; bar 5", " 0", "a.c:b; c 18446744073709551615"];
    let frames: Vec<_> = lines.iter().map(|line| parse_line(line).unwrap()).collect();
    assert!(encode_profile(&build_profile(&frames)).is_ok());
    assert!(encode_profile(&build_profile(&Vec::new())).is_ok());
}

#[test]
fn written_bytes_are_appended() {
    let mut out = vec![1u8, 2];
    assert_eq!(append_written(&mut out, Ok(vec![3, 4])), Ok(()));
    assert_eq!(out, vec![1, 2, 3, 4]);
    assert_eq!(append_written(&mut out, Ok(Vec::new())), Ok(()));
    assert_eq!(out, vec![1, 2, 3, 4]);
}

#[test]
fn failure_of_the_writer_is_reported() {
    let mut out = vec![1u8, 2];
    let failed = Err(ProtobufError::WireError(WireError::Other));
    assert_eq!(append_written(&mut out, failed), Err(SerializationError::Writer));
    assert_eq!(out, vec![1, 2]);
}

#[test]
fn serialization_error_messages() {
    assert_eq!(SerializationError::TooLong.message(), "field too long");
    assert_eq!(SerializationError::Writer.message(), "protobuf serialization");
}
