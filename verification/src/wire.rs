//! The wire format of a profile: protocol buffers, with the field numbers of
//! the pprof schema. The bytes of each field are written by the `protobuf`
//! crate; this module lays the fields out and states what is written.

use vstd::prelude::*;
use vstd::utf8::encode_utf8;
use protobuf::CodedOutputStream;
use protobuf::ProtobufError;
use crate::profile::{
    numbers, Function, FunctionView, Line, LineView, Location, LocationView, Profile,
    ProfileView, Sample, SampleView, ValueType, ValueTypeView,
};

verus! {

/// The error type of the `protobuf` crate.
#[verifier::external_type_specification]
#[verifier::external_body]
pub struct ExProtobufError(ProtobufError);

/// Why a profile was not encoded.
#[derive(Debug, Clone, Copy, PartialEq, Eq, Structural)]
pub enum SerializationError {
    /// A length-delimited field would hold more bytes than the 32 bits of
    /// its length can count.
    TooLong,
    /// A writer of the `protobuf` crate reported an error. The writers that
    /// the encoders use write into a vector and report none.
    Writer,
}

impl SerializationError {
    /// The text that reports the error.
    pub fn message(&self) -> (text: String)
        ensures
            text@ == match *self {
                SerializationError::TooLong => "field too long"@,
                SerializationError::Writer => "protobuf serialization"@,
            },
    {
        match self {
            SerializationError::TooLong => "field too long".to_owned(),
            SerializationError::Writer => "protobuf serialization".to_owned(),
        }
    }
}

/// The greatest number that a field can have.
pub const MAX_FIELD_NUMBER: u32 = 0x1fff_ffff;

/// The wire type of a field whose value is one varint.
pub open spec fn wire_type_varint() -> nat {
    0
}

/// The wire type of a field whose value is a length and as many bytes.
pub open spec fn wire_type_length_delimited() -> nat {
    2
}

/// A number as a base-128 varint: seven bits to a byte, the low bits first,
/// the high bit of a byte set where another byte follows.
pub open spec fn varint(value: nat) -> Seq<u8>
    decreases value,
{
    if value < 128 {
        seq![value as u8]
    } else {
        seq![(value % 128 + 128) as u8] + varint(value / 128)
    }
}

/// The tag that starts a field: its number and its wire type, as a varint.
pub open spec fn tag(field: nat, wire_type: nat) -> Seq<u8> {
    varint(field * 8 + wire_type)
}

/// A field that holds one number.
pub open spec fn varint_field(field: nat, value: nat) -> Seq<u8> {
    tag(field, wire_type_varint()) + varint(value)
}

/// A field that holds bytes: the tag, the number of bytes, the bytes.
pub open spec fn bytes_field(field: nat, payload: Seq<u8>) -> Seq<u8> {
    tag(field, wire_type_length_delimited()) + varint(payload.len()) + payload
}

/// Whether a length-delimited field can hold `payload`.
pub open spec fn fits(payload: Seq<u8>) -> bool {
    payload.len() <= u32::MAX
}

/// `CodedOutputStream::write_raw_varint64`, on a stream over an empty
/// vector: the bytes written are the varint of `value`. A stream over a
/// vector grows the vector where it needs room, so that the writer and the
/// flush after it do not fail.
#[verifier::external_body]
fn write_varint(value: u64) -> (written: Result<Vec<u8>, ProtobufError>)
    ensures
        written is Ok,
        written matches Ok(bytes) ==> bytes@ == varint(value as nat),
{
    let mut bytes = Vec::new();
    let mut stream = CodedOutputStream::vec(&mut bytes);
    stream.write_raw_varint64(value)?;
    stream.flush()?;
    Ok(bytes)
}

/// `CodedOutputStream::write_uint64`, on a stream over an empty vector: the
/// bytes written are the tag of a varint field of number `field`, then the
/// varint of `value`. The crate panics on a field number out of range; over
/// a vector the writer and the flush after it do not fail.
#[verifier::external_body]
fn write_varint_field(field: u32, value: u64) -> (written: Result<Vec<u8>, ProtobufError>)
    requires
        1 <= field <= MAX_FIELD_NUMBER,
    ensures
        written is Ok,
        written matches Ok(bytes) ==> bytes@ == varint_field(field as nat, value as nat),
{
    let mut bytes = Vec::new();
    let mut stream = CodedOutputStream::vec(&mut bytes);
    stream.write_uint64(field, value)?;
    stream.flush()?;
    Ok(bytes)
}

/// `CodedOutputStream::write_bytes`, on a stream over an empty vector: the
/// bytes written are the tag of a length-delimited field of number `field`,
/// the varint of the payload's length, and the payload. The crate panics on
/// a field number out of range, and writes the length as 32 bits; over a
/// vector the writer and the flush after it do not fail.
#[verifier::external_body]
fn write_bytes_field(field: u32, payload: &[u8]) -> (written: Result<Vec<u8>, ProtobufError>)
    requires
        1 <= field <= MAX_FIELD_NUMBER,
        fits(payload@),
    ensures
        written is Ok,
        written matches Ok(bytes) ==> bytes@ == bytes_field(field as nat, payload@),
{
    let mut bytes = Vec::new();
    let mut stream = CodedOutputStream::vec(&mut bytes);
    stream.write_bytes(field, payload)?;
    stream.flush()?;
    Ok(bytes)
}

/// Appends what the writer wrote to `out`, or reports that it failed.
pub fn append_written(out: &mut Vec<u8>, written: Result<Vec<u8>, ProtobufError>) -> (done:
    Result<(), SerializationError>)
    ensures
        written matches Ok(bytes) ==> done is Ok && final(out)@ == old(out)@ + bytes@,
        written is Err ==> done == Err::<(), SerializationError>(SerializationError::Writer),
        written is Err ==> final(out)@ == old(out)@,
{
    match written {
        Ok(mut bytes) => {
            out.append(&mut bytes);
            Ok(())
        },
        Err(_) => Err(SerializationError::Writer),
    }
}

/// A field that holds one number and is left out where the number is 0.
pub open spec fn scalar_field(field: nat, value: nat) -> Seq<u8> {
    if value == 0 {
        Seq::empty()
    } else {
        varint_field(field, value)
    }
}

/// The varints of `values`, one after the other.
pub open spec fn varints(values: Seq<nat>) -> Seq<u8>
    decreases values.len(),
{
    if values.len() == 0 {
        Seq::empty()
    } else {
        varints(values.drop_last()) + varint(values.last())
    }
}

/// A field that holds numbers, packed into one length-delimited field, and
/// is left out where there is no number.
pub open spec fn packed_field(field: nat, values: Seq<nat>) -> Seq<u8> {
    if values.len() == 0 {
        Seq::empty()
    } else {
        bytes_field(field, varints(values))
    }
}

/// Whether a packed field can hold `values`.
pub open spec fn packed_fits(values: Seq<nat>) -> bool {
    values.len() == 0 || fits(varints(values))
}

/// A length-delimited field of number `field` for each of `payloads`, in
/// order.
pub open spec fn repeated_field(field: nat, payloads: Seq<Seq<u8>>) -> Seq<u8>
    decreases payloads.len(),
{
    if payloads.len() == 0 {
        Seq::empty()
    } else {
        repeated_field(field, payloads.drop_last()) + bytes_field(field, payloads.last())
    }
}

/// Whether a length-delimited field can hold each of `payloads`.
pub open spec fn all_fit(payloads: Seq<Seq<u8>>) -> bool {
    forall|i: int| 0 <= i < payloads.len() ==> fits(#[trigger] payloads[i])
}

/// The message of a value type.
pub open spec fn value_type_bytes(value_type: ValueTypeView) -> Seq<u8> {
    scalar_field(1, value_type.field_type) + scalar_field(2, value_type.unit)
}

/// The message of a function.
pub open spec fn function_bytes(function: FunctionView) -> Seq<u8> {
    scalar_field(1, function.id) + scalar_field(2, function.name) + scalar_field(
        3,
        function.system_name,
    ) + scalar_field(4, function.filename)
}

/// The message of a line.
pub open spec fn line_bytes(line: LineView) -> Seq<u8> {
    scalar_field(1, line.function_id) + scalar_field(2, line.line)
}

/// The messages of the lines of a location.
pub open spec fn line_payloads(lines: Seq<LineView>) -> Seq<Seq<u8>> {
    lines.map_values(|l: LineView| line_bytes(l))
}

/// The message of a location.
pub open spec fn location_bytes(location: LocationView) -> Seq<u8> {
    scalar_field(1, location.id) + repeated_field(4, line_payloads(location.line))
}

/// The message of a sample.
pub open spec fn sample_bytes(sample: SampleView) -> Seq<u8> {
    packed_field(1, sample.location_id) + packed_field(2, sample.value)
}

/// Whether the packed fields of a sample can hold its numbers.
pub open spec fn sample_fits(sample: SampleView) -> bool {
    packed_fits(sample.location_id) && packed_fits(sample.value)
}

/// The messages of value types.
pub open spec fn value_type_payloads(value_types: Seq<ValueTypeView>) -> Seq<Seq<u8>> {
    value_types.map_values(|t: ValueTypeView| value_type_bytes(t))
}

/// The messages of samples.
pub open spec fn sample_payloads(samples: Seq<SampleView>) -> Seq<Seq<u8>> {
    samples.map_values(|s: SampleView| sample_bytes(s))
}

/// The messages of locations.
pub open spec fn location_payloads(locations: Seq<LocationView>) -> Seq<Seq<u8>> {
    locations.map_values(|l: LocationView| location_bytes(l))
}

/// The messages of functions.
pub open spec fn function_payloads(functions: Seq<FunctionView>) -> Seq<Seq<u8>> {
    functions.map_values(|f: FunctionView| function_bytes(f))
}

/// The strings of a string table in UTF-8.
pub open spec fn string_payloads(strings: Seq<Seq<char>>) -> Seq<Seq<u8>> {
    strings.map_values(|s: Seq<char>| encode_utf8(s))
}

/// The message of a profile: its fields in the order of their numbers.
pub open spec fn profile_bytes(profile: ProfileView) -> Seq<u8> {
    repeated_field(1, value_type_payloads(profile.sample_type)) + repeated_field(
        2,
        sample_payloads(profile.sample),
    ) + repeated_field(4, location_payloads(profile.location)) + repeated_field(
        5,
        function_payloads(profile.function),
    ) + repeated_field(6, string_payloads(profile.string_table)) + bytes_field(
        11,
        value_type_bytes(profile.period_type),
    ) + scalar_field(12, profile.period)
}

/// Whether the packed fields of each sample can hold its numbers.
pub open spec fn samples_fit(samples: Seq<SampleView>) -> bool {
    forall|i: int| 0 <= i < samples.len() ==> sample_fits(#[trigger] samples[i])
}

/// Whether, in each location, a field can hold each line.
pub open spec fn lines_fit(locations: Seq<LocationView>) -> bool {
    forall|i: int|
        0 <= i < locations.len() ==> all_fit(line_payloads((#[trigger] locations[i]).line))
}

/// Whether every length-delimited field of the message of a profile can hold
/// what goes into it.
pub open spec fn encodable(profile: ProfileView) -> bool {
    &&& all_fit(value_type_payloads(profile.sample_type))
    &&& samples_fit(profile.sample)
    &&& all_fit(sample_payloads(profile.sample))
    &&& lines_fit(profile.location)
    &&& all_fit(location_payloads(profile.location))
    &&& all_fit(function_payloads(profile.function))
    &&& all_fit(string_payloads(profile.string_table))
    &&& fits(value_type_bytes(profile.period_type))
}

/// One more payload adds its field at the end.
pub proof fn lemma_repeated_field_push(field: nat, payloads: Seq<Seq<u8>>, payload: Seq<u8>)
    ensures
        repeated_field(field, payloads.push(payload)) == repeated_field(field, payloads)
            + bytes_field(field, payload),
{
    assert(payloads.push(payload).drop_last() =~= payloads);
}

/// One more number adds its varint at the end.
pub proof fn lemma_varints_push(values: Seq<nat>, value: nat)
    ensures
        varints(values.push(value)) == varints(values) + varint(value),
{
    assert(values.push(value).drop_last() =~= values);
}

/// What goes into a length-delimited field of its own: the message of a
/// record, or the bytes of a string.
trait Payload {
    /// The bytes that go into the field.
    spec fn payload(&self) -> Seq<u8>;

    /// Whether the fields inside the payload can hold what goes into them.
    spec fn parts_fit(&self) -> bool;

    /// The payload, where its parts fit.
    fn to_payload(&self) -> (encoded: Result<Vec<u8>, SerializationError>)
        ensures
            encoded is Ok <==> self.parts_fit(),
            encoded matches Ok(bytes) ==> bytes@ == self.payload(),
            encoded matches Err(error) ==> error == SerializationError::TooLong,
    ;
}

/// The payloads of the items of a vector.
spec fn payloads_of<P: Payload>(items: Seq<P>) -> Seq<Seq<u8>> {
    items.map_values(|item: P| item.payload())
}

/// Whether the parts of each item of a vector fit.
spec fn parts_fit_of<P: Payload>(items: Seq<P>) -> bool {
    forall|i: int| 0 <= i < items.len() ==> (#[trigger] items[i]).parts_fit()
}

/// Appends a scalar field to `out`.
fn put_scalar(out: &mut Vec<u8>, field: u32, value: u64) -> (done: Result<
    (),
    SerializationError,
>)
    requires
        1 <= field <= MAX_FIELD_NUMBER,
    ensures
        done is Ok,
        final(out)@ == old(out)@ + scalar_field(field as nat, value as nat),
{
    if value == 0 {
        assert(out@ + Seq::<u8>::empty() =~= out@);
        Ok(())
    } else {
        append_written(out, write_varint_field(field, value))
    }
}

/// Appends a length-delimited field to `out`, where it can hold the payload.
fn put_bytes(out: &mut Vec<u8>, field: u32, payload: &[u8]) -> (done: Result<
    (),
    SerializationError,
>)
    requires
        1 <= field <= MAX_FIELD_NUMBER,
    ensures
        done is Ok <==> fits(payload@),
        done is Ok ==> final(out)@ == old(out)@ + bytes_field(field as nat, payload@),
        done matches Err(error) ==> error == SerializationError::TooLong,
{
    if payload.len() as u64 > u32::MAX as u64 {
        Err(SerializationError::TooLong)
    } else {
        append_written(out, write_bytes_field(field, payload))
    }
}

/// Appends a packed field to `out`, where it can hold the numbers.
fn put_packed(out: &mut Vec<u8>, field: u32, values: &Vec<u64>) -> (done: Result<
    (),
    SerializationError,
>)
    requires
        1 <= field <= MAX_FIELD_NUMBER,
    ensures
        done is Ok <==> packed_fits(numbers(values@)),
        done is Ok ==> final(out)@ == old(out)@ + packed_field(field as nat, numbers(values@)),
        done matches Err(error) ==> error == SerializationError::TooLong,
{
    if values.len() == 0 {
        assert(out@ + Seq::<u8>::empty() =~= out@);
        return Ok(());
    }
    let mut payload: Vec<u8> = Vec::new();
    let mut i: usize = 0;
    assert(numbers(values@).take(0) =~= Seq::empty());
    while i < values.len()
        invariant
            i <= values.len(),
            payload@ == varints(numbers(values@).take(i as int)),
        decreases values.len() - i,
    {
        proof {
            lemma_varints_push(numbers(values@).take(i as int), values[i as int] as nat);
            assert(numbers(values@).take(i + 1) =~= numbers(values@).take(i as int).push(
                values[i as int] as nat,
            ));
        }
        append_written(&mut payload, write_varint(values[i]))?;
        i += 1;
    }
    assert(numbers(values@).take(i as int) =~= numbers(values@));
    put_bytes(out, field, payload.as_slice())
}

/// Appends one length-delimited field of number `field` for each item, in
/// order, where the parts of each item fit and the field can hold each
/// payload.
fn put_repeated<P: Payload>(out: &mut Vec<u8>, field: u32, items: &Vec<P>) -> (done: Result<
    (),
    SerializationError,
>)
    requires
        1 <= field <= MAX_FIELD_NUMBER,
    ensures
        done is Ok <==> parts_fit_of(items@) && all_fit(payloads_of(items@)),
        done is Ok ==> final(out)@ == old(out)@ + repeated_field(
            field as nat,
            payloads_of(items@),
        ),
        done matches Err(error) ==> error == SerializationError::TooLong,
{
    let ghost payloads = payloads_of(items@);
    let ghost head = out@;
    let mut i: usize = 0;
    assert(payloads.take(0) =~= Seq::empty());
    assert(head + Seq::<u8>::empty() =~= head);
    while i < items.len()
        invariant
            i <= items.len(),
            1 <= field <= MAX_FIELD_NUMBER,
            payloads == payloads_of(items@),
            out@ == head + repeated_field(field as nat, payloads.take(i as int)),
            all_fit(payloads.take(i as int)),
            forall|k: int| 0 <= k < i ==> (#[trigger] items[k]).parts_fit(),
        decreases items.len() - i,
    {
        let ghost payload = payloads[i as int];
        let bytes = items[i].to_payload()?;
        match put_bytes(out, field, bytes.as_slice()) {
            Ok(()) => {},
            Err(error) => {
                assert(!fits(payloads[i as int]));
                return Err(error);
            },
        }
        proof {
            lemma_repeated_field_push(field as nat, payloads.take(i as int), payload);
            assert(payloads.take(i + 1) =~= payloads.take(i as int).push(payload));
            assert(out@ =~= head + repeated_field(field as nat, payloads.take(i + 1)));
        }
        i += 1;
    }
    assert(payloads.take(i as int) =~= payloads);
    Ok(())
}

/// Encodes a value type.
pub fn encode_value_type(value_type: &ValueType) -> (encoded: Result<Vec<u8>, SerializationError>)
    ensures
        encoded is Ok,
        encoded matches Ok(bytes) ==> bytes@ == value_type_bytes(value_type@),
{
    let mut out: Vec<u8> = Vec::new();
    put_scalar(&mut out, 1, value_type.field_type)?;
    put_scalar(&mut out, 2, value_type.unit)?;
    assert(out@ =~= value_type_bytes(value_type@));
    Ok(out)
}

impl Payload for ValueType {
    spec fn payload(&self) -> Seq<u8> {
        value_type_bytes(self@)
    }

    spec fn parts_fit(&self) -> bool {
        true
    }

    fn to_payload(&self) -> (encoded: Result<Vec<u8>, SerializationError>) {
        encode_value_type(self)
    }
}

/// Encodes a function.
pub fn encode_function(function: &Function) -> (encoded: Result<Vec<u8>, SerializationError>)
    ensures
        encoded is Ok,
        encoded matches Ok(bytes) ==> bytes@ == function_bytes(function@),
{
    let mut out: Vec<u8> = Vec::new();
    put_scalar(&mut out, 1, function.id)?;
    put_scalar(&mut out, 2, function.name)?;
    put_scalar(&mut out, 3, function.system_name)?;
    put_scalar(&mut out, 4, function.filename)?;
    assert(out@ =~= function_bytes(function@));
    Ok(out)
}

impl Payload for Function {
    spec fn payload(&self) -> Seq<u8> {
        function_bytes(self@)
    }

    spec fn parts_fit(&self) -> bool {
        true
    }

    fn to_payload(&self) -> (encoded: Result<Vec<u8>, SerializationError>) {
        encode_function(self)
    }
}

/// Encodes a line.
pub fn encode_line(line: &Line) -> (encoded: Result<Vec<u8>, SerializationError>)
    ensures
        encoded is Ok,
        encoded matches Ok(bytes) ==> bytes@ == line_bytes(line@),
{
    let mut out: Vec<u8> = Vec::new();
    put_scalar(&mut out, 1, line.function_id)?;
    put_scalar(&mut out, 2, line.line)?;
    assert(out@ =~= line_bytes(line@));
    Ok(out)
}

impl Payload for Line {
    spec fn payload(&self) -> Seq<u8> {
        line_bytes(self@)
    }

    spec fn parts_fit(&self) -> bool {
        true
    }

    fn to_payload(&self) -> (encoded: Result<Vec<u8>, SerializationError>) {
        encode_line(self)
    }
}

/// Encodes a location. It succeeds where a field can hold each of its lines,
/// and is `TooLong` where one cannot.
pub fn encode_location(location: &Location) -> (encoded: Result<Vec<u8>, SerializationError>)
    ensures
        encoded is Ok <==> all_fit(line_payloads(location@.line)),
        encoded matches Ok(bytes) ==> bytes@ == location_bytes(location@),
        encoded matches Err(error) ==> error == SerializationError::TooLong,
{
    let mut out: Vec<u8> = Vec::new();
    put_scalar(&mut out, 1, location.id)?;
    assert(payloads_of(location.line@) =~= line_payloads(location@.line));
    put_repeated(&mut out, 4, &location.line)?;
    assert(out@ =~= location_bytes(location@));
    Ok(out)
}

impl Payload for Location {
    spec fn payload(&self) -> Seq<u8> {
        location_bytes(self@)
    }

    spec fn parts_fit(&self) -> bool {
        all_fit(line_payloads(self@.line))
    }

    fn to_payload(&self) -> (encoded: Result<Vec<u8>, SerializationError>) {
        encode_location(self)
    }
}

/// Encodes a sample. It succeeds where the packed fields can hold the
/// sample's locations and its values, and is `TooLong` where one cannot.
pub fn encode_sample(sample: &Sample) -> (encoded: Result<Vec<u8>, SerializationError>)
    ensures
        encoded is Ok <==> sample_fits(sample@),
        encoded matches Ok(bytes) ==> bytes@ == sample_bytes(sample@),
        encoded matches Err(error) ==> error == SerializationError::TooLong,
{
    let mut out: Vec<u8> = Vec::new();
    put_packed(&mut out, 1, &sample.location_id)?;
    put_packed(&mut out, 2, &sample.value)?;
    assert(out@ =~= sample_bytes(sample@));
    Ok(out)
}

impl Payload for Sample {
    spec fn payload(&self) -> Seq<u8> {
        sample_bytes(self@)
    }

    spec fn parts_fit(&self) -> bool {
        sample_fits(self@)
    }

    fn to_payload(&self) -> (encoded: Result<Vec<u8>, SerializationError>) {
        encode_sample(self)
    }
}

impl Payload for String {
    spec fn payload(&self) -> Seq<u8> {
        encode_utf8(self@)
    }

    spec fn parts_fit(&self) -> bool {
        true
    }

    fn to_payload(&self) -> (encoded: Result<Vec<u8>, SerializationError>) {
        Ok(self.as_str().as_bytes_vec())
    }
}

/// Encodes a profile as a protocol buffers message of the pprof schema.
///
/// The encoding succeeds exactly where every length-delimited field can hold
/// what goes into it, and is `TooLong` where one cannot. The bytes are the
/// profile's message.
pub fn encode_profile(profile: &Profile) -> (encoded: Result<Vec<u8>, SerializationError>)
    ensures
        encoded is Ok <==> encodable(profile@),
        encoded matches Ok(bytes) ==> bytes@ == profile_bytes(profile@),
        encoded matches Err(error) ==> error == SerializationError::TooLong,
{
    let mut out: Vec<u8> = Vec::new();
    proof {
        assert(out@ + Seq::<u8>::empty() =~= out@);
        assert(payloads_of(profile.sample_type@) =~= value_type_payloads(profile@.sample_type));
        assert(payloads_of(profile.sample@) =~= sample_payloads(profile@.sample));
        assert(payloads_of(profile.location@) =~= location_payloads(profile@.location));
        assert(payloads_of(profile.function@) =~= function_payloads(profile@.function));
        assert(payloads_of(profile.string_table@) =~= string_payloads(profile@.string_table));
        assert(parts_fit_of(profile.sample@) <==> samples_fit(profile@.sample)) by {
            assert forall|i: int| 0 <= i < profile.sample.len() implies (
            #[trigger] profile.sample[i]).parts_fit() == sample_fits(profile@.sample[i]) by {}
        }
        assert(parts_fit_of(profile.location@) <==> lines_fit(profile@.location)) by {
            assert forall|i: int| 0 <= i < profile.location.len() implies (
            #[trigger] profile.location[i]).parts_fit() == all_fit(
                line_payloads(profile@.location[i].line),
            ) by {}
        }
    }
    put_repeated(&mut out, 1, &profile.sample_type)?;
    put_repeated(&mut out, 2, &profile.sample)?;
    put_repeated(&mut out, 4, &profile.location)?;
    put_repeated(&mut out, 5, &profile.function)?;
    put_repeated(&mut out, 6, &profile.string_table)?;
    let period_type = encode_value_type(&profile.period_type)?;
    put_bytes(&mut out, 11, period_type.as_slice())?;
    put_scalar(&mut out, 12, profile.period)?;
    assert(out@ =~= profile_bytes(profile@));
    Ok(out)
}

} // verus!
