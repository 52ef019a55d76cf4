//! The whole conversion: lines of folded stack text in, the bytes of a
//! profile out.

use vstd::prelude::*;
use crate::assemble::build_profile;
use crate::bounds::{lemma_short_lines_are_encodable, line_limit};
use crate::decode::{decode_line, frame_views, parse_line, Frame, FrameView, ParseError};
use crate::profile::profile_of;
use crate::text::string_views;
use crate::wire::{encodable, encode_profile, profile_bytes, SerializationError};

verus! {

/// Why lines were not converted.
#[derive(Debug, Clone, Copy, PartialEq, Eq, Structural)]
pub enum ConvertError {
    /// A line is no frame.
    Parse(ParseError),
    /// The profile was not encoded.
    Serialization(SerializationError),
}

impl ConvertError {
    /// The text that reports the error.
    pub fn message(&self) -> (text: String)
        ensures
            text@ == match *self {
                ConvertError::Parse(ParseError::NoCycles) => "no cycles available"@,
                ConvertError::Parse(ParseError::InvalidCycle) => "invalid cycle"@,
                ConvertError::Serialization(SerializationError::TooLong) => "field too long"@,
                ConvertError::Serialization(SerializationError::Writer) =>
                    "protobuf serialization"@,
            },
    {
        match self {
            ConvertError::Parse(error) => error.message(),
            ConvertError::Serialization(error) => error.message(),
        }
    }
}

/// The frames that `lines` write, in order, or the error of the first line
/// that is no frame.
pub open spec fn decode_lines(lines: Seq<Seq<char>>) -> Result<Seq<FrameView>, ParseError>
    decreases lines.len(),
{
    if lines.len() == 0 {
        Ok(Seq::empty())
    } else {
        match decode_lines(lines.drop_last()) {
            Err(error) => Err(error),
            Ok(frames) => match decode_line(lines.last()) {
                Err(error) => Err(error),
                Ok(frame) => Ok(frames.push(frame)),
            },
        }
    }
}

/// Decodes every line. The first line that is no frame ends the work with
/// its error.
pub fn parse_lines(lines: &Vec<String>) -> (decoded: Result<Vec<Frame>, ParseError>)
    ensures
        match decode_lines(string_views(lines@)) {
            Ok(frames) => decoded is Ok && frame_views(decoded->Ok_0@) == frames,
            Err(error) => decoded == Err::<Vec<Frame>, ParseError>(error),
        },
{
    let ghost texts = string_views(lines@);
    let mut frames: Vec<Frame> = Vec::new();
    let mut i: usize = 0;
    assert(texts.take(0) =~= Seq::empty());
    assert(frame_views(frames@) =~= Seq::empty());
    while i < lines.len()
        invariant
            i <= lines.len(),
            texts == string_views(lines@),
            decode_lines(texts.take(i as int)) == Ok::<Seq<FrameView>, ParseError>(
                frame_views(frames@),
            ),
        decreases lines.len() - i,
    {
        proof {
            assert(texts.take(i + 1).drop_last() =~= texts.take(i as int));
            assert(texts.take(i + 1).last() == lines[i as int]@);
        }
        let ghost before = frame_views(frames@);
        match parse_line(lines[i].as_str()) {
            Ok(frame) => {
                frames.push(frame);
                assert(frame_views(frames@) =~= before.push(frame@));
            },
            Err(error) => {
                proof {
                    lemma_decode_lines_fails(texts, i + 1);
                }
                return Err(error);
            },
        }
        i += 1;
    }
    assert(texts.take(i as int) =~= texts);
    Ok(frames)
}

/// Lines whose first `k` fail to decode fail as a whole, with the same error.
pub proof fn lemma_decode_lines_fails(lines: Seq<Seq<char>>, k: int)
    requires
        0 <= k <= lines.len(),
        decode_lines(lines.take(k)) is Err,
    ensures
        decode_lines(lines) == decode_lines(lines.take(k)),
    decreases lines.len() - k,
{
    if k < lines.len() {
        assert(lines.take(k + 1).drop_last() =~= lines.take(k));
        lemma_decode_lines_fails(lines, k + 1);
    } else {
        assert(lines.take(k) =~= lines);
    }
}

/// Converts lines of folded stack text into the bytes of a profile.
///
/// A line that is no frame gives its error, and nothing is encoded. Else the
/// profile of the frames is encoded: the result is its message where every
/// length-delimited field can hold what goes into it, and `TooLong` where
/// one cannot. Where no line is over the line limit, every field can: the
/// conversion then succeeds exactly where every line is a frame.
pub fn convert(lines: &Vec<String>) -> (converted: Result<Vec<u8>, ConvertError>)
    ensures
        match decode_lines(string_views(lines@)) {
            Err(error) => converted == Err::<Vec<u8>, ConvertError>(ConvertError::Parse(error)),
            Ok(frames) => {
                &&& converted is Ok <==> encodable(profile_of(frames))
                &&& converted matches Ok(bytes) ==> bytes@ == profile_bytes(profile_of(frames))
                &&& converted is Err ==> converted == Err::<Vec<u8>, ConvertError>(
                    ConvertError::Serialization(SerializationError::TooLong),
                )
            },
        },
        (forall|i: int| 0 <= i < lines.len() ==> (#[trigger] lines[i])@.len() <= line_limit())
            ==> (converted is Ok <==> decode_lines(string_views(lines@)) is Ok),
{
    let frames = match parse_lines(lines) {
        Ok(frames) => frames,
        Err(error) => {
            return Err(ConvertError::Parse(error));
        },
    };
    proof {
        let texts = string_views(lines@);
        if forall|i: int| 0 <= i < lines.len() ==> (#[trigger] lines[i])@.len() <= line_limit() {
            assert forall|i: int| 0 <= i < texts.len() implies (#[trigger] texts[i]).len()
                <= line_limit() by {
                assert(texts[i] == lines[i]@);
            }
            assert(texts.len() == lines.len());
            lemma_short_lines_are_encodable(texts);
        }
    }
    let profile = build_profile(&frames);
    match encode_profile(&profile) {
        Ok(bytes) => Ok(bytes),
        Err(error) => Err(ConvertError::Serialization(error)),
    }
}

} // verus!
