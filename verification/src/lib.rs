//! Conversion of folded stack samples into a pprof profile.
//!
//! Each line of the input, `frame1; frame2; ...; frameN cycles`, is one call
//! stack with the cycles spent in it. The lines are decoded into frames, the
//! names and files of the frames are interned into a string table, each name
//! gets a function and a location, each frame a sample, and the profile made
//! of these is encoded as a protocol buffers message.

pub mod assemble;
pub mod bounds;
pub mod convert;
pub mod decode;
pub mod intern;
pub mod laws;
pub mod profile;
pub mod registry;
pub mod seqs;
pub mod symbol;
pub mod text;
pub mod wire;

pub use crate::assemble::build_profile;
pub use crate::convert::{convert, ConvertError};
pub use crate::decode::{normalize_function_name, parse_line, Frame, ParseError};
pub use crate::profile::Profile;
pub use crate::symbol::Symbol;
pub use crate::wire::{encode_profile, SerializationError};
