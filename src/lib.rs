//! Reading, building and writing Advanced SubStation Alpha (ASS) subtitle
//! documents, and importing SubRip (SRT) subtitles.
//!
//! Reading is strict about the style row and the dialogue rows: a missing
//! style row, or a row with fewer values than its arity, is an error. For the
//! Script Info section the caller chooses: strict reading wants all five
//! keys, lenient reading leaves the missing ones unset. Rendering wants every
//! style and dialogue field set, and writes only the Script Info fields that
//! are set. Colours are written with two hexadecimal digits per channel.
use vstd::prelude::*;

pub mod ass;
pub mod color;
pub mod laws;
pub mod model;
pub mod srt;
pub mod text;

pub use ass::{get_info, parse_event, parse_script, parse_v4};
pub use color::{AssFileOptions, RgbColor};
pub use model::{AssError, AssFile, Components, Dialogue, Events, ScriptInfo, V4Format};
pub use srt::{SrtContent, SrtData};

verus! {

} // verus!
