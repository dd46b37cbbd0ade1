//! The audio files that players play: where they are kept and which are taken.

use vstd::prelude::*;
use vstd::string::StringExecFns;
use vstd::string::StringSliceAdditionalSpecFns;
use crate::entity::Id;
use crate::text::{decimal, format_number};

verus! {

/// The folder that holds the audio files of device `id`.
pub open spec fn spec_files_dir(id: Id) -> Seq<char> {
    "./misc/files/"@ + decimal(id as nat) + "/"@
}

/// The folder that holds the audio files of device `id`.
pub fn files_dir(id: Id) -> (dir: String)
    ensures
        dir@ == spec_files_dir(id),
{
    let number = format_number(id);
    "./misc/files/".to_owned().concat(number.as_str()).concat("/")
}

/// Whether an upload of this content type is kept: MPEG audio is, nothing else.
pub fn accepts_upload(content_type: &str) -> (r: bool)
    ensures
        r == (content_type@ == "audio/mpeg"@),
{
    content_type.to_owned() == "audio/mpeg".to_owned()
}

/// The bytes end in `.mp3`.
pub open spec fn ends_in_mp3(bytes: Seq<u8>) -> bool {
    &&& bytes.len() >= 4
    &&& bytes[bytes.len() - 4] == 0x2e
    &&& bytes[bytes.len() - 3] == 0x6d
    &&& bytes[bytes.len() - 2] == 0x70
    &&& bytes[bytes.len() - 1] == 0x33
}

/// Whether a file is listed as an audio file: one whose name ends in `.mp3`.
pub fn is_mp3_file(name: &str) -> (r: bool)
    ensures
        r == ends_in_mp3(name.spec_bytes()),
{
    let bytes = name.as_bytes();
    let n = bytes.len();
    n >= 4 && bytes[n - 4] == 0x2e && bytes[n - 3] == 0x6d && bytes[n - 2] == 0x70 && bytes[n
        - 1] == 0x33
}

} // verus!
