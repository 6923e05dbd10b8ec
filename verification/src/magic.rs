//! Container-type classification from a file's leading bytes.

use vstd::prelude::*;

verus! {

/// The container formats the system recognizes by magic bytes.
#[derive(Debug, PartialEq, Eq, Structural, Clone, Copy)]
pub enum FileType {
    Unknown,
    MKV,
    MP4,
}

/// The EBML magic that opens a Matroska/WebM file.
pub open spec fn spec_mkv_magic() -> Seq<u8> {
    seq![0x1au8, 0x45u8, 0xdfu8, 0xa3u8]
}

/// The `ftypisom` marker that opens an MP4 file.
pub open spec fn spec_mp4_magic() -> Seq<u8> {
    seq![0x66u8, 0x74u8, 0x79u8, 0x70u8, 0x69u8, 0x73u8, 0x6fu8, 0x6du8]
}

/// Whether `buf` begins with `magic`.
pub open spec fn spec_starts_with(buf: Seq<u8>, magic: Seq<u8>) -> bool {
    buf.len() >= magic.len() && buf.take(magic.len() as int) == magic
}

/// What classification the leading bytes force.
pub open spec fn spec_file_type(buf: Seq<u8>) -> FileType {
    if spec_starts_with(buf, spec_mkv_magic()) {
        FileType::MKV
    } else if spec_starts_with(buf, spec_mp4_magic()) {
        FileType::MP4
    } else {
        FileType::Unknown
    }
}

impl FileType {
    /// Classifies a file by the leading bytes read from it.
    pub fn parse_file(buf: &[u8]) -> (r: FileType)
        ensures
            r == spec_file_type(buf@),
    {
        if buf.len() >= 4 && buf[0] == 0x1a && buf[1] == 0x45 && buf[2] == 0xdf && buf[3] == 0xa3 {
            proof {
                assert(buf@.take(4) =~= spec_mkv_magic());
            }
            return FileType::MKV;
        }
        proof {
            if buf@.len() >= 4 && buf@.take(4) == spec_mkv_magic() {
                assert(buf@[0] == 0x1au8 && buf@[1] == 0x45u8 && buf@[2] == 0xdfu8 && buf@[3]
                    == 0xa3u8);
            }
        }
        if buf.len() >= 8 && buf[0] == 0x66 && buf[1] == 0x74 && buf[2] == 0x79 && buf[3] == 0x70
            && buf[4] == 0x69 && buf[5] == 0x73 && buf[6] == 0x6f && buf[7] == 0x6d {
            proof {
                assert(buf@.take(8) =~= spec_mp4_magic());
            }
            return FileType::MP4;
        }
        proof {
            if buf@.len() >= 8 && buf@.take(8) == spec_mp4_magic() {
                assert(buf@[0] == 0x66u8 && buf@[1] == 0x74u8 && buf@[2] == 0x79u8 && buf@[3]
                    == 0x70u8 && buf@[4] == 0x69u8 && buf@[5] == 0x73u8 && buf@[6] == 0x6fu8
                    && buf@[7] == 0x6du8);
            }
        }
        FileType::Unknown
    }
}

} // verus!
