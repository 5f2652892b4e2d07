use vstd::prelude::*;

pub mod error;
pub mod ld;
pub mod ldx;

pub use error::{MotecError, Result};

verus! {

/// Entry points for the two file formats.
pub struct MotecParser;

/// Kind of file recognised from the first bytes of a buffer.
#[derive(Debug, Clone, Copy, PartialEq, Eq, Structural)]
pub enum FileType {
    /// XML workspace file.
    Ldx,
    /// Binary sample log.
    Ld,
    /// Neither.
    Unknown,
}

/// The classification rule, first match wins. A buffer that starts with
/// `<?xml` starts with `<`, so one test on the first byte covers both XML
/// forms.
pub open spec fn classify(data: Seq<u8>) -> FileType {
    if data.len() < 4 {
        FileType::Unknown
    } else if data[0] == 0x3c {
        FileType::Ldx
    } else if data.len() > 512 {
        FileType::Ld
    } else {
        FileType::Unknown
    }
}

impl MotecParser {
    /// Decodes a binary log file.
    pub fn parse_ld(data: &[u8]) -> (r: Result<ld::LdFile>)
        ensures
            r is Ok <==> ld::ld_fits(data@),
            r matches Ok(f) ==> ld::ld_parsed(data@, f),
            data@.len() < 512 ==> (r matches Err(e) && e matches MotecError::InvalidFormat(m)
                && m@ == ld::header_too_small()),
            data@.len() >= 512 && !ld::ld_fits(data@) ==> (r matches Err(e)
                && e matches MotecError::BinaryParse(m) && m@ == ld::ld_failure(data@)),
    {
        ld::parse_ld(data)
    }

    /// Classifies a buffer as XML workspace, binary log or unknown.
    pub fn detect_file_type(data: &[u8]) -> (r: FileType)
        ensures
            r == classify(data@),
            data@.len() < 4 ==> r == FileType::Unknown,
            data@.len() > 512 && data@[0] != 0x3c ==> r == FileType::Ld,
    {
        if data.len() < 4 {
            return FileType::Unknown;
        }
        if data[0] == 0x3c {
            return FileType::Ldx;
        }
        if data.len() > 512 {
            return FileType::Ld;
        }
        FileType::Unknown
    }
}

} // verus!
