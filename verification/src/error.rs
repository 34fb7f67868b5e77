//! Error types for intel_ma.

use crate::fmt::{dec, hex_prefixed, push_dec, push_hex_prefixed, push_str};
use vstd::prelude::*;

verus! {

#[derive(Debug)]
pub enum Error {
    OutOfRegion { offset: usize, len: usize },
    UnknownImage,
    FitNotFound,
    FitInvalidPointer { offset: usize },
    FptNotFound,
    MultipleFpt,
    FtprNotFound,
    FtprManifestNotFound,
    BadManifestTag([u8; 4]),
    MissingLlut,
    MissingLlutRelocate,
    InvalidSignature,
    RequiresFullDump { op: &'static str },
    BadOptions(String),
    Unsupported(&'static str),
}

pub type Result<T> = core::result::Result<T, Error>;

/// `[a, b, c, d]`: four bytes in decimal, as `{:?}` prints them.
pub open spec fn tag_debug(t: [u8; 4]) -> Seq<char> {
    "["@ + dec(t[0] as nat) + ", "@ + dec(t[1] as nat) + ", "@ + dec(t[2] as nat) + ", "@ + dec(
        t[3] as nat,
    ) + "]"@
}

/// The message of each error.
pub open spec fn error_text(e: Error) -> Seq<char> {
    match e {
        Error::OutOfRegion { offset, len } => "out of region: offset "@ + hex_prefixed(offset as nat)
            + " (len "@ + hex_prefixed(len as nat) + ") exceeds region bounds"@,
        Error::UnknownImage => "unknown image: no $FPT or flash descriptor signature found"@,
        Error::FitNotFound => "no FIT found in image"@,
        Error::FitInvalidPointer { offset } => "invalid FIT pointer (offset "@ + hex_prefixed(
            offset as nat,
        ) + ")"@,
        Error::FptNotFound => "$FPT not found in ME region"@,
        Error::MultipleFpt => "more than one $FPT found in ME region"@,
        Error::FtprNotFound => "FTPR header not found; this image doesn't seem to be valid"@,
        Error::FtprManifestNotFound => "can't find the manifest of the FTPR partition"@,
        Error::BadManifestTag(t) => "wrong FTPR manifest tag ("@ + tag_debug(t)
            + "); this image may be corrupted"@,
        Error::MissingLlut => "Huffman modules found, but LLUT is not present"@,
        Error::MissingLlutRelocate => "Huffman modules present but no LLUT found during relocation"@,
        Error::InvalidSignature => "the FTPR partition signature is not valid; is the input ME/TXE image valid?"@,
        Error::RequiresFullDump { op } => "operation "@ + op@
            + " requires a full dump (descriptor + ME region)"@,
        Error::BadOptions(s) => "invalid option combination: "@ + s@,
        Error::Unsupported(s) => s@,
    }
}

impl Error {
    /// The error's message.
    pub fn to_string(&self) -> (s: String)
        ensures
            s@ == error_text(*self),
    {
        let mut s = String::new();
        match self {
            Error::OutOfRegion { offset, len } => {
                push_str(&mut s, "out of region: offset ");
                push_hex_prefixed(&mut s, *offset as u64);
                push_str(&mut s, " (len ");
                push_hex_prefixed(&mut s, *len as u64);
                push_str(&mut s, ") exceeds region bounds");
            },
            Error::UnknownImage => push_str(&mut s, "unknown image: no $FPT or flash descriptor signature found"),
            Error::FitNotFound => push_str(&mut s, "no FIT found in image"),
            Error::FitInvalidPointer { offset } => {
                push_str(&mut s, "invalid FIT pointer (offset ");
                push_hex_prefixed(&mut s, *offset as u64);
                push_str(&mut s, ")");
            },
            Error::FptNotFound => push_str(&mut s, "$FPT not found in ME region"),
            Error::MultipleFpt => push_str(&mut s, "more than one $FPT found in ME region"),
            Error::FtprNotFound => push_str(&mut s, "FTPR header not found; this image doesn't seem to be valid"),
            Error::FtprManifestNotFound => push_str(&mut s, "can't find the manifest of the FTPR partition"),
            Error::BadManifestTag(t) => {
                push_str(&mut s, "wrong FTPR manifest tag ([");
                push_dec(&mut s, t[0] as u64);
                push_str(&mut s, ", ");
                push_dec(&mut s, t[1] as u64);
                push_str(&mut s, ", ");
                push_dec(&mut s, t[2] as u64);
                push_str(&mut s, ", ");
                push_dec(&mut s, t[3] as u64);
                push_str(&mut s, "]); this image may be corrupted");
                proof {
                    reveal_strlit("wrong FTPR manifest tag ([");
                    reveal_strlit("wrong FTPR manifest tag (");
                    reveal_strlit("[");
                    reveal_strlit("]); this image may be corrupted");
                    reveal_strlit("]");
                    reveal_strlit("); this image may be corrupted");
                }
                assert(s@ =~= error_text(*self));
            },
            Error::MissingLlut => push_str(&mut s, "Huffman modules found, but LLUT is not present"),
            Error::MissingLlutRelocate => push_str(&mut s, "Huffman modules present but no LLUT found during relocation"),
            Error::InvalidSignature => push_str(&mut s, "the FTPR partition signature is not valid; is the input ME/TXE image valid?"),
            Error::RequiresFullDump { op } => {
                push_str(&mut s, "operation ");
                push_str(&mut s, op);
                push_str(&mut s, " requires a full dump (descriptor + ME region)");
            },
            Error::BadOptions(m) => {
                push_str(&mut s, "invalid option combination: ");
                push_str(&mut s, m.as_str());
            },
            Error::Unsupported(m) => push_str(&mut s, m),
        }
        s
    }
}

} // verus!
