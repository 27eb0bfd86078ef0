//! Errors of the process-memory reader.
use vstd::prelude::*;
use crate::text::{chars_of, hex_chars, hex_seq, pad_chars, pad_left, push_all, string_of};

verus! {

/// Why a read of the game's memory failed.
#[derive(Debug, Clone, Copy, PartialEq, Eq)]
pub enum MemError {
    NoProcess,
    /// Opening the process failed with this OS error code.
    OpenFailed(u32),
    /// Reading its memory failed with this OS error code.
    ReadFailed(u32),
}

/// An OS error code as `0x` and eight lowercase hex digits.
pub open spec fn code_text(e: u32) -> Seq<char> {
    "0x"@ + pad_left(hex_seq(e as nat, false), 8, '0')
}

pub open spec fn mem_error_text(e: MemError) -> Seq<char> {
    match e {
        MemError::NoProcess => "no process attached"@,
        MemError::OpenFailed(c) => "OpenProcess failed (error "@ + code_text(c) + ")"@,
        MemError::ReadFailed(c) => "ReadProcessMemory failed (error "@ + code_text(c) + ")"@,
    }
}

impl MemError {
    /// The error as the user reads it.
    pub fn message(&self) -> (s: String)
        ensures
            s@ == mem_error_text(*self),
    {
        let (head, code) = match self {
            MemError::NoProcess => {
                return String::from_str("no process attached");
            },
            MemError::OpenFailed(c) => ("OpenProcess failed (error ", *c),
            MemError::ReadFailed(c) => ("ReadProcessMemory failed (error ", *c),
        };
        let mut v = chars_of(head);
        push_all(&mut v, &chars_of("0x"));
        push_all(&mut v, &pad_chars(&hex_chars(code as u64, false), 8, '0'));
        push_all(&mut v, &chars_of(")"));
        string_of(v.as_slice())
    }
}

} // verus!
