//! Guest memory in an anonymous file, filled from a snapshot's memory file.
use vstd::prelude::*;

use crate::text::{dec, dec_string};

verus! {

/// An anonymous file that holds a guest's memory.
#[derive(Debug, PartialEq, Eq)]
pub struct MemfdRegion {
    fd: u32,
    size_bytes: u64,
}

impl MemfdRegion {
    /// The descriptor of the file.
    pub closed spec fn fd(&self) -> u32 {
        self.fd
    }

    pub closed spec fn size(&self) -> u64 {
        self.size_bytes
    }

    pub fn size_bytes(&self) -> (r: u64)
        ensures
            r == self.size(),
    {
        self.size_bytes
    }

    /// The path under which another process can open the file.
    pub fn backend_path(&self) -> (r: String)
        ensures
            r@ == "/proc/self/fd/"@ + dec(self.fd() as nat),
    {
        let n = dec_string(self.fd as u64);
        "/proc/self/fd/".to_string().concat(n.as_str())
    }
}

/// How far filling an anonymous file from `source` got.
#[derive(Debug, PartialEq, Eq)]
pub enum Populating {
    OpenFailed(String),
    StatFailed(String),
    /// The name for the file holds a zero byte.
    BadName(String),
    CreateFailed(String),
    ResizeFailed { size_bytes: u64, error: String },
    CopyFailed(String),
    /// The file behind `fd` is as large as `source`, and `copied` bytes of
    /// `source` are in it.
    Copied { fd: u32, size_bytes: u64, copied: u64 },
}

pub open spec fn populate_error(source: Seq<char>, p: Populating) -> Seq<char> {
    match p {
        Populating::OpenFailed(e) => "open memfd source "@ + source + ": "@ + e@,
        Populating::StatFailed(e) => "stat memfd source "@ + source + ": "@ + e@,
        Populating::BadName(e) => "memfd name must not contain null bytes: "@ + e@,
        Populating::CreateFailed(e) => "memfd_create: "@ + e@,
        Populating::ResizeFailed { size_bytes, error } => "ftruncate memfd to "@ + dec(
            size_bytes as nat,
        ) + " B: "@ + error@,
        Populating::CopyFailed(e) => "copy "@ + source + " -> memfd: "@ + e@,
        Populating::Copied { fd, size_bytes, copied } => "short copy: source "@ + source + " is "@
            + dec(size_bytes as nat) + " B but copied "@ + dec(copied as nat),
    }
}

/// The region that holds all of `source`, or why there is none.
pub fn create_and_populate(source: &str, how: &Populating) -> (r: Result<MemfdRegion, String>)
    ensures
        match r {
            Ok(m) => *how matches Populating::Copied { fd, size_bytes, copied } && copied
                == size_bytes && m.fd() == fd && m.size() == size_bytes,
            Err(e) => {
                &&& !(*how matches Populating::Copied { fd, size_bytes, copied } && copied
                    == size_bytes)
                &&& e@ == populate_error(source@, *how)
            },
        },
{
    match how {
        Populating::OpenFailed(e) => Err(
            "open memfd source ".to_string().concat(source).concat(": ").concat(e.as_str()),
        ),
        Populating::StatFailed(e) => Err(
            "stat memfd source ".to_string().concat(source).concat(": ").concat(e.as_str()),
        ),
        Populating::BadName(e) => Err(
            "memfd name must not contain null bytes: ".to_string().concat(e.as_str()),
        ),
        Populating::CreateFailed(e) => Err("memfd_create: ".to_string().concat(e.as_str())),
        Populating::ResizeFailed { size_bytes, error } => {
            let n = dec_string(*size_bytes);
            Err(
                "ftruncate memfd to ".to_string().concat(n.as_str()).concat(" B: ").concat(
                    error.as_str(),
                ),
            )
        },
        Populating::CopyFailed(e) => Err(
            "copy ".to_string().concat(source).concat(" -> memfd: ").concat(e.as_str()),
        ),
        Populating::Copied { fd, size_bytes, copied } => {
            if *copied != *size_bytes {
                let a = dec_string(*size_bytes);
                let b = dec_string(*copied);
                return Err(
                    "short copy: source ".to_string().concat(source).concat(" is ").concat(
                        a.as_str(),
                    ).concat(" B but copied ").concat(b.as_str()),
                );
            }
            Ok(MemfdRegion { fd: *fd, size_bytes: *size_bytes })
        },
    }
}

} // verus!
