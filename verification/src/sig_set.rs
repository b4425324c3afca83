//! Signature sets: the rule model, the two matchers, and the bundle codec
//! that lays sets out on disk behind a checksum.
use vstd::prelude::*;

pub mod heuristic_set;
pub mod sha_set;
pub mod sigset_deserializer;
pub mod sigset_serializer;
pub mod signature;

verus! {

/// Magic of a set of exact content hashes: "55ET" packed little-endian.
pub const SET_MAGIC_U32: u32 = 0x54453535;

/// Magic of a set of import-fingerprint rules: "H5ET" packed little-endian.
pub const HEUR_MAGIC_U32: u32 = 0x54453548;

/// Magic of a set of sandbox-call rules: "D5ET" packed little-endian.
pub const DYN_MAGIC_U32: u32 = 0x54453544;

/// Magic of a set of behavioural event rules: "B5ET" packed little-endian.
pub const BEH_MAGIC_U32: u32 = 0x54453542;

/// Why a bundle or a rule text was refused.
#[derive(Debug)]
#[allow(inconsistent_fields)]
pub enum SigSetError {
    /// A header carries a magic this library does not know.
    IncorrectMagicError { current: u32 },
    /// The buffer ends before a header it announces.
    IncorrectFileSizeError { size: u64 },
    /// The checksum over a set's data region does not match its header.
    IncorrectChecksumError { current: String, expected: String },
    /// A rule header points outside the data region or past the size cap.
    IncorrectSignatureSizeError { size: u32 },
    /// A rule body or rule text is malformed.
    DecodeError,
}

/// The kind of set a magic denotes.
#[derive(Debug, Clone, Copy, PartialEq, Eq, Structural)]
pub enum SigSetType {
    Sha,
    Heuristic,
    Dynamic,
    Behavioral,
}

/// True of the four set magics.
pub open spec fn known_set_magic(magic: u32) -> bool {
    magic == SET_MAGIC_U32 || magic == HEUR_MAGIC_U32 || magic == DYN_MAGIC_U32 || magic
        == BEH_MAGIC_U32
}

/// True of the three magics whose sets use the bitmap matcher.
pub open spec fn heur_kind_magic(magic: u32) -> bool {
    magic == HEUR_MAGIC_U32 || magic == DYN_MAGIC_U32 || magic == BEH_MAGIC_U32
}

/// The rule-body kind a bitmap-set magic stores.
pub open spec fn kind_of_magic(magic: u32) -> int
    recommends
        heur_kind_magic(magic),
{
    if magic == HEUR_MAGIC_U32 {
        1int
    } else if magic == DYN_MAGIC_U32 {
        2int
    } else {
        3int
    }
}

} // verus!
