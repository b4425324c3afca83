//! A file-creation event: the created file's path.
use vstd::prelude::*;
use vstd::utf8::encode_utf8;

use crate::wire::{
    le_bytes_of_u32, lemma_le32_of_bytes, lemma_string_blob_roundtrip, push_string_blob,
    push_u32_le, read_string_blob, string_blob_of, string_blob_ok, string_blob_value,
    EventDecodeError,
};
use crate::event::FILE_CREATE_CLASS;
use crate::hasher::{member_to_hash, sha_list_view, spec_member_hash, MemberHasher};
use crate::hashing::Sha256Buff;

verus! {

/// Raised where an event's strings are too long for the wire format's
/// four-byte length fields.
#[derive(Debug, Clone, Copy, PartialEq, Eq, Structural)]
pub enum EventEncodeError {
    TooLarge,
}

pub struct FileCreateEvent {
    pub path: String,
}

impl View for FileCreateEvent {
    type V = Seq<char>;

    open spec fn view(&self) -> Seq<char> {
        self.path@
    }
}

/// True when the event fits the wire format.
pub open spec fn file_create_encodable(path: Seq<char>) -> bool {
    encode_utf8(path).len() + 32 <= u32::MAX
}

/// The payload bytes of a file-creation event.
pub open spec fn file_create_blob(path: Seq<char>) -> Seq<u8> {
    string_blob_of(path)
}

/// The framed bytes of a file-creation event: class tag, then payload.
pub open spec fn file_create_frame(path: Seq<char>) -> Seq<u8> {
    le_bytes_of_u32(FILE_CREATE_CLASS) + file_create_blob(path)
}

/// The path read back from payload bytes, where they carry one.
pub open spec fn file_create_decode(b: Seq<u8>) -> Option<Seq<char>> {
    if string_blob_ok(b, 0) {
        Some(string_blob_value(b, 0))
    } else {
        None
    }
}

impl FileCreateEvent {
    pub fn new(path: String) -> (r: Self)
        ensures
            r@ == path@,
    {
        Self { path }
    }

    pub fn get_path(&self) -> (r: String)
        ensures
            r@ == self@,
    {
        self.path.clone()
    }

    /// Encodes the payload; fails exactly when the path is too long.
    pub fn to_blob(&self) -> (r: Result<Vec<u8>, EventEncodeError>)
        ensures
            r matches Ok(v) ==> v@ == file_create_blob(self@),
            r is Ok <==> file_create_encodable(self@),
    {
        if self.path.as_str().as_bytes().len() > (u32::MAX - 32) as usize {
            return Err(EventEncodeError::TooLarge);
        }
        let mut out: Vec<u8> = Vec::new();
        push_string_blob(&mut out, self.path.as_str());
        proof {
            assert(out@ =~= file_create_blob(self@));
        }
        Ok(out)
    }

    /// Encodes the framed event: class tag, then payload.
    pub fn serialize(&self) -> (r: Result<Vec<u8>, EventEncodeError>)
        ensures
            r matches Ok(v) ==> v@ == file_create_frame(self@),
            r is Ok <==> file_create_encodable(self@),
    {
        if self.path.as_str().as_bytes().len() > (u32::MAX - 32) as usize {
            return Err(EventEncodeError::TooLarge);
        }
        let mut out: Vec<u8> = Vec::new();
        push_u32_le(&mut out, FILE_CREATE_CLASS);
        push_string_blob(&mut out, self.path.as_str());
        proof {
            assert(out@ =~= file_create_frame(self@));
        }
        Ok(out)
    }

    /// Decodes a payload; fails exactly on truncation.
    pub fn from_blob(bytes: &[u8]) -> (r: Result<Self, EventDecodeError>)
        ensures
            r matches Ok(ev) ==> file_create_decode(bytes@) == Some(ev@),
            r is Ok <==> file_create_decode(bytes@) is Some,
            r matches Err(e) ==> e is Truncated,
    {
        match read_string_blob(bytes, 0) {
            Ok((path, _)) => Ok(Self { path }),
            Err(e) => Err(e),
        }
    }

    /// Decodes a framed event; the class tag must name this event.
    pub fn deserialize(bytes: &[u8]) -> (r: Result<Self, EventDecodeError>)
        ensures
            r matches Ok(ev) ==> bytes@.len() >= 4 && crate::wire::le32_at(bytes@, 0)
                == FILE_CREATE_CLASS && file_create_decode(bytes@.skip(4)) == Some(ev@),
    {
        if bytes.len() < 4 {
            return Err(EventDecodeError::Truncated);
        }
        let class = crate::event::get_event_type(bytes);
        if class != FILE_CREATE_CLASS {
            return Err(EventDecodeError::WrongClass);
        }
        let payload = vstd::slice::slice_subrange(bytes, 4, bytes.len());
        Self::from_blob(payload)
    }
}

/// Decoding an encoded file-creation payload recovers the event.
pub proof fn lemma_file_create_roundtrip(path: Seq<char>)
    requires
        file_create_encodable(path),
    ensures
        file_create_decode(file_create_blob(path)) == Some(path),
        file_create_decode(file_create_frame(path).skip(4)) == Some(path),
{
    let b = file_create_blob(path);
    lemma_string_blob_roundtrip(path, Seq::empty(), Seq::empty());
    assert(Seq::<u8>::empty() + string_blob_of(path) + Seq::<u8>::empty() =~= b);
    assert(file_create_frame(path).skip(4) =~= b);
}

/// The attribute hashes a file-creation event yields, over its fields.
pub open spec fn file_create_hashes(path: Seq<char>) -> Seq<Seq<u8>> {
    if path.len() != 0 {
        seq![spec_member_hash("FileCreate"@, "path"@, encode_utf8(path))]
    } else {
        Seq::empty()
    }
}

impl MemberHasher for FileCreateEvent {
    open spec fn spec_hash_members(&self) -> Seq<Seq<u8>> {
        file_create_hashes(self.path@)
    }

    fn hash_members(&self) -> (v: Vec<Sha256Buff>) {
        let mut v: Vec<Sha256Buff> = Vec::new();
        if !self.path.as_str().is_empty() {
            v.push(member_to_hash("FileCreate", "path", self.path.as_str()));
        }
        proof {
            assert(sha_list_view(v@) =~= self.spec_hash_members());
        }
        v
    }
}

} // verus!
