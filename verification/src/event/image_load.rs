//! An image-load event: process id and the loaded image's path.
use vstd::prelude::*;
use vstd::utf8::encode_utf8;

use crate::wire::{
    le32_at, le_bytes_of_u32, lemma_le32_at_subrange, lemma_le32_of_bytes,
    lemma_string_blob_roundtrip, push_string_blob, push_u32_le, read_string_blob, read_u32_le,
    string_blob_of, string_blob_ok, string_blob_value, EventDecodeError,
};
use crate::event::file_create::EventEncodeError;
use crate::event::IMAGE_LOAD_CLASS;
use crate::hasher::{member_to_hash, sha_list_view, spec_member_hash, MemberHasher};
use crate::hashing::Sha256Buff;
use crate::strfmt::{dec_bytes, u32_to_string};

verus! {

pub struct ImageLoadEvent {
    pub pid: u32,
    pub image_path: String,
}

impl View for ImageLoadEvent {
    type V = (u32, Seq<char>);

    open spec fn view(&self) -> (u32, Seq<char>) {
        (self.pid, self.image_path@)
    }
}

/// True when the event fits the wire format.
pub open spec fn image_load_encodable(image_path: Seq<char>) -> bool {
    encode_utf8(image_path).len() + 32 <= u32::MAX
}

/// The payload bytes of an image-load event.
pub open spec fn image_load_blob(pid: u32, image_path: Seq<char>) -> Seq<u8> {
    le_bytes_of_u32(pid) + string_blob_of(image_path)
}

/// The framed bytes of an image-load event.
pub open spec fn image_load_frame(pid: u32, image_path: Seq<char>) -> Seq<u8> {
    le_bytes_of_u32(IMAGE_LOAD_CLASS) + image_load_blob(pid, image_path)
}

/// The fields read back from payload bytes, where they carry them.
pub open spec fn image_load_decode(b: Seq<u8>) -> Option<(u32, Seq<char>)> {
    if b.len() >= 4 && string_blob_ok(b, 4) {
        Some((le32_at(b, 0), string_blob_value(b, 4)))
    } else {
        None
    }
}

impl ImageLoadEvent {
    pub fn new(pid: u32, image_path: String) -> (r: Self)
        ensures
            r@ == (pid, image_path@),
    {
        Self { pid, image_path }
    }

    pub fn get_pid(&self) -> (r: u32)
        ensures
            r == self.pid,
    {
        self.pid
    }

    /// Encodes the payload; fails exactly when the path is too long.
    pub fn to_blob(&self) -> (r: Result<Vec<u8>, EventEncodeError>)
        ensures
            r matches Ok(v) ==> v@ == image_load_blob(self.pid, self.image_path@),
            r is Ok <==> image_load_encodable(self.image_path@),
    {
        if self.image_path.as_str().as_bytes().len() > (u32::MAX - 32) as usize {
            return Err(EventEncodeError::TooLarge);
        }
        let mut out: Vec<u8> = Vec::new();
        push_u32_le(&mut out, self.pid);
        push_string_blob(&mut out, self.image_path.as_str());
        proof {
            assert(out@ =~= image_load_blob(self.pid, self.image_path@));
        }
        Ok(out)
    }

    /// Encodes the framed event: class tag, then payload.
    pub fn serialize(&self) -> (r: Result<Vec<u8>, EventEncodeError>)
        ensures
            r matches Ok(v) ==> v@ == image_load_frame(self.pid, self.image_path@),
            r is Ok <==> image_load_encodable(self.image_path@),
    {
        if self.image_path.as_str().as_bytes().len() > (u32::MAX - 32) as usize {
            return Err(EventEncodeError::TooLarge);
        }
        let mut out: Vec<u8> = Vec::new();
        push_u32_le(&mut out, IMAGE_LOAD_CLASS);
        push_u32_le(&mut out, self.pid);
        push_string_blob(&mut out, self.image_path.as_str());
        proof {
            assert(out@ =~= image_load_frame(self.pid, self.image_path@));
        }
        Ok(out)
    }

    /// Decodes a payload; fails exactly on truncation.
    pub fn from_blob(bytes: &[u8]) -> (r: Result<Self, EventDecodeError>)
        ensures
            r matches Ok(ev) ==> image_load_decode(bytes@) == Some(ev@),
            r is Ok <==> image_load_decode(bytes@) is Some,
            r matches Err(e) ==> e is Truncated,
    {
        if bytes.len() < 4 {
            return Err(EventDecodeError::Truncated);
        }
        let pid = read_u32_le(bytes, 0);
        match read_string_blob(bytes, 4) {
            Ok((image_path, _)) => Ok(Self { pid, image_path }),
            Err(e) => Err(e),
        }
    }

    /// Decodes a framed event; the class tag must name this event.
    pub fn deserialize(bytes: &[u8]) -> (r: Result<Self, EventDecodeError>)
        ensures
            r matches Ok(ev) ==> bytes@.len() >= 4 && le32_at(bytes@, 0) == IMAGE_LOAD_CLASS
                && image_load_decode(bytes@.skip(4)) == Some(ev@),
    {
        if bytes.len() < 4 {
            return Err(EventDecodeError::Truncated);
        }
        let class = crate::event::get_event_type(bytes);
        if class != IMAGE_LOAD_CLASS {
            return Err(EventDecodeError::WrongClass);
        }
        let payload = vstd::slice::slice_subrange(bytes, 4, bytes.len());
        Self::from_blob(payload)
    }
}

/// Decoding an encoded image-load payload recovers the event.
#[verifier::rlimit(100)]
pub proof fn lemma_image_load_roundtrip(pid: u32, image_path: Seq<char>)
    requires
        image_load_encodable(image_path),
    ensures
        image_load_decode(image_load_blob(pid, image_path)) == Some((pid, image_path)),
        image_load_decode(image_load_frame(pid, image_path).skip(4)) == Some((pid, image_path)),
{
    let b = image_load_blob(pid, image_path);
    assert(b.subrange(0, 4) =~= le_bytes_of_u32(pid));
    lemma_le32_at_subrange(b, 0);
    lemma_le32_of_bytes(pid);
    lemma_string_blob_roundtrip(image_path, le_bytes_of_u32(pid), Seq::empty());
    assert(le_bytes_of_u32(pid) + string_blob_of(image_path) + Seq::<u8>::empty() =~= b);
    assert(image_load_frame(pid, image_path).skip(4) =~= b);
}

/// The attribute hashes an image-load event yields, over its fields.
pub open spec fn image_load_hashes(pid: u32, image_path: Seq<char>) -> Seq<Seq<u8>> {
    let pid_part: Seq<Seq<u8>> = if pid != 0 {
        seq![spec_member_hash("ImageLoad"@, "pid"@, dec_bytes(pid as nat))]
    } else {
        Seq::empty()
    };
    let path_part: Seq<Seq<u8>> = if image_path.len() != 0 {
        seq![spec_member_hash("ImageLoad"@, "image_path"@, encode_utf8(image_path))]
    } else {
        Seq::empty()
    };
    pid_part + path_part
}

impl MemberHasher for ImageLoadEvent {
    open spec fn spec_hash_members(&self) -> Seq<Seq<u8>> {
        image_load_hashes(self.pid, self.image_path@)
    }

    fn hash_members(&self) -> (v: Vec<Sha256Buff>) {
        let mut v: Vec<Sha256Buff> = Vec::new();
        if self.pid != 0 {
            let value = u32_to_string(self.pid);
            v.push(member_to_hash("ImageLoad", "pid", value.as_str()));
        }
        if !self.image_path.as_str().is_empty() {
            v.push(member_to_hash("ImageLoad", "image_path", self.image_path.as_str()));
        }
        proof {
            assert(sha_list_view(v@) =~= self.spec_hash_members());
        }
        v
    }
}

} // verus!
