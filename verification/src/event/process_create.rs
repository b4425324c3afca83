//! A process-creation event: process id, parent process id, image path.
use vstd::prelude::*;
use vstd::utf8::encode_utf8;

use crate::wire::{
    le32_at, le_bytes_of_u32, lemma_le32_at_subrange, lemma_le32_of_bytes,
    lemma_string_blob_roundtrip, push_string_blob, push_u32_le, read_string_blob, read_u32_le,
    string_blob_of, string_blob_ok, string_blob_value, EventDecodeError,
};
use crate::event::file_create::EventEncodeError;
use crate::event::PROCESS_CREATE_CLASS;
use crate::hasher::{member_to_hash, sha_list_view, spec_member_hash, MemberHasher};
use crate::hashing::Sha256Buff;
use crate::strfmt::{dec_bytes, u32_to_string};

verus! {

pub struct ProcessCreateEvent {
    pub pid: u32,
    pub parent_id: u32,
    pub path: String,
}

impl View for ProcessCreateEvent {
    type V = (u32, u32, Seq<char>);

    open spec fn view(&self) -> (u32, u32, Seq<char>) {
        (self.pid, self.parent_id, self.path@)
    }
}

/// True when the event fits the wire format.
pub open spec fn process_create_encodable(path: Seq<char>) -> bool {
    encode_utf8(path).len() + 32 <= u32::MAX
}

/// The payload bytes of a process-creation event.
pub open spec fn process_create_blob(pid: u32, parent_id: u32, path: Seq<char>) -> Seq<u8> {
    le_bytes_of_u32(pid) + le_bytes_of_u32(parent_id) + string_blob_of(path)
}

/// The framed bytes of a process-creation event.
pub open spec fn process_create_frame(pid: u32, parent_id: u32, path: Seq<char>) -> Seq<u8> {
    le_bytes_of_u32(PROCESS_CREATE_CLASS) + process_create_blob(pid, parent_id, path)
}

/// The fields read back from payload bytes, where they carry them.
pub open spec fn process_create_decode(b: Seq<u8>) -> Option<(u32, u32, Seq<char>)> {
    if b.len() >= 8 && string_blob_ok(b, 8) {
        Some((le32_at(b, 0), le32_at(b, 4), string_blob_value(b, 8)))
    } else {
        None
    }
}

impl ProcessCreateEvent {
    pub fn new(pid: u32, parent_id: u32, path: String) -> (r: Self)
        ensures
            r@ == (pid, parent_id, path@),
    {
        Self { pid, parent_id, path }
    }

    pub fn get_pid(&self) -> (r: u32)
        ensures
            r == self.pid,
    {
        self.pid
    }

    /// Encodes the payload; fails exactly when the path is too long.
    pub fn to_blob(&self) -> (r: Result<Vec<u8>, EventEncodeError>)
        ensures
            r matches Ok(v) ==> v@ == process_create_blob(self.pid, self.parent_id, self.path@),
            r is Ok <==> process_create_encodable(self.path@),
    {
        if self.path.as_str().as_bytes().len() > (u32::MAX - 32) as usize {
            return Err(EventEncodeError::TooLarge);
        }
        let mut out: Vec<u8> = Vec::new();
        push_u32_le(&mut out, self.pid);
        push_u32_le(&mut out, self.parent_id);
        push_string_blob(&mut out, self.path.as_str());
        proof {
            assert(out@ =~= process_create_blob(self.pid, self.parent_id, self.path@));
        }
        Ok(out)
    }

    /// Encodes the framed event: class tag, then payload.
    pub fn serialize(&self) -> (r: Result<Vec<u8>, EventEncodeError>)
        ensures
            r matches Ok(v) ==> v@ == process_create_frame(self.pid, self.parent_id, self.path@),
            r is Ok <==> process_create_encodable(self.path@),
    {
        if self.path.as_str().as_bytes().len() > (u32::MAX - 32) as usize {
            return Err(EventEncodeError::TooLarge);
        }
        let mut out: Vec<u8> = Vec::new();
        push_u32_le(&mut out, PROCESS_CREATE_CLASS);
        push_u32_le(&mut out, self.pid);
        push_u32_le(&mut out, self.parent_id);
        push_string_blob(&mut out, self.path.as_str());
        proof {
            assert(out@ =~= process_create_frame(self.pid, self.parent_id, self.path@));
        }
        Ok(out)
    }

    /// Decodes a payload; fails exactly on truncation.
    pub fn from_blob(bytes: &[u8]) -> (r: Result<Self, EventDecodeError>)
        ensures
            r matches Ok(ev) ==> process_create_decode(bytes@) == Some(ev@),
            r is Ok <==> process_create_decode(bytes@) is Some,
            r matches Err(e) ==> e is Truncated,
    {
        if bytes.len() < 8 {
            return Err(EventDecodeError::Truncated);
        }
        let pid = read_u32_le(bytes, 0);
        let parent_id = read_u32_le(bytes, 4);
        match read_string_blob(bytes, 8) {
            Ok((path, _)) => Ok(Self { pid, parent_id, path }),
            Err(e) => Err(e),
        }
    }

    /// Decodes a framed event; the class tag must name this event.
    pub fn deserialize(bytes: &[u8]) -> (r: Result<Self, EventDecodeError>)
        ensures
            r matches Ok(ev) ==> bytes@.len() >= 4 && le32_at(bytes@, 0) == PROCESS_CREATE_CLASS
                && process_create_decode(bytes@.skip(4)) == Some(ev@),
    {
        if bytes.len() < 4 {
            return Err(EventDecodeError::Truncated);
        }
        let class = crate::event::get_event_type(bytes);
        if class != PROCESS_CREATE_CLASS {
            return Err(EventDecodeError::WrongClass);
        }
        let payload = vstd::slice::slice_subrange(bytes, 4, bytes.len());
        Self::from_blob(payload)
    }
}

/// Decoding an encoded process-creation payload recovers the event.
pub proof fn lemma_process_create_roundtrip(pid: u32, parent_id: u32, path: Seq<char>)
    requires
        process_create_encodable(path),
    ensures
        process_create_decode(process_create_blob(pid, parent_id, path)) == Some(
            (pid, parent_id, path),
        ),
        process_create_decode(process_create_frame(pid, parent_id, path).skip(4)) == Some(
            (pid, parent_id, path),
        ),
{
    let b = process_create_blob(pid, parent_id, path);
    assert(b.subrange(0, 4) =~= le_bytes_of_u32(pid));
    assert(b.subrange(4, 8) =~= le_bytes_of_u32(parent_id));
    lemma_le32_at_subrange(b, 0);
    lemma_le32_at_subrange(b, 4);
    lemma_le32_of_bytes(pid);
    lemma_le32_of_bytes(parent_id);
    lemma_string_blob_roundtrip(path, le_bytes_of_u32(pid) + le_bytes_of_u32(parent_id), Seq::empty());
    assert(le_bytes_of_u32(pid) + le_bytes_of_u32(parent_id) + string_blob_of(path)
        + Seq::<u8>::empty() =~= b);
    assert(process_create_frame(pid, parent_id, path).skip(4) =~= b);
}

/// The attribute hashes a process-creation event yields, over its fields.
pub open spec fn process_create_hashes(pid: u32, parent_id: u32, path: Seq<char>) -> Seq<Seq<u8>> {
    let pid_part: Seq<Seq<u8>> = if pid != 0 {
        seq![spec_member_hash("ProcessCreate"@, "pid"@, dec_bytes(pid as nat))]
    } else {
        Seq::empty()
    };
    let parent_part: Seq<Seq<u8>> = if parent_id != 0 {
        seq![spec_member_hash("ProcessCreate"@, "parent_id"@, dec_bytes(parent_id as nat))]
    } else {
        Seq::empty()
    };
    let path_part: Seq<Seq<u8>> = if path.len() != 0 {
        seq![spec_member_hash("ProcessCreate"@, "path"@, encode_utf8(path))]
    } else {
        Seq::empty()
    };
    pid_part + parent_part + path_part
}

impl MemberHasher for ProcessCreateEvent {
    open spec fn spec_hash_members(&self) -> Seq<Seq<u8>> {
        process_create_hashes(self.pid, self.parent_id, self.path@)
    }

    fn hash_members(&self) -> (v: Vec<Sha256Buff>) {
        let mut v: Vec<Sha256Buff> = Vec::new();
        if self.pid != 0 {
            let value = u32_to_string(self.pid);
            v.push(member_to_hash("ProcessCreate", "pid", value.as_str()));
        }
        if self.parent_id != 0 {
            let value = u32_to_string(self.parent_id);
            v.push(member_to_hash("ProcessCreate", "parent_id", value.as_str()));
        }
        if !self.path.as_str().is_empty() {
            v.push(member_to_hash("ProcessCreate", "path", self.path.as_str()));
        }
        proof {
            assert(sha_list_view(v@) =~= self.spec_hash_members());
        }
        v
    }
}

/// Every hash of a list appears among that same list.
proof fn lemma_matches_self(preds: Seq<Seq<u8>>)
    ensures
        crate::sig_set::heuristic_set::rule_matches(preds, preds),
{
    assert forall|k: int|
        0 <= k < preds.len() implies crate::sig_set::heuristic_set::seq_contains_hash(
        preds,
        #[trigger] preds[k],
    ) by {}
}

/// Zero-skip symmetry: a rule compiled from an event with a zero process
/// id and a live event with a zero process id both omit the pid hash, so
/// whether the rule is fully met depends only on the non-zero attributes.
pub proof fn lemma_zero_skip_symmetry(rule_event: &ProcessCreateEvent, live: &ProcessCreateEvent)
    requires
        rule_event.pid == 0,
        live.pid == 0,
        rule_event.parent_id == live.parent_id,
        rule_event.path@ == live.path@,
    ensures
        rule_event.spec_hash_members() == live.spec_hash_members(),
        crate::sig_set::heuristic_set::rule_matches(
            rule_event.spec_hash_members(),
            live.spec_hash_members(),
        ),
{
    assert(rule_event.spec_hash_members() =~= live.spec_hash_members());
    lemma_matches_self(live.spec_hash_members());
}

} // verus!
