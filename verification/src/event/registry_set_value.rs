//! A registry set-value event: who wrote, which key and value, what data.
use vstd::prelude::*;
use vstd::utf8::encode_utf8;

use crate::enums::{reg_type_is_string, RegType};
use crate::wire::{
    bytes_blob_of, bytes_blob_ok, bytes_blob_size, bytes_blob_value, le32_at, le_bytes_of_u32,
    lemma_bytes_blob_roundtrip, lemma_le32_at_subrange, lemma_le32_of_bytes,
    lemma_string_blob_roundtrip, push_bytes_blob, push_string_blob, push_u32_le, read_bytes_blob,
    read_string_blob, read_u32_le, string_blob_of, string_blob_ok, string_blob_size,
    string_blob_value, EventDecodeError,
};
use crate::event::file_create::EventEncodeError;
use crate::event::REGISTRY_SET_VALUE_CLASS;
use crate::hasher::{member_to_hash, sha_list_view, spec_member_hash, MemberHasher};
use crate::hashing::Sha256Buff;
use crate::strfmt::{dec_bytes, latin1_string, latin1_utf8, u32_to_string};

verus! {

/// The field width no single string or data payload of an event may exceed,
/// so that every length and offset fits its four-byte wire field.
pub const MAX_EVENT_FIELD: u32 = 0x3FFFFF00;

pub struct RegistrySetValueEvent {
    pub pid: u32,
    pub tid: u32,
    pub key_name: String,
    pub value_name: String,
    pub data_type: u32,
    pub data: Vec<u8>,
}

impl View for RegistrySetValueEvent {
    type V = (u32, u32, Seq<char>, Seq<char>, u32, Seq<u8>);

    open spec fn view(&self) -> (u32, u32, Seq<char>, Seq<char>, u32, Seq<u8>) {
        (self.pid, self.tid, self.key_name@, self.value_name@, self.data_type, self.data@)
    }
}

/// The low bytes of the UTF-16 little-endian units in `data`, up to the
/// first NUL unit or the last whole unit.
pub open spec fn wide_low_bytes(data: Seq<u8>) -> Seq<u8>
    decreases data.len(),
{
    if data.len() < 2 {
        seq![]
    } else if data[0] == 0 && data[1] == 0 {
        seq![]
    } else {
        seq![data[0]] + wide_low_bytes(data.skip(2))
    }
}

/// The bytes of `data` before its first zero byte.
pub open spec fn bytes_until_zero(data: Seq<u8>) -> Seq<u8>
    decreases data.len(),
{
    if data.len() == 0 {
        seq![]
    } else if data[0] == 0 {
        seq![]
    } else {
        seq![data[0]] + bytes_until_zero(data.drop_first())
    }
}

/// True when the event fits the wire format.
pub open spec fn registry_encodable(key_name: Seq<char>, value_name: Seq<char>, data: Seq<u8>) -> bool {
    &&& encode_utf8(key_name).len() <= MAX_EVENT_FIELD
    &&& encode_utf8(value_name).len() <= MAX_EVENT_FIELD
    &&& data.len() <= MAX_EVENT_FIELD
}

/// The payload bytes of a registry set-value event.
pub open spec fn registry_blob(
    pid: u32,
    tid: u32,
    key_name: Seq<char>,
    value_name: Seq<char>,
    data_type: u32,
    data: Seq<u8>,
) -> Seq<u8> {
    le_bytes_of_u32(pid) + le_bytes_of_u32(tid) + string_blob_of(key_name) + string_blob_of(
        value_name,
    ) + le_bytes_of_u32(data_type) + bytes_blob_of(data)
}

/// The framed bytes of a registry set-value event.
pub open spec fn registry_frame(
    pid: u32,
    tid: u32,
    key_name: Seq<char>,
    value_name: Seq<char>,
    data_type: u32,
    data: Seq<u8>,
) -> Seq<u8> {
    le_bytes_of_u32(REGISTRY_SET_VALUE_CLASS) + registry_blob(
        pid,
        tid,
        key_name,
        value_name,
        data_type,
        data,
    )
}

/// The fields read back from payload bytes, where they carry them.
#[verifier::opaque]
pub open spec fn registry_decode(b: Seq<u8>) -> Option<
    (u32, u32, Seq<char>, Seq<char>, u32, Seq<u8>),
> {
    if b.len() < 8 {
        None
    } else {
        let pid = le32_at(b, 0);
        let tid = le32_at(b, 4);
        if !string_blob_ok(b, 8) {
            None
        } else {
            let key_name = string_blob_value(b, 8);
            let vpos = 8 + string_blob_size(b, 8);
            if !string_blob_ok(b, vpos) {
                None
            } else {
                let value_name = string_blob_value(b, vpos);
                let tpos = vpos + string_blob_size(b, vpos);
                if tpos + 4 > b.len() {
                    None
                } else {
                    let data_type = le32_at(b, tpos);
                    if !bytes_blob_ok(b, tpos + 4) {
                        None
                    } else {
                        Some(
                            (
                                pid,
                                tid,
                                key_name,
                                value_name,
                                data_type,
                                bytes_blob_value(b, tpos + 4),
                            ),
                        )
                    }
                }
            }
        }
    }
}

impl RegistrySetValueEvent {
    pub fn new(
        pid: u32,
        tid: u32,
        key_name: String,
        value_name: String,
        data_type: u32,
        data: Vec<u8>,
    ) -> (r: Self)
        ensures
            r@ == (pid, tid, key_name@, value_name@, data_type, data@),
    {
        Self { pid, tid, key_name, value_name, data_type, data }
    }

    pub fn get_pid(&self) -> (r: u32)
        ensures
            r == self.pid,
    {
        self.pid
    }

    /// The data read as a text value: the low bytes of its UTF-16 units up
    /// to the first NUL, each taken as a character. None where the data type
    /// is not textual.
    pub fn data_as_string(&self) -> (r: Option<String>)
        ensures
            r is Some <==> reg_type_is_string(self.data_type),
            r matches Some(s) ==> encode_utf8(s@) == latin1_utf8(wide_low_bytes(self.data@)) && (
            s@.len() == 0 <==> wide_low_bytes(self.data@).len() == 0),
    {
        let data_type = RegType::from_u32(self.data_type);
        if !data_type.is_string() {
            return None;
        }
        let lows = self.wide_lows();
        Some(latin1_string(lows.as_slice()))
    }

    /// Collects the low bytes of the data's UTF-16 units up to the first NUL
    /// unit.
    fn wide_lows(&self) -> (r: Vec<u8>)
        ensures
            r@ == wide_low_bytes(self.data@),
    {
        let mut lows: Vec<u8> = Vec::new();
        let mut i: usize = 0;
        proof {
            assert(self.data@.skip(0) =~= self.data@);
            assert(Seq::<u8>::empty() + wide_low_bytes(self.data@) =~= wide_low_bytes(self.data@));
        }
        loop
            invariant_except_break
                i % 2 == 0,
                i <= self.data@.len(),
                lows@ + wide_low_bytes(self.data@.skip(i as int)) == wide_low_bytes(self.data@),
            ensures
                lows@ == wide_low_bytes(self.data@),
            decreases self.data@.len() - i,
        {
            if i + 1 >= self.data.len() {
                proof {
                    assert(wide_low_bytes(self.data@.skip(i as int)) =~= Seq::<u8>::empty());
                    assert(lows@ + Seq::<u8>::empty() =~= lows@);
                }
                break;
            }
            let lo = self.data[i];
            let hi = self.data[i + 1];
            if lo == 0 && hi == 0 {
                proof {
                    assert(wide_low_bytes(self.data@.skip(i as int)) =~= Seq::<u8>::empty());
                    assert(lows@ + Seq::<u8>::empty() =~= lows@);
                }
                break;
            }
            lows.push(lo);
            proof {
                let tail = self.data@.skip(i as int);
                assert(tail.skip(2) =~= self.data@.skip(i + 2));
                assert(lows@ + wide_low_bytes(self.data@.skip(i + 2)) =~= wide_low_bytes(
                    self.data@,
                ));
            }
            i = i + 2;
        }
        lows
    }

    /// The data read as a text value byte by byte, up to the first zero
    /// byte. None where the data type is not textual.
    pub fn data_as_string2(&self) -> (r: Option<String>)
        ensures
            r is Some <==> reg_type_is_string(self.data_type),
            r matches Some(s) ==> encode_utf8(s@) == latin1_utf8(bytes_until_zero(self.data@)),
    {
        let data_type = RegType::from_u32(self.data_type);
        if !data_type.is_string() {
            return None;
        }
        let mut narrow: Vec<u8> = Vec::new();
        let mut i: usize = 0;
        proof {
            assert(self.data@.skip(0) =~= self.data@);
            assert(Seq::<u8>::empty() + bytes_until_zero(self.data@) =~= bytes_until_zero(
                self.data@,
            ));
        }
        loop
            invariant_except_break
                i <= self.data@.len(),
                narrow@ + bytes_until_zero(self.data@.skip(i as int)) == bytes_until_zero(
                    self.data@,
                ),
            ensures
                narrow@ == bytes_until_zero(self.data@),
            decreases self.data@.len() - i,
        {
            if i >= self.data.len() {
                proof {
                    assert(bytes_until_zero(self.data@.skip(i as int)) =~= Seq::<u8>::empty());
                    assert(narrow@ + Seq::<u8>::empty() =~= narrow@);
                }
                break;
            }
            let b = self.data[i];
            if b == 0 {
                proof {
                    assert(bytes_until_zero(self.data@.skip(i as int)) =~= Seq::<u8>::empty());
                    assert(narrow@ + Seq::<u8>::empty() =~= narrow@);
                }
                break;
            }
            narrow.push(b);
            proof {
                let tail = self.data@.skip(i as int);
                assert(tail.drop_first() =~= self.data@.skip(i + 1));
                assert(narrow@ + bytes_until_zero(self.data@.skip(i + 1)) =~= bytes_until_zero(
                    self.data@,
                ));
            }
            i = i + 1;
        }
        Some(latin1_string(narrow.as_slice()))
    }

    /// Encodes the payload; fails exactly when a string or the data is too
    /// long.
    pub fn to_blob(&self) -> (r: Result<Vec<u8>, EventEncodeError>)
        ensures
            r matches Ok(v) ==> v@ == registry_blob(
                self.pid,
                self.tid,
                self.key_name@,
                self.value_name@,
                self.data_type,
                self.data@,
            ),
            r is Ok <==> registry_encodable(self.key_name@, self.value_name@, self.data@),
    {
        if self.key_name.as_str().as_bytes().len() > MAX_EVENT_FIELD as usize
            || self.value_name.as_str().as_bytes().len() > MAX_EVENT_FIELD as usize
            || self.data.len() > MAX_EVENT_FIELD as usize {
            return Err(EventEncodeError::TooLarge);
        }
        let mut out: Vec<u8> = Vec::new();
        push_u32_le(&mut out, self.pid);
        push_u32_le(&mut out, self.tid);
        push_string_blob(&mut out, self.key_name.as_str());
        push_string_blob(&mut out, self.value_name.as_str());
        push_u32_le(&mut out, self.data_type);
        push_bytes_blob(&mut out, self.data.as_slice());
        proof {
            assert(out@ =~= registry_blob(
                self.pid,
                self.tid,
                self.key_name@,
                self.value_name@,
                self.data_type,
                self.data@,
            ));
        }
        Ok(out)
    }

    /// Encodes the framed event: class tag, then payload.
    pub fn serialize(&self) -> (r: Result<Vec<u8>, EventEncodeError>)
        ensures
            r matches Ok(v) ==> v@ == registry_frame(
                self.pid,
                self.tid,
                self.key_name@,
                self.value_name@,
                self.data_type,
                self.data@,
            ),
            r is Ok <==> registry_encodable(self.key_name@, self.value_name@, self.data@),
    {
        match self.to_blob() {
            Ok(blob) => {
                let mut out: Vec<u8> = Vec::new();
                push_u32_le(&mut out, REGISTRY_SET_VALUE_CLASS);
                out.extend_from_slice(blob.as_slice());
                proof {
                    assert(out@ =~= registry_frame(
                        self.pid,
                        self.tid,
                        self.key_name@,
                        self.value_name@,
                        self.data_type,
                        self.data@,
                    ));
                }
                Ok(out)
            },
            Err(e) => Err(e),
        }
    }

    /// Decodes a payload; fails exactly on truncation.
    pub fn from_blob(bytes: &[u8]) -> (r: Result<Self, EventDecodeError>)
        ensures
            r matches Ok(ev) ==> registry_decode(bytes@) == Some(ev@),
            r is Ok <==> registry_decode(bytes@) is Some,
            r matches Err(e) ==> e is Truncated,
    {
        proof {
            reveal(registry_decode);
        }
        if bytes.len() < 8 {
            return Err(EventDecodeError::Truncated);
        }
        let pid = read_u32_le(bytes, 0);
        let tid = read_u32_le(bytes, 4);
        let (key_name, key_size) = match read_string_blob(bytes, 8) {
            Ok(p) => p,
            Err(e) => {
                return Err(e);
            },
        };
        let vpos = 8 + key_size;
        let (value_name, value_size) = match read_string_blob(bytes, vpos) {
            Ok(p) => p,
            Err(e) => {
                return Err(e);
            },
        };
        let tpos = vpos + value_size;
        if tpos > bytes.len() || bytes.len() - tpos < 4 {
            return Err(EventDecodeError::Truncated);
        }
        let data_type = read_u32_le(bytes, tpos);
        let (data, _) = match read_bytes_blob(bytes, tpos + 4) {
            Ok(p) => p,
            Err(e) => {
                return Err(e);
            },
        };
        Ok(Self { pid, tid, key_name, value_name, data_type, data })
    }

    /// Decodes a framed event; the class tag must name this event.
    pub fn deserialize(bytes: &[u8]) -> (r: Result<Self, EventDecodeError>)
        ensures
            r matches Ok(ev) ==> bytes@.len() >= 4 && le32_at(bytes@, 0)
                == REGISTRY_SET_VALUE_CLASS && registry_decode(bytes@.skip(4)) == Some(ev@),
    {
        if bytes.len() < 4 {
            return Err(EventDecodeError::Truncated);
        }
        let class = crate::event::get_event_type(bytes);
        if class != REGISTRY_SET_VALUE_CLASS {
            return Err(EventDecodeError::WrongClass);
        }
        let payload = vstd::slice::slice_subrange(bytes, 4, bytes.len());
        Self::from_blob(payload)
    }
}

proof fn lemma_registry_blob_head(
    pid: u32,
    tid: u32,
    key_name: Seq<char>,
    value_name: Seq<char>,
    data_type: u32,
    data: Seq<u8>,
)
    requires
        registry_encodable(key_name, value_name, data),
    ensures
        ({
            let b = registry_blob(pid, tid, key_name, value_name, data_type, data);
            &&& b.len() >= 8
            &&& le32_at(b, 0) == pid
            &&& le32_at(b, 4) == tid
            &&& string_blob_ok(b, 8)
            &&& string_blob_value(b, 8) == key_name
            &&& string_blob_size(b, 8) == string_blob_of(key_name).len()
        }),
{
    let b = registry_blob(pid, tid, key_name, value_name, data_type, data);
    let kb = string_blob_of(key_name);
    let vb = string_blob_of(value_name);
    let head = le_bytes_of_u32(pid) + le_bytes_of_u32(tid);
    assert(b.subrange(0, 4) =~= le_bytes_of_u32(pid));
    assert(b.subrange(4, 8) =~= le_bytes_of_u32(tid));
    lemma_le32_at_subrange(b, 0);
    lemma_le32_at_subrange(b, 4);
    lemma_le32_of_bytes(pid);
    lemma_le32_of_bytes(tid);
    lemma_string_blob_roundtrip(
        key_name,
        head,
        vb + le_bytes_of_u32(data_type) + bytes_blob_of(data),
    );
    let x = head + kb;
    let dt = le_bytes_of_u32(data_type);
    let db = bytes_blob_of(data);
    vstd::seq_lib::lemma_concat_associative(x + vb, dt, db);
    vstd::seq_lib::lemma_concat_associative(x, vb, dt + db);
    vstd::seq_lib::lemma_concat_associative(vb, dt, db);
    assert(x + (vb + dt + db) == b);
}

proof fn lemma_registry_blob_value(
    pid: u32,
    tid: u32,
    key_name: Seq<char>,
    value_name: Seq<char>,
    data_type: u32,
    data: Seq<u8>,
)
    requires
        registry_encodable(key_name, value_name, data),
    ensures
        ({
            let b = registry_blob(pid, tid, key_name, value_name, data_type, data);
            let vpos = 8 + string_blob_of(key_name).len() as int;
            &&& string_blob_ok(b, vpos)
            &&& string_blob_value(b, vpos) == value_name
            &&& string_blob_size(b, vpos) == string_blob_of(value_name).len()
        }),
{
    let b = registry_blob(pid, tid, key_name, value_name, data_type, data);
    let kb = string_blob_of(key_name);
    let vb = string_blob_of(value_name);
    let head = le_bytes_of_u32(pid) + le_bytes_of_u32(tid);
    lemma_string_blob_roundtrip(
        value_name,
        head + kb,
        le_bytes_of_u32(data_type) + bytes_blob_of(data),
    );
    let dt = le_bytes_of_u32(data_type);
    let db = bytes_blob_of(data);
    vstd::seq_lib::lemma_concat_associative(head + kb + vb, dt, db);
    assert(head + kb + vb + (dt + db) == b);
}

proof fn lemma_registry_blob_tail(
    pid: u32,
    tid: u32,
    key_name: Seq<char>,
    value_name: Seq<char>,
    data_type: u32,
    data: Seq<u8>,
)
    requires
        registry_encodable(key_name, value_name, data),
    ensures
        ({
            let b = registry_blob(pid, tid, key_name, value_name, data_type, data);
            let tpos = 8 + string_blob_of(key_name).len() + string_blob_of(value_name).len() as int;
            &&& tpos + 4 <= b.len()
            &&& le32_at(b, tpos) == data_type
            &&& bytes_blob_ok(b, tpos + 4)
            &&& bytes_blob_value(b, tpos + 4) == data
        }),
{
    let b = registry_blob(pid, tid, key_name, value_name, data_type, data);
    let kb = string_blob_of(key_name);
    let vb = string_blob_of(value_name);
    let head = le_bytes_of_u32(pid) + le_bytes_of_u32(tid);
    let tpos = 8 + kb.len() + vb.len() as int;
    assert(b.subrange(tpos, tpos + 4) =~= le_bytes_of_u32(data_type));
    lemma_le32_at_subrange(b, tpos);
    lemma_le32_of_bytes(data_type);
    lemma_bytes_blob_roundtrip(data, head + kb + vb + le_bytes_of_u32(data_type), Seq::empty());
    assert(b + Seq::<u8>::empty() =~= b);
}

/// Decoding an encoded registry set-value payload recovers the event.
#[verifier::rlimit(100)]
pub proof fn lemma_registry_roundtrip(
    pid: u32,
    tid: u32,
    key_name: Seq<char>,
    value_name: Seq<char>,
    data_type: u32,
    data: Seq<u8>,
)
    requires
        registry_encodable(key_name, value_name, data),
    ensures
        registry_decode(registry_blob(pid, tid, key_name, value_name, data_type, data)) == Some(
            (pid, tid, key_name, value_name, data_type, data),
        ),
        registry_decode(
            registry_frame(pid, tid, key_name, value_name, data_type, data).skip(4),
        ) == Some((pid, tid, key_name, value_name, data_type, data)),
{
    reveal(registry_decode);
    let b = registry_blob(pid, tid, key_name, value_name, data_type, data);
    lemma_registry_blob_head(pid, tid, key_name, value_name, data_type, data);
    lemma_registry_blob_value(pid, tid, key_name, value_name, data_type, data);
    lemma_registry_blob_tail(pid, tid, key_name, value_name, data_type, data);
    assert(registry_decode(b) == Some((pid, tid, key_name, value_name, data_type, data)));
    let framed = le_bytes_of_u32(REGISTRY_SET_VALUE_CLASS) + b;
    assert(framed.skip(4) =~= b);
}

/// The attribute hashes a registry set-value event yields, over its
/// fields.
pub open spec fn registry_hashes(
    pid: u32,
    tid: u32,
    key_name: Seq<char>,
    value_name: Seq<char>,
    data_type: u32,
    data: Seq<u8>,
) -> Seq<Seq<u8>> {
    let pid_part: Seq<Seq<u8>> = if pid != 0 {
        seq![spec_member_hash("RegSetValue"@, "pid"@, dec_bytes(pid as nat))]
    } else {
        Seq::empty()
    };
    let tid_part: Seq<Seq<u8>> = if tid != 0 {
        seq![spec_member_hash("RegSetValue"@, "tid"@, dec_bytes(tid as nat))]
    } else {
        Seq::empty()
    };
    let key_part: Seq<Seq<u8>> = if key_name.len() != 0 {
        seq![spec_member_hash("RegSetValue"@, "key_name"@, encode_utf8(key_name))]
    } else {
        Seq::empty()
    };
    let value_part: Seq<Seq<u8>> = if value_name.len() != 0 {
        seq![spec_member_hash("RegSetValue"@, "value_name"@, encode_utf8(value_name))]
    } else {
        Seq::empty()
    };
    let type_part: Seq<Seq<u8>> = if data_type != 0 {
        seq![spec_member_hash("RegSetValue"@, "data_type"@, dec_bytes(data_type as nat))]
    } else {
        Seq::empty()
    };
    let data_part: Seq<Seq<u8>> = if reg_type_is_string(data_type) && wide_low_bytes(data).len()
        != 0 {
        seq![spec_member_hash("RegSetValue"@, "data"@, latin1_utf8(wide_low_bytes(data)))]
    } else {
        Seq::empty()
    };
    pid_part + tid_part + key_part + value_part + type_part + data_part
}

impl MemberHasher for RegistrySetValueEvent {
    open spec fn spec_hash_members(&self) -> Seq<Seq<u8>> {
        registry_hashes(
            self.pid,
            self.tid,
            self.key_name@,
            self.value_name@,
            self.data_type,
            self.data@,
        )
    }

    fn hash_members(&self) -> (v: Vec<Sha256Buff>) {
        let mut v: Vec<Sha256Buff> = Vec::new();
        if self.pid != 0 {
            let value = u32_to_string(self.pid);
            v.push(member_to_hash("RegSetValue", "pid", value.as_str()));
        }
        if self.tid != 0 {
            let value = u32_to_string(self.tid);
            v.push(member_to_hash("RegSetValue", "tid", value.as_str()));
        }
        if !self.key_name.as_str().is_empty() {
            v.push(member_to_hash("RegSetValue", "key_name", self.key_name.as_str()));
        }
        if !self.value_name.as_str().is_empty() {
            v.push(member_to_hash("RegSetValue", "value_name", self.value_name.as_str()));
        }
        if self.data_type != 0 {
            let value = u32_to_string(self.data_type);
            v.push(member_to_hash("RegSetValue", "data_type", value.as_str()));
        }
        if let Some(data) = self.data_as_string() {
            if !data.as_str().is_empty() {
                v.push(member_to_hash("RegSetValue", "data", data.as_str()));
            }
        }
        proof {
            assert(sha_list_view(v@) =~= self.spec_hash_members());
        }
        v
    }
}

} // verus!
