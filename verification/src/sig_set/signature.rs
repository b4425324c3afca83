//! A detection rule: a name, a description, and one body of predicates.
use vstd::prelude::*;
use vstd::utf8::{decode_utf8, encode_utf8, valid_utf8};

use crate::event::file_create::FileCreateEvent;
use crate::event::image_load::ImageLoadEvent;
use crate::event::process_create::ProcessCreateEvent;
use crate::event::registry_set_value::RegistrySetValueEvent;
use crate::hasher::{sha_list_view, MemberHasher};
use crate::strfmt::to_lowercase;
use crate::hashing::{sha256_buff_from_slice, Sha256Buff};
use crate::sig_set::{SigSetError, BEH_MAGIC_U32, DYN_MAGIC_U32, HEUR_MAGIC_U32};
use crate::wire::{
    le64_at, le_bytes_of_u32, le_bytes_of_u64, lemma_le32_at_subrange, lemma_le32_of_bytes,
    lemma_le64_at_subrange, lemma_le64_of_bytes, push_u32_le, push_u64_le, read_u32_le,
    read_u64_le,
};

verus! {

/// A rule's identifier inside one set: dense, starting at zero, in load
/// order.
pub type SigId = u32;

pub struct SigBase {
    pub name: String,
    pub description: String,
}

/// A rule's body: what kind of evidence it demands, and the hashes it
/// requires.
pub enum SigData {
    /// An exact file-content hash.
    Sha(Sha256Buff),
    /// Hashes of lowercased `library+name` PE imports.
    Imports(Vec<Sha256Buff>),
    /// Hashes of lowercased sandbox API-call names.
    Calls(Vec<Sha256Buff>),
    /// Canonical attribute hashes of a kernel event.
    Event(Vec<Sha256Buff>),
}

pub struct Signature {
    pub base: SigBase,
    pub data: SigData,
}

/// The mathematical content of a rule.
pub struct SigView {
    pub name: Seq<char>,
    pub description: Seq<char>,
    /// Body kind: 0 content hash, 1 imports, 2 calls, 3 event.
    pub kind: int,
    pub hashes: Seq<Seq<u8>>,
}

impl View for SigData {
    type V = (int, Seq<Seq<u8>>);

    open spec fn view(&self) -> (int, Seq<Seq<u8>>) {
        match *self {
            SigData::Sha(b) => (0int, seq![b@]),
            SigData::Imports(v) => (1int, sha_list_view(v@)),
            SigData::Calls(v) => (2int, sha_list_view(v@)),
            SigData::Event(v) => (3int, sha_list_view(v@)),
        }
    }
}

impl View for Signature {
    type V = SigView;

    open spec fn view(&self) -> SigView {
        SigView {
            name: self.base.name@,
            description: self.base.description@,
            kind: self.data@.0,
            hashes: self.data@.1,
        }
    }
}

/// A well-formed rule view: a known kind, every hash thirty-two bytes, and
/// a content-hash body holding exactly one hash.
pub open spec fn sig_view_wf(v: SigView) -> bool {
    &&& 0 <= v.kind <= 3
    &&& (v.kind == 0 ==> v.hashes.len() == 1)
    &&& forall|i: int| 0 <= i < v.hashes.len() ==> (#[trigger] v.hashes[i]).len() == 32
}

impl SigData {
    /// The hash list of a multi-predicate body; nothing for a content hash.
    pub fn get_sha_vec(&self) -> (r: Option<Vec<Sha256Buff>>)
        ensures
            r is Some <==> self@.0 != 0,
            r matches Some(v) ==> sha_list_view(v@) == self@.1,
    {
        match self {
            SigData::Sha(_) => None,
            SigData::Imports(v) => Some(v.clone()),
            SigData::Calls(v) => Some(v.clone()),
            SigData::Event(v) => Some(v.clone()),
        }
    }
}

impl Signature {
    /// Compiles a whole parsed rule: its name and description carry over,
    /// its body compiles as the body kind demands.
    pub fn from_yaml(yaml_sig: YamlSignature) -> (r: Result<Signature, SigSetError>)
        ensures
            r matches Ok(sig) ==> sig@.name == yaml_sig@.name && sig@.description
                == yaml_sig@.description && (sig@.kind, sig@.hashes) == spec_yaml_data_view(
                yaml_sig@.data,
            ),
            r is Ok <==> spec_yaml_data_ok(yaml_sig@.data),
            r matches Err(e) ==> e is DecodeError,
    {
        let YamlSignature { base, data } = yaml_sig;
        match SigData::from_yaml(data) {
            Ok(d) => Ok(Signature { base, data: d }),
            Err(e) => Err(e),
        }
    }

    /// Builds a multi-predicate rule for the set a magic names.
    pub fn new_heur(name: String, description: String, imports: Vec<Sha256Buff>, sig_type: u32) -> (r:
        Signature)
        requires
            crate::sig_set::heur_kind_magic(sig_type),
        ensures
            r@.name == name@,
            r@.description == description@,
            r@.hashes == sha_list_view(imports@),
            r@.kind == (if sig_type == HEUR_MAGIC_U32 {
                1int
            } else if sig_type == DYN_MAGIC_U32 {
                2int
            } else {
                3int
            }),
    {
        if sig_type == HEUR_MAGIC_U32 {
            Self { base: SigBase { name, description }, data: SigData::Imports(imports) }
        } else if sig_type == DYN_MAGIC_U32 {
            Self { base: SigBase { name, description }, data: SigData::Calls(imports) }
        } else {
            Self { base: SigBase { name, description }, data: SigData::Event(imports) }
        }
    }

    /// Builds a content-hash rule.
    pub fn new_sha(name: String, description: String, sha: Sha256Buff) -> (r: Signature)
        ensures
            r@.name == name@,
            r@.description == description@,
            r@.kind == 0,
            r@.hashes == seq![sha@],
    {
        Self { base: SigBase { name, description }, data: SigData::Sha(sha) }
    }

    pub fn sig_data(&self) -> (r: &SigData)
        ensures
            r@ == self.data@,
    {
        &self.data
    }

    pub fn description(&self) -> (r: String)
        ensures
            r@ == self@.description,
    {
        self.base.description.clone()
    }

    pub fn name(&self) -> (r: String)
        ensures
            r@ == self@.name,
    {
        self.base.name.clone()
    }
}

/// The plain fields a rule text carries for a file-creation event; absent
/// attributes read as empty.
pub struct YamlFileCreateEvent {
    pub path: Option<String>,
}

/// The plain fields a rule text carries for a process-creation event.
pub struct YamlProcessCreateEvent {
    pub pid: Option<u32>,
    pub parent_id: Option<u32>,
    pub path: Option<String>,
}

/// The plain fields a rule text carries for an image-load event.
pub struct YamlImageLoadEvent {
    pub pid: Option<u32>,
    pub image_path: Option<String>,
}

/// The plain fields a rule text carries for a registry set-value event.
pub struct YamlRegistrySetValueEvent {
    pub pid: Option<u32>,
    pub tid: Option<u32>,
    pub key_name: Option<String>,
    pub value_name: Option<String>,
    pub data_type: Option<u32>,
    pub data: Option<String>,
}

/// One event kind with its attributes, as a rule text gives them.
pub enum EventData {
    ProcessCreate(YamlProcessCreateEvent),
    FileCreate(YamlFileCreateEvent),
    ImageLoad(YamlImageLoadEvent),
    RegSetValue(YamlRegistrySetValueEvent),
}

/// A rule's body as its text gives it: a hex digest, import names, call
/// names, or one event.
pub enum YamlSigData {
    Sha(String),
    Imports(Vec<String>),
    Calls(Vec<String>),
    Event(EventData),
}

/// A whole rule as its text gives it.
pub struct YamlSignature {
    pub base: SigBase,
    pub data: YamlSigData,
}

/// The mathematical content of a parsed file-creation event rule.
pub struct YamlFileCreateV {
    pub path: Option<Seq<char>>,
}

/// The mathematical content of a parsed process-creation event rule.
pub struct YamlProcessCreateV {
    pub pid: Option<u32>,
    pub parent_id: Option<u32>,
    pub path: Option<Seq<char>>,
}

/// The mathematical content of a parsed image-load event rule.
pub struct YamlImageLoadV {
    pub pid: Option<u32>,
    pub image_path: Option<Seq<char>>,
}

/// The mathematical content of a parsed registry event rule.
pub struct YamlRegistryV {
    pub pid: Option<u32>,
    pub tid: Option<u32>,
    pub key_name: Option<Seq<char>>,
    pub value_name: Option<Seq<char>>,
    pub data_type: Option<u32>,
    pub data: Option<Seq<char>>,
}

/// The mathematical content of a parsed event rule.
pub enum EventDataV {
    ProcessCreate(YamlProcessCreateV),
    FileCreate(YamlFileCreateV),
    ImageLoad(YamlImageLoadV),
    RegSetValue(YamlRegistryV),
}

/// The mathematical content of a parsed rule body.
pub enum YamlSigDataV {
    Sha(Seq<char>),
    Imports(Seq<Seq<char>>),
    Calls(Seq<Seq<char>>),
    Event(EventDataV),
}

/// The mathematical content of a whole parsed rule.
pub struct YamlSigV {
    pub name: Seq<char>,
    pub description: Seq<char>,
    pub data: YamlSigDataV,
}

/// The characters an optional string carries.
pub open spec fn opt_chars(o: Option<String>) -> Option<Seq<char>> {
    match o {
        Some(s) => Some(s@),
        None => None,
    }
}

impl View for YamlFileCreateEvent {
    type V = YamlFileCreateV;

    open spec fn view(&self) -> YamlFileCreateV {
        YamlFileCreateV { path: opt_chars(self.path) }
    }
}

impl View for YamlProcessCreateEvent {
    type V = YamlProcessCreateV;

    open spec fn view(&self) -> YamlProcessCreateV {
        YamlProcessCreateV {
            pid: self.pid,
            parent_id: self.parent_id,
            path: opt_chars(self.path),
        }
    }
}

impl View for YamlImageLoadEvent {
    type V = YamlImageLoadV;

    open spec fn view(&self) -> YamlImageLoadV {
        YamlImageLoadV { pid: self.pid, image_path: opt_chars(self.image_path) }
    }
}

impl View for YamlRegistrySetValueEvent {
    type V = YamlRegistryV;

    open spec fn view(&self) -> YamlRegistryV {
        YamlRegistryV {
            pid: self.pid,
            tid: self.tid,
            key_name: opt_chars(self.key_name),
            value_name: opt_chars(self.value_name),
            data_type: self.data_type,
            data: opt_chars(self.data),
        }
    }
}

impl View for EventData {
    type V = EventDataV;

    open spec fn view(&self) -> EventDataV {
        match self {
            EventData::ProcessCreate(y) => EventDataV::ProcessCreate(y@),
            EventData::FileCreate(y) => EventDataV::FileCreate(y@),
            EventData::ImageLoad(y) => EventDataV::ImageLoad(y@),
            EventData::RegSetValue(y) => EventDataV::RegSetValue(y@),
        }
    }
}

impl View for YamlSigData {
    type V = YamlSigDataV;

    open spec fn view(&self) -> YamlSigDataV {
        match self {
            YamlSigData::Sha(s) => YamlSigDataV::Sha(s@),
            YamlSigData::Imports(v) => YamlSigDataV::Imports(
                Seq::new(v@.len() as nat, |i: int| v@[i]@),
            ),
            YamlSigData::Calls(v) => YamlSigDataV::Calls(
                Seq::new(v@.len() as nat, |i: int| v@[i]@),
            ),
            YamlSigData::Event(ed) => YamlSigDataV::Event(ed@),
        }
    }
}

impl View for YamlSignature {
    type V = YamlSigV;

    open spec fn view(&self) -> YamlSigV {
        YamlSigV { name: self.base.name@, description: self.base.description@, data: self.data@ }
    }
}

/// The number an optional attribute denotes; absent reads as zero.
pub open spec fn u32_or_zero(o: Option<u32>) -> u32 {
    match o {
        Some(v) => v,
        None => 0u32,
    }
}

/// The characters an optional attribute denotes; absent reads as empty.
pub open spec fn chars_or_empty(o: Option<Seq<char>>) -> Seq<char> {
    match o {
        Some(s) => s,
        None => Seq::empty(),
    }
}

/// Reads an optional number, absent as zero.
pub fn opt_u32(o: Option<u32>) -> (r: u32)
    ensures
        r == u32_or_zero(o),
{
    match o {
        Some(v) => v,
        None => 0,
    }
}

/// Reads an optional string, absent as empty.
pub fn opt_string(o: Option<String>) -> (r: String)
    ensures
        r@ == chars_or_empty(opt_chars(o)),
{
    match o {
        Some(s) => s,
        None => String::new(),
    }
}

/// The attribute hashes an event rule compiles to: the same hashing the
/// live event undergoes, over the rule's attributes, absent ones read as
/// zero or empty and so skipped.
pub open spec fn spec_event_of_yaml(ed: EventDataV) -> Seq<Seq<u8>> {
    match ed {
        EventDataV::ProcessCreate(y) => crate::event::process_create::process_create_hashes(
            u32_or_zero(y.pid),
            u32_or_zero(y.parent_id),
            chars_or_empty(y.path),
        ),
        EventDataV::FileCreate(y) => crate::event::file_create::file_create_hashes(
            chars_or_empty(y.path),
        ),
        EventDataV::ImageLoad(y) => crate::event::image_load::image_load_hashes(
            u32_or_zero(y.pid),
            chars_or_empty(y.image_path),
        ),
        EventDataV::RegSetValue(y) => crate::event::registry_set_value::registry_hashes(
            u32_or_zero(y.pid),
            u32_or_zero(y.tid),
            chars_or_empty(y.key_name),
            chars_or_empty(y.value_name),
            u32_or_zero(y.data_type),
            vstd::utf8::encode_utf8(chars_or_empty(y.data)),
        ),
    }
}

/// The hash an import or call name compiles to: the SHA-256 of its
/// lower-cased text.
pub open spec fn name_hash(s: Seq<char>) -> Seq<u8> {
    crate::hashing::sha256_of(encode_utf8(crate::strfmt::lower_of(s)))@
}

impl SigData {
    /// Compiles a parsed rule body: a hex digest becomes a content rule;
    /// import and call names are lower-cased and hashed; an event is
    /// hashed attribute by attribute, zero and empty attributes skipped.
    /// Malformed hex and empty predicate lists are hard errors.
    pub fn from_yaml(yaml_sig_data: YamlSigData) -> (r: Result<SigData, SigSetError>)
        ensures
            r matches Ok(d) ==> d@ == spec_yaml_data_view(yaml_sig_data@),
            r is Ok <==> spec_yaml_data_ok(yaml_sig_data@),
            r matches Err(e) ==> e is DecodeError,
    {
        match yaml_sig_data {
            YamlSigData::Sha(sha_text) => {
                match crate::hashing::sha256_from_sha_string(sha_text.as_str()) {
                    Ok(buf) => Ok(SigData::Sha(buf)),
                    Err(_) => Err(SigSetError::DecodeError),
                }
            },
            YamlSigData::Imports(imports) => {
                match hash_name_list(&imports) {
                    Some(v) => Ok(SigData::Imports(v)),
                    None => Err(SigSetError::DecodeError),
                }
            },
            YamlSigData::Calls(calls) => {
                match hash_name_list(&calls) {
                    Some(v) => Ok(SigData::Calls(v)),
                    None => Err(SigSetError::DecodeError),
                }
            },
            YamlSigData::Event(event_data) => {
                let hash_list = hash_event_data(event_data);
                if hash_list.len() == 0 {
                    return Err(SigSetError::DecodeError);
                }
                Ok(SigData::Event(hash_list))
            },
        }
    }
}

/// The body a parsed rule compiles to, where compilation succeeds.
pub open spec fn spec_yaml_data_view(y: YamlSigDataV) -> (int, Seq<Seq<u8>>) {
    match y {
        YamlSigDataV::Sha(sha_text) => (
            0int,
            seq![crate::strfmt::hex_decoded(encode_utf8(sha_text)) ],
        ),
        YamlSigDataV::Imports(v) => (1int, Seq::new(v.len(), |i: int| name_hash(v[i]))),
        YamlSigDataV::Calls(v) => (2int, Seq::new(v.len(), |i: int| name_hash(v[i]))),
        YamlSigDataV::Event(ed) => (3int, spec_event_of_yaml(ed)),
    }
}

/// True when a parsed rule body compiles: well-formed sixty-four-digit
/// hex for a content rule, and at least one predicate elsewhere.
pub open spec fn spec_yaml_data_ok(y: YamlSigDataV) -> bool {
    match y {
        YamlSigDataV::Sha(sha_text) => {
            let digits = encode_utf8(sha_text);
            &&& digits.len() == 64
            &&& digits.len() % 2 == 0
            &&& forall|i: int|
                0 <= i < digits.len() ==> crate::strfmt::is_hex_digit(#[trigger] digits[i])
        },
        YamlSigDataV::Imports(v) => v.len() > 0,
        YamlSigDataV::Calls(v) => v.len() > 0,
        YamlSigDataV::Event(ed) => spec_event_of_yaml(ed).len() > 0,
    }
}

/// Hashes a list of lower-cased import or call names; an empty list
/// compiles to nothing.
fn hash_name_list(names: &Vec<String>) -> (r: Option<Vec<Sha256Buff>>)
    ensures
        r is Some <==> names@.len() > 0,
        r matches Some(v) ==> sha_list_view(v@) == Seq::new(
            names@.len() as nat,
            |i: int| name_hash(names@[i]@),
        ),
{
    if names.len() == 0 {
        return None;
    }
    let mut out: Vec<Sha256Buff> = Vec::new();
    let mut i: usize = 0;
    while i < names.len()
        invariant
            i <= names@.len(),
            out@.len() == i,
            forall|j: int| 0 <= j < i ==> (#[trigger] out@[j])@ == name_hash(names@[j]@),
        decreases names@.len() - i,
    {
        let lowered = to_lowercase(names[i].as_str());
        out.push(crate::hashing::sha256_from_string(lowered));
        i = i + 1;
    }
    proof {
        assert(sha_list_view(out@) =~= Seq::new(
            names@.len() as nat,
            |j: int| name_hash(names@[j]@),
        ));
    }
    Some(out)
}

/// Rebuilds the event a rule names and hashes its attributes, exactly as
/// the live event would be hashed.
fn hash_event_data(event_data: EventData) -> (r: Vec<Sha256Buff>)
    ensures
        sha_list_view(r@) == spec_event_of_yaml(event_data@),
{
    match event_data {
        EventData::ProcessCreate(y) => {
            let event = ProcessCreateEvent {
                pid: opt_u32(y.pid),
                parent_id: opt_u32(y.parent_id),
                path: opt_string(y.path),
            };
            event.hash_members()
        },
        EventData::FileCreate(y) => {
            let event = FileCreateEvent { path: opt_string(y.path) };
            event.hash_members()
        },
        EventData::ImageLoad(y) => {
            let event = ImageLoadEvent { pid: opt_u32(y.pid), image_path: opt_string(y.image_path) };
            event.hash_members()
        },
        EventData::RegSetValue(y) => {
            let data_text = opt_string(y.data);
            let data = data_text.as_str().as_bytes_vec();
            let event = RegistrySetValueEvent {
                pid: opt_u32(y.pid),
                tid: opt_u32(y.tid),
                key_name: opt_string(y.key_name),
                value_name: opt_string(y.value_name),
                data_type: opt_u32(y.data_type),
                data,
            };
            event.hash_members()
        },
    }
}

/// The on-disk bytes of a string inside a rule body: an eight-byte length,
/// then the UTF-8 bytes.
pub open spec fn rule_string_bytes(s: Seq<char>) -> Seq<u8> {
    le_bytes_of_u64(encode_utf8(s).len() as u64) + encode_utf8(s)
}

/// The concatenation of fixed thirty-two-byte hashes.
pub open spec fn hash_run_bytes(hs: Seq<Seq<u8>>) -> Seq<u8>
    decreases hs.len(),
{
    if hs.len() == 0 {
        Seq::empty()
    } else {
        hs[0] + hash_run_bytes(hs.drop_first())
    }
}

/// The on-disk bytes of a rule body: name, description, a four-byte kind
/// tag, and the hashes — a single bare hash for a content rule, an
/// eight-byte count and the hashes otherwise.
#[verifier::opaque]
pub open spec fn sig_bytes(v: SigView) -> Seq<u8>
    recommends
        sig_view_wf(v),
{
    rule_string_bytes(v.name) + rule_string_bytes(v.description) + le_bytes_of_u32(v.kind as u32)
        + (if v.kind == 0 {
        v.hashes[0]
    } else {
        le_bytes_of_u64(v.hashes.len() as u64) + hash_run_bytes(v.hashes)
    })
}

/// Every whole hash run is thirty-two bytes per hash.
pub proof fn lemma_hash_run_len(hs: Seq<Seq<u8>>)
    requires
        forall|i: int| 0 <= i < hs.len() ==> (#[trigger] hs[i]).len() == 32,
    ensures
        hash_run_bytes(hs).len() == 32 * hs.len(),
    decreases hs.len(),
{
    if hs.len() > 0 {
        lemma_hash_run_len(hs.drop_first());
    }
}

/// Each hash of a run sits at its own thirty-two-byte slot.
pub proof fn lemma_hash_run_index(hs: Seq<Seq<u8>>, k: int)
    requires
        forall|i: int| 0 <= i < hs.len() ==> (#[trigger] hs[i]).len() == 32,
        0 <= k < hs.len(),
    ensures
        hash_run_bytes(hs).subrange(32 * k, 32 * k + 32) == hs[k],
    decreases k,
{
    lemma_hash_run_len(hs);
    if k == 0 {
        lemma_hash_run_len(hs.drop_first());
        assert(hash_run_bytes(hs).subrange(0, 32) =~= hs[0]);
    } else {
        lemma_hash_run_index(hs.drop_first(), k - 1);
        assert(hash_run_bytes(hs).subrange(32 * k, 32 * k + 32) =~= hash_run_bytes(
            hs.drop_first(),
        ).subrange(32 * (k - 1), 32 * (k - 1) + 32));
    }
}

/// Encodes a rule into its on-disk bytes.
pub fn encode_signature(sig: &Signature) -> (r: Vec<u8>)
    ensures
        r@ == sig_bytes(sig@),
{
    proof {
        reveal(sig_bytes);
    }
    let mut out: Vec<u8> = Vec::new();
    let name_bytes = sig.base.name.as_str().as_bytes();
    push_u64_le(&mut out, name_bytes.len() as u64);
    out.extend_from_slice(name_bytes);
    let desc_bytes = sig.base.description.as_str().as_bytes();
    push_u64_le(&mut out, desc_bytes.len() as u64);
    out.extend_from_slice(desc_bytes);
    match &sig.data {
        SigData::Sha(sha) => {
            push_u32_le(&mut out, 0);
            out.extend_from_slice(sha.as_slice());
            proof {
                assert(seq![sig@.hashes[0]].drop_first() =~= Seq::<Seq<u8>>::empty());
            }
        },
        SigData::Imports(v) => {
            push_u32_le(&mut out, 1);
            push_hash_run(&mut out, v);
        },
        SigData::Calls(v) => {
            push_u32_le(&mut out, 2);
            push_hash_run(&mut out, v);
        },
        SigData::Event(v) => {
            push_u32_le(&mut out, 3);
            push_hash_run(&mut out, v);
        },
    }
    proof {
        assert(out@ =~= sig_bytes(sig@));
    }
    out
}

/// Appends an eight-byte count and the hashes themselves.
fn push_hash_run(out: &mut Vec<u8>, hashes: &Vec<Sha256Buff>)
    ensures
        final(out)@ == old(out)@ + le_bytes_of_u64(hashes@.len() as u64) + hash_run_bytes(
            sha_list_view(hashes@),
        ),
{
    push_u64_le(out, hashes.len() as u64);
    let mut k: usize = 0;
    while k < hashes.len()
        invariant
            k <= hashes@.len(),
            out@ == old(out)@ + le_bytes_of_u64(hashes@.len() as u64) + hash_run_bytes(
                sha_list_view(hashes@).take(k as int),
            ),
        decreases hashes.len() - k,
    {
        out.extend_from_slice(hashes[k].as_slice());
        proof {
            lemma_hash_run_snoc(sha_list_view(hashes@).take(k as int), hashes@[k as int]@);
            assert(sha_list_view(hashes@).take(k + 1) =~= sha_list_view(hashes@).take(
                k as int,
            ).push(hashes@[k as int]@));
            assert(out@ =~= old(out)@ + le_bytes_of_u64(hashes@.len() as u64) + hash_run_bytes(
                sha_list_view(hashes@).take(k + 1),
            ));
        }
        k = k + 1;
    }
    proof {
        assert(sha_list_view(hashes@).take(hashes@.len() as int) =~= sha_list_view(hashes@));
    }
}

proof fn lemma_hash_run_snoc(hs: Seq<Seq<u8>>, last: Seq<u8>)
    ensures
        hash_run_bytes(hs.push(last)) == hash_run_bytes(hs) + last,
    decreases hs.len(),
{
    if hs.len() == 0 {
        assert(hs.push(last)[0] == last);
        assert(hs.push(last).drop_first() =~= Seq::<Seq<u8>>::empty());
        assert(hash_run_bytes(Seq::<Seq<u8>>::empty()) =~= Seq::<u8>::empty());
        assert(hash_run_bytes(hs.push(last)) =~= last);
        assert(hash_run_bytes(hs) + last =~= last);
    } else {
        assert(hs.push(last).drop_first() =~= hs.drop_first().push(last));
        lemma_hash_run_snoc(hs.drop_first(), last);
        assert(hash_run_bytes(hs.push(last)) =~= hash_run_bytes(hs) + last);
    }
}

/// The rule a byte sequence carries at its front, with the bytes consumed,
/// where it carries one.
#[verifier::opaque]
pub open spec fn spec_parse_signature(b: Seq<u8>) -> Option<(SigView, int)> {
    if b.len() < 8 {
        None
    } else {
        let nlen = le64_at(b, 0) as int;
        if 8 + nlen > b.len() {
            None
        } else {
            let nbytes = b.subrange(8, 8 + nlen);
            if !valid_utf8(nbytes) {
                None
            } else {
                let p1 = 8 + nlen;
                if p1 + 8 > b.len() {
                    None
                } else {
                    let dlen = le64_at(b, p1) as int;
                    if p1 + 8 + dlen > b.len() {
                        None
                    } else {
                        let dbytes = b.subrange(p1 + 8, p1 + 8 + dlen);
                        if !valid_utf8(dbytes) {
                            None
                        } else {
                            let p2 = p1 + 8 + dlen;
                            spec_parse_sig_body(b, p2, decode_utf8(nbytes), decode_utf8(dbytes))
                        }
                    }
                }
            }
        }
    }
}

/// The body part of a rule parse, after the two strings.
#[verifier::opaque]
pub open spec fn spec_parse_sig_body(b: Seq<u8>, p2: int, name: Seq<char>, description: Seq<char>) -> Option<
    (SigView, int),
> {
    if p2 + 4 > b.len() {
        None
    } else {
        let kind = crate::wire::le32_at(b, p2) as int;
        let p3 = p2 + 4;
        if kind > 3 {
            None
        } else if kind == 0 {
            if p3 + 32 > b.len() {
                None
            } else {
                Some(
                    (
                        SigView { name, description, kind, hashes: seq![b.subrange(p3, p3 + 32)] },
                        p3 + 32,
                    ),
                )
            }
        } else {
            if p3 + 8 > b.len() {
                None
            } else {
                let count = le64_at(b, p3) as int;
                if p3 + 8 + 32 * count > b.len() {
                    None
                } else {
                    Some(
                        (
                            SigView {
                                name,
                                description,
                                kind,
                                hashes: Seq::new(
                                    count as nat,
                                    |i: int| b.subrange(p3 + 8 + 32 * i, p3 + 8 + 32 * i + 32),
                                ),
                            },
                            p3 + 8 + 32 * count,
                        ),
                    )
                }
            }
        }
    }
}

proof fn lemma_rule_string_at(s: Seq<char>, prefix: Seq<u8>, rest: Seq<u8>)
    requires
        encode_utf8(s).len() <= u64::MAX,
    ensures
        ({
            let b = prefix + rule_string_bytes(s) + rest;
            let pos = prefix.len() as int;
            &&& b.len() == prefix.len() + 8 + encode_utf8(s).len() + rest.len()
            &&& le64_at(b, pos) == encode_utf8(s).len() as u64
            &&& b.subrange(pos + 8, pos + 8 + encode_utf8(s).len()) == encode_utf8(s)
        }),
{
    let b = prefix + rule_string_bytes(s) + rest;
    let pos = prefix.len() as int;
    assert(b.subrange(pos, pos + 8) =~= le_bytes_of_u64(encode_utf8(s).len() as u64));
    lemma_le64_at_subrange(b, pos);
    lemma_le64_of_bytes(encode_utf8(s).len() as u64);
    assert(b.subrange(pos + 8, pos + 8 + encode_utf8(s).len() as int) =~= encode_utf8(s));
}

/// The bytes of an encoded rule, reassociated so that each field stands at
/// its own offset.
proof fn lemma_sig_bytes_split(v: SigView, rest: Seq<u8>)
    ensures
        ({
            let nb = rule_string_bytes(v.name);
            let db = rule_string_bytes(v.description);
            let tb = le_bytes_of_u32(v.kind as u32);
            let body = if v.kind == 0 {
                v.hashes[0]
            } else {
                le_bytes_of_u64(v.hashes.len() as u64) + hash_run_bytes(v.hashes)
            };
            let b = sig_bytes(v) + rest;
            &&& b == nb + (db + ((tb + body) + rest))
            &&& b == (nb + db) + ((tb + body) + rest)
            &&& b == ((nb + db) + tb) + (body + rest)
        }),
{
    reveal(sig_bytes);
    let nb = rule_string_bytes(v.name);
    let db = rule_string_bytes(v.description);
    let tb = le_bytes_of_u32(v.kind as u32);
    let body = if v.kind == 0 {
        v.hashes[0]
    } else {
        le_bytes_of_u64(v.hashes.len() as u64) + hash_run_bytes(v.hashes)
    };
    let b = sig_bytes(v) + rest;
    assert(sig_bytes(v) == ((nb + db) + tb) + body);
    vstd::seq_lib::lemma_concat_associative((nb + db) + tb, body, rest);
    vstd::seq_lib::lemma_concat_associative(nb + db, tb, body + rest);
    vstd::seq_lib::lemma_concat_associative(tb, body, rest);
    vstd::seq_lib::lemma_concat_associative(nb, db, (tb + body) + rest);
    vstd::seq_lib::lemma_concat_associative(db, tb + body, rest);
    vstd::seq_lib::lemma_concat_associative(db, tb, body);
    assert(b == ((nb + db) + tb) + (body + rest));
    assert((nb + db) + (tb + (body + rest)) == b);
    assert(tb + (body + rest) == (tb + body) + rest) by {
        vstd::seq_lib::lemma_concat_associative(tb, body, rest);
    }
    assert(b == (nb + db) + ((tb + body) + rest));
    assert(nb + (db + ((tb + body) + rest)) == (nb + db) + ((tb + body) + rest)) by {
        vstd::seq_lib::lemma_concat_associative(nb, db, (tb + body) + rest);
    }
}

/// The name and description fields of an encoded rule sit at their
/// offsets.
proof fn lemma_sig_fields_strings(v: SigView, rest: Seq<u8>)
    requires
        sig_view_wf(v),
        sig_bytes(v).len() <= u64::MAX,
    ensures
        ({
            let b = sig_bytes(v) + rest;
            let nlen = encode_utf8(v.name).len() as int;
            let dlen = encode_utf8(v.description).len() as int;
            &&& b.len() == sig_bytes(v).len() + rest.len()
            &&& le64_at(b, 0) == nlen as u64
            &&& b.subrange(8, 8 + nlen) == encode_utf8(v.name)
            &&& le64_at(b, 8 + nlen) == dlen as u64
            &&& b.subrange(8 + nlen + 8, 8 + nlen + 8 + dlen) == encode_utf8(v.description)
        }),
{
    reveal(sig_bytes);
    let nb = rule_string_bytes(v.name);
    let db = rule_string_bytes(v.description);
    let tb = le_bytes_of_u32(v.kind as u32);
    let body = if v.kind == 0 {
        v.hashes[0]
    } else {
        le_bytes_of_u64(v.hashes.len() as u64) + hash_run_bytes(v.hashes)
    };
    let b = sig_bytes(v) + rest;
    lemma_sig_bytes_split(v, rest);
    lemma_rule_string_at(v.name, Seq::empty(), db + ((tb + body) + rest));
    assert(Seq::<u8>::empty() + nb =~= nb);
    assert(Seq::<u8>::empty() + nb + (db + ((tb + body) + rest)) == b);
    lemma_rule_string_at(v.description, nb, (tb + body) + rest);
    assert(nb + db + ((tb + body) + rest) == b);
}

/// The kind tag of an encoded rule sits after the two strings.
proof fn lemma_sig_fields_tag(v: SigView, rest: Seq<u8>)
    requires
        sig_view_wf(v),
        sig_bytes(v).len() <= u64::MAX,
    ensures
        ({
            let b = sig_bytes(v) + rest;
            let p2 = 8 + encode_utf8(v.name).len() + 8 + encode_utf8(v.description).len() as int;
            &&& p2 + 4 <= b.len()
            &&& crate::wire::le32_at(b, p2) == v.kind as u32
        }),
{
    reveal(sig_bytes);
    let nb = rule_string_bytes(v.name);
    let db = rule_string_bytes(v.description);
    let tb = le_bytes_of_u32(v.kind as u32);
    let body = if v.kind == 0 {
        v.hashes[0]
    } else {
        le_bytes_of_u64(v.hashes.len() as u64) + hash_run_bytes(v.hashes)
    };
    let b = sig_bytes(v) + rest;
    lemma_sig_bytes_split(v, rest);
    let p2 = 8 + encode_utf8(v.name).len() + 8 + encode_utf8(v.description).len() as int;
    assert(b.subrange(p2, p2 + 4) =~= tb) by {
        assert(b == ((nb + db) + tb) + (body + rest));
    }
    lemma_le32_at_subrange(b, p2);
    lemma_le32_of_bytes(v.kind as u32);
}

/// The body of an encoded content rule is its bare hash.
proof fn lemma_sig_fields_sha(v: SigView, rest: Seq<u8>)
    requires
        sig_view_wf(v),
        sig_bytes(v).len() <= u64::MAX,
        v.kind == 0,
    ensures
        ({
            let b = sig_bytes(v) + rest;
            let p3 = 8 + encode_utf8(v.name).len() + 8 + encode_utf8(v.description).len() + 4 as int;
            &&& p3 + 32 == sig_bytes(v).len()
            &&& b.subrange(p3, p3 + 32) == v.hashes[0]
        }),
{
    reveal(sig_bytes);
    let nb = rule_string_bytes(v.name);
    let db = rule_string_bytes(v.description);
    let tb = le_bytes_of_u32(v.kind as u32);
    let b = sig_bytes(v) + rest;
    lemma_sig_bytes_split(v, rest);
    let p3 = 8 + encode_utf8(v.name).len() + 8 + encode_utf8(v.description).len() + 4 as int;
    assert(b.subrange(p3, p3 + 32) =~= v.hashes[0]) by {
        assert(b == ((nb + db) + tb) + (v.hashes[0] + rest));
    }
}

/// The body of an encoded multi-predicate rule is a count and the hashes at
/// their slots.
#[verifier::rlimit(100)]
proof fn lemma_sig_fields_run(v: SigView, rest: Seq<u8>)
    requires
        sig_view_wf(v),
        sig_bytes(v).len() <= u64::MAX,
        v.kind != 0,
    ensures
        ({
            let b = sig_bytes(v) + rest;
            let p3 = 8 + encode_utf8(v.name).len() + 8 + encode_utf8(v.description).len() + 4 as int;
            let count = v.hashes.len() as int;
            &&& p3 + 8 <= b.len()
            &&& le64_at(b, p3) == v.hashes.len() as u64
            &&& p3 + 8 + 32 * count == sig_bytes(v).len()
            &&& forall|i: int|
                0 <= i < count ==> #[trigger] b.subrange(p3 + 8 + 32 * i, p3 + 8 + 32 * i + 32)
                    == v.hashes[i]
        }),
{
    reveal(sig_bytes);
    let nb = rule_string_bytes(v.name);
    let db = rule_string_bytes(v.description);
    let tb = le_bytes_of_u32(v.kind as u32);
    let body = le_bytes_of_u64(v.hashes.len() as u64) + hash_run_bytes(v.hashes);
    let b = sig_bytes(v) + rest;
    lemma_sig_bytes_split(v, rest);
    lemma_hash_run_len(v.hashes);
    let p3 = 8 + encode_utf8(v.name).len() + 8 + encode_utf8(v.description).len() + 4 as int;
    let run = hash_run_bytes(v.hashes);
    assert(b.subrange(p3, p3 + 8) =~= le_bytes_of_u64(v.hashes.len() as u64)) by {
        assert(b == ((nb + db) + tb) + (body + rest));
    }
    lemma_le64_at_subrange(b, p3);
    lemma_le64_of_bytes(v.hashes.len() as u64);
    let count = v.hashes.len() as int;
    assert forall|i: int| 0 <= i < count implies #[trigger] b.subrange(
        p3 + 8 + 32 * i,
        p3 + 8 + 32 * i + 32,
    ) == v.hashes[i] by {
        lemma_hash_run_index(v.hashes, i);
        assert(b.subrange(p3 + 8 + 32 * i, p3 + 8 + 32 * i + 32) =~= run.subrange(
            32 * i,
            32 * i + 32,
        )) by {
            assert(b == ((nb + db) + tb) + (body + rest));
        }
    }
}

/// Parsing the bytes of an encoded rule, followed by anything, recovers the
/// rule and steps past its bytes.
pub proof fn lemma_signature_roundtrip(v: SigView, rest: Seq<u8>)
    requires
        sig_view_wf(v),
        sig_bytes(v).len() <= u64::MAX,
    ensures
        spec_parse_signature(sig_bytes(v) + rest) == Some((v, sig_bytes(v).len() as int)),
{
    reveal(spec_parse_signature);
    reveal(spec_parse_sig_body);
    let b = sig_bytes(v) + rest;
    let nlen = encode_utf8(v.name).len() as int;
    let dlen = encode_utf8(v.description).len() as int;
    let p2 = 8 + nlen + 8 + dlen;
    let p3 = p2 + 4;
    reveal(sig_bytes);
    lemma_sig_fields_strings(v, rest);
    vstd::utf8::encode_utf8_valid_utf8(v.name);
    vstd::utf8::encode_utf8_decode_utf8(v.name);
    vstd::utf8::encode_utf8_valid_utf8(v.description);
    vstd::utf8::encode_utf8_decode_utf8(v.description);
    lemma_sig_fields_tag(v, rest);
    if v.kind == 0 {
        lemma_sig_fields_sha(v, rest);
        assert(seq![b.subrange(p3, p3 + 32)] =~= v.hashes);
        assert(spec_parse_sig_body(b, p2, v.name, v.description) == Some((v, p3 + 32)));
    } else {
        lemma_sig_fields_run(v, rest);
        let count = v.hashes.len() as int;
        assert(Seq::new(
            count as nat,
            |i: int| b.subrange(p3 + 8 + 32 * i, p3 + 8 + 32 * i + 32),
        ) =~= v.hashes);
        assert(spec_parse_sig_body(b, p2, v.name, v.description) == Some(
            (v, p3 + 8 + 32 * count),
        ));
    }
}

/// Parses the rule at the front of a byte slice; trailing bytes stay
/// unread. Fails exactly where the bytes carry no rule.
pub fn parse_signature(bytes: &[u8]) -> (r: Result<(Signature, usize), SigSetError>)
    ensures
        r is Ok <==> spec_parse_signature(bytes@) is Some,
        r matches Ok((sig, used)) ==> spec_parse_signature(bytes@) == Some((sig@, used as int)),
        r matches Err(e) ==> e is DecodeError,
{
    proof {
        reveal(spec_parse_signature);
        reveal(spec_parse_sig_body);
    }
    let n = bytes.len();
    if n < 8 {
        return Err(SigSetError::DecodeError);
    }
    let nlen64 = read_u64_le(bytes, 0);
    if nlen64 > (n - 8) as u64 {
        return Err(SigSetError::DecodeError);
    }
    let nlen = nlen64 as usize;
    let mut nvec: Vec<u8> = Vec::new();
    nvec.extend_from_slice(vstd::slice::slice_subrange(bytes, 8, 8 + nlen));
    proof {
        assert(nvec@ =~= bytes@.subrange(8, 8 + nlen as int));
    }
    let name = match crate::strfmt::string_from_utf8(nvec) {
        Some(s) => s,
        None => {
            return Err(SigSetError::DecodeError);
        },
    };
    let p1 = 8 + nlen;
    if n - p1 < 8 {
        return Err(SigSetError::DecodeError);
    }
    let dlen64 = read_u64_le(bytes, p1);
    if dlen64 > (n - p1 - 8) as u64 {
        return Err(SigSetError::DecodeError);
    }
    let dlen = dlen64 as usize;
    let mut dvec: Vec<u8> = Vec::new();
    dvec.extend_from_slice(vstd::slice::slice_subrange(bytes, p1 + 8, p1 + 8 + dlen));
    proof {
        assert(dvec@ =~= bytes@.subrange(p1 + 8, p1 + 8 + dlen as int));
    }
    let description = match crate::strfmt::string_from_utf8(dvec) {
        Some(s) => s,
        None => {
            return Err(SigSetError::DecodeError);
        },
    };
    let p2 = p1 + 8 + dlen;
    if n - p2 < 4 {
        return Err(SigSetError::DecodeError);
    }
    let kind = read_u32_le(bytes, p2);
    let p3 = p2 + 4;
    if kind > 3 {
        return Err(SigSetError::DecodeError);
    }
    if kind == 0 {
        if n - p3 < 32 {
            return Err(SigSetError::DecodeError);
        }
        let sha = sha256_buff_from_slice(bytes, p3);
        let sig = Signature { base: SigBase { name, description }, data: SigData::Sha(sha) };
        return Ok((sig, p3 + 32));
    }
    if n - p3 < 8 {
        return Err(SigSetError::DecodeError);
    }
    let count64 = read_u64_le(bytes, p3);
    let avail = n - p3 - 8;
    if count64 > (avail / 32) as u64 {
        return Err(SigSetError::DecodeError);
    }
    let count = count64 as usize;
    let mut hashes: Vec<Sha256Buff> = Vec::new();
    let mut k: usize = 0;
    while k < count
        invariant
            k <= count,
            count as u64 == count64,
            n == bytes@.len(),
            p3 + 8 + 32 * count <= n,
            hashes@.len() == k,
            forall|i: int|
                0 <= i < k ==> (#[trigger] hashes@[i])@ == bytes@.subrange(
                    p3 + 8 + 32 * i,
                    p3 + 8 + 32 * i + 32,
                ),
        decreases count - k,
    {
        let h = sha256_buff_from_slice(bytes, p3 + 8 + 32 * k);
        hashes.push(h);
        k = k + 1;
    }
    proof {
        assert(sha_list_view(hashes@) =~= Seq::new(
            count as nat,
            |i: int| bytes@.subrange(p3 + 8 + 32 * i, p3 + 8 + 32 * i + 32),
        ));
    }
    let data = if kind == 1 {
        SigData::Imports(hashes)
    } else if kind == 2 {
        SigData::Calls(hashes)
    } else {
        SigData::Event(hashes)
    };
    Ok((Signature { base: SigBase { name, description }, data }, p3 + 8 + 32 * count))
}

} // verus!
