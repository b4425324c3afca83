//! What a scan reports and what a detection does next: verdicts, cleanup
//! actions, the per-file bookkeeping, and the event-loop decision.
use vstd::prelude::*;
use vstd::utf8::encode_utf8;

use crate::detection::DetectionReport;
use crate::event::file_create::FileCreateEvent;
use crate::event::image_load::ImageLoadEvent;
use crate::event::process_create::ProcessCreateEvent;
use crate::event::registry_set_value::RegistrySetValueEvent;
use crate::event::{
    get_event_type, FILE_CREATE_CLASS, IMAGE_LOAD_CLASS, PROCESS_CREATE_CLASS,
    REGISTRY_SET_VALUE_CLASS,
};
use crate::hasher::MemberHasher;
use crate::sig_store::{heur_slot_hit, heur_slot_report, SignatureStore};
use crate::strfmt::string_from_valid_utf8;

verus! {

/// The cleanup a match calls for: end a process or delete a file.
pub enum Cleaner {
    Process(u32),
    File(String),
}

/// A matched file's report line.
pub struct MalwareInfo {
    pub info: String,
}

impl MalwareInfo {
    pub fn new(info: String) -> (r: Self)
        ensures
            r.info@ == info@,
    {
        Self { info }
    }

    pub fn into_string(self) -> (r: String)
        ensures
            r@ == self.info@,
    {
        self.info
    }
}

/// One file's verdict.
pub enum ScanResult {
    Clean,
    Malicious(MalwareInfo, Cleaner),
}

/// What is known about a file under scan.
pub struct FileInfo {
    pub name: String,
    pub path: String,
    pub sha256: Option<String>,
}

impl FileInfo {
    pub fn new(name: String, path: String) -> (r: Self)
        ensures
            r.name@ == name@,
            r.path@ == path@,
            r.sha256 is None,
    {
        Self { name, path, sha256: None }
    }

    /// A copy with the same fields.
    pub fn duplicate(&self) -> (r: Self)
        ensures
            r.name@ == self.name@,
            r.path@ == self.path@,
    {
        Self {
            name: self.name.clone(),
            path: self.path.clone(),
            sha256: match &self.sha256 {
                Some(s) => Some(s.clone()),
                None => None,
            },
        }
    }
}

/// Which file a verdict speaks of: a file on disk, or one unpacked from
/// inside another.
pub enum FileScanInfo {
    RealFile(FileInfo),
    EmbeddedFile { original_file: FileInfo, name: String },
}

impl FileScanInfo {
    pub fn real_file(name: String, path: String) -> (r: Self)
        ensures
            r matches FileScanInfo::RealFile(f) ==> f.name@ == name@ && f.path@ == path@,
            r is RealFile,
    {
        Self::RealFile(FileInfo::new(name, path))
    }

    pub fn embedded_file(original_file: FileInfo, name: &str) -> (r: Self)
        ensures
            r matches FileScanInfo::EmbeddedFile { original_file: f, name: n } ==> n@ == name@
                && f == original_file,
            r is EmbeddedFile,
    {
        Self::EmbeddedFile { original_file, name: name.to_owned() }
    }

    /// The file whose unpacking led here.
    pub fn get_origin_file(&self) -> (r: FileInfo)
        ensures
            match self {
                FileScanInfo::RealFile(f) => r.name@ == f.name@ && r.path@ == f.path@,
                FileScanInfo::EmbeddedFile { original_file, .. } => r.name@ == original_file.name@
                    && r.path@ == original_file.path@,
            },
    {
        match self {
            FileScanInfo::RealFile(f) => f.duplicate(),
            FileScanInfo::EmbeddedFile { original_file, .. } => original_file.duplicate(),
        }
    }

    /// The name the verdict reports.
    pub fn get_name(&self) -> (r: String)
        ensures
            match self {
                FileScanInfo::RealFile(f) => r@ == f.name@,
                FileScanInfo::EmbeddedFile { name, .. } => r@ == name@,
            },
    {
        match self {
            FileScanInfo::RealFile(f) => f.name.clone(),
            FileScanInfo::EmbeddedFile { name, .. } => name.clone(),
        }
    }

    /// The on-disk path a cleaner for this file would delete.
    pub open spec fn spec_path(&self) -> Seq<char> {
        match self {
            FileScanInfo::RealFile(f) => f.path@,
            FileScanInfo::EmbeddedFile { original_file, .. } => original_file.path@,
        }
    }

    /// The on-disk path the cleaner would delete.
    pub fn get_path(&self) -> (r: String)
        ensures
            r@ == self.spec_path(),
    {
        match self {
            FileScanInfo::RealFile(f) => f.path.clone(),
            FileScanInfo::EmbeddedFile { original_file, .. } => original_file.path.clone(),
        }
    }

    /// Records a real file's content hash; an embedded file keeps none.
    pub fn set_sha(&mut self, sha: String)
        ensures
            (*old(self) is RealFile) == (*final(self) is RealFile),
            *final(self) matches FileScanInfo::RealFile(f) ==> ((*old(self)
                matches FileScanInfo::RealFile(f0) ==> (f.name@ == f0.name@ && f.path@
                == f0.path@)) && f.sha256 is Some && (f.sha256 matches Some(s) ==> s@ == sha@)),
            *old(self) is EmbeddedFile ==> *final(self) == *old(self),
    {
        match self {
            FileScanInfo::RealFile(f) => {
                f.sha256 = Some(sha);
            },
            FileScanInfo::EmbeddedFile { .. } => {},
        }
    }

    /// The verdict line for a match on this file.
    pub fn get_malware_info(&self, detection_info: DetectionReport) -> (r: MalwareInfo)
        ensures
            encode_utf8(r.info@) == spec_malware_info_bytes(self, detection_info),
    {
        let mut out: Vec<u8> = Vec::new();
        match self {
            FileScanInfo::RealFile(f) => {
                push_str_bytes(&mut out, "\"");
                push_str_bytes(&mut out, f.name.as_str());
                push_str_bytes(&mut out, "\" -> Malicious { desc: \"");
                push_str_bytes(&mut out, detection_info.desc.as_str());
                push_str_bytes(&mut out, "\", cause: ");
                push_str_bytes(&mut out, detection_info.cause.as_str());
                push_str_bytes(&mut out, " }");
            },
            FileScanInfo::EmbeddedFile { original_file, name } => {
                push_str_bytes(&mut out, "\"");
                push_str_bytes(&mut out, original_file.name.as_str());
                push_str_bytes(&mut out, "\" -> Malicious { cause: EmbeddedFile: { name: ");
                push_str_bytes(&mut out, name.as_str());
                push_str_bytes(&mut out, ", desc: \"");
                push_str_bytes(&mut out, detection_info.desc.as_str());
                push_str_bytes(&mut out, "\", cause: ");
                push_str_bytes(&mut out, detection_info.cause.as_str());
                push_str_bytes(&mut out, " } }");
            },
        }
        proof {
            assert(out@ =~= spec_malware_info_bytes(self, detection_info));
            lemma_malware_info_valid(self, detection_info);
            vstd::utf8::decode_utf8_encode_utf8(out@);
        }
        let info = string_from_valid_utf8(out);
        MalwareInfo { info }
    }
}

/// The verdict line's bytes: the file named, then the rule's description
/// and cause.
pub open spec fn spec_malware_info_bytes(info: &FileScanInfo, d: DetectionReport) -> Seq<u8> {
    match info {
        FileScanInfo::RealFile(f) => encode_utf8("\""@) + encode_utf8(f.name@) + encode_utf8(
            "\" -> Malicious { desc: \""@,
        ) + encode_utf8(d.desc@) + encode_utf8("\", cause: "@) + encode_utf8(d.cause@)
            + encode_utf8(" }"@),
        FileScanInfo::EmbeddedFile { original_file, name } => encode_utf8("\""@) + encode_utf8(
            original_file.name@,
        ) + encode_utf8("\" -> Malicious { cause: EmbeddedFile: { name: "@) + encode_utf8(name@)
            + encode_utf8(", desc: \""@) + encode_utf8(d.desc@) + encode_utf8("\", cause: "@)
            + encode_utf8(d.cause@) + encode_utf8(" } }"@),
    }
}

/// Appends a string's UTF-8 bytes.
fn push_str_bytes(out: &mut Vec<u8>, s: &str)
    ensures
        final(out)@ == old(out)@ + encode_utf8(s@),
{
    out.extend_from_slice(s.as_bytes());
}

/// The verdict line is valid UTF-8: a concatenation of encoded strings.
proof fn lemma_malware_info_valid(info: &FileScanInfo, d: DetectionReport)
    ensures
        vstd::utf8::valid_utf8(spec_malware_info_bytes(info, d)),
{
    match info {
        FileScanInfo::RealFile(f) => {
            vstd::utf8::encode_utf8_valid_utf8("\""@);
            vstd::utf8::encode_utf8_valid_utf8(f.name@);
            vstd::utf8::encode_utf8_valid_utf8("\" -> Malicious { desc: \""@);
            vstd::utf8::encode_utf8_valid_utf8(d.desc@);
            vstd::utf8::encode_utf8_valid_utf8("\", cause: "@);
            vstd::utf8::encode_utf8_valid_utf8(d.cause@);
            vstd::utf8::encode_utf8_valid_utf8(" }"@);
            lemma_concat7_valid(
                encode_utf8("\""@),
                encode_utf8(f.name@),
                encode_utf8("\" -> Malicious { desc: \""@),
                encode_utf8(d.desc@),
                encode_utf8("\", cause: "@),
                encode_utf8(d.cause@),
                encode_utf8(" }"@),
            );
        },
        FileScanInfo::EmbeddedFile { original_file, name } => {
            vstd::utf8::encode_utf8_valid_utf8("\""@);
            vstd::utf8::encode_utf8_valid_utf8(original_file.name@);
            vstd::utf8::encode_utf8_valid_utf8(
                "\" -> Malicious { cause: EmbeddedFile: { name: "@,
            );
            vstd::utf8::encode_utf8_valid_utf8(name@);
            vstd::utf8::encode_utf8_valid_utf8(", desc: \""@);
            vstd::utf8::encode_utf8_valid_utf8(d.desc@);
            vstd::utf8::encode_utf8_valid_utf8("\", cause: "@);
            lemma_concat7_valid(
                encode_utf8("\""@),
                encode_utf8(original_file.name@),
                encode_utf8("\" -> Malicious { cause: EmbeddedFile: { name: "@),
                encode_utf8(name@),
                encode_utf8(", desc: \""@),
                encode_utf8(d.desc@),
                encode_utf8("\", cause: "@),
            );
            vstd::utf8::encode_utf8_valid_utf8(d.cause@);
            vstd::utf8::encode_utf8_valid_utf8(" } }"@);
            vstd::utf8::valid_utf8_concat(
                encode_utf8("\""@) + encode_utf8(original_file.name@) + encode_utf8(
                    "\" -> Malicious { cause: EmbeddedFile: { name: "@,
                ) + encode_utf8(name@) + encode_utf8(", desc: \""@) + encode_utf8(d.desc@)
                    + encode_utf8("\", cause: "@),
                encode_utf8(d.cause@),
            );
            vstd::utf8::valid_utf8_concat(
                encode_utf8("\""@) + encode_utf8(original_file.name@) + encode_utf8(
                    "\" -> Malicious { cause: EmbeddedFile: { name: "@,
                ) + encode_utf8(name@) + encode_utf8(", desc: \""@) + encode_utf8(d.desc@)
                    + encode_utf8("\", cause: "@) + encode_utf8(d.cause@),
                encode_utf8(" } }"@),
            );
        },
    }
}

/// Seven encoded strings concatenate to valid UTF-8.
proof fn lemma_concat7_valid(
    a: Seq<u8>,
    b: Seq<u8>,
    c: Seq<u8>,
    d: Seq<u8>,
    e: Seq<u8>,
    f: Seq<u8>,
    g: Seq<u8>,
)
    requires
        vstd::utf8::valid_utf8(a),
        vstd::utf8::valid_utf8(b),
        vstd::utf8::valid_utf8(c),
        vstd::utf8::valid_utf8(d),
        vstd::utf8::valid_utf8(e),
        vstd::utf8::valid_utf8(f),
        vstd::utf8::valid_utf8(g),
    ensures
        vstd::utf8::valid_utf8(a + b + c + d + e + f + g),
{
    vstd::utf8::valid_utf8_concat(a, b);
    vstd::utf8::valid_utf8_concat(a + b, c);
    vstd::utf8::valid_utf8_concat(a + b + c, d);
    vstd::utf8::valid_utf8_concat(a + b + c + d, e);
    vstd::utf8::valid_utf8_concat(a + b + c + d + e, f);
    vstd::utf8::valid_utf8_concat(a + b + c + d + e + f, g);
}

/// What a finished scan hands back: which files were clean, which fired.
pub struct ScanReport {
    pub clean: Vec<String>,
    pub malicious: Vec<String>,
}

impl ScanReport {
    pub fn new() -> (r: Self)
        ensures
            r.clean@.len() == 0,
            r.malicious@.len() == 0,
    {
        Self { clean: Vec::new(), malicious: Vec::new() }
    }

    pub fn push_clean(&mut self, c: String)
        ensures
            final(self).clean@ == old(self).clean@.push(c),
            final(self).malicious@ == old(self).malicious@,
    {
        self.clean.push(c)
    }

    pub fn push_malicious(&mut self, m: String)
        ensures
            final(self).malicious@ == old(self).malicious@.push(m),
            final(self).clean@ == old(self).clean@,
    {
        self.malicious.push(m)
    }
}

/// One turn of the embedded-file drain: evaluate the next file popped
/// from the unpacking queue, or stop.
pub enum ScanStep {
    /// The scan of this submission is decided.
    Verdict(ScanResult),
    /// This file is clean and under the cap: unpack it and go on.
    Continue,
}

/// The largest number of embedded files one submission may drain.
pub const MAX_EMBEDDED_FILES: u32 = 0x100;

/// Decides one drained file of a submission: past the cap everything
/// counts as clean; a file-set hit ends the scan naming this file and its
/// deletable path; a clean file under the cap is handed back for
/// unpacking.
pub fn embedded_scan_step(
    store: &SignatureStore,
    bytes: &[u8],
    info: &FileScanInfo,
    scanned: u32,
) -> (r: ScanStep)
    requires
        store.wf(),
    ensures
        scanned >= MAX_EMBEDDED_FILES ==> (r matches ScanStep::Verdict(v) && v is Clean),
        ((r matches ScanStep::Verdict(v) && v is Malicious) <==> (scanned < MAX_EMBEDDED_FILES
            && (store.sha_hit(bytes@) || store.import_hit(bytes@)))),
        (r is Continue <==> scanned < MAX_EMBEDDED_FILES && !(store.sha_hit(bytes@)
            || store.import_hit(bytes@))),
        r matches ScanStep::Verdict(v) ==> (v matches ScanResult::Malicious(m, c) ==> ((exists|
            rep: DetectionReport,
        |
            #[trigger] store.file_verdict_report(bytes@, rep) && encode_utf8(m.info@)
                == spec_malware_info_bytes(info, rep)) && (c matches Cleaner::File(p) && p@
            == info.spec_path()))),
{
    if scanned >= MAX_EMBEDDED_FILES {
        return ScanStep::Verdict(ScanResult::Clean);
    }
    match store.eval_file_bytes(bytes) {
        Ok(Some(rep)) => {
            proof {
                assert(store.file_verdict_report(bytes@, rep));
            }
            let malware = info.get_malware_info(rep);
            let cleaner = Cleaner::File(info.get_path());
            ScanStep::Verdict(ScanResult::Malicious(malware, cleaner))
        },
        Ok(None) => ScanStep::Continue,
        Err(_) => {
            proof {
                assert(false);
            }
            ScanStep::Verdict(ScanResult::Clean)
        },
    }
}

/// Why an event could not be handled.
#[derive(Debug, Clone, Copy, PartialEq, Eq, Structural)]
pub enum ScanError {
    /// The kernel sent a class this library does not know.
    UnknownEvent,
    /// The event payload is cut short.
    TruncatedEvent,
}

/// What the event loop does with one decoded event.
pub enum EventDecision {
    /// A file-creation event: hand the named file to the scanner.
    SubmitFile(FileCreateEvent),
    /// A behavioural event that fired no rule.
    Clean,
    /// A behavioural event that fired a rule: report, and end the process.
    Malicious(DetectionReport, Cleaner),
}

/// Decides one kernel event frame: a file-creation event is handed on for
/// scanning; a process, image or registry event is hashed and held against
/// the behavioural set, a match naming the process to end; an unknown
/// class is refused.
pub fn decide_event(store: &SignatureStore, event_buff: &[u8]) -> (r: Result<
    EventDecision,
    ScanError,
>)
    requires
        store.wf(),
    ensures
        event_buff@.len() >= 4 && !known_event_class(crate::wire::le32_at(event_buff@, 0))
            ==> r is Err,
        r matches Err(e) ==> (e is UnknownEvent <==> event_buff@.len() >= 4 && !known_event_class(
            crate::wire::le32_at(event_buff@, 0),
        )),
        r matches Ok(d) ==> event_buff@.len() >= 4 && {
            let class = crate::wire::le32_at(event_buff@, 0);
            &&& (d is SubmitFile <==> class == FILE_CREATE_CLASS)
            &&& (d matches EventDecision::Malicious(rep, c) ==> heur_slot_report(
                store.behavioural_set,
                event_obs(class, event_buff@.skip(4)),
                rep,
            ) && c is Process)
            &&& (class != FILE_CREATE_CLASS ==> ((d is Malicious) <==> heur_slot_hit(
                store.behavioural_set,
                event_obs(class, event_buff@.skip(4)),
            )))
        },
{
    if event_buff.len() < 4 {
        return Err(ScanError::TruncatedEvent);
    }
    let class = get_event_type(event_buff);
    if class == FILE_CREATE_CLASS {
        match FileCreateEvent::deserialize(event_buff) {
            Ok(ev) => Ok(EventDecision::SubmitFile(ev)),
            Err(_) => Err(ScanError::TruncatedEvent),
        }
    } else if class == PROCESS_CREATE_CLASS {
        let ev = match ProcessCreateEvent::deserialize(event_buff) {
            Ok(ev) => ev,
            Err(_) => {
                return Err(ScanError::TruncatedEvent);
            },
        };
        let pid = ev.get_pid();
        let hashes = ev.hash_members();
        match store.eval_vec(hashes) {
            Ok(Some(rep)) => Ok(EventDecision::Malicious(rep, Cleaner::Process(pid))),
            Ok(None) => Ok(EventDecision::Clean),
            Err(_) => Err(ScanError::TruncatedEvent),
        }
    } else if class == IMAGE_LOAD_CLASS {
        let ev = match ImageLoadEvent::deserialize(event_buff) {
            Ok(ev) => ev,
            Err(_) => {
                return Err(ScanError::TruncatedEvent);
            },
        };
        let pid = ev.get_pid();
        let hashes = ev.hash_members();
        match store.eval_vec(hashes) {
            Ok(Some(rep)) => Ok(EventDecision::Malicious(rep, Cleaner::Process(pid))),
            Ok(None) => Ok(EventDecision::Clean),
            Err(_) => Err(ScanError::TruncatedEvent),
        }
    } else if class == REGISTRY_SET_VALUE_CLASS {
        let ev = match RegistrySetValueEvent::deserialize(event_buff) {
            Ok(ev) => ev,
            Err(_) => {
                return Err(ScanError::TruncatedEvent);
            },
        };
        let pid = ev.get_pid();
        let hashes = ev.hash_members();
        match store.eval_vec(hashes) {
            Ok(Some(rep)) => Ok(EventDecision::Malicious(rep, Cleaner::Process(pid))),
            Ok(None) => Ok(EventDecision::Clean),
            Err(_) => Err(ScanError::TruncatedEvent),
        }
    } else {
        Err(ScanError::UnknownEvent)
    }
}

/// True of the four event classes this library decodes.
pub open spec fn known_event_class(class: u32) -> bool {
    class == FILE_CREATE_CLASS || class == PROCESS_CREATE_CLASS || class == IMAGE_LOAD_CLASS
        || class == REGISTRY_SET_VALUE_CLASS
}

/// The behavioural observation an event payload yields: the attribute
/// hashes of the decoded event, or none where it does not decode.
pub open spec fn event_obs(class: u32, payload: Seq<u8>) -> Seq<Seq<u8>> {
    if class == PROCESS_CREATE_CLASS {
        match crate::event::process_create::process_create_decode(payload) {
            Some(v) => crate::event::process_create::process_create_hashes(v.0, v.1, v.2),
            None => Seq::empty(),
        }
    } else if class == IMAGE_LOAD_CLASS {
        match crate::event::image_load::image_load_decode(payload) {
            Some(v) => crate::event::image_load::image_load_hashes(v.0, v.1),
            None => Seq::empty(),
        }
    } else if class == REGISTRY_SET_VALUE_CLASS {
        match crate::event::registry_set_value::registry_decode(payload) {
            Some(v) => crate::event::registry_set_value::registry_hashes(
                v.0,
                v.1,
                v.2,
                v.3,
                v.4,
                v.5,
            ),
            None => Seq::empty(),
        }
    } else {
        Seq::empty()
    }
}

} // verus!
