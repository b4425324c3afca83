//! What a match reports: the rule's name and description, and a line naming
//! the evidence.
use vstd::prelude::*;
use vstd::utf8::{decode_utf8, encode_utf8};

use crate::sig_set::signature::{SigView, Signature};
use crate::strfmt::{
    dec_bytes, hex_upper, hex_upper_bytes, lemma_ascii_bytes_valid_utf8, lemma_dec_bytes_ascii,
    push_dec_usize, string_from_valid_utf8,
};

verus! {

/// A match, reported: which rule fired and why.
pub struct DetectionReport {
    pub name: String,
    pub desc: String,
    pub cause: String,
}

impl View for DetectionReport {
    type V = (Seq<char>, Seq<char>, Seq<char>);

    open spec fn view(&self) -> (Seq<char>, Seq<char>, Seq<char>) {
        (self.name@, self.desc@, self.cause@)
    }
}

/// The cause line of a report, as UTF-8 bytes, by rule kind.
pub open spec fn report_cause_bytes(kind: int, hashes: Seq<Seq<u8>>) -> Seq<u8>
    recommends
        0 <= kind <= 3,
        kind == 0 ==> hashes.len() == 1,
{
    if kind == 0 {
        encode_utf8("Found sha: '"@) + hex_upper_bytes(hashes[0]) + encode_utf8("'"@)
    } else if kind == 1 {
        encode_utf8("Found "@) + dec_bytes(hashes.len()) + encode_utf8(" suspicious imports"@)
    } else if kind == 2 {
        encode_utf8("Found "@) + dec_bytes(hashes.len()) + encode_utf8(" suspicious calls"@)
    } else {
        encode_utf8("Matched event with "@) + dec_bytes(hashes.len()) + encode_utf8(" attributes"@)
    }
}

/// Builds the report a matched rule yields: its name, its description, and
/// a cause line naming the evidence.
pub fn report_from_signature(sig: Signature) -> (r: DetectionReport)
    ensures
        r.name@ == sig@.name,
        r.desc@ == sig@.description,
        encode_utf8(r.cause@) == report_cause_bytes(sig@.kind, sig@.hashes),
{
    let mut cause_bytes: Vec<u8> = Vec::new();
    match &sig.data {
        crate::sig_set::signature::SigData::Sha(sha) => {
            let head = "Found sha: '";
            cause_bytes.extend_from_slice(head.as_bytes());
            let hex = hex_upper(sha.as_slice());
            cause_bytes.extend_from_slice(hex.as_slice());
            let tail = "'";
            cause_bytes.extend_from_slice(tail.as_bytes());
            proof {
                assert(cause_bytes@ =~= report_cause_bytes(sig@.kind, sig@.hashes));
            }
        },
        crate::sig_set::signature::SigData::Imports(v) => {
            let head = "Found ";
            cause_bytes.extend_from_slice(head.as_bytes());
            push_dec_usize(&mut cause_bytes, v.len());
            let tail = " suspicious imports";
            cause_bytes.extend_from_slice(tail.as_bytes());
            proof {
                assert(cause_bytes@ =~= report_cause_bytes(sig@.kind, sig@.hashes));
            }
        },
        crate::sig_set::signature::SigData::Calls(v) => {
            let head = "Found ";
            cause_bytes.extend_from_slice(head.as_bytes());
            push_dec_usize(&mut cause_bytes, v.len());
            let tail = " suspicious calls";
            cause_bytes.extend_from_slice(tail.as_bytes());
            proof {
                assert(cause_bytes@ =~= report_cause_bytes(sig@.kind, sig@.hashes));
            }
        },
        crate::sig_set::signature::SigData::Event(v) => {
            let head = "Matched event with ";
            cause_bytes.extend_from_slice(head.as_bytes());
            push_dec_usize(&mut cause_bytes, v.len());
            let tail = " attributes";
            cause_bytes.extend_from_slice(tail.as_bytes());
            proof {
                assert(cause_bytes@ =~= report_cause_bytes(sig@.kind, sig@.hashes));
            }
        },
    }
    proof {
        lemma_report_cause_valid(sig@.kind, sig@.hashes);
        vstd::utf8::decode_utf8_encode_utf8(cause_bytes@);
    }
    let cause = string_from_valid_utf8(cause_bytes);
    let Signature { base, data: _ } = sig;
    DetectionReport { name: base.name, desc: base.description, cause }
}

/// The cause line is always valid UTF-8.
proof fn lemma_report_cause_valid(kind: int, hashes: Seq<Seq<u8>>)
    ensures
        vstd::utf8::valid_utf8(report_cause_bytes(kind, hashes)),
{
    lemma_dec_bytes_ascii(hashes.len());
    lemma_ascii_bytes_valid_utf8(dec_bytes(hashes.len()));
    let num = dec_bytes(hashes.len());
    if kind == 0 {
        let a = encode_utf8("Found sha: '"@);
        let b = hex_upper_bytes(hashes[0]);
        let c = encode_utf8("'"@);
        vstd::utf8::encode_utf8_valid_utf8("Found sha: '"@);
        vstd::utf8::encode_utf8_valid_utf8("'"@);
        assert(forall|i: int| 0 <= i < b.len() ==> b[i] < 0x80);
        lemma_ascii_bytes_valid_utf8(b);
        vstd::utf8::valid_utf8_concat(a, b);
        vstd::utf8::valid_utf8_concat(a + b, c);
    } else if kind == 1 {
        vstd::utf8::encode_utf8_valid_utf8("Found "@);
        vstd::utf8::encode_utf8_valid_utf8(" suspicious imports"@);
        vstd::utf8::valid_utf8_concat(encode_utf8("Found "@), num);
        vstd::utf8::valid_utf8_concat(
            encode_utf8("Found "@) + num,
            encode_utf8(" suspicious imports"@),
        );
    } else if kind == 2 {
        vstd::utf8::encode_utf8_valid_utf8("Found "@);
        vstd::utf8::encode_utf8_valid_utf8(" suspicious calls"@);
        vstd::utf8::valid_utf8_concat(encode_utf8("Found "@), num);
        vstd::utf8::valid_utf8_concat(
            encode_utf8("Found "@) + num,
            encode_utf8(" suspicious calls"@),
        );
    } else {
        vstd::utf8::encode_utf8_valid_utf8("Matched event with "@);
        vstd::utf8::encode_utf8_valid_utf8(" attributes"@);
        vstd::utf8::valid_utf8_concat(encode_utf8("Matched event with "@), num);
        vstd::utf8::valid_utf8_concat(
            encode_utf8("Matched event with "@) + num,
            encode_utf8(" attributes"@),
        );
    }
}

} // verus!
