//! The rule-file text format: a small mapping of `name`, `description`,
//! and exactly one body among `sha256`, `imports`, `calls` and `event`,
//! with indentation for the event block and `- ` items for name lists.
//! The grammar is stated as specification functions over the characters;
//! the parser is proved to compute exactly that reading.
use vstd::prelude::*;
use vstd::string::StrSliceExecFns;

use crate::sig_set::signature::{
    EventData, EventDataV, SigBase, YamlFileCreateEvent, YamlFileCreateV, YamlImageLoadEvent,
    YamlImageLoadV, YamlProcessCreateEvent, YamlProcessCreateV, YamlRegistrySetValueEvent,
    YamlRegistryV, YamlSigData, YamlSigDataV, YamlSignature, YamlSigV,
};
use crate::sig_set::SigSetError;

verus! {

/// One line of the text: its character range, its indent, and whether it
/// carries anything.
pub struct Line {
    pub start: usize,
    pub end: usize,
    pub indent: usize,
    pub blank: bool,
}

/// The mathematical content of one line.
pub struct LineV {
    pub start: int,
    pub end: int,
    pub indent: int,
    pub blank: bool,
}

impl View for Line {
    type V = LineV;

    open spec fn view(&self) -> LineV {
        LineV {
            start: self.start as int,
            end: self.end as int,
            indent: self.indent as int,
            blank: self.blank,
        }
    }
}

/// How many spaces open the range.
pub open spec fn spec_indent(chars: Seq<char>, p: int, end: int) -> int
    decreases end - p,
{
    if p < end && p < chars.len() && chars[p] == ' ' {
        1 + spec_indent(chars, p + 1, end)
    } else {
        0
    }
}

/// The line over a raw range: a trailing carriage return dropped, the
/// indent measured, blank when nothing but spaces or a comment follows.
pub open spec fn spec_make_line(chars: Seq<char>, start: int, raw_end: int) -> LineV {
    let end = if raw_end > start && chars[raw_end - 1] == '\r' {
        raw_end - 1
    } else {
        raw_end
    };
    let indent = spec_indent(chars, start, end);
    let blank = start + indent == end || chars[start + indent] == '#';
    LineV { start, end, indent, blank }
}

/// The lines of the text from position `i`, the current line open since
/// `start`.
pub open spec fn spec_lines(chars: Seq<char>, start: int, i: int) -> Seq<LineV>
    decreases chars.len() - i,
{
    if i >= chars.len() {
        seq![spec_make_line(chars, start, chars.len() as int)]
    } else if chars[i] == '\n' {
        seq![spec_make_line(chars, start, i)] + spec_lines(chars, i + 1, i + 1)
    } else {
        spec_lines(chars, start, i + 1)
    }
}

/// The first position at or after `a` past the leading spaces of the
/// range.
pub open spec fn spec_trim_lo(chars: Seq<char>, a: int, b: int) -> int
    decreases b - a,
{
    if a < b && a < chars.len() && chars[a] == ' ' {
        spec_trim_lo(chars, a + 1, b)
    } else {
        a
    }
}

/// The position before the trailing spaces of the range, not below `lo`.
pub open spec fn spec_trim_hi(chars: Seq<char>, lo: int, b: int) -> int
    decreases b - lo,
{
    if lo < b && b - 1 < chars.len() && chars[b - 1] == ' ' {
        spec_trim_hi(chars, lo, b - 1)
    } else {
        b
    }
}

/// The range with spaces stripped from both ends.
pub open spec fn spec_trim(chars: Seq<char>, a: int, b: int) -> (int, int) {
    let lo = spec_trim_lo(chars, a, b);
    (lo, spec_trim_hi(chars, lo, b))
}

/// The first colon of the range, where one stands.
pub open spec fn spec_find_colon(chars: Seq<char>, a: int, b: int) -> Option<int>
    decreases b - a,
{
    if a >= b || a >= chars.len() {
        None
    } else if chars[a] == ':' {
        Some(a)
    } else {
        spec_find_colon(chars, a + 1, b)
    }
}

/// The number the digits of the range denote with `acc` carried in;
/// nothing on a non-digit or past thirty-two bits.
pub open spec fn spec_parse_u32_acc(chars: Seq<char>, k: int, b: int, acc: u32) -> Option<u32>
    decreases b - k,
{
    if k >= b {
        Some(acc)
    } else if !(k < chars.len() && '0' <= chars[k] && chars[k] <= '9') {
        None
    } else {
        let d = (chars[k] as u32 - 48) as u32;
        if acc > 0xFFFF_FFFFu32 / 10 || (acc == 0xFFFF_FFFFu32 / 10 && d > 0xFFFF_FFFFu32 % 10) {
            None
        } else {
            spec_parse_u32_acc(chars, k + 1, b, (10 * acc + d) as u32)
        }
    }
}

/// The number the range denotes; nothing for an empty range, a non-digit,
/// or a value past thirty-two bits.
pub open spec fn spec_parse_u32(chars: Seq<char>, a: int, b: int) -> Option<u32> {
    if a >= b {
        None
    } else {
        spec_parse_u32_acc(chars, a, b, 0)
    }
}

/// The first line at or after `li` that carries anything.
pub open spec fn spec_skip_blanks(lines: Seq<LineV>, li: int) -> int
    decreases lines.len() - li,
{
    if li < 0 || li >= lines.len() {
        li
    } else if lines[li].blank {
        spec_skip_blanks(lines, li + 1)
    } else {
        li
    }
}

/// One attribute line applied to the event being read: the key must fit
/// the event's kind; numbers must parse. Anything else refuses the rule.
pub open spec fn spec_apply_attr(
    ev: EventDataV,
    key: Seq<char>,
    chars: Seq<char>,
    wa: int,
    wb: int,
) -> Option<EventDataV> {
    let value = chars.subrange(wa, wb);
    let number = spec_parse_u32(chars, wa, wb);
    match ev {
        EventDataV::ProcessCreate(y) => {
            if key == "pid"@ {
                match number {
                    Some(n) => Some(EventDataV::ProcessCreate(YamlProcessCreateV { pid: Some(n), ..y })),
                    None => None,
                }
            } else if key == "parent_id"@ {
                match number {
                    Some(n) => Some(
                        EventDataV::ProcessCreate(YamlProcessCreateV { parent_id: Some(n), ..y }),
                    ),
                    None => None,
                }
            } else if key == "path"@ {
                Some(EventDataV::ProcessCreate(YamlProcessCreateV { path: Some(value), ..y }))
            } else {
                None
            }
        },
        EventDataV::FileCreate(y) => {
            if key == "path"@ {
                Some(EventDataV::FileCreate(YamlFileCreateV { path: Some(value) }))
            } else {
                None
            }
        },
        EventDataV::ImageLoad(y) => {
            if key == "pid"@ {
                match number {
                    Some(n) => Some(EventDataV::ImageLoad(YamlImageLoadV { pid: Some(n), ..y })),
                    None => None,
                }
            } else if key == "image_path"@ {
                Some(EventDataV::ImageLoad(YamlImageLoadV { image_path: Some(value), ..y }))
            } else {
                None
            }
        },
        EventDataV::RegSetValue(y) => {
            if key == "pid"@ {
                match number {
                    Some(n) => Some(EventDataV::RegSetValue(YamlRegistryV { pid: Some(n), ..y })),
                    None => None,
                }
            } else if key == "tid"@ {
                match number {
                    Some(n) => Some(EventDataV::RegSetValue(YamlRegistryV { tid: Some(n), ..y })),
                    None => None,
                }
            } else if key == "data_type"@ {
                match number {
                    Some(n) => Some(
                        EventDataV::RegSetValue(YamlRegistryV { data_type: Some(n), ..y }),
                    ),
                    None => None,
                }
            } else if key == "key_name"@ {
                Some(EventDataV::RegSetValue(YamlRegistryV { key_name: Some(value), ..y }))
            } else if key == "value_name"@ {
                Some(EventDataV::RegSetValue(YamlRegistryV { value_name: Some(value), ..y }))
            } else if key == "data"@ {
                Some(EventDataV::RegSetValue(YamlRegistryV { data: Some(value), ..y }))
            } else {
                None
            }
        },
    }
}

/// The attribute lines of an event block from `li` on: every line indented
/// past the kind line names one attribute; the block ends at the first
/// line that is not.
pub open spec fn spec_parse_attrs(
    chars: Seq<char>,
    lines: Seq<LineV>,
    li: int,
    kind_indent: int,
    ev: EventDataV,
) -> Option<(EventDataV, int)>
    decreases lines.len() - li,
{
    if li < 0 || li >= lines.len() {
        Some((ev, li))
    } else if lines[li].blank {
        spec_parse_attrs(chars, lines, li + 1, kind_indent, ev)
    } else if lines[li].indent <= kind_indent {
        Some((ev, li))
    } else {
        match spec_find_colon(chars, lines[li].start, lines[li].end) {
            None => None,
            Some(colon) => {
                let k = spec_trim(chars, lines[li].start, colon);
                let w = spec_trim(chars, colon + 1, lines[li].end);
                match spec_apply_attr(ev, chars.subrange(k.0, k.1), chars, w.0, w.1) {
                    None => None,
                    Some(ev2) => spec_parse_attrs(chars, lines, li + 1, kind_indent, ev2),
                }
            },
        }
    }
}

/// The empty event of the kind a name denotes.
pub open spec fn spec_event_kind(key: Seq<char>) -> Option<EventDataV> {
    if key == "ProcessCreate"@ {
        Some(
            EventDataV::ProcessCreate(
                YamlProcessCreateV { pid: None, parent_id: None, path: None },
            ),
        )
    } else if key == "FileCreate"@ {
        Some(EventDataV::FileCreate(YamlFileCreateV { path: None }))
    } else if key == "ImageLoad"@ {
        Some(EventDataV::ImageLoad(YamlImageLoadV { pid: None, image_path: None }))
    } else if key == "RegSetValue"@ {
        Some(
            EventDataV::RegSetValue(
                YamlRegistryV {
                    pid: None,
                    tid: None,
                    key_name: None,
                    value_name: None,
                    data_type: None,
                    data: None,
                },
            ),
        )
    } else {
        None
    }
}

/// The event block after an `event:` line: one indented line naming a
/// known kind and carrying no value, then its attributes.
pub open spec fn spec_parse_event_block(chars: Seq<char>, lines: Seq<LineV>, from: int) -> Option<
    (EventDataV, int),
> {
    let li = spec_skip_blanks(lines, from);
    if li >= lines.len() || lines[li].indent == 0 {
        None
    } else {
        match spec_find_colon(chars, lines[li].start, lines[li].end) {
            None => None,
            Some(colon) => {
                let k = spec_trim(chars, lines[li].start, colon);
                let v = spec_trim(chars, colon + 1, lines[li].end);
                if v.0 != v.1 {
                    None
                } else {
                    match spec_event_kind(chars.subrange(k.0, k.1)) {
                        None => None,
                        Some(ev0) => spec_parse_attrs(chars, lines, li + 1, lines[li].indent, ev0),
                    }
                }
            },
        }
    }
}

/// The list items after an `imports:` or `calls:` line: every indented
/// line must read `- ` and an item; the list ends at the first top-level
/// line.
pub open spec fn spec_parse_items(
    chars: Seq<char>,
    lines: Seq<LineV>,
    li: int,
    acc: Seq<Seq<char>>,
) -> Option<(Seq<Seq<char>>, int)>
    decreases lines.len() - li,
{
    if li < 0 || li >= lines.len() {
        Some((acc, li))
    } else if lines[li].blank {
        spec_parse_items(chars, lines, li + 1, acc)
    } else if lines[li].indent == 0 {
        Some((acc, li))
    } else {
        let c0 = lines[li].start + lines[li].indent;
        if !(lines[li].end - c0 >= 2 && c0 < chars.len() && chars[c0] == '-' && c0 + 1
            < chars.len() && chars[c0 + 1] == ' ') {
            None
        } else {
            let it = spec_trim(chars, c0 + 2, lines[li].end);
            spec_parse_items(chars, lines, li + 1, acc.push(chars.subrange(it.0, it.1)))
        }
    }
}

/// The whole rule a text denotes, read line by line: `name` and
/// `description` must appear, with exactly one body among `sha256`, a
/// non-empty-valued line, `imports`/`calls` lists and an `event` block.
pub open spec fn spec_parse_top(
    chars: Seq<char>,
    lines: Seq<LineV>,
    li: int,
    name: Option<Seq<char>>,
    description: Option<Seq<char>>,
    data: Option<YamlSigDataV>,
) -> Option<YamlSigV>
    decreases lines.len() - li,
{
    if li < 0 || li >= lines.len() {
        match name {
            Some(n) => match description {
                Some(d) => match data {
                    Some(dd) => Some(YamlSigV { name: n, description: d, data: dd }),
                    None => None,
                },
                None => None,
            },
            None => None,
        }
    } else if lines[li].blank {
        spec_parse_top(chars, lines, li + 1, name, description, data)
    } else if lines[li].indent != 0 {
        None
    } else {
        match spec_find_colon(chars, lines[li].start, lines[li].end) {
            None => None,
            Some(colon) => {
                let k = spec_trim(chars, lines[li].start, colon);
                let v = spec_trim(chars, colon + 1, lines[li].end);
                let key = chars.subrange(k.0, k.1);
                let value = chars.subrange(v.0, v.1);
                if key == "name"@ {
                    spec_parse_top(chars, lines, li + 1, Some(value), description, data)
                } else if key == "description"@ {
                    spec_parse_top(chars, lines, li + 1, name, Some(value), data)
                } else if key == "sha256"@ {
                    if data is Some || v.0 == v.1 {
                        None
                    } else {
                        spec_parse_top(
                            chars,
                            lines,
                            li + 1,
                            name,
                            description,
                            Some(YamlSigDataV::Sha(value)),
                        )
                    }
                } else if key == "imports"@ || key == "calls"@ {
                    if data is Some || v.0 != v.1 {
                        None
                    } else {
                        match spec_parse_items(chars, lines, li + 1, Seq::empty()) {
                            None => None,
                            Some(pair) => {
                                let next = if pair.1 > li && pair.1 <= lines.len() {
                                    pair.1
                                } else {
                                    li + 1
                                };
                                spec_parse_top(
                                    chars,
                                    lines,
                                    next,
                                    name,
                                    description,
                                    Some(
                                        if key == "imports"@ {
                                            YamlSigDataV::Imports(pair.0)
                                        } else {
                                            YamlSigDataV::Calls(pair.0)
                                        },
                                    ),
                                )
                            },
                        }
                    }
                } else if key == "event"@ {
                    if data is Some || v.0 != v.1 {
                        None
                    } else {
                        match spec_parse_event_block(chars, lines, li + 1) {
                            None => None,
                            Some(pair) => {
                                let next = if pair.1 > li && pair.1 <= lines.len() {
                                    pair.1
                                } else {
                                    li + 1
                                };
                                spec_parse_top(
                                    chars,
                                    lines,
                                    next,
                                    name,
                                    description,
                                    Some(YamlSigDataV::Event(pair.0)),
                                )
                            },
                        }
                    }
                } else {
                    None
                }
            },
        }
    }
}

/// The rule a whole text denotes, where it denotes one.
pub open spec fn spec_parse_rule_text(t: Seq<char>) -> Option<YamlSigV> {
    spec_parse_top(t, spec_lines(t, 0, 0), 0, None, None, None)
}

/// Splits text into lines at newlines; each line's record is the one the
/// grammar assigns it.
pub fn split_lines(chars: &Vec<char>) -> (r: Vec<Line>)
    ensures
        r@.map_values(|l: Line| l@) == spec_lines(chars@, 0, 0),
        forall|i: int| 0 <= i < r@.len() ==> {
            &&& (#[trigger] r@[i]).start <= r@[i].end <= chars@.len()
            &&& r@[i].start + r@[i].indent <= r@[i].end
        },
{
    let mut lines: Vec<Line> = Vec::new();
    let n = chars.len();
    let mut start: usize = 0;
    let mut i: usize = 0;
    while i < n
        invariant
            start <= i <= n,
            n == chars@.len(),
            lines@.map_values(|l: Line| l@) + spec_lines(chars@, start as int, i as int)
                == spec_lines(chars@, 0, 0),
            forall|k: int| 0 <= k < lines@.len() ==> {
                &&& (#[trigger] lines@[k]).start <= lines@[k].end <= chars@.len()
                &&& lines@[k].start + lines@[k].indent <= lines@[k].end
            },
        decreases n - i,
    {
        if chars[i] == '\n' {
            let line = make_line(chars, start, i);
            let ghost prev = lines@.map_values(|l: Line| l@);
            lines.push(line);
            proof {
                assert(lines@.map_values(|l: Line| l@) =~= prev.push(line@));
                assert(prev.push(line@) + spec_lines(chars@, i + 1, i + 1) =~= prev + (seq![
                    spec_make_line(chars@, start as int, i as int),
                ] + spec_lines(chars@, i + 1, i + 1)));
            }
            start = i + 1;
        }
        i = i + 1;
    }
    let line = make_line(chars, start, n);
    let ghost prev = lines@.map_values(|l: Line| l@);
    lines.push(line);
    proof {
        assert(lines@.map_values(|l: Line| l@) =~= prev.push(line@));
        assert(prev.push(line@) =~= prev + seq![spec_make_line(chars@, start as int, n as int)]);
    }
    lines
}

/// Builds one line record over a raw range.
fn make_line(chars: &Vec<char>, start: usize, raw_end: usize) -> (r: Line)
    requires
        start <= raw_end <= chars@.len(),
    ensures
        r@ == spec_make_line(chars@, start as int, raw_end as int),
        r.start == start,
        r.start <= r.end <= chars@.len(),
        r.start + r.indent <= r.end,
{
    let mut end = raw_end;
    if end > start && chars[end - 1] == '\r' {
        end = end - 1;
    }
    let mut indent: usize = 0;
    while start + indent < end && chars[start + indent] == ' '
        invariant
            start + indent <= end <= chars@.len(),
            spec_indent(chars@, start as int, end as int) == indent + spec_indent(
                chars@,
                start + indent,
                end as int,
            ),
        decreases end - start - indent,
    {
        indent = indent + 1;
    }
    let blank = start + indent == end || chars[start + indent] == '#';
    Line { start, end, indent, blank }
}

/// True when the characters of the range equal the literal.
fn range_is(chars: &Vec<char>, a: usize, b: usize, lit: &str) -> (r: bool)
    requires
        a <= b <= chars@.len(),
    ensures
        r == (chars@.subrange(a as int, b as int) == lit@),
{
    let lit_len = lit.unicode_len();
    if b - a != lit_len {
        proof {
            assert(chars@.subrange(a as int, b as int).len() == b - a);
        }
        return false;
    }
    let mut k: usize = 0;
    while k < lit_len
        invariant
            k <= lit_len,
            lit_len == lit@.len(),
            a + lit_len <= b <= chars@.len(),
            b - a == lit_len,
            forall|j: int| 0 <= j < k ==> chars@[a + j] == lit@[j],
        decreases lit_len - k,
    {
        if chars[a + k] != lit.get_char(k) {
            proof {
                assert(chars@.subrange(a as int, b as int)[k as int] == chars@[a + k]);
            }
            return false;
        }
        k = k + 1;
    }
    proof {
        assert(chars@.subrange(a as int, b as int) =~= lit@);
    }
    true
}

/// The range with spaces stripped from both ends.
fn trim_range(chars: &Vec<char>, a: usize, b: usize) -> (r: (usize, usize))
    requires
        a <= b <= chars@.len(),
    ensures
        a <= r.0 <= r.1 <= b,
        (r.0 as int, r.1 as int) == spec_trim(chars@, a as int, b as int),
{
    let mut lo = a;
    let mut hi = b;
    while lo < hi && chars[lo] == ' '
        invariant
            a <= lo <= hi <= b <= chars@.len(),
            hi == b,
            spec_trim_lo(chars@, a as int, b as int) == spec_trim_lo(chars@, lo as int, b as int),
        decreases hi - lo,
    {
        lo = lo + 1;
    }
    while lo < hi && chars[hi - 1] == ' '
        invariant
            a <= lo <= hi <= b <= chars@.len(),
            lo == spec_trim_lo(chars@, a as int, b as int),
            spec_trim_hi(chars@, lo as int, b as int) == spec_trim_hi(chars@, lo as int, hi as int),
        decreases hi - lo,
    {
        hi = hi - 1;
    }
    (lo, hi)
}

/// The position of the first colon in the range, where one stands.
fn find_colon(chars: &Vec<char>, a: usize, b: usize) -> (r: Option<usize>)
    requires
        a <= b <= chars@.len(),
    ensures
        r matches Some(p) ==> a <= p < b && spec_find_colon(chars@, a as int, b as int) == Some(
            p as int,
        ),
        r is None ==> spec_find_colon(chars@, a as int, b as int) is None,
{
    let mut k = a;
    while k < b
        invariant
            a <= k <= b <= chars@.len(),
            spec_find_colon(chars@, a as int, b as int) == spec_find_colon(
                chars@,
                k as int,
                b as int,
            ),
        decreases b - k,
    {
        if chars[k] == ':' {
            return Some(k);
        }
        k = k + 1;
    }
    None
}

/// Parses an unsigned decimal number; fails exactly on an empty range, a
/// non-digit, or a value past thirty-two bits.
fn parse_u32_range(chars: &Vec<char>, a: usize, b: usize) -> (r: Option<u32>)
    requires
        a <= b <= chars@.len(),
    ensures
        r == spec_parse_u32(chars@, a as int, b as int),
{
    if a == b {
        return None;
    }
    let mut acc: u32 = 0;
    let mut k = a;
    while k < b
        invariant
            a <= k <= b <= chars@.len(),
            a < b,
            spec_parse_u32(chars@, a as int, b as int) == spec_parse_u32_acc(
                chars@,
                k as int,
                b as int,
                acc,
            ),
        decreases b - k,
    {
        let c = chars[k];
        if !('0' <= c && c <= '9') {
            return None;
        }
        let d = (c as u32) - 48;
        if acc > 0xFFFF_FFFF / 10 || (acc == 0xFFFF_FFFF / 10 && d > 0xFFFF_FFFF % 10) {
            return None;
        }
        acc = acc * 10 + d;
        k = k + 1;
    }
    Some(acc)
}

/// The text of a character range, as an owned string.
fn range_string(text: &str, a: usize, b: usize) -> (r: String)
    requires
        a <= b <= text@.len(),
    ensures
        r@ == text@.subrange(a as int, b as int),
{
    text.substring_char(a, b).to_owned()
}

/// Parses one rule text: the reading the grammar assigns it, or a decode
/// error where it assigns none.
pub fn parse_signature_text(text: &str) -> (r: Result<YamlSignature, SigSetError>)
    ensures
        r is Ok <==> spec_parse_rule_text(text@) is Some,
        r matches Ok(y) ==> spec_parse_rule_text(text@) == Some(y@),
        r matches Err(e) ==> e is DecodeError,
{
    let n = text.unicode_len();
    let mut chars: Vec<char> = Vec::new();
    let mut i: usize = 0;
    while i < n
        invariant
            i <= n,
            n == text@.len(),
            chars@ == text@.subrange(0, i as int),
        decreases n - i,
    {
        chars.push(text.get_char(i));
        proof {
            assert(chars@ =~= text@.subrange(0, i + 1));
        }
        i = i + 1;
    }
    proof {
        assert(chars@ =~= text@);
    }
    let lines = split_lines(&chars);
    let ghost linesv = lines@.map_values(|l: Line| l@);

    let mut name: Option<String> = None;
    let mut description: Option<String> = None;
    let mut data: Option<YamlSigData> = None;

    let mut li: usize = 0;
    while li < lines.len()
        invariant
            li <= lines@.len(),
            n == text@.len(),
            chars@ == text@,
            chars@.len() == n,
            linesv == lines@.map_values(|l: Line| l@),
            linesv.len() == lines@.len(),
            forall|k: int| 0 <= k < lines@.len() ==> {
                &&& (#[trigger] lines@[k]).start <= lines@[k].end <= n
                &&& lines@[k].start + lines@[k].indent <= lines@[k].end
            },
            spec_parse_rule_text(text@) == spec_parse_top(
                chars@,
                linesv,
                li as int,
                crate::sig_set::signature::opt_chars(name),
                crate::sig_set::signature::opt_chars(description),
                opt_data_view(data),
            ),
        decreases lines@.len() - li,
    {
        let ghost li0 = li as int;
        let line = &lines[li];
        proof {
            assert(linesv[li0] == line@);
        }
        if line.blank {
            li = li + 1;
            continue ;
        }
        if line.indent != 0 {
            return Err(SigSetError::DecodeError);
        }
        let colon = match find_colon(&chars, line.start, line.end) {
            Some(p) => p,
            None => {
                return Err(SigSetError::DecodeError);
            },
        };
        let (ka, kb) = trim_range(&chars, line.start, colon);
        let (va, vb) = trim_range(&chars, colon + 1, line.end);
        if range_is(&chars, ka, kb, "name") {
            name = Some(range_string(text, va, vb));
            li = li + 1;
        } else if range_is(&chars, ka, kb, "description") {
            description = Some(range_string(text, va, vb));
            li = li + 1;
        } else if range_is(&chars, ka, kb, "sha256") {
            if data.is_some() || va == vb {
                return Err(SigSetError::DecodeError);
            }
            data = Some(YamlSigData::Sha(range_string(text, va, vb)));
            li = li + 1;
        } else if range_is(&chars, ka, kb, "imports") || range_is(&chars, ka, kb, "calls") {
            if data.is_some() || va != vb {
                return Err(SigSetError::DecodeError);
            }
            let is_imports = range_is(&chars, ka, kb, "imports");
            let (items, li2) = match parse_items(text, &chars, &lines, li + 1) {
                Ok(p) => p,
                Err(e) => {
                    return Err(e);
                },
            };
            proof {
                assert(li2 > li0);
            }
            li = li2;
            data = Some(
                if is_imports {
                    YamlSigData::Imports(items)
                } else {
                    YamlSigData::Calls(items)
                },
            );
            proof {
                assert(opt_data_view(data) matches Some(dv) && dv == (if is_imports {
                    YamlSigDataV::Imports(items_view(items@))
                } else {
                    YamlSigDataV::Calls(items_view(items@))
                }));
            }
        } else if range_is(&chars, ka, kb, "event") {
            if data.is_some() || va != vb {
                return Err(SigSetError::DecodeError);
            }
            let (ev, li2) = match parse_event_block(text, &chars, &lines, li + 1) {
                Ok(p) => p,
                Err(e) => {
                    return Err(e);
                },
            };
            proof {
                assert(li2 > li0);
            }
            li = li2;
            data = Some(YamlSigData::Event(ev));
        } else {
            return Err(SigSetError::DecodeError);
        }
    }

    let base_name = match name {
        Some(s) => s,
        None => {
            return Err(SigSetError::DecodeError);
        },
    };
    let base_description = match description {
        Some(s) => s,
        None => {
            return Err(SigSetError::DecodeError);
        },
    };
    let sig_data = match data {
        Some(d) => d,
        None => {
            return Err(SigSetError::DecodeError);
        },
    };
    Ok(YamlSignature { base: SigBase { name: base_name, description: base_description }, data: sig_data })
}

/// The view of an optional parsed body.
pub open spec fn opt_data_view(o: Option<YamlSigData>) -> Option<YamlSigDataV> {
    match o {
        Some(d) => Some(d@),
        None => None,
    }
}

/// The views of a list of item strings.
pub open spec fn items_view(v: Seq<String>) -> Seq<Seq<char>> {
    Seq::new(v.len(), |i: int| v[i]@)
}

/// Reads the `- ` items following a list key; stops before the next
/// top-level line.
fn parse_items(text: &str, chars: &Vec<char>, lines: &Vec<Line>, from: usize) -> (r: Result<
    (Vec<String>, usize),
    SigSetError,
>)
    requires
        from >= 1,
        from <= lines@.len(),
        text@ == chars@,
        forall|k: int| 0 <= k < lines@.len() ==> {
            &&& (#[trigger] lines@[k]).start <= lines@[k].end <= chars@.len()
            &&& lines@[k].start + lines@[k].indent <= lines@[k].end
        },
    ensures
        r matches Ok((items, next)) ==> from <= next <= lines@.len()
            && spec_parse_items(
            chars@,
            lines@.map_values(|l: Line| l@),
            from as int,
            Seq::empty(),
        ) == Some((items_view(items@), next as int)),
        r is Ok <==> spec_parse_items(
            chars@,
            lines@.map_values(|l: Line| l@),
            from as int,
            Seq::empty(),
        ) is Some,
        r matches Err(e) ==> e is DecodeError,
{
    let ghost linesv = lines@.map_values(|l: Line| l@);
    let mut items: Vec<String> = Vec::new();
    let mut li = from;
    proof {
        assert(items_view(items@) =~= Seq::<Seq<char>>::empty());
    }
    loop
        invariant_except_break
            from <= li <= lines@.len(),
            text@ == chars@,
            linesv == lines@.map_values(|l: Line| l@),
            forall|k: int| 0 <= k < lines@.len() ==> {
                &&& (#[trigger] lines@[k]).start <= lines@[k].end <= chars@.len()
                &&& lines@[k].start + lines@[k].indent <= lines@[k].end
            },
            spec_parse_items(chars@, linesv, from as int, Seq::empty()) == spec_parse_items(
                chars@,
                linesv,
                li as int,
                items_view(items@),
            ),
        ensures
            from <= li <= lines@.len(),
            spec_parse_items(chars@, linesv, from as int, Seq::empty()) == Some(
                (items_view(items@), li as int),
            ),
        decreases lines@.len() - li,
    {
        if li >= lines.len() {
            break ;
        }
        let line = &lines[li];
        proof {
            assert(linesv[li as int] == line@);
        }
        if line.blank {
            li = li + 1;
            continue ;
        }
        if line.indent == 0 {
            break ;
        }
        let c0 = line.start + line.indent;
        if !(line.end - c0 >= 2 && chars[c0] == '-' && chars[c0 + 1] == ' ') {
            return Err(SigSetError::DecodeError);
        }
        let (ia, ib) = trim_range(chars, c0 + 2, line.end);
        let item = range_string(text, ia, ib);
        let ghost prev = items_view(items@);
        items.push(item);
        proof {
            assert(items_view(items@) =~= prev.push(chars@.subrange(ia as int, ib as int)));
        }
        li = li + 1;
    }
    Ok((items, li))
}

/// Reads an event block: a kind line, then its attributes.
fn parse_event_block(text: &str, chars: &Vec<char>, lines: &Vec<Line>, from: usize) -> (r: Result<
    (EventData, usize),
    SigSetError,
>)
    requires
        from >= 1,
        from <= lines@.len(),
        text@ == chars@,
        forall|k: int| 0 <= k < lines@.len() ==> {
            &&& (#[trigger] lines@[k]).start <= lines@[k].end <= chars@.len()
            &&& lines@[k].start + lines@[k].indent <= lines@[k].end
        },
    ensures
        r matches Ok((ev, next)) ==> from <= next <= lines@.len()
            && spec_parse_event_block(chars@, lines@.map_values(|l: Line| l@), from as int)
            == Some((ev@, next as int)),
        r is Ok <==> spec_parse_event_block(
            chars@,
            lines@.map_values(|l: Line| l@),
            from as int,
        ) is Some,
        r matches Err(e) ==> e is DecodeError,
{
    let ghost linesv = lines@.map_values(|l: Line| l@);
    let mut li = from;
    while li < lines.len() && lines[li].blank
        invariant
            from <= li <= lines@.len(),
            linesv == lines@.map_values(|l: Line| l@),
            spec_skip_blanks(linesv, from as int) == spec_skip_blanks(linesv, li as int),
        decreases lines@.len() - li,
    {
        proof {
            assert(linesv[li as int] == lines@[li as int]@);
        }
        li = li + 1;
    }
    proof {
        if li < lines@.len() {
            assert(linesv[li as int] == lines@[li as int]@);
        }
        assert(spec_skip_blanks(linesv, li as int) == li);
    }
    if li >= lines.len() {
        return Err(SigSetError::DecodeError);
    }
    let ghost kind_li = li as int;
    let kind_line = &lines[li];
    proof {
        assert(linesv[kind_li] == kind_line@);
    }
    if kind_line.indent == 0 {
        return Err(SigSetError::DecodeError);
    }
    let kind_indent = kind_line.indent;
    let colon = match find_colon(chars, kind_line.start, kind_line.end) {
        Some(p) => p,
        None => {
            return Err(SigSetError::DecodeError);
        },
    };
    let (ka, kb) = trim_range(chars, kind_line.start, colon);
    let (va, vb) = trim_range(chars, colon + 1, kind_line.end);
    if va != vb {
        return Err(SigSetError::DecodeError);
    }

    let mut ev: EventData = if range_is(chars, ka, kb, "ProcessCreate") {
        EventData::ProcessCreate(
            YamlProcessCreateEvent { pid: None, parent_id: None, path: None },
        )
    } else if range_is(chars, ka, kb, "FileCreate") {
        EventData::FileCreate(YamlFileCreateEvent { path: None })
    } else if range_is(chars, ka, kb, "ImageLoad") {
        EventData::ImageLoad(YamlImageLoadEvent { pid: None, image_path: None })
    } else if range_is(chars, ka, kb, "RegSetValue") {
        EventData::RegSetValue(
            YamlRegistrySetValueEvent {
                pid: None,
                tid: None,
                key_name: None,
                value_name: None,
                data_type: None,
                data: None,
            },
        )
    } else {
        return Err(SigSetError::DecodeError);
    };
    proof {
        assert(spec_event_kind(chars@.subrange(ka as int, kb as int)) == Some(ev@));
    }

    li = li + 1;
    let ghost attrs_from = li as int;
    let ghost ev0 = ev@;
    proof {
        assert(spec_parse_event_block(chars@, linesv, from as int) == spec_parse_attrs(
            chars@,
            linesv,
            attrs_from,
            kind_indent as int,
            ev0,
        ));
    }
    loop
        invariant_except_break
            attrs_from <= li <= lines@.len(),
            text@ == chars@,
            linesv == lines@.map_values(|l: Line| l@),
            kind_indent >= 1,
            forall|k: int| 0 <= k < lines@.len() ==> {
                &&& (#[trigger] lines@[k]).start <= lines@[k].end <= chars@.len()
                &&& lines@[k].start + lines@[k].indent <= lines@[k].end
            },
            spec_parse_event_block(chars@, linesv, from as int) == spec_parse_attrs(
                chars@,
                linesv,
                attrs_from,
                kind_indent as int,
                ev0,
            ),
            spec_parse_attrs(chars@, linesv, attrs_from, kind_indent as int, ev0)
                == spec_parse_attrs(chars@, linesv, li as int, kind_indent as int, ev@),
        ensures
            attrs_from <= li <= lines@.len(),
            spec_parse_attrs(chars@, linesv, attrs_from, kind_indent as int, ev0) == Some(
                (ev@, li as int),
            ),
        decreases lines@.len() - li,
    {
        if li >= lines.len() {
            break ;
        }
        let attr_line = &lines[li];
        proof {
            assert(linesv[li as int] == attr_line@);
        }
        if attr_line.blank {
            li = li + 1;
            continue ;
        }
        if attr_line.indent <= kind_indent {
            break ;
        }
        let acolon = match find_colon(chars, attr_line.start, attr_line.end) {
            Some(p) => p,
            None => {
                return Err(SigSetError::DecodeError);
            },
        };
        let (aa, ab) = trim_range(chars, attr_line.start, acolon);
        let (wa, wb) = trim_range(chars, acolon + 1, attr_line.end);
        if !apply_attr(&mut ev, text, chars, aa, ab, wa, wb) {
            return Err(SigSetError::DecodeError);
        }
        li = li + 1;
    }
    proof {
        assert(spec_parse_event_block(chars@, linesv, from as int) == Some((ev@, li as int)));
    }
    Ok((ev, li))
}

/// Applies one attribute line to the event being read; false refuses the
/// rule.
fn apply_attr(
    ev: &mut EventData,
    text: &str,
    chars: &Vec<char>,
    aa: usize,
    ab: usize,
    wa: usize,
    wb: usize,
) -> (r: bool)
    requires
        aa <= ab <= chars@.len(),
        wa <= wb <= chars@.len(),
        text@ == chars@,
    ensures
        r == (spec_apply_attr(old(ev)@, chars@.subrange(aa as int, ab as int), chars@, wa as int, wb as int) is Some),
        r ==> Some(final(ev)@) == spec_apply_attr(
            old(ev)@,
            chars@.subrange(aa as int, ab as int),
            chars@,
            wa as int,
            wb as int,
        ),
{
    match ev {
        EventData::ProcessCreate(y) => {
            if range_is(chars, aa, ab, "pid") {
                match parse_u32_range(chars, wa, wb) {
                    Some(v) => {
                        y.pid = Some(v);
                        true
                    },
                    None => false,
                }
            } else if range_is(chars, aa, ab, "parent_id") {
                match parse_u32_range(chars, wa, wb) {
                    Some(v) => {
                        y.parent_id = Some(v);
                        true
                    },
                    None => false,
                }
            } else if range_is(chars, aa, ab, "path") {
                y.path = Some(range_string(text, wa, wb));
                true
            } else {
                false
            }
        },
        EventData::FileCreate(y) => {
            if range_is(chars, aa, ab, "path") {
                y.path = Some(range_string(text, wa, wb));
                true
            } else {
                false
            }
        },
        EventData::ImageLoad(y) => {
            if range_is(chars, aa, ab, "pid") {
                match parse_u32_range(chars, wa, wb) {
                    Some(v) => {
                        y.pid = Some(v);
                        true
                    },
                    None => false,
                }
            } else if range_is(chars, aa, ab, "image_path") {
                y.image_path = Some(range_string(text, wa, wb));
                true
            } else {
                false
            }
        },
        EventData::RegSetValue(y) => {
            if range_is(chars, aa, ab, "pid") {
                match parse_u32_range(chars, wa, wb) {
                    Some(v) => {
                        y.pid = Some(v);
                        true
                    },
                    None => false,
                }
            } else if range_is(chars, aa, ab, "tid") {
                match parse_u32_range(chars, wa, wb) {
                    Some(v) => {
                        y.tid = Some(v);
                        true
                    },
                    None => false,
                }
            } else if range_is(chars, aa, ab, "data_type") {
                match parse_u32_range(chars, wa, wb) {
                    Some(v) => {
                        y.data_type = Some(v);
                        true
                    },
                    None => false,
                }
            } else if range_is(chars, aa, ab, "key_name") {
                y.key_name = Some(range_string(text, wa, wb));
                true
            } else if range_is(chars, aa, ab, "value_name") {
                y.value_name = Some(range_string(text, wa, wb));
                true
            } else if range_is(chars, aa, ab, "data") {
                y.data = Some(range_string(text, wa, wb));
                true
            } else {
                false
            }
        },
    }
}

} // verus!
