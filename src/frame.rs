//! Output frames and their NDJSON line form.
use vstd::prelude::*;
use crate::text::{decimal, push_chars, push_decimal};

verus! {

/// Which channel a frame belongs to.
#[derive(Debug, Clone, Copy, PartialEq, Eq, Structural)]
pub enum FrameKind {
    Stdout,
    Stderr,
    Event,
}

impl FrameKind {
    /// The wire name of the kind (`stdout`, `stderr` or `event`).
    pub open spec fn name_spec(self) -> Seq<char> {
        match self {
            FrameKind::Stdout => seq!['s', 't', 'd', 'o', 'u', 't'],
            FrameKind::Stderr => seq!['s', 't', 'd', 'e', 'r', 'r'],
            FrameKind::Event => seq!['e', 'v', 'e', 'n', 't'],
        }
    }

    /// The wire name of the kind, as characters.
    pub fn name_chars(&self) -> (r: Vec<char>)
        ensures
            r@ == self.name_spec(),
    {
        match self {
            FrameKind::Stdout => vec!['s', 't', 'd', 'o', 'u', 't'],
            FrameKind::Stderr => vec!['s', 't', 'd', 'e', 'r', 'r'],
            FrameKind::Event => vec!['e', 'v', 'e', 'n', 't'],
        }
    }
}

/// The mathematical value of a frame.
pub struct FrameModel {
    pub t: FrameKind,
    pub seq: u64,
    pub d: Seq<char>,
}

/// One unit of stream output: its kind, its sequence number and its text.
#[derive(Debug)]
pub struct StreamFrame {
    pub t: FrameKind,
    pub seq: u64,
    pub d: String,
}

impl View for StreamFrame {
    type V = FrameModel;

    open spec fn view(&self) -> FrameModel {
        FrameModel { t: self.t, seq: self.seq, d: self.d@ }
    }
}

impl Clone for StreamFrame {
    fn clone(&self) -> (r: Self)
        ensures
            r == *self,
    {
        StreamFrame { t: self.t, seq: self.seq, d: self.d.clone() }
    }
}

impl PartialEq for StreamFrame {
    fn eq(&self, o: &StreamFrame) -> (r: bool)
        ensures
            r == (self@ == o@),
    {
        let same = self.t == o.t && self.seq == o.seq && self.d == o.d;
        proof {
            if self.t == o.t && self.seq == o.seq && self.d@ == o.d@ {
                assert(self@ == o@);
            }
        }
        same
    }
}

impl vstd::std_specs::cmp::PartialEqSpecImpl for StreamFrame {
    open spec fn obeys_eq_spec() -> bool {
        true
    }

    open spec fn eq_spec(&self, o: &StreamFrame) -> bool {
        self@ == o@
    }
}

/// The text that opens every terminal event.
pub open spec fn exit_prefix() -> Seq<char> {
    seq!['e', 'x', 'i', 't', ':']
}

/// Whether a frame is the terminal event of its stream: an event whose text
/// begins with `exit:`.
pub open spec fn is_exit(f: FrameModel) -> bool {
    f.t == FrameKind::Event && f.d.len() >= 5 && f.d.take(5) == exit_prefix()
}

impl StreamFrame {
    /// Builds a frame.
    pub fn new(t: FrameKind, seq: u64, d: String) -> (r: StreamFrame)
        ensures
            r.t == t,
            r.seq == seq,
            r.d == d,
    {
        StreamFrame { t, seq, d }
    }

    /// Whether this frame is the terminal event of its stream.
    pub fn is_exit(&self) -> (r: bool)
        ensures
            r == is_exit(self@),
    {
        if self.t != FrameKind::Event {
            return false;
        }
        let p = vec!['e', 'x', 'i', 't', ':'];
        crate::text::starts_with_chars(self.d.as_str(), &p)
    }
}

/// Lowercase hexadecimal digit of `d` (below 16).
pub open spec fn hex_char(d: nat) -> char {
    if d < 10 {
        (d + 48) as char
    } else {
        (d + 87) as char
    }
}

/// How one character of a string is written inside a JSON string literal.
pub open spec fn escape_char(c: char) -> Seq<char> {
    if c == '"' {
        seq!['\\', '"']
    } else if c == '\\' {
        seq!['\\', '\\']
    } else if c == '\x08' {
        seq!['\\', 'b']
    } else if c == '\t' {
        seq!['\\', 't']
    } else if c == '\n' {
        seq!['\\', 'n']
    } else if c == '\x0c' {
        seq!['\\', 'f']
    } else if c == '\r' {
        seq!['\\', 'r']
    } else if (c as u32) < 32 {
        seq!['\\', 'u', '0', '0', hex_char((c as u32 / 16) as nat), hex_char((c as u32 % 16) as nat)]
    } else {
        seq![c]
    }
}

/// The body of a JSON string literal for `s`, each character escaped in turn.
pub open spec fn escaped(s: Seq<char>) -> Seq<char>
    decreases s.len(),
{
    if s.len() == 0 {
        Seq::empty()
    } else {
        escape_char(s[0]) + escaped(s.drop_first())
    }
}

/// The JSON string literal for `s`.
pub open spec fn json_quoted(s: Seq<char>) -> Seq<char> {
    seq!['"'] + escaped(s) + seq!['"']
}

/// Relies on `serde_json::to_string` applied to a `str`: the text between
/// double quotes, with `"` and `\` escaped by a backslash, the control
/// characters below U+0020 written as `\b`, `\t`, `\n`, `\f`, `\r` or
/// `\u00xx` in lowercase hex, and every other character kept as it is.
/// Serialising a `str` into memory does not fail.
#[verifier::external_body]
fn json_quote(s: &str) -> (r: String)
    ensures
        r@ == json_quoted(s@),
{
    serde_json::to_string(s).unwrap_or_default()
}

/// `{"t":"`
pub open spec fn lit_open() -> Seq<char> {
    seq!['{', '"', 't', '"', ':', '"']
}

/// `","seq":`
pub open spec fn lit_seq() -> Seq<char> {
    seq!['"', ',', '"', 's', 'e', 'q', '"', ':']
}

/// `,"d":`
pub open spec fn lit_data() -> Seq<char> {
    seq![',', '"', 'd', '"', ':']
}

/// The JSON object of a frame, fields in the order `t`, `seq`, `d`.
pub open spec fn frame_json(f: FrameModel) -> Seq<char> {
    lit_open() + f.t.name_spec() + lit_seq() + decimal(f.seq as nat) + lit_data() + json_quoted(f.d)
        + seq!['}']
}

/// The NDJSON line of a frame: its JSON object and a newline.
pub open spec fn ndjson_line(f: FrameModel) -> Seq<char> {
    frame_json(f).push('\n')
}

impl StreamFrame {
    /// The NDJSON line of this frame, newline included.
    pub fn to_ndjson(&self) -> (r: String)
        ensures
            r@ == ndjson_line(self@),
    {
        let mut out = self.to_json();
        crate::text::push_char(&mut out, '\n');
        out
    }

    /// The JSON object of this frame.
    pub fn to_json(&self) -> (r: String)
        ensures
            r@ == frame_json(self@),
    {
        let mut out = String::new();
        push_chars(&mut out, &vec!['{', '"', 't', '"', ':', '"']);
        push_chars(&mut out, &self.t.name_chars());
        push_chars(&mut out, &vec!['"', ',', '"', 's', 'e', 'q', '"', ':']);
        push_decimal(&mut out, self.seq);
        push_chars(&mut out, &vec![',', '"', 'd', '"', ':']);
        let q = json_quote(self.d.as_str());
        out.append(q.as_str());
        crate::text::push_char(&mut out, '}');
        assert(out@ =~= frame_json(self@));
        out
    }
}

} // verus!
