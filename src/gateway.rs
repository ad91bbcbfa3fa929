//! The API gateway's side of the stream contract: where a tail replay
//! starts, and how the frames of a stream fold into a terminal reply.
use vstd::prelude::*;
use crate::frame::{exit_prefix, FrameKind};
use crate::ndjson::parse_line;

verus! {

/// Errors of the gateway, by HTTP class.
#[derive(Debug)]
pub enum AppError {
    /// No or unknown bearer token (401).
    Unauthorized,
    /// Malformed input (400).
    BadRequest(String),
    /// The worker failed or answered badly (502).
    Upstream(String),
    /// Any other failure (500).
    Internal(String),
}

impl AppError {
    /// The HTTP status code of the error.
    pub fn status_code(&self) -> (r: u16)
        ensures
            r == match self {
                AppError::Unauthorized => 401u16,
                AppError::BadRequest(_) => 400u16,
                AppError::Upstream(_) => 502u16,
                AppError::Internal(_) => 500u16,
            },
    {
        match self {
            AppError::Unauthorized => 401,
            AppError::BadRequest(_) => 400,
            AppError::Upstream(_) => 502,
            AppError::Internal(_) => 500,
        }
    }

    /// The message of the error body.
    pub fn message(&self) -> (r: String)
        ensures
            r@ == match self {
                AppError::Unauthorized => "unauthorized"@,
                AppError::BadRequest(m) | AppError::Upstream(m) | AppError::Internal(m) => m@,
            },
    {
        match self {
            AppError::Unauthorized => String::from_str("unauthorized"),
            AppError::BadRequest(m) | AppError::Upstream(m) | AppError::Internal(m) => m.clone(),
        }
    }
}

/// Who is calling: the user, the workspace and the worker that serves it.
pub struct AgentContext {
    pub user_id: String,
    pub workspace_id: String,
    pub node_url: String,
}

/// What the gateway remembers of a caller's terminal.
pub struct NodeState {
    pub backlog: String,
    pub last_job_id: Option<String>,
    pub running: bool,
}

/// Where a tail replay starts: `tail` frames before the last one seen, and
/// never before the start of the stream.
pub fn tail_start(last_seen: u64, tail: u64) -> (r: u64)
    ensures
        r == if last_seen >= tail { last_seen - tail } else { 0 },
{
    if last_seen >= tail {
        last_seen - tail
    } else {
        0
    }
}

/// Most bytes of one channel a summary shows.
pub const SUMMARY_LIMIT: usize = 1000;

/// The number of bytes of `c` in UTF-8.
pub open spec fn utf8_width(c: char) -> nat {
    if (c as u32) < 0x80 {
        1
    } else if (c as u32) < 0x800 {
        2
    } else if (c as u32) < 0x10000 {
        3
    } else {
        4
    }
}

/// The number of bytes of `s` in UTF-8.
pub open spec fn utf8_bytes(s: Seq<char>) -> nat
    decreases s.len(),
{
    if s.len() == 0 {
        0
    } else {
        utf8_width(s[0]) + utf8_bytes(s.drop_first())
    }
}

/// How many leading characters of `s` fit in `budget` bytes.
pub open spec fn chars_within(s: Seq<char>, budget: nat) -> nat
    decreases s.len(),
{
    if s.len() == 0 || utf8_width(s[0]) > budget {
        0
    } else {
        1 + chars_within(s.drop_first(), (budget - utf8_width(s[0])) as nat)
    }
}

/// The text of a summary section: the whole channel when it holds at most
/// `SUMMARY_LIMIT` bytes, else its characters that fit in that many bytes,
/// followed by a marker.
pub open spec fn clipped(s: Seq<char>) -> Seq<char> {
    if utf8_bytes(s) > SUMMARY_LIMIT {
        s.take(chars_within(s, SUMMARY_LIMIT as nat) as int) + "\n[...truncated]"@
    } else {
        s
    }
}

fn utf8_width_exec(c: char) -> (r: usize)
    ensures
        r == utf8_width(c),
{
    if (c as u32) < 0x80 {
        1
    } else if (c as u32) < 0x800 {
        2
    } else if (c as u32) < 0x10000 {
        3
    } else {
        4
    }
}

/// How many leading characters of `s` a summary section keeps, and whether
/// the channel is longer than that.
fn clip_point(s: &Vec<char>) -> (r: (usize, bool))
    ensures
        r.1 == (utf8_bytes(s@) > SUMMARY_LIMIT),
        r.1 ==> r.0 == chars_within(s@, SUMMARY_LIMIT as nat),
        !r.1 ==> r.0 == s@.len(),
        r.0 <= s@.len(),
{
    let mut i: usize = 0;
    let mut budget: usize = SUMMARY_LIMIT;
    assert(s@.skip(0) =~= s@);
    while i < s.len() && utf8_width_exec(s[i]) <= budget
        invariant
            i <= s@.len(),
            budget <= SUMMARY_LIMIT,
            chars_within(s@, SUMMARY_LIMIT as nat) == i + chars_within(s@.skip(i as int), budget as nat),
            utf8_bytes(s@) == (SUMMARY_LIMIT - budget) + utf8_bytes(s@.skip(i as int)),
        decreases s@.len() - i,
    {
        proof {
            let t = s@.skip(i as int);
            assert(t[0] == s@[i as int]);
            assert(t.drop_first() =~= s@.skip(i + 1));
        }
        budget = budget - utf8_width_exec(s[i]);
        i += 1;
    }
    proof {
        let t = s@.skip(i as int);
        if i < s@.len() {
            assert(t[0] == s@[i as int]);
        } else {
            assert(t.len() == 0);
        }
    }
    (i, i < s.len())
}

/// Whether `c` is white space in Unicode's sense, as `char::is_whitespace`
/// decides it.
pub open spec fn is_ws(c: char) -> bool {
    c == ' ' || ('\t' <= c && c <= '\r') || c == '\u{85}' || c == '\u{a0}' || c == '\u{1680}'
        || ('\u{2000}' <= c && c <= '\u{200a}') || c == '\u{2028}' || c == '\u{2029}'
        || c == '\u{202f}' || c == '\u{205f}' || c == '\u{3000}'
}

fn is_ws_exec(c: char) -> (r: bool)
    ensures
        r == is_ws(c),
{
    c == ' ' || ('\t' <= c && c <= '\r') || c == '\u{85}' || c == '\u{a0}' || c == '\u{1680}'
        || ('\u{2000}' <= c && c <= '\u{200a}') || c == '\u{2028}' || c == '\u{2029}'
        || c == '\u{202f}' || c == '\u{205f}' || c == '\u{3000}'
}

/// `s` without its trailing white space.
pub open spec fn trim_end_ws(s: Seq<char>) -> Seq<char>
    decreases s.len(),
{
    if s.len() > 0 && is_ws(s.last()) {
        trim_end_ws(s.drop_last())
    } else {
        s
    }
}

/// `s` without its leading white space.
pub open spec fn trim_start_ws(s: Seq<char>) -> Seq<char>
    decreases s.len(),
{
    if s.len() > 0 && is_ws(s[0]) {
        trim_start_ws(s.drop_first())
    } else {
        s
    }
}

/// `s` without any number of leading `Some(`.
pub open spec fn strip_some_open(s: Seq<char>) -> Seq<char>
    decreases s.len(),
{
    if s.len() >= 5 && s.take(5) == "Some("@ {
        strip_some_open(s.skip(5))
    } else {
        s
    }
}

/// `s` without any number of trailing `)`.
pub open spec fn strip_close(s: Seq<char>) -> Seq<char>
    decreases s.len(),
{
    if s.len() > 0 && s.last() == ')' {
        strip_close(s.drop_last())
    } else {
        s
    }
}

/// How a summary shows the exit status: `Some(N)` as `N`, trimmed.
pub open spec fn exit_display(x: Seq<char>) -> Seq<char> {
    trim_start_ws(trim_end_ws(strip_close(strip_some_open(x))))
}

/// Whether `Some(` stands in `s` at `lo`.
fn some_at(s: &Vec<char>, lo: usize) -> (r: bool)
    requires
        lo <= s@.len(),
    ensures
        r == (s@.skip(lo as int).len() >= 5 && s@.skip(lo as int).take(5) == "Some("@),
{
    proof {
        reveal_strlit("Some(");
    }
    if s.len() - lo < 5 {
        return false;
    }
    let r = s[lo] == 'S' && s[lo + 1] == 'o' && s[lo + 2] == 'm' && s[lo + 3] == 'e' && s[lo + 4] == '(';
    proof {
        let t = s@.skip(lo as int).take(5);
        if r {
            assert(t =~= "Some("@);
        } else {
            if t == "Some("@ {
                assert(t[0] == 'S' && t[1] == 'o' && t[2] == 'm' && t[3] == 'e' && t[4] == '(');
                assert(false);
            }
        }
    }
    r
}

/// The bounds `[lo, hi)` of the exit status shown for `s`: leading `Some(`
/// and trailing `)` stripped, then surrounding white space.
fn trimmed_range(s: &Vec<char>) -> (r: (usize, usize))
    ensures
        r.0 <= r.1 <= s@.len(),
        s@.subrange(r.0 as int, r.1 as int) == exit_display(s@),
{
    let n = s.len();
    // leading `Some(` runs
    let mut lo: usize = 0;
    assert(s@.skip(0) =~= s@);
    while some_at(s, lo)
        invariant
            lo <= n == s@.len(),
            strip_some_open(s@.skip(lo as int)) == strip_some_open(s@),
        decreases n - lo,
    {
        proof {
            let t = s@.skip(lo as int);
            assert(t.skip(5) =~= s@.skip(lo + 5));
        }
        lo = lo + 5;
    }
    let mut hi: usize = n;
    while hi > lo && s[hi - 1] == ')'
        invariant
            lo <= hi <= n == s@.len(),
            strip_close(s@.subrange(lo as int, hi as int)) == strip_close(s@.skip(lo as int)),
        decreases hi,
    {
        proof {
            assert(s@.subrange(lo as int, hi as int).drop_last() =~= s@.subrange(lo as int, hi - 1));
        }
        hi = hi - 1;
    }
    proof {
        assert(s@.subrange(lo as int, n as int) =~= s@.skip(lo as int));
    }
    trim_range(s, lo, hi)
}

/// The bounds of `s[lo..hi]` once leading and trailing white space are left
/// out.
fn trim_range(s: &Vec<char>, lo: usize, hi: usize) -> (r: (usize, usize))
    requires
        lo <= hi <= s@.len(),
    ensures
        lo <= r.0 <= r.1 <= hi,
        s@.subrange(r.0 as int, r.1 as int) == trim_start_ws(trim_end_ws(s@.subrange(lo as int, hi as int))),
{
    let ghost whole = s@.subrange(lo as int, hi as int);
    let mut top = hi;
    while top > lo && is_ws_exec(s[top - 1])
        invariant
            lo <= top <= hi <= s@.len(),
            trim_end_ws(s@.subrange(lo as int, top as int)) == trim_end_ws(whole),
        decreases top,
    {
        proof {
            assert(s@.subrange(lo as int, top as int).drop_last() =~= s@.subrange(lo as int, top - 1));
        }
        top = top - 1;
    }
    let ghost mid = s@.subrange(lo as int, top as int);
    assert(trim_end_ws(mid) == mid);
    let mut bot = lo;
    while bot < top && is_ws_exec(s[bot])
        invariant
            lo <= bot <= top <= hi <= s@.len(),
            trim_start_ws(s@.subrange(bot as int, top as int)) == trim_start_ws(mid),
        decreases top - bot,
    {
        proof {
            assert(s@.subrange(bot as int, top as int).drop_first() =~= s@.subrange(bot + 1, top as int));
        }
        bot = bot + 1;
    }
    (bot, top)
}

/// `s` cut at each newline: one piece more than there are newlines.
pub open spec fn split_nl(s: Seq<char>) -> Seq<Seq<char>>
    decreases s.len(),
{
    if s.len() == 0 {
        seq![Seq::<char>::empty()]
    } else {
        let ps = split_nl(s.drop_last());
        if s.last() == '\n' {
            ps.push(Seq::empty())
        } else {
            ps.update(ps.len() - 1, ps.last().push(s.last()))
        }
    }
}

proof fn lemma_split_nl_nonempty(s: Seq<char>)
    ensures
        split_nl(s).len() >= 1,
    decreases s.len(),
{
    if s.len() > 0 {
        lemma_split_nl_nonempty(s.drop_last());
    }
}

/// A piece without one trailing carriage return.
pub open spec fn strip_cr(p: Seq<char>) -> Seq<char> {
    if p.len() > 0 && p.last() == '\r' {
        p.drop_last()
    } else {
        p
    }
}

/// The lines of a text as `str::lines` gives them: cut at each `\n`, a
/// `\r` before the `\n` left out, and no empty line after a final `\n`.
pub open spec fn text_lines(s: Seq<char>) -> Seq<Seq<char>> {
    let ps = split_nl(s);
    let body = if ps.last().len() == 0 { ps.drop_last() } else { ps };
    Seq::new(
        body.len(),
        |i: int| if i < ps.len() - 1 { strip_cr(body[i]) } else { body[i] },
    )
}

/// Lines joined with `\n` between them.
pub open spec fn join_nl(ls: Seq<Seq<char>>) -> Seq<char>
    decreases ls.len(),
{
    if ls.len() == 0 {
        Seq::empty()
    } else if ls.len() == 1 {
        ls[0]
    } else {
        join_nl(ls.drop_last()).push('\n') + ls.last()
    }
}

/// Lines of the live-tail reply.
pub const TAIL_LINES: usize = 50;

/// The live-tail reply for cleaned text: the last `TAIL_LINES` lines of `text`, then
/// `(Exit code: X)` with the trimmed exit status, or a note that the process
/// still runs.
pub open spec fn tail_reply_spec(text: Seq<char>, exit: Option<Seq<char>>) -> Seq<char> {
    let ls = text_lines(text);
    let keep = if ls.len() > TAIL_LINES { ls.skip(ls.len() - TAIL_LINES) } else { ls };
    join_nl(keep) + match exit {
        Some(x) => "\n(Exit code: "@ + trim_start_ws(trim_end_ws(x)) + ")\n"@,
        None => "\n(... process still running ...)\n"@,
    }
}

fn split_pieces(cs: &Vec<char>) -> (r: Vec<Vec<char>>)
    ensures
        r@.len() == split_nl(cs@).len(),
        forall|i: int| 0 <= i < r@.len() ==> #[trigger] r@[i]@ == split_nl(cs@)[i],
{
    let mut pieces: Vec<Vec<char>> = Vec::new();
    let mut cur: Vec<char> = Vec::new();
    let mut i: usize = 0;
    assert(cs@.take(0) =~= Seq::<char>::empty());
    while i < cs.len()
        invariant
            i <= cs@.len(),
            pieces@.len() + 1 == split_nl(cs@.take(i as int)).len(),
            forall|k: int| 0 <= k < pieces@.len() ==> #[trigger] pieces@[k]@ == split_nl(cs@.take(i as int))[k],
            cur@ == split_nl(cs@.take(i as int)).last(),
        decreases cs@.len() - i,
    {
        let ghost before = cs@.take(i as int);
        let c = cs[i];
        proof {
            lemma_split_nl_nonempty(before);
            assert(cs@.take(i + 1).drop_last() =~= before);
            assert(cs@.take(i + 1).last() == c);
        }
        if c == '\n' {
            pieces.push(cur);
            cur = Vec::new();
            proof {
                assert(cur@ =~= Seq::<char>::empty());
            }
        } else {
            cur.push(c);
        }
        i += 1;
    }
    assert(cs@.take(i as int) =~= cs@);
    pieces.push(cur);
    pieces
}

/// The live-tail reply for a caller's output `text`, already cleaned of
/// ANSI escape sequences, and, once the process has ended, its exit status.
pub fn tail_reply_clean(text: &str, exit: Option<&str>) -> (r: String)
    ensures
        r@ == tail_reply_spec(text@, match exit { Some(x) => Some(x@), None => None }),
{
    let cs = crate::text::chars_of(text);
    let ps = split_pieces(&cs);
    let ghost pss = split_nl(cs@);
    let ghost ls = text_lines(cs@);
    proof {
        lemma_split_nl_nonempty(cs@);
    }
    let np = ps.len();
    let nb: usize = if ps[np - 1].len() == 0 {
        np - 1
    } else {
        np
    };
    assert(ls.len() == nb);
    let start: usize = if nb > TAIL_LINES {
        nb - TAIL_LINES
    } else {
        0
    };
    let mut out = String::new();
    let mut j: usize = start;
    assert(ls.subrange(start as int, start as int) =~= Seq::<Seq<char>>::empty());
    while j < nb
        invariant
            start <= j <= nb <= np == pss.len(),
            pss == split_nl(cs@),
            ls == text_lines(cs@),
            ls.len() == nb,
            ps@.len() == np,
            forall|i: int| 0 <= i < np ==> #[trigger] ps@[i]@ == pss[i],
            out@ == join_nl(ls.subrange(start as int, j as int)),
        decreases nb - j,
    {
        if j > start {
            crate::text::push_char(&mut out, '\n');
        }
        let piece = &ps[j];
        let strip = j + 1 < np && piece.len() > 0 && piece[piece.len() - 1] == '\r';
        let end = if strip {
            piece.len() - 1
        } else {
            piece.len()
        };
        push_range(&mut out, piece, 0, end);
        proof {
            let line = ls[j as int];
            assert(piece@.subrange(0, end as int) =~= line);
            let sub = ls.subrange(start as int, j + 1);
            assert(sub.last() == line);
            if j > start {
                assert(sub.drop_last() =~= ls.subrange(start as int, j as int));
            } else {
                assert(sub =~= seq![line]);
            }
        }
        j += 1;
    }
    proof {
        let keep = if ls.len() > TAIL_LINES { ls.skip(ls.len() - TAIL_LINES) } else { ls };
        assert(keep =~= ls.subrange(start as int, nb as int));
    }
    match exit {
        Some(x) => {
            out.append("\n(Exit code: ");
            let xs = crate::text::chars_of(x);
            let (lo, hi) = trim_range(&xs, 0, xs.len());
            proof {
                assert(xs@.subrange(0, xs@.len() as int) =~= xs@);
            }
            push_range(&mut out, &xs, lo, hi);
            out.append(")\n");
        },
        None => out.append("\n(... process still running ...)\n"),
    }
    out
}

/// The text with every ANSI escape sequence `ESC [ <digits and ;> <letter>`
/// removed.
pub uninterp spec fn ansi_stripped(s: Seq<char>) -> Seq<char>;

/// Relies on `regex::Regex::new` with the fixed pattern
/// `\x1B\[[0-9;]*[A-Za-z]`, which is valid, and on `Regex::replace_all`
/// with an empty replacement: every match removed, the rest kept in order.
/// The result depends on the text alone.
#[verifier::external_body]
fn strip_ansi(s: &str) -> (r: String)
    ensures
        r@ == ansi_stripped(s@),
{
    match regex::Regex::new("\\x1B\\[[0-9;]*[A-Za-z]") {
        Ok(re) => re.replace_all(s, "").into_owned(),
        Err(_) => s.to_string(),
    }
}

/// The live-tail reply for a caller's output `text`: ANSI escape sequences
/// removed, then the last lines and the exit footer.
pub fn tail_reply(text: &str, exit: Option<&str>) -> (r: String)
    ensures
        r@ == tail_reply_spec(ansi_stripped(text@), match exit { Some(x) => Some(x@), None => None }),
{
    let cleaned = strip_ansi(text);
    tail_reply_clean(cleaned.as_str(), exit)
}

/// Whether a line is the terminal event of a stream.
pub open spec fn is_exit_line(line: Seq<char>) -> bool {
    match parse_line_spec(line) {
        Some((t, _, d)) => t == FrameKind::Event && d.len() >= 5 && d.take(5) == exit_prefix(),
        None => false,
    }
}

/// Whether a text holds nothing but white space.
pub open spec fn is_blank(s: Seq<char>) -> bool {
    forall|i: int| 0 <= i < s.len() ==> is_ws(#[trigger] s[i])
}

fn blank(s: &str) -> (r: bool)
    ensures
        r == is_blank(s@),
{
    let cs = crate::text::chars_of(s);
    let mut i: usize = 0;
    while i < cs.len()
        invariant
            i <= cs@.len(),
            cs@ == s@,
            forall|k: int| 0 <= k < i ==> is_ws(#[trigger] cs@[k]),
        decreases cs@.len() - i,
    {
        if !is_ws_exec(cs[i]) {
            return false;
        }
        i += 1;
    }
    true
}

impl NodeState {
    /// A caller with no job yet.
    pub fn new() -> (r: NodeState)
        ensures
            r.backlog@.len() == 0,
            r.last_job_id is None,
            !r.running,
    {
        NodeState { backlog: String::new(), last_job_id: None, running: false }
    }

    /// A new job was accepted: it is the caller's job now, running, and
    /// the lines kept for the caller start afresh.
    pub fn begin_job(&mut self, job_id: String)
        ensures
            final(self).running,
            final(self).last_job_id == Some(job_id),
            final(self).backlog@.len() == 0,
    {
        self.running = true;
        self.last_job_id = Some(job_id);
        self.backlog = String::new();
    }

    /// Keeps one line received from the job's stream, with a newline;
    /// blank lines are not kept. Returns whether the line was kept.
    pub fn record_line(&mut self, line: &str) -> (r: bool)
        ensures
            r == !is_blank(line@),
            final(self).running == old(self).running,
            final(self).last_job_id == old(self).last_job_id,
            final(self).backlog@ == if r { old(self).backlog@ + line@ + seq!['\n'] } else { old(self).backlog@ },
    {
        if blank(line) {
            return false;
        }
        self.backlog.append(line);
        crate::text::push_char(&mut self.backlog, '\n');
        true
    }

    /// Records whether the job still runs.
    pub fn set_running(&mut self, running: bool)
        ensures
            final(self).running == running,
            final(self).backlog == old(self).backlog,
            final(self).last_job_id == old(self).last_job_id,
    {
        self.running = running;
    }
}

/// The job whose tail a caller asks for: its last job, or the reply
/// `(no active session)` when it has none.
pub fn tail_target(state: Option<&NodeState>) -> (r: Result<String, String>)
    ensures
        match state {
            Some(st) if st.last_job_id is Some => r matches Ok(j) && j@ == st.last_job_id->0@,
            _ => r matches Err(m) && m@ == "(no active session)"@,
        },
{
    match state {
        Some(st) => match &st.last_job_id {
            Some(j) => Ok(j.clone()),
            None => Err(String::from_str("(no active session)")),
        },
        None => Err(String::from_str("(no active session)")),
    }
}

/// Frames of a stream folded into the output a caller sees.
pub struct TerminalCollector {
    pub stdout: Vec<char>,
    pub stderr: Vec<char>,
    pub exit: Option<String>,
    pub last_seq: u64,
}

impl TerminalCollector {
    /// A collector that has seen nothing.
    pub fn new() -> (r: TerminalCollector)
        ensures
            r.stdout@.len() == 0,
            r.stderr@.len() == 0,
            r.exit is None,
            r.last_seq == 0,
    {
        TerminalCollector { stdout: Vec::new(), stderr: Vec::new(), exit: None, last_seq: 0 }
    }

    /// Folds in one line of a stream. A `stdout` or `stderr` frame adds its
    /// text to that channel; the terminal event records what follows
    /// `exit:`; every frame moves the cursor to the highest sequence number
    /// seen. Lines that are not frames are ignored. Returns whether the
    /// terminal event has been seen.
    pub fn on_line(&mut self, line: &str) -> (r: bool)
        ensures
            r == (final(self).exit is Some),
            (old(self).exit is Some || !is_exit_line(line@)) ==> final(self).exit == old(self).exit,
            final(self).last_seq >= old(self).last_seq,
            match parse_line_spec(line@) {
                None => {
                    &&& final(self).stdout@ == old(self).stdout@
                    &&& final(self).stderr@ == old(self).stderr@
                    &&& final(self).last_seq == old(self).last_seq
                },
                Some((t, seq, d)) => {
                    &&& final(self).last_seq == if seq > old(self).last_seq { seq } else { old(self).last_seq }
                    &&& final(self).stdout@ == if t == FrameKind::Stdout { old(self).stdout@ + d } else { old(self).stdout@ }
                    &&& final(self).stderr@ == if t == FrameKind::Stderr { old(self).stderr@ + d } else { old(self).stderr@ }
                    &&& (old(self).exit is None && t == FrameKind::Event && d.len() >= 5 && d.take(5) == exit_prefix())
                        ==> (final(self).exit matches Some(x) && x@ == d.skip(5))
                },
            },
    {
        let parsed = parse_line(line);
        proof {
            match &parsed {
                Some(f) => {
                    let g = choose|g: crate::frame::FrameModel|
                        #![trigger crate::frame::frame_json(g)]
                        line@ == crate::frame::frame_json(g) || line@ == crate::frame::ndjson_line(g);
                    crate::ndjson::lemma_line_determines_frame(line@, f@, g);
                    assert(parse_line_spec(line@) == Some((f.t, f.seq, f.d@)));
                },
                None => {
                    assert(parse_line_spec(line@) is None);
                },
            }
        }
        match parsed {
            None => {},
            Some(f) => {
                if f.seq > self.last_seq {
                    self.last_seq = f.seq;
                }
                let d = crate::text::chars_of(f.d.as_str());
                match f.t {
                    FrameKind::Stdout => append_chars(&mut self.stdout, &d),
                    FrameKind::Stderr => append_chars(&mut self.stderr, &d),
                    FrameKind::Event => {
                        if self.exit.is_none() && f.is_exit() {
                            let mut x = String::new();
                            let mut i: usize = 5;
                            while i < d.len()
                                invariant
                                    5 <= i <= d@.len(),
                                    x@ == d@.subrange(5, i as int),
                                decreases d@.len() - i,
                            {
                                crate::text::push_char(&mut x, d[i]);
                                i += 1;
                                assert(x@ =~= d@.subrange(5, i as int));
                            }
                            assert(d@.subrange(5, i as int) =~= d@.skip(5));
                            self.exit = Some(x);
                        }
                    },
                }
            },
        }
        self.exit.is_some()
    }

    /// The reply text: `STDOUT:`, `STDERR:` and `EXIT CODE:` sections, each
    /// channel clipped and without trailing white space, the exit status as
    /// `N` for `Some(N)`, and `still running...` when no terminal event came.
    pub fn summary(&self) -> (r: String)
        ensures
            r@ == "STDOUT:\n"@ + trim_end_ws(clipped(self.stdout@)) + "\n\nSTDERR:\n"@
                + trim_end_ws(clipped(self.stderr@)) + "\n\nEXIT CODE:\n"@ + match self.exit {
                Some(x) => exit_display(x@),
                None => "still running..."@,
            },
    {
        let mut out = String::from_str("STDOUT:\n");
        push_section(&mut out, &self.stdout);
        out.append("\n\nSTDERR:\n");
        push_section(&mut out, &self.stderr);
        out.append("\n\nEXIT CODE:\n");
        match &self.exit {
            Some(x) => {
                let cs = crate::text::chars_of(x.as_str());
                let (lo, hi) = trimmed_range(&cs);
                push_range(&mut out, &cs, lo, hi);
            },
            None => out.append("still running..."),
        }
        out
    }
}

impl TerminalCollector {
    /// The live-tail reply for what was collected: the standard output then
    /// the standard error, ANSI escape sequences removed, the last lines,
    /// and the exit footer.
    pub fn live_tail(&self) -> (r: String)
        ensures
            r@ == tail_reply_spec(
                ansi_stripped(self.stdout@ + self.stderr@),
                match self.exit { Some(x) => Some(x@), None => None },
            ),
    {
        let mut text = String::new();
        crate::text::push_chars(&mut text, &self.stdout);
        crate::text::push_chars(&mut text, &self.stderr);
        let exit = match &self.exit {
            Some(x) => Some(x.as_str()),
            None => None,
        };
        tail_reply(text.as_str(), exit)
    }
}

/// What `parse_line` reads from a line, as kind, sequence number and text.
pub open spec fn parse_line_spec(line: Seq<char>) -> Option<(FrameKind, u64, Seq<char>)> {
    if exists|f: crate::frame::FrameModel|
        #![trigger crate::frame::frame_json(f)]
        line == crate::frame::frame_json(f) || line == crate::frame::ndjson_line(f) {
        let f = choose|f: crate::frame::FrameModel|
            #![trigger crate::frame::frame_json(f)]
            line == crate::frame::frame_json(f) || line == crate::frame::ndjson_line(f);
        Some((f.t, f.seq, f.d))
    } else {
        None
    }
}

fn append_chars(v: &mut Vec<char>, d: &Vec<char>)
    ensures
        final(v)@ == old(v)@ + d@,
{
    let ghost start = v@;
    let mut i: usize = 0;
    while i < d.len()
        invariant
            i <= d@.len(),
            v@ == start + d@.take(i as int),
        decreases d@.len() - i,
    {
        v.push(d[i]);
        i += 1;
        assert(v@ =~= start + d@.take(i as int));
    }
    assert(d@.take(i as int) =~= d@);
}

fn push_range(out: &mut String, s: &Vec<char>, lo: usize, hi: usize)
    requires
        lo <= hi <= s@.len(),
    ensures
        final(out)@ == old(out)@ + s@.subrange(lo as int, hi as int),
{
    let ghost start = out@;
    let mut i: usize = lo;
    while i < hi
        invariant
            lo <= i <= hi <= s@.len(),
            out@ == start + s@.subrange(lo as int, i as int),
        decreases hi - i,
    {
        crate::text::push_char(out, s[i]);
        i += 1;
        assert(out@ =~= start + s@.subrange(lo as int, i as int));
    }
}

/// Appends one section of a summary: the channel clipped, then without its
/// trailing white space.
fn push_section(out: &mut String, s: &Vec<char>)
    ensures
        final(out)@ == old(out)@ + trim_end_ws(clipped(s@)),
{
    let mut c: Vec<char> = Vec::new();
    let (n, cut) = clip_point(s);
    append_chars(&mut c, &s_prefix(s, n));
    if cut {
        let marker = crate::text::chars_of("\n[...truncated]");
        append_chars(&mut c, &marker);
    } else {
        assert(s@.take(n as int) =~= s@);
    }
    assert(c@ == clipped(s@));
    let mut hi: usize = c.len();
    assert(c@.subrange(0, hi as int) =~= c@);
    while hi > 0 && is_ws_exec(c[hi - 1])
        invariant
            hi <= c@.len(),
            trim_end_ws(c@.subrange(0, hi as int)) == trim_end_ws(c@),
        decreases hi,
    {
        proof {
            assert(c@.subrange(0, hi as int).drop_last() =~= c@.subrange(0, hi - 1));
        }
        hi = hi - 1;
    }
    push_range(out, &c, 0, hi);
}

/// The first `n` characters of `s`.
fn s_prefix(s: &Vec<char>, n: usize) -> (r: Vec<char>)
    requires
        n <= s@.len(),
    ensures
        r@ == s@.take(n as int),
{
    let mut r: Vec<char> = Vec::new();
    let mut i: usize = 0;
    while i < n
        invariant
            i <= n <= s@.len(),
            r@ == s@.take(i as int),
        decreases n - i,
    {
        r.push(s[i]);
        i += 1;
        assert(r@ =~= s@.take(i as int));
    }
    r
}

} // verus!
