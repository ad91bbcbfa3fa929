//! Requests and responses of the worker's job and session endpoints, and the
//! checks and formatting around them.
use vstd::prelude::*;
use std::collections::HashMap;

verus! {

/// Errors of the worker, by HTTP class.
#[derive(Debug)]
pub enum Error {
    /// Malformed input (400).
    BadRequest(String),
    /// Unknown job or session id (404).
    NotFound(String),
    /// An operating-system failure: spawn, PTY or pipe I/O (500).
    Io(String),
    /// Any other internal failure (500).
    Other(String),
}

impl Error {
    /// The HTTP status code of the error.
    pub fn status_code(&self) -> (r: u16)
        ensures
            r == match self {
                Error::BadRequest(_) => 400u16,
                Error::NotFound(_) => 404u16,
                Error::Io(_) | Error::Other(_) => 500u16,
            },
    {
        match self {
            Error::BadRequest(_) => 400,
            Error::NotFound(_) => 404,
            Error::Io(_) | Error::Other(_) => 500,
        }
    }

    /// The human-readable message of the error.
    pub fn message(&self) -> (r: String)
        ensures
            r@ == match self {
                Error::BadRequest(m) | Error::NotFound(m) | Error::Io(m) | Error::Other(m) => m@,
            },
    {
        match self {
            Error::BadRequest(m) | Error::NotFound(m) | Error::Io(m) | Error::Other(m) => m.clone(),
        }
    }
}

/// Body of `POST /exec`.
#[derive(Debug)]
pub struct ExecRequest {
    pub cmd: Vec<String>,
    pub cwd: Option<String>,
    pub env: Option<HashMap<String, String>>,
    pub timeout_ms: Option<u64>,
}

/// Reply of `POST /exec`.
#[derive(Debug)]
pub struct ExecResponse {
    pub job_id: String,
    pub stream_url: String,
    pub status_url: String,
    pub cancel_url: String,
}

/// Body of `POST /sessions`.
#[derive(Debug)]
pub struct SessionRequest {
    pub mode: String,
    pub profile: Option<String>,
    pub cols: Option<u16>,
    pub rows: Option<u16>,
}

/// Reply of `POST /sessions`.
#[derive(Debug)]
pub struct SessionResponse {
    pub session_id: String,
    pub stream_url: String,
    pub write_url: String,
    pub resize_url: String,
    pub close_url: String,
}

/// Reply of `GET /status/{id}`.
#[derive(Debug)]
pub struct StatusResponse {
    pub state: String,
    pub exit_code: Option<i32>,
    pub seq_latest: u64,
}

/// Body of `POST /sessions/{id}/write`.
#[derive(Debug)]
pub struct WriteRequest {
    pub data: String,
}

/// Body of `POST /sessions/{id}/resize`.
#[derive(Debug)]
pub struct ResizeRequest {
    pub cols: u16,
    pub rows: u16,
}

/// The texts of a list of strings.
pub open spec fn texts(v: Seq<String>) -> Seq<Seq<char>> {
    v.map_values(|s: String| s@)
}

/// The parts joined with single spaces.
pub open spec fn join_spaces(parts: Seq<Seq<char>>) -> Seq<char>
    decreases parts.len(),
{
    if parts.len() == 0 {
        Seq::empty()
    } else if parts.len() == 1 {
        parts[0]
    } else {
        join_spaces(parts.drop_last()).push(' ') + parts.last()
    }
}

/// The command line a job runs under the login shell: the parts of `cmd`
/// joined with single spaces. An empty `cmd` is refused.
pub fn shell_command(cmd: &Vec<String>) -> (r: Result<String, Error>)
    ensures
        cmd@.len() == 0 <==> r is Err,
        match r {
            Ok(s) => s@ == join_spaces(texts(cmd@)),
            Err(e) => e matches Error::BadRequest(m) && m@ == "cmd required"@,
        },
{
    if cmd.len() == 0 {
        return Err(Error::BadRequest(String::from_str("cmd required")));
    }
    let mut out = cmd[0].clone();
    let mut i: usize = 1;
    assert(texts(cmd@).take(1).drop_last() =~= Seq::<Seq<char>>::empty());
    while i < cmd.len()
        invariant
            1 <= i <= cmd@.len(),
            out@ == join_spaces(texts(cmd@).take(i as int)),
        decreases cmd@.len() - i,
    {
        crate::text::push_char(&mut out, ' ');
        out.append(cmd[i].as_str());
        proof {
            let t = texts(cmd@).take(i + 1);
            assert(t.drop_last() =~= texts(cmd@).take(i as int));
            assert(t.last() == cmd@[i as int]@);
        }
        i += 1;
    }
    assert(texts(cmd@).take(i as int) =~= texts(cmd@));
    Ok(out)
}

/// The command line of an exec request.
pub fn exec_command(req: &ExecRequest) -> (r: Result<String, Error>)
    ensures
        req.cmd@.len() == 0 <==> r is Err,
        match r {
            Ok(s) => s@ == join_spaces(texts(req.cmd@)),
            Err(e) => e matches Error::BadRequest(m) && m@ == "cmd required"@,
        },
{
    shell_command(&req.cmd)
}

/// `a` followed by `b`.
fn concat2(a: &str, b: &str) -> (r: String)
    ensures
        r@ == a@ + b@,
{
    let mut s = String::from_str(a);
    s.append(b);
    s
}

/// `a`, `b` and `c` in a row.
fn concat3(a: &str, b: &str, c: &str) -> (r: String)
    ensures
        r@ == a@ + b@ + c@,
{
    let mut s = String::from_str(a);
    s.append(b);
    s.append(c);
    s
}

/// The reply to an accepted job: its id and the URLs of its stream, status
/// and cancellation.
pub fn exec_response(id: &str) -> (r: ExecResponse)
    ensures
        r.job_id@ == id@,
        r.stream_url@ == "/stream/"@ + id@ + "?from=0"@,
        r.status_url@ == "/status/"@ + id@,
        r.cancel_url@ == "/cancel/"@ + id@,
{
    ExecResponse {
        job_id: String::from_str(id),
        stream_url: concat3("/stream/", id, "?from=0"),
        status_url: concat2("/status/", id),
        cancel_url: concat2("/cancel/", id),
    }
}

/// The reply to an opened session: its id and the URLs of its stream, write,
/// resize and close endpoints.
pub fn session_response(id: &str) -> (r: SessionResponse)
    ensures
        r.session_id@ == id@,
        r.stream_url@ == "/sessions/"@ + id@ + "/stream?from=0"@,
        r.write_url@ == "/sessions/"@ + id@ + "/write"@,
        r.resize_url@ == "/sessions/"@ + id@ + "/resize"@,
        r.close_url@ == "/sessions/"@ + id@ + "/close"@,
{
    SessionResponse {
        session_id: String::from_str(id),
        stream_url: concat3("/sessions/", id, "/stream?from=0"),
        write_url: concat3("/sessions/", id, "/write"),
        resize_url: concat3("/sessions/", id, "/resize"),
        close_url: concat3("/sessions/", id, "/close"),
    }
}

/// Window width of a session when the request gives none.
pub const DEFAULT_COLS: u16 = 120;

/// Window height of a session when the request gives none.
pub const DEFAULT_ROWS: u16 = 32;

/// What a session request asks for, once checked.
#[derive(Debug)]
pub struct SessionPlan {
    pub profile: Option<String>,
    pub cols: u16,
    pub rows: u16,
}

/// Checks a session request: only the `interactive` mode is accepted; the
/// window size defaults to 120 columns by 32 rows.
pub fn plan_session(req: &SessionRequest) -> (r: Result<SessionPlan, Error>)
    ensures
        (req.mode@ == "interactive"@) <==> r is Ok,
        match r {
            Ok(p) => {
                &&& p.profile == req.profile
                &&& p.cols == match req.cols { Some(c) => c, None => DEFAULT_COLS }
                &&& p.rows == match req.rows { Some(c) => c, None => DEFAULT_ROWS }
            },
            Err(e) => e matches Error::BadRequest(m) && m@ == "only interactive mode supported"@,
        },
{
    let interactive = String::from_str("interactive");
    if req.mode != interactive {
        return Err(Error::BadRequest(String::from_str("only interactive mode supported")));
    }
    let cols = match req.cols {
        Some(c) => c,
        None => DEFAULT_COLS,
    };
    let rows = match req.rows {
        Some(c) => c,
        None => DEFAULT_ROWS,
    };
    let profile = match &req.profile {
        Some(p) => Some(p.clone()),
        None => None,
    };
    Ok(SessionPlan { profile, cols, rows })
}

/// The status of a job: `exited` once its stream has ended, that is once
/// the waiter has recorded the exit (with a code or without one), `running`
/// before; its exit code; and the sequence number of its latest frame.
pub fn job_status(ended: bool, exit_code: Option<i32>, seq_latest: u64) -> (r: StatusResponse)
    ensures
        r.state@ == if ended { "exited"@ } else { "running"@ },
        r.exit_code == exit_code,
        r.seq_latest == seq_latest,
{
    let state = if ended {
        String::from_str("exited")
    } else {
        String::from_str("running")
    };
    StatusResponse { state, exit_code, seq_latest }
}

/// The error of cancelling an unknown job: `job <id> not found`.
pub fn job_id_not_found(id: &str) -> (r: Error)
    ensures
        r matches Error::NotFound(m) && m@ == "job "@ + id@ + " not found"@,
{
    Error::NotFound(concat3("job ", id, " not found"))
}

/// The error of an unknown job id.
pub fn job_not_found() -> (r: Error)
    ensures
        r matches Error::NotFound(m) && m@ == "job not found"@,
{
    Error::NotFound(String::from_str("job not found"))
}

/// The error of an unknown session id.
pub fn session_not_found() -> (r: Error)
    ensures
        r matches Error::NotFound(m) && m@ == "session not found"@,
{
    Error::NotFound(String::from_str("session not found"))
}

/// The error of a failed window resize, with the operating system's text.
pub fn resize_failed(os_error: &str) -> (r: Error)
    ensures
        r matches Error::Io(m) && m@ == "ioctl TIOCSWINSZ failed: "@ + os_error@,
{
    Error::Io(concat2("ioctl TIOCSWINSZ failed: ", os_error))
}

} // verus!
