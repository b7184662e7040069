//! The named pipe the two halves of the app talk over: its name, who may open
//! it, and what a failure to take or open it means.

use vstd::prelude::*;

use crate::error::{joined, IoFault, IoKind};

verus! {

/// How often to try again when every pipe instance is momentarily busy.
pub const BUSY_RETRIES: u32 = 10;

/// How long to wait in between, in milliseconds.
pub const BUSY_WAIT_MS: u64 = 50;

/// The pipe the app listens on, for the user with this security identifier.
///
/// The suffix makes "is it already running?" a per-user question: two people
/// logged into one machine have two lists.
pub fn pipe_name(sid: &str) -> (r: String)
    ensures
        r@ == "\\\\.\\pipe\\fdm.manager."@ + sid@,
{
    joined("\\\\.\\pipe\\fdm.manager.", sid)
}

/// Two users never share a pipe.
pub proof fn law_pipe_names_are_per_user(a: Seq<char>, b: Seq<char>)
    requires
        "\\\\.\\pipe\\fdm.manager."@ + a == "\\\\.\\pipe\\fdm.manager."@ + b,
    ensures
        a == b,
{
    let front = "\\\\.\\pipe\\fdm.manager."@;
    assert(a =~= (front + a).skip(front.len() as int));
    assert(b =~= (front + b).skip(front.len() as int));
}

/// The access list of the pipe: full access for this user and for the system,
/// nothing for anyone else, nothing inherited.
pub fn owner_only(user_sid: &str) -> (r: String)
    ensures
        r@ == "D:P(A;;FA;;;"@ + user_sid@ + ")(A;;FA;;;SY)"@,
{
    let mut out = joined("D:P(A;;FA;;;", user_sid);
    out.append(")(A;;FA;;;SY)");
    out
}

/// Why the server could not take the pipe.
#[derive(Debug, Clone, PartialEq, Eq)]
pub enum BindError {
    /// Another copy already owns the pipe. This is the single-instance check:
    /// the caller should raise the running copy's window and exit.
    AlreadyRunning,
    Io(IoFault),
}

impl BindError {
    /// What the error says.
    pub fn message(&self) -> (r: String)
        ensures
            r@ == (match self {
                BindError::AlreadyRunning => "FDM is already running"@,
                BindError::Io(e) => "could not create the FDM pipe: "@ + e@.message,
            }),
    {
        match self {
            BindError::AlreadyRunning => "FDM is already running".to_owned(),
            BindError::Io(e) => joined("could not create the FDM pipe: ", e.message.as_str()),
        }
    }
}

/// Judge a failure to create the first instance of the pipe. Access denied means
/// that an instance of the name already exists.
pub fn bind_failure(e: IoFault) -> (r: BindError)
    ensures
        if e@.code == Some(5i32) {
            r is AlreadyRunning
        } else {
            r matches BindError::Io(f) && f@ == e@
        },
{
    let denied = match e.code {
        Some(c) => c == 5,
        None => false,
    };
    if denied {
        BindError::AlreadyRunning
    } else {
        BindError::Io(e)
    }
}

/// What to do after a failure to open the pipe.
pub enum ConnectStep {
    /// No server is listening. Not worth retrying: the app is closed.
    NotRunning,
    /// Every instance is busy: the server is there, so wait for it.
    Wait { delay_ms: u64 },
    Fail(IoFault),
}

/// Judge a failure to open the pipe, after `attempt` earlier waits.
pub fn connect_failure(e: IoFault, attempt: u32) -> (r: ConnectStep)
    ensures
        if e@.kind == IoKind::NotFound {
            r is NotRunning
        } else if e@.code == Some(231i32) && attempt < BUSY_RETRIES {
            r == (ConnectStep::Wait { delay_ms: BUSY_WAIT_MS })
        } else {
            r matches ConnectStep::Fail(f) && f@ == e@
        },
{
    if e.kind == IoKind::NotFound {
        return ConnectStep::NotRunning;
    }
    let busy = match e.code {
        Some(c) => c == 231,
        None => false,
    };
    if busy && attempt < BUSY_RETRIES {
        ConnectStep::Wait { delay_ms: BUSY_WAIT_MS }
    } else {
        ConnectStep::Fail(e)
    }
}

} // verus!
