//! The session state machine that client and server step through together:
//! the client signals a move, the server accepts it only from `Ready`.
use vstd::prelude::*;

verus! {

/// Where a session stands.
#[derive(Debug, Clone, Copy, PartialEq, Eq, Structural)]
pub enum SessionState {
    Handshake { complete: bool },
    Ready,
    Transfer,
    Naming,
    Dead,
}

/// A move the client asks for.
#[derive(Debug, Clone, Copy, PartialEq, Eq, Structural)]
pub enum ClientSignal {
    MoveTransfer,
    MoveNaming,
}

/// The server's answer to a signal.
#[derive(Debug, Clone, Copy, PartialEq, Eq, Structural)]
pub enum ServerResponse {
    Success,
    Failure,
}

/// Why a step of the session failed.
#[derive(Debug, Clone, Copy, PartialEq, Eq, Structural)]
pub enum SessionError {
    /// The server refused the signal.
    TransitionRefused,
    /// The client waited in vain for the server's answer.
    ServerTimedOut,
    /// The server waited in vain for the client's signal.
    ClientTimedOut,
}

impl SessionError {
    /// The text reported for each error.
    pub open spec fn text(self) -> Seq<char> {
        match self {
            SessionError::TransitionRefused => "Could not transition state"@,
            SessionError::ServerTimedOut => "Server timed out, session moved to dead"@,
            SessionError::ClientTimedOut => "Client timed out, killing stream and moving to dead"@,
        }
    }

    /// The message reported for this error.
    pub fn message(&self) -> (res: &'static str)
        ensures
            res@ == self.text(),
    {
        match self {
            SessionError::TransitionRefused => "Could not transition state",
            SessionError::ServerTimedOut => "Server timed out, session moved to dead",
            SessionError::ClientTimedOut => "Client timed out, killing stream and moving to dead",
        }
    }
}

impl ClientSignal {
    /// The wire word of a signal.
    pub open spec fn code_of(self) -> u32 {
        match self {
            ClientSignal::MoveTransfer => 1,
            ClientSignal::MoveNaming => 2,
        }
    }

    /// The state a signal asks to move to.
    pub open spec fn target(self) -> SessionState {
        match self {
            ClientSignal::MoveTransfer => SessionState::Transfer,
            ClientSignal::MoveNaming => SessionState::Naming,
        }
    }

    /// The wire word of this signal.
    pub fn code(&self) -> (res: u32)
        ensures
            res == self.code_of(),
    {
        match self {
            ClientSignal::MoveTransfer => 1,
            ClientSignal::MoveNaming => 2,
        }
    }

    /// The signal a wire word carries (the words are 1 and 2).
    pub fn from_code(v: u32) -> (res: ClientSignal)
        requires
            v == 1 || v == 2,
        ensures
            res.code_of() == v,
    {
        if v == 1 {
            ClientSignal::MoveTransfer
        } else {
            ClientSignal::MoveNaming
        }
    }
}

impl ServerResponse {
    /// The wire word of a response.
    pub open spec fn code_of(self) -> u32 {
        match self {
            ServerResponse::Success => 1,
            ServerResponse::Failure => 2,
        }
    }

    /// The wire word of this response.
    pub fn code(&self) -> (res: u32)
        ensures
            res == self.code_of(),
    {
        match self {
            ServerResponse::Success => 1,
            ServerResponse::Failure => 2,
        }
    }

    /// The response a wire word carries (the words are 1 and 2).
    pub fn from_code(v: u32) -> (res: ServerResponse)
        requires
            v == 1 || v == 2,
        ensures
            res.code_of() == v,
    {
        if v == 1 {
            ServerResponse::Success
        } else {
            ServerResponse::Failure
        }
    }
}

/// Where a new session starts.
pub fn initial_state() -> (res: SessionState)
    ensures
        res == (SessionState::Handshake { complete: false }),
{
    SessionState::Handshake { complete: false }
}

/// The server's step: from `Ready` a signal moves to its target and is
/// answered with success; from any other state it is refused and the state
/// stays.
pub open spec fn server_step(state: SessionState, signal: ClientSignal) -> (
    SessionState,
    ServerResponse,
) {
    if state == SessionState::Ready {
        (signal.target(), ServerResponse::Success)
    } else {
        (state, ServerResponse::Failure)
    }
}

/// The server's step on what it received in `state`: nothing within the
/// time allowed kills the session; a signal is handled by `server_step`.
pub open spec fn server_receive(state: SessionState, received: Option<ClientSignal>) -> (
    SessionState,
    Result<ServerResponse, SessionError>,
) {
    match received {
        None => (SessionState::Dead, Err(SessionError::ClientTimedOut)),
        Some(signal) => (server_step(state, signal).0, Ok(server_step(state, signal).1)),
    }
}

/// The client's step once it has waited for the answer to `signal`: no
/// answer kills the session; success moves to the target; failure is an
/// error and the state stays.
pub open spec fn client_step(
    state: SessionState,
    signal: ClientSignal,
    reply: Option<ServerResponse>,
) -> (SessionState, Result<(), SessionError>) {
    match reply {
        None => (SessionState::Dead, Err(SessionError::ServerTimedOut)),
        Some(ServerResponse::Success) => (signal.target(), Ok(())),
        Some(ServerResponse::Failure) => (state, Err(SessionError::TransitionRefused)),
    }
}

/// The server's handling of what it received in `state` (`None`: the
/// client's signal did not come in time). Gives the next state and the
/// answer to send.
pub fn read_signal(state: SessionState, received: Option<ClientSignal>) -> (res: (
    SessionState,
    Result<ServerResponse, SessionError>,
))
    ensures
        res == server_receive(state, received),
        received is None ==> res == (SessionState::Dead, Err::<ServerResponse, SessionError>(
            SessionError::ClientTimedOut,
        )),
{
    match received {
        None => (SessionState::Dead, Err(SessionError::ClientTimedOut)),
        Some(ClientSignal::MoveTransfer) => match state {
            SessionState::Ready => (SessionState::Transfer, Ok(ServerResponse::Success)),
            _ => (state, Ok(ServerResponse::Failure)),
        },
        Some(ClientSignal::MoveNaming) => match state {
            SessionState::Ready => (SessionState::Naming, Ok(ServerResponse::Success)),
            _ => (state, Ok(ServerResponse::Failure)),
        },
    }
}

/// The client's handling of the answer to the signal it sent in `state`
/// (`None`: no answer came in time). Gives the next state and the outcome.
pub fn send_signal(state: SessionState, signal: ClientSignal, reply: Option<ServerResponse>) -> (res:
    (SessionState, Result<(), SessionError>))
    ensures
        res == client_step(state, signal, reply),
        reply is None ==> res == (SessionState::Dead, Err::<(), SessionError>(
            SessionError::ServerTimedOut,
        )),
{
    match reply {
        None => (SessionState::Dead, Err(SessionError::ServerTimedOut)),
        Some(ServerResponse::Failure) => (state, Err(SessionError::TransitionRefused)),
        Some(ServerResponse::Success) => match signal {
            ClientSignal::MoveNaming => (SessionState::Naming, Ok(())),
            ClientSignal::MoveTransfer => (SessionState::Transfer, Ok(())),
        },
    }
}

/// A client and a server that agree on the session state still agree after
/// the client's signal is answered: both move to the target from `Ready`,
/// and both stay put otherwise (the client then reports the refusal).
pub proof fn lemma_signal_exchange_agrees(state: SessionState, signal: ClientSignal)
    ensures
        ({
            let (server_next, answer) = server_receive(state, Some(signal));
            let (client_next, outcome) = client_step(state, signal, answer.ok());
            &&& answer is Ok
            &&& client_next == server_next
            &&& outcome is Ok <==> state == SessionState::Ready
        }),
{
}

/// A signal refused by the server changes nothing on either side: from any
/// state but `Ready` the server answers failure and stays where it was, and
/// a client told failure stays where it was and reports the refusal. From
/// `Ready` both sides move to the state the signal names.
pub proof fn lemma_refusal_keeps_state(state: SessionState, signal: ClientSignal)
    ensures
        state != SessionState::Ready ==> server_receive(state, Some(signal)) == (
            state,
            Ok::<ServerResponse, SessionError>(ServerResponse::Failure),
        ),
        client_step(state, signal, Some(ServerResponse::Failure)) == (
            state,
            Err::<(), SessionError>(SessionError::TransitionRefused),
        ),
        ({
            let named = match signal {
                ClientSignal::MoveTransfer => SessionState::Transfer,
                ClientSignal::MoveNaming => SessionState::Naming,
            };
            &&& server_receive(SessionState::Ready, Some(signal)) == (
                named,
                Ok::<ServerResponse, SessionError>(ServerResponse::Success),
            )
            &&& client_step(state, signal, Some(ServerResponse::Success)) == (
                named,
                Ok::<(), SessionError>(()),
            )
        }),
{
}

/// Whichever side waits in vain, its session moves to `Dead`, whatever the
/// state it was in.
pub proof fn lemma_timeout_kills(state: SessionState, signal: ClientSignal)
    ensures
        server_receive(state, None).0 == SessionState::Dead,
        server_receive(state, None).1 is Err,
        client_step(state, signal, None).0 == SessionState::Dead,
        client_step(state, signal, None).1 is Err,
{
}

/// Signals and responses read back from their wire words unchanged.
pub proof fn lemma_codes_roundtrip(signal: ClientSignal, response: ServerResponse)
    ensures
        signal.code_of() == 1 || signal.code_of() == 2,
        response.code_of() == 1 || response.code_of() == 2,
        forall|s: ClientSignal| s.code_of() == signal.code_of() ==> s == signal,
        forall|r: ServerResponse| r.code_of() == response.code_of() ==> r == response,
{
}

} // verus!
