//! The client's half of the liveness handshake.
use vstd::prelude::*;
use crate::server::isalive::ALIVE_TOKEN;

verus! {

/// The server did not answer the handshake with the expected word.
#[derive(Debug, Clone, Copy, PartialEq, Eq, Structural)]
pub enum AliveError {
    /// The word received instead.
    WrongToken(u32),
}

/// Accepts the server's handshake word only when it is the alive token.
pub fn is_alive(word: u32) -> (res: Result<(), AliveError>)
    ensures
        res is Ok <==> word == ALIVE_TOKEN,
        res matches Err(e) ==> e == AliveError::WrongToken(word),
{
    if word != ALIVE_TOKEN {
        Err(AliveError::WrongToken(word))
    } else {
        Ok(())
    }
}

} // verus!
