//! The client side of the media player's control socket.

use crate::session::{Session, SessionModel};
use std::path::PathBuf;
use vstd::prelude::*;

verus! {

/// `std::path::PathBuf`. The library only carries the path through.
#[verifier::external_type_specification]
#[verifier::external_body]
pub struct ExPathBuf(PathBuf);

/// The identifier under which the control socket is registered.
pub const CLIENT: usize = 0;

/// The identifier under which the receiver of the client's channel is
/// registered.
pub const BROADCAST: usize = 1;

/// What an identifier in a readiness event of the client's loop stands for.
#[derive(Clone, Copy, Debug, PartialEq, Eq, Structural)]
pub enum Source {
    /// The control socket.
    Transport,
    /// The receiver of the channel that carries the subtitles.
    Channel,
}

/// The source that `token` stands for in the client's loop. Only the two
/// reserved identifiers are registered there.
pub open spec fn source_model(token: usize) -> Option<Source> {
    if token == CLIENT {
        Some(Source::Transport)
    } else if token == BROADCAST {
        Some(Source::Channel)
    } else {
        None
    }
}

/// Tells the two sources of the client's loop apart. Any other identifier
/// was never registered and gives `None`.
pub fn source_of(token: usize) -> (source: Option<Source>)
    ensures
        source == source_model(token),
{
    if token == CLIENT {
        Some(Source::Transport)
    } else if token == BROADCAST {
        Some(Source::Channel)
    } else {
        None
    }
}

/// The client of the media player's control socket, known by the path of
/// that socket.
pub struct Client {
    path: PathBuf,
}

impl Client {
    /// The path that the client was made with.
    pub closed spec fn socket_path(&self) -> PathBuf {
        self.path
    }

    /// A client for the control socket at `path`.
    pub fn new(path: PathBuf) -> (client: Client)
        ensures
            client.socket_path() == path,
    {
        Client { path }
    }

    /// The path of the control socket.
    pub fn path(&self) -> (path: &PathBuf)
        ensures
            *path == self.socket_path(),
    {
        &self.path
    }

    /// The session to drive once the transport at the path is connected: the
    /// command that observes the subtitle text is queued and waits for the
    /// first writable event.
    pub fn session(&self) -> (session: Session)
        ensures
            session@ == SessionModel::opened(),
    {
        Session::open()
    }
}

} // verus!
