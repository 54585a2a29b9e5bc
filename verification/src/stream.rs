//! What the scheduler knows of the streams of a connection.

use vstd::prelude::*;

use crate::videogop::VideoGopCollection;

verus! {

/// What the application has attached to a stream.
#[derive(Debug)]
pub enum StreamContext {
    /// Nothing.
    Absent,
    /// Something that says nothing about video.
    Other,
    /// The table of the GOPs that the stream carries.
    Video(VideoGopCollection),
}

/// The sending side of a stream.
#[derive(Debug)]
pub struct Stream {
    /// Whether the stream has been stopped.
    pub stopped: bool,
    /// The offset that is sent next, counting what has to be sent again.
    pub send_off: u64,
    /// The offset that is sent next when nothing has to be sent again.
    pub send_off_without_retrans: u64,
    /// What the application has attached to the stream.
    pub context: StreamContext,
}

/// An entry in a walk over the streams of a connection.
#[derive(Debug)]
pub struct StreamEntry {
    /// The identifier of the stream.
    pub id: u64,
    /// The stream, unless it has gone in the meantime.
    pub stream: Option<Stream>,
}

} // verus!
