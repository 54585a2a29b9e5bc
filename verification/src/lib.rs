//! Scheduling of video streams over the paths of a multipath connection.
//!
//! A video stream carries a table of its groups of pictures (GOPs), held in a
//! [`VideoGopCollection`]. The [`EMVODScheduler`] reads that table to decide
//! whether the main path can keep up with the deadlines of all streams, or
//! whether the backup path has to carry stream data as well.
//!
//! The selection of a path begins with [`EMVODScheduler::on_select`]. Where there
//! are two paths to choose from, it collects what the streams ask for. The caller estimates from that how a
//! first frame is divided between the paths and whether the demand exceeds the
//! bandwidth of the main path. [`Round::conclude`] then names the path.

pub mod clock;
pub mod decimal;
pub mod error;
pub mod gop_file;
pub mod multipath_scheduler;
pub mod path;
pub mod space;
pub mod stream;
pub mod videogop;

pub use crate::clock::{Clock, Timestamp};
pub use crate::error::Error;
pub use crate::multipath_scheduler::round::{Round, Start};
pub use crate::multipath_scheduler::scheduler_emvod::{EMVODScheduler, MultipathConfig};
pub use crate::multipath_scheduler::transfer::FrameTransfer;
pub use crate::path::{Path, PathEvent, PathMap};
pub use crate::space::{Frame, PacketNumSpace, PacketNumSpaceMap};
pub use crate::stream::{Stream, StreamContext, StreamEntry};
pub use crate::videogop::{VideoGop, VideoGopCollection};
