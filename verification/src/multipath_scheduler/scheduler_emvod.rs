//! The EMVOD scheduler.

use vstd::prelude::*;

use crate::clock::{Clock, Timestamp};
use crate::error::Error;
use crate::multipath_scheduler::round;
use crate::multipath_scheduler::round::{check_streams, scan, PathEstimate, Round, Start};
use crate::multipath_scheduler::transfer::{FrameTransfer, TransferState};
use crate::path;
use crate::path::{PathEvent, PathMap};
use crate::stream::StreamEntry;

verus! {

/// The settings of a multipath connection. The EMVOD scheduler has none.
#[derive(Debug, Clone, Copy, Default)]
pub struct MultipathConfig {}

/// The paths that a scheduler has selected.
pub struct Roles {
    /// The main path.
    pub main: Option<usize>,
    /// The backup path.
    pub backup: Option<usize>,
}

impl Roles {
    /// Whether there is a backup path only beside a main path.
    pub open spec fn wf(self) -> bool {
        self.backup is Some ==> self.main is Some
    }

    /// The roles after `pid` has filled those that are open.
    pub open spec fn filled_with(self, pid: Option<usize>) -> Roles {
        Roles {
            main: if self.main is Some {
                self.main
            } else {
                pid
            },
            backup: if self.backup is Some {
                self.backup
            } else {
                pid
            },
        }
    }

    /// The roles after a path event.
    ///
    /// A validated path takes the first open role. When the main path is
    /// abandoned, the backup path takes its place.
    pub open spec fn after(self, event: PathEvent) -> Roles {
        match event {
            PathEvent::Validated(pid) => if self.main is None {
                Roles { main: Some(pid), ..self }
            } else if self.backup is None {
                Roles { backup: Some(pid), ..self }
            } else {
                self
            },
            PathEvent::Abandoned(pid) => if self.main == Some(pid) {
                Roles { main: self.backup, backup: None }
            } else if self.backup == Some(pid) {
                Roles { backup: None, ..self }
            } else {
                self
            },
        }
    }
}

/// EMVOD scheduler is designed for video streaming.
/// The goal of EMVOD scheduler is minimize the first frame delay and cost of backup path.
#[derive(Debug)]
pub struct EMVODScheduler {
    /// Current selected main path.
    main_pid: Option<usize>,
    /// Current selected backup path.
    backup_pid: Option<usize>,
}

impl View for EMVODScheduler {
    type V = Roles;

    closed spec fn view(&self) -> Roles {
        Roles { main: self.main_pid, backup: self.backup_pid }
    }
}

impl EMVODScheduler {
    /// There is a backup path only beside a main path.
    #[verifier::type_invariant]
    spec fn roles_wf(self) -> bool {
        self.backup_pid is Some ==> self.main_pid is Some
    }

    /// Creates a scheduler whose main path is the first path of the connection.
    pub fn new(_conf: &MultipathConfig) -> (scheduler: EMVODScheduler)
        ensures
            scheduler@ == (Roles { main: Some(0), backup: None }),
            scheduler@.wf(),
    {
        EMVODScheduler { main_pid: Some(0), backup_pid: None }
    }

    /// Fills the open roles with the first active path.
    pub fn try_update_main_backup(&mut self, paths: &PathMap)
        ensures
            final(self)@ == old(self)@.filled_with(path::first_active(paths.order(), paths@)),
            final(self)@.wf(),
    {
        let pids = paths.pids();
        proof {
            use_type_invariant(&*self);
            assert(pids@.skip(0) =~= pids@);
        }
        for i in 0..pids.len()
            invariant
                pids@ == paths.order(),
                self.backup_pid is Some ==> self.main_pid is Some,
                old(self)@.filled_with(path::first_active(paths.order(), paths@))
                    == self@.filled_with(path::first_active(pids@.skip(i as int), paths@)),
        {
            assert(pids@.skip(i as int).skip(1) =~= pids@.skip(i + 1));
            let pid: usize = pids[i];
            let active = match paths.get(pid) {
                Ok(path) => path.active,
                Err(_) => false,
            };
            if active {
                if self.main_pid.is_none() {
                    self.main_pid = Some(pid);
                    if self.backup_pid.is_some() {
                        return;
                    }
                }
                if self.backup_pid.is_none() {
                    self.backup_pid = Some(pid);
                    return;
                }
            }
        }
    }

    /// Adapts the selected paths to a path event.
    pub fn on_path_updated(&mut self, paths: &PathMap, event: PathEvent)
        ensures
            final(self)@ == old(self)@.after(event),
            final(self)@.wf(),
    {
        proof {
            use_type_invariant(&*self);
        }
        match event {
            PathEvent::Validated(pid) => match (self.main_pid, self.backup_pid) {
                (Some(_), Some(_)) => self.try_update_main_backup(paths),
                (Some(_), None) => self.backup_pid = Some(pid),
                (None, _) => self.main_pid = Some(pid),
            },
            PathEvent::Abandoned(pid) => {
                if self.main_pid == Some(pid) {
                    self.main_pid = self.backup_pid;
                    self.backup_pid = None;
                }
                if self.backup_pid == Some(pid) {
                    self.backup_pid = None;
                }
            },
        }
    }

    /// Starts to move `frame_len` bytes of a stream, from `stream_offset` on,
    /// into the buffer of a path. Returns `None` if the stream is not known.
    pub fn buffer_frame_to_path(
        &self,
        stream_known: bool,
        stream_id: u64,
        stream_offset: u64,
        frame_len: u64,
    ) -> (transfer: Option<FrameTransfer>)
        ensures
            match transfer {
                Some(transfer) => stream_known && transfer@ == (TransferState {
                    stream_id: stream_id as int,
                    offset: stream_offset as int,
                    limit: frame_len as int,
                    failed: false,
                }),
                None => !stream_known,
            },
    {
        if stream_known {
            Some(FrameTransfer::new(stream_id, stream_offset, frame_len))
        } else {
            None
        }
    }

    /// Checks that the sums that [`on_select_at`](Self::on_select_at) has to take
    /// stay within the range of their types.
    pub fn check_select(
        &self,
        paths: &PathMap,
        streams: &Vec<StreamEntry>,
        now: Timestamp,
    ) -> (fit: bool)
        ensures
            fit == round::round_in_range(self@.main, self@.backup, paths@, streams@, now),
    {
        let main_path = match self.main_pid {
            Some(main_pid) => match paths.get(main_pid) {
                Ok(main_path) => main_path,
                Err(_) => {
                    return true;
                },
            },
            None => {
                return true;
            },
        };
        if !main_path.check_lost_bytes() {
            return false;
        }
        let backup_path = match self.backup_pid {
            Some(backup_pid) => match paths.get(backup_pid) {
                Ok(backup_path) => backup_path,
                Err(_) => {
                    return true;
                },
            },
            None => {
                return true;
            },
        };
        if !main_path.is_usable() && !backup_path.is_usable() {
            return true;
        }
        backup_path.check_lost_bytes() && check_streams(streams, now)
    }

    /// Starts the selection of a path at the present time, as
    /// [`on_select_at`](Self::on_select_at) does.
    pub fn on_select(
        &self,
        paths: &PathMap,
        streams: &Vec<StreamEntry>,
        clock: &Clock,
    ) -> (start: Result<Start, Error>)
        requires
            forall|now: Timestamp| #[trigger]
                round::round_in_range(self@.main, self@.backup, paths@, streams@, now),
        ensures
            match start {
                Ok(Start::Main(pid)) => {
                    &&& round::alone(self@.main, self@.backup, paths@)
                    &&& self@.main == Some(pid)
                },
                Ok(Start::Round(round)) => exists|now: Timestamp| #[trigger]
                    round::is_round(self@.main, self@.backup, paths@, streams@, now, round),
                Err(error) => round::refusal(self@.main, self@.backup, paths@) == Some(error),
            },
    {
        let now = clock.now();
        self.on_select_at(paths, streams, now)
    }

    /// Starts the selection of a path: looks at the paths that have a role and
    /// at what the streams ask for.
    ///
    /// A usable main path without a known backup path is returned at once.
    /// Otherwise returns what a round of selection between the two paths has
    /// found out. From that the bandwidth of the paths and the demand of the
    /// streams is estimated, each
    /// [first frame](crate::multipath_scheduler::round::FirstFrame) is assigned
    /// to paths, and [`Round::conclude`] names the path that sends next.
    pub fn on_select_at(
        &self,
        paths: &PathMap,
        streams: &Vec<StreamEntry>,
        now: Timestamp,
    ) -> (start: Result<Start, Error>)
        requires
            round::round_in_range(self@.main, self@.backup, paths@, streams@, now),
        ensures
            match start {
                Ok(Start::Main(pid)) => {
                    &&& round::alone(self@.main, self@.backup, paths@)
                    &&& self@.main == Some(pid)
                },
                Ok(Start::Round(round)) => round::is_round(
                    self@.main,
                    self@.backup,
                    paths@,
                    streams@,
                    now,
                    round,
                ),
                Err(error) => round::refusal(self@.main, self@.backup, paths@) == Some(error),
            },
    {
        let main_pid: usize = self.main_pid.ok_or(Error::Done)?;
        let main_path = paths.get(main_pid)?;
        let main = PathEstimate::of(main_path);
        let main_usable = main_path.is_usable();

        let backup_pid: usize = match self.backup_pid {
            Some(backup_pid) => backup_pid,
            None => {
                return if main_usable {
                    Ok(Start::Main(main_pid))
                } else {
                    Err(Error::Done)
                };
            },
        };
        let backup_path = match paths.get(backup_pid) {
            Ok(backup_path) => backup_path,
            Err(error) => {
                return if main_usable {
                    Ok(Start::Main(main_pid))
                } else {
                    Err(error)
                };
            },
        };
        if !main_usable && !backup_path.is_usable() {
            return Err(Error::Done);
        }
        let backup = PathEstimate::of(backup_path);

        let (visits, end) = scan(streams, main.srtt_millis <= backup.srtt_millis, now);
        Ok(
            Start::Round(
                Round { main_pid, backup_pid, main_usable, main, backup, visits, end },
            ),
        )
    }
}

/// A path event leaves no backup path without a main path.
pub proof fn law_roles_stay_in_order(roles: Roles, event: PathEvent)
    requires
        roles.wf(),
    ensures
        roles.after(event).wf(),
{
}

/// When both roles are taken, neither a validated path nor an attempt to fill
/// the roles changes them.
pub proof fn law_taken_roles_stay(roles: Roles, pid: usize, candidate: Option<usize>)
    requires
        roles.main is Some,
        roles.backup is Some,
    ensures
        roles.after(PathEvent::Validated(pid)) == roles,
        roles.filled_with(candidate) == roles,
{
}

/// The two roles stay with different paths, unless the main path is validated
/// while there is no backup path.
pub proof fn law_roles_stay_apart(roles: Roles, event: PathEvent)
    requires
        roles.main is None || roles.main != roles.backup,
        event matches PathEvent::Validated(pid) ==> !(roles.main == Some(pid)
            && roles.backup is None),
        roles.wf(),
    ensures
        roles.after(event).main is None || roles.after(event).main != roles.after(event).backup,
{
}

/// An abandoned path that did not hold both roles holds none afterwards, and
/// the backup path takes the place of an abandoned main path.
pub proof fn law_abandoned_path_loses_its_role(roles: Roles, pid: usize)
    requires
        !(roles.main == Some(pid) && roles.backup == Some(pid)),
    ensures
        roles.after(PathEvent::Abandoned(pid)).main != Some(pid),
        roles.after(PathEvent::Abandoned(pid)).backup != Some(pid),
        roles.main == Some(pid) ==> roles.after(PathEvent::Abandoned(pid)).main == roles.backup,
{
}

/// Abandoning a path takes away no role but its own: the main path stays unless
/// it is the one, and so does the backup path, unless it is the one or moves up.
pub proof fn law_other_paths_keep_their_roles(roles: Roles, pid: usize)
    ensures
        ({
            let after = roles.after(PathEvent::Abandoned(pid));
            &&& roles.main != Some(pid) ==> after.main == roles.main
            &&& roles.main != Some(pid) && roles.backup != Some(pid) ==> after.backup
                == roles.backup
            &&& roles.main != Some(pid) && roles.backup == Some(pid) ==> after.backup is None
            &&& roles.main == Some(pid) ==> after.main == roles.backup && after.backup is None
        }),
{
}

/// A validated path takes the role of the main path if that is open, else the
/// role of the backup path if that is open, and never a role that is taken.
pub proof fn law_validated_path_takes_first_open_role(roles: Roles, pid: usize)
    ensures
        ({
            let after = roles.after(PathEvent::Validated(pid));
            &&& roles.main is None ==> after.main == Some(pid) && after.backup == roles.backup
            &&& roles.main is Some ==> after.main == roles.main
            &&& roles.main is Some && roles.backup is None ==> after.backup == Some(pid)
            &&& roles.backup is Some ==> after.backup == roles.backup
        }),
{
}

/// Filling the roles gives the candidate to those that are open, and leaves the
/// others.
pub proof fn law_open_roles_are_filled(roles: Roles, candidate: Option<usize>)
    ensures
        roles.main is Some ==> roles.filled_with(candidate).main == roles.main,
        roles.main is None ==> roles.filled_with(candidate).main == candidate,
        roles.backup is Some ==> roles.filled_with(candidate).backup == roles.backup,
        roles.backup is None ==> roles.filled_with(candidate).backup == candidate,
{
}

/// A path that is validated as backup path and abandoned again leaves the roles
/// as they were.
pub proof fn law_abandonment_undoes_validation(roles: Roles, pid: usize)
    requires
        roles.main is Some,
        roles.main != Some(pid),
        roles.backup is None,
    ensures
        roles.after(PathEvent::Validated(pid)).after(PathEvent::Abandoned(pid)) == roles,
{
}

} // verus!
