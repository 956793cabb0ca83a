//! Per-service runtime state and the supervisor's decision steps.
//!
//! The blocking work of a start or stop — creating sockets and pipes,
//! forking, spawning helpers, sleeping, waiting on the bus — happens outside
//! this crate. Each step here takes the outcome of that work as a plain
//! value, updates the service record, and says exactly what the next
//! decision is.

use vstd::prelude::*;

use crate::bytes::find_byte;
use crate::bytes::split_on;
use crate::bytes::subvec;
use crate::bytes::views_of;
use crate::bytes::SPACE;
use crate::config::effective_timeout;
use crate::config::resolve_timeout;
use crate::config::ServiceConfig;
use crate::config::ServiceType;
use crate::config::UnitId;
use crate::pid_table::ChildTermination;
use crate::pid_table::PidEntry;
use crate::pid_table::PidTable;

verus! {

/// Where a service stands in its lifecycle.
#[derive(Clone, Copy, Debug, PartialEq, Eq, Structural)]
pub enum ServiceStatus {
    NeverRan,
    Starting,
    Running,
    Stopped,
}

/// Restart bookkeeping.
#[derive(Clone, Copy, Debug, PartialEq, Eq)]
pub struct ServiceRuntimeInfo {
    /// How many times the service was restarted after an exit.
    pub restarted: u64,
    /// When the current process was forked, in milliseconds, if any.
    pub up_since: Option<u64>,
}

/// The runtime record of one service.
pub struct Service {
    /// Pid of the main process while one is running.
    pub pid: Option<i32>,
    /// Process group of the main process, always the negative of its pid.
    pub process_group: Option<i32>,
    /// Immutable configuration.
    pub service_config: ServiceConfig,
    /// Names of the socket units this service is activated by.
    pub socket_names: Vec<Vec<u8>>,
    pub status: ServiceStatus,
    /// `STATUS=` messages received, oldest first, bounded by
    /// [`crate::notification_handler::STATUS_MSG_CAP`].
    pub status_msgs: Vec<Vec<u8>>,
    pub runtime_info: ServiceRuntimeInfo,
    /// Whether `READY=1` has arrived.
    pub signaled_ready: bool,
    /// Read end of the notification datagram socket, while open.
    pub notifications: Option<i32>,
    /// Filesystem path of the notification socket.
    pub notifications_path: Option<Vec<u8>>,
    /// (read, write) ends of the stdout pipe, while open.
    pub stdout_dup: Option<(i32, i32)>,
    /// (read, write) ends of the stderr pipe, while open.
    pub stderr_dup: Option<(i32, i32)>,
    /// Bytes received on the notification socket since the last newline.
    pub notifications_buffer: Vec<u8>,
    /// Captured stdout bytes since the last newline, plus helper output.
    pub stdout_buffer: Vec<u8>,
    /// Captured stderr bytes since the last newline, plus helper output.
    pub stderr_buffer: Vec<u8>,
}

/// Outcome of a completed start sequence.
#[derive(Clone, Copy, Debug, PartialEq, Eq, Structural)]
pub enum StartResult {
    /// The service went through its full start sequence.
    Started,
    /// The service declares sockets and none has fired yet: its start is
    /// deferred until the first connection.
    WaitingForSocket,
}

/// The decision at the head of a start.
#[derive(Clone, Copy, Debug, PartialEq, Eq, Structural)]
pub enum StartDecision {
    /// Go on with the start sequence.
    Proceed,
    /// Defer to socket activation.
    WaitForSocket,
}

/// Why one helper command failed.
#[derive(Clone, Copy, Debug, PartialEq, Eq, Structural)]
pub enum CmdError {
    /// The process could not be spawned.
    SpawnFailed,
    /// Waiting on the child failed.
    WaitFailed,
    /// The child ended without exit code zero.
    NonZeroExit(ChildTermination),
    /// The configured timeout ran out; the helper was killed.
    TimedOut,
}

/// Why a start failed.
#[derive(Clone, Copy, Debug, PartialEq, Eq, Structural)]
pub enum StartError {
    /// The service already has a pid or a process group.
    AlreadyRunning,
    /// Creating the notification socket or the stdio pipes failed.
    PrepareFailed,
    /// A prestart helper failed; poststop ran and succeeded.
    PrestartFailed(CmdError),
    /// A prestart helper failed and so did a poststop helper.
    PrestartAndPoststopFailed(CmdError, CmdError),
    /// A poststart helper failed; poststop ran and succeeded.
    PoststartFailed(CmdError),
    /// A poststart helper failed and so did a poststop helper.
    PoststartAndPoststopFailed(CmdError, CmdError),
    /// Forking the main process failed.
    ForkExecFailed,
    /// Readiness did not arrive in time; the service is left `Starting`.
    ReadyTimeout,
}

/// Why a stop failed.
#[derive(Clone, Copy, Debug, PartialEq, Eq, Structural)]
pub enum StopError {
    /// A stop helper failed.
    StopFailed(CmdError),
    /// A poststop helper failed.
    PoststopFailed(CmdError),
    /// A stop helper and a poststop helper both failed.
    StopAndPoststopFailed(CmdError, CmdError),
}

/// What service-exit handling decided.
#[derive(Clone, Copy, Debug, PartialEq, Eq, Structural)]
pub enum ExitAction {
    /// The service keeps alive: start it again.
    Restart,
    /// Stop every unit that required this one.
    StopDependents,
}

/// Whether `e` is the main-process entry of the service with unit id `id`.
pub open spec fn is_service_entry_for(e: PidEntry, id: UnitId) -> bool {
    match e {
        PidEntry::Service(u, _) => u == id,
        _ => false,
    }
}

/// The pid link invariant: a service has a pid exactly when the pid table
/// holds a `Service` entry for its unit, that entry sits at its pid, and no
/// second `Service` entry for the unit exists.
pub open spec fn pid_link_ok(s: Service, id: UnitId, t: Map<int, PidEntry>) -> bool {
    match s.pid {
        Some(p) => t.contains_key(p as int) && is_service_entry_for(t[p as int], id) && forall|
            q: int,
        |
            #[trigger] t.contains_key(q) && q != p as int ==> !is_service_entry_for(t[q], id),
        None => forall|q: int| #[trigger] t.contains_key(q) ==> !is_service_entry_for(t[q], id),
    }
}

/// The pid link of a service depends only on where the table has `Service`
/// entries for its unit; any change that keeps those keys keeps the link.
pub proof fn lemma_pid_link_same_entries(
    s: Service,
    id: UnitId,
    t1: Map<int, PidEntry>,
    t2: Map<int, PidEntry>,
)
    requires
        pid_link_ok(s, id, t1),
        forall|q: int|
            #![trigger t1.contains_key(q)]
            #![trigger t2.contains_key(q)]
            (t1.contains_key(q) && is_service_entry_for(t1[q], id)) <==> (t2.contains_key(q)
                && is_service_entry_for(t2[q], id)),
    ensures
        pid_link_ok(s, id, t2),
{
    match s.pid {
        Some(p) => {
            assert(t1.contains_key(p as int) && is_service_entry_for(t1[p as int], id));
        },
        None => {},
    }
}

/// Entering a pid that is new to the table under an entry that is not a
/// `Service` entry for `id` — a helper, or another unit's main process —
/// preserves the pid link of `(s, id)`.
pub proof fn lemma_pid_link_insert_other(
    s: Service,
    id: UnitId,
    t: Map<int, PidEntry>,
    p: int,
    e: PidEntry,
)
    requires
        pid_link_ok(s, id, t),
        !t.contains_key(p),
        !is_service_entry_for(e, id),
    ensures
        pid_link_ok(s, id, t.insert(p, e)),
{
    lemma_pid_link_same_entries(s, id, t, t.insert(p, e));
}

/// Replacing an existing non-`Service` entry — the reaper flipping a
/// `Helper` to `HelperExited` — preserves the pid link of `(s, id)`.
pub proof fn lemma_pid_link_replace_other(
    s: Service,
    id: UnitId,
    t: Map<int, PidEntry>,
    p: int,
    e: PidEntry,
)
    requires
        pid_link_ok(s, id, t),
        t.contains_key(p),
        !is_service_entry_for(t[p], id),
        !is_service_entry_for(e, id),
    ensures
        pid_link_ok(s, id, t.insert(p, e)),
{
    lemma_pid_link_same_entries(s, id, t, t.insert(p, e));
}

/// Removing a key that does not carry the unit's `Service` entry preserves
/// the pid link of `(s, id)`.
pub proof fn lemma_pid_link_remove_other(s: Service, id: UnitId, t: Map<int, PidEntry>, p: int)
    requires
        pid_link_ok(s, id, t),
        t.contains_key(p) ==> !is_service_entry_for(t[p], id),
    ensures
        pid_link_ok(s, id, t.remove(p)),
{
    lemma_pid_link_same_entries(s, id, t, t.remove(p));
}

/// After the reaper removes the unit's own `Service` entry, the link holds
/// again for the record with the pid cleared.
pub proof fn lemma_pid_link_after_reap(
    s_old: Service,
    s_new: Service,
    id: UnitId,
    t: Map<int, PidEntry>,
    p: i32,
)
    requires
        pid_link_ok(s_old, id, t),
        s_old.pid == Some(p),
        s_new.pid is None,
    ensures
        pid_link_ok(s_new, id, t.remove(p as int)),
{
}

/// The pid pair invariant: pid and process group are set and cleared
/// together, and the group is always the negative of the pid.
pub open spec fn pid_pair_ok(s: Service) -> bool {
    match (s.pid, s.process_group) {
        (Some(p), Some(g)) => g as int == -(p as int),
        (None, None) => true,
        _ => false,
    }
}

/// The record after `begin_stop`: pid and process group cleared, everything
/// else untouched.
pub open spec fn stop_state(s: Service) -> Service {
    Service { pid: None, process_group: None, ..s }
}

/// The record right after a successful fork: pid and process group set as a
/// pair, the fork time noted, and a `Simple` service immediately `Running`.
pub open spec fn forked_state(s: Service, new_pid: i32, now_ms: u64) -> Service {
    Service {
        pid: Some(new_pid),
        process_group: Some((-(new_pid as int)) as i32),
        status: if s.service_config.srcv_type == ServiceType::Simple {
            ServiceStatus::Running
        } else {
            s.status
        },
        runtime_info: ServiceRuntimeInfo {
            restarted: s.runtime_info.restarted,
            up_since: Some(now_ms),
        },
        ..s
    }
}

/// The record after service-exit handling: stopped, pid pair cleared, the
/// restart counter advanced when the service keeps alive.
pub open spec fn exited_state(s: Service) -> Service {
    Service {
        pid: None,
        process_group: None,
        status: ServiceStatus::Stopped,
        runtime_info: ServiceRuntimeInfo {
            restarted: if s.service_config.keep_alive {
                (s.runtime_info.restarted + 1) as u64
            } else {
                s.runtime_info.restarted
            },
            up_since: s.runtime_info.up_since,
        },
        ..s
    }
}

/// The decision at the head of a start: a service that already has a pid or
/// a process group is refused; one waiting on its sockets is deferred.
pub open spec fn start_decision_spec(s: Service, allow_ignore: bool) -> Result<StartDecision, StartError> {
    if s.pid is Some || s.process_group is Some {
        Err(StartError::AlreadyRunning)
    } else if allow_ignore && s.socket_names@.len() > 0 {
        Ok(StartDecision::WaitForSocket)
    } else {
        Ok(StartDecision::Proceed)
    }
}

/// Joint report of the stop and poststop command phases.
pub open spec fn combine_stop_errors_spec(
    stop_err: Option<CmdError>,
    poststop_err: Option<CmdError>,
) -> Result<(), StopError> {
    match (stop_err, poststop_err) {
        (Some(a), Some(b)) => Err(StopError::StopAndPoststopFailed(a, b)),
        (Some(a), None) => Err(StopError::StopFailed(a)),
        (None, Some(b)) => Err(StopError::PoststopFailed(b)),
        (None, None) => Ok(()),
    }
}

/// Executable form of [`combine_stop_errors_spec`].
pub fn combine_stop_errors(stop_err: Option<CmdError>, poststop_err: Option<CmdError>) -> (r:
    Result<(), StopError>)
    ensures
        r == combine_stop_errors_spec(stop_err, poststop_err),
{
    match (stop_err, poststop_err) {
        (Some(a), Some(b)) => Err(StopError::StopAndPoststopFailed(a, b)),
        (Some(a), None) => Err(StopError::StopFailed(a)),
        (None, Some(b)) => Err(StopError::PoststopFailed(b)),
        (None, None) => Ok(()),
    }
}

/// Stop is idempotent when no stop or poststop commands are configured: a
/// second stop finds the pid pair already cleared, has no process group to
/// kill, changes nothing, and both command phases report success.
pub proof fn lemma_stop_idempotent(s: Service)
    requires
        s.service_config.stop@.len() == 0,
        s.service_config.stoppost@.len() == 0,
    ensures
        stop_state(stop_state(s)) == stop_state(s),
        stop_state(s).process_group is None,
        combine_stop_errors_spec(None, None) == Ok::<(), StopError>(()),
{
}

/// The report of a failed prestart phase: the poststop commands have run,
/// and their own failure, if any, is reported jointly.
pub fn prestart_error(helper: CmdError, poststop_err: Option<CmdError>) -> (r: StartError)
    ensures
        r == match poststop_err {
            None => StartError::PrestartFailed(helper),
            Some(p) => StartError::PrestartAndPoststopFailed(helper, p),
        },
{
    match poststop_err {
        None => StartError::PrestartFailed(helper),
        Some(p) => StartError::PrestartAndPoststopFailed(helper, p),
    }
}

/// The report of a failed poststart phase, poststop having run.
pub fn poststart_error(helper: CmdError, poststop_err: Option<CmdError>) -> (r: StartError)
    ensures
        r == match poststop_err {
            None => StartError::PoststartFailed(helper),
            Some(p) => StartError::PoststartAndPoststopFailed(helper, p),
        },
{
    match poststop_err {
        None => StartError::PoststartFailed(helper),
        Some(p) => StartError::PoststartAndPoststopFailed(helper, p),
    }
}

/// How one finished helper counts: success is exit code zero, anything else
/// fails the phase.
pub fn helper_outcome(t: ChildTermination) -> (r: Result<(), CmdError>)
    ensures
        t.success_spec() ==> r == Ok::<(), CmdError>(()),
        !t.success_spec() ==> r == Err::<(), CmdError>(CmdError::NonZeroExit(t)),
{
    if t.success() {
        Ok(())
    } else {
        Err(CmdError::NonZeroExit(t))
    }
}

/// Splits a command line on single spaces — no quoting, no escaping; empty
/// words between doubled spaces are kept.
pub fn split_cmd(cmd: &Vec<u8>) -> (r: Vec<Vec<u8>>)
    ensures
        views_of(r@) == split_on(cmd@, SPACE),
    decreases cmd@.len(),
{
    let i = find_byte(cmd, SPACE);
    if i >= cmd.len() {
        let word = subvec(cmd, 0, cmd.len());
        let mut r: Vec<Vec<u8>> = Vec::new();
        r.push(word);
        proof {
            assert(cmd@.subrange(0, cmd@.len() as int) =~= cmd@);
            assert(views_of(r@) =~= split_on(cmd@, SPACE));
        }
        r
    } else {
        let word = subvec(cmd, 0, i);
        let rest = subvec(cmd, i + 1, cmd.len());
        proof {
            assert(rest@ =~= cmd@.skip(i as int + 1));
            assert(word@ =~= cmd@.take(i as int));
        }
        let mut r = split_cmd(&rest);
        r.insert(0, word);
        proof {
            assert(views_of(r@) =~= split_on(cmd@, SPACE));
        }
        r
    }
}

impl Service {
    /// A freshly loaded service: no process, never ran, empty buffers.
    pub fn new(service_config: ServiceConfig, socket_names: Vec<Vec<u8>>) -> (r: Service)
        ensures
            r.pid is None,
            r.process_group is None,
            r.service_config == service_config,
            r.socket_names == socket_names,
            r.status == ServiceStatus::NeverRan,
            r.status_msgs@.len() == 0,
            r.runtime_info.restarted == 0,
            r.runtime_info.up_since is None,
            !r.signaled_ready,
            r.notifications is None,
            r.notifications_path is None,
            r.stdout_dup is None,
            r.stderr_dup is None,
            r.notifications_buffer@.len() == 0,
            r.stdout_buffer@.len() == 0,
            r.stderr_buffer@.len() == 0,
    {
        Service {
            pid: None,
            process_group: None,
            service_config,
            socket_names,
            status: ServiceStatus::NeverRan,
            status_msgs: Vec::new(),
            runtime_info: ServiceRuntimeInfo { restarted: 0, up_since: None },
            signaled_ready: false,
            notifications: None,
            notifications_path: None,
            stdout_dup: None,
            stderr_dup: None,
            notifications_buffer: Vec::new(),
            stdout_buffer: Vec::new(),
            stderr_buffer: Vec::new(),
        }
    }

    /// Opens a start: refuses a service that already has a pid or process
    /// group, defers one that waits for socket activation, and otherwise
    /// moves the service to `Starting` with readiness cleared.
    pub fn start(&mut self, allow_ignore: bool) -> (r: Result<StartDecision, StartError>)
        ensures
            r == start_decision_spec(*old(self), allow_ignore),
            r == Ok::<StartDecision, StartError>(StartDecision::Proceed) ==> *final(self) == (Service {
                status: ServiceStatus::Starting,
                signaled_ready: false,
                ..*old(self)
            }),
            r != Ok::<StartDecision, StartError>(StartDecision::Proceed) ==> *final(self) == *old(self),
    {
        if self.pid.is_some() {
            return Err(StartError::AlreadyRunning);
        }
        if self.process_group.is_some() {
            return Err(StartError::AlreadyRunning);
        }
        if allow_ignore && self.socket_names.len() > 0 {
            return Ok(StartDecision::WaitForSocket);
        }
        self.status = ServiceStatus::Starting;
        self.signaled_ready = false;
        Ok(StartDecision::Proceed)
    }

    /// Records the notification socket and the stdio pipes the caller
    /// created for this start, with a fresh notification buffer.
    pub fn prepare(
        &mut self,
        notify_fd: i32,
        notify_path: Vec<u8>,
        stdout_fds: (i32, i32),
        stderr_fds: (i32, i32),
    )
        ensures
            *final(self) == (Service {
                notifications: Some(notify_fd),
                notifications_path: Some(notify_path),
                stdout_dup: Some(stdout_fds),
                stderr_dup: Some(stderr_fds),
                notifications_buffer: final(self).notifications_buffer,
                ..*old(self)
            }),
            final(self).notifications_buffer@ == Seq::<u8>::empty(),
    {
        self.notifications = Some(notify_fd);
        self.notifications_path = Some(notify_path);
        self.stdout_dup = Some(stdout_fds);
        self.stderr_dup = Some(stderr_fds);
        self.notifications_buffer = Vec::new();
        proof {
            assert(self.notifications_buffer@ =~= Seq::<u8>::empty());
        }
    }

    /// The start timeout: `starttimeout`, then `generaltimeout`, then
    /// unbounded.
    pub fn get_start_timeout(&self) -> (r: Option<u64>)
        ensures
            r == effective_timeout(
                self.service_config.starttimeout,
                self.service_config.generaltimeout,
            ),
    {
        resolve_timeout(self.service_config.starttimeout, self.service_config.generaltimeout)
    }

    /// The stop timeout: `stoptimeout`, then `generaltimeout`, then
    /// unbounded.
    pub fn get_stop_timeout(&self) -> (r: Option<u64>)
        ensures
            r == effective_timeout(
                self.service_config.stoptimeout,
                self.service_config.generaltimeout,
            ),
    {
        resolve_timeout(self.service_config.stoptimeout, self.service_config.generaltimeout)
    }

    /// Appends a finished helper's captured output to the service buffers.
    pub fn absorb_helper_output(&mut self, out: &Vec<u8>, err: &Vec<u8>)
        ensures
            *final(self) == (Service {
                stdout_buffer: final(self).stdout_buffer,
                stderr_buffer: final(self).stderr_buffer,
                ..*old(self)
            }),
            final(self).stdout_buffer@ == old(self).stdout_buffer@ + out@,
            final(self).stderr_buffer@ == old(self).stderr_buffer@ + err@,
    {
        crate::bytes::append_bytes(&mut self.stdout_buffer, out);
        crate::bytes::append_bytes(&mut self.stderr_buffer, err);
    }

    /// Whether the service has reached `Running`.
    pub fn is_running(&self) -> (r: bool)
        ensures
            r == (self.status is Running),
    {
        match self.status {
            ServiceStatus::Running => true,
            _ => false,
        }
    }

    /// Applies the outcome of the bus wait of a `Dbus` service: the name
    /// observed means `Running`; a timeout leaves the service `Starting` —
    /// deliberately not killed — and reports `ReadyTimeout`.
    pub fn apply_dbus_result(&mut self, observed: bool) -> (r: Result<(), StartError>)
        ensures
            observed ==> r == Ok::<(), StartError>(()) && *final(self) == (Service {
                status: ServiceStatus::Running,
                ..*old(self)
            }),
            !observed ==> r == Err::<(), StartError>(StartError::ReadyTimeout) && *final(self)
                == *old(self),
    {
        if observed {
            self.status = ServiceStatus::Running;
            Ok(())
        } else {
            Err(StartError::ReadyTimeout)
        }
    }

    /// Clears the pid pair and hands back the process group so the caller
    /// can SIGKILL it; the first half of a stop.
    pub fn begin_stop(&mut self) -> (r: Option<i32>)
        ensures
            r == old(self).process_group,
            *final(self) == stop_state(*old(self)),
            pid_pair_ok(*final(self)),
    {
        let pg = self.process_group;
        self.pid = None;
        self.process_group = None;
        pg
    }

    /// A kill is an unconditional stop.
    pub fn kill(&mut self) -> (r: Option<i32>)
        ensures
            r == old(self).process_group,
            *final(self) == stop_state(*old(self)),
            pid_pair_ok(*final(self)),
    {
        self.begin_stop()
    }

    /// Service-exit handling, run after the reaper removed the pid entry:
    /// the service is stopped with its pid pair cleared, and either restarts
    /// (keep-alive, counted) or tears down its dependents.
    pub fn handle_exit(&mut self) -> (r: ExitAction)
        requires
            old(self).runtime_info.restarted < u64::MAX,
        ensures
            *final(self) == exited_state(*old(self)),
            pid_pair_ok(*final(self)),
            old(self).service_config.keep_alive ==> r == ExitAction::Restart,
            !old(self).service_config.keep_alive ==> r == ExitAction::StopDependents,
    {
        self.pid = None;
        self.process_group = None;
        self.status = ServiceStatus::Stopped;
        if self.service_config.keep_alive {
            self.runtime_info.restarted = self.runtime_info.restarted + 1;
            ExitAction::Restart
        } else {
            ExitAction::StopDependents
        }
    }
}

/// The parent's half of a fork, done under the pid-table lock: the pid pair
/// is set and the `Service` entry inserted as one step, so the reaper can
/// never observe the pid without the entry; a `Simple` service is `Running`
/// at once, the other kinds stay as they were until readiness arrives.
pub fn after_fork_parent(
    srvc: &mut Service,
    table: &mut PidTable,
    id: UnitId,
    new_pid: i32,
    now_ms: u64,
)
    requires
        old(table).wf(),
        old(srvc).pid is None,
        old(srvc).process_group is None,
        new_pid > 0,
        !old(table)@.contains_key(new_pid as int),
        pid_link_ok(*old(srvc), id, old(table)@),
    ensures
        final(table).wf(),
        final(table)@ == old(table)@.insert(
            new_pid as int,
            PidEntry::Service(id, old(srvc).service_config.srcv_type),
        ),
        *final(srvc) == forked_state(*old(srvc), new_pid, now_ms),
        pid_pair_ok(*final(srvc)),
        pid_link_ok(*final(srvc), id, final(table)@),
{
    srvc.pid = Some(new_pid);
    srvc.process_group = Some(-new_pid);
    srvc.runtime_info.up_since = Some(now_ms);
    match srvc.service_config.srcv_type {
        ServiceType::Simple => {
            srvc.status = ServiceStatus::Running;
        },
        _ => {},
    }
    table.insert_new(new_pid, PidEntry::Service(id, srvc.service_config.srcv_type));
    proof {
        assert forall|q: int|
            #[trigger] table@.contains_key(q) && q != new_pid as int implies !is_service_entry_for(
            table@[q],
            id,
        ) by {
            assert(old(table)@.contains_key(q));
        }
    }
}

} // verus!
