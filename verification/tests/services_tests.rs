use unitd::config::{ServiceConfig, ServiceType, Timeout};
use unitd::pid_table::{
    helper_wait_step, reap_pid, ChildTermination, HelperWaitStep, PidTable, ReapOutcome,
};
use unitd::services::{
    after_fork_parent, combine_stop_errors, helper_outcome, poststart_error, prestart_error,
    split_cmd, CmdError, ExitAction, Service, ServiceStatus, StartError, StartDecision, StopError,
};

fn config(srcv_type: ServiceType, keep_alive: bool) -> ServiceConfig {
    ServiceConfig {
        cmd: b"/bin/true".to_vec(),
        startpre: vec![],
        startpost: vec![],
        stop: vec![],
        stoppost: vec![],
        srcv_type,
        dbus_name: None,
        keep_alive,
        starttimeout: None,
        stoptimeout: None,
        generaltimeout: None,
    }
}

#[test]
fn simple_service_lifecycle() {
    // Unit A, type Simple, no dependencies: activate -> Running at once; on
    // exit with code 0 and keep_alive=false -> Stopped, no cascade, and the
    // one pid was inserted and then removed.
    let mut srvc = Service::new(config(ServiceType::Simple, false), vec![]);
    let mut table = PidTable::new();

    assert!(matches!(srvc.start(false), Ok(StartDecision::Proceed)));
    assert_eq!(srvc.status, ServiceStatus::Starting);

    after_fork_parent(&mut srvc, &mut table, 1, 100, 7);
    assert_eq!(srvc.status, ServiceStatus::Running);
    assert_eq!(srvc.pid, Some(100));
    assert_eq!(srvc.process_group, Some(-100));
    assert_eq!(srvc.runtime_info.up_since, Some(7));
    assert!(table.contains_pid(100));
    assert_eq!(table.len(), 1);

    let reaped = reap_pid(&mut table, 100, ChildTermination::Code(0));
    assert_eq!(reaped, ReapOutcome::ServiceExited(1, ServiceType::Simple));
    assert_eq!(table.len(), 0);

    assert_eq!(srvc.handle_exit(), ExitAction::StopDependents);
    assert_eq!(srvc.status, ServiceStatus::Stopped);
    assert_eq!(srvc.pid, None);
    assert_eq!(srvc.process_group, None);
    assert_eq!(srvc.runtime_info.restarted, 0);
}

#[test]
fn keep_alive_restarts_are_counted() {
    // Unit K, Simple, keep_alive: after three reap cycles the restart count
    // is 3 and the status oscillates Stopped -> Starting -> Running.
    let mut srvc = Service::new(config(ServiceType::Simple, true), vec![]);
    let mut table = PidTable::new();
    let mut pid = 200;
    for round in 1..=3u64 {
        assert!(matches!(srvc.start(false), Ok(StartDecision::Proceed)));
        assert_eq!(srvc.status, ServiceStatus::Starting);
        after_fork_parent(&mut srvc, &mut table, 9, pid, 0);
        assert_eq!(srvc.status, ServiceStatus::Running);
        let reaped = reap_pid(&mut table, pid, ChildTermination::Code(1));
        assert_eq!(reaped, ReapOutcome::ServiceExited(9, ServiceType::Simple));
        assert_eq!(srvc.handle_exit(), ExitAction::Restart);
        assert_eq!(srvc.status, ServiceStatus::Stopped);
        assert_eq!(srvc.runtime_info.restarted, round);
        pid += 1;
    }
    assert_eq!(srvc.runtime_info.restarted, 3);
    assert_eq!(table.len(), 0);
}

#[test]
fn start_refuses_a_running_service() {
    let mut srvc = Service::new(config(ServiceType::Simple, false), vec![]);
    srvc.pid = Some(33);
    assert_eq!(srvc.start(false), Err(StartError::AlreadyRunning));
    let mut srvc = Service::new(config(ServiceType::Simple, false), vec![]);
    srvc.process_group = Some(-33);
    assert_eq!(srvc.start(true), Err(StartError::AlreadyRunning));
}

#[test]
fn socket_activated_service_waits() {
    let mut srvc = Service::new(config(ServiceType::Simple, false), vec![b"sock".to_vec()]);
    assert_eq!(srvc.start(true), Ok(StartDecision::WaitForSocket));
    // the socket fired: the second call starts it for real
    assert_eq!(srvc.start(false), Ok(StartDecision::Proceed));
}

#[test]
fn stop_twice_with_no_commands_is_a_noop() {
    // Stop followed by stop is a no-op returning Ok when no stop or
    // poststop commands are configured.
    let mut srvc = Service::new(config(ServiceType::Simple, false), vec![]);
    let mut table = PidTable::new();
    assert!(matches!(srvc.start(false), Ok(StartDecision::Proceed)));
    after_fork_parent(&mut srvc, &mut table, 1, 50, 0);

    let kill_target = srvc.begin_stop();
    assert_eq!(kill_target, Some(-50));
    assert_eq!(combine_stop_errors(None, None), Ok(()));
    assert_eq!(srvc.pid, None);
    let status_after_first = srvc.status;

    // second stop: nothing to kill, nothing changes, still Ok
    let kill_target = srvc.begin_stop();
    assert_eq!(kill_target, None);
    assert_eq!(combine_stop_errors(None, None), Ok(()));
    assert_eq!(srvc.pid, None);
    assert_eq!(srvc.process_group, None);
    assert_eq!(srvc.status, status_after_first);
}

#[test]
fn kill_clears_the_pid_pair() {
    let mut srvc = Service::new(config(ServiceType::Simple, false), vec![]);
    let mut table = PidTable::new();
    assert!(matches!(srvc.start(false), Ok(StartDecision::Proceed)));
    after_fork_parent(&mut srvc, &mut table, 1, 60, 0);
    assert_eq!(srvc.kill(), Some(-60));
    assert_eq!(srvc.pid, None);
    assert_eq!(srvc.process_group, None);
}

#[test]
fn dbus_readiness() {
    let mut srvc = Service::new(config(ServiceType::Dbus, false), vec![]);
    assert!(matches!(srvc.start(false), Ok(StartDecision::Proceed)));
    // name not observed in time: ReadyTimeout, service left Starting
    assert_eq!(srvc.apply_dbus_result(false), Err(StartError::ReadyTimeout));
    assert_eq!(srvc.status, ServiceStatus::Starting);
    // observed: Running
    assert_eq!(srvc.apply_dbus_result(true), Ok(()));
    assert_eq!(srvc.status, ServiceStatus::Running);
}

#[test]
fn timeout_precedence() {
    let mut conf = config(ServiceType::Simple, false);
    conf.starttimeout = Some(Timeout::Duration(100));
    conf.generaltimeout = Some(Timeout::Duration(900));
    let srvc = Service::new(conf, vec![]);
    assert_eq!(srvc.get_start_timeout(), Some(100));
    // stop falls back to the general timeout
    assert_eq!(srvc.get_stop_timeout(), Some(900));

    let mut conf = config(ServiceType::Simple, false);
    conf.starttimeout = Some(Timeout::Infinity);
    conf.generaltimeout = Some(Timeout::Duration(900));
    let srvc = Service::new(conf, vec![]);
    // an explicit Infinity wins over the general setting
    assert_eq!(srvc.get_start_timeout(), None);

    let srvc = Service::new(config(ServiceType::Simple, false), vec![]);
    assert_eq!(srvc.get_start_timeout(), None);
    assert_eq!(srvc.get_stop_timeout(), None);
}

#[test]
fn helper_timeout_zero_times_out_at_once() {
    // Helper timeout of zero: the first poll reports TimedOut immediately
    // and orders the SIGKILL of the helper's pid.
    let mut table = PidTable::new();
    table.register_helper(42, 7, b"startpre".to_vec());
    let step = helper_wait_step(&mut table, 42, 0, Some(0), 1);
    assert_eq!(step, HelperWaitStep::TimedOut(42));
    // the entry is left for the kill+reap path and then drained
    assert_eq!(table.len(), 1);
}

#[test]
fn prestart_timeout_leaves_no_residual_pid() {
    // startpre=["/bin/sleep 10"], starttimeout elapsed: the wait times out,
    // the helper is SIGKILLed and reaped, the phase reports PrestartFailed,
    // and no pid is left in the table.
    let words = split_cmd(&b"/bin/sleep 10".to_vec());
    assert_eq!(words, vec![b"/bin/sleep".to_vec(), b"10".to_vec()]);

    let mut table = PidTable::new();
    table.register_helper(42, 7, b"startpre".to_vec());
    let step = helper_wait_step(&mut table, 42, 100, Some(100), 1);
    assert_eq!(step, HelperWaitStep::TimedOut(42));
    // the SIGKILL lands, the reaper collects the helper
    assert_eq!(
        reap_pid(&mut table, 42, ChildTermination::Signal(9)),
        ReapOutcome::WasHelper
    );
    // the waiter drains the entry
    assert_eq!(table.remove_pid(42).is_some(), true);
    assert_eq!(table.len(), 0);
    // poststop ran and succeeded: the phase error carries the timeout alone
    assert_eq!(
        prestart_error(CmdError::TimedOut, None),
        StartError::PrestartFailed(CmdError::TimedOut)
    );
}

#[test]
fn helper_wait_collects_exactly_once() {
    let mut table = PidTable::new();
    table.register_helper(42, 7, b"startpre".to_vec());
    // still running: exponential backoff, 50us doubling
    let step = helper_wait_step(&mut table, 42, 10, Some(1000), 1);
    assert_eq!(step, HelperWaitStep::Sleep(50, 2));
    let step = helper_wait_step(&mut table, 42, 20, Some(1000), 2);
    assert_eq!(step, HelperWaitStep::Sleep(100, 4));
    // the reaper collects it
    assert_eq!(
        reap_pid(&mut table, 42, ChildTermination::Code(0)),
        ReapOutcome::WasHelper
    );
    // the waiter receives the termination and the entry is gone
    let step = helper_wait_step(&mut table, 42, 30, Some(1000), 4);
    assert_eq!(step, HelperWaitStep::Done(ChildTermination::Code(0)));
    assert_eq!(table.len(), 0);
}

#[test]
fn backoff_is_capped_at_ten_milliseconds() {
    let mut table = PidTable::new();
    table.register_helper(1, 1, b"h".to_vec());
    let step = helper_wait_step(&mut table, 1, 0, None, 256);
    assert_eq!(step, HelperWaitStep::Sleep(10000, 256));
    let step = helper_wait_step(&mut table, 1, 0, None, 199);
    assert_eq!(step, HelperWaitStep::Sleep(9950, 398));
}

#[test]
fn reaper_ignores_foreign_pids() {
    let mut table = PidTable::new();
    assert_eq!(
        reap_pid(&mut table, 4711, ChildTermination::Code(0)),
        ReapOutcome::Unknown
    );
    assert_eq!(table.len(), 0);
}

#[test]
fn helper_outcomes() {
    assert_eq!(helper_outcome(ChildTermination::Code(0)), Ok(()));
    assert_eq!(
        helper_outcome(ChildTermination::Code(3)),
        Err(CmdError::NonZeroExit(ChildTermination::Code(3)))
    );
    assert_eq!(
        helper_outcome(ChildTermination::Signal(9)),
        Err(CmdError::NonZeroExit(ChildTermination::Signal(9)))
    );
}

#[test]
fn stop_error_aggregation() {
    assert_eq!(combine_stop_errors(None, None), Ok(()));
    assert_eq!(
        combine_stop_errors(Some(CmdError::TimedOut), None),
        Err(StopError::StopFailed(CmdError::TimedOut))
    );
    assert_eq!(
        combine_stop_errors(None, Some(CmdError::SpawnFailed)),
        Err(StopError::PoststopFailed(CmdError::SpawnFailed))
    );
    assert_eq!(
        combine_stop_errors(Some(CmdError::TimedOut), Some(CmdError::SpawnFailed)),
        Err(StopError::StopAndPoststopFailed(
            CmdError::TimedOut,
            CmdError::SpawnFailed
        ))
    );
}

#[test]
fn helper_phase_errors_aggregate_poststop() {
    assert_eq!(
        prestart_error(CmdError::SpawnFailed, Some(CmdError::TimedOut)),
        StartError::PrestartAndPoststopFailed(CmdError::SpawnFailed, CmdError::TimedOut)
    );
    assert_eq!(
        poststart_error(CmdError::WaitFailed, None),
        StartError::PoststartFailed(CmdError::WaitFailed)
    );
    assert_eq!(
        poststart_error(CmdError::WaitFailed, Some(CmdError::SpawnFailed)),
        StartError::PoststartAndPoststopFailed(CmdError::WaitFailed, CmdError::SpawnFailed)
    );
}

#[test]
fn split_cmd_keeps_empty_words() {
    // splitting is on single spaces, without quoting; doubled spaces yield
    // empty words, as documented
    assert_eq!(
        split_cmd(&b"echo a  b".to_vec()),
        vec![
            b"echo".to_vec(),
            b"a".to_vec(),
            b"".to_vec(),
            b"b".to_vec()
        ]
    );
    assert_eq!(split_cmd(&b"/bin/true".to_vec()), vec![b"/bin/true".to_vec()]);
}

#[test]
fn absorbed_helper_output_lands_in_the_buffers() {
    let mut srvc = Service::new(config(ServiceType::Simple, false), vec![]);
    srvc.absorb_helper_output(&b"out".to_vec(), &b"err".to_vec());
    srvc.absorb_helper_output(&b"2".to_vec(), &b"2".to_vec());
    assert_eq!(srvc.stdout_buffer, b"out2".to_vec());
    assert_eq!(srvc.stderr_buffer, b"err2".to_vec());
}

#[test]
fn prepare_records_the_fds() {
    let mut srvc = Service::new(config(ServiceType::Notify, false), vec![]);
    srvc.notifications_buffer = b"stale".to_vec();
    srvc.prepare(9, b"/run/n/a.notify".to_vec(), (10, 11), (12, 13));
    assert_eq!(srvc.notifications, Some(9));
    assert_eq!(srvc.notifications_path, Some(b"/run/n/a.notify".to_vec()));
    assert_eq!(srvc.stdout_dup, Some((10, 11)));
    assert_eq!(srvc.stderr_dup, Some((12, 13)));
    assert!(srvc.notifications_buffer.is_empty());
}
