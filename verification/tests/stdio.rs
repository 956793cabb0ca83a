use unitd::config::{ServiceConfig, ServiceType};
use unitd::notification_handler::{
    collect_stream_fds, flush_std_err_tail, flush_std_out_tail, handle_std_err_data,
    handle_std_out_data, note_stream_eof, StreamKind,
};
use unitd::services::Service;
use unitd::units::{Install, Unit, UnitSpecialized, UnitTable};

fn plain_config() -> ServiceConfig {
    ServiceConfig {
        cmd: b"/bin/writer".to_vec(),
        startpre: vec![],
        startpost: vec![],
        stop: vec![],
        stoppost: vec![],
        srcv_type: ServiceType::Simple,
        dbus_name: None,
        keep_alive: false,
        starttimeout: None,
        stoptimeout: None,
        generaltimeout: None,
    }
}

fn service_unit(id: u64, name: &[u8], srvc: Service) -> Unit {
    Unit {
        id,
        name: name.to_vec(),
        install: Install {
            after: vec![],
            before: vec![],
            required_by: vec![],
            needed_for_activation: vec![],
        },
        specialized: UnitSpecialized::Service(srvc),
    }
}

#[test]
fn stdio_prefixing() {
    // The child writes "hello\nworld" (no trailing newline) and later "!\n":
    // the partial tail is joined across reads.
    let mut srvc = Service::new(plain_config(), vec![]);
    let name = b"P".to_vec();
    let out = handle_std_out_data(&mut srvc, &name, &b"hello\nworld".to_vec());
    assert_eq!(out, b"[P] hello\n".to_vec());
    assert_eq!(srvc.stdout_buffer, b"world".to_vec());
    let out = handle_std_out_data(&mut srvc, &name, &b"!\n".to_vec());
    assert_eq!(out, b"[P] world!\n".to_vec());
    assert!(srvc.stdout_buffer.is_empty());
}

#[test]
fn stderr_lines_carry_the_tag() {
    let mut srvc = Service::new(plain_config(), vec![]);
    let out = handle_std_err_data(&mut srvc, &b"P".to_vec(), &b"oops\n".to_vec());
    assert_eq!(out, b"[P][STDERR] oops\n".to_vec());
}

#[test]
fn empty_lines_are_dropped() {
    let mut srvc = Service::new(plain_config(), vec![]);
    let out = handle_std_out_data(&mut srvc, &b"P".to_vec(), &b"a\n\nb\n\n".to_vec());
    assert_eq!(out, b"[P] a\n[P] b\n".to_vec());
}

#[test]
fn exit_flushes_the_partial_tail() {
    let mut srvc = Service::new(plain_config(), vec![]);
    let _ = handle_std_out_data(&mut srvc, &b"P".to_vec(), &b"tail without newline".to_vec());
    let out = flush_std_out_tail(&mut srvc, &b"P".to_vec());
    assert_eq!(out, b"[P] tail without newline\n".to_vec());
    assert!(srvc.stdout_buffer.is_empty());
    // flushing again emits nothing
    let out = flush_std_out_tail(&mut srvc, &b"P".to_vec());
    assert!(out.is_empty());
    let out = flush_std_err_tail(&mut srvc, &b"P".to_vec());
    assert!(out.is_empty());
}

#[test]
fn snapshot_lists_open_streams() {
    let mut a = Service::new(plain_config(), vec![]);
    a.stdout_dup = Some((5, 6));
    a.stderr_dup = Some((7, 8));
    a.notifications = Some(9);
    let mut b = Service::new(plain_config(), vec![]);
    b.stdout_dup = Some((15, 16));
    let table = UnitTable {
        units: vec![
            service_unit(1, b"a", a),
            service_unit(2, b"b", b),
            Unit {
                id: 3,
                name: b"t".to_vec(),
                install: Install {
                    after: vec![],
                    before: vec![],
                    required_by: vec![],
                    needed_for_activation: vec![],
                },
                specialized: UnitSpecialized::Target,
            },
        ],
    };
    assert_eq!(
        collect_stream_fds(&table, StreamKind::Stdout),
        vec![(5, 1), (15, 2)]
    );
    assert_eq!(collect_stream_fds(&table, StreamKind::Stderr), vec![(7, 1)]);
    assert_eq!(collect_stream_fds(&table, StreamKind::Notify), vec![(9, 1)]);
}

#[test]
fn eof_removes_fd_from_next_snapshot() {
    // A read of exactly zero bytes closes the stream: the fd is not watched
    // again by the next snapshot.
    let mut a = Service::new(plain_config(), vec![]);
    a.stdout_dup = Some((5, 6));
    let mut table = UnitTable {
        units: vec![service_unit(1, b"a", a)],
    };
    assert_eq!(
        collect_stream_fds(&table, StreamKind::Stdout),
        vec![(5, 1)]
    );
    match &mut table.units[0].specialized {
        UnitSpecialized::Service(srvc) => note_stream_eof(srvc, StreamKind::Stdout),
        _ => unreachable!(),
    }
    assert!(collect_stream_fds(&table, StreamKind::Stdout).is_empty());
}
