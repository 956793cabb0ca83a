use unitd::config::{ServiceConfig, ServiceType, Timeout};
use unitd::notification_handler::{feed_notify_bytes, handle_notification_message, NOTIFY_BUF_CAP, STATUS_MSG_CAP};
use unitd::services::{Service, ServiceStatus, StartDecision};

fn notify_config() -> ServiceConfig {
    ServiceConfig {
        cmd: b"/bin/notifier".to_vec(),
        startpre: vec![],
        startpost: vec![],
        stop: vec![],
        stoppost: vec![],
        srcv_type: ServiceType::Notify,
        dbus_name: None,
        keep_alive: false,
        starttimeout: Some(Timeout::Duration(1000)),
        stoptimeout: None,
        generaltimeout: None,
    }
}

fn starting_service() -> Service {
    let mut srvc = Service::new(notify_config(), vec![]);
    let gate = srvc.start(false);
    assert!(matches!(gate, Ok(StartDecision::Proceed)));
    assert_eq!(srvc.status, ServiceStatus::Starting);
    srvc
}

#[test]
fn notify_readiness() {
    // A Notify service reports a status message and then READY=1: the
    // status moves Starting -> Running, the message is remembered in order.
    let mut srvc = starting_service();
    let accepted = feed_notify_bytes(&mut srvc, &b"STATUS=booting\nREADY=1\n".to_vec());
    assert!(accepted);
    assert_eq!(srvc.status, ServiceStatus::Running);
    assert!(srvc.signaled_ready);
    assert_eq!(srvc.status_msgs, vec![b"booting".to_vec()]);
}

#[test]
fn ready_without_value_counts() {
    let mut srvc = starting_service();
    assert!(feed_notify_bytes(&mut srvc, &b"READY=1\n".to_vec()));
    assert!(srvc.signaled_ready);
    assert_eq!(srvc.status, ServiceStatus::Running);
}

#[test]
fn unknown_key_is_ignored() {
    let mut srvc = starting_service();
    assert!(feed_notify_bytes(&mut srvc, &b"MAINPID=42\nWATCHDOG=1\n".to_vec()));
    assert_eq!(srvc.status, ServiceStatus::Starting);
    assert!(!srvc.signaled_ready);
    assert!(srvc.status_msgs.is_empty());
}

#[test]
fn line_without_separator_is_ignored() {
    let mut srvc = starting_service();
    assert!(feed_notify_bytes(&mut srvc, &b"GIBBERISH\n".to_vec()));
    assert_eq!(srvc.status, ServiceStatus::Starting);
    assert!(!srvc.signaled_ready);
    assert!(srvc.status_msgs.is_empty());
}

#[test]
fn chunked_recvs_parse_like_one_stream() {
    // The same byte stream, as one datagram and as awkward fragments,
    // leaves the services in identical states.
    let stream: &[u8] = b"STATUS=phase one\nREADY=1\nSTATUS=serving\n";

    let mut whole = starting_service();
    assert!(feed_notify_bytes(&mut whole, &stream.to_vec()));

    let mut pieces = starting_service();
    assert!(feed_notify_bytes(&mut pieces, &b"STATUS=ph".to_vec()));
    assert!(feed_notify_bytes(&mut pieces, &b"ase one\nREA".to_vec()));
    assert!(feed_notify_bytes(&mut pieces, &b"DY=1".to_vec()));
    assert!(feed_notify_bytes(&mut pieces, &b"\nSTATUS=serving\n".to_vec()));

    assert_eq!(whole.status, pieces.status);
    assert_eq!(whole.signaled_ready, pieces.signaled_ready);
    assert_eq!(whole.status_msgs, pieces.status_msgs);
    assert_eq!(whole.notifications_buffer, pieces.notifications_buffer);
    assert_eq!(
        whole.status_msgs,
        vec![b"phase one".to_vec(), b"serving".to_vec()]
    );
    assert_eq!(whole.status, ServiceStatus::Running);
}

#[test]
fn partial_line_is_carried() {
    let mut srvc = starting_service();
    assert!(feed_notify_bytes(&mut srvc, &b"READY".to_vec()));
    assert!(!srvc.signaled_ready);
    assert_eq!(srvc.notifications_buffer, b"READY".to_vec());
    assert!(feed_notify_bytes(&mut srvc, &b"=1\n".to_vec()));
    assert!(srvc.signaled_ready);
    assert!(srvc.notifications_buffer.is_empty());
}

#[test]
fn status_messages_keep_fifo_order_and_cap() {
    let mut srvc = starting_service();
    for i in 0..(STATUS_MSG_CAP + 3) {
        let msg = format!("STATUS=m{}", i).into_bytes();
        handle_notification_message(&msg, &mut srvc);
    }
    assert_eq!(srvc.status_msgs.len(), STATUS_MSG_CAP);
    // the three oldest were evicted
    assert_eq!(srvc.status_msgs[0], b"m3".to_vec());
    assert_eq!(
        srvc.status_msgs[STATUS_MSG_CAP - 1],
        format!("m{}", STATUS_MSG_CAP + 2).into_bytes()
    );
}

#[test]
fn oversized_datagram_is_dropped_whole() {
    let mut srvc = starting_service();
    let huge = vec![b'x'; NOTIFY_BUF_CAP + 1];
    assert!(!feed_notify_bytes(&mut srvc, &huge));
    assert!(srvc.notifications_buffer.is_empty());
    // a fitting datagram is still accepted afterwards
    assert!(feed_notify_bytes(&mut srvc, &b"READY=1\n".to_vec()));
    assert!(srvc.signaled_ready);
}

#[test]
fn ready_only_lifts_starting() {
    // A service that is already Stopped stays Stopped on READY; only
    // Starting moves to Running.
    let mut srvc = Service::new(notify_config(), vec![]);
    assert_eq!(srvc.status, ServiceStatus::NeverRan);
    handle_notification_message(&b"READY=1".to_vec(), &mut srvc);
    assert_eq!(srvc.status, ServiceStatus::NeverRan);
    assert!(srvc.signaled_ready);
}
