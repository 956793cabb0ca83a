//! Routing of the per-service streams: notification datagrams are parsed
//! into `KEY=VALUE` messages and applied to the service record; stdout and
//! stderr bytes are split into lines and emitted with the unit's prefix.
//!
//! The blocking multiplexer — snapshot the watched fds, select, read — runs
//! outside this crate and hands each read here: the bytes of a successful
//! read, or a zero count that closes the stream for the next snapshot.

use vstd::prelude::*;

use crate::bytes::append_bytes;
use crate::bytes::bytes_eq;
use crate::bytes::complete_lines;
use crate::bytes::find_byte;
use crate::bytes::first_index_of;
use crate::bytes::line_rest;
use crate::bytes::subvec;
use crate::bytes::take_line;
use crate::bytes::views_of;
use crate::bytes::NL;
use crate::config::UnitId;
use crate::services::Service;
use crate::services::ServiceStatus;
use crate::units::unique_unit_ids;
use crate::units::Unit;
use crate::units::UnitSpecialized;
use crate::units::UnitTable;

verus! {

/// The `=` separating key and value of a notification message.
pub const KV_SEP: u8 = 61;

/// Bound on remembered `STATUS=` messages; the oldest is evicted beyond it.
pub const STATUS_MSG_CAP: usize = 64;

/// Bound on the partial-line notification buffer; a datagram that would
/// overflow it is dropped whole.
pub const NOTIFY_BUF_CAP: usize = 65536;

/// The notify-relevant part of a service record.
pub ghost struct NotifyView {
    pub status: ServiceStatus,
    pub signaled_ready: bool,
    pub status_msgs: Seq<Seq<u8>>,
}

/// The notify-relevant view of a service.
pub open spec fn notify_view(s: Service) -> NotifyView {
    NotifyView {
        status: s.status,
        signaled_ready: s.signaled_ready,
        status_msgs: views_of(s.status_msgs@),
    }
}

/// The key `READY`.
pub open spec fn ready_key() -> Seq<u8> {
    seq![82u8, 69u8, 65u8, 68u8, 89u8]
}

/// The key `STATUS`.
pub open spec fn status_key() -> Seq<u8> {
    seq![83u8, 84u8, 65u8, 84u8, 85u8, 83u8]
}

/// The key of a message line: everything before the first `=`, or the whole
/// line when there is none.
pub open spec fn msg_key(line: Seq<u8>) -> Seq<u8> {
    let i = first_index_of(line, KV_SEP);
    if i >= line.len() {
        line
    } else {
        line.take(i as int)
    }
}

/// The value of a message line: everything after the first `=`, empty when
/// there is none.
pub open spec fn msg_value(line: Seq<u8>) -> Seq<u8> {
    let i = first_index_of(line, KV_SEP);
    if i >= line.len() {
        Seq::empty()
    } else {
        line.skip(i as int + 1)
    }
}

/// Appends a status message, evicting the oldest beyond the cap.
pub open spec fn push_status(msgs: Seq<Seq<u8>>, v: Seq<u8>) -> Seq<Seq<u8>> {
    if msgs.len() >= STATUS_MSG_CAP {
        msgs.skip((msgs.len() - STATUS_MSG_CAP + 1) as int).push(v)
    } else {
        msgs.push(v)
    }
}

/// The effect of one message on a service: `READY` marks it ready and moves
/// `Starting` to `Running`; `STATUS` records the value; any other key is
/// ignored.
pub open spec fn apply_message(v: NotifyView, line: Seq<u8>) -> NotifyView {
    if msg_key(line) == ready_key() {
        NotifyView {
            signaled_ready: true,
            status: if v.status == ServiceStatus::Starting {
                ServiceStatus::Running
            } else {
                v.status
            },
            ..v
        }
    } else if msg_key(line) == status_key() {
        NotifyView { status_msgs: push_status(v.status_msgs, msg_value(line)), ..v }
    } else {
        v
    }
}

/// The effect of a sequence of messages, oldest first.
pub open spec fn apply_lines(v: NotifyView, lines: Seq<Seq<u8>>) -> NotifyView
    decreases lines.len(),
{
    if lines.len() == 0 {
        v
    } else {
        apply_lines(apply_message(v, lines[0]), lines.skip(1))
    }
}

/// A notification changes the status only by moving `Starting` to `Running`,
/// and only on a `READY` message.
pub proof fn lemma_ready_transition(v: NotifyView, line: Seq<u8>)
    ensures
        apply_message(v, line).status != v.status ==> msg_key(line) == ready_key() && v.status
            == ServiceStatus::Starting && apply_message(v, line).status == ServiceStatus::Running,
{
}

/// Over a whole stream of messages: a service that was not `Running` is
/// `Running` afterwards only if some message carried the key `READY`, and
/// only a `Starting` service can be moved there.
pub proof fn lemma_ready_transition_lines(v: NotifyView, lines: Seq<Seq<u8>>)
    ensures
        apply_lines(v, lines).status == ServiceStatus::Running && v.status
            != ServiceStatus::Running ==> v.status == ServiceStatus::Starting && exists|k: int|
            0 <= k < lines.len() && msg_key(#[trigger] lines[k]) == ready_key(),
    decreases lines.len(),
{
    if lines.len() == 0 {
    } else {
        let v1 = apply_message(v, lines[0]);
        lemma_ready_transition_lines(v1, lines.skip(1));
        if apply_lines(v, lines).status == ServiceStatus::Running && v.status
            != ServiceStatus::Running {
            if v1.status == ServiceStatus::Running {
                lemma_ready_transition(v, lines[0]);
                assert(msg_key(lines[0]) == ready_key());
            } else {
                assert(v1.status == v.status);
                let k = choose|k: int|
                    0 <= k < lines.skip(1).len() && msg_key(#[trigger] lines.skip(1)[k])
                        == ready_key();
                assert(lines.skip(1)[k] == lines[k + 1]);
                assert(msg_key(lines[k + 1]) == ready_key());
            }
        }
    }
}

/// Round trip of chunked parsing at the service level: however the byte
/// stream is cut into datagrams, feeding the pieces through the carry buffer
/// applies the same ordered messages as parsing the whole stream once.
pub proof fn lemma_chunked_notifications(v: NotifyView, chunks: Seq<Seq<u8>>)
    ensures
        apply_lines(v, crate::bytes::chunked_lines(Seq::empty(), chunks)) == apply_lines(
            v,
            complete_lines(crate::bytes::concat_chunks(chunks)),
        ),
{
    crate::bytes::lemma_chunked_parse_round_trip(Seq::empty(), chunks);
    assert(Seq::<u8>::empty() + crate::bytes::concat_chunks(chunks) =~= crate::bytes::concat_chunks(
        chunks,
    ));
}

/// The bytes `READY`.
fn ready_key_vec() -> (r: Vec<u8>)
    ensures
        r@ == ready_key(),
{
    let mut v: Vec<u8> = Vec::new();
    v.push(82);
    v.push(69);
    v.push(65);
    v.push(68);
    v.push(89);
    proof {
        assert(v@ =~= ready_key());
    }
    v
}

/// The bytes `STATUS`.
fn status_key_vec() -> (r: Vec<u8>)
    ensures
        r@ == status_key(),
{
    let mut v: Vec<u8> = Vec::new();
    v.push(83);
    v.push(84);
    v.push(65);
    v.push(84);
    v.push(85);
    v.push(83);
    proof {
        assert(v@ =~= status_key());
    }
    v
}

/// Applies one `KEY=VALUE` message line to the service record.
pub fn handle_notification_message(msg: &Vec<u8>, srvc: &mut Service)
    ensures
        notify_view(*final(srvc)) == apply_message(notify_view(*old(srvc)), msg@),
        *final(srvc) == (Service {
            status: final(srvc).status,
            signaled_ready: final(srvc).signaled_ready,
            status_msgs: final(srvc).status_msgs,
            ..*old(srvc)
        }),
{
    let i = find_byte(msg, KV_SEP);
    let key = if i >= msg.len() {
        subvec(msg, 0, msg.len())
    } else {
        subvec(msg, 0, i)
    };
    proof {
        assert(key@ =~= msg_key(msg@));
    }
    if bytes_eq(&key, &ready_key_vec()) {
        srvc.signaled_ready = true;
        match srvc.status {
            ServiceStatus::Starting => {
                srvc.status = ServiceStatus::Running;
            },
            _ => {},
        }
        proof {
            assert(notify_view(*srvc) == apply_message(notify_view(*old(srvc)), msg@));
        }
    } else if bytes_eq(&key, &status_key_vec()) {
        let value = if i >= msg.len() {
            Vec::new()
        } else {
            subvec(msg, i + 1, msg.len())
        };
        proof {
            assert(value@ =~= msg_value(msg@));
        }
        let ghost orig_msgs = views_of(srvc.status_msgs@);
        let ghost orig_len = srvc.status_msgs@.len();
        proof {
            assert(orig_msgs.skip(0) =~= orig_msgs);
        }
        while srvc.status_msgs.len() >= STATUS_MSG_CAP
            invariant
                orig_msgs.len() == orig_len,
                views_of(srvc.status_msgs@) == orig_msgs.skip(
                    orig_len as int - srvc.status_msgs@.len() as int,
                ),
                srvc.status_msgs@.len() <= orig_len,
                orig_len >= STATUS_MSG_CAP ==> srvc.status_msgs@.len() >= STATUS_MSG_CAP - 1,
                orig_len < STATUS_MSG_CAP ==> srvc.status_msgs@.len() == orig_len,
                *srvc == (Service { status_msgs: srvc.status_msgs, ..*old(srvc) }),
            decreases srvc.status_msgs@.len(),
        {
            let ghost prev = srvc.status_msgs@;
            let _ = srvc.status_msgs.remove(0);
            proof {
                crate::bytes::lemma_views_of_remove_front(prev);
                let j = orig_len as int - prev.len() as int;
                assert(views_of(prev) == orig_msgs.skip(j));
                assert(orig_msgs.len() == orig_len);
                assert(views_of(prev).len() == prev.len());
                assert(0 <= j <= orig_msgs.len());
                assert forall|k: int| 0 <= k < orig_msgs.len() - j - 1 implies #[trigger] orig_msgs
                    .skip(j).skip(1)[k] == orig_msgs.skip(j + 1)[k] by {
                    assert(orig_msgs.skip(j)[k + 1] == orig_msgs[j + k + 1]);
                    assert(orig_msgs.skip(j + 1)[k] == orig_msgs[j + 1 + k]);
                }
                assert(orig_msgs.skip(j).skip(1) =~= orig_msgs.skip(j + 1));
                assert(orig_len as int - srvc.status_msgs@.len() as int == j + 1);
            }
        }
        let ghost before_push = srvc.status_msgs@;
        srvc.status_msgs.push(value);
        proof {
            crate::bytes::lemma_views_of_push(before_push, value);
            if orig_len < STATUS_MSG_CAP {
                assert(orig_msgs.skip(0) =~= orig_msgs);
            }
            assert(views_of(srvc.status_msgs@) == push_status(orig_msgs, msg_value(msg@)));
            assert(notify_view(*srvc) == apply_message(notify_view(*old(srvc)), msg@));
        }
    } else {
        // unknown key: logged by the caller, the record is untouched
        proof {
            assert(notify_view(*srvc) == apply_message(notify_view(*old(srvc)), msg@));
        }
    }
}

/// Consumes every complete line of the notification buffer, applying the
/// messages in arrival order; the partial tail stays for the next read.
pub fn handle_notifications_from_buffer(srvc: &mut Service)
    ensures
        notify_view(*final(srvc)) == apply_lines(
            notify_view(*old(srvc)),
            complete_lines(old(srvc).notifications_buffer@),
        ),
        final(srvc).notifications_buffer@ == line_rest(old(srvc).notifications_buffer@),
        *final(srvc) == (Service {
            status: final(srvc).status,
            signaled_ready: final(srvc).signaled_ready,
            status_msgs: final(srvc).status_msgs,
            notifications_buffer: final(srvc).notifications_buffer,
            ..*old(srvc)
        }),
{
    let ghost orig_view = notify_view(*old(srvc));
    let ghost orig_buf = old(srvc).notifications_buffer@;
    let mut more: usize = 1;
    while more == 1
        invariant
            apply_lines(orig_view, complete_lines(orig_buf)) == apply_lines(
                notify_view(*srvc),
                complete_lines(srvc.notifications_buffer@),
            ),
            line_rest(orig_buf) == line_rest(srvc.notifications_buffer@),
            more == 0 ==> first_index_of(srvc.notifications_buffer@, NL)
                >= srvc.notifications_buffer@.len(),
            *srvc == (Service {
                status: srvc.status,
                signaled_ready: srvc.signaled_ready,
                status_msgs: srvc.status_msgs,
                notifications_buffer: srvc.notifications_buffer,
                ..*old(srvc)
            }),
            more <= 1,
        decreases srvc.notifications_buffer@.len() + more,
    {
        let ghost buf_before = srvc.notifications_buffer@;
        let ghost view_before = notify_view(*srvc);
        match take_line(&mut srvc.notifications_buffer) {
            None => {
                more = 0;
            },
            Some(line) => {
                proof {
                    assert(complete_lines(buf_before) == seq![line@] + complete_lines(
                        srvc.notifications_buffer@,
                    ));
                }
                handle_notification_message(&line, srvc);
                proof {
                    let lines = seq![line@] + complete_lines(srvc.notifications_buffer@);
                    assert(lines[0] == line@);
                    assert(lines.skip(1) =~= complete_lines(srvc.notifications_buffer@));
                    assert(apply_lines(view_before, lines) == apply_lines(
                        notify_view(*srvc),
                        complete_lines(srvc.notifications_buffer@),
                    ));
                }
            },
        }
    }
}

/// Takes one datagram's bytes into the notification buffer and consumes the
/// complete lines. A datagram that would overflow the buffer cap is dropped
/// whole and reported by a `false` result, for the caller to log.
pub fn feed_notify_bytes(srvc: &mut Service, data: &Vec<u8>) -> (accepted: bool)
    ensures
        accepted == (old(srvc).notifications_buffer@.len() + data@.len() <= NOTIFY_BUF_CAP),
        accepted ==> notify_view(*final(srvc)) == apply_lines(
            notify_view(*old(srvc)),
            complete_lines(old(srvc).notifications_buffer@ + data@),
        ) && final(srvc).notifications_buffer@ == line_rest(
            old(srvc).notifications_buffer@ + data@,
        ) && *final(srvc) == (Service {
            status: final(srvc).status,
            signaled_ready: final(srvc).signaled_ready,
            status_msgs: final(srvc).status_msgs,
            notifications_buffer: final(srvc).notifications_buffer,
            ..*old(srvc)
        }),
        !accepted ==> *final(srvc) == *old(srvc),
{
    if data.len() <= NOTIFY_BUF_CAP && srvc.notifications_buffer.len() <= NOTIFY_BUF_CAP
        - data.len() {
        append_bytes(&mut srvc.notifications_buffer, data);
        handle_notifications_from_buffer(srvc);
        true
    } else {
        false
    }
}

/// Which of the three per-service streams is meant.
#[derive(Clone, Copy, Debug, PartialEq, Eq, Structural)]
pub enum StreamKind {
    Notify,
    Stdout,
    Stderr,
}

/// The read end a service exposes for the given stream, while open.
pub open spec fn stream_fd(s: Service, kind: StreamKind) -> Option<i32> {
    match kind {
        StreamKind::Notify => s.notifications,
        StreamKind::Stdout => match s.stdout_dup {
            Some(p) => Some(p.0),
            None => None,
        },
        StreamKind::Stderr => match s.stderr_dup {
            Some(p) => Some(p.0),
            None => None,
        },
    }
}

/// A read of zero bytes: the child closed its end, so the fd is dropped
/// from the record and the next snapshot no longer watches it.
pub fn note_stream_eof(srvc: &mut Service, kind: StreamKind)
    ensures
        stream_fd(*final(srvc), kind) is None,
        kind == StreamKind::Notify ==> *final(srvc) == (Service {
            notifications: None,
            ..*old(srvc)
        }),
        kind == StreamKind::Stdout ==> *final(srvc) == (Service {
            stdout_dup: None,
            ..*old(srvc)
        }),
        kind == StreamKind::Stderr ==> *final(srvc) == (Service {
            stderr_dup: None,
            ..*old(srvc)
        }),
{
    match kind {
        StreamKind::Notify => {
            srvc.notifications = None;
        },
        StreamKind::Stdout => {
            srvc.stdout_dup = None;
        },
        StreamKind::Stderr => {
            srvc.stderr_dup = None;
        },
    }
}

/// Whether unit `u` is a service currently watching `fd` on stream `kind`.
pub open spec fn unit_watches(u: Unit, kind: StreamKind, fd: i32) -> bool {
    match u.specialized {
        UnitSpecialized::Service(s) => stream_fd(s, kind) == Some(fd),
        _ => false,
    }
}

/// The snapshot contribution of one unit: its open fd paired with its id.
pub open spec fn unit_stream_pairs(u: Unit, kind: StreamKind) -> Seq<(i32, UnitId)> {
    match u.specialized {
        UnitSpecialized::Service(s) => match stream_fd(s, kind) {
            Some(fd) => seq![(fd, u.id)],
            None => Seq::empty(),
        },
        _ => Seq::empty(),
    }
}

/// The snapshot over a sequence of units, in registry order.
pub open spec fn stream_fd_pairs(units: Seq<Unit>, kind: StreamKind) -> Seq<(i32, UnitId)>
    decreases units.len(),
{
    if units.len() == 0 {
        Seq::empty()
    } else {
        stream_fd_pairs(units.drop_last(), kind) + unit_stream_pairs(units.last(), kind)
    }
}

/// A pair is in the snapshot exactly when some unit watches that fd.
pub proof fn lemma_stream_pairs_membership(units: Seq<Unit>, kind: StreamKind, fd: i32, id: UnitId)
    ensures
        stream_fd_pairs(units, kind).contains((fd, id)) <==> exists|j: int|
            0 <= j < units.len() && (#[trigger] units[j]).id == id && unit_watches(
                units[j],
                kind,
                fd,
            ),
    decreases units.len(),
{
    if units.len() == 0 {
    } else {
        let dl = units.drop_last();
        lemma_stream_pairs_membership(dl, kind, fd, id);
        let whole = stream_fd_pairs(units, kind);
        let prefix = stream_fd_pairs(dl, kind);
        let tail = unit_stream_pairs(units.last(), kind);
        assert(units.last() == units[units.len() - 1]);
        if whole.contains((fd, id)) {
            let k = choose|k: int| 0 <= k < whole.len() && whole[k] == (fd, id);
            if k < prefix.len() {
                assert(prefix[k] == (fd, id));
                assert(prefix.contains((fd, id)));
                let j = choose|j: int|
                    0 <= j < dl.len() && (#[trigger] dl[j]).id == id && unit_watches(
                        dl[j],
                        kind,
                        fd,
                    );
                assert(dl[j] == units[j]);
                assert((units[j]).id == id && unit_watches(units[j], kind, fd));
            } else {
                assert(tail[k - prefix.len()] == (fd, id));
                assert((units[units.len() - 1]).id == id && unit_watches(
                    units[units.len() - 1],
                    kind,
                    fd,
                ));
            }
        }
        if exists|j: int|
            0 <= j < units.len() && (#[trigger] units[j]).id == id && unit_watches(
                units[j],
                kind,
                fd,
            ) {
            let j = choose|j: int|
                0 <= j < units.len() && (#[trigger] units[j]).id == id && unit_watches(
                    units[j],
                    kind,
                    fd,
                );
            if j < units.len() - 1 {
                assert(dl[j] == units[j]);
                assert(prefix.contains((fd, id)));
                let k = choose|k: int| 0 <= k < prefix.len() && prefix[k] == (fd, id);
                assert(whole[k] == (fd, id));
            } else {
                assert(tail[0] == (fd, id));
                assert(whole[prefix.len() as int] == (fd, id));
            }
            assert(whole.contains((fd, id)));
        }
    }
}

/// After an EOF cleared a unit's stream fd, no snapshot pairs that unit's id
/// with any fd on that stream: the closed fd is not retried.
pub proof fn lemma_eof_fd_not_retried(units: Seq<Unit>, i: int, kind: StreamKind, fd: i32)
    requires
        unique_unit_ids(units),
        0 <= i < units.len(),
        match units[i].specialized {
            UnitSpecialized::Service(s) => stream_fd(s, kind) is None,
            _ => true,
        },
    ensures
        !stream_fd_pairs(units, kind).contains((fd, units[i].id)),
{
    lemma_stream_pairs_membership(units, kind, fd, units[i].id);
    if stream_fd_pairs(units, kind).contains((fd, units[i].id)) {
        let j = choose|j: int|
            0 <= j < units.len() && (#[trigger] units[j]).id == units[i].id && unit_watches(
                units[j],
                kind,
                fd,
            );
        assert(j == i);
    }
}

/// The multiplexer's snapshot for one stream kind: `(fd, unit id)` for every
/// service whose stream is open, in registry order.
pub fn collect_stream_fds(table: &UnitTable, kind: StreamKind) -> (r: Vec<(i32, UnitId)>)
    ensures
        r@ == stream_fd_pairs(table.units@, kind),
{
    let mut r: Vec<(i32, UnitId)> = Vec::new();
    let mut i: usize = 0;
    proof {
        assert(table.units@.take(0) =~= Seq::<Unit>::empty());
    }
    while i < table.units.len()
        invariant
            i <= table.units@.len(),
            r@ == stream_fd_pairs(table.units@.take(i as int), kind),
        decreases table.units@.len() - i,
    {
        let u = &table.units[i];
        match &u.specialized {
            UnitSpecialized::Service(s) => {
                let fdo: Option<i32> = match kind {
                    StreamKind::Notify => s.notifications,
                    StreamKind::Stdout => match s.stdout_dup {
                        Some(p) => Some(p.0),
                        None => None,
                    },
                    StreamKind::Stderr => match s.stderr_dup {
                        Some(p) => Some(p.0),
                        None => None,
                    },
                };
                match fdo {
                    Some(fd) => {
                        r.push((fd, u.id));
                    },
                    None => {},
                }
            },
            _ => {},
        }
        proof {
            let t1 = table.units@.take(i as int + 1);
            assert(t1.drop_last() =~= table.units@.take(i as int));
            assert(t1.last() == table.units@[i as int]);
            assert(r@ =~= stream_fd_pairs(t1, kind));
        }
        i += 1;
    }
    proof {
        assert(table.units@.take(table.units@.len() as int) =~= table.units@);
    }
    r
}

/// The tag `[STDERR]` marking stderr lines.
pub open spec fn stderr_tag() -> Seq<u8> {
    seq![91u8, 83u8, 84u8, 68u8, 69u8, 82u8, 82u8, 93u8]
}

/// The per-line prefix `[NAME] `, with `[STDERR]` inserted for stderr.
pub open spec fn stdio_prefix(name: Seq<u8>, stderr_mark: bool) -> Seq<u8> {
    seq![91u8] + name + seq![93u8] + (if stderr_mark {
        stderr_tag()
    } else {
        Seq::<u8>::empty()
    }) + seq![32u8]
}

/// The emitted bytes for a sequence of lines: each non-empty line prefixed
/// and newline-terminated, empty lines dropped.
pub open spec fn render_lines(prefix: Seq<u8>, lines: Seq<Seq<u8>>) -> Seq<u8>
    decreases lines.len(),
{
    if lines.len() == 0 {
        Seq::empty()
    } else {
        (if lines[0].len() == 0 {
            Seq::<u8>::empty()
        } else {
            prefix + lines[0] + seq![NL]
        }) + render_lines(prefix, lines.skip(1))
    }
}

/// Builds the prefix bytes for a unit name.
pub fn build_prefix(name: &Vec<u8>, stderr_mark: bool) -> (r: Vec<u8>)
    ensures
        r@ == stdio_prefix(name@, stderr_mark),
{
    let mut r: Vec<u8> = Vec::new();
    r.push(91);
    append_bytes(&mut r, name);
    r.push(93);
    if stderr_mark {
        r.push(91);
        r.push(83);
        r.push(84);
        r.push(68);
        r.push(69);
        r.push(82);
        r.push(82);
        r.push(93);
    }
    r.push(32);
    proof {
        assert(r@ =~= stdio_prefix(name@, stderr_mark));
    }
    r
}

/// Drains the complete lines of `buf`, emitting each non-empty one behind
/// the prefix; the partial tail stays in `buf` for the next read.
fn drain_lines(buf: &mut Vec<u8>, prefix: &Vec<u8>) -> (out: Vec<u8>)
    ensures
        out@ == render_lines(prefix@, complete_lines(old(buf)@)),
        final(buf)@ == line_rest(old(buf)@),
{
    let ghost orig = old(buf)@;
    let mut out: Vec<u8> = Vec::new();
    proof {
        assert(out@ + render_lines(prefix@, complete_lines(buf@)) =~= render_lines(
            prefix@,
            complete_lines(orig),
        ));
    }
    let mut more: usize = 1;
    while more == 1
        invariant
            render_lines(prefix@, complete_lines(orig)) == out@ + render_lines(
                prefix@,
                complete_lines(buf@),
            ),
            line_rest(orig) == line_rest(buf@),
            more == 0 ==> first_index_of(buf@, NL) >= buf@.len(),
            more <= 1,
        decreases buf@.len() + more,
    {
        let ghost buf_before = buf@;
        let ghost out_before = out@;
        match take_line(buf) {
            None => {
                more = 0;
            },
            Some(line) => {
                proof {
                    assert(complete_lines(buf_before) == seq![line@] + complete_lines(buf@));
                }
                if line.len() > 0 {
                    append_bytes(&mut out, prefix);
                    append_bytes(&mut out, &line);
                    out.push(NL);
                }
                proof {
                    let lines = seq![line@] + complete_lines(buf@);
                    assert(lines[0] == line@);
                    assert(lines.skip(1) =~= complete_lines(buf@));
                    if line@.len() == 0 {
                        assert(out@ == out_before);
                        assert(out_before + render_lines(prefix@, lines) =~= out@ + render_lines(
                            prefix@,
                            complete_lines(buf@),
                        ));
                    } else {
                        assert(out@ =~= out_before + (prefix@ + line@ + seq![NL]));
                        assert(out_before + render_lines(prefix@, lines) =~= out@ + render_lines(
                            prefix@,
                            complete_lines(buf@),
                        ));
                    }
                }
            },
        }
    }
    proof {
        assert(out@ + render_lines(prefix@, complete_lines(buf@)) =~= out@);
    }
    out
}

/// Routes one stdout read: the carried partial line joins the new bytes,
/// every complete non-empty line is emitted as `[NAME] LINE` with a newline,
/// and the new partial tail is carried for the next read.
pub fn handle_std_out_data(srvc: &mut Service, name: &Vec<u8>, data: &Vec<u8>) -> (out: Vec<u8>)
    ensures
        out@ == render_lines(
            stdio_prefix(name@, false),
            complete_lines(old(srvc).stdout_buffer@ + data@),
        ),
        final(srvc).stdout_buffer@ == line_rest(old(srvc).stdout_buffer@ + data@),
        *final(srvc) == (Service { stdout_buffer: final(srvc).stdout_buffer, ..*old(srvc) }),
{
    let prefix = build_prefix(name, false);
    append_bytes(&mut srvc.stdout_buffer, data);
    drain_lines(&mut srvc.stdout_buffer, &prefix)
}

/// Routes one stderr read, as [`handle_std_out_data`] with the `[STDERR]`
/// tag in the prefix.
pub fn handle_std_err_data(srvc: &mut Service, name: &Vec<u8>, data: &Vec<u8>) -> (out: Vec<u8>)
    ensures
        out@ == render_lines(
            stdio_prefix(name@, true),
            complete_lines(old(srvc).stderr_buffer@ + data@),
        ),
        final(srvc).stderr_buffer@ == line_rest(old(srvc).stderr_buffer@ + data@),
        *final(srvc) == (Service { stderr_buffer: final(srvc).stderr_buffer, ..*old(srvc) }),
{
    let prefix = build_prefix(name, true);
    append_bytes(&mut srvc.stderr_buffer, data);
    drain_lines(&mut srvc.stderr_buffer, &prefix)
}

/// On service exit, the partial stdout tail is flushed as one line with a
/// newline appended.
pub fn flush_std_out_tail(srvc: &mut Service, name: &Vec<u8>) -> (out: Vec<u8>)
    ensures
        old(srvc).stdout_buffer@.len() == 0 ==> out@ == Seq::<u8>::empty(),
        old(srvc).stdout_buffer@.len() > 0 ==> out@ == stdio_prefix(name@, false) + old(
            srvc,
        ).stdout_buffer@ + seq![NL],
        final(srvc).stdout_buffer@ == Seq::<u8>::empty(),
        *final(srvc) == (Service { stdout_buffer: final(srvc).stdout_buffer, ..*old(srvc) }),
{
    if srvc.stdout_buffer.len() == 0 {
        let out: Vec<u8> = Vec::new();
        proof {
            assert(out@ =~= Seq::<u8>::empty());
            assert(srvc.stdout_buffer@ =~= Seq::<u8>::empty());
        }
        return out;
    }
    let mut out = build_prefix(name, false);
    append_bytes(&mut out, &srvc.stdout_buffer);
    out.push(NL);
    srvc.stdout_buffer = Vec::new();
    proof {
        assert(out@ =~= stdio_prefix(name@, false) + old(srvc).stdout_buffer@ + seq![NL]);
        assert(srvc.stdout_buffer@ =~= Seq::<u8>::empty());
    }
    out
}

/// On service exit, the partial stderr tail is flushed as one line with a
/// newline appended.
pub fn flush_std_err_tail(srvc: &mut Service, name: &Vec<u8>) -> (out: Vec<u8>)
    ensures
        old(srvc).stderr_buffer@.len() == 0 ==> out@ == Seq::<u8>::empty(),
        old(srvc).stderr_buffer@.len() > 0 ==> out@ == stdio_prefix(name@, true) + old(
            srvc,
        ).stderr_buffer@ + seq![NL],
        final(srvc).stderr_buffer@ == Seq::<u8>::empty(),
        *final(srvc) == (Service { stderr_buffer: final(srvc).stderr_buffer, ..*old(srvc) }),
{
    if srvc.stderr_buffer.len() == 0 {
        let out: Vec<u8> = Vec::new();
        proof {
            assert(out@ =~= Seq::<u8>::empty());
            assert(srvc.stderr_buffer@ =~= Seq::<u8>::empty());
        }
        return out;
    }
    let mut out = build_prefix(name, true);
    append_bytes(&mut out, &srvc.stderr_buffer);
    out.push(NL);
    srvc.stderr_buffer = Vec::new();
    proof {
        assert(out@ =~= stdio_prefix(name@, true) + old(srvc).stderr_buffer@ + seq![NL]);
        assert(srvc.stderr_buffer@ =~= Seq::<u8>::empty());
    }
    out
}

} // verus!
