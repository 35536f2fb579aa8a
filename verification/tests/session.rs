//! Sessions over a byte stream.

use bytes::BufMut;
use rmr::endpoint::events::RouterFrame;
use rmr::endpoint::filters::{Filters, MsgIdRange, U8Range};
use rmr::endpoint::id::EndpointId;
use rmr::endpoint::session::{Ingress, Session, SessionAction, SessionEvent, SessionOutcome};
use rmr::endpoint::stats::EndpointStats;
use rmr::mavlink::crc::Crc16;
use rmr::mavlink::frame::STX_V1;

const ID: EndpointId = EndpointId(7);

fn no_filter() -> Filters {
    Filters::default()
}

fn build_v1_heartbeat_with_seq(seq: u8) -> Vec<u8> {
    let payload = [0u8; 9];
    let mut frame = vec![STX_V1, payload.len() as u8, seq, 1, 1, 0];
    frame.extend_from_slice(&payload);
    let mut crc = Crc16::new();
    crc.update_slice(&frame[1..]);
    crc.update(50);
    let crc_value = crc.finalize();
    frame.push((crc_value & 0xFF) as u8);
    frame.push((crc_value >> 8) as u8);
    frame
}

fn build_v1_heartbeat() -> Vec<u8> {
    build_v1_heartbeat_with_seq(0)
}

/// Read `bytes` in one go; the router takes each frame if it is `open`.
fn read(
    session: &mut Session,
    bytes: &[u8],
    filters: &Filters,
    stats: &mut EndpointStats,
    open: bool,
) -> (Vec<RouterFrame>, Option<SessionOutcome>) {
    session.ingress.framer.buffer_mut().put_slice(bytes);
    let mut event = SessionEvent::Read(Some(bytes.len()));
    let mut frames = Vec::new();
    loop {
        match session.step(event, ID, filters, stats, 1) {
            SessionAction::Forward(frame) => {
                if open {
                    frames.push(frame);
                }
                event = SessionEvent::Forwarded(open);
            }
            SessionAction::Finish(outcome) => return (frames, Some(outcome)),
            SessionAction::Wait => return (frames, None),
        }
    }
}

/// Every frame that `bytes` hold for the router.
fn pump_all(bytes: &[u8], filters: &Filters, stats: &mut EndpointStats) -> Vec<RouterFrame> {
    let mut ingress = Ingress::new();
    ingress.framer.feed(bytes);
    let mut frames = Vec::new();
    while let Some(frame) = ingress.next_inbound(ID, filters, stats, 1) {
        frames.push(frame);
    }
    frames
}

fn finished(action: SessionAction) -> Option<SessionOutcome> {
    match action {
        SessionAction::Finish(outcome) => Some(outcome),
        SessionAction::Forward(_) => panic!("nothing to forward"),
        SessionAction::Wait => None,
    }
}

#[test]
fn handle_read_eof_breaks_disconnected() {
    let mut stats = EndpointStats::default();
    let action = Session::new().step(SessionEvent::Read(Some(0)), ID, &no_filter(), &mut stats, 1);
    assert_eq!(finished(action), Some(SessionOutcome::Disconnected));
}

#[test]
fn handle_read_err_breaks_disconnected() {
    let mut stats = EndpointStats::default();
    let action = Session::new().step(SessionEvent::Read(None), ID, &no_filter(), &mut stats, 1);
    assert_eq!(finished(action), Some(SessionOutcome::Disconnected));
}

#[test]
fn handle_read_partial_frame_continues_without_send() {
    let mut stats = EndpointStats::default();
    let (frames, end) = read(&mut Session::new(), &[STX_V1, 9, 0], &no_filter(), &mut stats, true);
    assert_eq!(end, None);
    assert!(frames.is_empty());
    assert_eq!(stats.rx_frames, 0);
}

#[test]
fn handle_read_complete_frame_forwards_and_bumps_stats() {
    let bytes = build_v1_heartbeat();
    let mut stats = EndpointStats::default();
    let (frames, end) = read(&mut Session::new(), &bytes, &no_filter(), &mut stats, true);
    assert_eq!(end, None);
    assert_eq!(frames.len(), 1);
    assert_eq!(frames[0].endpoint_id, ID);
    assert_eq!(&frames[0].frame[..], &bytes[..]);
    assert_eq!(stats.rx_frames, 1);
    assert_eq!(stats.rx_bytes, bytes.len() as u64);
}

#[test]
fn handle_read_router_closed_breaks_terminated_but_counts_rx() {
    let bytes = build_v1_heartbeat();
    let mut stats = EndpointStats::default();
    let (_, end) = read(&mut Session::new(), &bytes, &no_filter(), &mut stats, false);
    assert_eq!(end, Some(SessionOutcome::Terminated));
    assert_eq!(stats.rx_frames, 1);
}

#[test]
fn handle_read_syncs_framer_counters_to_stats() {
    let frame = build_v1_heartbeat();
    let mut buf = vec![0u8; 4];
    buf.extend_from_slice(&frame);
    let mut stats = EndpointStats::default();
    let (_, end) = read(&mut Session::new(), &buf, &no_filter(), &mut stats, true);
    assert_eq!(end, None);
    assert_eq!(stats.resync_bytes, 4);
}

#[test]
fn handle_read_terminated_path_skips_framer_sync() {
    let frame = build_v1_heartbeat();
    let mut buf = vec![0u8; 4];
    buf.extend_from_slice(&frame);
    let mut stats = EndpointStats::default();
    let (_, end) = read(&mut Session::new(), &buf, &no_filter(), &mut stats, false);
    assert_eq!(end, Some(SessionOutcome::Terminated));
    assert_eq!(stats.resync_bytes, 0);
}

#[test]
fn handle_read_corrupted_crc_propagates_to_stats() {
    let mut frame = build_v1_heartbeat();
    let last = frame.len() - 1;
    frame[last] ^= 0xFF;
    let mut stats = EndpointStats::default();
    let (frames, end) = read(&mut Session::new(), &frame, &no_filter(), &mut stats, true);
    assert_eq!(end, None);
    assert_eq!(stats.crc_errors, 1);
    assert_eq!(stats.rx_frames, 0);
    assert!(frames.is_empty());
}

#[test]
fn handle_read_multiple_frames_in_one_buffer_fill_all_forward() {
    let frame = build_v1_heartbeat();
    let mut buf = frame.clone();
    buf.extend_from_slice(&frame);
    let mut stats = EndpointStats::default();
    let (frames, end) = read(&mut Session::new(), &buf, &no_filter(), &mut stats, true);
    assert_eq!(end, None);
    assert_eq!(frames.len(), 2);
    assert_eq!(stats.rx_frames, 2);
    assert_eq!(stats.rx_bytes, 2 * frame.len() as u64);
}

#[test]
fn forward_inbound_frames_empty_continues() {
    let mut stats = EndpointStats::default();
    assert!(pump_all(&[], &no_filter(), &mut stats).is_empty());
    assert_eq!(stats.rx_frames, 0);
}

#[test]
fn forward_inbound_frames_drains_all_buffered() {
    let bytes = build_v1_heartbeat();
    let mut both = bytes.clone();
    both.extend_from_slice(&bytes);
    let mut stats = EndpointStats::default();
    assert_eq!(pump_all(&both, &no_filter(), &mut stats).len(), 2);
    assert_eq!(stats.rx_frames, 2);
    assert_eq!(stats.rx_bytes, 2 * bytes.len() as u64);
}

#[test]
fn forward_inbound_frames_breaks_when_router_channel_closed() {
    let mut stats = EndpointStats::default();
    let action =
        Session::new().step(SessionEvent::Forwarded(false), ID, &no_filter(), &mut stats, 1);
    assert_eq!(finished(action), Some(SessionOutcome::Terminated));
}

#[test]
fn in_filter_blocks_frame_and_bumps_drop_counter() {
    let bytes = build_v1_heartbeat();
    let mut stats = EndpointStats::default();
    let filters = Filters {
        block_msgid_in: vec![MsgIdRange::single(0)],
        ..Filters::default()
    };
    assert!(
        pump_all(&bytes, &filters, &mut stats).is_empty(),
        "frame must not reach router"
    );
    assert_eq!(stats.rx_frames, 1);
    assert_eq!(stats.in_filter_drops, 1);
}

#[test]
fn in_filter_pass_lets_frame_through_without_counter_bump() {
    let bytes = build_v1_heartbeat();
    let mut stats = EndpointStats::default();
    let filters = Filters {
        allow_msgid_in: vec![MsgIdRange::single(0)],
        ..Filters::default()
    };
    assert_eq!(pump_all(&bytes, &filters, &mut stats).len(), 1);
    assert_eq!(stats.in_filter_drops, 0);
}

#[test]
fn seq_tracker_bumps_rx_lost_est_on_small_gap() {
    let mut bytes = build_v1_heartbeat_with_seq(0);
    bytes.extend_from_slice(&build_v1_heartbeat_with_seq(3));
    let mut stats = EndpointStats::default();
    pump_all(&bytes, &no_filter(), &mut stats);
    assert_eq!(stats.rx_frames, 2);
    assert_eq!(stats.rx_lost_est, 2);
}

#[test]
fn seq_tracker_runs_before_in_filter_so_blocked_frame_still_counts() {
    let mut bytes = build_v1_heartbeat_with_seq(0);
    bytes.extend_from_slice(&build_v1_heartbeat_with_seq(4));
    let mut stats = EndpointStats::default();
    let filters = Filters {
        block_msgid_in: vec![MsgIdRange::single(0)],
        ..Filters::default()
    };
    assert!(pump_all(&bytes, &filters, &mut stats).is_empty());
    assert_eq!(stats.in_filter_drops, 2);
    assert_eq!(stats.rx_lost_est, 3);
}

#[test]
fn seq_tracker_consecutive_seqs_no_bump() {
    let bytes: Vec<u8> = (0u8..=4u8).flat_map(build_v1_heartbeat_with_seq).collect();
    let mut stats = EndpointStats::default();
    pump_all(&bytes, &no_filter(), &mut stats);
    assert_eq!(stats.rx_frames, 5);
    assert_eq!(stats.rx_lost_est, 0);
}

#[test]
fn seq_tracker_large_gap_treated_as_restart_no_bump() {
    let mut bytes = build_v1_heartbeat_with_seq(0);
    bytes.extend_from_slice(&build_v1_heartbeat_with_seq(200));
    let mut stats = EndpointStats::default();
    pump_all(&bytes, &no_filter(), &mut stats);
    assert_eq!(stats.rx_frames, 2);
    assert_eq!(stats.rx_lost_est, 0);
}

#[test]
fn write_outbound_frame_success_bumps_tx_stats() {
    let mut stats = EndpointStats::default();
    let action =
        Session::new().step(SessionEvent::Written(Some(10)), ID, &no_filter(), &mut stats, 1);
    assert_eq!(finished(action), None);
    assert_eq!(stats.tx_frames, 1);
    assert_eq!(stats.tx_bytes, 10);
}

#[test]
fn write_outbound_frame_io_error_breaks_disconnected() {
    let mut stats = EndpointStats::default();
    let action = Session::new().step(SessionEvent::Written(None), ID, &no_filter(), &mut stats, 1);
    assert_eq!(finished(action), Some(SessionOutcome::Disconnected));
    assert_eq!(stats.tx_frames, 0);
    assert_eq!(stats.tx_bytes, 0);
}

#[test]
fn cancelled_session_is_terminated() {
    let mut stats = EndpointStats::default();
    let action = Session::new().step(SessionEvent::Cancelled, ID, &no_filter(), &mut stats, 1);
    assert_eq!(finished(action), Some(SessionOutcome::Terminated));
}

/// A heartbeat of the system `sys`.
fn heartbeat_of(sys: u8, seq: u8) -> Vec<u8> {
    let mut frame = build_v1_heartbeat_with_seq(seq);
    frame.truncate(frame.len() - 2);
    frame[3] = sys;
    let mut crc = Crc16::new();
    crc.update_slice(&frame[1..]);
    crc.update(50);
    let crc_value = crc.finalize();
    frame.push((crc_value & 0xFF) as u8);
    frame.push((crc_value >> 8) as u8);
    frame
}

#[test]
fn counters_of_one_read_add_up() {
    let sent = [(1, 0), (2, 0), (1, 3), (2, 2), (1, 4)];
    let mut bytes = vec![0u8; 3];
    for (sys, seq) in sent {
        bytes.extend_from_slice(&heartbeat_of(sys, seq));
    }
    let filters = Filters {
        block_src_sys_in: vec![U8Range { lo: 2, hi: 2 }],
        ..Filters::default()
    };
    let mut session = Session::new();
    let mut stats = EndpointStats {
        rx_frames: u64::MAX,
        ..EndpointStats::default()
    };
    let (frames, outcome) = read(&mut session, &bytes, &filters, &mut stats, true);
    assert!(outcome.is_none());
    let seqs: Vec<u8> = frames.iter().map(|f| f.header.seq).collect();
    assert_eq!(seqs, vec![0, 3, 4]);
    assert_eq!(stats.rx_frames, 4);
    assert_eq!(stats.rx_bytes, 5 * 17);
    assert_eq!(stats.rx_lost_est, 2 + 1);
    assert_eq!(stats.in_filter_drops, 2);
    assert_eq!(stats.resync_bytes, 3);
}
