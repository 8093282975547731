use packet_pipeline::capture::{
    resolve_interface, run_capture, CaptureConfig, CaptureError, CaptureRun, ChannelOutcome,
    FrameEvent,
};
use packet_pipeline::record::ProtocolLabel;
use packet_pipeline::timestamp::Timestamp;

fn small_frame(tag: u8) -> Vec<u8> {
    let mut f = vec![0u8; 14];
    f[12] = 0x12; // unrecognized ether type: dissects to defaults
    f[13] = 0x34;
    f.push(tag);
    f
}

fn t0() -> Timestamp {
    Timestamp { year: 2024, month: 3, day: 18, hour: 11, minute: 0, second: 0, nanosecond: 0 }
}

#[test]
fn failed_reads_consume_no_sequence_numbers() {
    // Five attempts, of which the second and fourth fail: exactly the
    // three dissected records come out, numbered one to three.
    let events = vec![
        FrameEvent::Frame(small_frame(1)),
        FrameEvent::ReadError,
        FrameEvent::Frame(small_frame(2)),
        FrameEvent::ReadError,
        FrameEvent::Frame(small_frame(3)),
    ];
    let records = run_capture(5, events);
    assert_eq!(records.len(), 3);
    assert_eq!(records[0].number, 1);
    assert_eq!(records[1].number, 2);
    assert_eq!(records[2].number, 3);
    // Draw order is kept: the payload tags come out in capture order.
    assert_eq!(records[0].payload, vec![1]);
    assert_eq!(records[1].payload, vec![2]);
    assert_eq!(records[2].payload, vec![3]);
}

#[test]
fn sequence_numbers_are_one_to_n() {
    let events: Vec<FrameEvent> = (0..8).map(|i| FrameEvent::Frame(small_frame(i))).collect();
    let records = run_capture(8, events);
    assert_eq!(records.len(), 8);
    for (i, rec) in records.iter().enumerate() {
        assert_eq!(rec.number, i as u64 + 1);
    }
}

#[test]
fn run_stops_at_target_count() {
    let events: Vec<FrameEvent> = (0..10).map(|i| FrameEvent::Frame(small_frame(i))).collect();
    let records = run_capture(4, events);
    assert_eq!(records.len(), 4);
}

#[test]
fn run_stops_when_events_run_out() {
    let events = vec![FrameEvent::Frame(small_frame(1)), FrameEvent::ReadError];
    let records = run_capture(100, events);
    assert_eq!(records.len(), 1);
}

#[test]
fn all_reads_failing_produce_no_records() {
    let events = vec![FrameEvent::ReadError, FrameEvent::ReadError, FrameEvent::ReadError];
    let records = run_capture(3, events);
    assert_eq!(records.len(), 0);
}

#[test]
fn records_are_dissected() {
    let mut f = vec![0u8; 14];
    f[12] = 0x08;
    f[13] = 0x06;
    let mut body = vec![0u8; 28];
    body[6] = 0xaa;
    f.extend_from_slice(&body);
    let records = run_capture(1, vec![FrameEvent::Frame(f.clone())]);
    assert_eq!(records.len(), 1);
    assert_eq!(records[0].protocol, ProtocolLabel::Arp);
    assert_eq!(records[0].length, f.len());
    // The capture clock stamped the record with a valid timestamp.
    let ts = records[0].time;
    assert!(1 <= ts.month && ts.month <= 12);
    assert!(1 <= ts.day && ts.day <= 31);
    assert!(ts.hour < 24 && ts.minute < 60 && ts.second < 60);
    assert!(ts.nanosecond < 1_000_000_000);
}

#[test]
fn resolve_interface_finds_first_match() {
    let available = vec![
        String::from("lo"),
        String::from("eth0"),
        String::from("eth1"),
        String::from("eth0"),
    ];
    let name = String::from("eth0");
    assert_eq!(resolve_interface(&name, &available), Ok(1));
}

#[test]
fn resolve_interface_rejects_unknown_name() {
    let available = vec![String::from("lo"), String::from("eth0")];
    let name = String::from("wlan0");
    assert_eq!(resolve_interface(&name, &available), Err(CaptureError::InterfaceNotFound));
}

#[test]
fn begin_rejects_non_ethernet_channel() {
    let config = CaptureConfig { interface_name: String::from("eth0"), target_count: 5 };
    assert!(CaptureRun::begin(&config, ChannelOutcome::Ethernet).is_ok());
    match CaptureRun::begin(&config, ChannelOutcome::Other) {
        Err(e) => assert_eq!(e, CaptureError::UnsupportedChannel),
        Ok(_) => panic!("a non-link-layer channel must abort the run"),
    }
    match CaptureRun::begin(&config, ChannelOutcome::OpenFailed) {
        Err(e) => assert_eq!(e, CaptureError::ChannelOpenFailed),
        Ok(_) => panic!("a failed channel open must abort the run"),
    }
}

#[test]
fn step_assigns_numbers_only_to_frames() {
    let config = CaptureConfig { interface_name: String::from("eth0"), target_count: 3 };
    let mut run = CaptureRun::begin(&config, ChannelOutcome::Ethernet).unwrap();
    let r1 = run.step(&FrameEvent::Frame(small_frame(1)), t0());
    assert_eq!(r1.unwrap().number, 1);
    let r2 = run.step(&FrameEvent::ReadError, t0());
    assert!(r2.is_none());
    let r3 = run.step(&FrameEvent::Frame(small_frame(2)), t0());
    assert_eq!(r3.unwrap().number, 2);
    assert!(run.is_done());
}

#[test]
fn cancel_ends_the_run() {
    let config = CaptureConfig { interface_name: String::from("eth0"), target_count: 10 };
    let mut run = CaptureRun::begin(&config, ChannelOutcome::Ethernet).unwrap();
    let _ = run.step(&FrameEvent::Frame(small_frame(1)), t0());
    assert!(!run.is_done());
    run.cancel();
    assert!(run.is_done());
    assert_eq!(run.produced, 1);
}
