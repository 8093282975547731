use packet_pipeline::addr::{IpAddress, MacAddress};
use packet_pipeline::ingest::{packet_document, IngestQueue, PacketDocument};
use packet_pipeline::record::{PacketStruct, ProtocolLabel};
use packet_pipeline::timestamp::Timestamp;

fn sample_record(number: u64) -> PacketStruct {
    PacketStruct::new(
        number,
        Timestamp { year: 2024, month: 3, day: 18, hour: 11, minute: 0, second: 0, nanosecond: 0 },
        ProtocolLabel::Tcp,
        MacAddress { octets: [0x01, 0x02, 0x03, 0x04, 0x05, 0x06] },
        IpAddress::V4([192, 168, 0, 1]),
        443,
        MacAddress { octets: [0x0a, 0x0b, 0x0c, 0x0d, 0x0e, 0x0f] },
        IpAddress::V4([10, 0, 0, 7]),
        51000,
        66,
        vec![0xde, 0xad],
    )
}

fn sample_document(number: u64) -> PacketDocument {
    packet_document(&sample_record(number))
}

#[test]
fn document_serializes_every_field() {
    let d = sample_document(7);
    assert_eq!(d.number, 7);
    assert_eq!(d.timestamp, b"2024-03-18 11:00:00.000000000".to_vec());
    assert_eq!(d.protocol, b"TCP".to_vec());
    assert_eq!(d.source_mac, b"01:02:03:04:05:06".to_vec());
    assert_eq!(d.source_ip, b"192.168.0.1".to_vec());
    assert_eq!(d.source_port, b"443".to_vec());
    assert_eq!(d.dest_mac, b"0a:0b:0c:0d:0e:0f".to_vec());
    assert_eq!(d.dest_ip, b"10.0.0.7".to_vec());
    assert_eq!(d.dest_port, b"51000".to_vec());
    assert_eq!(d.length, b"66".to_vec());
    assert_eq!(d.payload, vec![0xde, 0xad]);
}

#[test]
fn document_labels() {
    let mut r = sample_record(1);
    r.protocol = ProtocolLabel::Icmpv6;
    assert_eq!(packet_document(&r).protocol, b"ICMPv6".to_vec());
    r.protocol = ProtocolLabel::Unknown;
    assert_eq!(packet_document(&r).protocol, Vec::<u8>::new());
    r.protocol = ProtocolLabel::Hopopt;
    assert_eq!(packet_document(&r).protocol, b"HOPOPT".to_vec());
    r.protocol = ProtocolLabel::Arp;
    assert_eq!(packet_document(&r).protocol, b"ARP".to_vec());
}

#[test]
fn queue_hands_out_in_submission_order() {
    let mut q = IngestQueue::new(4);
    for n in 1..=3u64 {
        assert!(q.submit(sample_document(n)).is_ok());
    }
    assert_eq!(q.take_next().unwrap().number, 1);
    assert_eq!(q.take_next().unwrap().number, 2);
    assert_eq!(q.take_next().unwrap().number, 3);
    assert!(q.take_next().is_none());
}

#[test]
fn full_queue_hands_the_document_back() {
    let mut q = IngestQueue::new(2);
    assert!(q.submit(sample_document(1)).is_ok());
    assert!(q.submit(sample_document(2)).is_ok());
    match q.submit(sample_document(3)) {
        Err(back) => assert_eq!(back.number, 3),
        Ok(()) => panic!("a full queue must hand the document back"),
    }
    // Draining one makes room again.
    assert_eq!(q.take_next().unwrap().number, 1);
    assert!(q.submit(sample_document(3)).is_ok());
    assert_eq!(q.take_next().unwrap().number, 2);
    assert_eq!(q.take_next().unwrap().number, 3);
}

#[test]
fn slow_store_loses_nothing() {
    // A store that acknowledges nothing while the whole capture run
    // submits: all records sit in the buffer, none is dropped, and
    // once the writers catch up every record is delivered in order.
    let target_count = 5u64;
    let mut q = IngestQueue::new(target_count as usize);
    for n in 1..=target_count {
        assert!(q.submit(sample_document(n)).is_ok(), "the capture loop was blocked");
    }
    assert_eq!(q.pending_len(), 5);
    let mut delivered = Vec::new();
    while let Some(d) = q.take_next() {
        delivered.push(d.number);
    }
    assert_eq!(delivered, vec![1, 2, 3, 4, 5]);
    assert_eq!(q.pending_len(), 0);
}
