use djinn::packet_reader::PacketReader;
use djinn::packets::{
    deserialize_packet, get_packet_length, ControlPacket, ControlPacketType, DataPacket,
    DecodeError, Packet, PacketType,
};
use djinn::strmap::StrMap;

fn params(pairs: &[(&str, &str)]) -> StrMap<String> {
    let mut m = StrMap::new();
    for (k, v) in pairs {
        m.insert(k.to_string(), v.to_string());
    }
    m
}

#[test]
fn test_control_packet() {
    let mut control_packet = ControlPacket {
        packet_type: PacketType::Control,
        control_packet_type: ControlPacketType::EchoRequest,
        job_id: Some(10),
        params: StrMap::new(),
    };

    control_packet.params.insert("a".to_string(), "b".to_string());

    let buffer = control_packet.to_buffer();

    let control_packet2 = match deserialize_packet(&buffer).unwrap() {
        Packet::Control(c) => c,
        Packet::Data(_) => panic!("expected a control packet"),
    };

    assert!(matches!(control_packet2.packet_type, PacketType::Control));
    assert!(matches!(control_packet2.control_packet_type, ControlPacketType::EchoRequest));
    assert_eq!(control_packet2.job_id.unwrap(), 10);
    assert_eq!(control_packet2.params.get("a").unwrap(), "b");
}

#[test]
fn test_data_packet() {
    let mut data_packet = DataPacket::new(0, vec![0, 1, 2, 3, 4, 5, 6, 7, 8, 9], 0);
    data_packet.packet_number = 99_u32;
    let buffer = data_packet.to_buffer();

    let data_packet2 = match deserialize_packet(&buffer).unwrap() {
        Packet::Data(d) => d,
        Packet::Control(_) => panic!("expected a data packet"),
    };

    assert_eq!(data_packet.job_id, data_packet2.job_id);
    assert_eq!(data_packet.data, data_packet2.data);
    assert_eq!(data_packet.packet_number, data_packet2.packet_number);
}

#[test]
fn test_deserialize_control_packet() {
    let buffer: Vec<u8> = DataPacket::new(0, vec![], 0).to_buffer();
    let packet = deserialize_packet(&buffer).unwrap();

    assert!(matches!(packet.get_packet_type(), PacketType::Data));
}

#[test]
fn control_packet_bytes_are_exact() {
    let mut p = ControlPacket::new(ControlPacketType::SyncAck, params(&[("job_id", "7")]));
    p.job_id = Some(258);
    let b = p.to_buffer();
    let expected: Vec<u8> = vec![
        0, 0, 0, 19, 0, 8, 0, 0, 1, 2, b'j', b'o', b'b', b'_', b'i', b'd', b'=', b'7', b';',
    ];
    assert_eq!(b, expected);
    assert_eq!(p.calculate_packet_size(), 19);
    assert_eq!(get_packet_length(&b), 19);
}

#[test]
fn data_packet_bytes_are_exact() {
    let p = DataPacket::new(1, vec![9, 8], 2);
    assert!(p.has_data);
    assert_eq!(p.to_buffer(), vec![0, 0, 0, 15, 1, 0, 0, 0, 1, 0, 0, 0, 2, 9, 8]);
    assert!(!DataPacket::new(1, vec![], 3).has_data);
}

#[test]
fn control_round_trip_keeps_all_params() {
    let p = ControlPacket::new(
        ControlPacketType::SyncIndexResponse,
        params(&[("/a.txt", "100"), ("/dir/b é.txt", "200"), ("#timestamp", "300")]),
    );
    let q = match deserialize_packet(&p.to_buffer()).unwrap() {
        Packet::Control(c) => c,
        Packet::Data(_) => panic!("expected a control packet"),
    };
    assert!(matches!(q.control_packet_type, ControlPacketType::SyncIndexResponse));
    assert_eq!(q.job_id, None);
    assert_eq!(q.params.len(), 3);
    assert_eq!(q.params.get("/a.txt").unwrap(), "100");
    assert_eq!(q.params.get("/dir/b é.txt").unwrap(), "200");
    assert_eq!(q.params.get("#timestamp").unwrap(), "300");
}

#[test]
fn short_entries_are_skipped_and_later_keys_win() {
    let mut b: Vec<u8> = vec![0, 0, 0, 0, 0, 0, 0, 0, 0, 0];
    b.extend_from_slice(b"a=;k=1;xy;k=2=3;");
    let n = b.len() as u8;
    b[3] = n;
    let q = match deserialize_packet(&b).unwrap() {
        Packet::Control(c) => c,
        Packet::Data(_) => panic!("expected a control packet"),
    };
    assert_eq!(q.params.len(), 1);
    assert_eq!(q.params.get("k").unwrap(), "2");
}

#[test]
fn decode_errors() {
    assert_eq!(deserialize_packet(&[0, 0, 0]).err(), Some(DecodeError::TooShort));
    assert_eq!(deserialize_packet(&[0, 0, 0, 9, 0]).err(), Some(DecodeError::LengthMismatch));
    assert_eq!(deserialize_packet(&[0, 0, 0, 5, 7]).err(), Some(DecodeError::UnknownPacketType));
    assert_eq!(deserialize_packet(&[0, 0, 0, 6, 0, 1]).err(), Some(DecodeError::TooShort));
    assert_eq!(
        deserialize_packet(&[0, 0, 0, 10, 0, 15, 0, 0, 0, 0]).err(),
        Some(DecodeError::UnknownControlKind)
    );
    assert_eq!(
        deserialize_packet(&[0, 0, 0, 13, 0, 0, 0, 0, 0, 0, b'a', b'b', b'c']).err(),
        Some(DecodeError::MalformedParameter)
    );
    assert_eq!(
        deserialize_packet(&[0, 0, 0, 13, 0, 0, 0, 0, 0, 0, 0xff, b'=', b'c']).err(),
        Some(DecodeError::InvalidText)
    );
    let mut big = vec![0u8; 13 + 60001];
    let n = big.len() as u32;
    big[0..4].copy_from_slice(&n.to_be_bytes());
    big[4] = 1;
    assert_eq!(deserialize_packet(&big).err(), Some(DecodeError::PayloadTooLarge));
}

#[test]
fn control_kinds_round_trip_through_their_ordinal() {
    for b in 0u8..15 {
        let k = ControlPacketType::from_byte(b).unwrap();
        assert_eq!(k.to_byte(), b);
    }
    assert!(ControlPacketType::from_byte(15).is_none());
    assert!(matches!(PacketType::from_byte(0), Some(PacketType::Control)));
    assert!(matches!(PacketType::from_byte(1), Some(PacketType::Data)));
    assert!(PacketType::from_byte(2).is_none());
}

fn three_packets() -> (Vec<u8>, usize) {
    let mut first = ControlPacket::new(ControlPacketType::TransferRequest, params(&[("file_path", "/x")]));
    first.job_id = Some(4);
    let second = DataPacket::new(4, vec![1, 2, 3], 1);
    let third = DataPacket::new(4, vec![], 2);
    let mut all = first.to_buffer();
    all.extend(second.to_buffer());
    all.extend(third.to_buffer());
    (all, 3)
}

#[test]
fn reader_yields_packets_byte_by_byte() {
    let (all, count) = three_packets();
    let mut reader = PacketReader::new();
    let mut got: Vec<Packet> = Vec::new();
    for b in &all {
        got.extend(reader.read(&[*b], None).unwrap());
    }
    assert_eq!(got.len(), count);
    match &got[0] {
        Packet::Control(c) => {
            assert!(matches!(c.control_packet_type, ControlPacketType::TransferRequest));
            assert_eq!(c.job_id, Some(4));
            assert_eq!(c.params.get("file_path").unwrap(), "/x");
        }
        Packet::Data(_) => panic!("expected a control packet"),
    }
    match &got[1] {
        Packet::Data(d) => assert_eq!(d.data, vec![1, 2, 3]),
        Packet::Control(_) => panic!("expected a data packet"),
    }
    match &got[2] {
        Packet::Data(d) => {
            assert!(!d.has_data);
            assert_eq!(d.packet_number, 2);
        }
        Packet::Control(_) => panic!("expected a data packet"),
    }
}

#[test]
fn reader_yields_packets_in_uneven_chunks() {
    let (all, count) = three_packets();
    for size in [2usize, 5, 7, 13, 100] {
        let mut reader = PacketReader::new();
        let mut got = 0;
        for chunk in all.chunks(size) {
            got += reader.read(chunk, None).unwrap().len();
        }
        assert_eq!(got, count);
        assert!(reader.buffer.is_empty());
    }
}

#[test]
fn reader_with_fewer_than_four_bytes_yields_nothing() {
    let mut reader = PacketReader::new();
    assert_eq!(reader.read(&[0, 0, 0], None).unwrap().len(), 0);
    assert_eq!(reader.buffer.len(), 3);
}

#[test]
fn reader_respects_max_packets() {
    let (all, _) = three_packets();
    let mut reader = PacketReader::new();
    assert_eq!(reader.read(&all, Some(1)).unwrap().len(), 1);
    assert_eq!(reader.read(&[], Some(5)).unwrap().len(), 2);
}

#[test]
fn reader_rejects_a_bad_length() {
    let mut reader = PacketReader::new();
    assert_eq!(reader.read(&[0, 0, 0, 2, 0], None).err(), Some(DecodeError::BadLength));
}
