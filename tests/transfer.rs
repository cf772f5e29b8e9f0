use djinn::packets::MAX_PAYLOAD;
use djinn::transfer::DataPacketGenerator;

#[test]
fn test_data_packet_generator() {
    let mut file: Vec<u8> = vec![1u8; 60000];
    file.extend(vec![2u8; 60000]);
    let mut generator = DataPacketGenerator::new(1, "test_file.txt".to_string());
    let mut packet_count = 0;
    let mut chunks = file.chunks(MAX_PAYLOAD).map(|c| c.to_vec()).collect::<Vec<_>>();
    chunks.push(Vec::new());
    for chunk in chunks {
        let packet = generator.next_packet(chunk).unwrap();
        packet_count += 1;
        if packet_count < 3 {
            assert_eq!(packet.job_id, 1);
            assert_eq!(packet.data.len(), 60000);
            assert_eq!(packet.packet_number, packet_count as u32);
            assert!(packet.data.iter().all(|&x| x == packet_count as u8));
        } else {
            assert_eq!(packet.job_id, 1);
            assert_eq!(packet.packet_number, 3);
            assert_eq!(packet.data.len(), 0);
        }
    }
    assert_eq!(packet_count, 3);
    assert!(generator.next_packet(Vec::new()).is_none());
}

#[test]
fn a_180000_byte_file_takes_four_packets() {
    let file: Vec<u8> = (0..180000u32).map(|i| (i % 251) as u8).collect();
    let mut generator = DataPacketGenerator::new(7, "big".to_string());
    let mut sizes = Vec::new();
    let mut received: Vec<u8> = Vec::new();
    let mut offset = 0;
    loop {
        let end = (offset + MAX_PAYLOAD).min(file.len());
        let chunk = file[offset..end].to_vec();
        offset = end;
        match generator.next_packet(chunk) {
            Some(p) => {
                sizes.push(p.data.len());
                assert_eq!(p.packet_number as usize, sizes.len());
                received.extend(&p.data);
                if !p.has_data {
                    break;
                }
            }
            None => break,
        }
    }
    assert_eq!(sizes, vec![60000, 60000, 60000, 0]);
    assert_eq!(received, file);
}

#[test]
fn an_empty_file_takes_one_empty_packet() {
    let mut generator = DataPacketGenerator::new(2, "empty".to_string());
    let p = generator.next_packet(Vec::new()).unwrap();
    assert_eq!(p.packet_number, 1);
    assert!(!p.has_data);
    assert!(generator.ended);
}
