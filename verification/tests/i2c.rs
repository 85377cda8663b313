use buspirate::bitbang::BitBangMode;
use buspirate::bitbang::Config;
use buspirate::bitbang::Eeprom;
use buspirate::bitbang::Error;
use buspirate::bitbang::Mode;
use buspirate::i2c::Ack;
use buspirate::i2c::I2C;
use buspirate::transport::SimTransport;

fn enter(script_tail: Vec<Vec<u8>>) -> Mode<SimTransport, I2C> {
    let mut script = vec![b"I2C1".to_vec()];
    script.extend(script_tail);
    let sim = SimTransport::new(script);
    let bb = BitBangMode { port: sim };
    Mode::<SimTransport, I2C>::i2c(bb).ok().unwrap()
}

#[test]
fn i2c_entry_sends_selector_and_checks_tag() {
    let m = enter(vec![]);
    assert_eq!(m.port.port.sent(), &vec![0x02]);
}

#[test]
fn i2c_entry_wrong_tag_is_a_handshake_error() {
    let sim = SimTransport::new(vec![b"1W01".to_vec()]);
    let bb = BitBangMode { port: sim };
    let (bb, err) = Mode::<SimTransport, I2C>::i2c(bb).err().unwrap();
    assert!(matches!(err, Error::Handshake { .. }));
    assert_eq!(bb.port.sent(), &vec![0x02]);
}

#[test]
fn control_bits_send_their_command_bytes() {
    let mut m = enter(vec![vec![0x01], vec![0x01], vec![0x01], vec![0x01]]);
    m.start_bit().ok().unwrap();
    m.stop_bit().ok().unwrap();
    m.ack().ok().unwrap();
    m.nack().ok().unwrap();
    assert_eq!(m.port.port.sent(), &vec![0x02, 0x02, 0x03, 0x06, 0x07]);
}

#[test]
fn configure_masks_to_low_four_bits() {
    let mut m = enter(vec![vec![0x01]]);
    let cfg = Config::<I2C>::new().power_on().pullup_on();
    m.configure(cfg).ok().unwrap();
    assert_eq!(m.port.port.sent(), &vec![0x02, 0x4c]);
}

#[test]
fn start_bit_without_acknowledgement_fails() {
    let mut m = enter(vec![vec![0x00]]);
    let err = m.start_bit().err().unwrap();
    assert!(matches!(err, Error::BadResponse { command: 0x02, .. }));
}

#[test]
fn bulk_write_single_chunk_headers_for_all_sizes() {
    // Chunk sizes 1..=16: header 0x10 | (n - 1), frame n + 1 bytes.
    for n in 1usize..=16 {
        let data: Vec<u8> = (0..n as u8).collect();
        let resp = vec![0x01u8; n + 1];
        let mut m = enter(vec![vec![], resp]);
        let acks = m.bulk_write(&data).ok().unwrap();
        assert_eq!(acks.len(), n);
        let mut expected = vec![0x02, 0x10 | ((n as u8) - 1)];
        expected.extend(&data);
        assert_eq!(m.port.port.sent(), &expected);
        assert_eq!(expected.len(), 1 + n + 1);
    }
}

#[test]
fn bulk_write_splits_at_sixteen_bytes() {
    let data: Vec<u8> = (0..20).collect();
    let mut m = enter(vec![vec![], vec![0x01; 17], vec![0x01; 5]]);
    let acks = m.bulk_write(&data).ok().unwrap();
    assert_eq!(acks.len(), 20);
    let mut expected = vec![0x02, 0x1f];
    expected.extend(0..16u8);
    expected.push(0x13);
    expected.extend(16..20u8);
    assert_eq!(m.port.port.sent(), &expected);
}

#[test]
fn bulk_write_reports_one_ack_per_data_byte() {
    let mut m = enter(vec![vec![], vec![0x01, 0x01, 0x00, 0x01]]);
    let acks = m.bulk_write(&[0x10, 0x20, 0x30]).ok().unwrap();
    assert_eq!(acks, vec![Ack::Ack, Ack::Nack, Ack::Ack]);
}

#[test]
fn bulk_write_wrong_response_length_fails() {
    let mut m = enter(vec![vec![], vec![0x01, 0x01]]);
    let err = m.bulk_write(&[0x10, 0x20, 0x30]).err().unwrap();
    assert!(matches!(err, Error::BadResponse { .. }));
}

#[test]
fn bulk_write_non_ack_byte_fails() {
    let mut m = enter(vec![vec![], vec![0x01, 0x01, 0x77, 0x01]]);
    let err = m.bulk_write(&[0x10, 0x20, 0x30]).err().unwrap();
    assert!(matches!(err, Error::BadResponse { .. }));
}

#[test]
fn read_byte_returns_the_single_byte() {
    let mut m = enter(vec![vec![], vec![0xab]]);
    let b = m.read_byte().ok().unwrap();
    assert_eq!(b, 0xab);
    assert_eq!(m.port.port.sent(), &vec![0x02, 0x04]);
}

#[test]
fn read_byte_rejects_more_than_one_byte() {
    let mut m = enter(vec![vec![], vec![0xab, 0xcd]]);
    let err = m.read_byte().err().unwrap();
    assert!(matches!(err, Error::BadResponse { command: 0x04, .. }));
}

#[test]
fn write_then_read_sends_lengths_then_payload() {
    let acks = vec![vec![0x01]; 5];
    let mut tail = vec![vec![]];
    tail.extend(acks);
    tail.push(vec![0x01]);
    tail.push(vec![0xaa, 0xbb]);
    let mut m = enter(tail);
    let got = m.write_then_read(&[0x51, 0x52, 0x53], 2).ok().unwrap();
    assert_eq!(got, vec![0xaa, 0xbb]);
    let expected = vec![0x02, 0x08, 0x00, 0x03, 0x00, 0x02, 0x51, 0x52, 0x53];
    assert_eq!(m.port.port.sent(), &expected);
}

#[test]
fn write_then_read_wrong_data_length_fails() {
    let mut tail = vec![vec![]];
    tail.extend(vec![vec![0x01]; 6]);
    tail.push(vec![0xaa]);
    let mut m = enter(tail);
    let err = m.write_then_read(&[0x51], 2).err().unwrap();
    assert!(matches!(err, Error::BadResponse { command: 0x08, .. }));
}

#[test]
fn write_then_read_5000_bytes_splits_into_two_exchanges() {
    // Write length 5000 with read length 0: exactly two underlying
    // exchanges whose payloads, concatenated in order, are the original
    // bytes.
    let data: Vec<u8> = (0..5000u32).map(|i| (i % 251) as u8).collect();
    let mut tail = Vec::new();
    for _ in 0..2 {
        tail.push(vec![]);
        tail.extend(vec![vec![0x01]; 6]);
    }
    let mut m = enter(tail);
    let got = m.write_then_read(&data, 0).ok().unwrap();
    assert_eq!(got, Vec::<u8>::new());
    let mut expected = vec![0x02];
    expected.extend(vec![0x08, 16, 0, 0, 0]);
    expected.extend(&data[..4096]);
    expected.extend(vec![0x08, 3, 136, 0, 0]);
    expected.extend(&data[4096..]);
    assert_eq!(m.port.port.sent(), &expected);
    assert_eq!(m.port.port.script_left(), 0);
}

#[test]
fn write_then_read_splits_an_oversized_read() {
    // Read length 4100: a first exchange drains 4096 bytes, a second with
    // no payload fetches the remainder.
    let first: Vec<u8> = (0..4096u32).map(|i| (i % 199) as u8).collect();
    let second = vec![0x61, 0x62, 0x63, 0x64];
    let mut tail = vec![vec![]];
    tail.extend(vec![vec![0x01]; 6]);
    tail.push(first.clone());
    tail.push(vec![]);
    tail.extend(vec![vec![0x01]; 6]);
    tail.push(second.clone());
    let mut m = enter(tail);
    let got = m.write_then_read(&[0x70, 0x71], 4100).ok().unwrap();
    let mut expected_data = first;
    expected_data.extend(&second);
    assert_eq!(got, expected_data);
    let mut expected_sent = vec![0x02, 0x08, 0x00, 0x02, 0x10, 0x00, 0x70, 0x71];
    expected_sent.extend(vec![0x08, 0x00, 0x00, 0x00, 0x04]);
    assert_eq!(m.port.port.sent(), &expected_sent);
}

#[test]
fn read_eeprom_runs_the_addressed_read_sequence() {
    let mut tail = vec![vec![0x01]];
    tail.push(vec![]);
    tail.push(vec![0x01, 0x01, 0x01]);
    tail.push(vec![0x01]);
    tail.push(vec![]);
    tail.extend(vec![vec![0x01]; 6]);
    tail.push(vec![0xde, 0xad, 0xbe, 0xef]);
    tail.push(vec![0x01]);
    let mut m = enter(tail);
    let got = m.read_eeprom(0x50, 4).ok().unwrap();
    assert_eq!(got, vec![0xde, 0xad, 0xbe, 0xef]);
    let expected = vec![
        0x02, // mode entry
        0x02, // start
        0x11, 0xa0, 0x00, // address with write bit, register pointer
        0x02, // repeated start
        0x08, 0x00, 0x01, 0x00, 0x04, // write-then-read lengths
        0xa1, // address with read bit
        0x03, // stop
    ];
    assert_eq!(m.port.port.sent(), &expected);
}

#[test]
fn eeprom_capability_reads_through_the_trait() {
    let mut tail = vec![vec![0x01]];
    tail.push(vec![]);
    tail.push(vec![0x01, 0x01, 0x01]);
    tail.push(vec![0x01]);
    tail.push(vec![]);
    tail.extend(vec![vec![0x01]; 6]);
    tail.push(vec![0x5a]);
    tail.push(vec![0x01]);
    let mut m = enter(tail);
    let got = Eeprom::read_eeprom(&mut m, 0x50, 1).ok().unwrap();
    assert_eq!(got, vec![0x5a]);
}

#[test]
fn eeprom_capability_write_is_unsupported_on_i2c() {
    let mut m = enter(vec![]);
    let err = Eeprom::write_eeprom(&mut m, 0x50, &[1, 2, 3], 8).err().unwrap();
    assert!(matches!(err, Error::Unsupported));
}

#[test]
fn mode_close_falls_back_to_bitbang() {
    let m = enter(vec![vec![], b"BBIO1".to_vec()]);
    let (bb, res) = m.close();
    assert!(res.is_ok());
    assert_eq!(bb.port.sent(), &vec![0x02, 0x00]);
}

#[test]
fn mode_close_wrong_tag_is_a_handshake_error() {
    let m = enter(vec![vec![], vec![0x12, 0x34]]);
    let (bb, res) = m.close();
    assert!(matches!(res.err().unwrap(), Error::Handshake { .. }));
    assert_eq!(bb.port.sent(), &vec![0x02, 0x00]);
}
