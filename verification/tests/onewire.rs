use buspirate::bitbang::BitBangMode;
use buspirate::bitbang::Error;
use buspirate::bitbang::Mode;
use buspirate::onewire::do_ds2431;
use buspirate::onewire::OneWire;
use buspirate::transport::SimTransport;

fn enter(script_tail: Vec<Vec<u8>>) -> Mode<SimTransport, OneWire> {
    let mut script = vec![b"1W01".to_vec(), vec![0x01], vec![0x01]];
    script.extend(script_tail);
    let sim = SimTransport::new(script);
    let bb = BitBangMode { port: sim };
    Mode::<SimTransport, OneWire>::onewire(bb).ok().unwrap()
}

fn select_groups() -> Vec<Vec<u8>> {
    // Selecting an 8-byte ROM sends a 9-byte frame in chunks of 4, 4, 1.
    vec![vec![], vec![0x01; 5], vec![0x01; 5], vec![0x01; 2]]
}

#[test]
fn onewire_entry_selects_powers_and_resets() {
    let m = enter(vec![]);
    assert_eq!(m.port.port.sent(), &vec![0x04, 0x48, 0x02]);
}

#[test]
fn onewire_entry_wrong_tag_is_a_handshake_error() {
    let sim = SimTransport::new(vec![b"I2C1".to_vec()]);
    let bb = BitBangMode { port: sim };
    let (bb, err) = Mode::<SimTransport, OneWire>::onewire(bb).err().unwrap();
    assert!(matches!(err, Error::Handshake { .. }));
    assert_eq!(bb.port.sent(), &vec![0x04]);
}

#[test]
fn onewire_entry_power_failure_is_fatal() {
    let sim = SimTransport::new(vec![b"1W01".to_vec(), vec![0x00]]);
    let bb = BitBangMode { port: sim };
    let (_, err) = Mode::<SimTransport, OneWire>::onewire(bb).err().unwrap();
    assert!(matches!(err, Error::BadResponse { command: 0x48, .. }));
}

#[test]
fn onewire_entry_reset_failure_hands_the_handle_back() {
    let sim = SimTransport::new(vec![b"1W01".to_vec(), vec![0x01], vec![0x42, 0x42]]);
    let bb = BitBangMode { port: sim };
    let (bb, err) = Mode::<SimTransport, OneWire>::onewire(bb).err().unwrap();
    assert!(matches!(err, Error::BadResponse { command: 0x02, .. }));
    assert_eq!(bb.port.sent(), &vec![0x04, 0x48, 0x02]);
}

#[test]
fn reset_requires_a_single_acknowledgement() {
    let mut m = enter(vec![vec![0x01]]);
    m.reset().ok().unwrap();
    assert_eq!(m.port.port.sent(), &vec![0x04, 0x48, 0x02, 0x02]);
}

#[test]
fn reset_failure_reports_the_bytes() {
    let mut m = enter(vec![vec![0x07]]);
    let err = m.reset().err().unwrap();
    assert!(matches!(err, Error::BadResponse { command: 0x02, got } if got == vec![0x07]));
}

#[test]
fn find_devices_returns_groups_before_the_sentinel() {
    // Two device groups, then the all-0xff sentinel.
    let dev1 = vec![0x28, 1, 2, 3, 4, 5, 6, 7];
    let dev2 = vec![0x28, 9, 8, 7, 6, 5, 4, 3];
    let m_tail = vec![vec![0x01], dev1.clone(), dev2.clone(), vec![0xff; 8]];
    let mut m = enter(m_tail);
    let devs = m.find_devices().ok().unwrap();
    assert_eq!(devs, vec![dev1, dev2]);
    assert_eq!(m.port.port.sent(), &vec![0x04, 0x48, 0x02, 0x08]);
}

#[test]
fn find_devices_sentinel_first_returns_nothing() {
    let mut m = enter(vec![vec![0x01], vec![0xff; 8]]);
    let devs = m.find_devices().ok().unwrap();
    assert_eq!(devs, Vec::<Vec<u8>>::new());
}

#[test]
fn find_devices_short_group_ends_the_search() {
    let dev1 = vec![0x28, 1, 2, 3, 4, 5, 6, 7];
    let mut m = enter(vec![vec![0x01], dev1.clone(), vec![0x28, 1, 2]]);
    let devs = m.find_devices().ok().unwrap();
    assert_eq!(devs, vec![dev1]);
}

#[test]
fn find_devices_bad_acknowledgement_fails() {
    let mut m = enter(vec![vec![0x00]]);
    let err = m.find_devices().err().unwrap();
    assert!(matches!(err, Error::BadResponse { command: 0x08, .. }));
}

#[test]
fn raw_write_single_chunk_headers_for_all_sizes() {
    // Chunk sizes 1..=4: header 0x10 | (n - 1), frame n + 1 bytes.
    for n in 1usize..=4 {
        let data: Vec<u8> = (0..n as u8).collect();
        let mut m = enter(vec![vec![], vec![0x01; n + 1]]);
        m.raw_write(&data).ok().unwrap();
        let mut expected = vec![0x04, 0x48, 0x02, 0x10 | ((n as u8) - 1)];
        expected.extend(&data);
        assert_eq!(m.port.port.sent(), &expected);
    }
}

#[test]
fn raw_write_splits_at_four_bytes() {
    let data = vec![10, 20, 30, 40, 50, 60];
    let mut m = enter(vec![vec![], vec![0x01; 5], vec![0x01; 3]]);
    m.raw_write(&data).ok().unwrap();
    let expected = vec![0x04, 0x48, 0x02, 0x13, 10, 20, 30, 40, 0x11, 50, 60];
    assert_eq!(m.port.port.sent(), &expected);
}

#[test]
fn raw_write_rejects_a_zero_in_the_response() {
    let mut m = enter(vec![vec![], vec![0x01, 0x00, 0x01]]);
    let err = m.raw_write(&[1, 2]).err().unwrap();
    assert!(matches!(err, Error::BadResponse { .. }));
}

#[test]
fn bulk_read_accumulates_one_byte_per_command() {
    let mut m = enter(vec![vec![0x11], vec![0x22], vec![0x33]]);
    let got = m.bulk_read(3).ok().unwrap();
    assert_eq!(got, vec![0x11, 0x22, 0x33]);
    assert_eq!(m.port.port.sent(), &vec![0x04, 0x48, 0x02, 0x04, 0x04, 0x04]);
}

#[test]
fn bulk_read_rejects_a_two_byte_group() {
    let mut m = enter(vec![vec![0x11, 0x22]]);
    let err = m.bulk_read(1).err().unwrap();
    assert!(matches!(err, Error::BadResponse { command: 0x04, .. }));
}

#[test]
fn select_sends_the_match_rom_frame() {
    let dev = [0xa0, 0xa1, 0xa2, 0xa3, 0xa4, 0xa5, 0xa6, 0xa7];
    let mut m = enter(select_groups());
    m.select(&dev).ok().unwrap();
    let expected = vec![
        0x04, 0x48, 0x02, // mode entry
        0x13, 0x55, 0xa0, 0xa1, 0xa2, // first chunk
        0x13, 0xa3, 0xa4, 0xa5, 0xa6, // second chunk
        0x10, 0xa7, // last chunk
    ];
    assert_eq!(m.port.port.sent(), &expected);
}

fn one_page_script(data: &[u8], access: &[u8], echo: &[u8]) -> Vec<Vec<u8>> {
    // The responses one page of the scratchpad/verify/copy write consumes,
    // for a page of at most 4 bytes (so the write-scratchpad frame fits in
    // two chunks).
    let mut s = Vec::new();
    s.extend(select_groups());
    s.push(vec![]);
    s.push(vec![0x01; 5]);
    s.push(vec![0x01; data.len() - 3]);
    s.push(vec![0x01]);
    s.extend(select_groups());
    s.push(vec![]);
    s.push(vec![0x01; 2]);
    for b in access {
        s.push(vec![*b]);
    }
    for b in echo {
        s.push(vec![*b]);
    }
    s.push(vec![0x01]);
    s.extend(select_groups());
    s.push(vec![]);
    s.push(vec![0x01; 5]);
    s.push(vec![0x01]);
    s
}

#[test]
fn write_eeprom_stages_verifies_and_copies_one_page() {
    let dev = [0xa0, 0xa1, 0xa2, 0xa3, 0xa4, 0xa5, 0xa6, 0xa7];
    let data = [0xd0, 0xd1];
    let access = [0x02, 0x00, 0x5f];
    let wmsg = [0x0f, 0x00, 0x00, 0xd0, 0xd1];
    let script = one_page_script(&wmsg, &access, &data);
    let mut m = enter(script);
    m.write_eeprom(&dev, &data).ok().unwrap();
    let sel = vec![
        0x13, 0x55, 0xa0, 0xa1, 0xa2, 0x13, 0xa3, 0xa4, 0xa5, 0xa6, 0x10, 0xa7,
    ];
    let mut expected = vec![0x04, 0x48, 0x02];
    expected.extend(&sel);
    expected.extend(vec![0x13, 0x0f, 0x00, 0x00, 0xd0, 0x10, 0xd1]);
    expected.push(0x02);
    expected.extend(&sel);
    expected.extend(vec![0x10, 0xaa]);
    expected.extend(vec![0x04, 0x04, 0x04]);
    expected.extend(vec![0x04, 0x04]);
    expected.push(0x02);
    expected.extend(&sel);
    expected.extend(vec![0x13, 0x55, 0x02, 0x00, 0x5f]);
    expected.push(0x02);
    assert_eq!(m.port.port.sent(), &expected);
    assert_eq!(m.port.port.script_left(), 0);
}

fn frames_of(msg: &[u8]) -> Vec<u8> {
    // Independent framing: chunks of at most 4, each with 0x10 | (n - 1).
    let mut out = Vec::new();
    for chunk in msg.chunks(4) {
        out.push(0x10 | ((chunk.len() as u8) - 1));
        out.extend(chunk);
    }
    out
}

fn frame_groups(msg_len: usize) -> Vec<Vec<u8>> {
    // The responses a chunked write of msg_len bytes consumes, after its
    // drain: one group of n + 1 acknowledgement bytes per chunk of n.
    let mut out = vec![vec![]];
    let mut left = msg_len;
    while left > 0 {
        let n = left.min(4);
        out.push(vec![0x01; n + 1]);
        left -= n;
    }
    out
}

#[test]
fn write_eeprom_advances_the_address_across_pages() {
    let dev = [0xa0, 0xa1, 0xa2, 0xa3, 0xa4, 0xa5, 0xa6, 0xa7];
    let data: Vec<u8> = (0x30..0x3a).collect(); // ten bytes: pages of 8 and 2
    let access1 = [0x07, 0x00, 0x1f];
    let access2 = [0x09, 0x00, 0x1f];
    let mut script = Vec::new();
    let mut expected = vec![0x04, 0x48, 0x02];
    let mut sel = vec![0x55];
    sel.extend(&dev);
    let pages: [(usize, usize, &[u8]); 2] = [(0, 8, &access1), (8, 10, &access2)];
    for (start, end, access) in pages {
        let chunk = &data[start..end];
        let mut wmsg = vec![0x0f, start as u8, 0x00];
        wmsg.extend(chunk);
        // script: select, write scratchpad, reset, select, read scratchpad,
        // access code, echo, reset, select, copy, reset
        script.extend(frame_groups(sel.len()));
        script.extend(frame_groups(wmsg.len()));
        script.push(vec![0x01]);
        script.extend(frame_groups(sel.len()));
        script.extend(frame_groups(1));
        for b in access {
            script.push(vec![*b]);
        }
        for b in chunk {
            script.push(vec![*b]);
        }
        script.push(vec![0x01]);
        script.extend(frame_groups(sel.len()));
        script.extend(frame_groups(4));
        script.push(vec![0x01]);
        // expected bytes out, page by page
        expected.extend(frames_of(&sel));
        expected.extend(frames_of(&wmsg));
        expected.push(0x02);
        expected.extend(frames_of(&sel));
        expected.extend(frames_of(&[0xaa]));
        expected.extend(vec![0x04; 3 + chunk.len()]);
        expected.push(0x02);
        expected.extend(frames_of(&sel));
        let mut copy = vec![0x55];
        copy.extend(access);
        expected.extend(frames_of(&copy));
        expected.push(0x02);
    }
    let mut m = enter(script);
    m.write_eeprom(&dev, &data).ok().unwrap();
    assert_eq!(m.port.port.sent(), &expected);
    assert_eq!(m.port.port.script_left(), 0);
}

#[test]
fn write_eeprom_scratchpad_mismatch_is_a_verify_error() {
    let dev = [0xa0, 0xa1, 0xa2, 0xa3, 0xa4, 0xa5, 0xa6, 0xa7];
    let data = [0xd0, 0xd1];
    let access = [0x02, 0x00, 0x5f];
    let wmsg = [0x0f, 0x00, 0x00, 0xd0, 0xd1];
    let bad_echo = [0xd0, 0xff];
    let script = one_page_script(&wmsg, &access, &bad_echo);
    let mut m = enter(script);
    let err = m.write_eeprom(&dev, &data).err().unwrap();
    match err {
        Error::VerifyMismatch { expected, got } => {
            assert_eq!(expected, vec![0xd0, 0xd1]);
            assert_eq!(got, vec![0xd0, 0xff]);
        },
        _ => panic!("wrong error variant"),
    }
}

#[test]
fn eeprom_round_trip_returns_what_was_written() {
    // A simulated device that echoes writes: the scratchpad echo and the
    // later read-back both return the bytes written.
    let dev = [0xa0, 0xa1, 0xa2, 0xa3, 0xa4, 0xa5, 0xa6, 0xa7];
    let data = [0xd0, 0xd1, 0xd2, 0xd3];
    let access = [0x04, 0x00, 0x1f];
    let wmsg = [0x0f, 0x00, 0x00, 0xd0, 0xd1, 0xd2, 0xd3];
    let mut script = one_page_script(&wmsg, &access, &data);
    // read_eeprom: select, one group per byte, reset.
    script.extend(select_groups());
    for b in &data {
        script.push(vec![*b]);
    }
    script.push(vec![0x01]);
    let mut m = enter(script);
    m.write_eeprom(&dev, &data).ok().unwrap();
    let got = m.read_eeprom(&dev, data.len()).ok().unwrap();
    assert_eq!(got, data.to_vec());
}

#[test]
fn session_tears_down_once_when_an_operation_fails() {
    // The search acknowledgement is wrong, so the session fails inside the
    // protocol handle's scope; teardown still runs, exactly once.
    let script = vec![
        b"1W01".to_vec(),
        vec![0x01],
        vec![0x01],
        vec![0x00], // bad search acknowledgement
        vec![],     // teardown drain
        b"BBIO1".to_vec(),
    ];
    let sim = SimTransport::new(script);
    let bb = BitBangMode { port: sim };
    let (bb, res) = do_ds2431(bb, &[0x01, 0x02]);
    assert!(matches!(res.err().unwrap(), Error::BadResponse { command: 0x08, .. }));
    let sent = bb.port.sent();
    assert_eq!(sent, &vec![0x04, 0x48, 0x02, 0x08, 0x00]);
    let zeros = sent.iter().filter(|b| **b == 0x00).count();
    assert_eq!(zeros, 1);
}

#[test]
fn session_with_no_devices_tears_down_once() {
    let script = vec![
        b"1W01".to_vec(),
        vec![0x01],
        vec![0x01],
        vec![0x01],     // search acknowledged
        vec![0xff; 8],  // sentinel first: no devices
        vec![],         // teardown drain
        b"BBIO1".to_vec(),
    ];
    let sim = SimTransport::new(script);
    let bb = BitBangMode { port: sim };
    let (bb, res) = do_ds2431(bb, &[0x01, 0x02]);
    assert!(matches!(res.err().unwrap(), Error::NoDevice));
    let sent = bb.port.sent();
    let zeros = sent.iter().filter(|b| **b == 0x00).count();
    assert_eq!(zeros, 1);
}
