use buspirate::bitbang::enter_bitbang_mode;
use buspirate::bitbang::poweron;
use buspirate::bitbang::BitBangMode;
use buspirate::bitbang::Error;
use buspirate::transport::SimTransport;

fn bbio() -> Vec<u8> {
    b"BBIO1".to_vec()
}

#[test]
fn enter_bitbang_first_try() {
    // The empty group ends the initial drain; the first probe then sees
    // the tag.
    let sim = SimTransport::new(vec![vec![], bbio()]);
    let bb = enter_bitbang_mode(sim).ok().unwrap();
    assert_eq!(bb.port.sent(), &vec![0x00]);
    assert_eq!(bb.port.script_left(), 0);
}

#[test]
fn enter_bitbang_after_garbage_responses() {
    // An empty group ends the initial drain; then two probes miss and the
    // third sees the tag.
    let sim = SimTransport::new(vec![vec![], vec![1, 2, 3], vec![], bbio()]);
    let bb = enter_bitbang_mode(sim).ok().unwrap();
    assert_eq!(bb.port.sent(), &vec![0x00, 0x00, 0x00]);
}

#[test]
fn enter_bitbang_fails_after_exactly_25_attempts() {
    // The transport never emits the tag: every probe reads nothing.
    let sim = SimTransport::new(vec![]);
    let (sim, err) = enter_bitbang_mode(sim).err().unwrap();
    assert!(matches!(err, Error::RetriesExhausted));
    assert_eq!(sim.sent(), &vec![0x00; 25]);
}

#[test]
fn enter_bitbang_consumes_one_group_per_attempt() {
    // Thirty garbage groups on offer: exactly twenty-five are consumed.
    let mut script = vec![vec![]];
    for _ in 0..30 {
        script.push(vec![0x42]);
    }
    let sim = SimTransport::new(script);
    let (sim, err) = enter_bitbang_mode(sim).err().unwrap();
    assert!(matches!(err, Error::RetriesExhausted));
    assert_eq!(sim.sent(), &vec![0x00; 25]);
    assert_eq!(sim.script_left(), 5);
}

#[test]
fn enter_bitbang_tag_on_the_25th_attempt_succeeds() {
    let mut script = vec![vec![]];
    for _ in 0..24 {
        script.push(vec![0x42]);
    }
    script.push(bbio());
    let sim = SimTransport::new(script);
    let bb = enter_bitbang_mode(sim).ok().unwrap();
    assert_eq!(bb.port.sent(), &vec![0x00; 25]);
    assert_eq!(bb.port.script_left(), 0);
}

#[test]
fn enter_bitbang_tag_on_the_26th_attempt_is_too_late() {
    let mut script = vec![vec![]];
    for _ in 0..25 {
        script.push(vec![0x42]);
    }
    script.push(bbio());
    let sim = SimTransport::new(script);
    let (sim, err) = enter_bitbang_mode(sim).err().unwrap();
    assert!(matches!(err, Error::RetriesExhausted));
    assert_eq!(sim.sent(), &vec![0x00; 25]);
    assert_eq!(sim.script_left(), 1);
}

#[test]
fn flush_buffer_discards_groups_until_a_silent_read() {
    let mut sim = SimTransport::new(vec![vec![1, 2], vec![3], vec![], vec![4]]);
    buspirate::bitbang::flush_buffer(&mut sim).ok().unwrap();
    assert_eq!(sim.script_left(), 1);
    assert_eq!(sim.sent(), &Vec::<u8>::new());
}

#[test]
fn poweron_returns_first_status_byte() {
    let mut sim = SimTransport::new(vec![vec![], vec![0x99, 0x01]]);
    let b = poweron(&mut sim).ok().unwrap();
    assert_eq!(b, 0x99);
    assert_eq!(sim.sent(), &vec![0xc0]);
}

#[test]
fn poweron_empty_response_is_an_error() {
    let mut sim = SimTransport::new(vec![]);
    let err = poweron(&mut sim).err().unwrap();
    assert!(matches!(err, Error::BadResponse { command: 0xc0, .. }));
}

#[test]
fn bitbang_close_sends_full_reset() {
    let sim = SimTransport::new(vec![vec![], vec![0x01]]);
    let bb = BitBangMode { port: sim };
    let (sim, res) = bb.close();
    assert!(res.is_ok());
    assert_eq!(sim.sent(), &vec![0x0f]);
    assert_eq!(sim.script_left(), 0);
}

#[test]
fn bitbang_close_reports_bad_acknowledgement() {
    let sim = SimTransport::new(vec![vec![], vec![0x55]]);
    let bb = BitBangMode { port: sim };
    let (sim, res) = bb.close();
    let err = res.err().unwrap();
    assert!(matches!(err, Error::BadResponse { command: 0x0f, .. }));
    // The transport is handed back even on failure.
    assert_eq!(sim.sent(), &vec![0x0f]);
}
