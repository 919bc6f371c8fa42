use hls_lfcd_lds_driver::frame::PACKET_LEN;
use hls_lfcd_lds_driver::session::PAYLOAD_LEN;
use hls_lfcd_lds_driver::{DriverClosed, LFCDLaser, LaserReading, ReadStep, START_BYTE, STOP_BYTE};

/// A byte source in memory, which counts the reads made of it.
struct Source {
    bytes: Vec<u8>,
    at: usize,
    reads: usize,
}

enum Failure {
    Closed,
    Transport,
}

impl Source {
    fn new(bytes: Vec<u8>) -> Self {
        Source { bytes, at: 0, reads: 0 }
    }

    fn read_exact(&mut self, len: usize) -> Result<Vec<u8>, Failure> {
        self.reads += 1;
        if self.at + len > self.bytes.len() {
            return Err(Failure::Transport);
        }
        let out = self.bytes[self.at..self.at + len].to_vec();
        self.at += len;
        Ok(out)
    }
}

/// Reads one frame: performs each transfer that the session asks for.
fn read(laser: &mut LFCDLaser, source: &mut Source) -> Result<LaserReading, Failure> {
    let mut step = match laser.read() {
        Ok(step) => step,
        Err(DriverClosed) => return Err(Failure::Closed),
    };
    loop {
        match step {
            ReadStep::Fetch(len) => {
                let bytes = source.read_exact(len)?;
                step = match laser.receive(&bytes) {
                    Ok(step) => step,
                    Err(DriverClosed) => return Err(Failure::Closed),
                };
            }
            ReadStep::Frame(scan) => return Ok(scan),
        }
    }
}

/// The 2518 bytes behind the markers of a frame whose headers are all
/// valid. Reading `k` has intensity `k` and range `2 * k`; every packet
/// reports the speed word `speed`.
fn payload(speed: u16) -> Vec<u8> {
    let mut frame = vec![0u8; 2520];
    for p in 0..60 {
        let start = PACKET_LEN * p;
        frame[start] = 0xFA;
        frame[start + 1] = 0xA0 + p as u8;
        frame[start + 2] = (speed & 0xFF) as u8;
        frame[start + 3] = (speed >> 8) as u8;
        for g in 0..6 {
            let k = (6 * p + g) as u16;
            let at = start + 4 + 6 * g;
            frame[at] = (k & 0xFF) as u8;
            frame[at + 1] = (k >> 8) as u8;
            frame[at + 2] = ((2 * k) & 0xFF) as u8;
            frame[at + 3] = ((2 * k) >> 8) as u8;
        }
    }
    frame[2..].to_vec()
}

fn check_scan(scan: &LaserReading, speed: u16) {
    for i in 0..360usize {
        let k = (359 - i) as u16;
        assert_eq!(scan.intensities[i], k);
        assert_eq!(scan.ranges[i], 2 * k);
    }
    assert_eq!(scan.rpms, speed / 10);
}

fn laser() -> LFCDLaser {
    LFCDLaser::new(String::from("/dev/ttyUSB0"), 230400)
}

#[test]
fn new_session_is_open_and_knows_nothing() {
    let laser = LFCDLaser::new(String::from("/dev/ttyACM3"), 115200);
    assert_eq!(laser.port(), "/dev/ttyACM3");
    assert_eq!(laser.baud_rate(), 115200);
    assert_eq!(laser.speed(), 0);
    assert_eq!(laser.rpms(), 0);
    assert!(!laser.is_closed());
}

#[test]
fn control_bytes() {
    assert_eq!(START_BYTE, 0x62);
    assert_eq!(START_BYTE, b'b');
    assert_eq!(STOP_BYTE, 0x65);
    assert_eq!(STOP_BYTE, b'e');
    assert_eq!(PAYLOAD_LEN, 2518);
}

#[test]
fn start_hands_out_the_start_byte() {
    let mut laser = laser();
    assert_eq!(laser.start(), Some(0x62));
    assert!(!laser.is_closed());
    assert_eq!(laser.start(), Some(0x62));
}

#[test]
fn close_hands_out_the_stop_byte_once() {
    let mut laser = laser();
    assert_eq!(laser.close(), Some(0x65));
    assert!(laser.is_closed());
    assert_eq!(laser.close(), None);
    assert!(laser.is_closed());
    assert_eq!(laser.close(), None);
}

#[test]
fn start_does_not_reopen() {
    let mut laser = laser();
    laser.close();
    assert_eq!(laser.start(), None);
    assert!(laser.is_closed());
    assert!(matches!(laser.read(), Err(DriverClosed)));
}

#[test]
fn closed_session_fast_fail() {
    let mut laser = laser();
    let mut bytes = vec![0xFA, 0xA0];
    bytes.extend(payload(3000));
    let mut source = Source::new(bytes);
    laser.close();
    assert!(matches!(read(&mut laser, &mut source), Err(Failure::Closed)));
    assert_eq!(source.reads, 0);
    assert_eq!(source.at, 0);
    assert!(matches!(read(&mut laser, &mut source), Err(Failure::Closed)));
    assert!(matches!(read(&mut laser, &mut source), Err(Failure::Closed)));
    assert_eq!(source.reads, 0);
}

#[test]
fn close_after_reads_fails_the_next_read() {
    let mut laser = laser();
    let mut bytes = vec![0xFA, 0xA0];
    bytes.extend(payload(3000));
    bytes.extend([0xFA, 0xA0]);
    bytes.extend(payload(3000));
    let mut source = Source::new(bytes);
    assert!(read(&mut laser, &mut source).is_ok());
    let reads = source.reads;
    assert_eq!(laser.close(), Some(0x65));
    assert!(matches!(read(&mut laser, &mut source), Err(Failure::Closed)));
    assert_eq!(source.reads, reads);
    assert_eq!(source.at, 2520);
    assert_eq!(laser.rpms(), 300);
}

#[test]
fn receive_on_a_closed_session_fails() {
    let mut laser = laser();
    assert!(matches!(laser.read(), Ok(ReadStep::Fetch(1))));
    assert!(matches!(laser.receive(&[0xFA]), Ok(ReadStep::Fetch(1))));
    laser.close();
    assert!(matches!(laser.receive(&[0xA0]), Err(DriverClosed)));
    assert!(matches!(laser.receive(&[0xA0]), Err(DriverClosed)));
    assert!(laser.is_closed());
}

#[test]
fn read_asks_for_one_byte_at_a_time_then_for_the_rest() {
    let mut laser = laser();
    assert!(matches!(laser.read(), Ok(ReadStep::Fetch(1))));
    assert!(matches!(laser.receive(&[0x00]), Ok(ReadStep::Fetch(1))));
    assert!(matches!(laser.receive(&[0xFA]), Ok(ReadStep::Fetch(1))));
    assert!(matches!(laser.receive(&[0x01]), Ok(ReadStep::Fetch(1))));
    assert!(matches!(laser.receive(&[0xA0]), Ok(ReadStep::Fetch(1))));
    assert!(matches!(laser.receive(&[0xFA]), Ok(ReadStep::Fetch(1))));
    assert!(matches!(laser.receive(&[0xA0]), Ok(ReadStep::Fetch(2518))));
    match laser.receive(&payload(1234)) {
        Ok(ReadStep::Frame(scan)) => check_scan(&scan, 1234),
        _ => panic!("the payload completes the frame"),
    }
    assert_eq!(laser.rpms(), 123);
}

#[test]
fn read_of_a_clean_stream() {
    let mut laser = laser();
    let mut bytes = vec![0xFA, 0xA0];
    bytes.extend(payload(3000));
    let mut source = Source::new(bytes);
    match read(&mut laser, &mut source) {
        Ok(scan) => check_scan(&scan, 3000),
        Err(_) => panic!("a whole frame is there"),
    }
    assert_eq!(source.reads, 3);
    assert_eq!(source.at, 2520);
    assert_eq!(laser.rpms(), 300);
}

#[test]
fn read_skips_leading_noise() {
    let mut laser = laser();
    let noise = [0x11u8, 0xA0, 0xFA, 0x00, 0x42];
    let mut bytes = noise.to_vec();
    bytes.extend([0xFA, 0xA0]);
    bytes.extend(payload(2505));
    bytes.extend([0x99, 0x98]);
    let mut source = Source::new(bytes);
    match read(&mut laser, &mut source) {
        Ok(scan) => check_scan(&scan, 2505),
        Err(_) => panic!("a whole frame is there"),
    }
    assert_eq!(source.at, noise.len() + 2520);
    assert_eq!(source.reads, noise.len() + 3);
    assert_eq!(laser.rpms(), 250);
}

#[test]
fn read_recovers_from_a_false_marker() {
    let mut laser = laser();
    let mut bytes = vec![0xFA, 0x33, 0xFA, 0xA0];
    bytes.extend(payload(100));
    let mut source = Source::new(bytes);
    match read(&mut laser, &mut source) {
        Ok(scan) => check_scan(&scan, 100),
        Err(_) => panic!("a whole frame is there"),
    }
    assert_eq!(source.at, 2522);
    assert_eq!(laser.rpms(), 10);
}

#[test]
fn reads_take_one_frame_each_in_order() {
    let mut laser = laser();
    let mut bytes = vec![0x00, 0xFA, 0xA0];
    bytes.extend(payload(1000));
    bytes.extend([0xFA, 0xA0]);
    bytes.extend(payload(2000));
    let mut source = Source::new(bytes);
    match read(&mut laser, &mut source) {
        Ok(scan) => check_scan(&scan, 1000),
        Err(_) => panic!("the first frame is there"),
    }
    assert_eq!(source.at, 2521);
    assert_eq!(laser.rpms(), 100);
    match read(&mut laser, &mut source) {
        Ok(scan) => check_scan(&scan, 2000),
        Err(_) => panic!("the second frame is there"),
    }
    assert_eq!(source.at, 5041);
    assert_eq!(laser.rpms(), 200);
}

#[test]
fn corrupt_packet_in_a_read_leaves_its_degrees_at_zero() {
    let mut laser = laser();
    let mut rest = payload(3000);
    rest[PACKET_LEN * 5 + 1 - 2] = 0x00;
    let mut bytes = vec![0xFA, 0xA0];
    bytes.extend(rest);
    let mut source = Source::new(bytes);
    let scan = match read(&mut laser, &mut source) {
        Ok(scan) => scan,
        Err(_) => panic!("a bad header does not fail the read"),
    };
    for i in 0..360usize {
        let k = 359 - i;
        if (30..36).contains(&k) {
            assert_eq!(scan.ranges[i], 0);
            assert_eq!(scan.intensities[i], 0);
        } else {
            assert_eq!(scan.intensities[i], k as u16);
            assert_eq!(scan.ranges[i], 2 * k as u16);
        }
    }
    assert_eq!(scan.rpms, 300);
}

#[test]
fn frame_of_a_read_always_has_its_first_packet() {
    let mut laser = laser();
    let mut rest = vec![0u8; 2518];
    rest[0] = 0x64;
    rest[4] = 0x0A;
    rest[5] = 0x0B;
    let mut bytes = vec![0xFA, 0xA0];
    bytes.extend(rest);
    let mut source = Source::new(bytes);
    let scan = match read(&mut laser, &mut source) {
        Ok(scan) => scan,
        Err(_) => panic!("a whole frame is there"),
    };
    assert_eq!(scan.rpms, 10);
    assert_eq!(laser.rpms(), 10);
    assert_eq!(scan.ranges[359], 0x0B0A);
    assert_eq!(scan.intensities[359], 0);
    assert!(scan.ranges[..354].iter().all(|r| *r == 0));
}

#[test]
fn transport_failure_aborts_the_frame() {
    let mut laser = laser();
    let mut source = Source::new(vec![0x00, 0xFA]);
    assert!(matches!(read(&mut laser, &mut source), Err(Failure::Transport)));
    assert_eq!(laser.rpms(), 0);
    let mut bytes = vec![0xA0, 0xFA, 0xA0];
    bytes.extend(payload(500));
    let mut source = Source::new(bytes);
    match read(&mut laser, &mut source) {
        Ok(scan) => check_scan(&scan, 500),
        Err(_) => panic!("a whole frame is there"),
    }
    assert_eq!(source.at, 2521);
}

#[test]
fn truncated_payload_gives_no_reading() {
    let mut laser = laser();
    let mut bytes = vec![0xFA, 0xA0];
    bytes.extend(vec![0u8; 100]);
    let mut source = Source::new(bytes);
    assert!(matches!(read(&mut laser, &mut source), Err(Failure::Transport)));
    assert_eq!(laser.rpms(), 0);
    assert!(!laser.is_closed());
}

#[test]
fn getters_do_not_change_the_session() {
    let mut laser = laser();
    let mut bytes = vec![0xFA, 0xA0];
    bytes.extend(payload(777));
    let mut source = Source::new(bytes);
    assert!(read(&mut laser, &mut source).is_ok());
    for _ in 0..3 {
        assert_eq!(laser.rpms(), 77);
        assert_eq!(laser.speed(), 0);
        assert_eq!(laser.port(), "/dev/ttyUSB0");
        assert_eq!(laser.baud_rate(), 230400);
        assert!(!laser.is_closed());
    }
}
