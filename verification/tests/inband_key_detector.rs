use intermix::client::modal::inband_key_detector::InbandKeyDetector;

#[test]
fn inband_key_detector_it_can_read_and_write() {
    let mut io = InbandKeyDetector::new('b');
    io.write("hi there".as_bytes()).unwrap();

    let mut output: Vec<u8> = vec![];
    io.read_to_end(&mut output).unwrap();
    assert_eq!(output.as_slice(), "hi there".as_bytes());
}

#[test]
fn inband_key_detector_it_can_do_partial_reads() {
    let mut io = InbandKeyDetector::new('b');
    io.write("hi there".as_bytes()).unwrap();

    let mut buf = [0u8; 2];
    io.read(&mut buf).unwrap();
    assert_eq!(&buf, b"hi");

    io.read(&mut buf).unwrap();
    assert_eq!(&buf, b" t");

    io.read(&mut buf).unwrap();
    assert_eq!(&buf, b"he");

    io.read(&mut buf).unwrap();
    assert_eq!(&buf, b"re");
}

#[test]
fn inband_key_detector_key_found_returns_false_when_key_not_found() {
    let mut io = InbandKeyDetector::new('b');
    io.write("hi there".as_bytes()).unwrap();
    assert!(!io.key_found());
}

#[test]
fn key_found_returns_true_when_key_found() {
    let mut io = InbandKeyDetector::new('b');
    io.write("hi b there".as_bytes()).unwrap();
    assert!(io.key_found());
}

#[test]
fn inband_key_detector_key_found_returns_false_when_key_escaped() {
    let mut io = InbandKeyDetector::new('b');
    io.write("hi bb there".as_bytes()).unwrap();
    assert!(!io.key_found());
}

#[test]
fn inband_key_detector_key_found_returns_false_when_key_escaped_across_writes() {
    let mut io = InbandKeyDetector::new('b');
    io.write("hi b".as_bytes()).unwrap();
    io.write("b there".as_bytes()).unwrap();
    assert!(!io.key_found());
}

#[test]
fn inband_key_detector_read_only_returns_bytes_before_key_found() {
}

#[test]
fn bytes_after_key_found_can_be_read() {
}

#[test]
fn inband_key_detector_write_takes_every_byte() {
    let mut io = InbandKeyDetector::new('b');
    assert_eq!(io.write("hi b there".as_bytes()).unwrap(), 10);
    let mut output: Vec<u8> = vec![];
    assert_eq!(io.read_to_end(&mut output).unwrap(), 10);
    assert_eq!(output.as_slice(), "hi b there".as_bytes());
}

#[test]
fn inband_key_detector_key_at_end_is_not_yet_found() {
    let mut io = InbandKeyDetector::new('b');
    io.write("hi b".as_bytes()).unwrap();
    assert!(!io.key_found());
    io.write("x".as_bytes()).unwrap();
    assert!(io.key_found());
}

#[test]
fn inband_key_detector_reading_an_empty_buffer_gives_nothing() {
    let mut io = InbandKeyDetector::new('b');
    let mut buf = [7u8; 3];
    assert_eq!(io.read(&mut buf).unwrap(), 0);
    assert_eq!(&buf, &[7u8, 7, 7]);
    io.flush().unwrap();
}
