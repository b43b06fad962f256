use intermix::client::modal::input_handler::InputHandler;

const B_KEY: u8 = 98;

#[test]
fn input_handler_it_can_read_and_write() {
    let mut io = InputHandler::new(B_KEY);
    io.write("hi there".as_bytes()).unwrap();

    let mut output: Vec<u8> = vec![];
    io.read_to_end(&mut output).unwrap();
    assert_eq!(output.as_slice(), "hi there".as_bytes());
}

#[test]
fn input_handler_it_can_do_partial_reads() {
    let mut io = InputHandler::new(B_KEY);
    io.write("hi there".as_bytes()).unwrap();

    let mut buf = [0u8; 2];
    io.read(&mut buf).unwrap();
    assert_eq!(&buf, b"hi");

    io.read(&mut buf).unwrap();
    assert_eq!(&buf, b" t");

    io.read(&mut buf).unwrap();
    assert_eq!(&buf, b"he");

    io.read(&mut buf).unwrap();
    assert_eq!(&buf, b"re");
}

#[test]
fn input_handler_key_found_returns_false_when_key_not_found() {
    let mut io = InputHandler::new(B_KEY);
    io.write("hi there".as_bytes()).unwrap();
    assert!(!io.key_found());
}

#[test]
fn key_found_returns_true_when_key_pressed() {
    let mut io = InputHandler::new(B_KEY);
    io.write("hi b there".as_bytes()).unwrap();
    assert!(io.key_found());
}

#[test]
fn key_found_returns_true_when_key_pressed_among_reads() {
    let mut io = InputHandler::new(B_KEY);
    let mut out = vec![];

    io.write("h".as_bytes()).unwrap();
    io.read_to_end(&mut out).unwrap();
    io.write("b".as_bytes()).unwrap();
    io.read_to_end(&mut out).unwrap();
    io.write("h".as_bytes()).unwrap();

    assert!(io.key_found());
}

#[test]
fn input_handler_key_found_returns_false_when_key_escaped() {
    let mut io = InputHandler::new(B_KEY);
    io.write("hi bb there".as_bytes()).unwrap();
    assert!(!io.key_found());
}

#[test]
fn key_found_returns_false_when_key_escaped_among_reads() {
    let mut io = InputHandler::new(B_KEY);
    let mut out = vec![];

    io.write("h".as_bytes()).unwrap();
    io.read_to_end(&mut out).unwrap();
    io.write("b".as_bytes()).unwrap();
    io.read_to_end(&mut out).unwrap();
    io.write("b".as_bytes()).unwrap();
    io.read_to_end(&mut out).unwrap();
    io.write("h".as_bytes()).unwrap();

    assert!(!io.key_found());
}

#[test]
fn input_handler_key_found_returns_false_when_key_escaped_across_writes() {
    let mut io = InputHandler::new(B_KEY);
    io.write("hi b".as_bytes()).unwrap();
    io.write("b there".as_bytes()).unwrap();
    assert!(!io.key_found());
}

#[test]
fn key_found_returns_false_when_key_at_end() {
    let mut io = InputHandler::new(B_KEY);
    io.write("hi b".as_bytes()).unwrap();
    assert!(!io.key_found());
}

#[test]
fn input_handler_read_only_returns_bytes_before_key_found() {
    let mut io = InputHandler::new(B_KEY);
    io.write("hi b there".as_bytes()).unwrap();
    let mut buf = [0u8; 4];
    io.read(&mut buf).unwrap();
    assert_eq!(&buf, b"hi \0");
}

#[test]
fn write_stops_when_key_found() {
    let mut io = InputHandler::new(B_KEY);
    let res = io.write("hi b there".as_bytes());
    assert_eq!(res.unwrap(), 4);
}

#[test]
fn input_handler_escaped_key_passes_through() {
    let mut io = InputHandler::new(B_KEY);
    assert_eq!(io.write("abba".as_bytes()).unwrap(), 4);
    let mut out = vec![];
    io.read_to_end(&mut out).unwrap();
    assert_eq!(out.as_slice(), b"abba");
    assert!(!io.key_found());
    io.flush().unwrap();
}
