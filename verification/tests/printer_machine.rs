use motherboard::network::Network;
use motherboard::printer::gcode::mcommands::ProgressNote;
use motherboard::printer::gcode::{
    splits_cleanly, tokenize, ConfigNote, Line, ParseFieldError, ParseGcodeError, Tokens,
};
use motherboard::printer::serial::{frame, ReadStep, Receiver};
use motherboard::printer::{
    split_lines, Encoder, HomeAction, LoadNote, LogLevel, PrintStatus, Printer, Reaction, State,
};

fn number_of(text: &[char]) -> Result<u32, ParseFieldError> {
    text.iter()
        .collect::<String>()
        .parse::<f32>()
        .map(|v| v.to_bits())
        .map_err(|_| ParseFieldError)
}

fn read_program(code: &str) -> Vec<Result<Line, ParseGcodeError>> {
    split_lines(code)
        .iter()
        .map(|line| {
            assert!(splits_cleanly(line));
            let tokens = tokenize(line);
            let numbers: Vec<Result<u32, ParseFieldError>> = match &tokens {
                Tokens::Blank => Vec::new(),
                Tokens::Code { fields, .. } => fields.iter().map(|t| number_of(&t.text)).collect(),
            };
            Line::from_tokens(tokens, &numbers)
        })
        .collect()
}

fn framed(data: &[u8]) -> Vec<u8> {
    let mut v = vec![data.len() as u8];
    v.extend_from_slice(data);
    v
}

const PROGRAM: &str = "G28\r\nM73 P0 R10\nG1 X1\nG1 F100\nM73 P50 R5\nG1 Y2\nM999\nG4 P10\nG1 Z3\nG1 X4\nG1 X5\nM73 P100 R0\n";

#[test]
fn split_lines_strips_carriage_returns() {
    let lines = split_lines("G1\r\n\nG2\r\r\nG3");
    let expected: Vec<Vec<char>> = vec![
        "G1".chars().collect(),
        Vec::new(),
        "G2\r".chars().collect(),
        "G3".chars().collect(),
    ];
    assert_eq!(lines, expected);
    assert_eq!(split_lines("").len(), 1);
}

#[test]
fn load_builds_batches_and_notes() {
    let mut p = Printer::new();
    let notes = p.load_gcode(&read_program(PROGRAM));
    // G28, G1 X1, G1 Y2, G4, G1 Z3, G1 X4, G1 X5, and the closing pause for the last M73
    assert_eq!(p.command_count(), 8);
    assert_eq!(
        notes,
        vec![
            LoadNote::Config(ConfigNote::Progress(0)),
            LoadNote::Unhandled(6),
            LoadNote::Config(ConfigNote::Progress(100)),
        ]
    );
    assert_eq!(*p.get_state_ref(), State::Idle);
}

#[test]
fn print_sends_every_command_once_in_order() {
    let mut p = Printer::new();
    p.load_gcode(&read_program(PROGRAM));
    let all: Vec<Vec<u8>> = vec![
        vec![b'H', 7],
        vec![b'X', 63, 0],
        vec![b'Y', 66, 0],
        vec![b'P', 10, 0, 0, 0],
        vec![b'Z', 69, 0],
        vec![b'X', 72, 0],
        vec![b'X', 75, 0],
        vec![b'P', 0, 0, 0, 0],
    ];
    let mut sent = p.print().expect("print starts");
    let mut expected_first = Vec::new();
    for d in &all[..5] {
        expected_first.extend(framed(d));
    }
    assert_eq!(sent, expected_first);
    match *p.get_state_ref() {
        State::Printing(st) => assert_eq!((st.sent, st.completed), (5, 0)),
        _ => panic!("printing expected"),
    }
    let mut reports = Vec::new();
    for k in 0..all.len() {
        match p.handle_data(&[b'_']) {
            Reaction::Progress(bytes, notes) => {
                sent.extend(bytes);
                reports.extend(notes);
            }
            _ => panic!("progress expected"),
        }
        if k + 1 < all.len() {
            match *p.get_state_ref() {
                State::Printing(st) => {
                    assert_eq!(st.completed, k + 1);
                    assert_eq!(st.sent, std::cmp::min(k + 6, all.len()));
                }
                _ => panic!("printing expected"),
            }
        }
    }
    assert_eq!(*p.get_state_ref(), State::Idle);
    let mut expected_all = Vec::new();
    for d in &all {
        expected_all.extend(framed(d));
    }
    assert_eq!(sent, expected_all);
    assert_eq!(
        reports,
        vec![
            ProgressNote { progress: 0, minutes_left: 10 },
            ProgressNote { progress: 50, minutes_left: 5 },
            ProgressNote { progress: 100, minutes_left: 0 },
        ]
    );
}

#[test]
fn print_refused_without_program_or_when_busy() {
    let mut p = Printer::new();
    assert!(p.print().is_none());
    p.load_gcode(&read_program("G28"));
    assert!(p.print().is_some());
    assert!(p.print().is_none());
    assert!(matches!(p.home(), HomeAction::Busy));
    p.cancel_print();
    assert_eq!(*p.get_state_ref(), State::Idle);
    assert_eq!(p.command_count(), 0);
}

#[test]
fn homing_cycle() {
    let mut p = Printer::new();
    p.load_gcode(&read_program("G28\nG1 X1"));
    match p.home() {
        HomeAction::Start(bytes) => assert_eq!(bytes, vec![2, b'H', 7]),
        _ => panic!("homing should start"),
    }
    assert_eq!(*p.get_state_ref(), State::Initializing);
    assert_eq!(p.command_count(), 0);
    assert!(matches!(p.home(), HomeAction::AlreadyHoming));
    match p.handle_data(&[b'_']) {
        Reaction::Homed(bytes) => assert_eq!(bytes, vec![5, b'P', 0, 0, 0, 0]),
        _ => panic!("homing should end"),
    }
    assert_eq!(*p.get_state_ref(), State::Idle);
    assert!(matches!(p.handle_data(&[b'_']), Reaction::Nothing));
}

#[test]
fn controller_logs() {
    let mut p = Printer::new();
    match p.handle_data(b"Dhello") {
        Reaction::Log(LogLevel::Debug, text) => assert_eq!(text, b"hello".to_vec()),
        _ => panic!("debug log expected"),
    }
    match p.handle_data(b"Iready") {
        Reaction::Log(LogLevel::Info, text) => assert_eq!(text, b"ready".to_vec()),
        _ => panic!("info log expected"),
    }
    match p.handle_data(b"E") {
        Reaction::Log(LogLevel::Error, text) => assert!(text.is_empty()),
        _ => panic!("error log expected"),
    }
    assert!(matches!(p.handle_data(b"?x"), Reaction::Nothing));
    assert_eq!(*p.get_state_ref(), State::Idle);
}

#[test]
fn encoder_positions() {
    let e = Encoder { resolution: 3, offset: 20 };
    assert_eq!(e.postion(10), 90);
    assert_eq!(e.postion(-20), 0);
    assert_eq!(e.mm(90), 10);
    assert_eq!(e.mm(91), 10);
    for mm in -20i16..1000 {
        assert_eq!(e.mm(e.postion(mm)), mm);
    }
    let wrapping = Encoder { resolution: 1, offset: 0 };
    assert_eq!(wrapping.postion(-1), 65535);
    assert_eq!(wrapping.mm(65535), -1);
}

#[test]
fn frames_and_receiver() {
    let data = [b'X', 90, 0];
    let f = frame(&data);
    assert_eq!(f, vec![3, b'X', 90, 0]);
    assert_eq!(frame(&[]), vec![0]);

    let mut r = Receiver::new();
    assert_eq!(r.next_step(0), ReadStep::Wait);
    assert_eq!(r.next_step(f.len() as u32), ReadStep::ReadLength);
    r.length_read(f[0]);
    assert_eq!(r.next_step(2), ReadStep::Wait);
    assert_eq!(r.next_step(3), ReadStep::ReadPayload(3));
    assert_eq!(&f[1..], &data[..]);
    r.payload_read();
    assert_eq!(r.next_step(1), ReadStep::ReadLength);
}

#[test]
fn network_forwards_to_printer() {
    let mut n = Network::new(Printer::new());
    assert_eq!(*n.get_printer_state_ref(), State::Idle);
    let notes = n.load_printer_gcode(&read_program("G28\nM999"));
    assert_eq!(notes, vec![LoadNote::Unhandled(1)]);
    assert!(n.printer_mut().print().is_some());
    assert!(matches!(*n.get_printer_state_ref(), State::Printing(PrintStatus { sent: 1, completed: 0, .. })));
}
