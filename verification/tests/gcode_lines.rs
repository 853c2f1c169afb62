use motherboard::printer::gcode::gcommands::{G0, G28, G4, G92};
use motherboard::printer::gcode::mcommands::{ProgressNote, M73, M84};
use motherboard::printer::gcode::{
    parse, scope, splits_cleanly, tokenize, Command, ConfigNote, Field, Line, ParseFieldError,
    ParseGcodeError, Token, Tokens, Unhandled, Void,
};
use motherboard::printer::{Encoder, PrintStatus, Settings};
use motherboard::text::chars_of;

fn settings() -> Settings {
    Settings {
        x_coder: Encoder { resolution: 3, offset: 20 },
        y_coder: Encoder { resolution: 3, offset: 20 },
        z_coder: Encoder { resolution: 3, offset: 20 },
        abs_pos: true,
        abs_ext: false,
    }
}

fn number_of(text: &[char]) -> Result<u32, ParseFieldError> {
    text.iter()
        .collect::<String>()
        .parse::<f32>()
        .map(|v| v.to_bits())
        .map_err(|_| ParseFieldError)
}

fn read_line(line: &str) -> Result<Line, ParseGcodeError> {
    let chars = chars_of(line);
    assert!(splits_cleanly(&chars));
    let tokens = tokenize(&chars);
    let numbers: Vec<Result<u32, ParseFieldError>> = match &tokens {
        Tokens::Blank => Vec::new(),
        Tokens::Code { fields, .. } => fields.iter().map(|t| number_of(&t.text)).collect(),
    };
    Line::from_tokens(tokens, &numbers)
}

fn command(line: &str) -> Result<Command, ParseGcodeError> {
    parse(&read_line(line)?, &settings())
}

fn data(line: &str) -> Vec<u8> {
    command(line).unwrap().data_arduino().to_vec()
}

fn chars(s: &str) -> Vec<char> {
    s.chars().collect()
}

#[test]
fn tokenize_splits_label_and_fields() {
    match tokenize(&chars_of("  G1 X10 Y20.5\tE ; move")) {
        Tokens::Code { label, fields } => {
            assert_eq!(label, chars("G1"));
            assert_eq!(fields.len(), 3);
            assert_eq!(fields[0].letter, 'X');
            assert_eq!(fields[0].text, chars("10"));
            assert_eq!(fields[1].letter, 'Y');
            assert_eq!(fields[1].text, chars("20.5"));
            assert_eq!(fields[2].letter, 'E');
            assert!(fields[2].text.is_empty());
        }
        Tokens::Blank => panic!("expected a command"),
    }
}

#[test]
fn blank_and_comment_lines() {
    assert!(matches!(tokenize(&chars_of("")), Tokens::Blank));
    assert!(matches!(tokenize(&chars_of("   \r")), Tokens::Blank));
    assert!(matches!(tokenize(&chars_of("; only a comment")), Tokens::Blank));
    assert!(matches!(command("; comment").unwrap(), Command::Void(_)));
}

#[test]
fn comment_does_not_change_line() {
    let with = tokenize(&chars_of("G28 X;home X; more"));
    let without = tokenize(&chars_of("G28 X"));
    match (with, without) {
        (Tokens::Code { label: l1, fields: f1 }, Tokens::Code { label: l2, fields: f2 }) => {
            assert_eq!(l1, l2);
            assert_eq!(f1.len(), f2.len());
            assert_eq!(f1[0].letter, f2[0].letter);
        }
        _ => panic!("expected commands"),
    }
}

#[test]
fn splits_cleanly_rejects_multibyte_field_start() {
    assert!(!splits_cleanly(&chars_of("G1 éX")));
    assert!(splits_cleanly(&chars_of("Gé X1 ; é")));
}

#[test]
fn field_from_token() {
    let tok = Token { letter: 'X', text: chars("12") };
    assert_eq!(
        Field::from_token(&tok, Ok(12.0f32.to_bits())),
        Ok(Field { letter: 'X', number: Some(12.0f32.to_bits()) })
    );
    let lower = Token { letter: 'x', text: chars("12") };
    assert_eq!(Field::from_token(&lower, Ok(1)), Err(ParseFieldError));
    let empty = Token { letter: 'E', text: Vec::new() };
    assert_eq!(Field::from_token(&empty, Err(ParseFieldError)), Ok(Field { letter: 'E', number: None }));
    let bad = Token { letter: 'E', text: chars("abc") };
    assert_eq!(Field::from_token(&bad, Err(ParseFieldError)), Err(ParseFieldError));
}

#[test]
fn bad_field_is_an_error() {
    assert_eq!(read_line("G1 Xabc").err(), Some(ParseGcodeError));
    assert_eq!(read_line("G90 x1").err(), Some(ParseGcodeError));
}

#[test]
fn move_data() {
    // X: (10 + 20) * 3 = 90; Y: (-5 + 20) * 3 = 45; Z: 0.5 truncates to 0, (0 + 20) * 3 = 60
    assert_eq!(data("G1 X10 Y-5 Z0.5 F1200"), vec![b'X', 90, 0, b'Y', 45, 0, b'Z', 60, 0]);
    assert_eq!(data("G0 X100"), vec![b'X', 104, 1]);
    assert!(command("G1 F1500").unwrap().data_arduino().is_empty());
    assert_eq!(command("G1 X").err(), Some(ParseGcodeError));
    assert_eq!(command("G1 E").err(), Some(ParseGcodeError));
}

#[test]
fn set_position_data() {
    assert_eq!(data("G92 X0 E5"), vec![b'x', 60, 0]);
    assert_eq!(data("G92 Y1 Z2"), vec![b'y', 63, 0, b'z', 66, 0]);
}

#[test]
fn pause_data() {
    // 500 ms + 2 s = 2500 ms = 0x09c4
    assert_eq!(data("G4 P500 S2"), vec![b'P', 0xc4, 0x09, 0, 0]);
    assert_eq!(data("G4"), vec![b'P', 0, 0, 0, 0]);
    assert_eq!(command("G4 S").err(), Some(ParseGcodeError));
}

#[test]
fn home_data() {
    assert_eq!(data("G28"), vec![b'H', 0b111]);
    assert_eq!(data("G28 X Z"), vec![b'H', 0b101]);
    assert_eq!(data("G28 Y W"), vec![b'H', 0b010]);
    assert_eq!(command("G28 X1").err(), Some(ParseGcodeError));
}

#[test]
fn progress_command() {
    match command("M73 P40 R12").unwrap() {
        Command::M73(m) => assert_eq!(m, M73 { progress: 40, time: 12, silent: false }),
        _ => panic!("expected M73"),
    }
    match command("M73 Q20 S30").unwrap() {
        Command::M73(m) => assert_eq!(m, M73 { progress: 20, time: 30, silent: true }),
        _ => panic!("expected M73"),
    }
    assert_eq!(command("M73 P").err(), Some(ParseGcodeError));
}

#[test]
fn other_labels() {
    assert!(matches!(command("M84").unwrap(), Command::M84(M84)));
    assert!(matches!(command("G90").unwrap(), Command::Void(Void)));
    assert!(matches!(command("M862 P1").unwrap(), Command::Void(Void)));
    assert!(matches!(command("M107").unwrap(), Command::Void(Void)));
    assert_eq!(command("M999").err(), Some(ParseGcodeError));
    assert_eq!(command("g1 X1").err(), Some(ParseGcodeError));
    assert_eq!(command("G1\tX1").err(), Some(ParseGcodeError));
}

#[test]
fn command_constructors() {
    let s = settings();
    let f = [Field { letter: 'X', number: Some(2.0f32.to_bits()) }];
    assert_eq!(G0::new(&f, &s).unwrap().data, vec![b'X', 66, 0]);
    assert_eq!(G92::new(&f, &s).unwrap().data, vec![b'x', 66, 0]);
    assert!(G4::new(&f, &s).is_ok());
    assert!(G28::new(&f, &s).is_err());
    assert_eq!(Void::new(&f, &s), Ok(Void));
    assert_eq!(M84::new(&f, &s), Ok(M84));
    assert_eq!(Unhandled::new(&f, &s), Ok(Unhandled { letter: 'X', number: 2 }));
    assert_eq!(Unhandled { letter: 'X', number: 2 }.scope(), scope::CONFIG);
}

#[test]
fn command_scopes_and_effects() {
    let mut s = settings();
    let before = s;
    assert_eq!(command("G1 X1").unwrap().scope(), scope::ARDUINO);
    assert_eq!(command("M73 P20").unwrap().scope(), scope::CONFIG | scope::PI);
    assert_eq!(command("G90").unwrap().scope(), 0);

    assert_eq!(command("M73 P40").unwrap().edit_config(&mut s), Some(ConfigNote::Progress(40)));
    assert_eq!(command("M73 P41").unwrap().edit_config(&mut s), None);
    assert_eq!(command("M73 P40 S3").unwrap().edit_config(&mut s), None);
    assert_eq!(
        Command::Unhandled(Unhandled { letter: 'M', number: 5 }).edit_config(&mut s),
        Some(ConfigNote::Unhandled('M', 5))
    );
    assert_eq!(s, before);

    let mut st = PrintStatus { sent: 3, completed: 1, progress: 0, time_left: 0, silent_progress: 0, silent_time_left: 0 };
    assert_eq!(
        command("M73 P60 R7").unwrap().run_pi(&mut st),
        Some(ProgressNote { progress: 60, minutes_left: 7 })
    );
    assert_eq!((st.progress, st.time_left, st.sent, st.completed), (60, 7, 3, 1));
    assert_eq!(command("M73 Q61 S8").unwrap().run_pi(&mut st), None);
    assert_eq!((st.silent_progress, st.silent_time_left, st.progress), (61, 8, 60));
    assert_eq!(command("G1 X1").unwrap().run_pi(&mut st), None);
}
