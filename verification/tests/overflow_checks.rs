use motherboard::printer::gcode::gcommands::{move_fits_check, pause_fits_check};
use motherboard::printer::gcode::{line_fits_check, Field, Line, ParseGcodeError};
use motherboard::printer::{lines_fit_check, Encoder, Printer, Settings};

fn settings() -> Settings {
    Settings {
        x_coder: Encoder { resolution: 3, offset: 20 },
        y_coder: Encoder { resolution: 3, offset: 20 },
        z_coder: Encoder { resolution: 3, offset: 20 },
        abs_pos: true,
        abs_ext: false,
    }
}

fn field(letter: char, value: f32) -> Field {
    Field { letter, number: Some(value.to_bits()) }
}

fn chars(s: &str) -> Vec<char> {
    s.chars().collect()
}

#[test]
fn position_fits_within_sixteen_bits() {
    let enc = Encoder { resolution: 3, offset: 20 };
    assert!(enc.position_fits_check(100));
    assert_eq!(enc.postion(100), 360);
    assert!(enc.position_fits_check(21825));
    assert!(!enc.position_fits_check(21826));
    assert!(!enc.position_fits_check(32760));
    assert!(!enc.position_fits_check(-30));
    assert!(enc.position_fits_check(-20));
}

#[test]
fn move_fits_checks_each_axis() {
    let s = settings();
    assert!(move_fits_check(&[field('X', 10.0), field('Y', 20.0), field('E', 1e9)], &s));
    assert!(!move_fits_check(&[field('X', 10.0), field('Z', 30000.0)], &s));
    assert!(!move_fits_check(&[field('Y', -100.0)], &s));
    // Once a field has no number the move is an error, and what follows is not computed.
    assert!(move_fits_check(&[Field { letter: 'X', number: None }, field('X', 30000.0)], &s));
    assert!(move_fits_check(&[], &s));
}

#[test]
fn pause_fits_in_thirty_two_bits() {
    assert!(pause_fits_check(&[field('P', 500.0), field('S', 2.0)]));
    assert!(pause_fits_check(&[field('S', 4294967.0)]));
    assert!(!pause_fits_check(&[field('S', 4294968.0)]));
    assert!(!pause_fits_check(&[field('P', 4294967295.0), field('P', 1.0)]));
    assert!(pause_fits_check(&[Field { letter: 'P', number: None }, field('S', 5e9)]));
}

#[test]
fn line_and_program_checks() {
    let s = settings();
    let far = Line::Code { label: chars("G1"), fields: vec![field('X', 30000.0)] };
    let near = Line::Code { label: chars("G1"), fields: vec![field('X', 10.0)] };
    let set = Line::Code { label: chars("G92"), fields: vec![field('Z', 30000.0)] };
    let other = Line::Code { label: chars("M73"), fields: vec![field('P', 1e9)] };
    assert!(!line_fits_check(&far, &s));
    assert!(line_fits_check(&near, &s));
    assert!(!line_fits_check(&set, &s));
    assert!(line_fits_check(&other, &s));
    assert!(line_fits_check(&Line::Blank, &s));

    let ok: Vec<Result<Line, ParseGcodeError>> = vec![Ok(near), Err(ParseGcodeError), Ok(Line::Blank)];
    assert!(lines_fit_check(&ok, &s));
    let bad: Vec<Result<Line, ParseGcodeError>> = vec![Ok(Line::Blank), Ok(far)];
    assert!(!lines_fit_check(&bad, &s));

    let mut printer = Printer::new();
    assert!(lines_fit_check(&ok, printer.settings()));
    let notes = printer.load_gcode(&ok);
    assert_eq!(notes.len(), 1);
    assert_eq!(printer.command_count(), 1);
}
