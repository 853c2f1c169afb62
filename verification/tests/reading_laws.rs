use motherboard::printer::gcode::gcommands::{G0, G92};
use motherboard::printer::gcode::{
    tokenize, tokenize_until_unsplittable, Field, Line, ParseFieldError, Tokens,
};
use motherboard::printer::{split_lines, Encoder, Settings};
use motherboard::text::chars_of;

fn settings() -> Settings {
    Settings {
        x_coder: Encoder { resolution: 3, offset: 20 },
        y_coder: Encoder { resolution: 3, offset: 20 },
        z_coder: Encoder { resolution: 3, offset: 20 },
        abs_pos: true,
        abs_ext: false,
    }
}

fn field(letter: char, value: f32) -> Field {
    Field { letter, number: Some(value.to_bits()) }
}

fn number_of(text: &[char]) -> Result<u32, ParseFieldError> {
    text.iter().collect::<String>().parse::<f32>().map(|v| v.to_bits()).map_err(|_| ParseFieldError)
}

fn read(tokens: Tokens) -> Result<Line, motherboard::printer::gcode::ParseGcodeError> {
    let numbers: Vec<Result<u32, ParseFieldError>> = match &tokens {
        Tokens::Blank => Vec::new(),
        Tokens::Code { fields, .. } => fields.iter().map(|t| number_of(&t.text)).collect(),
    };
    Line::from_tokens(tokens, &numbers)
}

fn same_tokens(a: &Tokens, b: &Tokens) -> bool {
    match (a, b) {
        (Tokens::Blank, Tokens::Blank) => true,
        (Tokens::Code { label: l1, fields: f1 }, Tokens::Code { label: l2, fields: f2 }) => {
            l1 == l2
                && f1.len() == f2.len()
                && f1.iter().zip(f2.iter()).all(|(x, y)| x.letter == y.letter && x.text == y.text)
        }
        _ => false,
    }
}

#[test]
fn crlf_program_has_lf_lines() {
    let lf = "G28\nG1 X10 Y5\n; done\n";
    let crlf = lf.replace('\n', "\r\n");
    assert_eq!(split_lines(lf), split_lines(&crlf));
}

#[test]
fn set_position_is_move_with_lower_tags() {
    let s = settings();
    let fields = [field('X', 10.0), field('E', 3.0), field('Y', 2.0), field('Z', 0.5)];
    let moved = G0::new(&fields, &s).unwrap().data;
    let set = G92::new(&fields, &s).unwrap().data;
    assert_eq!(moved, vec![b'X', 90, 0, b'Y', 66, 0, b'Z', 60, 0]);
    assert_eq!(set, vec![b'x', 90, 0, b'y', 66, 0, b'z', 60, 0]);
    let missing = [field('X', 1.0), Field { letter: 'Y', number: None }];
    assert!(G0::new(&missing, &s).is_err());
    assert!(G92::new(&missing, &s).is_err());
}

#[test]
fn comments_and_blanks_ignored() {
    let plain = tokenize(&chars_of("G1 X10"));
    assert!(same_tokens(&tokenize(&chars_of("G1 X10;a;b")), &plain));
    assert!(same_tokens(&tokenize(&chars_of(" \t G1 X10  ")), &plain));
    assert!(same_tokens(&tokenize(&chars_of("  G1 X10 ; G4 S1  ")), &plain));
    let with_comment = tokenize(&chars_of("G1 X1 ;c; d"));
    assert!(same_tokens(&tokenize(&chars_of("G1 X1 ;c; d;more")), &with_comment));
}

#[test]
fn tokens_stop_at_unsplittable_word() {
    let (tokens, cut) = tokenize_until_unsplittable(&chars_of("G1 x1 é2"));
    assert!(cut);
    match &tokens {
        Tokens::Code { fields, .. } => assert_eq!(fields.len(), 1),
        Tokens::Blank => panic!("expected a command"),
    }
    assert!(read(tokens).is_err());

    let (tokens, cut) = tokenize_until_unsplittable(&chars_of("G1 X1 é2"));
    assert!(cut);
    assert!(read(tokens).is_ok());

    let (tokens, cut) = tokenize_until_unsplittable(&chars_of("G1 X1 Y2"));
    assert!(!cut);
    assert!(same_tokens(&tokens, &tokenize(&chars_of("G1 X1 Y2"))));
}
