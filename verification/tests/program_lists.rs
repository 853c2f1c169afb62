use motherboard::gcode_manager::gcode::{
    line_parses_check, parse_line, parse_u16, split_line, Command, GCode, ParseCommandError,
};
use motherboard::gcode_manager::GcodeManager;
use motherboard::gcode_parser::{self, Code};
use motherboard::text::chars_of;

fn chars(s: &str) -> Vec<char> {
    s.chars().collect()
}

fn bits(x: f32) -> u32 {
    x.to_bits()
}

#[test]
fn command_codes() {
    assert_eq!(Command::from_str("G1"), Ok(Command::G(1)));
    assert_eq!(Command::from_str("g28"), Ok(Command::G(28)));
    assert_eq!(Command::from_str("m73"), Ok(Command::M(73)));
    assert_eq!(Command::from_str("M+5"), Ok(Command::M(5)));
    assert_eq!(Command::from_str("X1"), Err(ParseCommandError));
    assert_eq!(Command::from_str("G70000"), Err(ParseCommandError));
    assert_eq!(Command::from_str("G"), Err(ParseCommandError));
    assert_eq!(Command::from_str("G-1"), Err(ParseCommandError));
    assert_eq!(Command::try_from_str(""), None);
    assert_eq!(Command::try_from_str("é1"), None);
    assert_eq!(Command::try_from_str("g4"), Some(Ok(Command::G(4))));
}

#[test]
fn decimal_u16() {
    assert_eq!(parse_u16(&chars("0")), Some(0));
    assert_eq!(parse_u16(&chars("65535")), Some(65535));
    assert_eq!(parse_u16(&chars("0065535")), Some(65535));
    assert_eq!(parse_u16(&chars("65536")), None);
    assert_eq!(parse_u16(&chars("+12")), Some(12));
    assert_eq!(parse_u16(&chars("+")), None);
    assert_eq!(parse_u16(&chars("")), None);
    assert_eq!(parse_u16(&chars("1a")), None);
    assert_eq!(parse_u16(&chars("99999x")), None);
    for n in [1u32, 7, 42, 999, 12345, 65535] {
        assert_eq!(parse_u16(&chars(&n.to_string())), n.to_string().parse::<u16>().ok());
    }
}

#[test]
fn gcode_arguments() {
    let g = GCode::new(Command::G(1), vec![('X', bits(1.0)), ('Y', bits(2.0)), ('X', bits(3.0))]);
    assert_eq!(g.arg('X'), Some(bits(3.0)));
    assert_eq!(g.arg('Y'), Some(bits(2.0)));
    assert_eq!(g.arg('Z'), None);
}

#[test]
fn lines_with_arguments() {
    let line = chars("g1 X10 Y2.5 ; move");
    let (code, tokens) = split_line(&line);
    assert_eq!(code, chars("g1"));
    assert_eq!(tokens.len(), 2);
    assert_eq!(tokens[1].letter, 'Y');
    assert_eq!(tokens[1].text, chars("2.5"));
    let values = vec![bits(10.0), bits(2.5)];
    assert!(line_parses_check(&line, &values));
    let g = parse_line(&line, &values);
    assert_eq!(g.command, Command::G(1));
    assert_eq!(g.arg('X'), Some(bits(10.0)));
    assert!(!line_parses_check(&chars("G1"), &Vec::new()));
    assert!(!line_parses_check(&chars("Q1 X1"), &vec![bits(1.0)]));
    assert!(!line_parses_check(&line, &vec![bits(1.0)]));
}

#[test]
fn manager_programs() {
    let mut m = GcodeManager::new();
    assert!(!m.printing);
    assert!(!m.start_printing());
    let lines = vec![chars("G28 X"), chars("M73 P5")];
    let values = vec![vec![0u32], vec![bits(5.0)]];
    assert!(m.try_load_lines(&lines, &values));
    assert!(m.start_printing());
    m.on_command_end();
    assert!(m.start_printing());
    let bad = vec![chars("G28")];
    assert!(!m.try_load_lines(&bad, &vec![Vec::new()]));
    assert!(m.start_printing());
    m.load_lines(&vec![], &vec![]);
    assert!(!m.start_printing());
}

#[test]
fn manager_program_text() {
    let mut m = GcodeManager::new();
    let values = vec![vec![bits(1.0)], vec![bits(5.0)]];
    assert!(m.try_load_gcode("G1 X1\nM73 P5", &values));
    assert!(m.start_printing());
    // A program of one line cannot take the values of two.
    assert!(!m.try_load_gcode("G1 X1", &values));
    assert!(m.start_printing());
    // The line without a space after its code does not read.
    assert!(!m.try_load_gcode("G1 X1\nG28", &vec![vec![bits(1.0)], vec![]]));
    m.load_gcode("G28 X;home\nm73 P5", &vec![vec![0u32], vec![bits(5.0)]]);
    assert!(m.start_printing());
}

#[test]
fn code_lines() {
    let line = chars_of("G1 X10.5 Y-2");
    let texts = gcode_parser::value_texts(&line);
    assert_eq!(texts, vec![chars("1"), chars("10.5"), chars("-2")]);
    let values = vec![bits(1.0), bits(10.5), bits(-2.0)];
    let g = gcode_parser::parse_line(&line, &values);
    assert_eq!(g.code, Code { key: 'G', value: bits(1.0) });
    assert_eq!(g.args, vec![Code { key: 'X', value: bits(10.5) }, Code { key: 'Y', value: bits(-2.0) }]);
    assert_eq!(Code::new(&chars("Z3"), bits(3.0)), Code { key: 'Z', value: bits(3.0) });
}
