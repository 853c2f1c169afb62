//! Reading one line of G-code into a command for the printer.
//!
//! A line is read in three steps: `tokenize` splits it into a label and field
//! tokens (a letter and the text of its number); the numbers are read as
//! binary32 values outside this library; `Line::from_tokens` checks the fields
//! and `parse` builds the command.
pub mod scope;
pub mod gcommands;
pub mod mcommands;

use vstd::prelude::*;
use crate::text::{
    find_char, is_ws, is_one_byte, before_char, trim, split_once_char, words, views, before, trimmed, find,
    copy_range, split_words, char_at, all_ws,
};
use crate::binary32::{as_u16, to_u16};
use super::{Settings, PrintStatus};
use self::gcommands::{
    G0, G4, G28, G92, move_data, move_fits, pause_total, pause_fits, home_mask, le_bytes32,
    move_fits_check, pause_fits_check,
};
use self::mcommands::{M73, M84, ProgressNote, m73_from};

verus! {

#[derive(Debug, Clone, Copy, PartialEq, Eq, Structural)]
pub struct ParseFieldError;

#[derive(Debug, Clone, Copy, PartialEq, Eq, Structural)]
pub struct ParseGcodeError;

/// One field of a command: a letter and an optional number, given by the
/// bit pattern of its binary32 value.
#[derive(Debug, Clone, Copy, PartialEq, Eq, Structural)]
pub struct Field {
    pub letter: char,
    pub number: Option<u32>,
}


/// Empty or ignored command.
#[derive(Debug, Clone, Copy, PartialEq, Eq, Structural)]
pub struct Void;

impl Void {
    pub fn new(fields: &[Field], setting: &Settings) -> (r: Result<Self, ParseGcodeError>)
        ensures
            r == Ok::<Void, ParseGcodeError>(Void),
    {
        Ok(Void)
    }
}

/// A command that is read but not supported: its letter and number are reported.
#[derive(Debug, Clone, Copy, PartialEq, Eq, Structural)]
pub struct Unhandled {
    pub letter: char,
    pub number: u16,
}

impl Unhandled {
    pub fn new(fields: &[Field], setting: &Settings) -> (r: Result<Self, ParseGcodeError>)
        requires
            fields@.len() > 0,
            fields@[0].number is Some,
        ensures
            r == Ok::<Unhandled, ParseGcodeError>(
                Unhandled { letter: fields@[0].letter, number: as_u16(fields@[0].number.unwrap()) },
            ),
    {
        let first = fields[0];
        match first.number {
            Some(n) => Ok(Unhandled { letter: first.letter, number: to_u16(n) }),
            None => Err(ParseGcodeError),
        }
    }

    pub fn scope(&self) -> (r: u8)
        ensures
            r == scope::CONFIG,
    {
        scope::CONFIG
    }
}

/// What reading a command into the settings reports.
#[derive(Debug, Clone, Copy, PartialEq, Eq, Structural)]
pub enum ConfigNote {
    /// The build reached this percentage.
    Progress(u8),
    /// A command of this letter and number is not supported.
    Unhandled(char, u16),
}

/// A command of the printer.
pub enum Command {
    Void(Void),
    Unhandled(Unhandled),
    G0(G0),
    G4(G4),
    G28(G28),
    G92(G92),
    M73(M73),
    M84(M84),
}

/// The value of a command: its kind and what it carries.
pub enum CommandView {
    Void,
    Unhandled(Unhandled),
    G0(Seq<u8>),
    G4(Seq<u8>),
    G28(Seq<u8>),
    G92(Seq<u8>),
    M73(M73),
    M84,
}

impl View for Command {
    type V = CommandView;

    open spec fn view(&self) -> CommandView {
        match self {
            Command::Void(_) => CommandView::Void,
            Command::Unhandled(u) => CommandView::Unhandled(*u),
            Command::G0(g) => CommandView::G0(g.data@),
            Command::G4(g) => CommandView::G4(g.data@),
            Command::G28(g) => CommandView::G28(g.data@),
            Command::G92(g) => CommandView::G92(g.data@),
            Command::M73(m) => CommandView::M73(*m),
            Command::M84(_) => CommandView::M84,
        }
    }
}

/// Where a command takes effect (see `scope`).
pub open spec fn spec_scope(c: CommandView) -> u8 {
    match c {
        CommandView::Unhandled(_) => scope::CONFIG,
        CommandView::G0(_) | CommandView::G4(_) | CommandView::G28(_) | CommandView::G92(_) => scope::ARDUINO,
        CommandView::M73(_) => (scope::CONFIG | scope::PI),
        _ => 0,
    }
}

/// The bytes a command sends to the controller.
pub open spec fn spec_data(c: CommandView) -> Seq<u8> {
    match c {
        CommandView::G0(d) => d,
        CommandView::G4(d) => d,
        CommandView::G28(d) => d,
        CommandView::G92(d) => d,
        _ => seq![],
    }
}

/// What a command reports when it is read into the settings.
pub open spec fn spec_config_note(c: CommandView) -> Option<ConfigNote> {
    match c {
        CommandView::Unhandled(u) => Some(ConfigNote::Unhandled(u.letter, u.number)),
        CommandView::M73(m) => if m.progress % 20 == 0 && !m.silent {
            Some(ConfigNote::Progress(m.progress))
        } else {
            None
        },
        _ => None,
    }
}

/// The print status after a command runs on this board.
pub open spec fn spec_run_pi(c: CommandView, st: PrintStatus) -> PrintStatus {
    match c {
        CommandView::M73(m) => if m.silent {
            PrintStatus { silent_progress: m.progress, silent_time_left: m.time, ..st }
        } else {
            PrintStatus { progress: m.progress, time_left: m.time, ..st }
        },
        _ => st,
    }
}

/// What a command reports when it runs on this board.
pub open spec fn spec_run_note(c: CommandView) -> Option<ProgressNote> {
    match c {
        CommandView::M73(m) => if m.silent {
            None
        } else {
            Some(ProgressNote { progress: m.progress, minutes_left: m.time })
        },
        _ => None,
    }
}

impl Command {
    pub fn scope(&self) -> (r: u8)
        ensures
            r == spec_scope(self@),
    {
        match self {
            Command::Void(_) => 0,
            Command::Unhandled(u) => u.scope(),
            Command::G0(g) => g.scope(),
            Command::G4(g) => g.scope(),
            Command::G28(g) => g.scope(),
            Command::G92(g) => g.scope(),
            Command::M73(m) => m.scope(),
            Command::M84(_) => 0,
        }
    }

    /// The bytes for the controller (none for commands that are not sent).
    pub fn data_arduino(&self) -> (r: &[u8])
        ensures
            r@ == spec_data(self@),
    {
        match self {
            Command::G0(g) => g.data_arduino().as_slice(),
            Command::G4(g) => g.data_arduino().as_slice(),
            Command::G28(g) => g.data_arduino().as_slice(),
            Command::G92(g) => g.data_arduino().as_slice(),
            _ => &[],
        }
    }

    /// Applies the command to the settings while the program is read; no
    /// command changes them. Returns what the command reports.
    pub fn edit_config(&self, settings: &mut Settings) -> (r: Option<ConfigNote>)
        ensures
            *final(settings) == *old(settings),
            r == spec_config_note(self@),
    {
        match self {
            Command::Unhandled(u) => Some(ConfigNote::Unhandled(u.letter, u.number)),
            Command::M73(m) => match m.edit_config(settings) {
                Some(p) => Some(ConfigNote::Progress(p)),
                None => None,
            },
            _ => None,
        }
    }

    /// Runs the command on this board when the controller reaches it.
    pub fn run_pi(&self, status: &mut PrintStatus) -> (r: Option<ProgressNote>)
        ensures
            *final(status) == spec_run_pi(self@, *old(status)),
            r == spec_run_note(self@),
    {
        match self {
            Command::M73(m) => m.run_pi(status),
            _ => None,
        }
    }
}


/// The text of a line that holds the command: before any `;`, trimmed.
pub open spec fn code_of(line: Seq<char>) -> Seq<char> {
    trim(before_char(line, ';'))
}

/// The label of a command: its text up to the first space.
pub open spec fn label_of(code: Seq<char>) -> Seq<char> {
    match split_once_char(code, ' ') {
        Some((label, _)) => label,
        None => code,
    }
}

/// The parameters of a command: its text after the first space.
pub open spec fn params_of(code: Seq<char>) -> Seq<char> {
    match split_once_char(code, ' ') {
        Some((_, params)) => params,
        None => seq![],
    }
}

/// The words of a line that become fields.
pub open spec fn field_words(line: Seq<char>) -> Seq<Seq<char>> {
    words(params_of(code_of(line)))
}

/// Every field word starts with a one-byte character, so that it can be
/// split after its first byte.
pub open spec fn fields_split_cleanly(line: Seq<char>) -> bool {
    forall|i: int| 0 <= i < field_words(line).len() ==> is_one_byte(#[trigger] field_words(line)[i][0])
}

/// A field word split into its letter and the text of its number.
pub open spec fn token_of(w: Seq<char>) -> (char, Seq<char>) {
    (w[0], w.drop_first())
}

/// The label and the field tokens of a line; `None` for a line without a command.
pub open spec fn spec_tokens(line: Seq<char>) -> Option<(Seq<char>, Seq<(char, Seq<char>)>)> {
    let code = code_of(line);
    if code.len() == 0 {
        None
    } else {
        Some((label_of(code), field_words(line).map_values(|w: Seq<char>| token_of(w))))
    }
}

/// A field word: its letter and the text of its number.
pub struct Token {
    pub letter: char,
    pub text: Vec<char>,
}

impl View for Token {
    type V = (char, Seq<char>);

    open spec fn view(&self) -> (char, Seq<char>) {
        (self.letter, self.text@)
    }
}

/// A line split into label and field tokens.
pub enum Tokens {
    Blank,
    Code { label: Vec<char>, fields: Vec<Token> },
}

impl View for Tokens {
    type V = Option<(Seq<char>, Seq<(char, Seq<char>)>)>;

    open spec fn view(&self) -> Option<(Seq<char>, Seq<(char, Seq<char>)>)> {
        match self {
            Tokens::Blank => None,
            Tokens::Code { label, fields } => Some(
                (label@, fields@.map_values(|t: Token| t@)),
            ),
        }
    }
}

proof fn lemma_scan_words_nonempty(s: Seq<char>)
    ensures
        forall|i: int|
            0 <= i < crate::text::scan_words(s).0.len() ==> #[trigger] crate::text::scan_words(s).0[i].len()
                > 0,
    decreases s.len(),
{
    if s.len() > 0 {
        lemma_scan_words_nonempty(s.drop_last());
        let (d, c) = crate::text::scan_words(s.drop_last());
        if is_ws(s.last()) && c.len() > 0 {
            assert(crate::text::scan_words(s).0 == d.push(c));
            assert forall|i: int| 0 <= i < d.push(c).len() implies #[trigger] d.push(c)[i].len() > 0 by {
                if i < d.len() {
                    assert(d.push(c)[i] == d[i]);
                }
            }
        }
    }
}

/// Every word holds at least one character.
pub proof fn lemma_words_nonempty(s: Seq<char>)
    ensures
        forall|i: int| 0 <= i < words(s).len() ==> #[trigger] words(s)[i].len() > 0,
{
    lemma_scan_words_nonempty(s);
}

/// Whether `tokenize` can split every field word of `line`.
pub fn splits_cleanly(line: &Vec<char>) -> (r: bool)
    ensures
        r == fields_split_cleanly(line@),
{
    let head = before(line, ';');
    let code = trimmed(&head);
    proof {
        crate::text::lemma_find_char_found(code@, ' ');
    }
    let params = match find(&code, ' ') {
        Some(i) => copy_range(&code, i + 1, code.len()),
        None => Vec::new(),
    };
    assert(params@ == params_of(code@));
    let ws = split_words(&params);
    proof {
        lemma_words_nonempty(params@);
    }
    let mut i: usize = 0;
    while i < ws.len()
        invariant
            i <= ws.len(),
            views(ws@) == field_words(line@),
            forall|j: int| 0 <= j < field_words(line@).len() ==> #[trigger] field_words(line@)[j].len() > 0,
            forall|j: int| 0 <= j < i ==> is_one_byte(#[trigger] field_words(line@)[j][0]),
        decreases ws.len() - i,
    {
        assert(ws@[i as int]@ == field_words(line@)[i as int]);
        if (ws[i][0] as u32) >= 0x80 {
            return false;
        }
        i = i + 1;
    }
    true
}

/// Splits a line into its label and field tokens, as the command reader does:
/// the text before any `;`, trimmed; the label up to the first space; the
/// words after it, each split after its first character.
pub fn tokenize(line: &Vec<char>) -> (r: Tokens)
    requires
        fields_split_cleanly(line@),
    ensures
        r@ == spec_tokens(line@),
{
    let head = before(line, ';');
    let code = trimmed(&head);
    if code.len() == 0 {
        return Tokens::Blank;
    }
    proof {
        crate::text::lemma_find_char_found(code@, ' ');
    }
    let (label, params) = match find(&code, ' ') {
        Some(i) => (copy_range(&code, 0, i), copy_range(&code, i + 1, code.len())),
        None => (copy_range(&code, 0, code.len()), Vec::new()),
    };
    assert(label@ =~= label_of(code@));
    assert(params@ =~= params_of(code@));
    let ws = split_words(&params);
    proof {
        lemma_words_nonempty(params@);
    }
    let ghost fw = field_words(line@);
    let mut fields: Vec<Token> = Vec::new();
    let mut i: usize = 0;
    while i < ws.len()
        invariant
            i <= ws.len(),
            views(ws@) == fw,
            fw == field_words(line@),
            forall|j: int| 0 <= j < fw.len() ==> #[trigger] fw[j].len() > 0,
            fields@.len() == i,
            forall|j: int| 0 <= j < i ==> (#[trigger] fields@[j])@ == token_of(fw[j]),
        decreases ws.len() - i,
    {
        let w = &ws[i];
        assert(w@ == fw[i as int]);
        let letter = char_at(w, 0);
        let text = copy_range(w, 1, w.len());
        assert(text@ =~= fw[i as int].drop_first());
        let tok = Token { letter, text };
        assert(tok@ == token_of(fw[i as int]));
        fields.push(tok);
        i = i + 1;
    }
    let r = Tokens::Code { label, fields };
    assert(fields@.map_values(|t: Token| t@) =~= fw.map_values(|w: Seq<char>| token_of(w)));
    r
}

/// How many leading words split after their first byte, up to the first one
/// that does not.
pub open spec fn splittable_count(ws: Seq<Seq<char>>) -> int
    decreases ws.len(),
{
    if ws.len() == 0 {
        0
    } else {
        let k = splittable_count(ws.drop_last());
        if k == ws.len() - 1 && is_one_byte(ws.last()[0]) {
            ws.len() as int
        } else {
            k
        }
    }
}

proof fn lemma_splittable_prefix(ws: Seq<Seq<char>>, n: int)
    requires
        0 <= n <= ws.len(),
        forall|j: int| 0 <= j < n ==> is_one_byte(#[trigger] ws[j][0]),
    ensures
        splittable_count(ws.take(n)) == n,
    decreases n,
{
    if n > 0 {
        assert(ws.take(n).drop_last() =~= ws.take(n - 1));
        lemma_splittable_prefix(ws, n - 1);
        assert(ws.take(n).last() == ws[n - 1]);
    }
}

proof fn lemma_splittable_stops(ws: Seq<Seq<char>>, n: int)
    requires
        0 <= n <= ws.len(),
        splittable_count(ws.take(n)) < n,
    ensures
        splittable_count(ws) == splittable_count(ws.take(n)),
    decreases ws.len() - n,
{
    if n < ws.len() {
        assert(ws.drop_last().take(n) =~= ws.take(n));
        lemma_splittable_stops(ws.drop_last(), n);
    } else {
        assert(ws.take(n) =~= ws);
    }
}

/// The label and the field tokens of a line up to the first field word that
/// cannot be split after its first byte.
pub open spec fn spec_split_tokens(line: Seq<char>) -> Option<(Seq<char>, Seq<(char, Seq<char>)>)> {
    let code = code_of(line);
    if code.len() == 0 {
        None
    } else {
        Some((
            label_of(code),
            field_words(line).take(splittable_count(field_words(line))).map_values(
                |w: Seq<char>| token_of(w),
            ),
        ))
    }
}

/// Where every field word splits, the tokens up to the first that does not
/// are all the tokens.
pub proof fn lemma_split_tokens_whole(line: Seq<char>)
    requires
        fields_split_cleanly(line),
    ensures
        spec_split_tokens(line) == spec_tokens(line),
{
    let fw = field_words(line);
    lemma_splittable_prefix(fw, fw.len() as int);
    assert(fw.take(fw.len() as int) =~= fw);
}

/// Splits a line as the command reader does, reading field words in order and
/// stopping before the first that cannot be split after its first byte;
/// returns the tokens, and whether it stopped early.
pub fn tokenize_until_unsplittable(line: &Vec<char>) -> (r: (Tokens, bool))
    ensures
        r.0@ == spec_split_tokens(line@),
        r.1 == !fields_split_cleanly(line@),
{
    let head = before(line, ';');
    let code = trimmed(&head);
    proof {
        crate::text::lemma_find_char_found(code@, ' ');
    }
    let (label, params) = match find(&code, ' ') {
        Some(i) => (copy_range(&code, 0, i), copy_range(&code, i + 1, code.len())),
        None => (copy_range(&code, 0, code.len()), Vec::new()),
    };
    assert(label@ =~= label_of(code@));
    assert(params@ =~= params_of(code@));
    let ws = split_words(&params);
    proof {
        lemma_words_nonempty(params@);
    }
    let ghost fw = field_words(line@);
    let mut fields: Vec<Token> = Vec::new();
    let mut cut = false;
    let mut i: usize = 0;
    while i < ws.len() && !cut
        invariant
            i <= ws.len(),
            views(ws@) == fw,
            fw == field_words(line@),
            forall|j: int| 0 <= j < fw.len() ==> #[trigger] fw[j].len() > 0,
            fields@.len() == i,
            forall|j: int| 0 <= j < i ==> (#[trigger] fields@[j])@ == token_of(fw[j]),
            forall|j: int| 0 <= j < i ==> is_one_byte(#[trigger] fw[j][0]),
            cut ==> i < fw.len() && !is_one_byte(fw[i as int][0]) && splittable_count(fw) == i,
        decreases ws.len() - i + (if cut { 0int } else { 1int }),
    {
        let w = &ws[i];
        assert(w@ == fw[i as int]);
        let letter = char_at(w, 0);
        if (letter as u32) >= 0x80 {
            proof {
                lemma_splittable_prefix(fw, i as int);
                assert(fw.take(i + 1).drop_last() =~= fw.take(i as int));
                assert(fw.take(i + 1).last() == fw[i as int]);
                lemma_splittable_stops(fw, i + 1);
            }
            cut = true;
        } else {
            let text = copy_range(w, 1, w.len());
            assert(text@ =~= fw[i as int].drop_first());
            let tok = Token { letter, text };
            fields.push(tok);
            i = i + 1;
        }
    }
    proof {
        if !cut {
            lemma_splittable_prefix(fw, i as int);
            assert(fw.take(i as int) =~= fw);
        }
    }
    assert(fields@.map_values(|t: Token| t@) =~= fw.take(i as int).map_values(|w: Seq<char>| token_of(w)));
    if code.len() == 0 {
        return (Tokens::Blank, cut);
    }
    (Tokens::Code { label, fields }, cut)
}

pub open spec fn is_ascii_upper(c: char) -> bool {
    'A' <= c && c <= 'Z'
}

/// The field a token gives: its letter must be an upper-case ASCII letter; an
/// empty text gives no number, otherwise `number` (the binary32 reading of the
/// text) must have succeeded.
pub open spec fn field_from(t: (char, Seq<char>), number: Result<u32, ParseFieldError>) -> Result<Field, ParseFieldError> {
    if !is_ascii_upper(t.0) {
        Err(ParseFieldError)
    } else if t.1.len() == 0 {
        Ok(Field { letter: t.0, number: None })
    } else {
        match number {
            Ok(b) => Ok(Field { letter: t.0, number: Some(b) }),
            Err(e) => Err(e),
        }
    }
}

impl Field {
    /// The field of a token, given the binary32 reading of its text.
    pub fn from_token(token: &Token, number: Result<u32, ParseFieldError>) -> (r: Result<Field, ParseFieldError>)
        ensures
            r == field_from(token@, number),
    {
        if !('A' <= token.letter && token.letter <= 'Z') {
            return Err(ParseFieldError);
        }
        if token.text.len() == 0 {
            Ok(Field { letter: token.letter, number: None })
        } else {
            match number {
                Ok(b) => Ok(Field { letter: token.letter, number: Some(b) }),
                Err(e) => Err(e),
            }
        }
    }
}

/// A line whose fields are read.
pub enum Line {
    Blank,
    Code { label: Vec<char>, fields: Vec<Field> },
}

impl View for Line {
    type V = Option<(Seq<char>, Seq<Field>)>;

    open spec fn view(&self) -> Option<(Seq<char>, Seq<Field>)> {
        match self {
            Line::Blank => None,
            Line::Code { label, fields } => Some((label@, fields@)),
        }
    }
}

/// The line the tokens give with the readings of their numbers: an error as
/// soon as one field is.
pub open spec fn line_from(
    tokens: Option<(Seq<char>, Seq<(char, Seq<char>)>)>,
    numbers: Seq<Result<u32, ParseFieldError>>,
) -> Result<Option<(Seq<char>, Seq<Field>)>, ParseGcodeError> {
    match tokens {
        None => Ok(None),
        Some((label, toks)) => if exists|i: int|
            0 <= i < toks.len() && (#[trigger] field_from(toks[i], numbers[i])) is Err {
            Err(ParseGcodeError)
        } else {
            Ok(Some((label, Seq::new(toks.len(), |i: int| field_from(toks[i], numbers[i])->Ok_0))))
        },
    }
}

impl Line {
    /// Reads the fields of a tokenized line; `numbers[i]` is the binary32
    /// reading of the text of field `i`.
    pub fn from_tokens(tokens: Tokens, numbers: &Vec<Result<u32, ParseFieldError>>) -> (r: Result<Line, ParseGcodeError>)
        requires
            tokens matches Tokens::Code { fields, .. } ==> numbers@.len() == fields@.len(),
        ensures
            match r {
                Ok(l) => line_from(tokens@, numbers@) == Ok::<_, ParseGcodeError>(l@),
                Err(e) => line_from(tokens@, numbers@) is Err,
            },
    {
        let ghost given = tokens@;
        match tokens {
            Tokens::Blank => Ok(Line::Blank),
            Tokens::Code { label, fields: toks } => {
                let ghost tv = toks@.map_values(|t: Token| t@);
                assert(given == Some((label@, tv)));
                let mut fields: Vec<Field> = Vec::new();
                let mut i: usize = 0;
                while i < toks.len()
                    invariant
                        i <= toks.len(),
                        numbers@.len() == toks@.len(),
                        tv == toks@.map_values(|t: Token| t@),
                        given == Some((label@, tv)),
                        given == tokens@,
                        fields@.len() == i,
                        forall|j: int| 0 <= j < i ==> field_from(tv[j], numbers@[j]) is Ok,
                        forall|j: int|
                            0 <= j < i ==> #[trigger] fields@[j] == field_from(tv[j], numbers@[j])->Ok_0,
                    decreases toks.len() - i,
                {
                    assert(tv[i as int] == toks@[i as int]@);
                    match Field::from_token(&toks[i], numbers[i]) {
                        Ok(f) => fields.push(f),
                        Err(_) => {
                            assert(field_from(tv[i as int], numbers@[i as int]) is Err);
                            return Err(ParseGcodeError);
                        },
                    }
                    i = i + 1;
                }
                let r = Line::Code { label, fields };
                assert(fields@ =~= Seq::new(tv.len(), |i: int| field_from(tv[i], numbers@[i])->Ok_0));
                Ok(r)
            },
        }
    }
}


/// Labels that are accepted and have nothing to do: `G90`, `M140` (simple
/// bed); `M104`, `M109`, `M106`, `M107`, `M900` (no extruder yet); `G21`,
/// `G80`, `M83`, `M201`, `M203`, `M204`, `M190` (no settings); `M115`,
/// `M862`, `M907`, `M221`.
pub open spec fn is_ignored_label(l: Seq<char>) -> bool {
    ||| l == seq!['G', '9', '0']
    ||| l == seq!['M', '1', '4', '0']
    ||| l == seq!['M', '1', '0', '4']
    ||| l == seq!['M', '1', '0', '9']
    ||| l == seq!['M', '1', '0', '6']
    ||| l == seq!['M', '1', '0', '7']
    ||| l == seq!['M', '9', '0', '0']
    ||| l == seq!['G', '2', '1']
    ||| l == seq!['G', '8', '0']
    ||| l == seq!['M', '8', '3']
    ||| l == seq!['M', '2', '0', '1']
    ||| l == seq!['M', '2', '0', '3']
    ||| l == seq!['M', '2', '0', '4']
    ||| l == seq!['M', '1', '9', '0']
    ||| l == seq!['M', '1', '1', '5']
    ||| l == seq!['M', '8', '6', '2']
    ||| l == seq!['M', '9', '0', '7']
    ||| l == seq!['M', '2', '2', '1']
}

pub open spec fn is_move_label(l: Seq<char>) -> bool {
    l == seq!['G', '0'] || l == seq!['G', '1']
}

/// No field carries a number.
pub open spec fn no_numbers(fields: Seq<Field>) -> bool {
    forall|j: int| 0 <= j < fields.len() ==> (#[trigger] fields[j]).number is None
}

/// The command a read line gives.
pub open spec fn spec_parse(line: Option<(Seq<char>, Seq<Field>)>, s: Settings) -> Result<CommandView, ParseGcodeError> {
    match line {
        None => Ok(CommandView::Void),
        Some((label, fields)) => if is_move_label(label) {
            match move_data(fields, s, false) {
                Some(d) => Ok(CommandView::G0(d)),
                None => Err(ParseGcodeError),
            }
        } else if label == seq!['G', '4'] {
            match pause_total(fields) {
                Some(p) => Ok(CommandView::G4(seq!['P' as u8] + le_bytes32(p))),
                None => Err(ParseGcodeError),
            }
        } else if label == seq!['G', '2', '8'] {
            if no_numbers(fields) {
                Ok(CommandView::G28(seq!['H' as u8, home_mask(fields)]))
            } else {
                Err(ParseGcodeError)
            }
        } else if label == seq!['G', '9', '2'] {
            match move_data(fields, s, true) {
                Some(d) => Ok(CommandView::G92(d)),
                None => Err(ParseGcodeError),
            }
        } else if label == seq!['M', '7', '3'] {
            match m73_from(fields) {
                Some(m) => Ok(CommandView::M73(m)),
                None => Err(ParseGcodeError),
            }
        } else if label == seq!['M', '8', '4'] {
            Ok(CommandView::M84)
        } else if is_ignored_label(label) {
            Ok(CommandView::Void)
        } else {
            Err(ParseGcodeError)
        },
    }
}

/// Reading the line computes without overflow.
pub open spec fn line_fits(line: Option<(Seq<char>, Seq<Field>)>, s: Settings) -> bool {
    match line {
        None => true,
        Some((label, fields)) => if is_move_label(label) || label == seq!['G', '9', '2'] {
            move_fits(fields, s)
        } else if label == seq!['G', '4'] {
            pause_fits(fields)
        } else {
            true
        },
    }
}

fn label_is(label: &Vec<char>, lit: &[char]) -> (r: bool)
    ensures
        r == (label@ == lit@),
{
    if label.len() != lit.len() {
        return false;
    }
    let mut i: usize = 0;
    while i < lit.len()
        invariant
            i <= lit.len() == label.len(),
            forall|j: int| 0 <= j < i ==> label@[j] == lit@[j],
        decreases lit.len() - i,
    {
        if char_at(label, i) != lit[i] {
            return false;
        }
        i = i + 1;
    }
    assert(label@ =~= lit@);
    true
}

fn ignored_label(l: &Vec<char>) -> (r: bool)
    ensures
        r == is_ignored_label(l@),
{
    label_is(l, &['G', '9', '0']) || label_is(l, &['M', '1', '4', '0']) || label_is(
        l,
        &['M', '1', '0', '4'],
    ) || label_is(l, &['M', '1', '0', '9']) || label_is(l, &['M', '1', '0', '6']) || label_is(
        l,
        &['M', '1', '0', '7'],
    ) || label_is(l, &['M', '9', '0', '0']) || label_is(l, &['G', '2', '1']) || label_is(
        l,
        &['G', '8', '0'],
    ) || label_is(l, &['M', '8', '3']) || label_is(l, &['M', '2', '0', '1']) || label_is(
        l,
        &['M', '2', '0', '3'],
    ) || label_is(l, &['M', '2', '0', '4']) || label_is(l, &['M', '1', '9', '0']) || label_is(
        l,
        &['M', '1', '1', '5'],
    ) || label_is(l, &['M', '8', '6', '2']) || label_is(l, &['M', '9', '0', '7']) || label_is(
        l,
        &['M', '2', '2', '1'],
    )
}

/// Whether a read line can be built without overflow.
pub fn line_fits_check(line: &Line, setting: &Settings) -> (r: bool)
    ensures
        r == line_fits(line@, *setting),
{
    match line {
        Line::Blank => true,
        Line::Code { label, fields } => {
            if label_is(label, &['G', '0']) || label_is(label, &['G', '1']) || label_is(
                label,
                &['G', '9', '2'],
            ) {
                move_fits_check(fields.as_slice(), setting)
            } else if label_is(label, &['G', '4']) {
                pause_fits_check(fields.as_slice())
            } else {
                true
            }
        },
    }
}

/// Builds the command of a read line.
pub fn parse(line: &Line, setting: &Settings) -> (r: Result<Command, ParseGcodeError>)
    requires
        line_fits(line@, *setting),
    ensures
        match r {
            Ok(c) => spec_parse(line@, *setting) == Ok::<CommandView, ParseGcodeError>(c@),
            Err(_) => spec_parse(line@, *setting) is Err,
        },
{
    match line {
        Line::Blank => Ok(Command::Void(Void)),
        Line::Code { label, fields } => {
            let params = fields.as_slice();
            if label_is(label, &['G', '0']) || label_is(label, &['G', '1']) {
                Ok(Command::G0(G0::new(params, setting)?))
            } else if label_is(label, &['G', '4']) {
                Ok(Command::G4(G4::new(params, setting)?))
            } else if label_is(label, &['G', '2', '8']) {
                Ok(Command::G28(G28::new(params, setting)?))
            } else if label_is(label, &['G', '9', '2']) {
                Ok(Command::G92(G92::new(params, setting)?))
            } else if label_is(label, &['M', '7', '3']) {
                Ok(Command::M73(M73::new(params, setting)?))
            } else if label_is(label, &['M', '8', '4']) {
                Ok(Command::M84(M84::new(params, setting)?))
            } else if ignored_label(label) {
                Ok(Command::Void(Void))
            } else {
                Err(ParseGcodeError)
            }
        },
    }
}


/// Whatever follows a `;` is a comment: it changes neither how a line is
/// split nor whether it can be.
pub proof fn lemma_comment_ignored(line: Seq<char>, comment: Seq<char>)
    ensures
        spec_tokens(line + seq![';'] + comment) == spec_tokens(line),
        fields_split_cleanly(line + seq![';'] + comment) == fields_split_cleanly(line),
{
    crate::text::lemma_before_char_appended(line, ';', comment);
}

/// Blanks around a line change neither how it is split nor whether it can be.
pub proof fn lemma_blanks_ignored(before: Seq<char>, line: Seq<char>, after: Seq<char>)
    requires
        all_ws(before),
        all_ws(after),
    ensures
        spec_tokens(before + line + after) == spec_tokens(line),
        fields_split_cleanly(before + line + after) == fields_split_cleanly(line),
{
    assert forall|i: int| 0 <= i < before.len() implies before[i] != ';' by {
        assert(is_ws(before[i]));
    }
    assert forall|i: int| 0 <= i < after.len() implies after[i] != ';' by {
        assert(is_ws(after[i]));
    }
    let padded = before + line + after;
    assert(padded =~= before + (line + after));
    crate::text::lemma_before_char_prefixed(before, line + after, ';');
    crate::text::lemma_before_char_suffixed(line, after, ';');
    let head = before_char(line, ';');
    if find_char(line, ';') is None {
        assert(before + (head + after) =~= before + head + after);
        crate::text::lemma_trim_padded(before, head, after);
    } else {
        assert(before + head =~= before + head + seq![]);
        crate::text::lemma_trim_padded(before, head, seq![]);
    }
    assert(code_of(padded) == code_of(line));
}

/// The labels accepted and ignored: the bed is plain (`G90`, `M140`), there
/// is no extruder yet (`M104`, `M109`, `M106`, `M107`, `M900`), the settings
/// they set are fixed (`G21`, `G80`, `M83`, `M201`, `M203`, `M204`, `M190`),
/// and the rest carry nothing for the printer (`M115`, `M862`, `M907`,
/// `M221`). Whatever their fields, such a line reads to a command that does
/// nothing.
pub proof fn lemma_ignored_labels(fields: Seq<Field>, s: Settings)
    ensures
        spec_parse(Some((seq!['G', '9', '0'], fields)), s) == Ok::<CommandView, ParseGcodeError>(CommandView::Void),
        spec_parse(Some((seq!['M', '1', '4', '0'], fields)), s) == Ok::<CommandView, ParseGcodeError>(CommandView::Void),
        spec_parse(Some((seq!['M', '1', '0', '4'], fields)), s) == Ok::<CommandView, ParseGcodeError>(CommandView::Void),
        spec_parse(Some((seq!['M', '1', '0', '9'], fields)), s) == Ok::<CommandView, ParseGcodeError>(CommandView::Void),
        spec_parse(Some((seq!['M', '1', '0', '6'], fields)), s) == Ok::<CommandView, ParseGcodeError>(CommandView::Void),
        spec_parse(Some((seq!['M', '1', '0', '7'], fields)), s) == Ok::<CommandView, ParseGcodeError>(CommandView::Void),
        spec_parse(Some((seq!['M', '9', '0', '0'], fields)), s) == Ok::<CommandView, ParseGcodeError>(CommandView::Void),
        spec_parse(Some((seq!['G', '2', '1'], fields)), s) == Ok::<CommandView, ParseGcodeError>(CommandView::Void),
        spec_parse(Some((seq!['G', '8', '0'], fields)), s) == Ok::<CommandView, ParseGcodeError>(CommandView::Void),
        spec_parse(Some((seq!['M', '8', '3'], fields)), s) == Ok::<CommandView, ParseGcodeError>(CommandView::Void),
        spec_parse(Some((seq!['M', '2', '0', '1'], fields)), s) == Ok::<CommandView, ParseGcodeError>(CommandView::Void),
        spec_parse(Some((seq!['M', '2', '0', '3'], fields)), s) == Ok::<CommandView, ParseGcodeError>(CommandView::Void),
        spec_parse(Some((seq!['M', '2', '0', '4'], fields)), s) == Ok::<CommandView, ParseGcodeError>(CommandView::Void),
        spec_parse(Some((seq!['M', '1', '9', '0'], fields)), s) == Ok::<CommandView, ParseGcodeError>(CommandView::Void),
        spec_parse(Some((seq!['M', '1', '1', '5'], fields)), s) == Ok::<CommandView, ParseGcodeError>(CommandView::Void),
        spec_parse(Some((seq!['M', '8', '6', '2'], fields)), s) == Ok::<CommandView, ParseGcodeError>(CommandView::Void),
        spec_parse(Some((seq!['M', '9', '0', '7'], fields)), s) == Ok::<CommandView, ParseGcodeError>(CommandView::Void),
        spec_parse(Some((seq!['M', '2', '2', '1'], fields)), s) == Ok::<CommandView, ParseGcodeError>(CommandView::Void),
{
}

} // verus!
