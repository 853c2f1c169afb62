//! G-code lines as a command code with lettered arguments.
use vstd::prelude::*;
use crate::text::{
    before_char, split_once_char, words, views, is_one_byte, before, find, copy_range, split_words,
    char_at, chars_of,
};
use crate::printer::gcode::{Token, lemma_words_nonempty};
use vstd::pervasive::unreached;

verus! {

/// A command code: `G` or `M` with its number.
#[derive(Debug, Clone, Copy, PartialEq, Eq, Structural)]
pub enum Command {
    G(u16),
    M(u16),
}

#[derive(Debug, Clone, Copy, PartialEq, Eq, Structural)]
pub struct ParseCommandError;

/// An argument of a command, with its value as a binary32 bit pattern.
pub enum Arg {
    X(u32),
    Y(u32),
    Z(u32),
    E(u32),
    F(u32),
    S(u32),
    NotImplementedYet(String),
}

pub open spec fn is_digit(c: char) -> bool {
    '0' <= c && c <= '9'
}

/// Value of a string of decimal digits.
pub open spec fn decimal_value(s: Seq<char>) -> int
    decreases s.len(),
{
    if s.len() == 0 {
        0
    } else {
        decimal_value(s.drop_last()) * 10 + (s.last() as int - '0' as int)
    }
}

/// The text after an optional leading `+`.
pub open spec fn unsigned_digits(s: Seq<char>) -> Seq<char> {
    if s.len() > 0 && s[0] == '+' {
        s.drop_first()
    } else {
        s
    }
}

pub open spec fn all_digits(d: Seq<char>) -> bool {
    forall|i: int| 0 <= i < d.len() ==> is_digit(#[trigger] d[i])
}

/// `u16::from_str`: an optional `+`, then at least one decimal digit, for a
/// value that fits in 16 bits.
pub open spec fn spec_parse_u16(s: Seq<char>) -> Option<u16> {
    let d = unsigned_digits(s);
    if d.len() > 0 && all_digits(d) && decimal_value(d) <= u16::MAX {
        Some(decimal_value(d) as u16)
    } else {
        None
    }
}

proof fn lemma_decimal_grows(d: Seq<char>, k: int)
    requires
        0 <= k <= d.len(),
        all_digits(d),
    ensures
        0 <= decimal_value(d.take(k)) <= decimal_value(d),
    decreases d.len(),
{
    if k < d.len() {
        assert(d.drop_last().take(k) =~= d.take(k));
        lemma_decimal_grows(d.drop_last(), k);
        assert(is_digit(d[d.len() - 1]));
    } else {
        assert(d.take(k) =~= d);
        if d.len() > 0 {
            lemma_decimal_grows(d.drop_last(), d.len() - 1);
            assert(d.drop_last().take(d.len() - 1) =~= d.drop_last());
            assert(is_digit(d[d.len() - 1]));
        }
    }
}

/// Reads a decimal `u16` (`u16::from_str`).
pub fn parse_u16(s: &Vec<char>) -> (r: Option<u16>)
    ensures
        r == spec_parse_u16(s@),
{
    let start: usize = if s.len() > 0 && char_at(s, 0) == '+' { 1 } else { 0 };
    let ghost d = unsigned_digits(s@);
    assert(d =~= s@.skip(start as int));
    if start >= s.len() {
        return None;
    }
    let mut v: u32 = 0;
    let mut i: usize = start;
    while i < s.len()
        invariant
            start <= i <= s.len(),
            d =~= s@.skip(start as int),
            d == unsigned_digits(s@),
            forall|j: int| 0 <= j < i - start ==> is_digit(#[trigger] d[j]),
            v == decimal_value(d.take(i - start)),
            v <= 0xffff,
        decreases s.len() - i,
    {
        let c = char_at(s, i);
        assert(d[i - start] == c);
        if !('0' <= c && c <= '9') {
            assert(!is_digit(d[i - start]));
            assert(!all_digits(d));
            return None;
        }
        assert(d.take(i - start + 1).drop_last() =~= d.take(i - start));
        assert(d.take(i - start + 1).last() == c);
        v = v * 10 + (c as u32 - '0' as u32);
        i = i + 1;
        assert(v == decimal_value(d.take(i - start)));
        if v > 0xffff {
            proof {
                if all_digits(d) {
                    lemma_decimal_grows(d, i - start);
                }
            }
            return None;
        }
    }
    assert(d.take(i - start) =~= d);
    Some(v as u16)
}

/// `str::to_uppercase`, on characters.
pub uninterp spec fn uppercase(s: Seq<char>) -> Seq<char>;

/// Calls `str::to_uppercase` (std) on the string of `s`. Claimed: the result
/// depends on `s` alone, and is named `uppercase(s)`; nothing more of the
/// Unicode case mapping is stated.
#[verifier::external_body]
fn to_uppercase(s: &Vec<char>) -> (r: Vec<char>)
    ensures
        r@ == uppercase(s@),
{
    s.iter().collect::<String>().to_uppercase().chars().collect()
}

/// The command of an upper-cased code: its first character is `G` or `M`, the
/// rest is the number.
pub open spec fn spec_command(up: Seq<char>) -> Result<Command, ParseCommandError> {
    match spec_parse_u16(up.drop_first()) {
        None => Err(ParseCommandError),
        Some(id) => if up[0] == 'G' {
            Ok(Command::G(id))
        } else if up[0] == 'M' {
            Ok(Command::M(id))
        } else {
            Err(ParseCommandError)
        },
    }
}

/// The upper-cased code splits after its first byte.
pub open spec fn splits_after_first(up: Seq<char>) -> bool {
    up.len() > 0 && is_one_byte(up[0])
}

impl Command {
    /// The command of an upper-cased code.
    pub fn from_upper(up: &Vec<char>) -> (r: Result<Command, ParseCommandError>)
        requires
            splits_after_first(up@),
        ensures
            r == spec_command(up@),
    {
        let code = char_at(up, 0);
        let id_text = copy_range(up, 1, up.len());
        assert(id_text@ =~= up@.drop_first());
        let id = match parse_u16(&id_text) {
            Some(id) => id,
            None => return Err(ParseCommandError),
        };
        if code == 'G' {
            Ok(Command::G(id))
        } else if code == 'M' {
            Ok(Command::M(id))
        } else {
            Err(ParseCommandError)
        }
    }

    /// Reads a command code such as `G1` or `m73`.
    pub fn from_str(s: &str) -> (r: Result<Command, ParseCommandError>)
        requires
            splits_after_first(uppercase(s@)),
        ensures
            r == spec_command(uppercase(s@)),
    {
        let chars = chars_of(s);
        let up = to_uppercase(&chars);
        Command::from_upper(&up)
    }

    /// Reads a command code, or `None` where its upper-cased form cannot be
    /// split after its first byte.
    pub fn try_from_str(s: &str) -> (r: Option<Result<Command, ParseCommandError>>)
        ensures
            r is Some <==> splits_after_first(uppercase(s@)),
            r matches Some(c) ==> c == spec_command(uppercase(s@)),
    {
        let chars = chars_of(s);
        let up = to_uppercase(&chars);
        if up.len() > 0 && (char_at(&up, 0) as u32) < 0x80 {
            Some(Command::from_str(s))
        } else {
            None
        }
    }
}

/// The arguments as a map: a later argument of a letter replaces an earlier one.
pub open spec fn args_map(pairs: Seq<(char, u32)>) -> Map<char, u32>
    decreases pairs.len(),
{
    if pairs.len() == 0 {
        Map::empty()
    } else {
        args_map(pairs.drop_last()).insert(pairs.last().0, pairs.last().1)
    }
}

/// A command with its arguments.
pub struct GCode {
    pub command: Command,
    pub args: Vec<(char, u32)>,
}

impl GCode {
    pub open spec fn args_view(&self) -> Map<char, u32> {
        args_map(self.args@)
    }

    pub fn new(command: Command, args: Vec<(char, u32)>) -> (g: GCode)
        ensures
            g.command == command,
            g.args_view() == args_map(args@),
    {
        GCode { command, args }
    }

    /// The value of the argument of a letter.
    pub fn arg(&self, letter: char) -> (r: Option<u32>)
        ensures
            r is Some <==> self.args_view().contains_key(letter),
            r matches Some(v) ==> v == self.args_view()[letter],
    {
        let mut j: usize = self.args.len();
        assert(self.args@.take(j as int) =~= self.args@);
        while j > 0
            invariant
                j <= self.args.len(),
                forall|k: int| j <= k < self.args@.len() ==> (#[trigger] self.args@[k]).0 != letter,
                args_map(self.args@).contains_key(letter) == args_map(self.args@.take(j as int)).contains_key(letter),
                args_map(self.args@).contains_key(letter) ==> args_map(self.args@)[letter] == args_map(self.args@.take(j as int))[letter],
            decreases j,
        {
            let (c, v) = self.args[j - 1];
            assert(self.args@.take(j as int).drop_last() =~= self.args@.take(j - 1));
            assert(self.args@[j - 1] == (c, v));
            if c == letter {
                return Some(v);
            }
            j = j - 1;
        }
        assert(self.args@.take(0) =~= Seq::<(char, u32)>::empty());
        None
    }
}

/// The part of a line before any `;`.
pub open spec fn head_of(line: Seq<char>) -> Seq<char> {
    before_char(line, ';')
}

/// The command code of a line: up to its first space.
pub open spec fn code_text(line: Seq<char>) -> Seq<char> {
    split_once_char(head_of(line), ' ').unwrap().0
}

/// The argument words of a line: after its first space.
pub open spec fn arg_words(line: Seq<char>) -> Seq<Seq<char>> {
    words(split_once_char(head_of(line), ' ').unwrap().1)
}

/// The line has a space before any `;`, and each argument word starts with a
/// one-byte character.
pub open spec fn line_splits(line: Seq<char>) -> bool {
    &&& split_once_char(head_of(line), ' ') is Some
    &&& forall|i: int| 0 <= i < arg_words(line).len() ==> is_one_byte(#[trigger] arg_words(line)[i][0])
}

/// The argument pairs of a line: each word's first character with the
/// value read from the rest of the word.
pub open spec fn arg_pairs(line: Seq<char>, values: Seq<u32>) -> Seq<(char, u32)> {
    Seq::new(arg_words(line).len(), |i: int| (arg_words(line)[i][0], values[i]))
}

/// The line reads without failing, given the values of its arguments.
pub open spec fn line_parses(line: Seq<char>, values: Seq<u32>) -> bool {
    &&& line_splits(line)
    &&& values.len() == arg_words(line).len()
    &&& splits_after_first(uppercase(code_text(line)))
    &&& spec_command(uppercase(code_text(line))) is Ok
}

/// The command code and the argument tokens of a line.
pub fn split_line(line: &Vec<char>) -> (r: (Vec<char>, Vec<Token>))
    requires
        line_splits(line@),
    ensures
        r.0@ == code_text(line@),
        r.1@.len() == arg_words(line@).len(),
        forall|i: int|
            0 <= i < r.1@.len() ==> (#[trigger] r.1@[i])@ == (arg_words(line@)[i][0], arg_words(line@)[i].drop_first()),
{
    let head = before(line, ';');
    proof {
        crate::text::lemma_find_char_found(head@, ' ');
    }
    let i = match find(&head, ' ') {
        Some(i) => i,
        None => unreached(),
    };
    let code = copy_range(&head, 0, i);
    let params = copy_range(&head, i + 1, head.len());
    assert(code@ =~= code_text(line@));
    assert(params@ =~= split_once_char(head_of(line@), ' ').unwrap().1);
    let ws = split_words(&params);
    proof {
        lemma_words_nonempty(params@);
    }
    let ghost aw = arg_words(line@);
    let mut tokens: Vec<Token> = Vec::new();
    let mut k: usize = 0;
    while k < ws.len()
        invariant
            k <= ws.len(),
            views(ws@) == aw,
            forall|j: int| 0 <= j < aw.len() ==> #[trigger] aw[j].len() > 0,
            tokens@.len() == k,
            forall|j: int| 0 <= j < k ==> (#[trigger] tokens@[j])@ == (aw[j][0], aw[j].drop_first()),
        decreases ws.len() - k,
    {
        let w = &ws[k];
        assert(w@ == aw[k as int]);
        let letter = char_at(w, 0);
        let text = copy_range(w, 1, w.len());
        assert(text@ =~= aw[k as int].drop_first());
        tokens.push(Token { letter, text });
        k = k + 1;
    }
    (code, tokens)
}

/// Reads a line, given the values (binary32 bit patterns) of its arguments.
pub fn parse_line(line: &Vec<char>, values: &Vec<u32>) -> (g: GCode)
    requires
        line_parses(line@, values@),
    ensures
        Ok::<Command, ParseCommandError>(g.command) == spec_command(uppercase(code_text(line@))),
        g.args_view() == args_map(arg_pairs(line@, values@)),
{
    let (code, tokens) = split_line(line);
    let up = to_uppercase(&code);
    let command = match Command::from_upper(&up) {
        Ok(c) => c,
        Err(_) => unreached(),
    };
    let mut args: Vec<(char, u32)> = Vec::new();
    let mut k: usize = 0;
    while k < tokens.len()
        invariant
            k <= tokens.len() == values.len(),
            tokens@.len() == arg_words(line@).len(),
            forall|i: int|
                0 <= i < tokens@.len() ==> (#[trigger] tokens@[i])@ == (arg_words(line@)[i][0], arg_words(line@)[i].drop_first()),
            args@ == arg_pairs(line@, values@).take(k as int),
        decreases tokens.len() - k,
    {
        assert(tokens@[k as int]@ == (arg_words(line@)[k as int][0], arg_words(line@)[k as int].drop_first()));
        args.push((tokens[k].letter, values[k]));
        assert(args@ =~= arg_pairs(line@, values@).take(k + 1));
        k = k + 1;
    }
    assert(arg_pairs(line@, values@).take(k as int) =~= arg_pairs(line@, values@));
    GCode::new(command, args)
}

/// Whether a line reads without failing, given the values of its arguments.
pub fn line_parses_check(line: &Vec<char>, values: &Vec<u32>) -> (r: bool)
    ensures
        r == line_parses(line@, values@),
{
    let head = before(line, ';');
    proof {
        crate::text::lemma_find_char_found(head@, ' ');
    }
    let i = match find(&head, ' ') {
        Some(i) => i,
        None => return false,
    };
    let code = copy_range(&head, 0, i);
    let params = copy_range(&head, i + 1, head.len());
    assert(code@ =~= code_text(line@));
    assert(params@ =~= split_once_char(head_of(line@), ' ').unwrap().1);
    let ws = split_words(&params);
    proof {
        lemma_words_nonempty(params@);
    }
    let ghost aw = arg_words(line@);
    let mut k: usize = 0;
    while k < ws.len()
        invariant
            k <= ws.len(),
            views(ws@) == aw,
            aw == arg_words(line@),
            forall|j: int| 0 <= j < aw.len() ==> #[trigger] aw[j].len() > 0,
            forall|j: int| 0 <= j < k ==> is_one_byte(#[trigger] aw[j][0]),
        decreases ws.len() - k,
    {
        assert(ws@[k as int]@ == aw[k as int]);
        if (char_at(&ws[k], 0) as u32) >= 0x80 {
            return false;
        }
        k = k + 1;
    }
    if values.len() != ws.len() {
        return false;
    }
    let up = to_uppercase(&code);
    if !(up.len() > 0 && (char_at(&up, 0) as u32) < 0x80) {
        return false;
    }
    Command::from_upper(&up).is_ok()
}

} // verus!
