//! Reading a G-code line as a sequence of lettered codes.
use vstd::prelude::*;
use crate::text::{words, views, is_one_byte, split_words, char_at, copy_range};
use crate::printer::gcode::lemma_words_nonempty;

verus! {

/// A letter with its value (a binary32 bit pattern).
#[derive(Debug, Clone, Copy, PartialEq, Eq, Structural)]
pub struct Code {
    pub key: char,
    pub value: u32,
}

impl Code {
    /// The code of a word: its first character, with `value`, the reading of the
    /// rest of the word.
    pub fn new(raw: &Vec<char>, value: u32) -> (c: Code)
        requires
            raw@.len() > 0,
            is_one_byte(raw@[0]),
        ensures
            c == (Code { key: raw@[0], value }),
    {
        Code { key: char_at(raw, 0), value }
    }
}

/// A line: its first code, and the codes after it.
pub struct GcodeLine {
    pub code: Code,
    pub args: Vec<Code>,
}

/// The line has a word, and each word starts with a one-byte character.
pub open spec fn codes_split(line: Seq<char>) -> bool {
    &&& words(line).len() > 0
    &&& forall|i: int| 0 <= i < words(line).len() ==> is_one_byte(#[trigger] words(line)[i][0])
}

/// The code of word `i` of a line, with its value.
pub open spec fn word_code(line: Seq<char>, values: Seq<u32>, i: int) -> Code {
    Code { key: words(line)[i][0], value: values[i] }
}

/// The texts of the values of a line: each word without its first character.
pub fn value_texts(line: &Vec<char>) -> (r: Vec<Vec<char>>)
    requires
        codes_split(line@),
    ensures
        r@.len() == words(line@).len(),
        forall|i: int| 0 <= i < r@.len() ==> (#[trigger] r@[i])@ == words(line@)[i].drop_first(),
{
    let ws = split_words(line);
    proof {
        lemma_words_nonempty(line@);
    }
    let mut r: Vec<Vec<char>> = Vec::new();
    let mut k: usize = 0;
    while k < ws.len()
        invariant
            k <= ws.len(),
            views(ws@) == words(line@),
            forall|j: int| 0 <= j < words(line@).len() ==> #[trigger] words(line@)[j].len() > 0,
            r@.len() == k,
            forall|j: int| 0 <= j < k ==> (#[trigger] r@[j])@ == words(line@)[j].drop_first(),
        decreases ws.len() - k,
    {
        assert(ws@[k as int]@ == words(line@)[k as int]);
        let text = copy_range(&ws[k], 1, ws[k].len());
        assert(text@ =~= words(line@)[k as int].drop_first());
        r.push(text);
        k = k + 1;
    }
    r
}

/// Reads a line, given the values of its words.
pub fn parse_line(line: &Vec<char>, values: &Vec<u32>) -> (g: GcodeLine)
    requires
        codes_split(line@),
        values@.len() == words(line@).len(),
    ensures
        g.code == word_code(line@, values@, 0),
        g.args@ == Seq::new((words(line@).len() - 1) as nat, |i: int| word_code(line@, values@, i + 1)),
{
    let ws = split_words(line);
    proof {
        lemma_words_nonempty(line@);
    }
    assert(ws@[0]@ == words(line@)[0]);
    let code = Code::new(&ws[0], values[0]);
    let mut args: Vec<Code> = Vec::new();
    let mut k: usize = 1;
    while k < ws.len()
        invariant
            1 <= k <= ws.len() == values.len(),
            views(ws@) == words(line@),
            forall|j: int| 0 <= j < words(line@).len() ==> #[trigger] words(line@)[j].len() > 0,
            codes_split(line@),
            args@ == Seq::new((k - 1) as nat, |i: int| word_code(line@, values@, i + 1)),
        decreases ws.len() - k,
    {
        assert(ws@[k as int]@ == words(line@)[k as int]);
        assert(is_one_byte(words(line@)[k as int][0]));
        let c = Code::new(&ws[k], values[k]);
        args.push(c);
        assert(args@ =~= Seq::new(k as nat, |i: int| word_code(line@, values@, i + 1)));
        k = k + 1;
    }
    GcodeLine { code, args }
}

} // verus!
