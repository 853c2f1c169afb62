//! Keeps a program as a list of commands with their arguments.
pub mod gcode;

use vstd::prelude::*;
use crate::text::{split, chars_of, split_pieces, views};
use self::gcode::{Command, GCode, line_parses, line_parses_check, parse_line, spec_command, uppercase, code_text, args_map, arg_pairs};

verus! {

pub struct GcodeManager {
    pub printing: bool,
    _gcode: Vec<GCode>,
}

/// The value of a read line: its command and its arguments.
pub open spec fn gcode_view(g: GCode) -> (Command, Map<char, u32>) {
    (g.command, g.args_view())
}

/// The value a line reads to, given the values of its arguments.
pub open spec fn spec_line(line: Seq<char>, values: Seq<u32>) -> (Command, Map<char, u32>) {
    (spec_command(uppercase(code_text(line)))->Ok_0, args_map(arg_pairs(line, values)))
}

/// The value of a manager: whether it prints, and its program.
pub struct ManagerView {
    pub printing: bool,
    pub program: Seq<(Command, Map<char, u32>)>,
}

impl View for GcodeManager {
    type V = ManagerView;

    closed spec fn view(&self) -> ManagerView {
        ManagerView {
            printing: self.printing,
            program: self._gcode@.map_values(|g: GCode| gcode_view(g)),
        }
    }
}

impl GcodeManager {
    pub fn new() -> (m: GcodeManager)
        ensures
            !m@.printing,
            m@.program == Seq::<(Command, Map<char, u32>)>::empty(),
    {
        let m = GcodeManager { printing: false, _gcode: Vec::new() };
        assert(m@.program =~= Seq::<(Command, Map<char, u32>)>::empty());
        m
    }

    /// Replaces the program with the lines given, each with the values of its
    /// arguments.
    pub fn load_lines(&mut self, lines: &Vec<Vec<char>>, values: &Vec<Vec<u32>>)
        requires
            lines.len() == values.len(),
            forall|i: int| 0 <= i < lines.len() ==> line_parses(#[trigger] lines@[i]@, values@[i]@),
        ensures
            final(self)@.printing == old(self)@.printing,
            final(self)@.program == Seq::new(lines@.len(), |i: int| spec_line(lines@[i]@, values@[i]@)),
    {
        self._gcode.clear();
        assert(self@.program =~= Seq::new(0 as nat, |j: int| spec_line(lines@[j]@, values@[j]@)));
        let mut i: usize = 0;
        while i < lines.len()
            invariant
                i <= lines.len() == values.len(),
                forall|j: int| 0 <= j < lines.len() ==> line_parses(#[trigger] lines@[j]@, values@[j]@),
                self@.printing == old(self)@.printing,
                self@.program == Seq::new(i as nat, |j: int| spec_line(lines@[j]@, values@[j]@)),
            decreases lines.len() - i,
        {
            assert(line_parses(lines@[i as int]@, values@[i as int]@));
            let ghost prev = self._gcode@;
            let g = parse_line(&lines[i], &values[i]);
            self._gcode.push(g);
            assert(gcode_view(g) == spec_line(lines@[i as int]@, values@[i as int]@));
            assert(self._gcode@.map_values(|g: GCode| gcode_view(g)) =~= prev.map_values(|g: GCode| gcode_view(g)).push(gcode_view(g)));
            assert(self@.program =~= Seq::new((i + 1) as nat, |j: int| spec_line(lines@[j]@, values@[j]@)));
            i = i + 1;
        }
    }

    /// Loads the lines when every one of them reads without failing; returns
    /// whether it did.
    pub fn try_load_lines(&mut self, lines: &Vec<Vec<char>>, values: &Vec<Vec<u32>>) -> (r: bool)
        ensures
            r == (lines.len() == values.len() && forall|i: int|
                0 <= i < lines.len() ==> line_parses(#[trigger] lines@[i]@, values@[i]@)),
            r ==> final(self)@.program == Seq::new(lines@.len(), |i: int| spec_line(lines@[i]@, values@[i]@)),
            !r ==> final(self)@ == old(self)@,
            final(self)@.printing == old(self)@.printing,
    {
        if lines.len() != values.len() {
            return false;
        }
        let mut i: usize = 0;
        while i < lines.len()
            invariant
                i <= lines.len() == values.len(),
                forall|j: int| 0 <= j < i ==> line_parses(#[trigger] lines@[j]@, values@[j]@),
            decreases lines.len() - i,
        {
            if !line_parses_check(&lines[i], &values[i]) {
                return false;
            }
            i = i + 1;
        }
        self.load_lines(lines, values);
        true
    }

    /// Replaces the program with the lines of `code` (its pieces between `\n`),
    /// each with the values of its arguments.
    pub fn load_gcode(&mut self, code: &str, values: &Vec<Vec<u32>>)
        requires
            values.len() == split_pieces(code@, '\n').len(),
            forall|i: int|
                0 <= i < values.len() ==> line_parses(
                    #[trigger] split_pieces(code@, '\n')[i],
                    values@[i]@,
                ),
        ensures
            final(self)@.printing == old(self)@.printing,
            final(self)@.program == Seq::new(
                values@.len(),
                |i: int| spec_line(split_pieces(code@, '\n')[i], values@[i]@),
            ),
    {
        let lines = split(&chars_of(code), '\n');
        assert forall|i: int| 0 <= i < lines.len() implies lines@[i]@ == split_pieces(code@, '\n')[i] by {
            assert(views(lines@)[i] == lines@[i]@);
        }
        assert(views(lines@).len() == lines@.len());
        assert forall|i: int| 0 <= i < lines.len() implies line_parses(#[trigger] lines@[i]@, values@[i]@) by {
            assert(views(lines@)[i] == lines@[i]@);
            assert(line_parses(split_pieces(code@, '\n')[i], values@[i]@));
        }
        self.load_lines(&lines, values);
        assert(self@.program =~= Seq::new(
            values@.len(),
            |i: int| spec_line(split_pieces(code@, '\n')[i], values@[i]@),
        ));
    }

    /// Loads the lines of `code` when every one of them reads without failing;
    /// returns whether it did.
    pub fn try_load_gcode(&mut self, code: &str, values: &Vec<Vec<u32>>) -> (r: bool)
        ensures
            r == (values.len() == split_pieces(code@, '\n').len() && forall|i: int|
                0 <= i < values.len() ==> line_parses(
                    #[trigger] split_pieces(code@, '\n')[i],
                    values@[i]@,
                )),
            r ==> final(self)@.program == Seq::new(
                values@.len(),
                |i: int| spec_line(split_pieces(code@, '\n')[i], values@[i]@),
            ),
            !r ==> final(self)@ == old(self)@,
            final(self)@.printing == old(self)@.printing,
    {
        let lines = split(&chars_of(code), '\n');
        assert forall|i: int| 0 <= i < lines.len() implies lines@[i]@ == split_pieces(code@, '\n')[i] by {
            assert(views(lines@)[i] == lines@[i]@);
        }
        assert(views(lines@).len() == lines@.len());
        let r = self.try_load_lines(&lines, values);
        assert((values.len() == lines.len() && forall|i: int| 0 <= i < lines.len() ==> line_parses(#[trigger] lines@[i]@, values@[i]@))
            == (values.len() == split_pieces(code@, '\n').len() && forall|i: int|
            0 <= i < values.len() ==> line_parses(#[trigger] split_pieces(code@, '\n')[i], values@[i]@))) by {
            if values.len() == lines.len() {
                assert forall|i: int| 0 <= i < lines.len() implies #[trigger] lines@[i]@ == split_pieces(code@, '\n')[i] by {
                    assert(views(lines@)[i] == lines@[i]@);
                }
            }
        }
        if r {
            assert(self@.program =~= Seq::new(
                values@.len(),
                |i: int| spec_line(split_pieces(code@, '\n')[i], values@[i]@),
            ));
        }
        r
    }

    /// Whether there is a program to print.
    pub fn start_printing(&self) -> (r: bool)
        ensures
            r == (self@.program.len() > 0),
    {
        self._gcode.len() > 0
    }

    /// The controller completed a command: nothing to do yet.
    pub fn on_command_end(&mut self)
        ensures
            final(self)@ == old(self)@,
    {
    }
}

} // verus!
