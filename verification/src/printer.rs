//! The printer: its settings, the position encoders of the axes, and the
//! state machine that feeds commands to the motor controller.
pub mod gcode;
pub mod serial;

use vstd::prelude::*;
use vstd::pervasive::unreached;
use crate::text::{
    split, strip_last_char, chars_of, split_pieces, strip_last, views, crlf, scan_pieces, lemma_scan_crlf,
};
use self::gcode::{
    Command, CommandView, ConfigNote, Line, ParseGcodeError, spec_parse, line_fits, spec_scope,
    line_fits_check,
    spec_data, spec_config_note, spec_run_pi, spec_run_note, scope,
};
use self::gcode::gcommands::G4;
use self::gcode::mcommands::ProgressNote;
use self::serial::{frame, spec_frame};

verus! {

/// Commands sent ahead of the one the controller is executing.
pub const BUFFERED_INSTRUCTIONS: usize = 4;

/// Progress of a running print.
#[derive(Clone, Copy, PartialEq, Eq, Debug, Structural)]
pub struct PrintStatus {
    pub sent: usize,
    pub completed: usize,
    pub progress: u8,
    pub time_left: u16,
    pub silent_progress: u8,
    pub silent_time_left: u16,
}

#[derive(Clone, Copy, PartialEq, Eq, Debug, Structural)]
pub enum State {
    Initializing,
    Idle,
    Printing(PrintStatus),
}

/// Conversion between millimetres and controller positions on one axis.
#[derive(Clone, Copy, PartialEq, Eq, Debug, Structural)]
pub struct Encoder {
    pub resolution: u16,
    pub offset: i16,
}

#[derive(Clone, Copy, PartialEq, Eq, Debug, Structural)]
pub struct Settings {
    pub x_coder: Encoder,
    pub y_coder: Encoder,
    pub z_coder: Encoder,
    pub abs_pos: bool,
    pub abs_ext: bool,
}

/// `x as u16` for an `x` in the range of `i16`.
pub open spec fn wrap_u16(x: int) -> int {
    if x < 0 {
        x + 0x1_0000
    } else {
        x
    }
}

/// `x as i16` for an `x` in the range of `u16`.
pub open spec fn wrap_i16(x: int) -> int {
    if x > 0x7fff {
        x - 0x1_0000
    } else {
        x
    }
}

impl Encoder {
    /// Controller position of `mm` millimetres: `((mm + offset) as u16) * resolution`.
    pub open spec fn spec_position(self, mm: i16) -> int {
        wrap_u16(mm + self.offset) * self.resolution
    }

    /// `postion` computes without overflow.
    pub open spec fn position_fits(self, mm: i16) -> bool {
        &&& i16::MIN <= mm + self.offset <= i16::MAX
        &&& self.spec_position(mm) <= u16::MAX
    }

    /// Millimetres of a controller position: `(position / resolution) as i16 - offset`.
    pub open spec fn spec_mm(self, position: u16) -> int {
        wrap_i16((position / self.resolution) as int) - self.offset
    }

    /// `mm` computes without dividing by zero or overflowing.
    pub open spec fn mm_fits(self, position: u16) -> bool {
        &&& self.resolution > 0
        &&& i16::MIN <= self.spec_mm(position) <= i16::MAX
    }

    pub fn postion(&self, mm: i16) -> (r: u16)
        requires
            self.position_fits(mm),
        ensures
            r == self.spec_position(mm),
    {
        let s: i16 = mm + self.offset;
        assert(s < 0 ==> s as u16 == s + 0x1_0000) by (bit_vector);
        assert(s >= 0 ==> s as u16 == s) by (bit_vector);
        (s as u16) * self.resolution
    }

    /// Whether `postion` computes without overflow for `mm`.
    pub fn position_fits_check(&self, mm: i16) -> (r: bool)
        ensures
            r == self.position_fits(mm),
    {
        let s: i32 = mm as i32 + self.offset as i32;
        if s < i16::MIN as i32 || s > i16::MAX as i32 {
            return false;
        }
        let w: u64 = if s < 0 { (s + 0x1_0000) as u64 } else { s as u64 };
        assert(w == wrap_u16(mm + self.offset));
        assert(w * self.resolution <= 0xffff * 0xffff) by (nonlinear_arith)
            requires w <= 0xffff, self.resolution <= 0xffff;
        w * (self.resolution as u64) <= u16::MAX as u64
    }

    pub fn mm(&self, position: u16) -> (r: i16)
        requires
            self.mm_fits(position),
        ensures
            r == self.spec_mm(position),
    {
        let q: u16 = position / self.resolution;
        assert(q > 0x7fff ==> q as i16 == q - 0x1_0000) by (bit_vector);
        assert(q <= 0x7fff ==> q as i16 == q) by (bit_vector);
        (q as i16) - self.offset
    }
}

/// Reading back a position gives the millimetres it was computed from, for
/// every position on the positive side of the offset that fits in 16 bits.
pub proof fn lemma_mm_undoes_position(enc: Encoder, mm: i16)
    requires
        enc.resolution > 0,
        0 <= mm + enc.offset <= i16::MAX,
        enc.spec_position(mm) <= u16::MAX,
    ensures
        enc.mm_fits(enc.spec_position(mm) as u16),
        enc.spec_mm(enc.spec_position(mm) as u16) == mm,
{
    let s = mm + enc.offset;
    vstd::arithmetic::div_mod::lemma_div_by_multiple(s, enc.resolution as int);
}


/// The lines of a program: its text split at each `\n`, without a trailing `\r`.
pub open spec fn spec_lines(code: Seq<char>) -> Seq<Seq<char>> {
    split_pieces(code, '\n').map_values(|l: Seq<char>| strip_last(l, '\r'))
}

/// The lines of a G-code program.
pub fn split_lines(code: &str) -> (r: Vec<Vec<char>>)
    ensures
        views(r@) == spec_lines(code@),
{
    let chars = chars_of(code);
    let pieces = split(&chars, '\n');
    let mut r: Vec<Vec<char>> = Vec::new();
    let mut i: usize = 0;
    while i < pieces.len()
        invariant
            i <= pieces.len(),
            views(pieces@) == split_pieces(code@, '\n'),
            views(r@) == spec_lines(code@).take(i as int),
        decreases pieces.len() - i,
    {
        let ghost prev = r@;
        let line = strip_last_char(&pieces[i], '\r');
        r.push(line);
        assert(pieces@[i as int]@ == split_pieces(code@, '\n')[i as int]);
        assert(views(r@) =~= views(prev).push(line@));
        assert(spec_lines(code@).take(i + 1) =~= spec_lines(code@).take(i as int).push(line@));
        i = i + 1;
    }
    assert(spec_lines(code@).take(i as int) =~= spec_lines(code@));
    r
}

/// A program whose lines end with `\r\n` has the same lines as the program
/// with `\n` line ends.
pub proof fn lemma_crlf_lines(code: Seq<char>)
    requires
        forall|i: int| 0 <= i < code.len() ==> code[i] != '\r',
    ensures
        spec_lines(crlf(code)) == spec_lines(code),
{
    lemma_scan_crlf(code);
    let (d, c) = scan_pieces(code, '\n');
    let (d2, c2) = scan_pieces(crlf(code), '\n');
    let a = split_pieces(code, '\n');
    let b = split_pieces(crlf(code), '\n');
    assert forall|i: int| 0 <= i < a.len() implies strip_last(b[i], '\r') == strip_last(a[i], '\r') by {
        if i < d.len() {
            assert(b[i] == d[i].push('\r'));
            assert(d[i].push('\r').drop_last() =~= d[i]);
            assert(strip_last(d[i], '\r') == d[i]);
        }
    }
    assert(spec_lines(crlf(code)) =~= spec_lines(code));
}

/// A command for the controller, with the commands to run on this board when
/// the controller completes it.
pub type Batch = (Command, Vec<Command>);

pub open spec fn batch_view(b: Batch) -> (CommandView, Seq<CommandView>) {
    (b.0@, b.1@.map_values(|c: Command| c@))
}

/// The value of a printer.
pub struct PrinterView {
    pub state: State,
    pub commands: Seq<(CommandView, Seq<CommandView>)>,
    pub settings: Settings,
}

/// What reading a program reports.
#[derive(Debug, Clone, Copy, PartialEq, Eq, Structural)]
pub enum LoadNote {
    /// The line at this index is not a command the printer reads.
    Unhandled(usize),
    /// A command reported something while it was read.
    Config(ConfigNote),
}

/// The result of reading a line, by value.
pub open spec fn line_result(r: Result<Line, ParseGcodeError>) -> Result<Option<(Seq<char>, Seq<gcode::Field>)>, ParseGcodeError> {
    match r {
        Ok(l) => Ok(l@),
        Err(e) => Err(e),
    }
}

/// What reading a program has built so far.
pub struct LoadProgress {
    pub batches: Seq<(CommandView, Seq<CommandView>)>,
    pub local: Seq<CommandView>,
    pub notes: Seq<LoadNote>,
}

/// Reading line `index` of a program: a line that is not a command is
/// reported; a command that acts on the settings reports what it reports; a
/// command that runs on this board waits for the next controller command; a
/// controller command with data becomes a batch with the commands waiting.
pub open spec fn load_step(
    p: LoadProgress,
    index: int,
    line: Result<Option<(Seq<char>, Seq<gcode::Field>)>, ParseGcodeError>,
    s: Settings,
) -> LoadProgress {
    let parsed = match line {
        Ok(l) => spec_parse(l, s),
        Err(e) => Err(e),
    };
    match parsed {
        Err(_) => LoadProgress { notes: p.notes.push(LoadNote::Unhandled(index as usize)), ..p },
        Ok(c) => {
            let sc = spec_scope(c);
            let notes = if sc & scope::CONFIG != 0 {
                match spec_config_note(c) {
                    Some(n) => p.notes.push(LoadNote::Config(n)),
                    None => p.notes,
                }
            } else {
                p.notes
            };
            if sc & scope::PI != 0 {
                LoadProgress { batches: p.batches, local: p.local.push(c), notes }
            } else if sc & scope::ARDUINO != 0 && spec_data(c).len() != 0 {
                LoadProgress { batches: p.batches.push((c, p.local)), local: seq![], notes }
            } else {
                LoadProgress { batches: p.batches, local: p.local, notes }
            }
        },
    }
}

pub open spec fn load_scan(
    lines: Seq<Result<Option<(Seq<char>, Seq<gcode::Field>)>, ParseGcodeError>>,
    s: Settings,
) -> LoadProgress
    decreases lines.len(),
{
    if lines.len() == 0 {
        LoadProgress { batches: seq![], local: seq![], notes: seq![] }
    } else {
        load_step(load_scan(lines.drop_last(), s), lines.len() - 1, lines.last(), s)
    }
}

/// The pause without fields (`G4`) that closes a program whose last commands
/// run on this board.
pub open spec fn closing_pause() -> CommandView {
    CommandView::G4(seq!['P' as u8, 0, 0, 0, 0])
}

/// The batches a program gives.
pub open spec fn spec_load(
    lines: Seq<Result<Option<(Seq<char>, Seq<gcode::Field>)>, ParseGcodeError>>,
    s: Settings,
) -> Seq<(CommandView, Seq<CommandView>)> {
    let p = load_scan(lines, s);
    if p.local.len() != 0 {
        p.batches.push((closing_pause(), p.local))
    } else {
        p.batches
    }
}

/// What reading a program reports.
pub open spec fn spec_load_notes(
    lines: Seq<Result<Option<(Seq<char>, Seq<gcode::Field>)>, ParseGcodeError>>,
    s: Settings,
) -> Seq<LoadNote> {
    load_scan(lines, s).notes
}

/// Every line that is read can be built without overflow.
pub open spec fn lines_fit(
    lines: Seq<Result<Option<(Seq<char>, Seq<gcode::Field>)>, ParseGcodeError>>,
    s: Settings,
) -> bool {
    forall|i: int| 0 <= i < lines.len() ==> (#[trigger] lines[i] matches Ok(l) ==> line_fits(l, s))
}

/// Whether every line that is read can be built without overflow under the
/// given settings.
pub fn lines_fit_check(lines: &Vec<Result<Line, ParseGcodeError>>, setting: &Settings) -> (r: bool)
    ensures
        r == lines_fit(lines@.map_values(|l: Result<Line, ParseGcodeError>| line_result(l)), *setting),
{
    let ghost lv = lines@.map_values(|l: Result<Line, ParseGcodeError>| line_result(l));
    let mut i: usize = 0;
    while i < lines.len()
        invariant
            i <= lines.len(),
            lv == lines@.map_values(|l: Result<Line, ParseGcodeError>| line_result(l)),
            forall|j: int| 0 <= j < i ==> (#[trigger] lv[j] matches Ok(l) ==> line_fits(l, *setting)),
        decreases lines.len() - i,
    {
        assert(lv[i as int] == line_result(lines@[i as int]));
        match &lines[i] {
            Ok(line) => {
                if !line_fits_check(line, setting) {
                    return false;
                }
            },
            Err(_) => {},
        }
        i = i + 1;
    }
    true
}

/// The smaller of two integers.
pub open spec fn min_int(a: int, b: int) -> int {
    if a < b {
        a
    } else {
        b
    }
}

/// The frame that sends command `k` of a program to the controller.
pub open spec fn command_frame(cmds: Seq<(CommandView, Seq<CommandView>)>, k: int) -> Seq<u8> {
    spec_frame(spec_data(cmds[k].0))
}

/// The frames of commands `from` to `to` (excluded), in order.
pub open spec fn frames(cmds: Seq<(CommandView, Seq<CommandView>)>, from: int, to: int) -> Seq<u8>
    decreases to - from,
{
    if to <= from {
        seq![]
    } else {
        frames(cmds, from, to - 1) + command_frame(cmds, to - 1)
    }
}

/// Number of commands sent when a print starts.
pub open spec fn first_batch(n: int) -> int {
    min_int(BUFFERED_INSTRUCTIONS + 1, n)
}

/// The status of a print that has just started on a program of `n` commands.
pub open spec fn start_status(n: int) -> PrintStatus {
    PrintStatus {
        sent: first_batch(n) as usize,
        completed: 0,
        progress: 0,
        time_left: 0,
        silent_progress: 0,
        silent_time_left: 0,
    }
}

/// The status after the commands of `cs` run on this board, in order.
pub open spec fn run_locals(cs: Seq<CommandView>, st: PrintStatus) -> PrintStatus
    decreases cs.len(),
{
    if cs.len() == 0 {
        st
    } else {
        spec_run_pi(cs.last(), run_locals(cs.drop_last(), st))
    }
}

/// Running commands on this board leaves the counters of the print as they are.
pub proof fn lemma_run_locals_counters(cs: Seq<CommandView>, st: PrintStatus)
    ensures
        run_locals(cs, st).sent == st.sent,
        run_locals(cs, st).completed == st.completed,
    decreases cs.len(),
{
    if cs.len() > 0 {
        lemma_run_locals_counters(cs.drop_last(), st);
    }
}

/// What the commands of `cs` report when they run, in order.
pub open spec fn local_notes(cs: Seq<CommandView>) -> Seq<ProgressNote>
    decreases cs.len(),
{
    if cs.len() == 0 {
        seq![]
    } else {
        match spec_run_note(cs.last()) {
            Some(n) => local_notes(cs.drop_last()).push(n),
            None => local_notes(cs.drop_last()),
        }
    }
}

/// Kinds of messages of the controller's log.
#[derive(Debug, Clone, Copy, PartialEq, Eq, Structural)]
pub enum LogLevel {
    Debug,
    Info,
    Error,
}

/// What the printer does with a message of the controller.
pub enum Reaction {
    /// Nothing.
    Nothing,
    /// Shows a log line (the message without its first byte).
    Log(LogLevel, Vec<u8>),
    /// Homing is done: these bytes go to the controller.
    Homed(Vec<u8>),
    /// A command of the print is done: these bytes go to the controller and
    /// these progress reports are shown.
    Progress(Vec<u8>, Vec<ProgressNote>),
}

/// The value of a reaction.
pub enum ReactionView {
    Nothing,
    Log(LogLevel, Seq<u8>),
    Homed(Seq<u8>),
    Progress(Seq<u8>, Seq<ProgressNote>),
}

impl View for Reaction {
    type V = ReactionView;

    open spec fn view(&self) -> ReactionView {
        match self {
            Reaction::Nothing => ReactionView::Nothing,
            Reaction::Log(l, d) => ReactionView::Log(*l, d@),
            Reaction::Homed(d) => ReactionView::Homed(d@),
            Reaction::Progress(d, n) => ReactionView::Progress(d@, n@),
        }
    }
}

/// The message that ends homing: the pause `P` of 0 ms, framed.
pub open spec fn homed_bytes() -> Seq<u8> {
    seq![5, 'P' as u8, 0, 0, 0, 0]
}

/// A print in progress when the controller reports a command done: the next
/// command is sent if one is left, the completed count grows by one, the
/// commands waiting on the completed one run here, and the print ends with
/// the last command.
pub open spec fn spec_ack(p: PrinterView, st: PrintStatus) -> (PrinterView, ReactionView) {
    let n = p.commands.len();
    let more = st.sent < n;
    let st1 = PrintStatus {
        sent: if more { (st.sent + 1) as usize } else { st.sent },
        completed: (st.completed + 1) as usize,
        ..st
    };
    let locals = p.commands[st.completed as int].1;
    let st2 = run_locals(locals, st1);
    let state = if st.completed + 1 == n { State::Idle } else { State::Printing(st2) };
    let send = if more { command_frame(p.commands, st.sent as int) } else { seq![] };
    (PrinterView { state, ..p }, ReactionView::Progress(send, local_notes(locals)))
}

/// What a message of the controller does to the printer: `D`, `I` and `E`
/// carry log lines; `_` reports that homing or a command is done.
pub open spec fn spec_handle(p: PrinterView, data: Seq<u8>) -> (PrinterView, ReactionView) {
    let tag = data[0];
    if tag == 'D' as u8 {
        (p, ReactionView::Log(LogLevel::Debug, data.drop_first()))
    } else if tag == 'I' as u8 {
        (p, ReactionView::Log(LogLevel::Info, data.drop_first()))
    } else if tag == 'E' as u8 {
        (p, ReactionView::Log(LogLevel::Error, data.drop_first()))
    } else if tag == '_' as u8 {
        match p.state {
            State::Initializing => (PrinterView { state: State::Idle, ..p }, ReactionView::Homed(homed_bytes())),
            State::Printing(st) => spec_ack(p, st),
            State::Idle => (p, ReactionView::Nothing),
        }
    } else {
        (p, ReactionView::Nothing)
    }
}

/// The message can be handled without failing: it is not empty, and a
/// completion during a print refers to a command of the program.
pub open spec fn can_handle(p: PrinterView, data: Seq<u8>) -> bool {
    &&& data.len() > 0
    &&& (data[0] == '_' as u8 && p.state is Printing) ==> p.state->Printing_0.completed < p.commands.len()
}

/// What homing does.
pub enum HomeAction {
    /// Homing is already under way.
    AlreadyHoming,
    /// A print is running: it must be stopped first.
    Busy,
    /// Homing starts: these bytes go to the controller.
    Start(Vec<u8>),
}

/// The bytes that start homing: the initialisation byte, then homing of all axes, framed.
pub open spec fn home_bytes() -> Seq<u8> {
    seq![2, 'H' as u8, 0b111]
}

/// A copy of `data` without its first byte.
fn tail_bytes(data: &[u8]) -> (r: Vec<u8>)
    requires
        data@.len() > 0,
    ensures
        r@ == data@.drop_first(),
{
    let mut r: Vec<u8> = Vec::new();
    let mut i: usize = 1;
    while i < data.len()
        invariant
            1 <= i <= data.len(),
            r@ == data@.subrange(1, i as int),
        decreases data.len() - i,
    {
        r.push(data[i]);
        i = i + 1;
    }
    assert(r@ =~= data@.drop_first());
    r
}

/// The printer.
pub struct Printer {
    state: State,
    commands: Vec<Batch>,
    settings: Settings,
}

impl View for Printer {
    type V = PrinterView;

    closed spec fn view(&self) -> PrinterView {
        PrinterView {
            state: self.state,
            commands: self.commands@.map_values(|b: Batch| batch_view(b)),
            settings: self.settings,
        }
    }
}

/// The settings the printer starts with.
pub open spec fn initial_settings() -> Settings {
    Settings {
        x_coder: Encoder { resolution: 3, offset: 20 },
        y_coder: Encoder { resolution: 3, offset: 20 },
        z_coder: Encoder { resolution: 3, offset: 20 },
        abs_pos: true,
        abs_ext: false,
    }
}

impl Printer {
    /// An idle printer with no program and the initial settings.
    pub fn new() -> (p: Printer)
        ensures
            p@ == (PrinterView { state: State::Idle, commands: seq![], settings: initial_settings() }),
    {
        let p = Printer {
            state: State::Idle,
            commands: Vec::new(),
            settings: Settings {
                x_coder: Encoder { resolution: 3, offset: 20 },
                y_coder: Encoder { resolution: 3, offset: 20 },
                z_coder: Encoder { resolution: 3, offset: 20 },
                abs_pos: true,
                abs_ext: false,
            },
        };
        assert(p@.commands =~= seq![]);
        p
    }

    pub fn get_state_ref(&self) -> (r: &State)
        ensures
            *r == self@.state,
    {
        &self.state
    }

    pub fn settings(&self) -> (r: &Settings)
        ensures
            *r == self@.settings,
    {
        &self.settings
    }

    /// Number of batches of the loaded program.
    pub fn command_count(&self) -> (r: usize)
        ensures
            r == self@.commands.len(),
    {
        self.commands.len()
    }

    /// Sends the next command of the print; returns its frame.
    fn send_next_command(&mut self) -> (out: Vec<u8>)
        requires
            old(self)@.state is Printing,
            old(self)@.state->Printing_0.sent < old(self)@.commands.len(),
        ensures
            final(self)@ == (PrinterView {
                state: State::Printing(
                    PrintStatus {
                        sent: (old(self)@.state->Printing_0.sent + 1) as usize,
                        ..old(self)@.state->Printing_0
                    },
                ),
                ..old(self)@
            }),
            out@ == command_frame(old(self)@.commands, old(self)@.state->Printing_0.sent as int),
    {
        let mut status = match self.state {
            State::Printing(st) => st,
            _ => unreached(),
        };
        assert(self@.commands.len() == self.commands.len());
        assert(batch_view(self.commands@[status.sent as int]) == self@.commands[status.sent as int]);
        let out = frame(self.commands[status.sent].0.data_arduino());
        status.sent = status.sent + 1;
        self.state = State::Printing(status);
        out
    }

    /// Starts printing the loaded program; returns the frames of the first
    /// commands, which the controller buffers, or `None` when the printer is
    /// not idle or has no program.
    pub fn print(&mut self) -> (r: Option<Vec<u8>>)
        ensures
            match r {
                None => !(old(self)@.state == State::Idle && old(self)@.commands.len() > 0)
                    && final(self)@ == old(self)@,
                Some(bytes) => old(self)@.state == State::Idle && old(self)@.commands.len() > 0
                    && final(self)@ == (PrinterView {
                    state: State::Printing(start_status(old(self)@.commands.len() as int)),
                    ..old(self)@
                }) && bytes@ == frames(
                    old(self)@.commands,
                    0,
                    first_batch(old(self)@.commands.len() as int),
                ),
            },
    {
        if self.state != State::Idle || self.commands.len() == 0 {
            return None;
        }
        self.state = State::Printing(
            PrintStatus {
                sent: 0,
                completed: 0,
                progress: 0,
                time_left: 0,
                silent_progress: 0,
                silent_time_left: 0,
            },
        );
        let n = if BUFFERED_INSTRUCTIONS + 1 < self.commands.len() {
            BUFFERED_INSTRUCTIONS + 1
        } else {
            self.commands.len()
        };
        let ghost p0 = self@;
        let mut out: Vec<u8> = Vec::new();
        let mut k: usize = 0;
        while k < n
            invariant
                k <= n <= p0.commands.len(),
                n == first_batch(p0.commands.len() as int),
                p0.state == State::Printing(PrintStatus { sent: 0, ..start_status(p0.commands.len() as int) }),
                self@ == (PrinterView {
                    state: State::Printing(PrintStatus { sent: k, ..start_status(p0.commands.len() as int) }),
                    ..p0
                }),
                out@ == frames(p0.commands, 0, k as int),
            decreases n - k,
        {
            let mut bytes = self.send_next_command();
            out.append(&mut bytes);
            k = k + 1;
        }
        Some(out)
    }

    /// The controller completed the command in progress.
    fn acknowledge(&mut self) -> (r: Reaction)
        requires
            old(self)@.state is Printing,
            old(self)@.state->Printing_0.completed < old(self)@.commands.len(),
        ensures
            (final(self)@, r@) == spec_ack(old(self)@, old(self)@.state->Printing_0),
    {
        let ghost p0 = self@;
        let ghost st0 = p0.state->Printing_0;
        let sent = match self.state {
            State::Printing(st) => st.sent,
            _ => unreached(),
        };
        let send = if sent < self.commands.len() {
            self.send_next_command()
        } else {
            Vec::new()
        };
        let mut status = match self.state {
            State::Printing(st) => st,
            _ => unreached(),
        };
        assert(self@.commands == p0.commands);
        assert(self@.commands.len() == self.commands.len());
        status.completed = status.completed + 1;
        let ghost st1 = status;
        let mut notes: Vec<ProgressNote> = Vec::new();
        let local = &self.commands[status.completed - 1].1;
        let ghost locals = p0.commands[st0.completed as int].1;
        assert(batch_view(self.commands@[st0.completed as int]) == p0.commands[st0.completed as int]);
        assert(local@.map_values(|c: Command| c@) == locals);
        let mut j: usize = 0;
        while j < local.len()
            invariant
                j <= local.len(),
                local@.map_values(|c: Command| c@) == locals,
                status == run_locals(locals.take(j as int), st1),
                notes@ == local_notes(locals.take(j as int)),
            decreases local.len() - j,
        {
            assert(locals.take(j + 1).drop_last() =~= locals.take(j as int));
            assert(local@[j as int]@ == locals[j as int]);
            match local[j].run_pi(&mut status) {
                Some(n) => notes.push(n),
                None => {},
            }
            j = j + 1;
        }
        assert(locals.take(j as int) =~= locals);
        proof {
            lemma_run_locals_counters(locals, st1);
        }
        assert(st1 == PrintStatus {
            sent: if st0.sent < p0.commands.len() { (st0.sent + 1) as usize } else { st0.sent },
            completed: (st0.completed + 1) as usize,
            ..st0
        });
        if status.completed == self.commands.len() {
            self.state = State::Idle;
        } else {
            self.state = State::Printing(status);
        }
        Reaction::Progress(send, notes)
    }

    /// Reacts to a message of the controller (see `spec_handle`).
    pub fn handle_data(&mut self, data: &[u8]) -> (r: Reaction)
        requires
            can_handle(old(self)@, data@),
        ensures
            (final(self)@, r@) == spec_handle(old(self)@, data@),
    {
        let tag = data[0];
        if tag == 'D' as u8 {
            Reaction::Log(LogLevel::Debug, tail_bytes(data))
        } else if tag == 'I' as u8 {
            Reaction::Log(LogLevel::Info, tail_bytes(data))
        } else if tag == 'E' as u8 {
            Reaction::Log(LogLevel::Error, tail_bytes(data))
        } else if tag == '_' as u8 {
            match self.state {
                State::Initializing => {
                    self.state = State::Idle;
                    let mut out: Vec<u8> = Vec::new();
                    out.push(5);
                    out.push('P' as u8);
                    out.push(0);
                    out.push(0);
                    out.push(0);
                    out.push(0);
                    assert(out@ =~= homed_bytes());
                    Reaction::Homed(out)
                },
                State::Printing(_) => self.acknowledge(),
                State::Idle => Reaction::Nothing,
            }
        } else {
            Reaction::Nothing
        }
    }

    /// Starts homing when the printer is idle: the program is dropped.
    pub fn home(&mut self) -> (r: HomeAction)
        ensures
            old(self)@.state == State::Initializing ==> final(self)@ == old(self)@ && r is AlreadyHoming,
            old(self)@.state is Printing ==> final(self)@ == old(self)@ && r is Busy,
            old(self)@.state == State::Idle ==> final(self)@ == (PrinterView {
                state: State::Initializing,
                commands: seq![],
                ..old(self)@
            }) && (r matches HomeAction::Start(bytes) && bytes@ == home_bytes()),
    {
        match self.state {
            State::Initializing => HomeAction::AlreadyHoming,
            State::Idle => {
                self.commands.clear();
                let mut out: Vec<u8> = Vec::new();
                out.push(2);
                out.push('H' as u8);
                out.push(0b111);
                self.state = State::Initializing;
                assert(out@ =~= home_bytes());
                assert(self@.commands =~= seq![]);
                HomeAction::Start(out)
            },
            State::Printing(_) => HomeAction::Busy,
        }
    }

    /// Stops the print and drops the program.
    pub fn cancel_print(&mut self)
        ensures
            final(self)@ == (PrinterView { state: State::Idle, commands: seq![], ..old(self)@ }),
    {
        self.commands.clear();
        self.state = State::Idle;
        assert(self@.commands =~= seq![]);
    }

    /// Replaces the program with the one the read lines give; returns what
    /// reading it reports.
    pub fn load_gcode(&mut self, lines: &Vec<Result<Line, ParseGcodeError>>) -> (notes: Vec<LoadNote>)
        requires
            lines_fit(lines@.map_values(|r: Result<Line, ParseGcodeError>| line_result(r)), old(self)@.settings),
        ensures
            final(self)@ == (PrinterView {
                commands: spec_load(
                    lines@.map_values(|r: Result<Line, ParseGcodeError>| line_result(r)),
                    old(self)@.settings,
                ),
                ..old(self)@
            }),
            notes@ == spec_load_notes(
                lines@.map_values(|r: Result<Line, ParseGcodeError>| line_result(r)),
                old(self)@.settings,
            ),
    {
        let ghost lv = lines@.map_values(|r: Result<Line, ParseGcodeError>| line_result(r));
        let ghost s0 = self.settings;
        self.commands.clear();
        let mut notes: Vec<LoadNote> = Vec::new();
        let mut local: Vec<Command> = Vec::new();
        let mut i: usize = 0;
        assert(self.commands@.map_values(|b: Batch| batch_view(b)) =~= seq![]);
        assert(local@.map_values(|c: Command| c@) =~= seq![]);
        assert(lv.take(0) =~= seq![]);
        while i < lines.len()
            invariant
                i <= lines.len(),
                lv == lines@.map_values(|r: Result<Line, ParseGcodeError>| line_result(r)),
                lines_fit(lv, s0),
                self.settings == s0,
                self.state == old(self).state,
                load_scan(lv.take(i as int), s0) == (LoadProgress {
                    batches: self.commands@.map_values(|b: Batch| batch_view(b)),
                    local: local@.map_values(|c: Command| c@),
                    notes: notes@,
                }),
            decreases lines.len() - i,
        {
            assert(lv.take(i + 1).drop_last() =~= lv.take(i as int));
            assert(lv[i as int] == line_result(lines@[i as int]));
            let parsed = match &lines[i] {
                Ok(line) => {
                    assert(line_fits(line@, s0));
                    gcode::parse(line, &self.settings)
                },
                Err(_) => Err(ParseGcodeError),
            };
            match parsed {
                Ok(command) => {
                    let sc = command.scope();
                    if sc & scope::CONFIG != 0 {
                        match command.edit_config(&mut self.settings) {
                            Some(n) => notes.push(LoadNote::Config(n)),
                            None => {},
                        }
                    }
                    if sc & scope::PI != 0 {
                        let ghost prev = local@;
                        local.push(command);
                        assert(local@.map_values(|c: Command| c@) =~= prev.map_values(|c: Command| c@).push(command@));
                    } else if sc & scope::ARDUINO != 0 && command.data_arduino().len() != 0 {
                        let ghost prev = self.commands@;
                        let ghost lview = local@.map_values(|c: Command| c@);
                        let batch_local = local;
                        local = Vec::new();
                        self.commands.push((command, batch_local));
                        assert(self.commands@.map_values(|b: Batch| batch_view(b)) =~= prev.map_values(|b: Batch| batch_view(b)).push((command@, lview)));
                        assert(local@.map_values(|c: Command| c@) =~= seq![]);
                    }
                },
                Err(_) => {
                    notes.push(LoadNote::Unhandled(i));
                },
            }
            i = i + 1;
        }
        assert(lv.take(i as int) =~= lv);
        if local.len() != 0 {
            let pause = match G4::new(&[], &self.settings) {
                Ok(g) => g,
                Err(_) => {
                    assert(false);
                    return notes;
                },
            };
            let ghost prev = self.commands@;
            let ghost lview = local@.map_values(|c: Command| c@);
            assert(pause.data@ =~= seq!['P' as u8, 0, 0, 0, 0]);
            self.commands.push((Command::G4(pause), local));
            assert(self.commands@.map_values(|b: Batch| batch_view(b)) =~= prev.map_values(|b: Batch| batch_view(b)).push((closing_pause(), lview)));
        }
        notes
    }
}


/// During a print, the command completed next belongs to the program, and the
/// controller holds the commands from it up to `BUFFERED_INSTRUCTIONS` beyond
/// it (all the rest of the program, near its end).
pub open spec fn window_ok(p: PrinterView) -> bool {
    match p.state {
        State::Printing(st) => {
            &&& st.completed < p.commands.len()
            &&& st.sent == min_int(st.completed + BUFFERED_INSTRUCTIONS + 1, p.commands.len() as int)
        },
        _ => true,
    }
}

/// A printer's program fits in memory.
pub proof fn lemma_program_fits(p: &Printer)
    ensures
        p@.commands.len() <= usize::MAX,
{
    assert(p@.commands.len() == p.commands@.len());
    vstd::std_specs::vec::axiom_spec_len(&p.commands);
}

/// Starting a print gives a state in which the controller's window is right.
pub proof fn lemma_print_opens_window(p: PrinterView)
    requires
        p.state == State::Idle,
        p.commands.len() > 0,
    ensures
        window_ok(PrinterView { state: State::Printing(start_status(p.commands.len() as int)), ..p }),
{
}

/// From a state with the right window, every message of the controller can be
/// handled, and handling it keeps the window right.
pub proof fn lemma_handle_keeps_window(p: PrinterView, data: Seq<u8>)
    requires
        window_ok(p),
        p.commands.len() <= usize::MAX,
        data.len() > 0,
    ensures
        can_handle(p, data),
        window_ok(spec_handle(p, data).0),
{
    if data[0] == '_' as u8 {
        if let State::Printing(st) = p.state {
            let locals = p.commands[st.completed as int].1;
            let st1 = PrintStatus {
                sent: if st.sent < p.commands.len() { (st.sent + 1) as usize } else { st.sent },
                completed: (st.completed + 1) as usize,
                ..st
            };
            lemma_run_locals_counters(locals, st1);
        }
    }
}

/// The bytes a reaction sends to the controller.
pub open spec fn sent_bytes(r: ReactionView) -> Seq<u8> {
    match r {
        ReactionView::Homed(d) => d,
        ReactionView::Progress(d, _) => d,
        _ => seq![],
    }
}

/// The printer after `k` completions reported by the controller (`_`), with
/// the bytes it sent in reply, in order.
pub open spec fn after_completions(p: PrinterView, k: nat) -> (PrinterView, Seq<u8>)
    decreases k,
{
    if k == 0 {
        (p, seq![])
    } else {
        let (q, bytes) = after_completions(p, (k - 1) as nat);
        let (r, reaction) = spec_handle(q, seq!['_' as u8]);
        (r, bytes + sent_bytes(reaction))
    }
}

/// `frames` grows by one frame at its end.
proof fn lemma_frames_extend(cmds: Seq<(CommandView, Seq<CommandView>)>, to: int)
    requires
        0 <= to,
    ensures
        frames(cmds, 0, to + 1) == frames(cmds, 0, to) + command_frame(cmds, to),
{
}

/// A print sends every command of the program exactly once and in order: after
/// the first batch that starting the print sends, and the replies to `k`
/// completions, the controller has received the frames of the first
/// `k + BUFFERED_INSTRUCTIONS + 1` commands (all of them near the end); the
/// print is then at command `k`, and ends when all `n` commands are completed.
pub proof fn lemma_print_sends_program_in_order(p: PrinterView, k: nat)
    requires
        0 < p.commands.len() <= usize::MAX,
        p.state == State::Printing(start_status(p.commands.len() as int)),
        k <= p.commands.len(),
    ensures
        ({
            let n = p.commands.len() as int;
            let (q, bytes) = after_completions(p, k);
            &&& frames(p.commands, 0, first_batch(n)) + bytes == frames(
                p.commands,
                0,
                min_int(k + BUFFERED_INSTRUCTIONS + 1, n),
            )
            &&& q.commands == p.commands
            &&& q.settings == p.settings
            &&& k < n ==> q.state is Printing && q.state->Printing_0.completed == k
                && window_ok(q)
            &&& k == n ==> q.state == State::Idle
        }),
    decreases k,
{
    let n = p.commands.len() as int;
    if k == 0 {
        assert(frames(p.commands, 0, first_batch(n)) + seq![] =~= frames(p.commands, 0, first_batch(n)));
    } else {
        lemma_print_sends_program_in_order(p, (k - 1) as nat);
        let (q, bytes) = after_completions(p, (k - 1) as nat);
        let st = q.state->Printing_0;
        lemma_handle_keeps_window(q, seq!['_' as u8]);
        let locals = q.commands[st.completed as int].1;
        let st1 = PrintStatus {
            sent: if st.sent < n { (st.sent + 1) as usize } else { st.sent },
            completed: (st.completed + 1) as usize,
            ..st
        };
        lemma_run_locals_counters(locals, st1);
        let (r, reaction) = spec_handle(q, seq!['_' as u8]);
        if st.sent < n {
            lemma_frames_extend(p.commands, st.sent as int);
            assert(frames(p.commands, 0, first_batch(n)) + (bytes + sent_bytes(reaction)) =~= (
            frames(p.commands, 0, first_batch(n)) + bytes) + sent_bytes(reaction));
        } else {
            assert(frames(p.commands, 0, first_batch(n)) + (bytes + seq![]) =~= frames(
                p.commands,
                0,
                first_batch(n),
            ) + bytes);
        }
    }
}

/// Every batch of a loaded program sends data to the controller, and the
/// commands waiting on it are commands for this board.
pub open spec fn batches_sendable(batches: Seq<(CommandView, Seq<CommandView>)>) -> bool {
    forall|i: int|
        0 <= i < batches.len() ==> {
            &&& spec_data((#[trigger] batches[i]).0).len() > 0
            &&& forall|j: int| 0 <= j < batches[i].1.len() ==> spec_scope(#[trigger] batches[i].1[j]) & scope::PI != 0
        }
}

proof fn lemma_load_scan_sendable(
    lines: Seq<Result<Option<(Seq<char>, Seq<gcode::Field>)>, ParseGcodeError>>,
    s: Settings,
)
    ensures
        batches_sendable(load_scan(lines, s).batches),
        forall|j: int|
            0 <= j < load_scan(lines, s).local.len() ==> spec_scope(#[trigger] load_scan(lines, s).local[j]) & scope::PI != 0,
    decreases lines.len(),
{
    if lines.len() > 0 {
        lemma_load_scan_sendable(lines.drop_last(), s);
        let p = load_scan(lines.drop_last(), s);
        let q = load_scan(lines, s);
        assert forall|i: int| 0 <= i < q.batches.len() implies {
            &&& spec_data((#[trigger] q.batches[i]).0).len() > 0
            &&& forall|j: int| 0 <= j < q.batches[i].1.len() ==> spec_scope(#[trigger] q.batches[i].1[j]) & scope::PI != 0
        } by {
            if i < p.batches.len() {
                assert(q.batches[i] == p.batches[i]);
            }
        }
        assert forall|j: int| 0 <= j < q.local.len() implies spec_scope(#[trigger] q.local[j]) & scope::PI != 0 by {
            if j < p.local.len() {
                assert(q.local[j] == p.local[j]);
            }
        }
    }
}

/// Every batch of a loaded program sends data to the controller, and only
/// commands for this board wait on a batch.
pub proof fn lemma_load_sendable(
    lines: Seq<Result<Option<(Seq<char>, Seq<gcode::Field>)>, ParseGcodeError>>,
    s: Settings,
)
    ensures
        batches_sendable(spec_load(lines, s)),
{
    lemma_load_scan_sendable(lines, s);
    let p = load_scan(lines, s);
    if p.local.len() != 0 {
        let b = spec_load(lines, s);
        assert forall|i: int| 0 <= i < b.len() implies {
            &&& spec_data((#[trigger] b[i]).0).len() > 0
            &&& forall|j: int| 0 <= j < b[i].1.len() ==> spec_scope(#[trigger] b[i].1[j]) & scope::PI != 0
        } by {
            if i < p.batches.len() {
                assert(b[i] == p.batches[i]);
            }
        }
    }
}

/// Homing an idle printer ends with the controller's next completion: the
/// printer is idle again, without a program, and answers with the pause that
/// ends homing.
pub proof fn lemma_home_then_done(p: PrinterView)
    requires
        p.state == State::Idle,
    ensures
        ({
            let homing = PrinterView { state: State::Initializing, commands: seq![], ..p };
            spec_handle(homing, seq!['_' as u8]) == (
                PrinterView { state: State::Idle, commands: seq![], ..p },
                ReactionView::Homed(homed_bytes()),
            )
        }),
{
}

/// A log message of the controller leaves the printer as it is, whatever its
/// state, and shows the message without its first byte.
pub proof fn lemma_log_leaves_printer(p: PrinterView, data: Seq<u8>)
    requires
        data.len() > 0,
        data[0] == 'D' as u8 || data[0] == 'I' as u8 || data[0] == 'E' as u8,
    ensures
        can_handle(p, data),
        spec_handle(p, data).0 == p,
        spec_handle(p, data).1 matches ReactionView::Log(_, text) && text == data.drop_first(),
{
}

/// A progress report of the given mode (`M73`, silent or not).
pub open spec fn is_report(c: CommandView, silent: bool) -> bool {
    c matches CommandView::M73(m) && m.silent == silent
}

/// The progress and time left a status shows for one mode.
pub open spec fn shown(st: PrintStatus, silent: bool) -> (u8, u16) {
    if silent {
        (st.silent_progress, st.silent_time_left)
    } else {
        (st.progress, st.time_left)
    }
}

proof fn lemma_run_locals_report(cs: Seq<CommandView>, st: PrintStatus, silent: bool, j: int)
    requires
        0 <= j < cs.len(),
        is_report(cs[j], silent),
        forall|k: int| j < k < cs.len() ==> !is_report(#[trigger] cs[k], silent),
    ensures
        shown(run_locals(cs, st), silent) == (cs[j]->M73_0.progress, cs[j]->M73_0.time),
    decreases cs.len(),
{
    if j < cs.len() - 1 {
        let r = cs.drop_last();
        assert forall|k: int| j < k < r.len() implies !is_report(#[trigger] r[k], silent) by {
            assert(r[k] == cs[k]);
        }
        assert(r[j] == cs[j]);
        lemma_run_locals_report(r, st, silent, j);
        assert(!is_report(cs[cs.len() - 1], silent));
    }
}

proof fn lemma_run_locals_no_report(cs: Seq<CommandView>, st: PrintStatus, silent: bool)
    requires
        forall|k: int| 0 <= k < cs.len() ==> !is_report(#[trigger] cs[k], silent),
    ensures
        shown(run_locals(cs, st), silent) == shown(st, silent),
    decreases cs.len(),
{
    if cs.len() > 0 {
        let r = cs.drop_last();
        assert forall|k: int| 0 <= k < r.len() implies !is_report(#[trigger] r[k], silent) by {
            assert(r[k] == cs[k]);
        }
        lemma_run_locals_no_report(r, st, silent);
        assert(!is_report(cs[cs.len() - 1], silent));
    }
}

/// When the controller completes a command of a print that goes on, the
/// printer counts it, sends the next command if one is left, and shows, for
/// each mode, the progress and time left of the last report of that mode
/// waiting on the completed command, or what it showed before when none is.
pub proof fn lemma_completion_records_progress(p: PrinterView, silent: bool)
    requires
        p.commands.len() <= usize::MAX,
        p.state is Printing,
        p.state->Printing_0.completed + 1 < p.commands.len(),
    ensures
        ({
            let st = p.state->Printing_0;
            let locals = p.commands[st.completed as int].1;
            let (q, r) = spec_handle(p, seq!['_' as u8]);
            &&& q.commands == p.commands
            &&& q.settings == p.settings
            &&& q.state is Printing
            &&& q.state->Printing_0.completed == st.completed + 1
            &&& q.state->Printing_0.sent == if st.sent < p.commands.len() { st.sent + 1 } else { st.sent as int }
            &&& forall|j: int|
                0 <= j < locals.len() && is_report(locals[j], silent) && (forall|k: int|
                    j < k < locals.len() ==> !is_report(#[trigger] locals[k], silent)) ==> shown(
                    q.state->Printing_0,
                    silent,
                ) == (#[trigger] locals[j]->M73_0.progress, locals[j]->M73_0.time)
            &&& (forall|k: int| 0 <= k < locals.len() ==> !is_report(#[trigger] locals[k], silent)) ==> shown(
                q.state->Printing_0,
                silent,
            ) == shown(st, silent)
        }),
{
    let st = p.state->Printing_0;
    let n = p.commands.len();
    let locals = p.commands[st.completed as int].1;
    let st1 = PrintStatus {
        sent: if st.sent < n { (st.sent + 1) as usize } else { st.sent },
        completed: (st.completed + 1) as usize,
        ..st
    };
    lemma_run_locals_counters(locals, st1);
    let q = spec_handle(p, seq!['_' as u8]).0;
    assert(q.state == State::Printing(run_locals(locals, st1)));
    assert forall|j: int|
        0 <= j < locals.len() && is_report(locals[j], silent) && (forall|k: int|
            j < k < locals.len() ==> !is_report(#[trigger] locals[k], silent)) implies shown(
        q.state->Printing_0,
        silent,
    ) == (#[trigger] locals[j]->M73_0.progress, locals[j]->M73_0.time) by {
        lemma_run_locals_report(locals, st1, silent, j);
    }
    if forall|k: int| 0 <= k < locals.len() ==> !is_report(#[trigger] locals[k], silent) {
        lemma_run_locals_no_report(locals, st1, silent);
    }
}

/// The commands waiting on each batch, one batch after the other.
pub open spec fn waiting(batches: Seq<(CommandView, Seq<CommandView>)>) -> Seq<CommandView>
    decreases batches.len(),
{
    if batches.len() == 0 {
        seq![]
    } else {
        waiting(batches.drop_last()) + batches.last().1
    }
}

/// The commands of a program that run on this board, in program order.
pub open spec fn board_commands(
    lines: Seq<Result<Option<(Seq<char>, Seq<gcode::Field>)>, ParseGcodeError>>,
    s: Settings,
) -> Seq<CommandView>
    decreases lines.len(),
{
    if lines.len() == 0 {
        seq![]
    } else {
        let read = match lines.last() {
            Ok(l) => spec_parse(l, s),
            Err(e) => Err(e),
        };
        board_commands(lines.drop_last(), s) + match read {
            Ok(c) => if spec_scope(c) & scope::PI != 0 {
                seq![c]
            } else {
                seq![]
            },
            Err(_) => seq![],
        }
    }
}

proof fn lemma_scan_waiting(
    lines: Seq<Result<Option<(Seq<char>, Seq<gcode::Field>)>, ParseGcodeError>>,
    s: Settings,
)
    ensures
        waiting(load_scan(lines, s).batches) + load_scan(lines, s).local == board_commands(lines, s),
    decreases lines.len(),
{
    if lines.len() > 0 {
        let r = lines.drop_last();
        lemma_scan_waiting(r, s);
        let p = load_scan(r, s);
        let q = load_scan(lines, s);
        if q.batches.len() == p.batches.len() + 1 {
            assert(q.batches.drop_last() =~= p.batches);
        }
        assert(waiting(q.batches) + q.local =~= board_commands(lines, s));
    }
}

/// Every command of a loaded program that runs on this board waits on a
/// batch, in program order: those read between two commands for the
/// controller wait on the second, and those after the last one wait on the
/// closing pause.
pub proof fn lemma_load_keeps_board_commands(
    lines: Seq<Result<Option<(Seq<char>, Seq<gcode::Field>)>, ParseGcodeError>>,
    s: Settings,
)
    ensures
        waiting(spec_load(lines, s)) == board_commands(lines, s),
{
    lemma_scan_waiting(lines, s);
    let p = load_scan(lines, s);
    if p.local.len() != 0 {
        let b = spec_load(lines, s);
        assert(b.drop_last() =~= p.batches);
    } else {
        assert(p.local =~= seq![]);
        assert(waiting(p.batches) + p.local =~= waiting(p.batches));
    }
}

} // verus!
