//! The network side of the printer: what the web interface reads of the
//! printer and the programs it hands to it.
use vstd::prelude::*;
use crate::printer::{Printer, PrinterView, State, LoadNote, lines_fit, line_result, spec_load, spec_load_notes};
use crate::printer::gcode::{Line, ParseGcodeError};

verus! {

/// The network service, with the printer it serves.
pub struct Network {
    printer: Printer,
}

impl View for Network {
    type V = PrinterView;

    closed spec fn view(&self) -> PrinterView {
        self.printer@
    }
}

impl Network {
    pub fn new(printer: Printer) -> (n: Network)
        ensures
            n@ == printer@,
    {
        Network { printer }
    }

    pub fn get_printer_state_ref(&self) -> (r: &State)
        ensures
            *r == self@.state,
    {
        self.printer.get_state_ref()
    }

    /// Hands a program to the printer (see `Printer::load_gcode`).
    pub fn load_printer_gcode(&mut self, lines: &Vec<Result<Line, ParseGcodeError>>) -> (notes: Vec<LoadNote>)
        requires
            lines_fit(lines@.map_values(|r: Result<Line, ParseGcodeError>| line_result(r)), old(self)@.settings),
        ensures
            final(self)@ == (PrinterView {
                commands: spec_load(
                    lines@.map_values(|r: Result<Line, ParseGcodeError>| line_result(r)),
                    old(self)@.settings,
                ),
                ..old(self)@
            }),
            notes@ == spec_load_notes(
                lines@.map_values(|r: Result<Line, ParseGcodeError>| line_result(r)),
                old(self)@.settings,
            ),
    {
        self.printer.load_gcode(lines)
    }

    /// The printer, to drive it.
    pub fn printer_mut(&mut self) -> (r: &mut Printer)
        ensures
            r@ == old(self)@,
            final(self)@ == final(r)@,
    {
        &mut self.printer
    }
}

} // verus!
