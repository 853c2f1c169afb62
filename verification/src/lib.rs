//! Control software of a DIY 3D printer: G-code reading, the commands sent to
//! the motor controller, and the print state machine.
pub mod text;
pub mod binary32;
pub mod printer;
pub mod network;
pub mod gcode_manager;
pub mod gcode_parser;
