//! Settings and command framing for a SIM800 modem on a serial line.

use vstd::prelude::*;
use vstd::string::StringSliceAdditionalSpecFns;
use crate::wire::push_bytes;

verus! {

/// How to reach and set up the modem.
#[derive(Debug, Clone)]
pub struct Sim800Config {
    pub uart_port: String,
    pub baudrate: u32,
    pub sim_pin: Option<String>,
    pub apn: Option<String>,
}

/// The bytes that send the command `cmd`: its text, then carriage return
/// and line feed.
pub fn command_line(cmd: &str) -> (line: Vec<u8>)
    ensures
        line@ == cmd.spec_bytes() + seq![13u8, 10u8],
{
    let mut line: Vec<u8> = Vec::new();
    push_bytes(&mut line, cmd.as_bytes());
    line.push(13);
    line.push(10);
    assert(line@ =~= cmd.spec_bytes() + seq![13u8, 10u8]);
    line
}

} // verus!
