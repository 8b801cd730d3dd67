//! Static configuration of one serial controller: the baud rate, the timing
//! parameters of the protocol, and the lists of specially handled GCodes.

use vstd::prelude::*;

verus! {

/// The serial baud rates the controller accepts.
#[derive(Clone, Copy, Debug, PartialEq, Eq, Structural)]
pub enum BaudRate {
    Baud250K,
    Baud230K,
    Baud115K,
    Baud057K,
    Baud038K,
    Baud019K,
    Baud009K,
}

impl BaudRate {
    /// The numeric bits-per-second value of this baud rate.
    pub open spec fn spec_to_u32(&self) -> u32 {
        match self {
            BaudRate::Baud250K => 250_000,
            BaudRate::Baud230K => 230_400,
            BaudRate::Baud115K => 115_200,
            BaudRate::Baud057K => 57_600,
            BaudRate::Baud038K => 38_400,
            BaudRate::Baud019K => 19_200,
            BaudRate::Baud009K => 9_600,
        }
    }

    pub fn to_u32(&self) -> (rate: u32)
        ensures
            rate == self.spec_to_u32(),
    {
        match self {
            BaudRate::Baud250K => 250_000,
            BaudRate::Baud230K => 230_400,
            BaudRate::Baud115K => 115_200,
            BaudRate::Baud057K => 57_600,
            BaudRate::Baud038K => 38_400,
            BaudRate::Baud019K => 19_200,
            BaudRate::Baud009K => 9_600,
        }
    }
}

/// The candidate baud rates for automatic detection, in descending order of
/// speed: detection tries each in turn and keeps the first that reaches a
/// ready connection.
pub fn baud_rate_candidates() -> (rates: Vec<BaudRate>)
    ensures
        rates@.len() == 7,
        forall|i: int, j: int|
            0 <= i < j < rates@.len() ==> rates@[i].spec_to_u32() > rates@[j].spec_to_u32(),
        forall|i: int| 0 <= i < rates@.len() ==> rates@[i].spec_to_u32() >= 9_600,
{
    let rates: Vec<BaudRate> = vec![
        BaudRate::Baud250K,
        BaudRate::Baud230K,
        BaudRate::Baud115K,
        BaudRate::Baud057K,
        BaudRate::Baud038K,
        BaudRate::Baud019K,
        BaudRate::Baud009K,
    ];
    rates
}

/// Configuration of the serial controller.  Durations are in milliseconds.
#[derive(Clone, Debug)]
pub struct ControllerConfig {
    pub name: String,
    pub serial_port_id: String,
    pub automatic_baud_rate_detection: bool,
    pub baud_rate: BaudRate,
    pub simulate: bool,
    pub await_greeting_from_firmware: bool,
    /// How many sent and received GCodes the machine service buffers.
    pub gcode_history_buffer_size: usize,
    pub delay_from_greeting_to_ready: u64,
    pub polling_interval: u64,
    pub fast_code_timeout: u64,
    pub long_running_code_timeout: u64,
    pub serial_connection_timeout: u64,
    /// How many unanswered tickles are attempted before the connection is
    /// declared timed out.
    pub response_timeout_tickle_attempts: u32,
    /// GCodes that are given the long response timeout instead of the fast one.
    pub long_running_codes: Vec<String>,
    pub blocking_codes: Vec<String>,
    /// Whether tickles are sent with a checksum.
    pub checksum_tickles: bool,
}

} // verus!
