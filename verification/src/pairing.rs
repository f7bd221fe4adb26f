//! Pairing a new device (`phone new`), as steps: each step tells what to do next
//! (messages, waits, commands) and which command's output the following step reads.

use vstd::prelude::*;

use crate::adb::{get_usb_device, list_connected, poll_ip, route_query, tcpip_mode, usb_mode, usb_device_id, route_source_of, IP_ATTEMPTS, PollOutcome};
use crate::devices::string_views;
use crate::select::{connect_to_ip, runs_for, Invocation, Purpose};
use crate::text::push_str;

verus! {

/// One thing to do while pairing.
pub enum Instruction {
    /// Print this line.
    Say(String),
    /// Wait until the user presses Enter.
    WaitForEnter,
    /// Run this command and wait for it, whatever its outcome.
    Run(Invocation),
    /// Pause for this many milliseconds.
    Pause(u32),
    /// Ask the user for a nickname for the device at this address and record it.
    Nickname(String),
}

/// Where pairing stands.
pub enum PairState {
    /// Nothing done yet.
    Begin,
    /// The list of attached devices is to be read.
    ReadUsb,
    /// The device `id` was asked for its address; this is query number `attempt` (from 0).
    ReadIp { id: String, attempt: u32 },
    /// Pairing is over.
    Done,
}

/// What a pairing step gives: the instructions to carry out in order, then the
/// command whose output the next step reads (if any), and the next state.
pub struct PairStep {
    pub instructions: Vec<Instruction>,
    pub capture: Option<Invocation>,
    pub state: PairState,
}

/// A state that pairing can be in: queries are counted below `IP_ATTEMPTS`.
pub open spec fn valid_pair_state(s: PairState) -> bool {
    s matches PairState::ReadIp { attempt, .. } ==> attempt < IP_ATTEMPTS
}

/// The instruction prints `text`.
pub open spec fn says(i: Instruction, text: Seq<char>) -> bool {
    i matches Instruction::Say(line) && line@ == text
}

/// The instruction runs `adb` with `args`, waiting for it.
pub open spec fn runs_adb(i: Instruction, args: Seq<Seq<char>>) -> bool {
    i matches Instruction::Run(inv) && inv.program@ == "adb"@ && string_views(inv.args@) == args && !inv.detached
}

/// The command captured is `adb` with `args`.
pub open spec fn captures_adb(c: Option<Invocation>, args: Seq<Seq<char>>) -> bool {
    c matches Some(inv) && inv.program@ == "adb"@ && string_views(inv.args@) == args && !inv.detached
}

/// The arguments of the query for the device's address.
pub open spec fn route_query_args(id: Seq<char>) -> Seq<Seq<char>> {
    seq!["-s"@, id, "shell"@, "ip"@, "route"@, "get"@, "1.1.1.1"@]
}

/// A line made of `prefix` and `rest`.
fn line_of(prefix: &str, rest: &str) -> (s: String)
    ensures
        s@ == prefix@ + rest@,
{
    let mut s = prefix.to_owned();
    push_str(&mut s, rest);
    s
}

/// The next step of pairing from `state`, given `output`, the output of the
/// command that the previous step captured (ignored where none was captured):
/// - at the start, the user is told to enable wireless debugging and to plug the
///   device in, Enter is awaited, and the attached devices are listed;
/// - without a device attached by USB, pairing stops there;
/// - with one, it is announced, switched to USB mode and then to TCP/IP mode on
///   port 5555 (each followed by a two-second pause), and asked for its address;
/// - while it has none, it is asked again after half a second, `IP_ATTEMPTS` times
///   in all, after which pairing gives up with a message;
/// - once it has one, the address is shown, the user names the device, is told to
///   unplug it, Enter is awaited, and only then is the device connected over the network.
pub fn new_device_step(state: PairState, output: &str) -> (r: PairStep)
    requires
        valid_pair_state(state),
    ensures
        valid_pair_state(r.state),
        state is Begin ==> {
            &&& r.instructions.len() == 3
            &&& says(r.instructions[0], "Enable the wireless debug in the device's developer settings"@)
            &&& says(r.instructions[1], "Plug the device in then press [Enter]."@)
            &&& r.instructions[2] is WaitForEnter
            &&& captures_adb(r.capture, seq!["devices"@, "-l"@])
            &&& r.state is ReadUsb
        },
        state is ReadUsb && usb_device_id(output@) is None ==> {
            &&& r.instructions.len() == 0
            &&& r.capture is None
            &&& r.state is Done
        },
        state is ReadUsb ==> (usb_device_id(output@) matches Some(id) ==> {
            &&& r.instructions.len() == 6
            &&& says(r.instructions[0], "Found device: "@ + id)
            &&& runs_adb(r.instructions[1], seq!["-s"@, id, "usb"@])
            &&& r.instructions[2] == Instruction::Pause(2000)
            &&& runs_adb(r.instructions[3], seq!["-s"@, id, "tcpip"@, "5555"@])
            &&& r.instructions[4] == Instruction::Pause(2000)
            &&& says(r.instructions[5], "Waiting for device to provide IP..."@)
            &&& captures_adb(r.capture, route_query_args(id))
            &&& r.state matches PairState::ReadIp { id: asked, attempt } && asked@ == id && attempt == 0
        }),
        state matches PairState::ReadIp { id, attempt } ==> {
            let ip = route_source_of(output@);
            if ip.len() > 0 {
                &&& r.instructions.len() == 5
                &&& says(r.instructions[0], "Device IP: "@ + ip)
                &&& r.instructions[1] matches Instruction::Nickname(named) && named@ == ip
                &&& says(r.instructions[2], "Unplug device and press [Enter]"@)
                &&& r.instructions[3] is WaitForEnter
                &&& r.instructions[4] matches Instruction::Run(inv) && runs_for(inv, Purpose::Connect, ip)
                &&& r.capture is None
                &&& r.state is Done
            } else if attempt + 1 < IP_ATTEMPTS {
                &&& r.instructions.len() == 1
                &&& r.instructions[0] == Instruction::Pause(500)
                &&& captures_adb(r.capture, route_query_args(id@))
                &&& r.state matches PairState::ReadIp { id: asked, attempt: next } && asked@ == id@ && next == attempt + 1
            } else {
                &&& r.instructions.len() == 2
                &&& r.instructions[0] == Instruction::Pause(500)
                &&& says(r.instructions[1], "Could not establish connection to device."@)
                &&& r.capture is None
                &&& r.state is Done
            }
        },
        state is Done ==> {
            &&& r.instructions.len() == 0
            &&& r.capture is None
            &&& r.state is Done
        },
{
    match state {
        PairState::Begin => {
            let instructions = vec![
                Instruction::Say("Enable the wireless debug in the device's developer settings".to_owned()),
                Instruction::Say("Plug the device in then press [Enter].".to_owned()),
                Instruction::WaitForEnter,
            ];
            PairStep { instructions, capture: Some(list_connected()), state: PairState::ReadUsb }
        },
        PairState::ReadUsb => match get_usb_device(output) {
            None => PairStep { instructions: Vec::new(), capture: None, state: PairState::Done },
            Some(id) => {
                let instructions = vec![
                    Instruction::Say(line_of("Found device: ", id.as_str())),
                    Instruction::Run(usb_mode(id.as_str())),
                    Instruction::Pause(2000),
                    Instruction::Run(tcpip_mode(id.as_str())),
                    Instruction::Pause(2000),
                    Instruction::Say("Waiting for device to provide IP...".to_owned()),
                ];
                let capture = Some(route_query(id.as_str()));
                PairStep { instructions, capture, state: PairState::ReadIp { id, attempt: 0 } }
            },
        },
        PairState::ReadIp { id, attempt } => match poll_ip(attempt, output) {
            PollOutcome::Found(ip) => {
                let instructions = vec![
                    Instruction::Say(line_of("Device IP: ", ip.as_str())),
                    Instruction::Nickname(ip.clone()),
                    Instruction::Say("Unplug device and press [Enter]".to_owned()),
                    Instruction::WaitForEnter,
                    Instruction::Run(connect_to_ip(ip.as_str())),
                ];
                PairStep { instructions, capture: None, state: PairState::Done }
            },
            PollOutcome::Retry { next_attempt } => {
                let capture = Some(route_query(id.as_str()));
                PairStep {
                    instructions: vec![Instruction::Pause(500)],
                    capture,
                    state: PairState::ReadIp { id, attempt: next_attempt },
                }
            },
            PollOutcome::GiveUp => {
                let instructions = vec![
                    Instruction::Pause(500),
                    Instruction::Say("Could not establish connection to device.".to_owned()),
                ];
                PairStep { instructions, capture: None, state: PairState::Done }
            },
        },
        PairState::Done => PairStep { instructions: Vec::new(), capture: None, state: PairState::Done },
    }
}

} // verus!
