//! Choosing a device: the menu offered when several devices are at hand, the
//! reading of the user's answer, and what is run on the chosen device.

use vstd::prelude::*;

use crate::devices::{DeviceTable, string_views};
use crate::text::{
    chars_of, decimal, lemma_parse_decimal, lemma_trim_decimal, parse_bounded, parse_range, push_decimal,
    push_str, trim, trim_range,
};

verus! {

/// A program run on behalf of the user: its name, its arguments, and whether it
/// is left running in the background (rather than waited for).
pub struct Invocation {
    pub program: String,
    pub args: Vec<String>,
    pub detached: bool,
}

/// What is done with a chosen device.
#[derive(PartialEq, Eq, Structural, Clone, Copy, Debug)]
pub enum Purpose {
    /// Connect to it over the network with adb.
    Connect,
    /// Disconnect from it with adb.
    Disconnect,
    /// Mirror its screen with scrcpy.
    Mirror,
}

/// The line of the selection menu for the device listed at position `n` (from 1).
pub open spec fn menu_line(n: nat, ip: Seq<char>, name: Seq<char>) -> Seq<char> {
    decimal(n) + ".\t"@ + ip + "\t("@ + name + ")"@
}

/// The selection menu for the listed devices.
pub open spec fn menu(entries: Seq<(Seq<char>, Seq<char>)>) -> Seq<Seq<char>> {
    Seq::new(entries.len(), |i: int| menu_line((i + 1) as nat, entries[i].0, entries[i].1))
}

/// The device that an answer to the selection menu designates: the answer is read
/// (once trimmed) as an index counted from 1. `None` means the answer is no index
/// at all; `Some(None)` that the index is outside the menu.
pub open spec fn menu_choice(ips: Seq<Seq<char>>, answer: Seq<char>) -> Option<Option<Seq<char>>> {
    match parse_bounded(trim(answer), usize::MAX as nat) {
        Some(n) => if 1 <= n && n <= ips.len() {
            Some(Some(ips[n - 1]))
        } else {
            Some(None)
        },
        None => None,
    }
}

/// The first step of choosing a device.
pub enum Selection {
    /// There is no device to choose.
    NoDevice,
    /// The only device is chosen without asking.
    Chosen(String),
    /// The user is shown these menu lines and asked for an index.
    Ask(Vec<String>),
}

/// What the user's answer to the menu gives.
pub enum Answer {
    /// The device at the given index.
    Chosen(String),
    /// No answer could be read, or it is no index: nothing is chosen.
    Unreadable,
    /// The index is outside the menu: nothing is chosen.
    InvalidIndex,
}

/// Starts choosing one of `devices`: none when there is none, the only one when
/// there is one, else a menu that lists each device with its index (from 1),
/// address and name.
pub fn select_device(devices: &DeviceTable) -> (r: Selection)
    requires
        devices.wf(),
    ensures
        devices.ips().len() == 0 <==> r is NoDevice,
        devices.ips().len() == 1 ==> (r matches Selection::Chosen(ip) && ip@ == devices.ips()[0]),
        devices.ips().len() >= 2 ==> (r matches Selection::Ask(lines) && string_views(lines@) == menu(devices.entries())),
        devices.ips().len() >= 2 ==> (r matches Selection::Ask(lines) && lines.len() == devices.entries().len()
            && forall|k: int| 0 <= k < lines.len() ==> (#[trigger] lines@[k])@ == decimal((k + 1) as nat) + ".\t"@
                + devices.ips()[k] + "\t("@ + devices.entries()[k].1 + ")"@),
{
    proof {
        devices.lemma_view();
    }
    let n = devices.entry_count();
    if n == 0 {
        return Selection::NoDevice;
    }
    if n == 1 {
        let (ip, _name) = devices.entry(0);
        return Selection::Chosen(ip);
    }
    let mut lines: Vec<String> = Vec::new();
    let mut j: usize = 0;
    while j < n
        invariant
            j <= n,
            n == devices.entries().len(),
            string_views(lines@) == menu(devices.entries()).take(j as int),
        decreases n - j,
    {
        let (ip, name) = devices.entry(j);
        let mut line = String::new();
        push_decimal(&mut line, (j + 1) as u64);
        push_str(&mut line, ".\t");
        push_str(&mut line, ip.as_str());
        push_str(&mut line, "\t(");
        push_str(&mut line, name.as_str());
        push_str(&mut line, ")");
        let ghost before = lines@;
        assert(line@ =~= menu_line((j + 1) as nat, devices.entries()[j as int].0, devices.entries()[j as int].1));
        let ghost lv = line@;
        lines.push(line);
        assert(string_views(lines@) =~= string_views(before).push(lv));
        assert(menu(devices.entries()).take(j + 1) =~= menu(devices.entries()).take(j as int).push(lv));
        j = j + 1;
    }
    assert(menu(devices.entries()).take(n as int) =~= menu(devices.entries()));
    assert forall|k: int| 0 <= k < lines.len() implies (#[trigger] lines@[k])@ == decimal((k + 1) as nat) + ".\t"@
        + devices.ips()[k] + "\t("@ + devices.entries()[k].1 + ")"@ by {
        assert(string_views(lines@)[k] == lines@[k]@);
        assert(menu(devices.entries())[k] == menu_line((k + 1) as nat, devices.entries()[k].0, devices.entries()[k].1));
    }
    Selection::Ask(lines)
}

/// Reads the user's answer to the menu of `devices`: `reply` is the line read,
/// or `None` if reading failed. The trimmed answer is read as an index from 1.
pub fn select_device_reply(devices: &DeviceTable, reply: Option<&str>) -> (r: Answer)
    requires
        devices.wf(),
    ensures
        match reply {
            None => r is Unreadable,
            Some(line) => match menu_choice(devices.ips(), line@) {
                None => r is Unreadable,
                Some(None) => r is InvalidIndex,
                Some(Some(ip)) => r matches Answer::Chosen(c) && c@ == ip,
            },
        },
        reply matches Some(line) && trim(line@).len() == 0 ==> r is Unreadable,
        r matches Answer::Chosen(c) ==> (reply matches Some(line) && answer_selects(devices.ips(), line@, c@)),
{
    proof {
        devices.lemma_view();
    }
    let line = match reply {
        None => return Answer::Unreadable,
        Some(line) => line,
    };
    proof {
        lemma_blank_answer_selects_nothing(devices.ips(), line@);
        lemma_choice_is_index(devices.ips(), line@);
    }
    let v = chars_of(line);
    let (a, b) = trim_range(&v, 0, v.len());
    assert(v@.subrange(0, v@.len() as int) =~= line@);
    let parsed = parse_range(&v, a, b, usize::MAX as u64);
    match parsed {
        None => Answer::Unreadable,
        Some(idx) => {
            let n = devices.entry_count();
            if 1 <= idx && idx <= n as u64 {
                let (ip, _name) = devices.entry((idx - 1) as usize);
                Answer::Chosen(ip)
            } else {
                Answer::InvalidIndex
            }
        },
    }
}

/// What is run on the device at `ip` for each purpose.
pub open spec fn runs_for(inv: Invocation, purpose: Purpose, ip: Seq<char>) -> bool {
    match purpose {
        Purpose::Connect => {
            &&& inv.program@ == "adb"@
            &&& string_views(inv.args@) == seq!["connect"@, ip + ":5555"@]
            &&& !inv.detached
        },
        Purpose::Disconnect => {
            &&& inv.program@ == "adb"@
            &&& string_views(inv.args@) == seq!["disconnect"@, ip + ":5555"@]
            &&& !inv.detached
        },
        Purpose::Mirror => {
            &&& inv.program@ == "scrcpy"@
            &&& string_views(inv.args@) == seq!["-s"@, ip]
            &&& inv.detached
        },
    }
}

/// `adb connect <ip>:5555`, waited for.
pub fn connect_to_ip(ip: &str) -> (r: Invocation)
    ensures
        runs_for(r, Purpose::Connect, ip@),
{
    let mut target = ip.to_owned();
    push_str(&mut target, ":5555");
    let args = vec!["connect".to_owned(), target];
    assert(string_views(args@) =~= seq!["connect"@, ip@ + ":5555"@]);
    Invocation { program: "adb".to_owned(), args, detached: false }
}

/// `adb disconnect <ip>:5555`, waited for.
pub fn disconnect_from_ip(ip: &str) -> (r: Invocation)
    ensures
        runs_for(r, Purpose::Disconnect, ip@),
{
    let mut target = ip.to_owned();
    push_str(&mut target, ":5555");
    let args = vec!["disconnect".to_owned(), target];
    assert(string_views(args@) =~= seq!["disconnect"@, ip@ + ":5555"@]);
    Invocation { program: "adb".to_owned(), args, detached: false }
}

/// `scrcpy -s <ip>`, left running.
pub fn mirror_ip(ip: &str) -> (r: Invocation)
    ensures
        runs_for(r, Purpose::Mirror, ip@),
{
    let args = vec!["-s".to_owned(), ip.to_owned()];
    assert(string_views(args@) =~= seq!["-s"@, ip@]);
    Invocation { program: "scrcpy".to_owned(), args, detached: true }
}

/// What is run on the device at `ip` for `purpose`.
pub fn invocation_for(purpose: Purpose, ip: &str) -> (r: Invocation)
    ensures
        runs_for(r, purpose, ip@),
{
    match purpose {
        Purpose::Connect => connect_to_ip(ip),
        Purpose::Disconnect => disconnect_from_ip(ip),
        Purpose::Mirror => mirror_ip(ip),
    }
}

/// A step of picking a device and acting on it.
pub enum PickStep {
    /// There is no device: the user is told so.
    NoDevice,
    /// A device was chosen: this is run on it.
    Run(Invocation),
    /// The user is shown these menu lines and asked for an index.
    Ask(Vec<String>),
    /// Nothing was chosen; `invalid_index` tells whether the answer was an index
    /// outside the menu (which the user is told) rather than no index at all.
    NotRetrieved { invalid_index: bool },
}

/// Starts picking one of `devices` to act on for `purpose`: when there is no
/// device nothing is run; when there is one it is acted on directly; else the
/// menu of `select_device` is shown.
pub fn pick_a_device_then(devices: &DeviceTable, purpose: Purpose) -> (r: PickStep)
    requires
        devices.wf(),
    ensures
        devices.ips().len() == 0 <==> r is NoDevice,
        devices.ips().len() == 1 ==> (r matches PickStep::Run(inv) && runs_for(inv, purpose, devices.ips()[0])),
        devices.ips().len() >= 2 ==> (r matches PickStep::Ask(lines) && string_views(lines@) == menu(devices.entries())),
{
    if devices.is_empty() {
        return PickStep::NoDevice;
    }
    match select_device(devices) {
        Selection::NoDevice => PickStep::NoDevice,
        Selection::Chosen(ip) => PickStep::Run(invocation_for(purpose, ip.as_str())),
        Selection::Ask(lines) => PickStep::Ask(lines),
    }
}

/// Finishes picking a device of `devices` for `purpose` from the user's answer
/// (`None` if reading failed): the chosen device is acted on, else nothing is run.
pub fn pick_reply_then(devices: &DeviceTable, purpose: Purpose, reply: Option<&str>) -> (r: PickStep)
    requires
        devices.wf(),
    ensures
        match reply {
            None => r == (PickStep::NotRetrieved { invalid_index: false }),
            Some(line) => match menu_choice(devices.ips(), line@) {
                None => r == (PickStep::NotRetrieved { invalid_index: false }),
                Some(None) => r == (PickStep::NotRetrieved { invalid_index: true }),
                Some(Some(ip)) => r matches PickStep::Run(inv) && runs_for(inv, purpose, ip),
            },
        },
{
    match select_device_reply(devices, reply) {
        Answer::Chosen(ip) => PickStep::Run(invocation_for(purpose, ip.as_str())),
        Answer::Unreadable => PickStep::NotRetrieved { invalid_index: false },
        Answer::InvalidIndex => PickStep::NotRetrieved { invalid_index: true },
    }
}

/// Whether at least one device is connected.
pub fn check_if_connected(connected: &DeviceTable) -> (b: bool)
    requires
        connected.wf(),
    ensures
        b == (connected@.len() > 0),
{
    connected.len() > 0
}

/// Connects to one of the available devices (see `pick_a_device_then`).
pub fn connect(available: &DeviceTable) -> (r: PickStep)
    requires
        available.wf(),
    ensures
        available.ips().len() == 0 <==> r is NoDevice,
        available.ips().len() == 1 ==> (r matches PickStep::Run(inv) && runs_for(inv, Purpose::Connect, available.ips()[0])),
        available.ips().len() >= 2 ==> (r matches PickStep::Ask(lines) && string_views(lines@) == menu(available.entries())),
{
    pick_a_device_then(available, Purpose::Connect)
}

/// Disconnects from one of the connected devices (see `pick_a_device_then`).
pub fn disconnect(connected: &DeviceTable) -> (r: PickStep)
    requires
        connected.wf(),
    ensures
        connected.ips().len() == 0 <==> r is NoDevice,
        connected.ips().len() == 1 ==> (r matches PickStep::Run(inv) && runs_for(inv, Purpose::Disconnect, connected.ips()[0])),
        connected.ips().len() >= 2 ==> (r matches PickStep::Ask(lines) && string_views(lines@) == menu(connected.entries())),
{
    pick_a_device_then(connected, Purpose::Disconnect)
}

/// Mirrors the screen of one of the connected devices (see `pick_a_device_then`).
pub fn mirror_device(connected: &DeviceTable) -> (r: PickStep)
    requires
        connected.wf(),
    ensures
        connected.ips().len() == 0 <==> r is NoDevice,
        connected.ips().len() == 1 ==> (r matches PickStep::Run(inv) && runs_for(inv, Purpose::Mirror, connected.ips()[0])),
        connected.ips().len() >= 2 ==> (r matches PickStep::Ask(lines) && string_views(lines@) == menu(connected.entries())),
{
    pick_a_device_then(connected, Purpose::Mirror)
}

/// What toggling the connection does, given the connected devices: when some
/// device is connected it is disconnected, else an available device is connected.
pub fn toggle_connection(connected: &DeviceTable) -> (p: Purpose)
    requires
        connected.wf(),
    ensures
        p == if connected@.len() > 0 { Purpose::Disconnect } else { Purpose::Connect },
{
    if check_if_connected(connected) {
        Purpose::Disconnect
    } else {
        Purpose::Connect
    }
}

/// Typing the number that the menu shows in front of a device selects that device.
pub proof fn lemma_menu_number_selects(ips: Seq<Seq<char>>, k: nat)
    requires
        1 <= k <= ips.len(),
        ips.len() <= usize::MAX,
    ensures
        menu_choice(ips, decimal(k)) == Some(Some(ips[k - 1])),
{
    lemma_trim_decimal(k);
    lemma_parse_decimal(k, usize::MAX as nat);
}

/// An answer never selects a device that the menu does not list.
pub proof fn lemma_choice_is_listed(ips: Seq<Seq<char>>, answer: Seq<char>)
    ensures
        menu_choice(ips, answer) matches Some(Some(ip)) ==> ips.contains(ip),
{
    if let Some(Some(ip)) = menu_choice(ips, answer) {
        let n = parse_bounded(trim(answer), usize::MAX as nat)->0;
        assert(ips[n - 1] == ip);
    }
}


/// `answer`, once trimmed, is an index `k` from 1 that the list `ips` has, and
/// `ip` is the `k`-th address.
pub open spec fn answer_selects(ips: Seq<Seq<char>>, answer: Seq<char>, ip: Seq<char>) -> bool {
    exists|k: nat| #![trigger ips[k - 1]]
        parse_bounded(trim(answer), usize::MAX as nat) == Some(k) && 1 <= k <= ips.len() && ip == ips[k - 1]
}

/// Pressing Enter alone (an answer that is blank once trimmed) selects no device.
pub proof fn lemma_blank_answer_selects_nothing(ips: Seq<Seq<char>>, answer: Seq<char>)
    ensures
        trim(answer).len() == 0 ==> menu_choice(ips, answer) is None,
{
    if trim(answer).len() == 0 {
        assert(crate::text::unsigned_digits(trim(answer)).len() == 0);
    }
}

/// A device is selected exactly when the trimmed answer reads as an index `k`
/// from 1 within the list, and then it is the `k`-th address.
pub proof fn lemma_choice_is_index(ips: Seq<Seq<char>>, answer: Seq<char>)
    ensures
        menu_choice(ips, answer) matches Some(Some(ip)) ==> answer_selects(ips, answer, ip),
        forall|k: nat| #![trigger ips[k - 1]] parse_bounded(trim(answer), usize::MAX as nat) == Some(k) && 1 <= k <= ips.len()
            ==> menu_choice(ips, answer) == Some(Some(ips[k - 1])),
{
    if let Some(Some(ip)) = menu_choice(ips, answer) {
        let n = parse_bounded(trim(answer), usize::MAX as nat)->0;
        assert(ips[n - 1] == ip);
    }
}

/// The menu line numbered `k` shows the `k`-th device of the table, with its name,
/// and answering `k` selects exactly that device.
pub proof fn lemma_menu_line_selects(es: Seq<(Seq<char>, Seq<char>)>, k: nat)
    requires
        1 <= k <= es.len(),
        es.len() <= usize::MAX,
    ensures
        menu(es).len() == es.len(),
        menu(es)[k - 1] == decimal(k) + ".\t"@ + es[k - 1].0 + "\t("@ + es[k - 1].1 + ")"@,
        menu_choice(crate::devices::keys_of(es), decimal(k)) == Some(Some(es[k - 1].0)),
{
    let ips = crate::devices::keys_of(es);
    lemma_menu_number_selects(ips, k);
    assert(ips[k - 1] == es[k - 1].0);
}

} // verus!
