//! Reading adb's output and pairing a new device: the USB device's ID, the address
//! the device reports, the polling for that address, and the adb command lines used.

use vstd::prelude::*;

use crate::devices::string_views;
use crate::select::Invocation;
use crate::text::{
    chars_of, contains_seq, line_ranges, lines, pieces, range_contains, range_is, string_of,
    word_ranges, words,
};

verus! {

/// How many times the device is asked for its address before giving up.
pub const IP_ATTEMPTS: u32 = 10;

/// The first of `ls` in which `pat` occurs.
pub open spec fn first_containing(ls: Seq<Seq<char>>, pat: Seq<char>) -> Option<Seq<char>>
    decreases ls.len(),
{
    if ls.len() == 0 {
        None
    } else if contains_seq(ls[0], pat) {
        Some(ls[0])
    } else {
        first_containing(ls.drop_first(), pat)
    }
}

/// The ID of the first device that `adb devices -l` lists as attached by USB: the
/// first word of the first line that mentions `usb:`.
pub open spec fn usb_device_id(listing: Seq<char>) -> Option<Seq<char>> {
    match first_containing(lines(listing), seq!['u', 's', 'b', ':']) {
        Some(line) => if words(line).len() > 0 {
            Some(words(line)[0])
        } else {
            None
        },
        None => None,
    }
}

/// The word that follows the first `src` word, if some word follows it.
pub open spec fn word_after_src(ws: Seq<Seq<char>>) -> Option<Seq<char>>
    decreases ws.len(),
{
    if ws.len() < 2 {
        None
    } else if ws[0] == seq!['s', 'r', 'c'] {
        Some(ws[1])
    } else {
        word_after_src(ws.drop_first())
    }
}

/// The source address in the output of `ip route get`: the word after `src`, or
/// nothing (the empty string) when there is none.
pub open spec fn route_source_of(output: Seq<char>) -> Seq<char> {
    match word_after_src(words(output)) {
        Some(w) => w,
        None => Seq::empty(),
    }
}

proof fn lemma_first_containing_skip(ls: Seq<Seq<char>>, pat: Seq<char>, k: int)
    requires
        0 <= k <= ls.len(),
        forall|j: int| 0 <= j < k ==> !contains_seq(#[trigger] ls[j], pat),
    ensures
        first_containing(ls, pat) == first_containing(ls.skip(k), pat),
    decreases k,
{
    if k == 0 {
        assert(ls.skip(0) =~= ls);
    } else {
        let t = ls.drop_first();
        assert forall|j: int| 0 <= j < k - 1 implies !contains_seq(#[trigger] t[j], pat) by {
            assert(t[j] == ls[j + 1]);
        }
        lemma_first_containing_skip(t, pat, k - 1);
        assert(t.skip(k - 1) =~= ls.skip(k));
    }
}

proof fn lemma_word_after_src_skip(ws: Seq<Seq<char>>, k: int)
    requires
        0 <= k,
        k + 1 <= ws.len(),
        forall|j: int| 0 <= j < k ==> #[trigger] ws[j] != seq!['s', 'r', 'c'],
    ensures
        word_after_src(ws) == word_after_src(ws.skip(k)),
    decreases k,
{
    if k == 0 {
        assert(ws.skip(0) =~= ws);
    } else {
        let t = ws.drop_first();
        assert forall|j: int| 0 <= j < k - 1 implies #[trigger] t[j] != seq!['s', 'r', 'c'] by {
            assert(t[j] == ws[j + 1]);
        }
        lemma_word_after_src_skip(t, k - 1);
        assert(t.skip(k - 1) =~= ws.skip(k));
    }
}

/// The ID of the first device attached by USB in the output of `adb devices -l`.
pub fn get_usb_device(listing: &str) -> (r: Option<String>)
    ensures
        match r {
            Some(id) => usb_device_id(listing@) == Some(id@),
            None => usb_device_id(listing@) is None,
        },
{
    let v = chars_of(listing);
    let pat: Vec<char> = vec!['u', 's', 'b', ':'];
    assert(pat@ =~= seq!['u', 's', 'b', ':']);
    let r = line_ranges(&v);
    let ghost ls = pieces(v@, r@);
    let mut k: usize = 0;
    while k < r.len()
        invariant
            k <= r.len(),
            ls == pieces(v@, r@),
            ls == lines(v@),
            v@ == listing@,
            pat@ == seq!['u', 's', 'b', ':'],
            crate::text::ranges_within(r@, 0, v.len() as int),
            forall|j: int| 0 <= j < k ==> !contains_seq(#[trigger] ls[j], pat@),
        decreases r.len() - k,
    {
        let (lo, hi) = r[k];
        assert(ls[k as int] == v@.subrange(lo as int, hi as int));
        if range_contains(&v, lo, hi, &pat) {
            proof {
                lemma_first_containing_skip(ls, pat@, k as int);
                assert(ls.skip(k as int)[0] == ls[k as int]);
            }
            let w = word_ranges(&v, lo, hi);
            if w.len() > 0 {
                let (a, b) = w[0];
                assert(pieces(v@, w@)[0] == v@.subrange(a as int, b as int));
                return Some(string_of(&v, a, b));
            } else {
                return None;
            }
        }
        k = k + 1;
    }
    proof {
        lemma_first_containing_skip(ls, pat@, k as int);
    }
    None
}

/// The source address in the output of `ip route get` (empty when there is none).
pub fn route_source(output: &str) -> (ip: String)
    ensures
        ip@ == route_source_of(output@),
{
    let v = chars_of(output);
    assert(v@.subrange(0, v@.len() as int) =~= output@);
    let w = word_ranges(&v, 0, v.len());
    let ghost ws = pieces(v@, w@);
    let src: Vec<char> = vec!['s', 'r', 'c'];
    assert(src@ =~= seq!['s', 'r', 'c']);
    if w.len() < 2 {
        return String::new();
    }
    let mut k: usize = 0;
    while k + 1 < w.len()
        invariant
            k + 1 <= w.len(),
            ws == pieces(v@, w@),
            ws == words(output@),
            src@ == seq!['s', 'r', 'c'],
            crate::text::ranges_within(w@, 0, v.len() as int),
            forall|j: int| 0 <= j < k ==> #[trigger] ws[j] != seq!['s', 'r', 'c'],
        decreases w.len() - k,
    {
        let (a, b) = w[k];
        assert(ws[k as int] == v@.subrange(a as int, b as int));
        if range_is(&v, a, b, &src) {
            proof {
                lemma_word_after_src_skip(ws, k as int);
                assert(ws.skip(k as int)[0] == ws[k as int]);
                assert(ws.skip(k as int)[1] == ws[k + 1]);
            }
            let (c, d) = w[k + 1];
            assert(ws[k + 1] == v@.subrange(c as int, d as int));
            return string_of(&v, c, d);
        }
        k = k + 1;
    }
    proof {
        lemma_word_after_src_skip(ws, k as int);
        assert(ws.skip(k as int).len() < 2);
    }
    String::new()
}

/// What one query for the device's address gives.
pub enum PollOutcome {
    /// The device reported this address.
    Found(String),
    /// No address yet: wait half a second, then query again with this attempt number.
    Retry { next_attempt: u32 },
    /// No address after the last attempt: wait half a second, then give up.
    GiveUp,
}

/// The outcome of query number `attempt` (from 0) for the device's address, given
/// the output of `ip route get`: the address is taken when there is one; else the
/// device is asked again, `IP_ATTEMPTS` times in all.
pub fn poll_ip(attempt: u32, route_output: &str) -> (r: PollOutcome)
    requires
        attempt < IP_ATTEMPTS,
    ensures
        route_source_of(route_output@).len() > 0 ==> (r matches PollOutcome::Found(ip) && ip@ == route_source_of(route_output@)),
        route_source_of(route_output@).len() == 0 && attempt + 1 < IP_ATTEMPTS ==> r == (PollOutcome::Retry { next_attempt: (attempt + 1) as u32 }),
        route_source_of(route_output@).len() == 0 && attempt + 1 >= IP_ATTEMPTS ==> r is GiveUp,
{
    let ip = route_source(route_output);
    if ip.as_str().is_empty() {
        if attempt + 1 < IP_ATTEMPTS {
            PollOutcome::Retry { next_attempt: attempt + 1 }
        } else {
            PollOutcome::GiveUp
        }
    } else {
        PollOutcome::Found(ip)
    }
}

/// `adb <args>` with the given arguments, waited for.
fn adb(args: Vec<String>) -> (r: Invocation)
    ensures
        r.program@ == "adb"@,
        r.args@ == args@,
        !r.detached,
{
    Invocation { program: "adb".to_owned(), args, detached: false }
}

/// `adb devices -l`: lists the connected devices.
pub fn list_connected() -> (r: Invocation)
    ensures
        r.program@ == "adb"@,
        string_views(r.args@) == seq!["devices"@, "-l"@],
        !r.detached,
{
    let args = vec!["devices".to_owned(), "-l".to_owned()];
    assert(string_views(args@) =~= seq!["devices"@, "-l"@]);
    adb(args)
}

/// `adb mdns services`: lists the devices that offer wireless debugging.
pub fn list_available() -> (r: Invocation)
    ensures
        r.program@ == "adb"@,
        string_views(r.args@) == seq!["mdns"@, "services"@],
        !r.detached,
{
    let args = vec!["mdns".to_owned(), "services".to_owned()];
    assert(string_views(args@) =~= seq!["mdns"@, "services"@]);
    adb(args)
}

/// The commands that pairing runs on the USB device `id`, in order, before it asks
/// for the device's address: switch to USB mode, then to TCP/IP mode on port 5555.
pub fn new_device(id: &str) -> (r: Vec<Invocation>)
    ensures
        r.len() == 2,
        r[0].program@ == "adb"@,
        string_views(r[0].args@) == seq!["-s"@, id@, "usb"@],
        !r[0].detached,
        r[1].program@ == "adb"@,
        string_views(r[1].args@) == seq!["-s"@, id@, "tcpip"@, "5555"@],
        !r[1].detached,
{
    vec![usb_mode(id), tcpip_mode(id)]
}

/// `adb -s <id> usb`, waited for: switches the device to USB mode.
pub fn usb_mode(id: &str) -> (r: Invocation)
    ensures
        r.program@ == "adb"@,
        string_views(r.args@) == seq!["-s"@, id@, "usb"@],
        !r.detached,
{
    let usb_args = vec!["-s".to_owned(), id.to_owned(), "usb".to_owned()];
    assert(string_views(usb_args@) =~= seq!["-s"@, id@, "usb"@]);
    adb(usb_args)
}

/// `adb -s <id> tcpip 5555`, waited for: switches the device to TCP/IP mode on port 5555.
pub fn tcpip_mode(id: &str) -> (r: Invocation)
    ensures
        r.program@ == "adb"@,
        string_views(r.args@) == seq!["-s"@, id@, "tcpip"@, "5555"@],
        !r.detached,
{
    let tcpip_args = vec!["-s".to_owned(), id.to_owned(), "tcpip".to_owned(), "5555".to_owned()];
    assert(string_views(tcpip_args@) =~= seq!["-s"@, id@, "tcpip"@, "5555"@]);
    adb(tcpip_args)
}

/// `adb -s <id> shell ip route get 1.1.1.1`: asks the device which address it uses.
pub fn route_query(id: &str) -> (r: Invocation)
    ensures
        r.program@ == "adb"@,
        string_views(r.args@) == seq!["-s"@, id@, "shell"@, "ip"@, "route"@, "get"@, "1.1.1.1"@],
        !r.detached,
{
    let args = vec![
        "-s".to_owned(),
        id.to_owned(),
        "shell".to_owned(),
        "ip".to_owned(),
        "route".to_owned(),
        "get".to_owned(),
        "1.1.1.1".to_owned(),
    ];
    assert(string_views(args@) =~= seq!["-s"@, id@, "shell"@, "ip"@, "route"@, "get"@, "1.1.1.1"@]);
    adb(args)
}


proof fn lemma_first_containing_found(ls: Seq<Seq<char>>, pat: Seq<char>)
    ensures
        first_containing(ls, pat) matches Some(l) ==> exists|i: int| 0 <= i < ls.len() && #[trigger] ls[i] == l
            && contains_seq(l, pat) && forall|j: int| 0 <= j < i ==> !contains_seq(#[trigger] ls[j], pat),
    decreases ls.len(),
{
    if ls.len() > 0 && !contains_seq(ls[0], pat) {
        let t = ls.drop_first();
        lemma_first_containing_found(t, pat);
        if let Some(l) = first_containing(ls, pat) {
            let i = choose|i: int| 0 <= i < t.len() && #[trigger] t[i] == l && contains_seq(l, pat)
                && forall|j: int| 0 <= j < i ==> !contains_seq(#[trigger] t[j], pat);
            assert(ls[i + 1] == l);
            assert forall|j: int| 0 <= j < i + 1 implies !contains_seq(#[trigger] ls[j], pat) by {
                if j > 0 {
                    assert(ls[j] == t[j - 1]);
                }
            }
        }
    } else if ls.len() > 0 {
        assert(ls[0] == ls[0]);
    }
}

/// The USB device's ID is the first word of the first line of the listing that
/// mentions `usb:`, whatever the line's other words (such as the device's state);
/// and an ID is only ever taken from such a line.
pub proof fn lemma_usb_id_is_first_word(listing: Seq<char>, i: int)
    requires
        0 <= i < lines(listing).len(),
        contains_seq(lines(listing)[i], seq!['u', 's', 'b', ':']),
        forall|j: int| 0 <= j < i ==> !contains_seq(#[trigger] lines(listing)[j], seq!['u', 's', 'b', ':']),
        words(lines(listing)[i]).len() > 0,
    ensures
        usb_device_id(listing) == Some(words(lines(listing)[i])[0]),
{
    let ls = lines(listing);
    lemma_first_containing_skip(ls, seq!['u', 's', 'b', ':'], i);
    assert(ls.skip(i)[0] == ls[i]);
}

/// An ID is only ever found as the first word of the first line mentioning `usb:`.
pub proof fn lemma_usb_id_source(listing: Seq<char>)
    ensures
        usb_device_id(listing) matches Some(id) ==> exists|i: int| 0 <= i < lines(listing).len()
            && contains_seq(#[trigger] lines(listing)[i], seq!['u', 's', 'b', ':'])
            && (forall|j: int| 0 <= j < i ==> !contains_seq(#[trigger] lines(listing)[j], seq!['u', 's', 'b', ':']))
            && words(lines(listing)[i]).len() > 0 && id == words(lines(listing)[i])[0],
{
    lemma_first_containing_found(lines(listing), seq!['u', 's', 'b', ':']);
}

} // verus!
