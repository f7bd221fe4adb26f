//! Finding devices in adb's output: the local IP addresses a text mentions, and
//! the device table they give together with the devices already known.

use vstd::prelude::*;

use crate::devices::{DeviceTable, kept_ips, string_views};

verus! {

/// The pattern that local (192.168.x.y) addresses are searched with.
pub const LOCAL_IP_PATTERN: &'static str = "192.168.\\d{1,3}.\\d{1,3}";

/// The name given to a device that is seen for the first time.
pub open spec fn unknown_name() -> Seq<char> {
    seq!['U', 'n', 'k', 'n', 'o', 'w', 'n']
}

/// What searching `text` with the regular expression `pattern` finds: `None` when
/// `pattern` is not a valid regular expression, else the text of each successive
/// non-overlapping match, in order.
pub uninterp spec fn regex_find_all(pattern: Seq<char>, text: Seq<char>) -> Option<Seq<Seq<char>>>;

/// All matches of the regular expression `pattern` in `text`.
///
/// Trusted: compiles `pattern` with `regex::Regex::new` and collects the text of
/// each match that `Regex::find_iter` yields on `text`. The contract only names
/// the result (`regex_find_all`); it says nothing of the regular-expression
/// semantics themselves.
#[verifier::external_body]
fn regex_matches(pattern: &str, text: &str) -> (r: Option<Vec<String>>)
    ensures
        match r {
            Some(v) => regex_find_all(pattern@, text@) == Some(string_views(v@)),
            None => regex_find_all(pattern@, text@) is None,
        },
{
    match regex::Regex::new(pattern) {
        Ok(re) => Some(re.find_iter(text).map(|m| m.as_str().to_string()).collect()),
        Err(_) => None,
    }
}

/// The local IP addresses that `text` mentions, in order, as the search with
/// `LOCAL_IP_PATTERN` finds them; `None` if that pattern does not compile.
pub fn get_local_ip_from_string(text: &str) -> (r: Option<Vec<String>>)
    ensures
        match r {
            Some(v) => regex_find_all(LOCAL_IP_PATTERN@, text@) == Some(string_views(v@)),
            None => regex_find_all(LOCAL_IP_PATTERN@, text@) is None,
        },
{
    regex_matches(LOCAL_IP_PATTERN, text)
}

/// The addresses of `ips` that `known` lacks, each once, in the order of their
/// first appearance.
pub open spec fn new_ips(ips: Seq<Seq<char>>, known: Set<Seq<char>>) -> Seq<Seq<char>>
    decreases ips.len(),
{
    if ips.len() == 0 {
        Seq::empty()
    } else {
        let earlier = new_ips(ips.drop_last(), known);
        let ip = ips.last();
        if known.contains(ip) || ips.drop_last().contains(ip) {
            earlier
        } else {
            earlier.push(ip)
        }
    }
}

/// The known devices, with each address of `ips` they lack added under the name
/// `"Unknown"`.
pub open spec fn with_unknown(known: Map<Seq<char>, Seq<char>>, ips: Seq<Seq<char>>) -> Map<Seq<char>, Seq<char>>
    decreases ips.len(),
{
    if ips.len() == 0 {
        known
    } else {
        let m = with_unknown(known, ips.drop_last());
        if m.contains_key(ips.last()) {
            m
        } else {
            m.insert(ips.last(), unknown_name())
        }
    }
}

/// The devices that a scan reports: exactly the addresses of `ips`, each under its
/// known name, or `"Unknown"` if it has none.
pub open spec fn scanned(known: Map<Seq<char>, Seq<char>>, ips: Seq<Seq<char>>) -> Map<Seq<char>, Seq<char>> {
    Map::new(
        |k: Seq<char>| ips.contains(k),
        |k: Seq<char>| if known.contains_key(k) { known[k] } else { unknown_name() },
    )
}

/// What adding the unknown addresses does to the map: every address of `ips` is
/// then present, a known one keeps its name and a new one is named `"Unknown"`.
pub proof fn lemma_with_unknown(known: Map<Seq<char>, Seq<char>>, ips: Seq<Seq<char>>)
    ensures
        forall|k: Seq<char>| #[trigger] with_unknown(known, ips).contains_key(k) <==> (known.contains_key(k) || ips.contains(k)),
        forall|k: Seq<char>| #[trigger] with_unknown(known, ips).contains_key(k) ==> with_unknown(known, ips)[k] == if known.contains_key(k) { known[k] } else { unknown_name() },
    decreases ips.len(),
{
    if ips.len() > 0 {
        let d = ips.drop_last();
        let last = ips.last();
        lemma_with_unknown(known, d);
        let m = with_unknown(known, d);
        let w = with_unknown(known, ips);
        assert(w == if m.contains_key(last) { m } else { m.insert(last, unknown_name()) });
        assert(ips[ips.len() - 1] == last);
        assert forall|k: Seq<char>| #[trigger] w.contains_key(k) <==> (known.contains_key(k) || ips.contains(k)) by {
            if d.contains(k) {
                let i = choose|i: int| 0 <= i < d.len() && d[i] == k;
                assert(ips[i] == k);
            }
            if ips.contains(k) && k != last {
                let i = choose|i: int| 0 <= i < ips.len() && ips[i] == k;
                assert(d[i] == k);
            }
        }
        assert forall|k: Seq<char>| #[trigger] w.contains_key(k) implies w[k] == if known.contains_key(k) { known[k] } else { unknown_name() } by {
            if m.contains_key(k) {
            } else {
                assert(k == last);
                assert(!known.contains_key(k));
            }
        }
    }
}

/// The addresses that a scan adds are new ones, and none is added twice.
pub proof fn lemma_new_ips(ips: Seq<Seq<char>>, known: Set<Seq<char>>)
    ensures
        new_ips(ips, known).no_duplicates(),
        forall|k: Seq<char>| #[trigger] new_ips(ips, known).contains(k) <==> (ips.contains(k) && !known.contains(k)),
    decreases ips.len(),
{
    if ips.len() > 0 {
        let d = ips.drop_last();
        lemma_new_ips(d, known);
        let e = new_ips(d, known);
        assert forall|k: Seq<char>| #[trigger] new_ips(ips, known).contains(k) <==> (ips.contains(k) && !known.contains(k)) by {
            if d.contains(k) {
                let i = choose|i: int| 0 <= i < d.len() && d[i] == k;
                assert(ips[i] == k);
            }
            if ips.contains(k) && k != ips.last() {
                let i = choose|i: int| 0 <= i < ips.len() && ips[i] == k;
                assert(d[i] == k);
            }
            assert(ips[ips.len() - 1] == ips.last());
            if !(known.contains(ips.last()) || d.contains(ips.last())) {
                assert(new_ips(ips, known) == e.push(ips.last()));
                if e.push(ips.last()).contains(k) && k != ips.last() {
                    let i = choose|i: int| 0 <= i < e.len() + 1 && e.push(ips.last())[i] == k;
                    assert(e[i] == k);
                }
                if e.contains(k) {
                    let i = choose|i: int| 0 <= i < e.len() && e[i] == k;
                    assert(e.push(ips.last())[i] == k);
                }
                assert(e.push(ips.last())[e.len() as int] == ips.last());
            }
        }
        if !(known.contains(ips.last()) || d.contains(ips.last())) {
            let p = e.push(ips.last());
            assert forall|a: int, b: int| 0 <= a < p.len() && 0 <= b < p.len() && a != b implies p[a] != p[b] by {
                if a < e.len() && b < e.len() {
                    assert(p[a] == e[a] && p[b] == e[b]);
                } else if a < e.len() {
                    assert(p[a] == e[a]);
                    assert(e.contains(p[a]));
                } else {
                    assert(p[b] == e[b]);
                    assert(e.contains(p[b]));
                }
            }
        }
    }
}

/// Scanning the same addresses again, once the new ones have been recorded under
/// `"Unknown"`, finds nothing new and reports the same devices.
pub proof fn lemma_rescan_stable(known: Map<Seq<char>, Seq<char>>, ips: Seq<Seq<char>>)
    ensures
        new_ips(ips, with_unknown(known, ips).dom()) == Seq::<Seq<char>>::empty(),
        scanned(with_unknown(known, ips), ips) == scanned(known, ips),
{
    lemma_with_unknown(known, ips);
    let after = with_unknown(known, ips);
    lemma_new_ips(ips, after.dom());
    let n = new_ips(ips, after.dom());
    if n.len() > 0 {
        assert(n.contains(n[0]));
    }
    assert(scanned(after, ips) =~= scanned(known, ips));
}

/// The device table that a scan gives, and the addresses it found for the first time.
pub struct DeviceUpdate {
    /// The devices the scanned text mentions, with their names.
    pub devices: DeviceTable,
    /// The addresses that had no name yet, to be recorded under `"Unknown"`, in order.
    pub unknown: Vec<String>,
}

/// The devices at the addresses `ips`: each keeps its known name, a new one is
/// named `"Unknown"`, and the new addresses are reported once each, in order.
pub fn device_map_from_ips(ips: &Vec<String>, known: DeviceTable) -> (r: DeviceUpdate)
    requires
        known.wf(),
    ensures
        r.devices.wf(),
        r.devices@ == scanned(known@, string_views(ips@)),
        string_views(r.unknown@) == new_ips(string_views(ips@), known@.dom()),
        r.devices.ips() == kept_ips(known.ips() + new_ips(string_views(ips@), known@.dom()), string_views(ips@).to_set()),
{
    let ghost l = string_views(ips@);
    let ghost k0 = known@;
    let ghost kips = known.ips();
    let mut table = known;
    let mut unknown: Vec<String> = Vec::new();
    let mut i: usize = 0;
    while i < ips.len()
        invariant
            i <= ips.len(),
            l == string_views(ips@),
            table.wf(),
            table@ == with_unknown(k0, l.take(i as int)),
            string_views(unknown@) == new_ips(l.take(i as int), k0.dom()),
            table.ips() == kips + new_ips(l.take(i as int), k0.dom()),
        decreases ips.len() - i,
    {
        let ghost t = l.take(i as int);
        assert(l.take(i + 1).drop_last() =~= t);
        assert(l.take(i + 1).last() == ips@[i as int]@);
        proof {
            lemma_with_unknown(k0, t);
            table.lemma_view();
        }
        if !table.contains_key(ips[i].as_str()) {
            let ghost before_ips = table.ips();
            assert(!before_ips.contains(ips@[i as int]@));
            let ghost before = unknown@;
            let ip = ips[i].clone();
            unknown.push(ip);
            assert(string_views(unknown@) =~= string_views(before).push(ips@[i as int]@));
            let name: String = "Unknown".to_owned();
            proof {
                reveal_strlit("Unknown");
                assert(name@ =~= unknown_name());
            }
            table.insert(ips[i].clone(), name);
            assert(kips + new_ips(l.take(i + 1), k0.dom()) =~= (kips + new_ips(t, k0.dom())).push(ips@[i as int]@));
        }
        i = i + 1;
    }
    assert(l.take(i as int) =~= l);
    table.retain_ips(ips);
    proof {
        lemma_with_unknown(k0, l);
        assert(table@ =~= scanned(k0, l));
    }
    DeviceUpdate { devices: table, unknown }
}

/// What a scan of the adb output `text` reports, given the known devices: `None`
/// when the address pattern does not compile; else the devices at the addresses
/// found (known names kept, new ones named `"Unknown"`), listed with the known
/// devices first, and the new addresses once each, in the order met.
pub open spec fn scan_reports(r: Option<DeviceUpdate>, text: Seq<char>, known: DeviceTable) -> bool {
    match r {
        Some(u) => {
            &&& regex_find_all(LOCAL_IP_PATTERN@, text) matches Some(ips)
            &&& u.devices.wf()
            &&& u.devices@ == scanned(known@, ips)
            &&& string_views(u.unknown@) == new_ips(ips, known@.dom())
            &&& u.devices.ips() == kept_ips(known.ips() + new_ips(ips, known@.dom()), ips.to_set())
        },
        None => regex_find_all(LOCAL_IP_PATTERN@, text) is None,
    }
}

/// The devices that a text of adb's output mentions, named from `known`, and the
/// addresses met for the first time; `None` if the address pattern does not compile.
pub fn get_device_map_from_string(text: &str, known: DeviceTable) -> (r: Option<DeviceUpdate>)
    requires
        known.wf(),
    ensures
        scan_reports(r, text@, known),
{
    match get_local_ip_from_string(text) {
        Some(ips) => Some(device_map_from_ips(&ips, known)),
        None => None,
    }
}

/// The available devices, from `listing`, the output of `adb mdns services`
/// (`adb::list_available`): the scan of that output.
pub fn get_available_devices(listing: &str, known: DeviceTable) -> (r: Option<DeviceUpdate>)
    requires
        known.wf(),
    ensures
        scan_reports(r, listing@, known),
{
    get_device_map_from_string(listing, known)
}

/// The connected devices, from `listing`, the output of `adb devices -l`
/// (`adb::list_connected`): the scan of that output.
pub fn get_connected_devices(listing: &str, known: DeviceTable) -> (r: Option<DeviceUpdate>)
    requires
        known.wf(),
    ensures
        scan_reports(r, listing@, known),
{
    get_device_map_from_string(listing, known)
}

} // verus!
