//! Where the tool keeps its files, what the devices file holds, and how a
//! device's nickname is recorded.

use vstd::prelude::*;

use crate::devices::{DeviceTable, string_views};
use crate::text::{chars_of, lemma_trim_is_piece, lines, lines_from, push_str, strip_cr, string_of, trim, trim_range};

verus! {

/// The name of the package, under which the tool keeps its files.
pub fn get_package_name() -> (s: String)
    ensures
        s@ == "phone"@,
{
    "phone".to_owned()
}

/// The file that lists the known devices, under the home directory `home`.
pub fn get_devices_file(home: &str) -> (s: String)
    ensures
        s@ == home@ + "/.local/state/"@ + "phone"@ + "/devices"@,
{
    let mut s = home.to_owned();
    push_str(&mut s, "/.local/state/");
    let pkg = get_package_name();
    push_str(&mut s, pkg.as_str());
    push_str(&mut s, "/devices");
    s
}

/// The bash completion file, under the home directory `home`.
pub fn get_completions_file(home: &str) -> (s: String)
    ensures
        s@ == home@ + "/.local/share/bash-completion/completions/"@ + "phone"@,
{
    let mut s = home.to_owned();
    push_str(&mut s, "/.local/share/bash-completion/completions/");
    let pkg = get_package_name();
    push_str(&mut s, pkg.as_str());
    s
}

/// The text of the devices file for the listed entries: the header `IP,NAME`,
/// then one line `ip,name` per device, lines separated by `'\n'`.
pub open spec fn file_text(es: Seq<(Seq<char>, Seq<char>)>) -> Seq<char>
    decreases es.len(),
{
    if es.len() == 0 {
        "IP,NAME"@
    } else {
        file_text(es.drop_last()) + "\n"@ + es.last().0 + ","@ + es.last().1
    }
}

/// The text of the devices file that records `devices`.
pub fn device_file_contents(devices: &DeviceTable) -> (s: String)
    ensures
        s@ == file_text(devices.entries()),
{
    let mut s = "IP,NAME".to_owned();
    let n = devices.entry_count();
    let mut j: usize = 0;
    assert(devices.entries().take(0) =~= Seq::empty());
    while j < n
        invariant
            j <= n,
            n == devices.entries().len(),
            s@ == file_text(devices.entries().take(j as int)),
        decreases n - j,
    {
        let (ip, name) = devices.entry(j);
        push_str(&mut s, "\n");
        push_str(&mut s, ip.as_str());
        push_str(&mut s, ",");
        push_str(&mut s, name.as_str());
        assert(devices.entries().take(j + 1).drop_last() =~= devices.entries().take(j as int));
        assert(devices.entries().take(j + 1).last() == devices.entries()[j as int]);
        j = j + 1;
    }
    assert(devices.entries().take(n as int) =~= devices.entries());
    s
}

/// Recording the device at `ip` under `name`: the known devices with that entry
/// added or renamed, and the text of the devices file that records them.
pub fn save_device_info(known: DeviceTable, ip: &str, name: &str) -> (r: (DeviceTable, String))
    requires
        known.wf(),
    ensures
        r.0.wf(),
        r.0@ == known@.insert(ip@, name@),
        r.1@ == file_text(r.0.entries()),
{
    let mut devices = known;
    devices.insert(ip.to_owned(), name.to_owned());
    let text = device_file_contents(&devices);
    (devices, text)
}

/// The nickname that the user's answer gives: the trimmed answer, or
/// `No nickname` when nothing is left.
pub open spec fn nickname_of(answer: Seq<char>) -> Seq<char> {
    if trim(answer).len() == 0 {
        "No nickname"@
    } else {
        trim(answer)
    }
}

/// The nickname that the user's answer gives.
pub fn nickname(answer: &str) -> (s: String)
    ensures
        s@ == nickname_of(answer@),
        trim(answer@).len() > 0 ==> s@ == trim(answer@),
        trim(answer@).len() == 0 ==> s@ == "No nickname"@,
{
    let v = chars_of(answer);
    let (a, b) = trim_range(&v, 0, v.len());
    assert(v@.subrange(0, v@.len() as int) =~= answer@);
    if a == b {
        "No nickname".to_owned()
    } else {
        string_of(&v, a, b)
    }
}

/// Renaming the device at `ip` from the user's answer: the known devices with
/// its nickname recorded, and the text of the devices file that records them.
pub fn rename_device_by_ip(known: DeviceTable, ip: &str, answer: &str) -> (r: (DeviceTable, String))
    requires
        known.wf(),
    ensures
        r.0.wf(),
        r.0@ == known@.insert(ip@, nickname_of(answer@)),
        trim(answer@).len() > 0 ==> r.0@ == known@.insert(ip@, trim(answer@)),
        r.1@ == file_text(r.0.entries()),
{
    let name = nickname(answer);
    save_device_info(known, ip, name.as_str())
}

/// The line that lists one device: a tab, its address, a tab, its name.
pub open spec fn listing_line(ip: Seq<char>, name: Seq<char>) -> Seq<char> {
    "\t"@ + ip + "\t"@ + name
}

/// The lines that list `devices`, one per device, in the table's order.
pub fn print_devices(devices: &DeviceTable) -> (lines: Vec<String>)
    ensures
        string_views(lines@) == devices.entries().map_values(|e: (Seq<char>, Seq<char>)| listing_line(e.0, e.1)),
{
    let ghost want = devices.entries().map_values(|e: (Seq<char>, Seq<char>)| listing_line(e.0, e.1));
    let n = devices.entry_count();
    let mut lines: Vec<String> = Vec::new();
    let mut j: usize = 0;
    while j < n
        invariant
            j <= n,
            n == devices.entries().len(),
            want == devices.entries().map_values(|e: (Seq<char>, Seq<char>)| listing_line(e.0, e.1)),
            string_views(lines@) == want.take(j as int),
        decreases n - j,
    {
        let (ip, name) = devices.entry(j);
        let mut line = "\t".to_owned();
        push_str(&mut line, ip.as_str());
        push_str(&mut line, "\t");
        push_str(&mut line, name.as_str());
        let ghost before = lines@;
        let ghost lv = line@;
        assert(lv =~= want[j as int]);
        lines.push(line);
        assert(string_views(lines@) =~= string_views(before).push(lv));
        assert(want.take(j + 1) =~= want.take(j as int).push(lv));
        j = j + 1;
    }
    assert(want.take(n as int) =~= want);
    lines
}


/// The line of the devices file for one device.
pub open spec fn file_line(e: (Seq<char>, Seq<char>)) -> Seq<char> {
    e.0 + ","@ + e.1
}

/// The lines after the header, each preceded by its line break.
pub open spec fn file_tail(es: Seq<(Seq<char>, Seq<char>)>) -> Seq<char>
    decreases es.len(),
{
    if es.len() == 0 {
        Seq::empty()
    } else {
        "\n"@ + file_line(es[0]) + file_tail(es.drop_first())
    }
}

/// Neither the address nor the name of any entry holds a line break or carriage return.
pub open spec fn single_line_entries(es: Seq<(Seq<char>, Seq<char>)>) -> bool {
    forall|i: int| 0 <= i < es.len() ==> !(#[trigger] es[i]).0.contains('\n') && !es[i].0.contains('\r')
        && !es[i].1.contains('\n') && !es[i].1.contains('\r')
}

proof fn lemma_file_tail_push(es: Seq<(Seq<char>, Seq<char>)>, e: (Seq<char>, Seq<char>))
    ensures
        file_tail(es.push(e)) == file_tail(es) + "\n"@ + file_line(e),
    decreases es.len(),
{
    if es.len() == 0 {
        assert(es.push(e).drop_first() =~= Seq::<(Seq<char>, Seq<char>)>::empty());
        assert(es.push(e)[0] == e);
        assert(file_tail(es.push(e)) == "\n"@ + file_line(e) + file_tail(Seq::<(Seq<char>, Seq<char>)>::empty()));
        assert(file_tail(es) == Seq::<char>::empty());
        assert(file_tail(es.push(e)) =~= file_tail(es) + "\n"@ + file_line(e));
    } else {
        lemma_file_tail_push(es.drop_first(), e);
        assert(es.push(e).drop_first() =~= es.drop_first().push(e));
        assert(es.push(e)[0] == es[0]);
        let h = "\n"@ + file_line(es[0]);
        assert(file_tail(es.push(e)) == h + file_tail(es.drop_first().push(e)));
        assert(file_tail(es) == h + file_tail(es.drop_first()));
        assert(h + (file_tail(es.drop_first()) + "\n"@ + file_line(e)) =~= (h + file_tail(es.drop_first())) + "\n"@ + file_line(e));
    }
}

proof fn lemma_file_text_tail(es: Seq<(Seq<char>, Seq<char>)>)
    ensures
        file_text(es) == "IP,NAME"@ + file_tail(es),
    decreases es.len(),
{
    if es.len() == 0 {
        assert(file_text(es) =~= "IP,NAME"@ + file_tail(es));
    } else {
        lemma_file_text_tail(es.drop_last());
        lemma_file_tail_push(es.drop_last(), es.last());
        assert(es.drop_last().push(es.last()) =~= es);
        assert(file_text(es) =~= "IP,NAME"@ + file_tail(es));
    }
}

proof fn lemma_lines_without_break(t: Seq<char>, cur: Seq<char>)
    requires
        !t.contains('\n'),
    ensures
        lines_from(t, cur) == if (cur + t).len() == 0 { Seq::<Seq<char>>::empty() } else { seq![cur + t] },
    decreases t.len(),
{
    if t.len() == 0 {
        assert(cur + t =~= cur);
    } else {
        assert(t[0] != '\n');
        let r = t.drop_first();
        assert(!r.contains('\n')) by {
            if r.contains('\n') {
                let i = choose|i: int| 0 <= i < r.len() && r[i] == '\n';
                assert(t[i + 1] == '\n');
            }
        }
        lemma_lines_without_break(r, cur.push(t[0]));
        assert(cur.push(t[0]) + r =~= cur + t);
    }
}

proof fn lemma_lines_break(a: Seq<char>, b: Seq<char>, cur: Seq<char>)
    requires
        !a.contains('\n'),
    ensures
        lines_from(a + "\n"@ + b, cur) == seq![strip_cr(cur + a)] + lines_from(b, Seq::empty()),
    decreases a.len(),
{
    reveal_strlit("\n");
    let s = a + "\n"@ + b;
    if a.len() == 0 {
        assert(s[0] == '\n');
        assert(s.drop_first() =~= b);
        assert(cur + a =~= cur);
    } else {
        assert(s[0] == a[0]);
        let r = a.drop_first();
        assert(!r.contains('\n')) by {
            if r.contains('\n') {
                let i = choose|i: int| 0 <= i < r.len() && r[i] == '\n';
                assert(a[i + 1] == '\n');
            }
        }
        lemma_lines_break(r, b, cur.push(a[0]));
        assert(s.drop_first() =~= r + "\n"@ + b);
        assert(cur.push(a[0]) + r =~= cur + a);
    }
}

proof fn lemma_lines_of_tail(first: Seq<char>, es: Seq<(Seq<char>, Seq<char>)>)
    requires
        first.len() > 0,
        !first.contains('\n'),
        first.last() != '\r',
        single_line_entries(es),
    ensures
        lines_from(first + file_tail(es), Seq::empty()) == seq![first] + es.map_values(|e: (Seq<char>, Seq<char>)| file_line(e)),
    decreases es.len(),
{
    let lm = es.map_values(|e: (Seq<char>, Seq<char>)| file_line(e));
    if es.len() == 0 {
        assert(first + file_tail(es) =~= first);
        lemma_lines_without_break(first, Seq::empty());
        assert(Seq::<char>::empty() + first =~= first);
        assert(seq![first] + lm =~= seq![first]);
    } else {
        let e = es[0];
        let rest = es.drop_first();
        let line = file_line(e);
        reveal_strlit(",");
        assert(single_line_entries(rest)) by {
            assert forall|i: int| 0 <= i < rest.len() implies !(#[trigger] rest[i]).0.contains('\n') && !rest[i].0.contains('\r')
                && !rest[i].1.contains('\n') && !rest[i].1.contains('\r') by {
                assert(rest[i] == es[i + 1]);
            }
        }
        assert(!e.0.contains('\n') && !e.0.contains('\r') && !e.1.contains('\n') && !e.1.contains('\r'));
        assert(line.len() > 0);
        assert(!line.contains('\n')) by {
            if line.contains('\n') {
                let i = choose|i: int| 0 <= i < line.len() && line[i] == '\n';
                if i < e.0.len() {
                    assert(e.0[i] == '\n');
                } else if i == e.0.len() {
                    assert(line[i] == ',');
                } else {
                    assert(e.1[i - e.0.len() - 1] == '\n');
                }
            }
        }
        assert(line.last() != '\r') by {
            let i = line.len() - 1;
            if e.1.len() > 0 {
                assert(line[i] == e.1[e.1.len() - 1]);
            } else {
                assert(line[i] == ',');
            }
        }
        lemma_lines_of_tail(line, rest);
        assert(first + file_tail(es) =~= first + "\n"@ + (line + file_tail(rest)));
        lemma_lines_break(first, line + file_tail(rest), Seq::empty());
        assert(Seq::<char>::empty() + first =~= first);
        assert(strip_cr(first) == first);
        let lr = rest.map_values(|e: (Seq<char>, Seq<char>)| file_line(e));
        assert(lm =~= seq![line] + lr);
        assert(seq![first] + (seq![line] + lr) =~= seq![first] + lm);
    }
}

/// The devices file lists the table: its lines are the header `IP,NAME` and then
/// one line `ip,name` per device, in the table's order, when no address or name
/// holds a line break or carriage return.
pub proof fn lemma_file_lines(es: Seq<(Seq<char>, Seq<char>)>)
    requires
        single_line_entries(es),
    ensures
        lines(file_text(es)) == seq!["IP,NAME"@] + es.map_values(|e: (Seq<char>, Seq<char>)| file_line(e)),
{
    reveal_strlit("IP,NAME");
    lemma_file_text_tail(es);
    let h = "IP,NAME"@;
    assert(h.len() == 7);
    assert(!h.contains('\n')) by {
        if h.contains('\n') {
            let i = choose|i: int| 0 <= i < h.len() && h[i] == '\n';
        }
    }
    assert(h.last() == 'E');
    lemma_lines_of_tail(h, es);
}

/// What is saved is what is read back: once `name` is recorded for `ip`, the
/// table gives that name for `ip`, and every other device keeps its entry.
pub proof fn lemma_save_read_back(known: Map<Seq<char>, Seq<char>>, ip: Seq<char>, name: Seq<char>, other: Seq<char>)
    requires
        other != ip,
    ensures
        known.insert(ip, name).contains_key(ip),
        known.insert(ip, name)[ip] == name,
        known.insert(ip, name).contains_key(other) == known.contains_key(other),
        known.contains_key(other) ==> known.insert(ip, name)[other] == known[other],
{
}

/// A recorded nickname is never empty.
pub proof fn lemma_nickname_not_empty(answer: Seq<char>)
    ensures
        nickname_of(answer).len() > 0,
{
    reveal_strlit("No nickname");
}


/// A non-blank answer is recorded as typed, apart from the white space around it:
/// the nickname is the trimmed answer, a contiguous piece of what the user typed
/// with every character (and its case) kept.
pub proof fn lemma_nickname_as_typed(answer: Seq<char>)
    requires
        trim(answer).len() > 0,
    ensures
        nickname_of(answer) == trim(answer),
        exists|a: int, b: int| 0 <= a <= b <= answer.len() && nickname_of(answer) == #[trigger] answer.subrange(a, b),
{
    lemma_trim_is_piece(answer);
}

} // verus!
