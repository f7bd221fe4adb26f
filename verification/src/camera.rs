//! The phone as a virtual camera: the decisions of enabling, disabling and
//! toggling it, and the scrcpy and kill command lines involved.

use vstd::prelude::*;

use crate::devices::string_views;
use crate::select::Invocation;
use crate::text::{
    chars_of, contains_seq, decimal, decimal_string, lemma_parse_decimal, lemma_trim_decimal,
    line_ranges, lines, parse_bounded, parse_range, pieces, push_decimal, range_contains,
    ranges_within, trim, trim_range,
};

verus! {

/// The camera used unless the user picks another.
pub const DEFAULT_CAMERA: u32 = 1;

/// What a camera command does.
#[derive(PartialEq, Eq, Structural, Clone, Copy, Debug)]
pub enum CameraCommand {
    /// Start streaming a device's camera; `use_default_camera` set to `Some(true)`
    /// means the user is asked which camera to use.
    Enable { use_default_camera: Option<bool> },
    /// Stop the running camera stream.
    Disable,
}

/// Enabling the camera: the user is asked which camera to use.
pub fn enable() -> (c: CameraCommand)
    ensures
        c == (CameraCommand::Enable { use_default_camera: Some(true) }),
{
    CameraCommand::Enable { use_default_camera: Some(true) }
}

/// Toggling the camera: a running stream is stopped, else one is started on the
/// default camera without asking.
pub fn toggle(currently_enabled: bool) -> (c: CameraCommand)
    ensures
        c == if currently_enabled {
            CameraCommand::Disable
        } else {
            CameraCommand::Enable { use_default_camera: Some(false) }
        },
{
    if currently_enabled {
        CameraCommand::Disable
    } else {
        CameraCommand::Enable { use_default_camera: Some(false) }
    }
}

/// Whether a line of the process list shows a camera stream: it mentions `scrcpy`
/// and the `--video-source=camera` argument that `start_camera` passes.
pub open spec fn shows_camera_stream(line: Seq<char>) -> bool {
    contains_seq(line, "scrcpy"@) && contains_seq(line, "--video-source=camera"@)
}

/// Whether a camera stream runs, from the process list (`ps -x`): some line of it
/// shows a camera stream.
pub fn is_enabled(ps_listing: &str) -> (b: bool)
    ensures
        b == exists|i: int| 0 <= i < lines(ps_listing@).len() && #[trigger] shows_camera_stream(lines(ps_listing@)[i]),
{
    let v = chars_of(ps_listing);
    let program = chars_of("scrcpy");
    let source = chars_of("--video-source=camera");
    let r = line_ranges(&v);
    let ghost ls = pieces(v@, r@);
    let mut k: usize = 0;
    while k < r.len()
        invariant
            k <= r.len(),
            ls == pieces(v@, r@),
            ls == lines(ps_listing@),
            v@ == ps_listing@,
            program@ == "scrcpy"@,
            source@ == "--video-source=camera"@,
            ranges_within(r@, 0, v.len() as int),
            forall|j: int| 0 <= j < k ==> !shows_camera_stream(#[trigger] ls[j]),
        decreases r.len() - k,
    {
        let (lo, hi) = r[k];
        assert(ls[k as int] == v@.subrange(lo as int, hi as int));
        if range_contains(&v, lo, hi, &program) && range_contains(&v, lo, hi, &source) {
            assert(shows_camera_stream(ls[k as int]));
            return true;
        }
        k = k + 1;
    }
    false
}

/// A process line that lists `scrcpy` and, after it, the camera-source argument
/// that `start_camera` passes counts as a running camera stream, whatever
/// surrounds them.
pub proof fn lemma_started_stream_is_seen(before: Seq<char>, between: Seq<char>, after: Seq<char>)
    ensures
        shows_camera_stream(before + "scrcpy"@ + between + "--video-source=camera"@ + after),
{
    let p = "scrcpy"@;
    let q = "--video-source=camera"@;
    let line = before + p + between + q + after;
    let i = before.len() as int;
    assert(line.subrange(i, i + p.len()) =~= p);
    let j = (before.len() + p.len() + between.len()) as int;
    assert(line.subrange(j, j + q.len()) =~= q);
}

/// `ps -x`, waited for: lists the user's processes.
pub fn process_listing() -> (r: Invocation)
    ensures
        r.program@ == "ps"@,
        string_views(r.args@) == seq!["-x"@],
        !r.detached,
{
    let args = vec!["-x".to_owned()];
    assert(string_views(args@) =~= seq!["-x"@]);
    Invocation { program: "ps".to_owned(), args, detached: false }
}

/// The scrcpy arguments that stream camera `camera_id` of the device at `ip` to
/// the first video loopback device.
pub open spec fn camera_args(ip: Seq<char>, camera_id: nat) -> Seq<Seq<char>> {
    seq![
        "-s"@,
        ip,
        "--video-source=camera"@,
        "--camera-id="@ + decimal(camera_id),
        "--camera-size=1920x1080"@,
        "--v4l2-sink=/dev/video0"@,
        "--no-audio"@,
        "--no-window"@,
    ]
}

/// `scrcpy` streaming camera `camera_id` of the device at `ip`, left running.
pub fn start_camera(ip: &str, camera_id: u32) -> (r: Invocation)
    ensures
        r.program@ == "scrcpy"@,
        string_views(r.args@) == camera_args(ip@, camera_id as nat),
        r.args.len() == 8,
        r.args@[3]@ == "--camera-id="@ + decimal(camera_id as nat),
        r.detached,
{
    let mut id_arg = "--camera-id=".to_owned();
    push_decimal(&mut id_arg, camera_id as u64);
    let args = vec![
        "-s".to_owned(),
        ip.to_owned(),
        "--video-source=camera".to_owned(),
        id_arg,
        "--camera-size=1920x1080".to_owned(),
        "--v4l2-sink=/dev/video0".to_owned(),
        "--no-audio".to_owned(),
        "--no-window".to_owned(),
    ];
    assert(string_views(args@) =~= camera_args(ip@, camera_id as nat));
    assert(string_views(args@)[3] == args@[3]@);
    Invocation { program: "scrcpy".to_owned(), args, detached: true }
}

/// How enabling the camera goes on once a device has been selected (or not).
pub enum CameraStart {
    /// Ask the user whether to use the default camera of the device at `ip`.
    AskCamera { ip: String },
    /// Start this stream.
    Launch(Invocation),
}

/// Why enabling the camera stops.
#[derive(PartialEq, Eq, Structural, Clone, Copy, Debug)]
pub enum CameraError {
    /// No device was selected.
    NoDeviceSelected,
}

/// Enabling the camera on the selected device: without a device it fails;
/// when `use_default_camera` is `Some(true)` the user is asked about the camera,
/// else camera `DEFAULT_CAMERA` is streamed.
pub fn enable_with_camera_choice(selected: Option<&str>, use_default_camera: Option<bool>) -> (r: Result<CameraStart, CameraError>)
    ensures
        match selected {
            None => r == Err::<CameraStart, CameraError>(CameraError::NoDeviceSelected),
            Some(ip) => if use_default_camera == Some(true) {
                r matches Ok(CameraStart::AskCamera { ip: asked }) && asked@ == ip@
            } else {
                r matches Ok(CameraStart::Launch(inv)) && inv.program@ == "scrcpy"@
                    && string_views(inv.args@) == camera_args(ip@, DEFAULT_CAMERA as nat) && inv.detached
            },
        },
{
    match selected {
        None => Err(CameraError::NoDeviceSelected),
        Some(ip) => {
            let ask = match use_default_camera {
                Some(b) => b,
                None => false,
            };
            if ask {
                Ok(CameraStart::AskCamera { ip: ip.to_owned() })
            } else {
                Ok(CameraStart::Launch(start_camera(ip, DEFAULT_CAMERA)))
            }
        },
    }
}

/// Whether an answer to "Use default camera?" keeps the default: every answer
/// but `n` (in either case, around white space) does.
pub open spec fn keeps_default(answer: Seq<char>) -> bool {
    trim(answer) != seq!['n'] && trim(answer) != seq!['N']
}

/// Whether the user's answer keeps the default camera.
pub fn wants_default_camera(answer: &str) -> (b: bool)
    ensures
        b == keeps_default(answer@),
{
    let v = chars_of(answer);
    let (a, z) = trim_range(&v, 0, v.len());
    assert(v@.subrange(0, v@.len() as int) =~= answer@);
    if z - a == 1 && (v[a] == 'n' || v[a] == 'N') {
        assert(v@.subrange(a as int, z as int) =~= seq![v@[a as int]]);
        false
    } else {
        proof {
            let t = v@.subrange(a as int, z as int);
            if t == seq!['n'] || t == seq!['N'] {
                assert(t.len() == 1);
                assert(t[0] == v@[a as int]);
                assert(seq!['n'][0] == 'n');
                assert(seq!['N'][0] == 'N');
            }
        }
        true
    }
}

/// `scrcpy -s <ip> --list-cameras`, waited for.
pub fn list_cameras(ip: &str) -> (r: Invocation)
    ensures
        r.program@ == "scrcpy"@,
        string_views(r.args@) == seq!["-s"@, ip@, "--list-cameras"@],
        !r.detached,
{
    let args = vec!["-s".to_owned(), ip.to_owned(), "--list-cameras".to_owned()];
    assert(string_views(args@) =~= seq!["-s"@, ip@, "--list-cameras"@]);
    Invocation { program: "scrcpy".to_owned(), args, detached: false }
}

/// The camera the user picks.
pub enum CameraChoice {
    /// This camera.
    Camera(u32),
    /// The cameras are listed (by running this) and the user is asked for an ID.
    List(Invocation),
}

/// The camera to use on the device at `ip`, from the answer to "Use default camera?".
pub fn select_camera(ip: &str, answer: &str) -> (r: CameraChoice)
    ensures
        keeps_default(answer@) ==> r == CameraChoice::Camera(DEFAULT_CAMERA),
        !keeps_default(answer@) ==> (r matches CameraChoice::List(inv) && inv.program@ == "scrcpy"@
            && string_views(inv.args@) == seq!["-s"@, ip@, "--list-cameras"@] && !inv.detached),
{
    if wants_default_camera(answer) {
        CameraChoice::Camera(DEFAULT_CAMERA)
    } else {
        CameraChoice::List(list_cameras(ip))
    }
}

/// A 32-bit unsigned integer written in `text`, around white space (as
/// `text.trim().parse::<u32>()` reads it).
pub fn parse_trimmed_u32(text: &str) -> (r: Option<u32>)
    ensures
        match r {
            Some(n) => parse_bounded(trim(text@), u32::MAX as nat) == Some(n as nat),
            None => parse_bounded(trim(text@), u32::MAX as nat) is None,
        },
{
    let v = chars_of(text);
    let (a, z) = trim_range(&v, 0, v.len());
    assert(v@.subrange(0, v@.len() as int) =~= text@);
    match parse_range(&v, a, z, u32::MAX as u64) {
        Some(n) => Some(n as u32),
        None => None,
    }
}

/// The camera ID that the user typed, if it is one.
pub fn camera_id_from_reply(reply: &str) -> (r: Option<u32>)
    ensures
        match r {
            Some(n) => parse_bounded(trim(reply@), u32::MAX as nat) == Some(n as nat),
            None => parse_bounded(trim(reply@), u32::MAX as nat) is None,
        },
{
    parse_trimmed_u32(reply)
}

/// What is written to the PID file of the camera stream: the process ID in decimal.
pub fn pid_file_contents(pid: u32) -> (s: String)
    ensures
        s@ == decimal(pid as nat),
{
    decimal_string(pid as u64)
}

/// The process ID read back from the PID file of the camera stream.
pub fn parse_pid(contents: &str) -> (r: Option<u32>)
    ensures
        match r {
            Some(n) => parse_bounded(trim(contents@), u32::MAX as nat) == Some(n as nat),
            None => parse_bounded(trim(contents@), u32::MAX as nat) is None,
        },
{
    parse_trimmed_u32(contents)
}

/// `kill <pid>`, waited for: stops the camera stream.
pub fn kill_camera(pid: u32) -> (r: Invocation)
    ensures
        r.program@ == "kill"@,
        string_views(r.args@) == seq![decimal(pid as nat)],
        !r.detached,
{
    let args = vec![decimal_string(pid as u64)];
    assert(string_views(args@) =~= seq![decimal(pid as nat)]);
    Invocation { program: "kill".to_owned(), args, detached: false }
}

/// The PID file holds what disabling reads back: for every process ID, reading
/// the written contents gives that process ID.
pub proof fn lemma_pid_round_trip(pid: u32)
    ensures
        parse_bounded(trim(decimal(pid as nat)), u32::MAX as nat) == Some(pid as nat),
{
    lemma_trim_decimal(pid as nat);
    lemma_parse_decimal(pid as nat, u32::MAX as nat);
}


/// The camera argument names the requested camera: it is `--camera-id=` followed
/// by the camera's number in decimal, reading that number back gives the camera,
/// and two different cameras never get the same argument.
pub proof fn lemma_camera_arg_names_camera(ip: Seq<char>, camera: nat, other: nat)
    requires
        camera <= u32::MAX,
        other <= u32::MAX,
    ensures
        camera_args(ip, camera)[3] == "--camera-id="@ + decimal(camera),
        camera_args(ip, camera)[3].skip(12) == decimal(camera),
        parse_bounded(camera_args(ip, camera)[3].skip(12), u32::MAX as nat) == Some(camera),
        camera != other ==> camera_args(ip, camera)[3] != camera_args(ip, other)[3],
{
    reveal_strlit("--camera-id=");
    let pre = "--camera-id="@;
    assert(pre.len() == 12);
    assert((pre + decimal(camera)).skip(12) =~= decimal(camera));
    assert((pre + decimal(other)).skip(12) =~= decimal(other));
    lemma_parse_decimal(camera, u32::MAX as nat);
    lemma_parse_decimal(other, u32::MAX as nat);
}

} // verus!
