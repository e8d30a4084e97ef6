//! Reading the table of contents and the drive state: what the header and
//! entry reads mean, the error reported for each failure, the drive status
//! codes, and finding the drive in `/proc/sys/dev/cdrom/info`.
//! The reads themselves (ioctl on the device) are the caller's.
use vstd::prelude::*;
use crate::discid::Toc;
use crate::text;
use crate::text::{lines_of, push_char, push_str, starts_with, string_of, trimmed};

verus! {

/// The track numbers to read after the header: `first..=last`; a disc whose
/// last track number is 0 has no tracks.
pub fn track_numbers(first: u8, last: u8) -> (r: Result<Vec<u8>, String>)
    ensures
        last == 0 ==> (r matches Err(e) && e@ == "这张盘没有音轨"@),
        last != 0 ==> (r matches Ok(v) && v@.len() == (if first <= last {
            last - first + 1
        } else {
            0
        }) && forall|i: int| 0 <= i < v@.len() ==> v@[i] == first + i),
{
    if last == 0 {
        return Err(string_of("这张盘没有音轨"));
    }
    let mut v: Vec<u8> = Vec::new();
    let mut n: u16 = first as u16;
    while n <= last as u16
        invariant
            first <= n <= last as u16 + 1 || (first > last && n == first),
            v@.len() == n - first,
            forall|i: int| 0 <= i < v@.len() ==> v@[i] == first + i,
        decreases last as u16 + 1 - n,
    {
        v.push(n as u8);
        n = n + 1;
    }
    Ok(v)
}

/// A track entry: the raw LBA (the ioctl's signed address, reinterpreted)
/// and the control nibble.
pub fn track_entry(addr: i32, ctrl_adr: u8) -> (r: (u32, u8))
    ensures
        r.0 == addr as u32,
        r.1 == (ctrl_adr >> 4u8) & 0x0Fu8,
{
    (addr as u32, (ctrl_adr >> 4u8) & 0x0Fu8)
}

/// The table of contents from the header's track numbers, the entries in
/// track order and the lead-out address.
pub fn toc_from(first: u8, last: u8, entries: &Vec<(i32, u8)>, leadout_addr: i32) -> (t: Toc)
    ensures
        t.first == first,
        t.last == last,
        t.leadout == leadout_addr as u32,
        t.tracks@.len() == entries@.len(),
        forall|i: int|
            0 <= i < entries@.len() ==> t.tracks@[i] == (
                entries@[i].0 as u32,
                (entries@[i].1 >> 4u8) & 0x0Fu8,
            ),
{
    let mut tracks: Vec<(u32, u8)> = Vec::new();
    let n = entries.len();
    let mut i: usize = 0;
    while i < n
        invariant
            n == entries@.len(),
            i <= n,
            tracks@.len() == i,
            forall|k: int|
                0 <= k < i ==> tracks@[k] == (
                    entries@[k].0 as u32,
                    (entries@[k].1 >> 4u8) & 0x0Fu8,
                ),
        decreases n - i,
    {
        let (a, c) = entries[i];
        tracks.push(track_entry(a, c));
        i = i + 1;
    }
    Toc { first, last, tracks, leadout: leadout_addr as u32 }
}

/// "msg: detail".
pub open spec fn with_detail(msg: Seq<char>, detail: Seq<char>) -> Seq<char> {
    msg + ": "@ + detail
}

fn message(msg: &str, detail: &str) -> (r: String)
    ensures
        r@ == with_detail(msg@, detail@),
{
    let mut r = string_of(msg);
    push_str(&mut r, ": ");
    push_str(&mut r, detail);
    r
}

/// The error after the header read failed: no medium (errno 123,
/// ENOMEDIUM) or the OS error.
pub fn header_error(errno: Option<i32>, detail: &str) -> (r: String)
    ensures
        errno == Some(123i32) ==> r@ == "光驱里没有光盘"@,
        errno != Some(123i32) ==> r@ == with_detail("读取 TOC 头失败"@, detail@),
{
    if errno == Some(123i32) {
        string_of("光驱里没有光盘")
    } else {
        message("读取 TOC 头失败", detail)
    }
}

/// The error after reading the entry of track `n` failed.
pub fn entry_error(n: u8, detail: &str) -> (r: String)
    ensures
        r@ == with_detail("读取轨道 "@ + text::dec_chars(n as nat) + " 失败"@, detail@),
{
    let mut m = string_of("读取轨道 ");
    crate::text::push_decimal(&mut m, n as u64);
    push_str(&mut m, " 失败");
    message(m.as_str(), detail)
}

/// The error after reading the lead-out failed.
pub fn leadout_error(detail: &str) -> (r: String)
    ensures
        r@ == with_detail("读取 lead-out 失败"@, detail@),
{
    message("读取 lead-out 失败", detail)
}

/// The error when the device cannot be opened.
pub fn open_error(device: &str, detail: &str) -> (r: String)
    ensures
        r@ == "打开 "@ + device@ + " 失败: "@ + detail@,
{
    let mut r = string_of("打开 ");
    push_str(&mut r, device);
    push_str(&mut r, " 失败: ");
    push_str(&mut r, detail);
    r
}

/// Drive status from the CDROM_DRIVE_STATUS code: 4 (disc ok) is "disc",
/// 1 and 2 (no disc, tray open) are "empty", anything else (failure
/// included) "unknown".
pub fn drive_status(code: i32) -> (r: String)
    ensures
        r@ == (if code == 4 {
            "disc"@
        } else if code == 1 || code == 2 {
            "empty"@
        } else {
            "unknown"@
        }),
{
    if code < 0 {
        string_of("unknown")
    } else if code == 4 {
        string_of("disc")
    } else if code == 1 || code == 2 {
        string_of("empty")
    } else {
        string_of("unknown")
    }
}

/// Tray state from the contents of a `tray_open` attribute: open when it
/// reads "1" (surrounding whitespace aside).
pub fn tray_is_open(attr: &str) -> (r: bool)
    ensures
        r == (text::trim_chars(attr@) == "1"@),
{
    let t = trimmed(attr);
    crate::json::key_eq(t.as_str(), "1")
}

/// The part of a line after its last tab (the whole line without a tab).
pub open spec fn after_last_tab(l: Seq<char>) -> Seq<char>
    decreases l.len(),
{
    if l.len() == 0 {
        l
    } else if l.last() == '\t' {
        seq![]
    } else {
        after_last_tab(l.drop_last()).push(l.last())
    }
}

/// The drive name given by the first "drive name:" line that names one.
pub open spec fn first_drive_name(lines: Seq<Seq<char>>) -> Option<Seq<char>>
    decreases lines.len(),
{
    if lines.len() == 0 {
        None
    } else {
        let l = lines[0];
        let name = text::trim_chars(after_last_tab(l));
        if text::starts_with_chars(l, "drive name:"@) && name.len() > 0 {
            Some(name)
        } else {
            first_drive_name(lines.drop_first())
        }
    }
}

fn after_last_tab_of(l: &str) -> (r: String)
    ensures
        r@ == after_last_tab(l@),
{
    let n = l.unicode_len();
    let mut r = String::new();
    let mut i: usize = 0;
    while i < n
        invariant
            n == l@.len(),
            i <= n,
            r@ == after_last_tab(l@.take(i as int)),
        decreases n - i,
    {
        let c = l.get_char(i);
        assert(l@.take(i + 1).drop_last() =~= l@.take(i as int));
        if c == '\t' {
            r = String::new();
            assert(r@ =~= after_last_tab(l@.take(i + 1)));
        } else {
            push_char(&mut r, c);
        }
        i = i + 1;
    }
    assert(l@.take(n as int) =~= l@);
    r
}

/// The drive device named in `/proc/sys/dev/cdrom/info`: "/dev/" and the
/// name after the last tab of the first "drive name:" line that has one.
pub fn device_from_info(info: &str) -> (r: Result<String, String>)
    ensures
        match first_drive_name(text::text_lines(info@)) {
            Some(name) => r matches Ok(d) && d@ == "/dev/"@ + name,
            None => r matches Err(e) && e@ == "未发现光驱"@,
        },
{
    let lines = lines_of(info);
    let ghost ls = lines@.map_values(|l: String| l@);
    let n = lines.len();
    let mut i: usize = 0;
    assert(ls.skip(0) =~= ls);
    while i < n
        invariant
            n == lines@.len(),
            ls == lines@.map_values(|l: String| l@),
            ls == text::text_lines(info@),
            i <= n,
            first_drive_name(ls) == first_drive_name(ls.skip(i as int)),
        decreases n - i,
    {
        let line = lines[i].as_str();
        assert(ls.skip(i as int)[0] == line@);
        assert(ls.skip(i as int).drop_first() =~= ls.skip(i + 1));
        if starts_with(line, "drive name:") {
            let part = after_last_tab_of(line);
            let name = trimmed(part.as_str());
            if name.as_str().unicode_len() > 0 {
                let mut d = string_of("/dev/");
                push_str(&mut d, name.as_str());
                return Ok(d);
            }
        }
        i = i + 1;
    }
    Err(string_of("未发现光驱"))
}

/// Attempts at opening the device before ejecting (it may be re-enumerating).
pub const EJECT_OPEN_ATTEMPTS: u32 = 5;

/// Attempts at ejecting.
pub const EJECT_ATTEMPTS: u32 = 3;

/// Pause between attempts, in milliseconds.
pub const EJECT_RETRY_MS: u64 = 400;

/// The error when the device could not be opened for ejecting.
pub fn eject_open_error(device: &str, last: &str) -> (r: String)
    ensures
        r@ == "打开 "@ + device@ + " 失败: "@ + last@ + " — 设备是否掉线? 检查 USB 线/接口"@,
{
    let mut r = open_error(device, last);
    push_str(&mut r, " — 设备是否掉线? 检查 USB 线/接口");
    r
}

/// The error when every eject attempt failed.
pub fn eject_error(last: &str) -> (r: String)
    ensures
        r@ == "弹出失败: "@ + last@,
{
    let mut r = string_of("弹出失败: ");
    push_str(&mut r, last);
    r
}

/// Where the eject procedure stands: opening the device or ejecting, and
/// how many attempts of that phase have failed so far.
pub struct EjectState {
    pub opening: bool,
    pub failed: u32,
}

/// What happened since the last step.
pub enum EjectEvent {
    /// Nothing yet: the procedure starts.
    Start,
    /// Opening the device failed with this error.
    OpenFailed(String),
    /// The device is open.
    Opened,
    /// Unlocking and ejecting failed with this error.
    EjectFailed(String),
    /// The tray is out.
    Ejected,
}

/// What to do next.
pub enum EjectAction {
    /// Wait, then open the device.
    Open { wait_ms: u64 },
    /// Wait, then unlock the door and eject.
    Eject { wait_ms: u64 },
    /// Finished: the tray is out.
    Done,
    /// Wait, then give up with this error.
    Fail { wait_ms: u64, error: String },
}

/// The eject procedure as a function of its state and the last event: the
/// device is opened up to five times, 400 ms apart (the error comes 400 ms
/// after the last failure); then unlocking and ejecting are tried up to
/// three times, 400 ms apart. An event that does not fit the phase starts
/// over.
pub open spec fn spec_eject_step(device: Seq<char>, opening: bool, failed: u32, ev: EjectEvent) -> (
    bool,
    u32,
    u8,
    u64,
    Seq<char>,
) {
    match ev {
        EjectEvent::OpenFailed(e) if opening => if failed + 1 < EJECT_OPEN_ATTEMPTS {
            (true, (failed + 1) as u32, 0, EJECT_RETRY_MS, seq![])
        } else {
            (
                true,
                (failed + 1) as u32,
                3,
                EJECT_RETRY_MS,
                "打开 "@ + device + " 失败: "@ + e@ + " — 设备是否掉线? 检查 USB 线/接口"@,
            )
        },
        EjectEvent::Opened if opening => (false, 0, 1, 0, seq![]),
        EjectEvent::EjectFailed(e) if !opening => if failed + 1 < EJECT_ATTEMPTS {
            (false, (failed + 1) as u32, 1, EJECT_RETRY_MS, seq![])
        } else {
            (false, (failed + 1) as u32, 3, 0, "弹出失败: "@ + e@)
        },
        EjectEvent::Ejected if !opening => (false, failed, 2, 0, seq![]),
        _ => (true, 0, 0, 0, seq![]),
    }
}

/// (opening, failed, kind, wait, error) of a step's result; kind 0 = open,
/// 1 = eject, 2 = done, 3 = fail.
pub open spec fn eject_step_view(r: (EjectState, EjectAction)) -> (bool, u32, u8, u64, Seq<char>) {
    match r.1 {
        EjectAction::Open { wait_ms } => (r.0.opening, r.0.failed, 0, wait_ms, seq![]),
        EjectAction::Eject { wait_ms } => (r.0.opening, r.0.failed, 1, wait_ms, seq![]),
        EjectAction::Done => (r.0.opening, r.0.failed, 2, 0, seq![]),
        EjectAction::Fail { wait_ms, error } => (r.0.opening, r.0.failed, 3, wait_ms, error@),
    }
}

/// One step of the eject procedure.
pub fn eject_step(device: &str, state: EjectState, event: EjectEvent) -> (r: (EjectState, EjectAction))
    requires
        state.opening ==> state.failed < EJECT_OPEN_ATTEMPTS,
        !state.opening ==> state.failed < EJECT_ATTEMPTS,
    ensures
        eject_step_view(r) == spec_eject_step(device@, state.opening, state.failed, event),
        !(r.1 is Fail) ==> (r.0.opening ==> r.0.failed < EJECT_OPEN_ATTEMPTS) && (!r.0.opening
            ==> r.0.failed < EJECT_ATTEMPTS),
{
    let opening = state.opening;
    let failed = state.failed;
    match event {
        EjectEvent::OpenFailed(e) if opening => {
            if failed + 1 < EJECT_OPEN_ATTEMPTS {
                (EjectState { opening: true, failed: failed + 1 }, EjectAction::Open { wait_ms: EJECT_RETRY_MS })
            } else {
                (
                    EjectState { opening: true, failed: failed + 1 },
                    EjectAction::Fail { wait_ms: EJECT_RETRY_MS, error: eject_open_error(device, e.as_str()) },
                )
            }
        },
        EjectEvent::Opened if opening => {
            (EjectState { opening: false, failed: 0 }, EjectAction::Eject { wait_ms: 0 })
        },
        EjectEvent::EjectFailed(e) if !opening => {
            if failed + 1 < EJECT_ATTEMPTS {
                (EjectState { opening: false, failed: failed + 1 }, EjectAction::Eject { wait_ms: EJECT_RETRY_MS })
            } else {
                (
                    EjectState { opening: false, failed: failed + 1 },
                    EjectAction::Fail { wait_ms: 0, error: eject_error(e.as_str()) },
                )
            }
        },
        EjectEvent::Ejected if !opening => (EjectState { opening: false, failed }, EjectAction::Done),
        _ => (EjectState { opening: true, failed: 0 }, EjectAction::Open { wait_ms: 0 }),
    }
}

} // verus!
