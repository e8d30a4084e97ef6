use cd_core::toc::{
    device_from_info, drive_status, eject_error, eject_step, EjectAction, EjectEvent, EjectState, eject_open_error, entry_error,
    header_error, leadout_error, open_error, toc_from, track_entry, track_numbers, tray_is_open,
};

#[test]
fn header_track_numbers() {
    assert_eq!(track_numbers(1, 3).unwrap(), vec![1, 2, 3]);
    assert_eq!(track_numbers(1, 255).unwrap().len(), 255);
    assert_eq!(track_numbers(5, 2).unwrap(), Vec::<u8>::new());
    assert_eq!(track_numbers(1, 0).unwrap_err(), "这张盘没有音轨");
}

#[test]
fn entries_become_toc() {
    assert_eq!(track_entry(150, 0x41), (150, 4));
    assert_eq!(track_entry(-1, 0x10), (u32::MAX, 1));
    let t = toc_from(1, 2, &vec![(0, 0x10), (20000, 0x40)], 30000);
    assert_eq!(t.tracks, vec![(0, 1), (20000, 4)]);
    assert_eq!(t.leadout, 30000);
    assert_eq!((t.first, t.last), (1, 2));
}

#[test]
fn read_errors() {
    assert_eq!(header_error(Some(123), "x"), "光驱里没有光盘");
    assert_eq!(header_error(Some(5), "I/O error"), "读取 TOC 头失败: I/O error");
    assert_eq!(header_error(None, "e"), "读取 TOC 头失败: e");
    assert_eq!(entry_error(7, "e"), "读取轨道 7 失败: e");
    assert_eq!(leadout_error("e"), "读取 lead-out 失败: e");
    assert_eq!(open_error("/dev/sr0", "No such file"), "打开 /dev/sr0 失败: No such file");
}

#[test]
fn status_codes() {
    assert_eq!(drive_status(4), "disc");
    assert_eq!(drive_status(1), "empty");
    assert_eq!(drive_status(2), "empty");
    assert_eq!(drive_status(3), "unknown");
    assert_eq!(drive_status(-1), "unknown");
}

#[test]
fn tray_attribute() {
    assert!(tray_is_open("1\n"));
    assert!(!tray_is_open("0\n"));
    assert!(!tray_is_open("10"));
}

#[test]
fn drive_from_proc_info() {
    let info = "CD-ROM information, Id: cdrom.c 3.20 2003/12/17\n\ndrive name:\t\tsr0\ndrive speed:\t\t24\n";
    assert_eq!(device_from_info(info).unwrap(), "/dev/sr0");
    let two = "drive name:\t\tsr1\tsr0\r\n";
    assert_eq!(device_from_info(two).unwrap(), "/dev/sr0");
    assert_eq!(device_from_info("drive name:\t\t\ndrive speed:\t24\n").unwrap_err(), "未发现光驱");
    assert_eq!(device_from_info("").unwrap_err(), "未发现光驱");
}

#[test]
fn eject_policy() {
    assert_eq!(
        eject_open_error("/dev/sr0", "busy"),
        "打开 /dev/sr0 失败: busy — 设备是否掉线? 检查 USB 线/接口"
    );
    assert_eq!(eject_error("EIO"), "弹出失败: EIO");
}

fn kind(a: &EjectAction) -> (&'static str, u64, String) {
    match a {
        EjectAction::Open { wait_ms } => ("open", *wait_ms, String::new()),
        EjectAction::Eject { wait_ms } => ("eject", *wait_ms, String::new()),
        EjectAction::Done => ("done", 0, String::new()),
        EjectAction::Fail { wait_ms, error } => ("fail", *wait_ms, error.clone()),
    }
}

#[test]
fn eject_steps_open_five_times_then_fail() {
    let (mut st, a) = eject_step("/dev/sr0", EjectState { opening: true, failed: 0 }, EjectEvent::Start);
    assert_eq!(kind(&a), ("open", 0, String::new()));
    for n in 1..5 {
        let (s2, a) = eject_step("/dev/sr0", st, EjectEvent::OpenFailed("gone".to_string()));
        assert_eq!(kind(&a), ("open", 400, String::new()));
        assert_eq!(s2.failed, n);
        st = s2;
    }
    let (_, a) = eject_step("/dev/sr0", st, EjectEvent::OpenFailed("gone".to_string()));
    assert_eq!(
        kind(&a),
        ("fail", 400, "打开 /dev/sr0 失败: gone — 设备是否掉线? 检查 USB 线/接口".to_string())
    );
}

#[test]
fn eject_steps_eject_three_times_then_fail() {
    let (st, a) = eject_step("/dev/sr0", EjectState { opening: true, failed: 2 }, EjectEvent::Opened);
    assert_eq!(kind(&a), ("eject", 0, String::new()));
    let (st, a) = eject_step("/dev/sr0", st, EjectEvent::EjectFailed("EIO".to_string()));
    assert_eq!(kind(&a), ("eject", 400, String::new()));
    let (st, a) = eject_step("/dev/sr0", st, EjectEvent::EjectFailed("EIO".to_string()));
    assert_eq!(kind(&a), ("eject", 400, String::new()));
    let (_, a) = eject_step("/dev/sr0", st, EjectEvent::EjectFailed("EBUSY".to_string()));
    assert_eq!(kind(&a), ("fail", 0, "弹出失败: EBUSY".to_string()));
    let (_, a) = eject_step("/dev/sr0", EjectState { opening: false, failed: 1 }, EjectEvent::Ejected);
    assert_eq!(kind(&a), ("done", 0, String::new()));
}
