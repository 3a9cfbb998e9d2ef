use aircard::session::{
    begin_theme_flash, begin_wallet_flash, report_theme_load, toggle_scan, ScanAction,
    can_flash_theme, can_flash_wallet, check_selected_transport, requirements_hint,
    saved_card_label, status_tone, theme_requirements, wallet_requirements, StatusTone,
    TaskMessage, TaskState,
};

fn state() -> TaskState {
    TaskState {
        progress_step: 0,
        progress_total: 0,
        progress_msg: String::new(),
        status_msg: "就绪".to_string(),
        is_busy: true,
        scanning_syslog: true,
        card_hash: String::new(),
    }
}

#[test]
fn progress_message_updates_the_bar_and_status() {
    let mut s = state();
    let e = s.apply(TaskMessage::Progress { step: 2, total: 3, message: "正在清除 .cache 缓存...".to_string() });
    assert_eq!((s.progress_step, s.progress_total), (2, 3));
    assert_eq!(s.progress_msg, "正在清除 .cache 缓存...");
    assert_eq!(s.status_msg, "[2/3] 正在清除 .cache 缓存...");
    assert_eq!(e.log_lines, vec!["[2/3] 正在清除 .cache 缓存...".to_string()]);
    assert!(!e.reload_cards && !e.finished);
    assert!(s.is_busy);
}

#[test]
fn found_card_becomes_the_target() {
    let mut s = state();
    let e = s.apply(TaskMessage::CardFound {
        hash: "OM6NYhwXMZrAw0sRUjR62wmF4ZQ=".to_string(),
        name: "Apple Card".to_string(),
    });
    assert_eq!(s.card_hash, "OM6NYhwXMZrAw0sRUjR62wmF4ZQ=");
    assert_eq!(s.status_msg, "已捕获卡片：Apple Card（OM6NYhwXMZrAw0sRUjR62wmF4ZQ=）");
    assert!(e.reload_cards);
    assert!(!e.finished);
}

#[test]
fn done_ends_the_task() {
    let mut s = state();
    let e = s.apply(TaskMessage::Done(Ok("卡面写入成功！".to_string())));
    assert!(!s.is_busy && !s.scanning_syslog);
    assert_eq!(s.status_msg, "卡面写入成功！");
    assert_eq!(e.log_lines, vec!["操作完成：卡面写入成功！".to_string()]);
    assert!(e.finished);

    let mut s = state();
    let e = s.apply(TaskMessage::Done(Err("timeout".to_string())));
    assert_eq!(s.status_msg, "错误：timeout");
    assert_eq!(e.log_lines, vec!["操作失败：timeout".to_string()]);
    assert!(e.finished);
    assert_eq!(status_tone(s.is_busy, s.scanning_syslog, &s.status_msg), StatusTone::Error);

    let mut s = state();
    let e = s.apply(TaskMessage::Log("line".to_string()));
    assert_eq!(e.log_lines, vec!["line".to_string()]);
    assert_eq!(s.status_msg, "就绪");
}

#[test]
fn flash_buttons() {
    assert!(can_flash_wallet(false, true, " OM6N ", true));
    assert!(!can_flash_wallet(false, true, "  \t", true));
    assert!(!can_flash_wallet(true, true, "x", true));
    assert!(can_flash_theme(false, true, true));
    assert!(!can_flash_theme(false, false, true));
}

#[test]
fn what_a_write_still_needs() {
    assert_eq!(wallet_requirements(false, false, "", false), vec!["连接 iPhone", "输入卡片哈希", "选择图片"]);
    assert_eq!(wallet_requirements(true, false, "h", true), vec!["选择可用的传输方式"]);
    assert!(wallet_requirements(true, true, "h", true).is_empty());
    assert_eq!(theme_requirements(true, true, false), vec!["选择主题"]);
    assert_eq!(
        requirements_hint(&wallet_requirements(false, true, " ", false)),
        Some("需要：连接 iPhone, 输入卡片哈希, 选择图片".to_string())
    );
    assert_eq!(requirements_hint(&[]), None);
}

#[test]
fn selected_device_is_checked_before_writing() {
    assert_eq!(check_selected_transport("Card flash", "USB", true, true, false), Ok(()));
    assert_eq!(
        check_selected_transport("Card flash", "USB", false, true, false),
        Err(("Card flash 失败：未选择已连接的 iPhone。".to_string(), "请选择一台已连接的 iPhone。".to_string()))
    );
    assert_eq!(
        check_selected_transport("Theme flash", "WiFi", true, false, true),
        Err((
            "Theme flash 失败：所选设备在 WiFi 模式下不可用。".to_string(),
            "请拔掉 USB 线并刷新，以确保 AirTraffic 全程使用 WiFi。".to_string()
        ))
    );
    assert_eq!(
        check_selected_transport("Syslog scan", "USB", true, false, false),
        Err((
            "Syslog scan 失败：所选设备在 USB 模式下不可用。".to_string(),
            "所选 iPhone 没有 USB 连接。请刷新设备或切换传输模式。".to_string()
        ))
    );
}

#[test]
fn status_indicator() {
    assert_eq!(status_tone(true, false, "错误：x"), StatusTone::Busy);
    assert_eq!(status_tone(false, true, "x"), StatusTone::Busy);
    assert_eq!(status_tone(false, false, "失败：无法解析主题"), StatusTone::Error);
    assert_eq!(status_tone(false, false, "已加载"), StatusTone::Ready);
}

#[test]
fn saved_card_labels() {
    assert_eq!(
        saved_card_label("Apple Card", "OM6NYhwXMZrAw0sRUjR62wmF4ZQ=", true),
        "Apple Card (OM6NYhwX...)"
    );
    assert_eq!(
        saved_card_label("Apple Card", "OM6NYhwXMZrAw0sRUjR62wmF4ZQ=", false),
        "Apple Card (OM6NYhwX)"
    );
    assert_eq!(saved_card_label("x", "abc", false), "x (abc)");
    assert_eq!(saved_card_label("x", "ab€cdef", true), "x (ab€cde...)");
}

fn idle() -> TaskState {
    TaskState {
        progress_step: 7,
        progress_total: 9,
        progress_msg: String::new(),
        status_msg: "就绪".to_string(),
        is_busy: false,
        scanning_syslog: true,
        card_hash: String::new(),
    }
}

#[test]
fn wallet_write_start() {
    let mut s = idle();
    let w = begin_wallet_flash(&mut s, Some("UDID1"), "USB", true, false, "  OM6N  ", true);
    assert_eq!(w.hash, Some("OM6N".to_string()));
    assert!(w.stop_scan);
    assert!(s.is_busy && !s.scanning_syslog);
    assert_eq!((s.progress_step, s.progress_total), (0, 3));
    assert_eq!(s.status_msg, "正在向 iPhone 写入卡面...");
    assert_eq!(w.log_lines, vec!["开始为哈希 OM6N 写入卡面（UDID：UDID1，传输：USB）".to_string()]);

    let mut s = idle();
    let w = begin_wallet_flash(&mut s, Some("U"), "USB", true, false, " ", true);
    assert_eq!(w.hash, None);
    assert_eq!(s.status_msg, "请先输入或扫描目标卡片的哈希值。");
    assert!(!s.is_busy && s.scanning_syslog);

    let mut s = idle();
    let w = begin_wallet_flash(&mut s, None, "USB", true, false, "h", true);
    assert_eq!(w.log_lines, vec!["Card flash 失败：未选择已连接的 iPhone。".to_string()]);
    assert!(!w.stop_scan);
}

#[test]
fn theme_write_start() {
    let mut s = idle();
    let t = begin_theme_flash(&mut s, Some("U1"), "WiFi", true, false, Some(("Night", 12)));
    assert!(t.started);
    assert_eq!((s.progress_step, s.progress_total), (0, 12));
    assert_eq!(t.log_lines, vec!["正在通过 Night 向设备 12 写入密码键盘主题 'U1'（WiFi 个按钮素材）".to_string()]);
    let mut s = idle();
    let t = begin_theme_flash(&mut s, Some("U1"), "WiFi", true, false, None);
    assert!(!t.started);
    assert_eq!(s.status_msg, "请先选择 .passthm 主题文件。");
}

#[test]
fn scan_button() {
    let mut s = idle();
    let t = toggle_scan(&mut s, true, "USB", true, false);
    assert_eq!(t.action, ScanAction::Stop);
    assert!(!s.scanning_syslog);
    let t = toggle_scan(&mut s, true, "USB", false, false);
    assert_eq!(t.action, ScanAction::Refused);
    let t = toggle_scan(&mut s, true, "USB", true, false);
    assert_eq!(t.action, ScanAction::Start);
    assert!(s.scanning_syslog);
    assert_eq!(t.log_lines, vec!["正在启动系统日志监控会话...".to_string()]);
}

#[test]
fn theme_load_reports() {
    let mut s = idle();
    let lines = report_theme_load(&mut s, "C:\\t.passthm", "English", true, Ok(("t", "TelephonyUI-9", 30)));
    assert_eq!(lines[0], "正在打开密码键盘主题包：C:\\t.passthm");
    assert_eq!(lines[1], "已加载密码键盘主题：'t'（TelephonyUI：TelephonyUI-9，语言：English，粗体：true，30 个素材）");
    assert_eq!(s.status_msg, "已加载 't'，共 30 个素材（目标：TelephonyUI-9，语言：English，粗体：ON）");
    let lines = report_theme_load(&mut s, "x", "English", false, Err("bad zip"));
    assert_eq!(lines[1], "失败：无法解析主题：bad zip");
    assert_eq!(s.status_msg, "失败：无法解析主题：bad zip");
}
