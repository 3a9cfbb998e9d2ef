use aircard::ui::{
    current_timestamp, keypad_language_label, push_log_line, reselect_device, target_version,
    telephony_label,
};

#[test]
fn telephony_labels() {
    assert_eq!(telephony_label("TelephonyUI-10"), "TelephonyUI-10（iOS 18 及以上）");
    assert_eq!(telephony_label("TelephonyUI-9"), "TelephonyUI-9（iOS 16-17）");
    assert_eq!(telephony_label("TelephonyUI-8"), "TelephonyUI-8（旧版）");
    assert_eq!(telephony_label("Auto"), "自动（TelephonyUI-10）");
}

#[test]
fn keypad_language_labels() {
    assert_eq!(keypad_language_label("Russian"), "俄语");
    assert_eq!(keypad_language_label("Ukrainian"), "乌克兰语");
    assert_eq!(keypad_language_label("Japanese"), "日语");
    assert_eq!(keypad_language_label("All Languages (Universal)"), "全部语言（通用）");
    assert_eq!(keypad_language_label("English"), "英语");
}

#[test]
fn target_versions() {
    assert_eq!(target_version("TelephonyUI-9"), "TelephonyUI-9");
    assert_eq!(target_version("TelephonyUI-8"), "TelephonyUI-8");
    assert_eq!(target_version("Auto"), "TelephonyUI-10");
    assert_eq!(target_version("TelephonyUI-10"), "TelephonyUI-10");
}

#[test]
fn timestamps_are_zero_padded() {
    assert_eq!(current_timestamp(9, 5, 7, 42), "09:05:07.042");
    assert_eq!(current_timestamp(23, 59, 59, 999), "23:59:59.999");
}

#[test]
fn log_keeps_the_last_thousand_lines() {
    let mut logs: Vec<String> = Vec::new();
    push_log_line(&mut logs, "00:00:00.000", "hello");
    assert_eq!(logs, vec!["[00:00:00.000] hello".to_string()]);
    for i in 0..1005 {
        push_log_line(&mut logs, "t", &format!("line {}", i));
    }
    assert_eq!(logs.len(), 1000);
    assert_eq!(logs[0], "[t] line 5");
    assert_eq!(logs[999], "[t] line 1004");
}

#[test]
fn selection_follows_the_device_list() {
    let udids = vec!["00008110-AAAA".to_string(), "00008120-BBBB".to_string()];
    assert_eq!(
        reselect_device(Some("00008120-bbbb"), &udids),
        Some("00008120-bbbb".to_string())
    );
    assert_eq!(reselect_device(Some("gone"), &udids), Some("00008110-AAAA".to_string()));
    assert_eq!(reselect_device(None, &udids), Some("00008110-AAAA".to_string()));
    assert_eq!(reselect_device(Some("00008110-AAAA"), &[]), None);
}
