//! Decisions and texts of the user interface that do not depend on the
//! windowing toolkit: labels of the settings, log lines, device selection.

use vstd::prelude::*;

use crate::text::{ascii_lower, chars_of, push_str, push_zero_padded, string_of, strings_view, zero_padded};

verus! {

/// The label shown for a TelephonyUI cache setting.
pub open spec fn telephony_label_spec(ver: Seq<char>) -> Seq<char> {
    if ver == "TelephonyUI-10"@ {
        "TelephonyUI-10（iOS 18 及以上）"@
    } else if ver == "TelephonyUI-9"@ {
        "TelephonyUI-9（iOS 16-17）"@
    } else if ver == "TelephonyUI-8"@ {
        "TelephonyUI-8（旧版）"@
    } else {
        "自动（TelephonyUI-10）"@
    }
}

/// The label shown for a TelephonyUI cache setting.
pub fn telephony_label(ver: &str) -> (l: &'static str)
    ensures
        l@ == telephony_label_spec(ver@),
{
    let v = chars_of(ver);
    if crate::text::chars_eq(v.as_slice(), chars_of("TelephonyUI-10").as_slice()) {
        "TelephonyUI-10（iOS 18 及以上）"
    } else if crate::text::chars_eq(v.as_slice(), chars_of("TelephonyUI-9").as_slice()) {
        "TelephonyUI-9（iOS 16-17）"
    } else if crate::text::chars_eq(v.as_slice(), chars_of("TelephonyUI-8").as_slice()) {
        "TelephonyUI-8（旧版）"
    } else {
        "自动（TelephonyUI-10）"
    }
}

/// The label shown for a keypad language setting (the setting keeps the
/// English name, which the theme parser matches).
pub open spec fn keypad_language_label_spec(lang: Seq<char>) -> Seq<char> {
    if lang == "Russian"@ {
        "俄语"@
    } else if lang == "Ukrainian"@ {
        "乌克兰语"@
    } else if lang == "Japanese"@ {
        "日语"@
    } else if lang == "All Languages (Universal)"@ {
        "全部语言（通用）"@
    } else {
        "英语"@
    }
}

/// The label shown for a keypad language setting.
pub fn keypad_language_label(lang: &str) -> (l: &'static str)
    ensures
        l@ == keypad_language_label_spec(lang@),
{
    let v = chars_of(lang);
    if crate::text::chars_eq(v.as_slice(), chars_of("Russian").as_slice()) {
        "俄语"
    } else if crate::text::chars_eq(v.as_slice(), chars_of("Ukrainian").as_slice()) {
        "乌克兰语"
    } else if crate::text::chars_eq(v.as_slice(), chars_of("Japanese").as_slice()) {
        "日语"
    } else if crate::text::chars_eq(v.as_slice(), chars_of("All Languages (Universal)").as_slice()) {
        "全部语言（通用）"
    } else {
        "英语"
    }
}

/// The TelephonyUI version a theme is written for, given the cache setting
/// (`Auto` and anything unknown mean `TelephonyUI-10`).
pub open spec fn target_version_spec(setting: Seq<char>) -> Seq<char> {
    if setting == "TelephonyUI-9"@ {
        "TelephonyUI-9"@
    } else if setting == "TelephonyUI-8"@ {
        "TelephonyUI-8"@
    } else {
        "TelephonyUI-10"@
    }
}

/// The TelephonyUI version a theme is written for.
pub fn target_version(setting: &str) -> (v: &'static str)
    ensures
        v@ == target_version_spec(setting@),
{
    let s = chars_of(setting);
    if crate::text::chars_eq(s.as_slice(), chars_of("TelephonyUI-9").as_slice()) {
        "TelephonyUI-9"
    } else if crate::text::chars_eq(s.as_slice(), chars_of("TelephonyUI-8").as_slice()) {
        "TelephonyUI-8"
    } else {
        "TelephonyUI-10"
    }
}

/// A clock time as `HH:MM:SS.mmm`.
pub open spec fn timestamp_text(hour: nat, minute: nat, second: nat, millis: nat) -> Seq<char> {
    zero_padded(hour, 2) + ":"@ + zero_padded(minute, 2) + ":"@ + zero_padded(second, 2) + "."@
        + zero_padded(millis, 3)
}

/// Formats the local time of a log line (the clock is read by the caller).
pub fn current_timestamp(hour: u16, minute: u16, second: u16, millis: u16) -> (t: String)
    ensures
        t@ == timestamp_text(hour as nat, minute as nat, second as nat, millis as nat),
{
    let mut v: Vec<char> = Vec::new();
    push_zero_padded(&mut v, hour as u64, 2);
    push_str(&mut v, ":");
    push_zero_padded(&mut v, minute as u64, 2);
    push_str(&mut v, ":");
    push_zero_padded(&mut v, second as u64, 2);
    push_str(&mut v, ".");
    push_zero_padded(&mut v, millis as u64, 3);
    string_of(v.as_slice())
}

/// Most lines the log keeps.
pub open spec fn log_capacity() -> nat {
    1000
}

/// The log after a line with this timestamp and text: appended, and the
/// oldest line dropped when there are more than a thousand.
pub open spec fn log_after(logs: Seq<Seq<char>>, timestamp: Seq<char>, text: Seq<char>) -> Seq<
    Seq<char>,
> {
    let l = logs.push("["@ + timestamp + "] "@ + text);
    if l.len() > log_capacity() {
        l.drop_first()
    } else {
        l
    }
}

/// Adds a line to the log, keeping at most a thousand lines.
pub fn push_log_line(logs: &mut Vec<String>, timestamp: &str, text: &str)
    ensures
        strings_view(final(logs)@) == log_after(strings_view(old(logs)@), timestamp@, text@),
        old(logs)@.len() <= log_capacity() ==> final(logs)@.len() <= log_capacity(),
{
    let mut v: Vec<char> = Vec::new();
    push_str(&mut v, "[");
    push_str(&mut v, timestamp);
    push_str(&mut v, "] ");
    push_str(&mut v, text);
    let ghost before = strings_view(logs@);
    logs.push(string_of(v.as_slice()));
    assert(strings_view(logs@) =~= before.push("["@ + timestamp@ + "] "@ + text@));
    if logs.len() > 1000 {
        let ghost l = strings_view(logs@);
        logs.remove(0);
        assert(strings_view(logs@) =~= l.drop_first());
    }
}

/// Equal up to ASCII case (`str::eq_ignore_ascii_case`).
pub open spec fn eq_ignore_ascii_case(a: Seq<char>, b: Seq<char>) -> bool {
    a.len() == b.len() && forall|i: int| 0 <= i < a.len() ==> ascii_lower(#[trigger] a[i]) == ascii_lower(b[i])
}

fn ascii_lower_exec(c: char) -> (r: char)
    ensures
        r == ascii_lower(c),
{
    if 'A' <= c && c <= 'Z' {
        ((c as u32 + 32) as u8) as char
    } else {
        c
    }
}

fn eq_ignore_ascii_case_exec(a: &[char], b: &[char]) -> (r: bool)
    ensures
        r == eq_ignore_ascii_case(a@, b@),
{
    if a.len() != b.len() {
        return false;
    }
    let mut i: usize = 0;
    while i < a.len()
        invariant
            i <= a@.len(),
            a@.len() == b@.len(),
            forall|j: int| 0 <= j < i ==> ascii_lower(#[trigger] a@[j]) == ascii_lower(b@[j]),
        decreases a@.len() - i,
    {
        if ascii_lower_exec(a[i]) != ascii_lower_exec(b[i]) {
            return false;
        }
        i = i + 1;
    }
    true
}

/// Some device of the list has this identifier, up to ASCII case.
pub open spec fn still_connected(s: Seq<char>, udids: Seq<Seq<char>>) -> bool {
    exists|i: int| 0 <= i < udids.len() && eq_ignore_ascii_case(#[trigger] udids[i], s)
}

/// The device selected after the device list was refreshed: the selection
/// is kept when the device is still connected, the first device is taken
/// otherwise, and nothing is selected when no device is connected.
pub open spec fn reselected(selected: Option<Seq<char>>, udids: Seq<Seq<char>>) -> Option<Seq<char>> {
    let still = match selected {
        Some(s) => still_connected(s, udids),
        None => false,
    };
    if udids.len() == 0 {
        None
    } else if still {
        selected
    } else {
        Some(udids[0])
    }
}

/// Chooses the selected device after the device list was refreshed.
pub fn reselect_device(selected: Option<&str>, udids: &[String]) -> (r: Option<String>)
    ensures
        crate::text::opt_chars(r) == reselected(
            match selected {
                Some(s) => Some(s@),
                None => None,
            },
            strings_view(udids@),
        ),
{
    if udids.len() == 0 {
        return None;
    }
    match selected {
        Some(s) => {
            let sv = chars_of(s);
            let mut i: usize = 0;
            while i < udids.len()
                invariant
                    i <= udids@.len(),
                    udids@.len() > 0,
                    selected == Some(s),
                    sv@ == s@,
                    forall|j: int| 0 <= j < i ==> !eq_ignore_ascii_case(#[trigger] udids@[j]@, s@),
                decreases udids@.len() - i,
            {
                let u = chars_of(udids[i].as_str());
                if eq_ignore_ascii_case_exec(u.as_slice(), sv.as_slice()) {
                    assert(strings_view(udids@)[i as int] == udids@[i as int]@);
                    assert(eq_ignore_ascii_case(strings_view(udids@)[i as int], s@));
                    assert(still_connected(s@, strings_view(udids@)));
                    return Some(s.to_owned());
                }
                i = i + 1;
            }
            assert forall|j: int| 0 <= j < strings_view(udids@).len() implies !eq_ignore_ascii_case(
                #[trigger] strings_view(udids@)[j],
                s@,
            ) by {
                assert(strings_view(udids@)[j] == udids@[j]@);
            }
            Some(udids[0].clone())
        },
        None => Some(udids[0].clone()),
    }
}

} // verus!
