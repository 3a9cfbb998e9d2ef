//! The state a session shows while background work runs: what each message
//! from a background task changes, when the flash buttons are enabled and
//! what they still need, and the colour of the status indicator.

use vstd::prelude::*;

use crate::text::{
    chars_of, decimal, push_decimal, push_str, seq_starts_with, starts_with_str, string_of,
    trim_chars, trim_class, CharClass,
};

verus! {

// ---------------------------------------------------------------------------
// Messages from background tasks
// ---------------------------------------------------------------------------

/// What a background task reports.
pub enum TaskMessage {
    /// Step `step` of `total` has begun.
    Progress { step: usize, total: usize, message: String },
    /// A line for the log.
    Log(String),
    /// The log scan found a card.
    CardFound { hash: String, name: String },
    /// The task ended, with its message of success or failure.
    Done(Result<String, String>),
}

/// The part of the session that task messages change.
pub struct TaskState {
    pub progress_step: usize,
    pub progress_total: usize,
    pub progress_msg: String,
    pub status_msg: String,
    pub is_busy: bool,
    pub scanning_syslog: bool,
    pub card_hash: String,
}

/// What else a message asks for: lines to log (in order), whether the saved
/// cards are to be read again, and whether the task is over.
pub struct MessageEffect {
    pub log_lines: Vec<String>,
    pub reload_cards: bool,
    pub finished: bool,
}

/// A task state as sequences.
pub struct TaskStateView {
    pub progress_step: nat,
    pub progress_total: nat,
    pub progress_msg: Seq<char>,
    pub status_msg: Seq<char>,
    pub is_busy: bool,
    pub scanning_syslog: bool,
    pub card_hash: Seq<char>,
}

impl View for TaskState {
    type V = TaskStateView;

    open spec fn view(&self) -> TaskStateView {
        TaskStateView {
            progress_step: self.progress_step as nat,
            progress_total: self.progress_total as nat,
            progress_msg: self.progress_msg@,
            status_msg: self.status_msg@,
            is_busy: self.is_busy,
            scanning_syslog: self.scanning_syslog,
            card_hash: self.card_hash@,
        }
    }
}

/// A message as sequences.
pub enum TaskMessageView {
    Progress(nat, nat, Seq<char>),
    Log(Seq<char>),
    CardFound(Seq<char>, Seq<char>),
    Done(Result<Seq<char>, Seq<char>>),
}

impl View for TaskMessage {
    type V = TaskMessageView;

    open spec fn view(&self) -> TaskMessageView {
        match self {
            TaskMessage::Progress { step, total, message } => TaskMessageView::Progress(
                *step as nat,
                *total as nat,
                message@,
            ),
            TaskMessage::Log(l) => TaskMessageView::Log(l@),
            TaskMessage::CardFound { hash, name } => TaskMessageView::CardFound(hash@, name@),
            TaskMessage::Done(Ok(m)) => TaskMessageView::Done(Ok(m@)),
            TaskMessage::Done(Err(e)) => TaskMessageView::Done(Err(e@)),
        }
    }
}

/// The status line of a progress report.
pub open spec fn progress_line(step: nat, total: nat, message: Seq<char>) -> Seq<char> {
    "["@ + decimal(step) + "/"@ + decimal(total) + "] "@ + message
}

/// The state after a message, the lines it logs, whether the saved cards are
/// read again, and whether the task is over.
pub open spec fn after_message(s: TaskStateView, m: TaskMessageView) -> (
    TaskStateView,
    Seq<Seq<char>>,
    bool,
    bool,
) {
    match m {
        TaskMessageView::Progress(step, total, message) => {
            let line = progress_line(step, total, message);
            (
                TaskStateView {
                    progress_step: step,
                    progress_total: total,
                    progress_msg: message,
                    status_msg: line,
                    ..s
                },
                seq![line],
                false,
                false,
            )
        },
        TaskMessageView::Log(l) => (s, seq![l], false, false),
        TaskMessageView::CardFound(hash, name) => {
            let line = "已捕获卡片："@ + name + "（"@ + hash + "）"@;
            (TaskStateView { card_hash: hash, status_msg: line, ..s }, seq![line], true, false)
        },
        TaskMessageView::Done(Ok(msg)) => (
            TaskStateView { is_busy: false, scanning_syslog: false, status_msg: msg, ..s },
            seq!["操作完成："@ + msg],
            false,
            true,
        ),
        TaskMessageView::Done(Err(err)) => (
            TaskStateView {
                is_busy: false,
                scanning_syslog: false,
                status_msg: "错误："@ + err,
                ..s
            },
            seq!["操作失败："@ + err],
            false,
            true,
        ),
    }
}

/// The texts of a list of strings.
pub open spec fn lines_of(v: Seq<String>) -> Seq<Seq<char>> {
    v.map_values(|l: String| l@)
}

fn concat3(a: &str, b: &str, c: &str) -> (s: String)
    ensures
        s@ == a@ + b@ + c@,
{
    let mut v: Vec<char> = Vec::new();
    push_str(&mut v, a);
    push_str(&mut v, b);
    push_str(&mut v, c);
    string_of(v.as_slice())
}

impl TaskState {
    /// Takes one message of the running task into the state.
    pub fn apply(&mut self, msg: TaskMessage) -> (e: MessageEffect)
        ensures
            ({
                let r = after_message(old(self)@, msg@);
                &&& final(self)@ == r.0
                &&& lines_of(e.log_lines@) == r.1
                &&& e.reload_cards == r.2
                &&& e.finished == r.3
            }),
    {
        let mut log_lines: Vec<String> = Vec::new();
        match msg {
            TaskMessage::Progress { step, total, message } => {
                let mut v: Vec<char> = Vec::new();
                push_str(&mut v, "[");
                push_decimal(&mut v, step as u64);
                push_str(&mut v, "/");
                push_decimal(&mut v, total as u64);
                push_str(&mut v, "] ");
                push_str(&mut v, message.as_str());
                let line = string_of(v.as_slice());
                self.progress_step = step;
                self.progress_total = total;
                self.status_msg = string_of(v.as_slice());
                self.progress_msg = message;
                log_lines.push(line);
                assert(lines_of(log_lines@) =~= seq![progress_line(step as nat, total as nat, self.progress_msg@)]);
                MessageEffect { log_lines, reload_cards: false, finished: false }
            },
            TaskMessage::Log(l) => {
                log_lines.push(l);
                assert(lines_of(log_lines@) =~= seq![log_lines@[0]@]);
                MessageEffect { log_lines, reload_cards: false, finished: false }
            },
            TaskMessage::CardFound { hash, name } => {
                let mut v: Vec<char> = Vec::new();
                push_str(&mut v, "已捕获卡片：");
                push_str(&mut v, name.as_str());
                push_str(&mut v, "（");
                push_str(&mut v, hash.as_str());
                push_str(&mut v, "）");
                self.status_msg = string_of(v.as_slice());
                self.card_hash = hash;
                log_lines.push(string_of(v.as_slice()));
                assert(lines_of(log_lines@) =~= seq![v@]);
                MessageEffect { log_lines, reload_cards: true, finished: false }
            },
            TaskMessage::Done(res) => {
                self.is_busy = false;
                self.scanning_syslog = false;
                match res {
                    Ok(ok_msg) => {
                        log_lines.push(concat3("操作完成：", ok_msg.as_str(), ""));
                        self.status_msg = ok_msg;
                        proof {
                            reveal_strlit("");
                        }
                        assert(lines_of(log_lines@) =~= seq!["操作完成："@ + self.status_msg@]);
                    },
                    Err(err_msg) => {
                        log_lines.push(concat3("操作失败：", err_msg.as_str(), ""));
                        self.status_msg = concat3("错误：", err_msg.as_str(), "");
                        proof {
                            reveal_strlit("");
                        }
                        assert(lines_of(log_lines@) =~= seq!["操作失败："@ + err_msg@]);
                    },
                }
                MessageEffect { log_lines, reload_cards: false, finished: true }
            },
        }
    }
}

// ---------------------------------------------------------------------------
// When the flash buttons are enabled
// ---------------------------------------------------------------------------

/// The text has something besides white space (`!s.trim().is_empty()`).
pub open spec fn has_text(s: Seq<char>) -> bool {
    trim_class(s, CharClass::WhiteSpace).len() > 0
}

fn has_text_exec(s: &str) -> (b: bool)
    ensures
        b == has_text(s@),
{
    let v = chars_of(s);
    trim_chars(v.as_slice(), CharClass::WhiteSpace).len() > 0
}

/// A card skin can be flashed: nothing is running, the selected device is
/// reachable over the chosen transport, a card hash is given and a picture
/// is prepared.
pub fn can_flash_wallet(is_busy: bool, transport_ready: bool, card_hash: &str, has_skin: bool) -> (b: bool)
    ensures
        b == (!is_busy && transport_ready && has_text(card_hash@) && has_skin),
{
    !is_busy && transport_ready && has_text_exec(card_hash) && has_skin
}

/// A theme can be flashed: nothing is running, the selected device is
/// reachable, and a theme is loaded.
pub fn can_flash_theme(is_busy: bool, transport_ready: bool, has_theme: bool) -> (b: bool)
    ensures
        b == (!is_busy && transport_ready && has_theme),
{
    !is_busy && transport_ready && has_theme
}

/// What is still needed before a device write: a device, or a transport
/// that reaches it.
pub open spec fn device_needs(has_device: bool, transport_ready: bool) -> Seq<Seq<char>> {
    if !has_device {
        seq!["连接 iPhone"@]
    } else if !transport_ready {
        seq!["选择可用的传输方式"@]
    } else {
        seq![]
    }
}

/// What a card skin write still needs, in the order shown.
pub open spec fn wallet_needs(has_device: bool, transport_ready: bool, card_hash: Seq<char>, has_skin: bool) -> Seq<
    Seq<char>,
> {
    device_needs(has_device, transport_ready) + (if has_text(card_hash) {
        seq![]
    } else {
        seq!["输入卡片哈希"@]
    }) + (if has_skin {
        seq![]
    } else {
        seq!["选择图片"@]
    })
}

/// What a theme write still needs, in the order shown.
pub open spec fn theme_needs(has_device: bool, transport_ready: bool, has_theme: bool) -> Seq<Seq<char>> {
    device_needs(has_device, transport_ready) + (if has_theme {
        seq![]
    } else {
        seq!["选择主题"@]
    })
}

/// The hint on a disabled flash button: `需要：` and the needs joined by
/// `, `; none when nothing is needed.
pub open spec fn needs_hint(needs: Seq<Seq<char>>) -> Option<Seq<char>> {
    if needs.len() == 0 {
        None
    } else {
        Some("需要："@ + joined_needs(needs))
    }
}

/// The needs joined by `, `.
pub open spec fn joined_needs(needs: Seq<Seq<char>>) -> Seq<char>
    decreases needs.len(),
{
    if needs.len() == 0 {
        seq![]
    } else if needs.len() == 1 {
        needs[0]
    } else {
        joined_needs(needs.drop_last()) + ", "@ + needs.last()
    }
}

fn push_need(v: &mut Vec<&'static str>, s: &'static str)
    ensures
        needs_of(final(v)@) == needs_of(old(v)@).push(s@),
{
    v.push(s);
    assert(needs_of(v@) =~= needs_of(old(v)@).push(s@));
}

/// The texts of a list of needs.
pub open spec fn needs_of(v: Seq<&'static str>) -> Seq<Seq<char>> {
    v.map_values(|s: &'static str| s@)
}

fn push_device_needs(v: &mut Vec<&'static str>, has_device: bool, transport_ready: bool)
    ensures
        needs_of(final(v)@) == needs_of(old(v)@) + device_needs(has_device, transport_ready),
{
    if !has_device {
        push_need(v, "连接 iPhone");
    } else if !transport_ready {
        push_need(v, "选择可用的传输方式");
    }
    assert(needs_of(v@) =~= needs_of(old(v)@) + device_needs(has_device, transport_ready));
}

/// What a card skin write still needs, in the order shown.
pub fn wallet_requirements(has_device: bool, transport_ready: bool, card_hash: &str, has_skin: bool) -> (r: Vec<
    &'static str,
>)
    ensures
        needs_of(r@) == wallet_needs(has_device, transport_ready, card_hash@, has_skin),
{
    let mut r: Vec<&'static str> = Vec::new();
    push_device_needs(&mut r, has_device, transport_ready);
    let ghost d = needs_of(r@);
    if !has_text_exec(card_hash) {
        push_need(&mut r, "输入卡片哈希");
    }
    let ghost dh = needs_of(r@);
    assert(dh =~= d + (if has_text(card_hash@) {
        seq![]
    } else {
        seq!["输入卡片哈希"@]
    }));
    if !has_skin {
        push_need(&mut r, "选择图片");
    }
    assert(needs_of(r@) =~= dh + (if has_skin {
        seq![]
    } else {
        seq!["选择图片"@]
    }));
    r
}

/// What a theme write still needs, in the order shown.
pub fn theme_requirements(has_device: bool, transport_ready: bool, has_theme: bool) -> (r: Vec<&'static str>)
    ensures
        needs_of(r@) == theme_needs(has_device, transport_ready, has_theme),
{
    let mut r: Vec<&'static str> = Vec::new();
    push_device_needs(&mut r, has_device, transport_ready);
    let ghost d = needs_of(r@);
    if !has_theme {
        push_need(&mut r, "选择主题");
    }
    assert(needs_of(r@) =~= d + (if has_theme {
        seq![]
    } else {
        seq!["选择主题"@]
    }));
    r
}

/// The hint on a disabled flash button.
pub fn requirements_hint(needs: &[&'static str]) -> (h: Option<String>)
    ensures
        crate::text::opt_chars(h) == needs_hint(needs_of(needs@)),
{
    if needs.len() == 0 {
        return None;
    }
    let ghost all = needs_of(needs@);
    let mut v: Vec<char> = Vec::new();
    push_str(&mut v, "需要：");
    let ghost head = v@;
    push_str(&mut v, needs[0]);
    assert(all.take(1) =~= seq![all[0]]);
    let mut i: usize = 1;
    while i < needs.len()
        invariant
            1 <= i <= needs@.len(),
            all == needs_of(needs@),
            head == "需要："@,
            v@ == head + joined_needs(all.take(i as int)),
        decreases needs@.len() - i,
    {
        assert(all.take(i as int + 1).drop_last() =~= all.take(i as int));
        push_str(&mut v, ", ");
        push_str(&mut v, needs[i]);
        i = i + 1;
        assert(v@ =~= head + joined_needs(all.take(i as int)));
    }
    assert(all.take(needs@.len() as int) =~= all);
    Some(string_of(v.as_slice()))
}

// ---------------------------------------------------------------------------
// Checking the selected device before a write
// ---------------------------------------------------------------------------

/// The log line and status of a refused device operation, or nothing when
/// the operation may go ahead: a device must be selected and reachable over
/// the chosen transport; WiFi mode with a USB cable still attached gets its
/// own advice.
pub open spec fn selection_refusal(
    operation: Seq<char>,
    mode_label: Seq<char>,
    has_selection: bool,
    transport_ready: bool,
    wifi_with_usb: bool,
) -> Option<(Seq<char>, Seq<char>)> {
    if !has_selection {
        Some((operation + " 失败：未选择已连接的 iPhone。"@, "请选择一台已连接的 iPhone。"@))
    } else if !transport_ready {
        Some(
            (
                operation + " 失败：所选设备在 "@ + mode_label + " 模式下不可用。"@,
                if wifi_with_usb {
                    "请拔掉 USB 线并刷新，以确保 AirTraffic 全程使用 WiFi。"@
                } else {
                    "所选 iPhone 没有 "@ + mode_label + " 连接。请刷新设备或切换传输模式。"@
                },
            ),
        )
    } else {
        None
    }
}

/// Checks the selected device before `operation`: `Ok` when it may go
/// ahead, otherwise the line to log and the status to show.
pub fn check_selected_transport(
    operation: &str,
    mode_label: &str,
    has_selection: bool,
    transport_ready: bool,
    wifi_with_usb: bool,
) -> (r: Result<(), (String, String)>)
    ensures
        match r {
            Ok(()) => selection_refusal(
                operation@,
                mode_label@,
                has_selection,
                transport_ready,
                wifi_with_usb,
            ) is None,
            Err((l, s)) => selection_refusal(
                operation@,
                mode_label@,
                has_selection,
                transport_ready,
                wifi_with_usb,
            ) == Some((l@, s@)),
        },
{
    proof {
        reveal_strlit("");
    }
    if !has_selection {
        return Err(
            (
                concat3(operation, " 失败：未选择已连接的 iPhone。", ""),
                concat3("请选择一台已连接的 iPhone。", "", ""),
            ),
        );
    }
    if !transport_ready {
        let line = {
            let mut v: Vec<char> = Vec::new();
            push_str(&mut v, operation);
            push_str(&mut v, " 失败：所选设备在 ");
            push_str(&mut v, mode_label);
            push_str(&mut v, " 模式下不可用。");
            string_of(v.as_slice())
        };
        let status = if wifi_with_usb {
            concat3("请拔掉 USB 线并刷新，以确保 AirTraffic 全程使用 WiFi。", "", "")
        } else {
            concat3("所选 iPhone 没有 ", mode_label, " 连接。请刷新设备或切换传输模式。")
        };
        return Err((line, status));
    }
    Ok(())
}

// ---------------------------------------------------------------------------
// The status indicator and saved-card labels
// ---------------------------------------------------------------------------

/// The colour of the status indicator.
#[derive(PartialEq, Eq, Structural, Clone, Copy, Debug)]
pub enum StatusTone {
    /// Work is running.
    Busy,
    /// The last status reports an error or failure.
    Error,
    /// All is well.
    Ready,
}

/// Running work shows as busy; a status starting with `错误` or `失败` as an
/// error; anything else as ready.
pub open spec fn tone_of(is_busy: bool, scanning: bool, status: Seq<char>) -> StatusTone {
    if is_busy || scanning {
        StatusTone::Busy
    } else if seq_starts_with(status, "错误"@) || seq_starts_with(status, "失败"@) {
        StatusTone::Error
    } else {
        StatusTone::Ready
    }
}

/// The colour of the status indicator.
pub fn status_tone(is_busy: bool, scanning: bool, status: &str) -> (t: StatusTone)
    ensures
        t == tone_of(is_busy, scanning, status@),
{
    if is_busy || scanning {
        return StatusTone::Busy;
    }
    let s = chars_of(status);
    if starts_with_str(s.as_slice(), "错误") || starts_with_str(s.as_slice(), "失败") {
        StatusTone::Error
    } else {
        StatusTone::Ready
    }
}

/// The first `n` bytes of `s` end on a character boundary, at `k` characters.
pub open spec fn prefix_at(s: Seq<char>, n: nat, k: int) -> bool {
    0 <= k <= s.len() && crate::text::utf8_len(s.take(k)) == n
}

/// The text of the first eight bytes of a hash (the whole hash when it is
/// shorter); they must end on a character boundary, as slicing a string
/// demands.
pub open spec fn hash_head(hash: Seq<char>) -> Seq<char> {
    if crate::text::utf8_len(hash) <= 8 {
        hash
    } else {
        hash.take(choose|k: int| prefix_at(hash, 8, k))
    }
}

/// How a saved card is listed: its name and the head of its hash, with
/// `...` in the menu entries.
pub open spec fn card_label(name: Seq<char>, hash: Seq<char>, in_menu: bool) -> Seq<char> {
    name + " ("@ + hash_head(hash) + if in_menu {
        "...)"@
    } else {
        ")"@
    }
}

proof fn lemma_utf8_len_take(s: Seq<char>, k: int)
    requires
        0 <= k < s.len(),
    ensures
        crate::text::utf8_len(s.take(k + 1)) == crate::text::utf8_len(s.take(k))
            + crate::text::char_utf8_width(s[k]),
    decreases k,
{
    if k == 0 {
        assert(s.take(1).drop_first() =~= Seq::<char>::empty());
        assert(s.take(0) =~= Seq::<char>::empty());
    } else {
        let t = s.drop_first();
        lemma_utf8_len_take(t, k - 1);
        assert(s.take(k + 1).drop_first() =~= t.take(k));
        assert(s.take(k).drop_first() =~= t.take(k - 1));
        assert(t[k - 1] == s[k]);
    }
}

proof fn lemma_prefix_unique(s: Seq<char>, n: nat, a: int, b: int)
    requires
        prefix_at(s, n, a),
        prefix_at(s, n, b),
    ensures
        a == b,
{
    if a < b {
        lemma_prefix_grows(s, a, b);
    } else if b < a {
        lemma_prefix_grows(s, b, a);
    }
}

proof fn lemma_prefix_grows(s: Seq<char>, a: int, b: int)
    requires
        0 <= a < b <= s.len(),
    ensures
        crate::text::utf8_len(s.take(a)) < crate::text::utf8_len(s.take(b)),
    decreases b - a,
{
    lemma_utf8_len_take(s, b - 1);
    vstd::utf8::char_is_scalar(s[b - 1]);
    assert(crate::text::char_utf8_width(s[b - 1]) > 0);
    if a < b - 1 {
        lemma_prefix_grows(s, a, b - 1);
    }
}

/// The label under which a saved card is listed.
pub fn saved_card_label(name: &str, hash: &str, in_menu: bool) -> (l: String)
    requires
        crate::text::utf8_len(hash@) <= 8 || exists|k: int| prefix_at(hash@, 8, k),
    ensures
        l@ == card_label(name@, hash@, in_menu),
{
    let h = chars_of(hash);
    let mut bytes: usize = 0;
    let mut k: usize = 0;
    assert(h@.take(0) =~= Seq::<char>::empty());
    while k < h.len() && bytes < 8
        invariant
            k <= h@.len(),
            h@ == hash@,
            bytes == crate::text::utf8_len(h@.take(k as int)),
            bytes <= 8,
            crate::text::utf8_len(hash@) <= 8 || exists|j: int| prefix_at(hash@, 8, j),
            forall|j: int| 0 <= j <= k ==> crate::text::utf8_len(#[trigger] h@.take(j)) <= 8,
        decreases h@.len() - k,
    {
        proof {
            lemma_utf8_len_take(h@, k as int);
        }
        let w = crate::text::utf8_width_of(h[k]);
        proof {
            if bytes + w > 8 {
                if crate::text::utf8_len(hash@) > 8 {
                    let j = choose|j: int| prefix_at(hash@, 8, j);
                    if j <= k {
                        assert(crate::text::utf8_len(h@.take(j)) == 8);
                        if j < k {
                            lemma_prefix_grows(h@, j, k as int);
                        }
                    } else if j > k + 1 {
                        lemma_prefix_grows(h@, k as int + 1, j);
                    }
                } else {
                    assert(h@.take(h@.len() as int) =~= h@);
                    if k + 1 < h@.len() {
                        lemma_prefix_grows(h@, k as int + 1, h@.len() as int);
                    }
                }
            }
        }
        bytes = bytes + w;
        k = k + 1;
    }
    proof {
        if crate::text::utf8_len(hash@) > 8 {
            let j = choose|j: int| prefix_at(hash@, 8, j);
            if k == h@.len() {
                assert(h@.take(k as int) =~= h@);
            }
            assert(prefix_at(hash@, 8, k as int));
            lemma_prefix_unique(hash@, 8, j, k as int);
        } else {
            if k < h@.len() {
                lemma_prefix_grows(h@, k as int, h@.len() as int);
                assert(h@.take(h@.len() as int) =~= h@);
            }
            assert(h@.take(k as int) =~= h@);
        }
    }
    let mut v: Vec<char> = Vec::new();
    push_str(&mut v, name);
    push_str(&mut v, " (");
    let head = crate::text::copy_range(h.as_slice(), 0, k);
    assert(head@ =~= h@.take(k as int));
    crate::text::push_chars(&mut v, head.as_slice());
    if in_menu {
        push_str(&mut v, "...)");
    } else {
        push_str(&mut v, ")");
    }
    string_of(v.as_slice())
}

// ---------------------------------------------------------------------------
// Starting and stopping work
// ---------------------------------------------------------------------------

/// The text of an optional string slice.
pub open spec fn opt_str(o: Option<&str>) -> Option<Seq<char>> {
    match o {
        Some(x) => Some(x@),
        None => None,
    }
}

/// The state and log lines after a refused device operation.
pub open spec fn after_refusal(s: TaskStateView, r: (Seq<char>, Seq<char>)) -> (TaskStateView, Seq<
    Seq<char>,
>) {
    (TaskStateView { status_msg: r.1, ..s }, seq![r.0])
}

/// What asking for a card skin write does: the device check (as
/// `check_selected_transport` for `Card flash`), then a card hash (white
/// space trimmed) and a prepared picture are needed; when all is there, a
/// running scan is told to stop, the session turns busy at step 0 of 3, and
/// the write starts with the trimmed hash. Gives the state, the lines to
/// log, whether to stop the scan, and the hash to write.
pub open spec fn wallet_start(
    s: TaskStateView,
    udid: Option<Seq<char>>,
    mode_label: Seq<char>,
    transport_ready: bool,
    wifi_with_usb: bool,
    card_hash: Seq<char>,
    has_skin: bool,
) -> (TaskStateView, Seq<Seq<char>>, bool, Option<Seq<char>>) {
    match selection_refusal("Card flash"@, mode_label, udid is Some, transport_ready, wifi_with_usb) {
        Some(r) => {
            let a = after_refusal(s, r);
            (a.0, a.1, false, None)
        },
        None => {
            let h = trim_class(card_hash, CharClass::WhiteSpace);
            if h.len() == 0 {
                (
                    TaskStateView { status_msg: "请先输入或扫描目标卡片的哈希值。"@, ..s },
                    seq!["写入失败：目标卡片哈希为空。"@],
                    false,
                    None,
                )
            } else if !has_skin {
                (
                    TaskStateView { status_msg: "请先选择一张卡面图片。"@, ..s },
                    seq!["写入失败：尚未准备卡面图片。"@],
                    false,
                    None,
                )
            } else {
                (
                    TaskStateView {
                        scanning_syslog: false,
                        is_busy: true,
                        progress_step: 0,
                        progress_total: 3,
                        progress_msg: "正在开始写入卡面..."@,
                        status_msg: "正在向 iPhone 写入卡面..."@,
                        ..s
                    },
                    seq![
                        "开始为哈希 "@ + h + " 写入卡面（UDID："@ + udid->0 + "，传输："@ + mode_label
                            + "）"@,
                    ],
                    true,
                    Some(h),
                )
            }
        },
    }
}

/// What asking for a card skin write leads to.
pub struct WalletStart {
    pub log_lines: Vec<String>,
    /// A running log scan is to be told to stop.
    pub stop_scan: bool,
    /// The hash to write, when the write starts.
    pub hash: Option<String>,
}

fn refuse(state: &mut TaskState, r: (String, String)) -> (lines: Vec<String>)
    ensures
        (final(state)@, lines_of(lines@)) == after_refusal(old(state)@, (r.0@, r.1@)),
{
    let (line, status) = r;
    state.status_msg = status;
    let mut lines: Vec<String> = Vec::new();
    lines.push(line);
    assert(lines_of(lines@) =~= seq![lines@[0]@]);
    lines
}

fn one_line(s: &str) -> (v: Vec<String>)
    ensures
        lines_of(v@) == seq![s@],
{
    let mut v: Vec<String> = Vec::new();
    v.push(s.to_owned());
    assert(lines_of(v@) =~= seq![s@]);
    v
}

fn text_line(c: &Vec<char>) -> (v: Vec<String>)
    ensures
        lines_of(v@) == seq![c@],
{
    let mut v: Vec<String> = Vec::new();
    v.push(string_of(c.as_slice()));
    assert(lines_of(v@) =~= seq![c@]);
    v
}

/// Asks for a card skin write (the wallet tab's write button).
pub fn begin_wallet_flash(
    state: &mut TaskState,
    udid: Option<&str>,
    mode_label: &str,
    transport_ready: bool,
    wifi_with_usb: bool,
    card_hash: &str,
    has_skin: bool,
) -> (w: WalletStart)
    ensures
        ({
            let e = wallet_start(
                old(state)@,
                opt_str(udid),
                mode_label@,
                transport_ready,
                wifi_with_usb,
                card_hash@,
                has_skin,
            );
            &&& final(state)@ == e.0
            &&& lines_of(w.log_lines@) == e.1
            &&& w.stop_scan == e.2
            &&& crate::text::opt_chars(w.hash) == e.3
        }),
{
    match check_selected_transport("Card flash", mode_label, udid.is_some(), transport_ready, wifi_with_usb) {
        Err(r) => {
            let log_lines = refuse(state, r);
            return WalletStart { log_lines, stop_scan: false, hash: None };
        },
        Ok(()) => {},
    }
    let hv = chars_of(card_hash);
    let h = trim_chars(hv.as_slice(), CharClass::WhiteSpace);
    if h.len() == 0 {
        state.status_msg = "请先输入或扫描目标卡片的哈希值。".to_owned();
        return WalletStart { log_lines: one_line("写入失败：目标卡片哈希为空。"), stop_scan: false, hash: None };
    }
    if !has_skin {
        state.status_msg = "请先选择一张卡面图片。".to_owned();
        return WalletStart { log_lines: one_line("写入失败：尚未准备卡面图片。"), stop_scan: false, hash: None };
    }
    let u = match udid {
        Some(u) => u,
        None => "",
    };
    state.scanning_syslog = false;
    state.is_busy = true;
    state.progress_step = 0;
    state.progress_total = 3;
    state.progress_msg = "正在开始写入卡面...".to_owned();
    state.status_msg = "正在向 iPhone 写入卡面...".to_owned();
    let mut v: Vec<char> = Vec::new();
    push_str(&mut v, "开始为哈希 ");
    crate::text::push_chars(&mut v, h.as_slice());
    push_str(&mut v, " 写入卡面（UDID：");
    push_str(&mut v, u);
    push_str(&mut v, "，传输：");
    push_str(&mut v, mode_label);
    push_str(&mut v, "）");
    WalletStart { log_lines: text_line(&v), stop_scan: true, hash: Some(string_of(h.as_slice())) }
}

/// What asking for a theme write does: the device check (for `Theme
/// flash`), then a loaded theme is needed; when there is one, the session
/// turns busy at step 0 of as many steps as the theme has files, and the
/// write starts. Gives the state, the lines to log and whether it starts.
pub open spec fn theme_start(
    s: TaskStateView,
    udid: Option<Seq<char>>,
    mode_label: Seq<char>,
    transport_ready: bool,
    wifi_with_usb: bool,
    theme: Option<(Seq<char>, nat)>,
) -> (TaskStateView, Seq<Seq<char>>, bool) {
    match selection_refusal("Theme flash"@, mode_label, udid is Some, transport_ready, wifi_with_usb) {
        Some(r) => {
            let a = after_refusal(s, r);
            (a.0, a.1, false)
        },
        None => match theme {
            None => (
                TaskStateView { status_msg: "请先选择 .passthm 主题文件。"@, ..s },
                seq!["主题写入失败：未加载 .passthm 主题。"@],
                false,
            ),
            Some((name, n)) => (
                TaskStateView {
                    is_busy: true,
                    progress_step: 0,
                    progress_total: n,
                    progress_msg: "正在开始写入密码键盘主题..."@,
                    status_msg: "正在写入密码键盘按钮素材..."@,
                    ..s
                },
                seq![
                    "正在通过 "@ + name + " 向设备 "@ + decimal(n) + " 写入密码键盘主题 '"@
                        + udid->0 + "'（"@ + mode_label + " 个按钮素材）"@,
                ],
                true,
            ),
        },
    }
}

/// What asking for a theme write leads to.
pub struct ThemeStart {
    pub log_lines: Vec<String>,
    /// The write starts.
    pub started: bool,
}

/// Asks for a theme write (the passcode tab's write button); `theme` gives
/// the loaded theme's name and number of files.
pub fn begin_theme_flash(
    state: &mut TaskState,
    udid: Option<&str>,
    mode_label: &str,
    transport_ready: bool,
    wifi_with_usb: bool,
    theme: Option<(&str, usize)>,
) -> (t: ThemeStart)
    ensures
        ({
            let e = theme_start(
                old(state)@,
                opt_str(udid),
                mode_label@,
                transport_ready,
                wifi_with_usb,
                match theme {
                    Some((name, n)) => Some((name@, n as nat)),
                    None => None,
                },
            );
            &&& final(state)@ == e.0
            &&& lines_of(t.log_lines@) == e.1
            &&& t.started == e.2
        }),
{
    match check_selected_transport("Theme flash", mode_label, udid.is_some(), transport_ready, wifi_with_usb) {
        Err(r) => {
            let log_lines = refuse(state, r);
            return ThemeStart { log_lines, started: false };
        },
        Ok(()) => {},
    }
    match theme {
        None => {
            state.status_msg = "请先选择 .passthm 主题文件。".to_owned();
            ThemeStart { log_lines: one_line("主题写入失败：未加载 .passthm 主题。"), started: false }
        },
        Some((name, n)) => {
            let u = match udid {
                Some(u) => u,
                None => "",
            };
            state.is_busy = true;
            state.progress_step = 0;
            state.progress_total = n;
            state.progress_msg = "正在开始写入密码键盘主题...".to_owned();
            state.status_msg = "正在写入密码键盘按钮素材...".to_owned();
            let mut v: Vec<char> = Vec::new();
            push_str(&mut v, "正在通过 ");
            push_str(&mut v, name);
            push_str(&mut v, " 向设备 ");
            push_decimal(&mut v, n as u64);
            push_str(&mut v, " 写入密码键盘主题 '");
            push_str(&mut v, u);
            push_str(&mut v, "'（");
            push_str(&mut v, mode_label);
            push_str(&mut v, " 个按钮素材）");
            ThemeStart { log_lines: text_line(&v), started: true }
        },
    }
}

/// What the scan button does.
#[derive(PartialEq, Eq, Structural, Clone, Copy, Debug)]
pub enum ScanAction {
    /// The running scan is told to stop.
    Stop,
    /// The device check refused the scan.
    Refused,
    /// A scan starts.
    Start,
}

/// What pressing the scan button does: a running scan stops; otherwise the
/// device check (for `Syslog scan`) decides, and a scan starts when it
/// passes. Gives the state, the lines to log and the action.
pub open spec fn scan_toggle(
    s: TaskStateView,
    has_selection: bool,
    mode_label: Seq<char>,
    transport_ready: bool,
    wifi_with_usb: bool,
) -> (TaskStateView, Seq<Seq<char>>, ScanAction) {
    if s.scanning_syslog {
        (
            TaskStateView { scanning_syslog: false, status_msg: "系统日志扫描已停止。"@, ..s },
            seq!["用户已停止系统日志扫描。"@],
            ScanAction::Stop,
        )
    } else {
        match selection_refusal("Syslog scan"@, mode_label, has_selection, transport_ready, wifi_with_usb) {
            Some(r) => {
                let a = after_refusal(s, r);
                (a.0, a.1, ScanAction::Refused)
            },
            None => (
                TaskStateView {
                    scanning_syslog: true,
                    status_msg: "正在扫描系统日志... 请在 iPhone 上打开钱包或轻点卡片。"@,
                    ..s
                },
                seq!["正在启动系统日志监控会话..."@],
                ScanAction::Start,
            ),
        }
    }
}

/// What the scan button leads to.
pub struct ScanToggle {
    pub log_lines: Vec<String>,
    pub action: ScanAction,
}

/// Presses the scan button.
pub fn toggle_scan(
    state: &mut TaskState,
    has_selection: bool,
    mode_label: &str,
    transport_ready: bool,
    wifi_with_usb: bool,
) -> (t: ScanToggle)
    ensures
        ({
            let e = scan_toggle(old(state)@, has_selection, mode_label@, transport_ready, wifi_with_usb);
            &&& final(state)@ == e.0
            &&& lines_of(t.log_lines@) == e.1
            &&& t.action == e.2
        }),
{
    if state.scanning_syslog {
        state.scanning_syslog = false;
        state.status_msg = "系统日志扫描已停止。".to_owned();
        return ScanToggle { log_lines: one_line("用户已停止系统日志扫描。"), action: ScanAction::Stop };
    }
    match check_selected_transport("Syslog scan", mode_label, has_selection, transport_ready, wifi_with_usb) {
        Err(r) => {
            let log_lines = refuse(state, r);
            ScanToggle { log_lines, action: ScanAction::Refused }
        },
        Ok(()) => {
            state.scanning_syslog = true;
            state.status_msg = "正在扫描系统日志... 请在 iPhone 上打开钱包或轻点卡片。".to_owned();
            ScanToggle { log_lines: one_line("正在启动系统日志监控会话..."), action: ScanAction::Start }
        },
    }
}

/// How a bool is printed (`{}`).
pub open spec fn bool_text(b: bool) -> Seq<char> {
    if b {
        "true"@
    } else {
        "false"@
    }
}

/// What opening a theme file reports: the line naming the file, then either
/// what was loaded (name, detected version, language, bold setting and
/// number of files) or why it failed; the status says the same.
pub open spec fn theme_load_report(
    s: TaskStateView,
    path: Seq<char>,
    language: Seq<char>,
    bold: bool,
    loaded: Result<(Seq<char>, Seq<char>, nat), Seq<char>>,
) -> (TaskStateView, Seq<Seq<char>>) {
    let opening = "正在打开密码键盘主题包："@ + path;
    match loaded {
        Ok((name, detected, n)) => (
            TaskStateView {
                status_msg: "已加载 '"@ + name + "'，共 "@ + decimal(n) + " 个素材（目标："@ + detected
                    + "，语言："@ + language + "，粗体："@ + (if bold {
                    "ON"@
                } else {
                    "OFF"@
                }) + "）"@,
                ..s
            },
            seq![
                opening,
                "已加载密码键盘主题：'"@ + name + "'（TelephonyUI："@ + detected + "，语言："@
                    + language + "，粗体："@ + bool_text(bold) + "，"@ + decimal(n) + " 个素材）"@,
            ],
        ),
        Err(e) => (
            TaskStateView { status_msg: "失败：无法解析主题："@ + e, ..s },
            seq![opening, "失败：无法解析主题："@ + e],
        ),
    }
}

/// Reports the opening of a theme file: `loaded` gives the theme's name,
/// detected version and number of files, or the error's message.
pub fn report_theme_load(
    state: &mut TaskState,
    path: &str,
    language: &str,
    bold: bool,
    loaded: Result<(&str, &str, usize), &str>,
) -> (lines: Vec<String>)
    ensures
        (final(state)@, lines_of(lines@)) == theme_load_report(
            old(state)@,
            path@,
            language@,
            bold,
            match loaded {
                Ok((name, detected, n)) => Ok((name@, detected@, n as nat)),
                Err(e) => Err(e@),
            },
        ),
{
    let mut o: Vec<char> = Vec::new();
    push_str(&mut o, "正在打开密码键盘主题包：");
    push_str(&mut o, path);
    let mut lines: Vec<String> = Vec::new();
    lines.push(string_of(o.as_slice()));
    match loaded {
        Ok((name, detected, n)) => {
            let mut st: Vec<char> = Vec::new();
            push_str(&mut st, "已加载 '");
            push_str(&mut st, name);
            push_str(&mut st, "'，共 ");
            push_decimal(&mut st, n as u64);
            push_str(&mut st, " 个素材（目标：");
            push_str(&mut st, detected);
            push_str(&mut st, "，语言：");
            push_str(&mut st, language);
            push_str(&mut st, "，粗体：");
            push_str(&mut st, if bold { "ON" } else { "OFF" });
            push_str(&mut st, "）");
            state.status_msg = string_of(st.as_slice());
            let mut l: Vec<char> = Vec::new();
            push_str(&mut l, "已加载密码键盘主题：'");
            push_str(&mut l, name);
            push_str(&mut l, "'（TelephonyUI：");
            push_str(&mut l, detected);
            push_str(&mut l, "，语言：");
            push_str(&mut l, language);
            push_str(&mut l, "，粗体：");
            push_str(&mut l, if bold { "true" } else { "false" });
            push_str(&mut l, "，");
            push_decimal(&mut l, n as u64);
            push_str(&mut l, " 个素材）");
            lines.push(string_of(l.as_slice()));
        },
        Err(e) => {
            let mut l: Vec<char> = Vec::new();
            push_str(&mut l, "失败：无法解析主题：");
            push_str(&mut l, e);
            state.status_msg = string_of(l.as_slice());
            lines.push(string_of(l.as_slice()));
        },
    }
    assert(lines_of(lines@) =~= seq![lines@[0]@, lines@[1]@]);
    lines
}

/// A card skin write starts only when everything it needs is there: a
/// selected device reachable over the chosen transport, a card hash that is
/// not blank, and a prepared picture; it then writes the trimmed hash, stops
/// a running scan and turns the session busy at step 0 of 3. When it does
/// not start, nothing is written, no scan is stopped, and the session keeps
/// its busy flag, scan flag, progress and card hash.
pub proof fn lemma_wallet_start_needs(
    s: TaskStateView,
    udid: Option<Seq<char>>,
    mode_label: Seq<char>,
    transport_ready: bool,
    wifi_with_usb: bool,
    card_hash: Seq<char>,
    has_skin: bool,
)
    ensures
        ({
            let e = wallet_start(s, udid, mode_label, transport_ready, wifi_with_usb, card_hash, has_skin);
            &&& (e.3 is Some) <==> (udid is Some && transport_ready && has_skin && trim_class(
                card_hash,
                CharClass::WhiteSpace,
            ).len() > 0)
            &&& e.3 is Some ==> e.3 == Some(trim_class(card_hash, CharClass::WhiteSpace)) && e.2
                && e.0.is_busy && !e.0.scanning_syslog && e.0.progress_step == 0
                && e.0.progress_total == 3
            &&& e.3 is None ==> !e.2 && e.0.is_busy == s.is_busy && e.0.scanning_syslog
                == s.scanning_syslog && e.0.progress_step == s.progress_step && e.0.progress_total
                == s.progress_total && e.0.card_hash == s.card_hash
        }),
{
}

/// A theme write starts only for a reachable selected device and a loaded
/// theme, and then counts one step per file; otherwise the session keeps its
/// busy flag and progress.
pub proof fn lemma_theme_start_needs(
    s: TaskStateView,
    udid: Option<Seq<char>>,
    mode_label: Seq<char>,
    transport_ready: bool,
    wifi_with_usb: bool,
    theme: Option<(Seq<char>, nat)>,
)
    ensures
        ({
            let e = theme_start(s, udid, mode_label, transport_ready, wifi_with_usb, theme);
            &&& e.2 <==> (udid is Some && transport_ready && theme is Some)
            &&& e.2 ==> e.0.is_busy && e.0.progress_step == 0 && e.0.progress_total == (theme->0).1
            &&& !e.2 ==> e.0.is_busy == s.is_busy && e.0.progress_step == s.progress_step
                && e.0.progress_total == s.progress_total
        }),
{
}

/// The scan button stops a running scan; otherwise it starts one exactly
/// when a selected device is reachable, and the scan flag follows.
pub proof fn lemma_scan_toggle(
    s: TaskStateView,
    has_selection: bool,
    mode_label: Seq<char>,
    transport_ready: bool,
    wifi_with_usb: bool,
)
    ensures
        ({
            let e = scan_toggle(s, has_selection, mode_label, transport_ready, wifi_with_usb);
            &&& s.scanning_syslog ==> e.2 == ScanAction::Stop && !e.0.scanning_syslog
            &&& !s.scanning_syslog ==> (e.2 == ScanAction::Start <==> (has_selection
                && transport_ready))
            &&& e.0.scanning_syslog <==> e.2 == ScanAction::Start
            &&& e.0.is_busy == s.is_busy
        }),
{
}

} // verus!
