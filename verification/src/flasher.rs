//! The decisions of a flash run: which files go to which device directory,
//! in which order, what happens when a batch or a single write fails, and
//! what is reported along the way.
//!
//! Writing to the device is outside work done by the caller: a run hands out
//! one command at a time (write this batch, write this file, or finish) and
//! is told how that write went.

use vstd::prelude::*;

use crate::paths::{file_name, path_file_name};
use crate::text::{
    chars_less, chars_of, copy_bytes, decimal, lemma_seq_less_irreflexive, lemma_seq_less_total,
    lemma_seq_less_transitive, pairs_view, push_chars, push_decimal, push_str, seq_less,
    string_of, strings_view,
};

verus! {

// ---------------------------------------------------------------------------
// Runs, groups, notices and commands
// ---------------------------------------------------------------------------

/// The role of a group of files.
#[derive(Clone, Copy)]
pub enum GroupKind {
    /// The card artwork of a pass; a file that cannot be written fails the run.
    CardArt,
    /// Cached renderings of a pass, overwritten on a best-effort basis.
    CacheClear,
    /// Keypad images of a passcode theme; a file that cannot be written fails the run.
    Keypad,
}

/// Files that go to one device directory in one batch.
pub struct FlashGroup {
    pub kind: GroupKind,
    pub target_dir: String,
    /// What the reports call the group (the cache extension, or the directory name).
    pub label: String,
    pub leaves: Vec<String>,
    pub payloads: Vec<Vec<u8>>,
}

/// What a run flashes.
#[derive(Clone, Copy)]
pub enum FlashKind {
    WalletSkin,
    PasscodeTheme,
}

/// Where a run stands: waiting for the batch of a group, for one file of a
/// group written on its own after its batch failed, or finished.
#[derive(Clone, Copy)]
pub enum FlashStage {
    Batch(usize),
    Fallback(usize, usize),
    Finished,
}

/// A flash run in progress.
pub struct FlashRun {
    pub kind: FlashKind,
    pub groups: Vec<FlashGroup>,
    pub stage: FlashStage,
}

/// A report for the user: a progress step or a log line.
pub enum Notice {
    Progress { step: usize, total: usize, message: String },
    Log(String),
}

/// The next thing the caller does.
pub enum FlashCommand {
    /// Write all files of group `group` in one batch.
    WriteBatch { group: usize },
    /// Write file `item` of group `group` on its own.
    WriteFile { group: usize, item: usize },
    /// The run is over, with this outcome.
    Finish(Result<(), String>),
}

/// How a write went. `summary` is the error's message, `detail` the message
/// with its causes.
pub enum WriteResult {
    Written,
    Failed { summary: String, detail: String },
}

/// Reports to show, then the next command.
pub struct FlashStep {
    pub notices: Vec<Notice>,
    pub command: FlashCommand,
}

/// A group as sequences.
pub struct GroupView {
    pub kind: GroupKind,
    pub target_dir: Seq<char>,
    pub label: Seq<char>,
    pub leaves: Seq<Seq<char>>,
    pub payloads: Seq<Seq<u8>>,
}

/// A report as sequences.
pub enum NoticeView {
    Progress(nat, nat, Seq<char>),
    Log(Seq<char>),
}

/// A command as sequences.
pub enum CommandView {
    WriteBatch(nat),
    WriteFile(nat, nat),
    Finish(Result<(), Seq<char>>),
}

/// The contents of a list of byte buffers.
pub open spec fn bytes_view(v: Seq<Vec<u8>>) -> Seq<Seq<u8>> {
    v.map_values(|b: Vec<u8>| b@)
}

impl View for FlashGroup {
    type V = GroupView;

    open spec fn view(&self) -> GroupView {
        GroupView {
            kind: self.kind,
            target_dir: self.target_dir@,
            label: self.label@,
            leaves: strings_view(self.leaves@),
            payloads: bytes_view(self.payloads@),
        }
    }
}

impl View for Notice {
    type V = NoticeView;

    open spec fn view(&self) -> NoticeView {
        match self {
            Notice::Progress { step, total, message } => NoticeView::Progress(
                *step as nat,
                *total as nat,
                message@,
            ),
            Notice::Log(s) => NoticeView::Log(s@),
        }
    }
}

impl View for FlashCommand {
    type V = CommandView;

    open spec fn view(&self) -> CommandView {
        match self {
            FlashCommand::WriteBatch { group } => CommandView::WriteBatch(*group as nat),
            FlashCommand::WriteFile { group, item } => CommandView::WriteFile(
                *group as nat,
                *item as nat,
            ),
            FlashCommand::Finish(Ok(())) => CommandView::Finish(Ok(())),
            FlashCommand::Finish(Err(e)) => CommandView::Finish(Err(e@)),
        }
    }
}

/// A list of groups as sequences.
pub open spec fn groups_view(g: Seq<FlashGroup>) -> Seq<GroupView> {
    g.map_values(|x: FlashGroup| x@)
}

/// A list of reports as sequences.
pub open spec fn notices_view(n: Seq<Notice>) -> Seq<NoticeView> {
    n.map_values(|x: Notice| x@)
}

/// Every group has one payload per file and at least one file.
pub open spec fn groups_wf(groups: Seq<GroupView>) -> bool {
    forall|g: int|
        0 <= g < groups.len() ==> #[trigger] groups[g].leaves.len() == groups[g].payloads.len()
            && groups[g].leaves.len() > 0
}

/// The stage names a group and a file that exist.
pub open spec fn stage_wf(groups: Seq<GroupView>, stage: FlashStage) -> bool {
    match stage {
        FlashStage::Batch(g) => g < groups.len(),
        FlashStage::Fallback(g, k) => g < groups.len() && k < groups[g as int].leaves.len(),
        FlashStage::Finished => true,
    }
}

impl FlashRun {
    /// The groups are well formed and the stage names one of them.
    pub open spec fn wf(&self) -> bool {
        &&& groups_wf(groups_view(self.groups@))
        &&& stage_wf(groups_view(self.groups@), self.stage)
    }
}

// ---------------------------------------------------------------------------
// What a run reports
// ---------------------------------------------------------------------------

/// Progress text of the artwork step.
pub open spec fn card_art_progress() -> Seq<char> {
    "正在写入卡片图案素材（@3x、@2x、.pdf）..."@
}

/// Log line of the artwork step.
pub open spec fn card_art_log() -> Seq<char> {
    "[1/3] 正在写入卡片图案素材（@3x.png、@2x.png、cardBackgroundCombined.pdf）..."@
}

/// Progress text of a cache step.
pub open spec fn cache_progress(label: Seq<char>) -> Seq<char> {
    "正在清除 "@ + label + " 缓存..."@
}

/// Log line of a cache step.
pub open spec fn cache_log(step: nat, total: nat, dir: Seq<char>) -> Seq<char> {
    "["@ + decimal(step) + "/"@ + decimal(total) + "] 正在使 "@ + dir + " 中的缓存叶失效..."@
}

/// Progress text of a keypad directory.
pub open spec fn keypad_progress(label: Seq<char>, n: nat) -> Seq<char> {
    "正在写入 "@ + label + "（原子批次共 "@ + decimal(n) + " 个素材）..."@
}

/// Log line of a keypad directory.
pub open spec fn keypad_log(label: Seq<char>, n: nat) -> Seq<char> {
    "正在将 "@ + decimal(n) + " 个素材的批次写入 "@ + label + "..."@
}

/// Log line when the artwork batch failed.
pub open spec fn card_art_batch_failed(summary: Seq<char>) -> Seq<char> {
    "提示：批次写入失败（"@ + summary + "），正在尝试逐个写入素材..."@
}

/// Log line when a keypad batch failed.
pub open spec fn keypad_batch_failed(summary: Seq<char>) -> Seq<char> {
    "警告：批次写入失败（"@ + summary + "），正在回退为逐个文件写入..."@
}

/// Progress text of one keypad file written on its own.
pub open spec fn keypad_file_progress(k: nat, n: nat, leaf: Seq<char>) -> Seq<char> {
    "回退 ["@ + decimal(k) + "/"@ + decimal(n) + "]：正在写入 "@ + leaf + "..."@
}

/// The error that ends a run when an artwork file cannot be written.
pub open spec fn card_art_error(leaf: Seq<char>, detail: Seq<char>) -> Seq<char> {
    "无法写入卡片素材 "@ + leaf + ": "@ + detail
}

/// The error that ends a run when a keypad file cannot be written.
pub open spec fn keypad_error(leaf: Seq<char>, detail: Seq<char>) -> Seq<char> {
    "无法写入按钮素材 "@ + leaf + ": "@ + detail
}

/// Reports when group `g` (of `total`) starts.
pub open spec fn entry_notices(group: GroupView, g: nat, total: nat) -> Seq<NoticeView> {
    match group.kind {
        GroupKind::CardArt => seq![
            NoticeView::Progress(g + 1, total, card_art_progress()),
            NoticeView::Log(card_art_log()),
        ],
        GroupKind::CacheClear => seq![
            NoticeView::Progress(g + 1, total, cache_progress(group.label)),
            NoticeView::Log(cache_log(g + 1, total, group.target_dir)),
        ],
        GroupKind::Keypad => seq![
            NoticeView::Progress(g + 1, total, keypad_progress(group.label, group.leaves.len())),
            NoticeView::Log(keypad_log(group.label, group.leaves.len())),
        ],
    }
}

/// Reports when file `k` of a group is written on its own.
pub open spec fn file_notices(group: GroupView, k: nat) -> Seq<NoticeView> {
    match group.kind {
        GroupKind::Keypad => seq![
            NoticeView::Progress(
                k + 1,
                group.leaves.len(),
                keypad_file_progress(k + 1, group.leaves.len(), group.leaves[k as int]),
            ),
        ],
        _ => seq![],
    }
}

/// Reports when the batch of a group failed.
pub open spec fn batch_failed_notices(group: GroupView, summary: Seq<char>) -> Seq<NoticeView> {
    match group.kind {
        GroupKind::CardArt => seq![NoticeView::Log(card_art_batch_failed(summary))],
        GroupKind::CacheClear => seq![],
        GroupKind::Keypad => seq![NoticeView::Log(keypad_batch_failed(summary))],
    }
}

/// Reports when every group is written.
pub open spec fn final_notices(kind: FlashKind, total: nat) -> Seq<NoticeView> {
    match kind {
        FlashKind::WalletSkin => seq![
            NoticeView::Progress(total, total, "卡面更新成功！"@),
            NoticeView::Log("卡面写入完成！请在 iPhone 上关闭并重新打开钱包查看。"@),
        ],
        FlashKind::PasscodeTheme => seq![
            NoticeView::Progress(total, total, "密码键盘主题应用成功！"@),
            NoticeView::Log("密码键盘主题写入成功！锁定或重启 iPhone 即可查看新键盘。"@),
        ],
    }
}

// ---------------------------------------------------------------------------
// Transitions
// ---------------------------------------------------------------------------

/// Starting group `g`, or finishing when there is none.
pub open spec fn enter_group(kind: FlashKind, groups: Seq<GroupView>, g: nat) -> (
    FlashStage,
    Seq<NoticeView>,
    CommandView,
) {
    if g < groups.len() {
        (
            FlashStage::Batch(g as usize),
            entry_notices(groups[g as int], g, groups.len()),
            CommandView::WriteBatch(g),
        )
    } else {
        (FlashStage::Finished, final_notices(kind, groups.len()), CommandView::Finish(Ok(())))
    }
}

/// Writing file `k` of group `g` on its own.
pub open spec fn enter_file(groups: Seq<GroupView>, g: nat, k: nat) -> (
    FlashStage,
    Seq<NoticeView>,
    CommandView,
) {
    (
        FlashStage::Fallback(g as usize, k as usize),
        file_notices(groups[g as int], k),
        CommandView::WriteFile(g, k),
    )
}

/// After file `k` of group `g`: the next file, or the next group.
pub open spec fn after_file(kind: FlashKind, groups: Seq<GroupView>, g: nat, k: nat) -> (
    FlashStage,
    Seq<NoticeView>,
    CommandView,
) {
    if k + 1 < groups[g as int].leaves.len() {
        enter_file(groups, g, (k + 1) as nat)
    } else {
        enter_group(kind, groups, (g + 1) as nat)
    }
}

/// The outcome of a write as sequences: `None` for success, else the
/// summary and the detailed message.
pub open spec fn result_view(r: WriteResult) -> Option<(Seq<char>, Seq<char>)> {
    match r {
        WriteResult::Written => None,
        WriteResult::Failed { summary, detail } => Some((summary@, detail@)),
    }
}

/// The next stage, reports and command once the write asked for at `stage`
/// has the outcome `r`.
pub open spec fn advance_spec(
    kind: FlashKind,
    groups: Seq<GroupView>,
    stage: FlashStage,
    r: Option<(Seq<char>, Seq<char>)>,
) -> (FlashStage, Seq<NoticeView>, CommandView) {
    match stage {
        FlashStage::Batch(g) => match r {
            None => enter_group(kind, groups, (g + 1) as nat),
            Some((summary, _)) => {
                let next = enter_file(groups, g as nat, 0);
                (next.0, batch_failed_notices(groups[g as int], summary) + next.1, next.2)
            },
        },
        FlashStage::Fallback(g, k) => match r {
            None => after_file(kind, groups, g as nat, k as nat),
            Some((_, detail)) => match groups[g as int].kind {
                GroupKind::CacheClear => after_file(kind, groups, g as nat, k as nat),
                GroupKind::CardArt => (
                    FlashStage::Finished,
                    seq![],
                    CommandView::Finish(
                        Err(card_art_error(groups[g as int].leaves[k as int], detail)),
                    ),
                ),
                GroupKind::Keypad => (
                    FlashStage::Finished,
                    seq![],
                    CommandView::Finish(Err(keypad_error(groups[g as int].leaves[k as int], detail))),
                ),
            },
        },
        FlashStage::Finished => (FlashStage::Finished, seq![], CommandView::Finish(Ok(()))),
    }
}

/// How far a stage is along the run, as (group, step within the group).
pub open spec fn stage_position(groups: Seq<GroupView>, stage: FlashStage) -> (int, int) {
    match stage {
        FlashStage::Batch(g) => (g as int, 0),
        FlashStage::Fallback(g, k) => (g as int, k + 1),
        FlashStage::Finished => (groups.len() as int, 0),
    }
}

/// `a` comes strictly before `b`.
pub open spec fn position_before(a: (int, int), b: (int, int)) -> bool {
    a.0 < b.0 || (a.0 == b.0 && a.1 < b.1)
}

/// Every step of a run moves it forward, never back to a group or file it
/// has passed, so a run ends after finitely many steps; the command handed
/// out always names the group or file of the new stage, which exists.
pub proof fn lemma_advance_moves_forward(
    kind: FlashKind,
    groups: Seq<GroupView>,
    stage: FlashStage,
    r: Option<(Seq<char>, Seq<char>)>,
)
    requires
        groups_wf(groups),
        groups.len() <= usize::MAX,
        forall|g: int| 0 <= g < groups.len() ==> #[trigger] groups[g].leaves.len() <= usize::MAX,
        stage_wf(groups, stage),
        !(stage is Finished),
    ensures
        ({
            let e = advance_spec(kind, groups, stage, r);
            &&& stage_wf(groups, e.0)
            &&& position_before(stage_position(groups, stage), stage_position(groups, e.0))
            &&& match e.0 {
                FlashStage::Batch(g) => e.2 == CommandView::WriteBatch(g as nat),
                FlashStage::Fallback(g, k) => e.2 == CommandView::WriteFile(g as nat, k as nat),
                FlashStage::Finished => e.2 is Finish,
            }
        }),
{
    match stage {
        FlashStage::Batch(g) => {
            assert(groups[g as int].leaves.len() > 0);
        },
        FlashStage::Fallback(g, k) => {
            assert(groups[g as int].leaves.len() <= usize::MAX);
        },
        FlashStage::Finished => {},
    }
}

/// The group a stage is at (the number of groups once finished).
pub open spec fn stage_group(groups: Seq<GroupView>, stage: FlashStage) -> int {
    match stage {
        FlashStage::Batch(g) => g as int,
        FlashStage::Fallback(g, _) => g as int,
        FlashStage::Finished => groups.len() as int,
    }
}

/// No group is passed over: a step stays in its group or enters the next
/// one. When the last file of a group has been written on its own (or a
/// cache file failed, which does not end the run), the run enters the next
/// group's batch, or finishes with success after the last group. A run
/// finishes with success only from its last group, so every group is
/// entered before a successful end.
pub proof fn lemma_no_group_skipped(
    kind: FlashKind,
    groups: Seq<GroupView>,
    stage: FlashStage,
    r: Option<(Seq<char>, Seq<char>)>,
)
    requires
        groups_wf(groups),
        groups.len() <= usize::MAX,
        stage_wf(groups, stage),
        !(stage is Finished),
    ensures
        ({
            let e = advance_spec(kind, groups, stage, r);
            let g = stage_group(groups, stage);
            &&& e.0 is Finished || stage_group(groups, e.0) == g || stage_group(groups, e.0) == g + 1
            &&& e.2 == CommandView::Finish(Ok(())) ==> g == groups.len() - 1
            &&& match stage {
                FlashStage::Fallback(g0, k) => (k + 1 == groups[g0 as int].leaves.len() && (r is None
                    || groups[g0 as int].kind == GroupKind::CacheClear)) ==> (if g0 + 1
                    < groups.len() {
                    e.0 == FlashStage::Batch((g0 + 1) as usize) && e.2 == CommandView::WriteBatch(
                        (g0 + 1) as nat,
                    )
                } else {
                    e.0 is Finished && e.2 == CommandView::Finish(Ok(()))
                }),
                _ => true,
            }
        }),
{
}

// ---------------------------------------------------------------------------
// Executable transitions
// ---------------------------------------------------------------------------

fn message(parts_before: &str, middle: &[char], parts_after: &str) -> (s: String)
    ensures
        s@ == parts_before@ + middle@ + parts_after@,
{
    let mut v: Vec<char> = Vec::new();
    push_str(&mut v, parts_before);
    push_chars(&mut v, middle);
    push_str(&mut v, parts_after);
    string_of(v.as_slice())
}

fn push_entry_notices(notices: &mut Vec<Notice>, group: &FlashGroup, g: usize, total: usize)
    requires
        g < total,
    ensures
        notices_view(final(notices)@) == notices_view(old(notices)@) + entry_notices(
            group@,
            g as nat,
            total as nat,
        ),
{
    let ghost before = notices_view(notices@);
    match group.kind {
        GroupKind::CardArt => {
            notices.push(
                Notice::Progress {
                    step: g + 1,
                    total,
                    message: chars_string("正在写入卡片图案素材（@3x、@2x、.pdf）..."),
                },
            );
            notices.push(
                Notice::Log(
                    chars_string(
                        "[1/3] 正在写入卡片图案素材（@3x.png、@2x.png、cardBackgroundCombined.pdf）...",
                    ),
                ),
            );
        },
        GroupKind::CacheClear => {
            let label = chars_of(group.label.as_str());
            notices.push(
                Notice::Progress {
                    step: g + 1,
                    total,
                    message: message("正在清除 ", label.as_slice(), " 缓存..."),
                },
            );
            let mut v: Vec<char> = Vec::new();
            push_str(&mut v, "[");
            push_decimal(&mut v, (g + 1) as u64);
            push_str(&mut v, "/");
            push_decimal(&mut v, total as u64);
            push_str(&mut v, "] 正在使 ");
            push_str(&mut v, group.target_dir.as_str());
            push_str(&mut v, " 中的缓存叶失效...");
            notices.push(Notice::Log(string_of(v.as_slice())));
        },
        GroupKind::Keypad => {
            let n = group.leaves.len();
            let mut p: Vec<char> = Vec::new();
            push_str(&mut p, "正在写入 ");
            push_str(&mut p, group.label.as_str());
            push_str(&mut p, "（原子批次共 ");
            push_decimal(&mut p, n as u64);
            push_str(&mut p, " 个素材）...");
            notices.push(Notice::Progress { step: g + 1, total, message: string_of(p.as_slice()) });
            let mut l: Vec<char> = Vec::new();
            push_str(&mut l, "正在将 ");
            push_decimal(&mut l, n as u64);
            push_str(&mut l, " 个素材的批次写入 ");
            push_str(&mut l, group.label.as_str());
            push_str(&mut l, "...");
            notices.push(Notice::Log(string_of(l.as_slice())));
        },
    }
    assert(notices_view(notices@) =~= before + entry_notices(group@, g as nat, total as nat));
}

fn chars_string(s: &str) -> (r: String)
    ensures
        r@ == s@,
{
    s.to_owned()
}

fn push_file_notices(notices: &mut Vec<Notice>, group: &FlashGroup, k: usize)
    requires
        k < group@.leaves.len(),
        group@.leaves.len() == group.leaves@.len(),
    ensures
        notices_view(final(notices)@) == notices_view(old(notices)@) + file_notices(
            group@,
            k as nat,
        ),
{
    let ghost before = notices_view(notices@);
    match group.kind {
        GroupKind::Keypad => {
            let n = group.leaves.len();
            let mut p: Vec<char> = Vec::new();
            push_str(&mut p, "回退 [");
            push_decimal(&mut p, (k + 1) as u64);
            push_str(&mut p, "/");
            push_decimal(&mut p, n as u64);
            push_str(&mut p, "]：正在写入 ");
            push_str(&mut p, group.leaves[k].as_str());
            push_str(&mut p, "...");
            notices.push(Notice::Progress { step: k + 1, total: n, message: string_of(p.as_slice()) });
        },
        _ => {},
    }
    assert(notices_view(notices@) =~= before + file_notices(group@, k as nat));
}

fn push_final_notices(notices: &mut Vec<Notice>, kind: FlashKind, total: usize)
    ensures
        notices_view(final(notices)@) == notices_view(old(notices)@) + final_notices(
            kind,
            total as nat,
        ),
{
    let ghost before = notices_view(notices@);
    match kind {
        FlashKind::WalletSkin => {
            notices.push(
                Notice::Progress { step: total, total, message: chars_string("卡面更新成功！") },
            );
            notices.push(
                Notice::Log(chars_string("卡面写入完成！请在 iPhone 上关闭并重新打开钱包查看。")),
            );
        },
        FlashKind::PasscodeTheme => {
            notices.push(
                Notice::Progress { step: total, total, message: chars_string("密码键盘主题应用成功！") },
            );
            notices.push(
                Notice::Log(
                    chars_string("密码键盘主题写入成功！锁定或重启 iPhone 即可查看新键盘。"),
                ),
            );
        },
    }
    assert(notices_view(notices@) =~= before + final_notices(kind, total as nat));
}

impl FlashRun {
    /// Starts group `g` (or finishes), appending the reports to `notices`.
    fn enter_group(&mut self, g: usize, notices: &mut Vec<Notice>) -> (c: FlashCommand)
        requires
            old(self).wf(),
            g <= old(self).groups@.len(),
        ensures
            final(self).kind == old(self).kind,
            final(self).groups == old(self).groups,
            ({
                let e = enter_group(old(self).kind, groups_view(old(self).groups@), g as nat);
                &&& final(self).stage == e.0
                &&& notices_view(final(notices)@) == notices_view(old(notices)@) + e.1
                &&& c@ == e.2
            }),
    {
        if g < self.groups.len() {
            let total = self.groups.len();
            push_entry_notices(notices, &self.groups[g], g, total);
            self.stage = FlashStage::Batch(g);
            FlashCommand::WriteBatch { group: g }
        } else {
            let total = self.groups.len();
            push_final_notices(notices, self.kind, total);
            self.stage = FlashStage::Finished;
            FlashCommand::Finish(Ok(()))
        }
    }

    /// Writes file `k` of group `g` on its own.
    fn enter_file(&mut self, g: usize, k: usize, notices: &mut Vec<Notice>) -> (c: FlashCommand)
        requires
            old(self).wf(),
            g < old(self).groups@.len(),
            k < old(self).groups@[g as int].leaves@.len(),
        ensures
            final(self).kind == old(self).kind,
            final(self).groups == old(self).groups,
            ({
                let e = enter_file(groups_view(old(self).groups@), g as nat, k as nat);
                &&& final(self).stage == e.0
                &&& notices_view(final(notices)@) == notices_view(old(notices)@) + e.1
                &&& c@ == e.2
            }),
    {
        assert(groups_view(self.groups@)[g as int] == self.groups@[g as int]@);
        push_file_notices(notices, &self.groups[g], k);
        self.stage = FlashStage::Fallback(g, k);
        FlashCommand::WriteFile { group: g, item: k }
    }

    /// Moves on after file `k` of group `g`.
    fn after_file(&mut self, g: usize, k: usize, notices: &mut Vec<Notice>) -> (c: FlashCommand)
        requires
            old(self).wf(),
            g < old(self).groups@.len(),
            k < old(self).groups@[g as int].leaves@.len(),
        ensures
            final(self).kind == old(self).kind,
            final(self).groups == old(self).groups,
            ({
                let e = after_file(
                    old(self).kind,
                    groups_view(old(self).groups@),
                    g as nat,
                    k as nat,
                );
                &&& final(self).stage == e.0
                &&& notices_view(final(notices)@) == notices_view(old(notices)@) + e.1
                &&& c@ == e.2
            }),
    {
        assert(groups_view(self.groups@)[g as int] == self.groups@[g as int]@);
        let n = self.groups.len();
        let m = self.groups[g].leaves.len();
        if k + 1 < m {
            self.enter_file(g, k + 1, notices)
        } else {
            assert(g < n);
            self.enter_group(g + 1, notices)
        }
    }

    /// Takes the outcome of the write that the last command asked for and
    /// decides what comes next.
    pub fn advance(&mut self, result: WriteResult) -> (step: FlashStep)
        requires
            old(self).wf(),
            !(old(self).stage is Finished),
        ensures
            final(self).wf(),
            final(self).kind == old(self).kind,
            final(self).groups == old(self).groups,
            ({
                let e = advance_spec(
                    old(self).kind,
                    groups_view(old(self).groups@),
                    old(self).stage,
                    result_view(result),
                );
                &&& final(self).stage == e.0
                &&& notices_view(step.notices@) == e.1
                &&& step.command@ == e.2
            }),
    {
        let mut notices: Vec<Notice> = Vec::new();
        let ghost gv = groups_view(self.groups@);
        match self.stage {
            FlashStage::Batch(g) => {
                assert(gv[g as int] == self.groups@[g as int]@);
                let n = self.groups.len();
                match result {
                    WriteResult::Written => {
                        let c = self.enter_group(g + 1, &mut notices);
                        FlashStep { notices, command: c }
                    },
                    WriteResult::Failed { summary, detail } => {
                        let kind = self.groups[g].kind;
                        match kind {
                            GroupKind::CardArt => {
                                let sv = chars_of(summary.as_str());
                                notices.push(
                                    Notice::Log(
                                        message(
                                            "提示：批次写入失败（",
                                            sv.as_slice(),
                                            "），正在尝试逐个写入素材...",
                                        ),
                                    ),
                                );
                            },
                            GroupKind::CacheClear => {},
                            GroupKind::Keypad => {
                                let sv = chars_of(summary.as_str());
                                notices.push(
                                    Notice::Log(
                                        message(
                                            "警告：批次写入失败（",
                                            sv.as_slice(),
                                            "），正在回退为逐个文件写入...",
                                        ),
                                    ),
                                );
                            },
                        }
                        let ghost mid = notices_view(notices@);
                        assert(mid =~= batch_failed_notices(gv[g as int], summary@));
                        let c = self.enter_file(g, 0, &mut notices);
                        FlashStep { notices, command: c }
                    },
                }
            },
            FlashStage::Fallback(g, k) => {
                assert(gv[g as int] == self.groups@[g as int]@);
                match result {
                    WriteResult::Written => {
                        let c = self.after_file(g, k, &mut notices);
                        FlashStep { notices, command: c }
                    },
                    WriteResult::Failed { summary, detail } => {
                        let kind = self.groups[g].kind;
                        match kind {
                            GroupKind::CacheClear => {
                                let c = self.after_file(g, k, &mut notices);
                                FlashStep { notices, command: c }
                            },
                            GroupKind::CardArt => {
                                let mut v: Vec<char> = Vec::new();
                                push_str(&mut v, "无法写入卡片素材 ");
                                push_str(&mut v, self.groups[g].leaves[k].as_str());
                                push_str(&mut v, ": ");
                                push_str(&mut v, detail.as_str());
                                self.stage = FlashStage::Finished;
                                FlashStep {
                                    notices,
                                    command: FlashCommand::Finish(Err(string_of(v.as_slice()))),
                                }
                            },
                            GroupKind::Keypad => {
                                let mut v: Vec<char> = Vec::new();
                                push_str(&mut v, "无法写入按钮素材 ");
                                push_str(&mut v, self.groups[g].leaves[k].as_str());
                                push_str(&mut v, ": ");
                                push_str(&mut v, detail.as_str());
                                self.stage = FlashStage::Finished;
                                FlashStep {
                                    notices,
                                    command: FlashCommand::Finish(Err(string_of(v.as_slice()))),
                                }
                            },
                        }
                    },
                }
            },
            FlashStage::Finished => {
                FlashStep { notices, command: FlashCommand::Finish(Ok(())) }
            },
        }
    }
}

// ---------------------------------------------------------------------------
// Wallet skin runs
// ---------------------------------------------------------------------------

/// Where the passes of the Wallet live on the device.
pub open spec fn cards_dir() -> Seq<char> {
    "/var/mobile/Library/Passes/Cards/"@
}

/// The bytes written over a cached rendering: `corrupted`.
pub open spec fn corrupted_marker() -> Seq<u8> {
    seq![99u8, 111u8, 114u8, 114u8, 117u8, 112u8, 116u8, 101u8, 100u8]
}

/// The three groups of a wallet skin run: the artwork of the pass (two PNG
/// sizes and the PDF), then the `.cache` and `.pkcache` renderings.
pub open spec fn wallet_groups(hash: Seq<char>, png: Seq<u8>, pdf: Seq<u8>) -> Seq<GroupView> {
    seq![
        GroupView {
            kind: GroupKind::CardArt,
            target_dir: cards_dir() + hash + ".pkpass"@,
            label: seq![],
            leaves: seq![
                "cardBackgroundCombined@3x.png"@,
                "cardBackgroundCombined@2x.png"@,
                "cardBackgroundCombined.pdf"@,
            ],
            payloads: seq![png, png, pdf],
        },
        GroupView {
            kind: GroupKind::CacheClear,
            target_dir: cards_dir() + hash + ".cache"@,
            label: ".cache"@,
            leaves: seq!["FrontFace"@, "PlaceHolder"@, "Preview"@],
            payloads: seq![corrupted_marker(), corrupted_marker(), corrupted_marker()],
        },
        GroupView {
            kind: GroupKind::CacheClear,
            target_dir: cards_dir() + hash + ".pkcache"@,
            label: ".pkcache"@,
            leaves: seq!["FrontFace"@, "PlaceHolder"@, "Preview"@],
            payloads: seq![corrupted_marker(), corrupted_marker(), corrupted_marker()],
        },
    ]
}

/// The reports that open a wallet skin run.
pub open spec fn wallet_start_notices(hash: Seq<char>, png_len: nat, pdf_len: nat) -> Seq<
    NoticeView,
> {
    seq![
        NoticeView::Log("目标卡片哈希："@ + hash),
        NoticeView::Log(
            "卡面负载大小：PNG "@ + decimal(png_len) + " 字节，PDF "@ + decimal(pdf_len)
                + " 字节"@,
        ),
    ]
}

fn string_vec3(a: &str, b: &str, c: &str) -> (v: Vec<String>)
    ensures
        strings_view(v@) == seq![a@, b@, c@],
{
    let mut v: Vec<String> = Vec::new();
    v.push(a.to_owned());
    v.push(b.to_owned());
    v.push(c.to_owned());
    assert(strings_view(v@) =~= seq![a@, b@, c@]);
    v
}

fn corrupted_marker_bytes() -> (b: Vec<u8>)
    ensures
        b@ == corrupted_marker(),
{
    let b: Vec<u8> = vec![99u8, 111u8, 114u8, 114u8, 117u8, 112u8, 116u8, 101u8, 100u8];
    assert(b@ =~= corrupted_marker());
    b
}

fn cache_group(hash: &str, ext: &str) -> (g: FlashGroup)
    ensures
        g@ == (GroupView {
            kind: GroupKind::CacheClear,
            target_dir: cards_dir() + hash@ + ext@,
            label: ext@,
            leaves: seq!["FrontFace"@, "PlaceHolder"@, "Preview"@],
            payloads: seq![corrupted_marker(), corrupted_marker(), corrupted_marker()],
        }),
{
    let mut dir: Vec<char> = Vec::new();
    push_str(&mut dir, "/var/mobile/Library/Passes/Cards/");
    push_str(&mut dir, hash);
    push_str(&mut dir, ext);
    let mut payloads: Vec<Vec<u8>> = Vec::new();
    payloads.push(corrupted_marker_bytes());
    payloads.push(corrupted_marker_bytes());
    payloads.push(corrupted_marker_bytes());
    assert(bytes_view(payloads@) =~= seq![corrupted_marker(), corrupted_marker(), corrupted_marker()]);
    FlashGroup {
        kind: GroupKind::CacheClear,
        target_dir: string_of(dir.as_slice()),
        label: ext.to_owned(),
        leaves: string_vec3("FrontFace", "PlaceHolder", "Preview"),
        payloads,
    }
}

/// Starts flashing a wallet card skin: the PNG goes to both artwork sizes,
/// the PDF next to them, and the cached renderings of the pass are
/// overwritten. Returns the run and its first reports and command.
pub fn flash_wallet_skin(card_hash: &str, skin_png: &[u8], skin_pdf: &[u8]) -> (r: (
    FlashRun,
    FlashStep,
))
    ensures
        r.0.wf(),
        r.0.kind == FlashKind::WalletSkin,
        groups_view(r.0.groups@) == wallet_groups(card_hash@, skin_png@, skin_pdf@),
        ({
            let e = enter_group(
                FlashKind::WalletSkin,
                wallet_groups(card_hash@, skin_png@, skin_pdf@),
                0,
            );
            &&& r.0.stage == e.0
            &&& notices_view(r.1.notices@) == wallet_start_notices(
                card_hash@,
                skin_png@.len(),
                skin_pdf@.len(),
            ) + e.1
            &&& r.1.command@ == e.2
        }),
{
    let mut dir: Vec<char> = Vec::new();
    push_str(&mut dir, "/var/mobile/Library/Passes/Cards/");
    push_str(&mut dir, card_hash);
    push_str(&mut dir, ".pkpass");
    let mut payloads: Vec<Vec<u8>> = Vec::new();
    payloads.push(copy_bytes(skin_png));
    payloads.push(copy_bytes(skin_png));
    payloads.push(copy_bytes(skin_pdf));
    assert(bytes_view(payloads@) =~= seq![skin_png@, skin_png@, skin_pdf@]);
    let art = FlashGroup {
        kind: GroupKind::CardArt,
        target_dir: string_of(dir.as_slice()),
        label: String::new(),
        leaves: string_vec3(
            "cardBackgroundCombined@3x.png",
            "cardBackgroundCombined@2x.png",
            "cardBackgroundCombined.pdf",
        ),
        payloads,
    };
    let mut groups: Vec<FlashGroup> = Vec::new();
    groups.push(art);
    groups.push(cache_group(card_hash, ".cache"));
    groups.push(cache_group(card_hash, ".pkcache"));
    assert(groups_view(groups@) =~= wallet_groups(card_hash@, skin_png@, skin_pdf@));
    let mut notices: Vec<Notice> = Vec::new();
    let mut l1: Vec<char> = Vec::new();
    push_str(&mut l1, "目标卡片哈希：");
    push_str(&mut l1, card_hash);
    notices.push(Notice::Log(string_of(l1.as_slice())));
    let mut l2: Vec<char> = Vec::new();
    push_str(&mut l2, "卡面负载大小：PNG ");
    push_decimal(&mut l2, skin_png.len() as u64);
    push_str(&mut l2, " 字节，PDF ");
    push_decimal(&mut l2, skin_pdf.len() as u64);
    push_str(&mut l2, " 字节");
    notices.push(Notice::Log(string_of(l2.as_slice())));
    assert(notices_view(notices@) =~= wallet_start_notices(
        card_hash@,
        skin_png@.len(),
        skin_pdf@.len(),
    ));
    let mut run = FlashRun { kind: FlashKind::WalletSkin, groups, stage: FlashStage::Finished };
    let c = run.enter_group(0, &mut notices);
    (run, FlashStep { notices, command: c })
}

// ---------------------------------------------------------------------------
// Passcode theme runs
// ---------------------------------------------------------------------------

/// Theme items (target directory, file name, bytes) as sequences.
pub open spec fn theme_items_view(items: Seq<(String, String, Vec<u8>)>) -> Seq<
    (Seq<char>, Seq<char>, Seq<u8>),
> {
    items.map_values(|t: (String, String, Vec<u8>)| (t.0@, t.1@, t.2@))
}

/// The files (name, bytes) of the items that go to directory `d`, in order.
pub open spec fn files_in_dir(items: Seq<(Seq<char>, Seq<char>, Seq<u8>)>, d: Seq<char>) -> Seq<
    (Seq<char>, Seq<u8>),
>
    decreases items.len(),
{
    if items.len() == 0 {
        seq![]
    } else {
        let prev = files_in_dir(items.drop_last(), d);
        if items.last().0 == d {
            prev.push((items.last().1, items.last().2))
        } else {
            prev
        }
    }
}

/// The names of a list of files.
pub open spec fn file_names(f: Seq<(Seq<char>, Seq<u8>)>) -> Seq<Seq<char>> {
    f.map_values(|p: (Seq<char>, Seq<u8>)| p.0)
}

/// The contents of a list of files.
pub open spec fn file_bytes(f: Seq<(Seq<char>, Seq<u8>)>) -> Seq<Seq<u8>> {
    f.map_values(|p: (Seq<char>, Seq<u8>)| p.1)
}

/// What the reports call a directory: its last component, or the whole path.
pub open spec fn dir_label(d: Seq<char>) -> Seq<char> {
    match file_name(d) {
        Some(n) => n,
        None => d,
    }
}

/// `groups` holds the items one group per target directory, the
/// directories in ascending order, each group with its files in item order.
pub open spec fn keypad_groups_of(
    items: Seq<(Seq<char>, Seq<char>, Seq<u8>)>,
    groups: Seq<GroupView>,
) -> bool {
    &&& groups_sorted(groups)
    &&& forall|g: int| 0 <= g < groups.len() ==> group_matches(items, #[trigger] groups[g])
    &&& forall|i: int| 0 <= i < items.len() ==> has_group_for(groups, (#[trigger] items[i]).0)
}

/// Directories in strictly ascending order.
pub open spec fn groups_sorted(groups: Seq<GroupView>) -> bool {
    forall|i: int, j: int|
        0 <= i < j < groups.len() ==> seq_less(
            #[trigger] groups[i].target_dir,
            #[trigger] groups[j].target_dir,
        )
}

/// A keypad group holding exactly the files of the items for its directory.
pub open spec fn group_matches(items: Seq<(Seq<char>, Seq<char>, Seq<u8>)>, g: GroupView) -> bool {
    let f = files_in_dir(items, g.target_dir);
    &&& g.kind == GroupKind::Keypad
    &&& g.label == dir_label(g.target_dir)
    &&& g.leaves == file_names(f)
    &&& g.payloads == file_bytes(f)
    &&& f.len() > 0
}

/// Some group writes to directory `d`.
pub open spec fn has_group_for(groups: Seq<GroupView>, d: Seq<char>) -> bool {
    exists|g: int| 0 <= g < groups.len() && #[trigger] groups[g].target_dir == d
}

proof fn lemma_files_in_dir_absent(items: Seq<(Seq<char>, Seq<char>, Seq<u8>)>, d: Seq<char>)
    requires
        forall|k: int| 0 <= k < items.len() ==> (#[trigger] items[k]).0 != d,
    ensures
        files_in_dir(items, d).len() == 0,
    decreases items.len(),
{
    if items.len() > 0 {
        assert forall|k: int| 0 <= k < items.drop_last().len() implies (
        #[trigger] items.drop_last()[k]).0 != d by {
            assert(items.drop_last()[k] == items[k]);
        }
        lemma_files_in_dir_absent(items.drop_last(), d);
        assert(items[items.len() - 1].0 != d);
    }
}

/// The label of a directory.
fn label_of_dir(dir: &String) -> (l: String)
    ensures
        l@ == dir_label(dir@),
{
    let dv = chars_of(dir.as_str());
    match path_file_name(dv.as_slice()) {
        Some(n) => string_of(n.as_slice()),
        None => dir.clone(),
    }
}

/// The files of directory `d` once one more item is taken in.
proof fn lemma_files_in_dir_push(
    pre: Seq<(Seq<char>, Seq<char>, Seq<u8>)>,
    it: (Seq<char>, Seq<char>, Seq<u8>),
    d: Seq<char>,
)
    ensures
        files_in_dir(pre.push(it), d) == if it.0 == d {
            files_in_dir(pre, d).push((it.1, it.2))
        } else {
            files_in_dir(pre, d)
        },
{
    assert(pre.push(it).drop_last() =~= pre);
}

/// Directories of sorted groups are distinct.
proof fn lemma_sorted_distinct(groups: Seq<GroupView>, a: int, b: int)
    requires
        forall|i: int, j: int|
            0 <= i < j < groups.len() ==> seq_less(
                #[trigger] groups[i].target_dir,
                #[trigger] groups[j].target_dir,
            ),
        0 <= a < groups.len(),
        0 <= b < groups.len(),
        a != b,
    ensures
        groups[a].target_dir != groups[b].target_dir,
{
    if a < b {
        lemma_seq_less_irreflexive(groups[a].target_dir);
    } else {
        lemma_seq_less_irreflexive(groups[b].target_dir);
    }
}

/// Taking in an item whose directory already has group `j`.
proof fn lemma_group_append(
    pre: Seq<(Seq<char>, Seq<char>, Seq<u8>)>,
    it: (Seq<char>, Seq<char>, Seq<u8>),
    before: Seq<GroupView>,
    j: int,
    after: Seq<GroupView>,
)
    requires
        keypad_groups_of(pre, before),
        0 <= j < before.len(),
        before[j].target_dir == it.0,
        after == before.update(
            j,
            GroupView {
                kind: before[j].kind,
                target_dir: before[j].target_dir,
                label: before[j].label,
                leaves: before[j].leaves.push(it.1),
                payloads: before[j].payloads.push(it.2),
            },
        ),
    ensures
        keypad_groups_of(pre.push(it), after),
{
    let post = pre.push(it);
    assert forall|i: int, k: int| 0 <= i < k < after.len() implies seq_less(
        #[trigger] after[i].target_dir,
        #[trigger] after[k].target_dir,
    ) by {
        assert(after[i].target_dir == before[i].target_dir);
        assert(after[k].target_dir == before[k].target_dir);
    }
    assert(groups_sorted(after));
    assert forall|g: int| 0 <= g < after.len() implies group_matches(post, #[trigger] after[g]) by {
        let d = before[g].target_dir;
        lemma_files_in_dir_push(pre, it, d);
        let f0 = files_in_dir(pre, d);
        if g == j {
            assert(file_names(f0.push((it.1, it.2))) =~= file_names(f0).push(it.1));
            assert(file_bytes(f0.push((it.1, it.2))) =~= file_bytes(f0).push(it.2));
        } else {
            lemma_sorted_distinct(before, g, j);
        }
    }
    assert forall|k: int| 0 <= k < post.len() implies has_group_for(after, (#[trigger] post[k]).0) by {
        if k < pre.len() {
            assert(post[k] == pre[k]);
            assert(has_group_for(before, pre[k].0));
            let g = choose|g: int| 0 <= g < before.len() && #[trigger] before[g].target_dir == pre[k].0;
            assert(after[g].target_dir == before[g].target_dir);
        } else {
            assert(after[j].target_dir == post[k].0);
        }
    }
}

/// Taking in an item whose directory has no group yet: a new group at `p`.
proof fn lemma_group_insert(
    pre: Seq<(Seq<char>, Seq<char>, Seq<u8>)>,
    it: (Seq<char>, Seq<char>, Seq<u8>),
    before: Seq<GroupView>,
    p: int,
    after: Seq<GroupView>,
)
    requires
        keypad_groups_of(pre, before),
        0 <= p <= before.len(),
        forall|q: int| 0 <= q < p ==> seq_less(#[trigger] before[q].target_dir, it.0),
        forall|q: int| p <= q < before.len() ==> seq_less(it.0, #[trigger] before[q].target_dir),
        after == before.insert(
            p,
            GroupView {
                kind: GroupKind::Keypad,
                target_dir: it.0,
                label: dir_label(it.0),
                leaves: seq![it.1],
                payloads: seq![it.2],
            },
        ),
    ensures
        keypad_groups_of(pre.push(it), after),
{
    let post = pre.push(it);
    assert forall|q: int| 0 <= q < before.len() implies #[trigger] before[q].target_dir != it.0 by {
        if q < p {
            lemma_seq_less_irreflexive(it.0);
        } else {
            lemma_seq_less_irreflexive(it.0);
        }
    }
    assert forall|i: int, j: int| 0 <= i < j < after.len() implies seq_less(
        #[trigger] after[i].target_dir,
        #[trigger] after[j].target_dir,
    ) by {
        if j < p {
        } else if j == p {
        } else if i < p {
            lemma_seq_less_transitive(before[i].target_dir, it.0, before[j - 1].target_dir);
        } else if i == p {
        } else {
        }
    }
    assert(groups_sorted(after));
    assert forall|g: int| 0 <= g < after.len() implies group_matches(post, #[trigger] after[g]) by {
        let d = after[g].target_dir;
        lemma_files_in_dir_push(pre, it, d);
        if g == p {
            assert forall|k: int| 0 <= k < pre.len() implies (#[trigger] pre[k]).0 != it.0 by {
                assert(has_group_for(before, pre[k].0));
                let q = choose|q: int| 0 <= q < before.len() && #[trigger] before[q].target_dir == pre[k].0;
            }
            lemma_files_in_dir_absent(pre, it.0);
            let f0 = files_in_dir(pre, d);
            assert(f0 =~= Seq::<(Seq<char>, Seq<u8>)>::empty());
            assert(file_names(f0.push((it.1, it.2))) =~= seq![it.1]);
            assert(file_bytes(f0.push((it.1, it.2))) =~= seq![it.2]);
        } else {
            let b = if g < p {
                g
            } else {
                g - 1
            };
            assert(after[g] == before[b]);
            assert(before[b].target_dir != it.0);
        }
    }
    assert forall|k: int| 0 <= k < post.len() implies has_group_for(after, (#[trigger] post[k]).0) by {
        if k < pre.len() {
            assert(post[k] == pre[k]);
            assert(has_group_for(before, pre[k].0));
            let g = choose|g: int| 0 <= g < before.len() && #[trigger] before[g].target_dir == pre[k].0;
            if g < p {
                assert(after[g] == before[g]);
            } else {
                assert(after[g + 1] == before[g]);
            }
        } else {
            assert(after[p].target_dir == post[k].0);
        }
    }
}

/// Where the group of directory `dir` is (`Ok`), or where it belongs (`Err`).
fn find_group_slot(groups: &Vec<FlashGroup>, dir: &String) -> (r: Result<usize, usize>)
    requires
        forall|i: int, j: int|
            0 <= i < j < groups@.len() ==> seq_less(
                #[trigger] groups_view(groups@)[i].target_dir,
                #[trigger] groups_view(groups@)[j].target_dir,
            ),
    ensures
        match r {
            Ok(j) => j < groups@.len() && groups_view(groups@)[j as int].target_dir == dir@,
            Err(p) => p <= groups@.len() && (forall|q: int|
                0 <= q < p ==> seq_less(#[trigger] groups_view(groups@)[q].target_dir, dir@)) && (
            forall|q: int|
                p <= q < groups@.len() ==> seq_less(
                    dir@,
                    #[trigger] groups_view(groups@)[q].target_dir,
                )),
        },
{
    let ghost gv = groups_view(groups@);
    let dd = chars_of(dir.as_str());
    let mut j: usize = 0;
    while j < groups.len()
        invariant
            j <= groups@.len(),
            gv == groups_view(groups@),
            dd@ == dir@,
            forall|i: int, k: int|
                0 <= i < k < groups@.len() ==> seq_less(
                    #[trigger] gv[i].target_dir,
                    #[trigger] gv[k].target_dir,
                ),
            forall|q: int| 0 <= q < j ==> seq_less(#[trigger] gv[q].target_dir, dir@),
        decreases groups@.len() - j,
    {
        assert(gv[j as int] == groups@[j as int]@);
        if groups[j].target_dir == *dir {
            return Ok(j);
        }
        let gd = chars_of(groups[j].target_dir.as_str());
        if chars_less(dd.as_slice(), gd.as_slice()) {
            assert forall|q: int| j <= q < groups@.len() implies seq_less(
                dir@,
                #[trigger] gv[q].target_dir,
            ) by {
                if q > j {
                    lemma_seq_less_transitive(dir@, gv[j as int].target_dir, gv[q].target_dir);
                }
            }
            return Err(j);
        }
        proof {
            lemma_seq_less_total(gv[j as int].target_dir, dir@);
        }
        j = j + 1;
    }
    Err(j)
}

/// Sorts theme items into groups by target directory.
fn group_theme_items(items: &[(String, String, Vec<u8>)]) -> (groups: Vec<FlashGroup>)
    ensures
        keypad_groups_of(theme_items_view(items@), groups_view(groups@)),
        groups_wf(groups_view(groups@)),
{
    let ghost iv = theme_items_view(items@);
    let mut groups: Vec<FlashGroup> = Vec::new();
    let mut i: usize = 0;
    assert(keypad_groups_of(iv.take(0), groups_view(groups@)));
    while i < items.len()
        invariant
            i <= items@.len(),
            iv == theme_items_view(items@),
            keypad_groups_of(iv.take(i as int), groups_view(groups@)),
        decreases items@.len() - i,
    {
        let ghost before = groups_view(groups@);
        let ghost pre = iv.take(i as int);
        let ghost it = iv[i as int];
        assert(iv.take(i + 1) =~= pre.push(it));
        let dir = &items[i].0;
        let leaf = &items[i].1;
        let data = &items[i].2;
        match find_group_slot(&groups, dir) {
            Ok(j) => {
                assert(before[j as int] == groups@[j as int]@);
                let mut g = groups.remove(j);
                let ghost g0 = g@;
                assert(g0 == before[j as int]);
                assert(groups_view(groups@) =~= before.remove(j as int));
                g.leaves.push(leaf.clone());
                g.payloads.push(copy_bytes(data.as_slice()));
                assert(g@.leaves =~= g0.leaves.push(it.1));
                assert(g@.payloads =~= g0.payloads.push(it.2));
                groups.insert(j, g);
                assert(groups_view(groups@) =~= before.update(
                    j as int,
                    GroupView {
                        kind: before[j as int].kind,
                        target_dir: before[j as int].target_dir,
                        label: before[j as int].label,
                        leaves: before[j as int].leaves.push(it.1),
                        payloads: before[j as int].payloads.push(it.2),
                    },
                ));
                proof {
                    lemma_group_append(pre, it, before, j as int, groups_view(groups@));
                }
            },
            Err(p) => {
                let mut leaves: Vec<String> = Vec::new();
                leaves.push(leaf.clone());
                let mut payloads: Vec<Vec<u8>> = Vec::new();
                payloads.push(copy_bytes(data.as_slice()));
                let g = FlashGroup {
                    kind: GroupKind::Keypad,
                    target_dir: dir.clone(),
                    label: label_of_dir(dir),
                    leaves,
                    payloads,
                };
                assert(g@.leaves =~= seq![it.1]);
                assert(g@.payloads =~= seq![it.2]);
                groups.insert(p, g);
                assert(groups_view(groups@) =~= before.insert(
                    p as int,
                    GroupView {
                        kind: GroupKind::Keypad,
                        target_dir: it.0,
                        label: dir_label(it.0),
                        leaves: seq![it.1],
                        payloads: seq![it.2],
                    },
                ));
                proof {
                    lemma_group_insert(pre, it, before, p as int, groups_view(groups@));
                }
            },
        }
        i = i + 1;
    }
    assert(iv.take(items@.len() as int) =~= iv);
    assert forall|g: int| 0 <= g < groups_view(groups@).len() implies #[trigger] groups_view(
        groups@,
    )[g].leaves.len() == groups_view(groups@)[g].payloads.len() && groups_view(groups@)[g].leaves.len()
        > 0 by {
        let f = files_in_dir(iv, groups_view(groups@)[g].target_dir);
        assert(file_names(f).len() == f.len());
    }
    groups
}

/// Starts flashing a passcode theme: the items are grouped by target
/// directory (directories in ascending order) and each group is written in
/// one batch, falling back to one file at a time when the batch fails.
/// Returns the run and its first reports and command.
pub fn flash_passcode_theme(items: &[(String, String, Vec<u8>)]) -> (r: (FlashRun, FlashStep))
    ensures
        r.0.wf(),
        r.0.kind == FlashKind::PasscodeTheme,
        keypad_groups_of(theme_items_view(items@), groups_view(r.0.groups@)),
        ({
            let e = enter_group(FlashKind::PasscodeTheme, groups_view(r.0.groups@), 0);
            &&& r.0.stage == e.0
            &&& notices_view(r.1.notices@) == seq![
                NoticeView::Log(
                    "正在写入密码键盘主题（"@ + decimal(items@.len()) + " 个素材）..."@,
                ),
            ] + e.1
            &&& r.1.command@ == e.2
        }),
{
    let mut v: Vec<char> = Vec::new();
    push_str(&mut v, "正在写入密码键盘主题（");
    push_decimal(&mut v, items.len() as u64);
    push_str(&mut v, " 个素材）...");
    let mut notices: Vec<Notice> = Vec::new();
    notices.push(Notice::Log(string_of(v.as_slice())));
    let groups = group_theme_items(items);
    let mut run = FlashRun { kind: FlashKind::PasscodeTheme, groups, stage: FlashStage::Finished };
    let c = run.enter_group(0, &mut notices);
    (run, FlashStep { notices, command: c })
}

// ---------------------------------------------------------------------------
// Staging files for the sync service
// ---------------------------------------------------------------------------

/// A lower-case hexadecimal digit.
pub open spec fn hex_char(d: nat) -> char {
    if d < 10 {
        ((d + 48) as u8) as char
    } else {
        ((d + 87) as u8) as char
    }
}

/// Bytes as lower-case hexadecimal, two digits each (`{:02x}` per byte).
pub open spec fn hex_string(b: Seq<u8>) -> Seq<char>
    decreases b.len(),
{
    if b.len() == 0 {
        seq![]
    } else {
        hex_string(b.drop_last()) + seq![
            hex_char((b.last() / 16) as nat),
            hex_char((b.last() % 16) as nat),
        ]
    }
}

/// A lower-case hexadecimal digit.
pub open spec fn is_hex_digit(c: char) -> bool {
    ('0' <= c && c <= '9') || ('a' <= c && c <= 'f')
}

/// A token has two lower-case hexadecimal digits per random byte.
pub proof fn lemma_hex_token_shape(b: Seq<u8>)
    ensures
        hex_string(b).len() == 2 * b.len(),
        forall|i: int| 0 <= i < hex_string(b).len() ==> is_hex_digit(#[trigger] hex_string(b)[i]),
    decreases b.len(),
{
    if b.len() > 0 {
        lemma_hex_token_shape(b.drop_last());
        let prev = hex_string(b.drop_last());
        let hi = (b.last() / 16) as nat;
        let lo = (b.last() % 16) as nat;
        assert(hi < 16 && lo < 16);
        assert(is_hex_digit(hex_char(hi)));
        assert(is_hex_digit(hex_char(lo)));
        assert forall|i: int| 0 <= i < hex_string(b).len() implies is_hex_digit(
            #[trigger] hex_string(b)[i],
        ) by {
            if i < prev.len() {
                assert(hex_string(b)[i] == prev[i]);
            }
        }
    }
}

fn hex_digit(d: u8) -> (c: char)
    requires
        d < 16,
    ensures
        c == hex_char(d as nat),
{
    if d < 10 {
        (d + 48) as char
    } else {
        (d + 87) as char
    }
}

/// The token that names one staging round: the random bytes in hexadecimal.
pub fn hex_token(random: &[u8]) -> (t: String)
    ensures
        t@ == hex_string(random@),
{
    let mut v: Vec<char> = Vec::new();
    let mut i: usize = 0;
    while i < random.len()
        invariant
            i <= random@.len(),
            v@ == hex_string(random@.take(i as int)),
        decreases random@.len() - i,
    {
        let b = random[i];
        assert(random@.take(i + 1).drop_last() =~= random@.take(i as int));
        v.push(hex_digit(b / 16));
        v.push(hex_digit(b % 16));
        i = i + 1;
        assert(v@ =~= hex_string(random@.take(i as int)));
    }
    assert(random@.take(random@.len() as int) =~= random@);
    string_of(v.as_slice())
}

/// The names used to stage files for the sync service and to clean up after it.
pub struct StagingPlan {
    /// Where the archive is unpacked.
    pub source: String,
    /// Where the sync service is pointed to.
    pub link_dest: String,
    /// Left behind by the service; removed afterwards.
    pub recovered: String,
    /// The identifiers written to the books list.
    pub books_identifiers: Vec<String>,
    /// Asset identifier and destination for each staged object.
    pub assets: Vec<(String, String)>,
    /// The staged link object that must exist once the archive is unpacked.
    pub link_object: String,
    /// At least one of these staged payload objects must exist.
    pub payload_objects: Vec<String>,
}

/// The identifier of the staged link object.
pub open spec fn link_identifier(source: Seq<char>) -> Seq<char> {
    "../../"@ + source + "/p0/p1/p2/link"@
}

/// The identifier of staged payload `idx` (`None`: the only payload).
pub open spec fn payload_identifier(source: Seq<char>, idx: Option<nat>) -> Seq<char> {
    match idx {
        None => "../../"@ + source + "/payload"@,
        Some(i) => "../../"@ + source + "/payload_"@ + decimal(i),
    }
}

/// Which payload name file `i` of `n` gets: a lone file is `payload`,
/// files of a batch are `payload_<i>`.
pub open spec fn payload_index(n: nat, i: nat) -> Option<nat> {
    if n == 1 {
        None
    } else {
        Some(i)
    }
}

/// The staging plan for the files `leaves` under token `token`.
pub open spec fn staging_plan_spec(
    source_prefix: Seq<char>,
    link_prefix: Seq<char>,
    recovered_prefix: Seq<char>,
    token: Seq<char>,
    leaves: Seq<Seq<char>>,
) -> (Seq<char>, Seq<char>, Seq<char>, Seq<Seq<char>>, Seq<(Seq<char>, Seq<char>)>, Seq<char>, Seq<Seq<char>>) {
    let source = source_prefix + token;
    let link_dest = link_prefix + token;
    let n = leaves.len();
    let payloads = Seq::new(n, |i: int| payload_identifier(source, payload_index(n, i as nat)));
    (
        source,
        link_dest,
        recovered_prefix + token,
        seq![link_identifier(source)] + payloads,
        seq![(link_identifier(source), link_dest)] + Seq::new(
            n,
            |i: int| (payloads[i], link_dest + "/"@ + leaves[i]),
        ),
        source + "/p0/p1/p2/link"@,
        if n == 1 {
            seq![source + "/payload"@]
        } else {
            seq![source + "/payload_0"@, source + "/payload"@]
        },
    )
}

fn payload_identifier_exec(source: &[char], n: usize, i: usize) -> (r: String)
    ensures
        r@ == payload_identifier(source@, payload_index(n as nat, i as nat)),
{
    let mut v: Vec<char> = Vec::new();
    push_str(&mut v, "../../");
    push_chars(&mut v, source);
    if n == 1 {
        push_str(&mut v, "/payload");
    } else {
        push_str(&mut v, "/payload_");
        push_decimal(&mut v, i as u64);
    }
    string_of(v.as_slice())
}

/// Names the staged objects for writing `leaves` in one round: a lone file
/// is staged as `payload`, the files of a batch as `payload_0`, `payload_1`, ...
pub fn staging_plan(
    source_prefix: &str,
    link_prefix: &str,
    recovered_prefix: &str,
    token: &str,
    leaves: &[String],
) -> (p: StagingPlan)
    ensures
        (p.source@, p.link_dest@, p.recovered@, strings_view(p.books_identifiers@), pairs_view(
            p.assets@,
        ), p.link_object@, strings_view(p.payload_objects@)) == staging_plan_spec(
            source_prefix@,
            link_prefix@,
            recovered_prefix@,
            token@,
            strings_view(leaves@),
        ),
{
    let mut source: Vec<char> = Vec::new();
    push_str(&mut source, source_prefix);
    push_str(&mut source, token);
    let mut link_dest: Vec<char> = Vec::new();
    push_str(&mut link_dest, link_prefix);
    push_str(&mut link_dest, token);
    let mut recovered: Vec<char> = Vec::new();
    push_str(&mut recovered, recovered_prefix);
    push_str(&mut recovered, token);
    let mut li: Vec<char> = Vec::new();
    push_str(&mut li, "../../");
    push_chars(&mut li, source.as_slice());
    push_str(&mut li, "/p0/p1/p2/link");
    let link_ident = string_of(li.as_slice());
    let link_dest_s = string_of(link_dest.as_slice());
    let ghost spec = staging_plan_spec(
        source_prefix@,
        link_prefix@,
        recovered_prefix@,
        token@,
        strings_view(leaves@),
    );
    assert(link_ident@ =~= link_identifier(source@));
    let mut ids: Vec<String> = Vec::new();
    ids.push(link_ident.clone());
    let mut assets: Vec<(String, String)> = Vec::new();
    assets.push((link_ident, link_dest_s.clone()));
    let n = leaves.len();
    assert(spec.0 =~= source@);
    assert(spec.1 =~= link_dest@);
    assert(strings_view(ids@) =~= spec.3.take(1));
    assert(pairs_view(assets@) =~= spec.4.take(1));
    let mut i: usize = 0;
    while i < n
        invariant
            n == leaves@.len(),
            i <= n,
            source@ == source_prefix@ + token@,
            link_dest@ == link_prefix@ + token@,
            link_dest_s@ == link_dest@,
            spec == staging_plan_spec(
                source_prefix@,
                link_prefix@,
                recovered_prefix@,
                token@,
                strings_view(leaves@),
            ),
            strings_view(ids@) == spec.3.take(i + 1),
            pairs_view(assets@) == spec.4.take(i + 1),
        decreases n - i,
    {
        let pid = payload_identifier_exec(source.as_slice(), n, i);
        let mut dest: Vec<char> = Vec::new();
        push_chars(&mut dest, link_dest.as_slice());
        push_str(&mut dest, "/");
        push_str(&mut dest, leaves[i].as_str());
        assert(strings_view(leaves@)[i as int] == leaves@[i as int]@);
        assert(spec.0 =~= source@);
        assert(spec.1 =~= link_dest@);
        assert(spec.3[i + 1] == pid@);
        assert(spec.4[i + 1] == (pid@, dest@));
        let ghost old_ids = strings_view(ids@);
        let ghost old_assets = pairs_view(assets@);
        let ghost pidv = pid@;
        ids.push(pid.clone());
        assert(strings_view(ids@) =~= old_ids.push(pidv));
        assets.push((pid, string_of(dest.as_slice())));
        assert(pairs_view(assets@) =~= old_assets.push((pidv, dest@)));
        assert(spec.3.take(i + 2) =~= spec.3.take(i + 1).push(spec.3[i + 1]));
        assert(spec.4.take(i + 2) =~= spec.4.take(i + 1).push(spec.4[i + 1]));
        i = i + 1;
    }
    assert(spec.3.take(n + 1) =~= spec.3);
    assert(spec.4.take(n + 1) =~= spec.4);
    let mut lo: Vec<char> = Vec::new();
    push_chars(&mut lo, source.as_slice());
    push_str(&mut lo, "/p0/p1/p2/link");
    let mut objects: Vec<String> = Vec::new();
    if n == 1 {
        let mut o: Vec<char> = Vec::new();
        push_chars(&mut o, source.as_slice());
        push_str(&mut o, "/payload");
        objects.push(string_of(o.as_slice()));
    } else {
        let mut o0: Vec<char> = Vec::new();
        push_chars(&mut o0, source.as_slice());
        push_str(&mut o0, "/payload_0");
        objects.push(string_of(o0.as_slice()));
        let mut o: Vec<char> = Vec::new();
        push_chars(&mut o, source.as_slice());
        push_str(&mut o, "/payload");
        objects.push(string_of(o.as_slice()));
    }
    assert(strings_view(objects@) =~= spec.6);
    StagingPlan {
        source: string_of(source.as_slice()),
        link_dest: link_dest_s,
        recovered: string_of(recovered.as_slice()),
        books_identifiers: ids,
        assets,
        link_object: string_of(lo.as_slice()),
        payload_objects: objects,
    }
}

/// How a set of files for one directory is written.
#[derive(PartialEq, Eq, Structural, Clone, Copy, Debug)]
pub enum BatchRoute {
    /// Nothing to write: done without opening a session.
    Skip,
    /// One file: written on its own.
    Single,
    /// Several files: staged together in one round.
    Batch,
}

/// How `n` files for one directory are written.
pub fn batch_route(n: usize) -> (r: BatchRoute)
    ensures
        r == (if n == 0 {
            BatchRoute::Skip
        } else if n == 1 {
            BatchRoute::Single
        } else {
            BatchRoute::Batch
        }),
{
    if n == 0 {
        BatchRoute::Skip
    } else if n == 1 {
        BatchRoute::Single
    } else {
        BatchRoute::Batch
    }
}

/// The heading of a failure to restore the sync state after a staged write.
pub open spec fn restore_failed_heading() -> Seq<char> {
    "清理期间无法恢复 Books 状态"@
}

/// The outcome of a staged write after the clean-up (which always runs): a
/// failed write is reported first; otherwise a failure to restore the sync
/// state, whose summary is the heading alone and whose detail is the heading
/// followed by the cause's detail; otherwise success.
pub open spec fn staged_outcome_spec(
    write: Option<(Seq<char>, Seq<char>)>,
    restore: Option<(Seq<char>, Seq<char>)>,
) -> Option<(Seq<char>, Seq<char>)> {
    match write {
        Some(e) => Some(e),
        None => match restore {
            Some((_, detail)) => Some(
                (restore_failed_heading(), restore_failed_heading() + ": "@ + detail),
            ),
            None => None,
        },
    }
}

/// The outcome of a staged write, from the write's own result and that of
/// restoring the sync state.
pub fn staged_write_outcome(write: WriteResult, restore: WriteResult) -> (r: WriteResult)
    ensures
        result_view(r) == staged_outcome_spec(result_view(write), result_view(restore)),
{
    match write {
        WriteResult::Failed { summary, detail } => WriteResult::Failed { summary, detail },
        WriteResult::Written => match restore {
            WriteResult::Failed { summary: _, detail } => {
                let mut v: Vec<char> = Vec::new();
                push_str(&mut v, "清理期间无法恢复 Books 状态: ");
                push_str(&mut v, detail.as_str());
                proof {
                    reveal_strlit("清理期间无法恢复 Books 状态: ");
                    reveal_strlit("清理期间无法恢复 Books 状态");
                    reveal_strlit(": ");
                }
                assert(v@ =~= restore_failed_heading() + ": "@ + detail@);
                WriteResult::Failed {
                    summary: "清理期间无法恢复 Books 状态".to_owned(),
                    detail: string_of(v.as_slice()),
                }
            },
            WriteResult::Written => WriteResult::Written,
        },
    }
}

/// A clean-up action after a staged write.
pub enum CleanupStep {
    /// Remove one path.
    RemovePath(String),
    /// Remove a directory tree.
    RemoveTree(String),
}

/// A clean-up action as a sequence.
pub enum CleanupView {
    RemovePath(Seq<char>),
    RemoveTree(Seq<char>),
}

/// The clean-up actions as sequences.
pub open spec fn cleanup_view(v: Seq<CleanupStep>) -> Seq<CleanupView> {
    v.map_values(
        |c: CleanupStep|
            match c {
                CleanupStep::RemovePath(p) => CleanupView::RemovePath(p@),
                CleanupStep::RemoveTree(p) => CleanupView::RemoveTree(p@),
            },
    )
}

/// The clean-up that follows every staged write, whether or not it worked:
/// the link destination and the recovered copy are removed, then the staging
/// tree; restoring the sync state comes after these.
pub fn cleanup_steps(plan: &StagingPlan) -> (v: Vec<CleanupStep>)
    ensures
        cleanup_view(v@) == seq![
            CleanupView::RemovePath(plan.link_dest@),
            CleanupView::RemovePath(plan.recovered@),
            CleanupView::RemoveTree(plan.source@),
        ],
{
    let mut v: Vec<CleanupStep> = Vec::new();
    v.push(CleanupStep::RemovePath(plan.link_dest.clone()));
    v.push(CleanupStep::RemovePath(plan.recovered.clone()));
    v.push(CleanupStep::RemoveTree(plan.source.clone()));
    assert(cleanup_view(v@) =~= seq![
        CleanupView::RemovePath(plan.link_dest@),
        CleanupView::RemovePath(plan.recovered@),
        CleanupView::RemoveTree(plan.source@),
    ]);
    v
}

} // verus!
