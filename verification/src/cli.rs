//! What the plain-text mode prints.
//!
//! [`ScanConsole`] and [`ReclaimConsole`] take in the messages of a scan and of a reclamation and
//! give the text that is to be printed for each; [`summary`] is what is printed between the two.

use crate::text;
use crate::types;
use crate::types::{
    FileGroup, FileGroupView, ReclaimMessage, ReclaimMessageView, ScanMessage, ScanMessageView,
    ScanPhase,
};
use vstd::prelude::*;

verus! {

/// Moves to the first column and erases to the end of the line.
pub const CLR: &'static str = "\r\x1b[K";

/// The number of groups that a summary lists.
pub const LISTED: usize = 10;

/// A line that starts at the first column, wherever the cursor was, and leaves the cursor at the
/// first column of the next row, whatever the settings of the terminal are.
pub open spec fn line_text(line: Seq<char>) -> Seq<char> {
    "\r"@ + line + "\r\n"@
}

/// A line that starts at the first column and leaves the cursor at the first column of the next
/// row.
pub fn out(line: &str) -> (shown: String)
    ensures
        shown@ == line_text(line@),
{
    let mut shown = "\r".to_string();
    shown.append(line);
    shown.append("\r\n");
    shown
}

/// The share of `done` in `total` in whole percent, at most a hundred.
pub open spec fn whole_percent(done: nat, total: nat) -> nat {
    if done * 100 / total > 100 {
        100
    } else {
        done * 100 / total
    }
}

fn whole_percent_of(done: u64, total: u64) -> (pct: u64)
    requires
        total > 0,
        done * 100 <= u64::MAX,
    ensures
        pct as nat == whole_percent(done as nat, total as nat),
        pct <= 100,
{
    let pct: u64 = done * 100 / total;
    if pct > 100 {
        100
    } else {
        pct
    }
}

// ---------------------------------------------------------------------------
// Scanning
// ---------------------------------------------------------------------------

/// The line about the files found.
pub open spec fn found_text(found: u64) -> Seq<char> {
    CLR@ + "Scanning:  "@ + text::grouped_text(found as int) + " files found.\r\n"@
}

/// The line about a hashing pass that is done.
pub open spec fn pass_done_text(pass: Seq<char>) -> Seq<char> {
    CLR@ + pass + text::bar_text(100) + " done.\r\n"@
}

/// The start of the line about the quick digests.
pub open spec fn quick_pass() -> Seq<char> {
    "Hashing:   quick pass  "@
}

/// The start of the line about the full digests.
pub open spec fn full_pass() -> Seq<char> {
    "Hashing:   full pass   "@
}

/// What is printed when a phase begins.
pub open spec fn phase_text(phase: ScanPhase, found: u64) -> Seq<char> {
    match phase {
        ScanPhase::Walking => Seq::empty(),
        ScanPhase::Grouping => found_text(found),
        ScanPhase::PrefixHashing => quick_pass() + text::bar_text(0),
        ScanPhase::FullHashing => pass_done_text(quick_pass()) + full_pass() + text::bar_text(0),
    }
}

/// What is printed when a phase makes progress.
pub open spec fn progress_text(phase: ScanPhase, done: u64, total: u64) -> Seq<char> {
    match phase {
        ScanPhase::Walking => CLR@ + "Scanning:  "@ + text::grouped_text(done as int)
            + " files…"@,
        ScanPhase::Grouping => Seq::empty(),
        ScanPhase::PrefixHashing => if total > 0 {
            CLR@ + quick_pass() + text::bar_text(whole_percent(done as nat, total as nat))
        } else {
            Seq::empty()
        },
        ScanPhase::FullHashing => if total > 0 {
            CLR@ + full_pass() + text::bar_text(whole_percent(done as nat, total as nat))
        } else {
            Seq::empty()
        },
    }
}

/// What is printed when a scan ends in a phase.
pub open spec fn end_text(phase: ScanPhase, found: u64) -> Seq<char> {
    (match phase {
        ScanPhase::Walking | ScanPhase::Grouping => found_text(found),
        ScanPhase::PrefixHashing => pass_done_text(quick_pass()),
        ScanPhase::FullHashing => pass_done_text(full_pass()),
    }) + "\r\n"@
}

/// What is printed for a message in a phase.
pub open spec fn scan_text(phase: ScanPhase, found: u64, message: ScanMessageView) -> Seq<char> {
    match message {
        ScanMessageView::Phase(next) => phase_text(next, found),
        ScanMessageView::Progress { done, total } => progress_text(phase, done, total),
        ScanMessageView::Done(_) => end_text(phase, found),
        ScanMessageView::Error(_) => CLR@ + "\r\n"@,
    }
}

/// Whether a scan goes on after a message.
#[derive(Debug)]
pub enum ScanEnd {
    Running,
    Done(Vec<FileGroup>),
    Failed(String),
}

/// What follows from a message of a scan.
#[derive(Debug)]
pub struct ScanPrint {
    pub text: String,
    pub end: ScanEnd,
}

/// The end of a scan is that which the message tells.
pub open spec fn ends_as(end: ScanEnd, message: ScanMessageView) -> bool {
    match message {
        ScanMessageView::Done(groups) => end is Done && types::group_views(end->Done_0@) == groups,
        ScanMessageView::Error(error) => end is Failed && end->Failed_0@ == error,
        _ => end is Running,
    }
}

fn found_line(found: u64) -> (shown: String)
    ensures
        shown@ == found_text(found),
{
    let mut shown = CLR.to_string();
    shown.append("Scanning:  ");
    shown.append(text::fmt_n(found).as_str());
    shown.append(" files found.\r\n");
    shown
}

fn pass_done_line(pass: &str) -> (shown: String)
    ensures
        shown@ == pass_done_text(pass@),
{
    let mut shown = CLR.to_string();
    shown.append(pass);
    shown.append(text::progress_bar(100).as_str());
    shown.append(" done.\r\n");
    shown
}

fn pass_line(pass: &str, done: u64, total: u64) -> (shown: String)
    requires
        total > 0,
        done * 100 <= u64::MAX,
    ensures
        shown@ == CLR@ + pass@ + text::bar_text(whole_percent(done as nat, total as nat)),
{
    let mut shown = CLR.to_string();
    shown.append(pass);
    shown.append(text::progress_bar(whole_percent_of(done, total)).as_str());
    shown
}

/// What is known of a scan for printing.
#[derive(Debug)]
pub struct ScanConsole {
    pub phase: ScanPhase,
    pub files_found: u64,
}

impl ScanConsole {
    /// Before the first message.
    pub fn new() -> (console: ScanConsole)
        ensures
            console.phase == ScanPhase::Walking,
            console.files_found == 0,
    {
        ScanConsole { phase: ScanPhase::Walking, files_found: 0 }
    }

    fn phase_begins(&self, phase: ScanPhase) -> (shown: String)
        ensures
            shown@ == phase_text(phase, self.files_found),
    {
        match phase {
            ScanPhase::Walking => String::new(),
            ScanPhase::Grouping => found_line(self.files_found),
            ScanPhase::PrefixHashing => {
                let mut shown = "Hashing:   quick pass  ".to_string();
                shown.append(text::progress_bar(0).as_str());
                shown
            },
            ScanPhase::FullHashing => {
                let mut shown = pass_done_line("Hashing:   quick pass  ");
                shown.append("Hashing:   full pass   ");
                shown.append(text::progress_bar(0).as_str());
                shown
            },
        }
    }

    fn progress(&self, done: u64, total: u64) -> (shown: String)
        requires
            total > 0 && (self.phase is PrefixHashing || self.phase is FullHashing) ==> done * 100
                <= u64::MAX,
        ensures
            shown@ == progress_text(self.phase, done, total),
    {
        match self.phase {
            ScanPhase::Walking => {
                let mut shown = CLR.to_string();
                shown.append("Scanning:  ");
                shown.append(text::fmt_n(done).as_str());
                shown.append(" files…");
                shown
            },
            ScanPhase::Grouping => String::new(),
            ScanPhase::PrefixHashing => if total > 0 {
                pass_line("Hashing:   quick pass  ", done, total)
            } else {
                String::new()
            },
            ScanPhase::FullHashing => if total > 0 {
                pass_line("Hashing:   full pass   ", done, total)
            } else {
                String::new()
            },
        }
    }

    fn scan_ends(&self) -> (shown: String)
        ensures
            shown@ == end_text(self.phase, self.files_found),
    {
        let mut shown = match self.phase {
            ScanPhase::Walking | ScanPhase::Grouping => found_line(self.files_found),
            ScanPhase::PrefixHashing => pass_done_line("Hashing:   quick pass  "),
            ScanPhase::FullHashing => pass_done_line("Hashing:   full pass   "),
        };
        shown.append("\r\n");
        shown
    }

    /// Takes in a message.
    pub fn on_message(&mut self, message: ScanMessage) -> (print: ScanPrint)
        requires
            message@ is Progress && message@->total > 0 && (old(self).phase is PrefixHashing || old(
                self,
            ).phase is FullHashing) ==> message@->done * 100 <= u64::MAX,
        ensures
            print.text@ == scan_text(old(self).phase, old(self).files_found, message@),
            ends_as(print.end, message@),
            final(self).phase == (match message@ {
                ScanMessageView::Phase(next) => next,
                _ => old(self).phase,
            }),
            final(self).files_found == (if message@ is Progress && old(self).phase is Walking {
                message@->done
            } else {
                old(self).files_found
            }),
    {
        match message {
            ScanMessage::Phase(next) => {
                let shown = self.phase_begins(next);
                self.phase = next;
                ScanPrint { text: shown, end: ScanEnd::Running }
            },
            ScanMessage::Progress { done, total } => {
                let shown = self.progress(done, total);
                match self.phase {
                    ScanPhase::Walking => {
                        self.files_found = done;
                    },
                    _ => {},
                }
                ScanPrint { text: shown, end: ScanEnd::Running }
            },
            ScanMessage::Done(groups) => ScanPrint {
                text: self.scan_ends(),
                end: ScanEnd::Done(groups),
            },
            ScanMessage::Error(error) => {
                let mut shown = CLR.to_string();
                shown.append("\r\n");
                ScanPrint { text: shown, end: ScanEnd::Failed(error) }
            },
        }
    }
}

// ---------------------------------------------------------------------------
// The summary
// ---------------------------------------------------------------------------

/// The name that a group is listed by: the file name of its source.
pub open spec fn group_name(group: FileGroupView) -> Seq<char> {
    match crate::path::file_name(group.files[0].path) {
        Some(name) => text::lossy_text(name),
        None => Seq::empty(),
    }
}

/// The name that a group is listed by: the file name of its source.
pub fn name_of_group(group: &FileGroup) -> (name: String)
    requires
        group.files@.len() > 0,
    ensures
        name@ == group_name(group@),
        crate::path::file_name(group@.files[0].path) matches Some(bytes) ==> text::reads_exactly(
            bytes,
        ),
{
    assert(group@.files[0] == group.files@[0]@);
    match group.files[0].path.file_name() {
        Some(name) => text::from_utf8_lossy(name.as_slice()),
        None => String::new(),
    }
}

/// The entry of a group in the list: its number, its name, the number of its files and the text
/// for what it saves.
pub open spec fn row_text(number: nat, name: Seq<char>, copies: nat, saves: Seq<char>) -> Seq<
    char,
> {
    let shown = text::decimal_text(number as int);
    "  "@ + (text::blanks_to(shown.len(), 3) + shown) + ". "@ + name + " ("@ + text::decimal_text(
        copies as int,
    ) + " copies, saves "@ + saves + ")"@
}

/// The entry of a group in the list.
pub fn row(number: usize, name: &str, copies: usize, saves: &str) -> (shown: String)
    ensures
        shown@ == row_text(number as nat, name@, copies as nat, saves@),
{
    let mut shown = "  ".to_string();
    let digits = text::decimal(number as u64);
    shown.append(text::padded_left(digits.as_str(), 3).as_str());
    shown.append(". ");
    shown.append(name);
    shown.append(" (");
    shown.append(text::decimal(copies as u64).as_str());
    shown.append(" copies, saves ");
    shown.append(saves);
    shown.append(")");
    shown
}

/// The first `n` entries of the list. `names` and `saves` hold the names of the groups and the
/// texts for what they save.
pub open spec fn rows_text(
    groups: Seq<FileGroupView>,
    names: Seq<Seq<char>>,
    saves: Seq<Seq<char>>,
    n: nat,
) -> Seq<char>
    decreases n,
{
    if n == 0 {
        Seq::empty()
    } else {
        let i = n - 1;
        rows_text(groups, names, saves, i as nat) + line_text(
            row_text(n, names[i], groups[i].files.len(), saves[i]),
        )
    }
}

/// The number of groups that are listed.
pub open spec fn listed(groups: Seq<FileGroupView>) -> nat {
    if groups.len() > LISTED {
        LISTED as nat
    } else {
        groups.len()
    }
}

/// The line about the groups that are not listed.
pub open spec fn more_text(count: nat) -> Seq<char> {
    if count > LISTED {
        line_text("       … and "@ + text::decimal_text(count - LISTED) + " more groups"@)
    } else {
        Seq::empty()
    }
}

/// The summary of a scan. `total` is the text for what the groups save together.
pub open spec fn summary_text(
    groups: Seq<FileGroupView>,
    total: Seq<char>,
    names: Seq<Seq<char>>,
    saves: Seq<Seq<char>>,
) -> Seq<char> {
    if groups.len() == 0 {
        line_text("No duplicate files found."@)
    } else {
        line_text(
            "Found "@ + text::decimal_text(groups.len() as int)
                + " duplicate group(s) — potential savings: "@ + total,
        ) + line_text(""@) + rows_text(groups, names, saves, listed(groups)) + more_text(
            groups.len(),
        ) + line_text(""@)
    }
}

/// The summary of a scan, from the texts for the names of the groups and for what they save.
pub fn summary_of(
    groups: &Vec<FileGroup>,
    total: &str,
    names: &Vec<String>,
    saves: &Vec<String>,
) -> (shown: String)
    requires
        names@.len() >= listed(types::group_views(groups@)),
        saves@.len() >= listed(types::group_views(groups@)),
    ensures
        shown@ == summary_text(
            types::group_views(groups@),
            total@,
            text::string_views(names@),
            text::string_views(saves@),
        ),
{
    let ghost views = types::group_views(groups@);
    let ghost nv = text::string_views(names@);
    let ghost sv = text::string_views(saves@);
    if groups.len() == 0 {
        return out("No duplicate files found.");
    }
    let mut line = "Found ".to_string();
    line.append(text::decimal(groups.len() as u64).as_str());
    line.append(" duplicate group(s) — potential savings: ");
    line.append(total);
    let mut shown = out(line.as_str());
    shown.append(out("").as_str());
    let ghost head = shown@;
    let n: usize = if groups.len() > LISTED {
        LISTED
    } else {
        groups.len()
    };
    let mut i: usize = 0;
    assert(head + rows_text(views, nv, sv, 0) =~= head);
    while i < n
        invariant
            i <= n <= groups@.len(),
            n <= names@.len(),
            n <= saves@.len(),
            views == types::group_views(groups@),
            nv == text::string_views(names@),
            sv == text::string_views(saves@),
            shown@ == head + rows_text(views, nv, sv, i as nat),
        decreases n - i,
    {
        proof {
            assert(views[i as int] == groups@[i as int]@);
            assert(views[i as int].files.len() == groups@[i as int].files@.len());
            assert(nv[i as int] == names@[i as int]@);
            assert(sv[i as int] == saves@[i as int]@);
        }
        let entry = row(i + 1, names[i].as_str(), groups[i].files.len(), saves[i].as_str());
        shown.append(out(entry.as_str()).as_str());
        i += 1;
        assert(shown@ =~= head + rows_text(views, nv, sv, i as nat));
    }
    if groups.len() > LISTED {
        let mut more = "       … and ".to_string();
        more.append(text::decimal((groups.len() - LISTED) as u64).as_str());
        more.append(" more groups");
        shown.append(out(more.as_str()).as_str());
    } else {
        assert(shown@ + Seq::<char>::empty() =~= shown@);
    }
    shown.append(out("").as_str());
    shown
}

/// Each text tells what its group saves.
pub open spec fn tell_savings(saves: Seq<Seq<char>>, groups: Seq<FileGroupView>) -> bool {
    forall|i: int|
        0 <= i < saves.len() ==> text::tells_bytes(
            #[trigger] saves[i],
            types::savings_of(groups[i]),
        )
}

/// The names of the first groups.
pub open spec fn group_names(groups: Seq<FileGroupView>, n: nat) -> Seq<Seq<char>> {
    Seq::new(n, |i: int| group_name(groups[i]))
}

/// The text is a summary of a scan in which the sizes are told.
pub open spec fn is_summary(shown: Seq<char>, groups: Seq<FileGroupView>) -> bool {
    exists|total: Seq<char>, saves: Seq<Seq<char>>|
        {
            &&& text::tells_bytes(total, types::savings_sum(groups) as u64)
            &&& saves.len() == listed(groups)
            &&& tell_savings(saves, groups)
            &&& shown == #[trigger] summary_text(
                groups,
                total,
                group_names(groups, listed(groups)),
                saves,
            )
        }
}

/// The summary of a scan: how many groups there are, what they save together, and the first of
/// them.
pub fn summary(groups: &Vec<FileGroup>) -> (shown: String)
    requires
        forall|i: int| 0 <= i < listed(types::group_views(groups@)) ==> (
        #[trigger] groups@[i]).files@.len() > 0,
        types::savings_sum(types::group_views(groups@)) <= u64::MAX,
    ensures
        is_summary(shown@, types::group_views(groups@)),
{
    let ghost views = types::group_views(groups@);
    let total = text::byte_size(types::total_savings(groups));
    let n: usize = if groups.len() > LISTED {
        LISTED
    } else {
        groups.len()
    };
    let mut names: Vec<String> = Vec::new();
    let mut saves: Vec<String> = Vec::new();
    let mut i: usize = 0;
    while i < n
        invariant
            i <= n <= groups@.len(),
            n == listed(views),
            views == types::group_views(groups@),
            forall|j: int| 0 <= j < n ==> (#[trigger] groups@[j]).files@.len() > 0,
            names@.len() == i,
            saves@.len() == i,
            forall|j: int| 0 <= j < i ==> (#[trigger] names@[j])@ == group_name(views[j]),
            forall|j: int|
                0 <= j < i ==> text::tells_bytes(
                    (#[trigger] saves@[j])@,
                    types::savings_of(views[j]),
                ),
        decreases n - i,
    {
        assert(groups@[i as int].files@.len() > 0);
        assert(views[i as int] == groups@[i as int]@);
        names.push(name_of_group(&groups[i]));
        saves.push(text::byte_size(groups[i].savings()));
        i += 1;
    }
    proof {
        let sv = text::string_views(saves@);
        assert(text::string_views(names@) =~= group_names(views, n as nat));
        assert forall|j: int| 0 <= j < sv.len() implies text::tells_bytes(
            #[trigger] sv[j],
            types::savings_of(views[j]),
        ) by {
            assert(sv[j] == saves@[j]@);
        }
    }
    summary_of(groups, total.as_str(), &names, &saves)
}

/// What is asked before files are changed.
pub const CONFIRM_PROMPT: &'static str = "Proceed with reclamation? [y/N] ";

/// What is printed at the end of a dry run.
pub fn dry_run_notice() -> (shown: String)
    ensures
        shown@ == line_text("[DRY RUN] No files were modified."@),
{
    out("[DRY RUN] No files were modified.")
}

/// What is printed when the answer does not confirm.
pub fn aborted_notice() -> (shown: String)
    ensures
        shown@ == line_text("Aborted."@),
{
    out("Aborted.")
}

/// What follows on a summary.
#[derive(Debug, Clone, Copy, PartialEq, Eq, Structural)]
pub enum AfterSummary {
    /// There is nothing to reclaim.
    Stop,
    /// Print the notice of a dry run.
    NoteDryRun,
    /// Ask whether to go on.
    Confirm,
}

/// What follows on the summary of the groups.
pub fn after_summary(groups: &Vec<FileGroup>, dry_run: bool) -> (next: AfterSummary)
    ensures
        next == (if groups@.len() == 0 {
            AfterSummary::Stop
        } else if dry_run {
            AfterSummary::NoteDryRun
        } else {
            AfterSummary::Confirm
        }),
{
    if groups.len() == 0 {
        AfterSummary::Stop
    } else if dry_run {
        AfterSummary::NoteDryRun
    } else {
        AfterSummary::Confirm
    }
}

// ---------------------------------------------------------------------------
// Reclaiming
// ---------------------------------------------------------------------------

/// The lines about errors.
pub open spec fn error_lines(errors: Seq<Seq<char>>, n: nat) -> Seq<char>
    decreases n,
{
    if n == 0 {
        Seq::empty()
    } else {
        error_lines(errors, (n - 1) as nat) + line_text("   • "@ + errors[n - 1])
    }
}

/// What is printed about the errors at the end.
pub open spec fn errors_text(errors: Seq<Seq<char>>) -> Seq<char> {
    if errors.len() == 0 {
        Seq::empty()
    } else {
        line_text(""@) + line_text(text::decimal_text(errors.len() as int) + " error(s):"@)
            + error_lines(errors, errors.len())
    }
}

/// What is printed for a message of a reclamation. `errors` are those that came before, `size`
/// is the text for the bytes that the message tells.
pub open spec fn reclaim_text(
    errors: Seq<Seq<char>>,
    message: ReclaimMessageView,
    size: Seq<char>,
) -> Seq<char> {
    match message {
        ReclaimMessageView::Progress { done, total, reclaimed } => if total > 0 {
            CLR@ + "Reclaiming: "@ + text::bar_text(whole_percent(done as nat, total as nat))
                + " "@ + size + " — "@ + text::grouped_text(done as int) + "/"@
                + text::grouped_text(total as int)
        } else {
            Seq::empty()
        },
        ReclaimMessageView::Done { .. } => CLR@ + "Reclaiming: "@ + text::bar_text(100)
            + " done.\r\n"@ + line_text("✓  Reclaimed "@ + size + "."@) + errors_text(errors),
        ReclaimMessageView::Error(error) => CLR@ + "  ! "@ + error + "\r\n"@,
    }
}

/// The bytes that a message tells.
pub open spec fn told_bytes(message: ReclaimMessageView) -> u64 {
    match message {
        ReclaimMessageView::Progress { reclaimed, .. } => reclaimed,
        ReclaimMessageView::Done { total_reclaimed } => total_reclaimed,
        ReclaimMessageView::Error(_) => 0,
    }
}

/// What follows from a message of a reclamation.
#[derive(Debug)]
pub struct ReclaimPrint {
    pub text: String,
    /// Whether the reclamation has ended.
    pub ended: bool,
}

/// What is known of a reclamation for printing.
#[derive(Debug)]
pub struct ReclaimConsole {
    pub errors: Vec<String>,
}

/// The errors after a message.
pub open spec fn errors_after(errors: Seq<Seq<char>>, message: ReclaimMessageView) -> Seq<
    Seq<char>,
> {
    match message {
        ReclaimMessageView::Error(error) => errors.push(error),
        _ => errors,
    }
}

impl ReclaimConsole {
    /// Before the first message.
    pub fn new() -> (console: ReclaimConsole)
        ensures
            text::string_views(console.errors@) == Seq::<Seq<char>>::empty(),
    {
        let errors: Vec<String> = Vec::new();
        assert(text::string_views(errors@) =~= Seq::<Seq<char>>::empty());
        ReclaimConsole { errors }
    }

    fn errors_shown(&self) -> (shown: String)
        ensures
            shown@ == errors_text(text::string_views(self.errors@)),
    {
        let ghost views = text::string_views(self.errors@);
        if self.errors.len() == 0 {
            return String::new();
        }
        let mut shown = out("");
        let mut count = text::decimal(self.errors.len() as u64);
        count.append(" error(s):");
        shown.append(out(count.as_str()).as_str());
        let ghost head = shown@;
        let mut i: usize = 0;
        assert(head + error_lines(views, 0) =~= head);
        while i < self.errors.len()
            invariant
                i <= self.errors@.len(),
                views == text::string_views(self.errors@),
                shown@ == head + error_lines(views, i as nat),
            decreases self.errors.len() - i,
        {
            assert(views[i as int] == self.errors@[i as int]@);
            let mut line = "   • ".to_string();
            line.append(self.errors[i].as_str());
            shown.append(out(line.as_str()).as_str());
            i += 1;
            assert(shown@ =~= head + error_lines(views, i as nat));
        }
        shown
    }

    /// Takes in a message, with the text for the bytes that it tells.
    pub fn on_message_sized(&mut self, message: ReclaimMessage, size: &str) -> (print:
        ReclaimPrint)
        requires
            message@ is Progress && message@->total > 0 ==> message@->done * 100 <= u64::MAX,
        ensures
            print.text@ == reclaim_text(text::string_views(old(self).errors@), message@, size@),
            print.ended == (message@ is Done),
            text::string_views(final(self).errors@) == errors_after(
                text::string_views(old(self).errors@),
                message@,
            ),
    {
        match message {
            ReclaimMessage::Progress { done, total, reclaimed } => {
                if total == 0 {
                    return ReclaimPrint { text: String::new(), ended: false };
                }
                let mut shown = CLR.to_string();
                shown.append("Reclaiming: ");
                shown.append(text::progress_bar(whole_percent_of(done, total)).as_str());
                shown.append(" ");
                shown.append(size);
                shown.append(" — ");
                shown.append(text::fmt_n(done).as_str());
                shown.append("/");
                shown.append(text::fmt_n(total).as_str());
                ReclaimPrint { text: shown, ended: false }
            },
            ReclaimMessage::Done { total_reclaimed } => {
                let mut shown = CLR.to_string();
                shown.append("Reclaiming: ");
                shown.append(text::progress_bar(100).as_str());
                shown.append(" done.\r\n");
                let mut line = "✓  Reclaimed ".to_string();
                line.append(size);
                line.append(".");
                shown.append(out(line.as_str()).as_str());
                shown.append(self.errors_shown().as_str());
                ReclaimPrint { text: shown, ended: true }
            },
            ReclaimMessage::Error(error) => {
                let mut shown = CLR.to_string();
                shown.append("  ! ");
                shown.append(error.as_str());
                shown.append("\r\n");
                let ghost before = self.errors@;
                self.errors.push(error);
                assert(text::string_views(self.errors@) =~= text::string_views(before).push(
                    error@,
                ));
                ReclaimPrint { text: shown, ended: false }
            },
        }
    }

    /// Takes in a message.
    pub fn on_message(&mut self, message: ReclaimMessage) -> (print: ReclaimPrint)
        requires
            message@ is Progress && message@->total > 0 ==> message@->done * 100 <= u64::MAX,
        ensures
            exists|size: Seq<char>|
                text::tells_bytes(size, told_bytes(message@)) && print.text@ == #[trigger]
                    reclaim_text(text::string_views(old(self).errors@), message@, size),
            print.ended == (message@ is Done),
            text::string_views(final(self).errors@) == errors_after(
                text::string_views(old(self).errors@),
                message@,
            ),
    {
        let bytes: u64 = match &message {
            ReclaimMessage::Progress { reclaimed, .. } => *reclaimed,
            ReclaimMessage::Done { total_reclaimed } => *total_reclaimed,
            ReclaimMessage::Error(_) => 0,
        };
        let size = text::byte_size(bytes);
        self.on_message_sized(message, size.as_str())
    }
}

} // verus!
