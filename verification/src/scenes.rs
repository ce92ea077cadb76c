//! The texts on the screens of the interactive mode.
//!
//! Where a text tells a size, there are two functions: one takes the text for the size, the other
//! makes it from the number of bytes.

use crate::cli;
use crate::rounding;
use crate::text;
use crate::tui;
use crate::tui::{DoneState, ReclaimingState, ReviewState, ScanningState};
use crate::types;
use crate::types::{FileGroup, FileGroupView, FileInfo, FileInfoView};
use vstd::prelude::*;

verus! {

/// The keys of the review screen.
pub const REVIEW_HINT: &'static str = "↑↓/j/k: navigate  Space: toggle  A: all  R/Enter: reclaim  Q: quit";

/// The width of the names in the list of groups.
pub const NAME_WIDTH: usize = 40;

/// How a piece of text is shown.
#[derive(Debug, Clone, Copy, PartialEq, Eq, Structural)]
pub enum Tone {
    Plain,
    Gray,
    DarkGray,
    White,
    Green,
    GreenBold,
    Yellow,
    YellowBold,
    RedBold,
}

/// A piece of text in one tone.
#[derive(Debug)]
pub struct Span {
    pub tone: Tone,
    pub text: String,
}

/// The mathematical value of a [`Span`].
pub struct SpanView {
    pub tone: Tone,
    pub text: Seq<char>,
}

impl View for Span {
    type V = SpanView;

    open spec fn view(&self) -> SpanView {
        SpanView { tone: self.tone, text: self.text@ }
    }
}

/// The values of the pieces of a line.
pub open spec fn span_views(spans: Seq<Span>) -> Seq<SpanView> {
    spans.map_values(|s: Span| s@)
}

/// The values of the pieces of several lines.
pub open spec fn line_views(lines: Seq<Vec<Span>>) -> Seq<Seq<SpanView>> {
    lines.map_values(|l: Vec<Span>| span_views(l@))
}

/// A line in one tone.
pub open spec fn one_tone(tone: Tone, shown: Seq<char>) -> Seq<SpanView> {
    seq![SpanView { tone, text: shown }]
}

/// Adds a line in one tone.
fn push_line(lines: &mut Vec<Vec<Span>>, tone: Tone, shown: String)
    ensures
        line_views(final(lines)@) == line_views(old(lines)@).push(one_tone(tone, shown@)),
{
    let mut line: Vec<Span> = Vec::new();
    line.push(Span { tone, text: shown });
    assert(span_views(line@) =~= one_tone(tone, shown@));
    let ghost before = lines@;
    lines.push(line);
    assert(line_views(lines@) =~= line_views(before).push(one_tone(tone, shown@)));
}

/// What a title says of a dry run.
pub open spec fn dry_run_text(dry_run: bool) -> Seq<char> {
    if dry_run {
        " [DRY RUN]"@
    } else {
        ""@
    }
}

fn dry_run_label(dry_run: bool) -> (shown: &'static str)
    ensures
        shown@ == dry_run_text(dry_run),
{
    if dry_run {
        " [DRY RUN]"
    } else {
        ""
    }
}

// ---------------------------------------------------------------------------
// Scanning
// ---------------------------------------------------------------------------

/// The texts with a separator between each two.
pub open spec fn joined_text(texts: Seq<Seq<char>>, separator: Seq<char>) -> Seq<char>
    decreases texts.len(),
{
    if texts.len() == 0 {
        Seq::empty()
    } else if texts.len() == 1 {
        texts[0]
    } else {
        joined_text(texts.drop_last(), separator) + separator + texts.last()
    }
}

/// The paths as text.
pub open spec fn shown_paths(paths: Seq<Seq<u8>>) -> Seq<Seq<char>> {
    paths.map_values(|p: Seq<u8>| text::lossy_text(p))
}

/// The line about the paths, from the paths as text.
pub fn path_line_of(paths: &Vec<String>) -> (shown: String)
    ensures
        shown@ == "Path: "@ + joined_text(text::string_views(paths@), ", "@),
{
    let ghost views = text::string_views(paths@);
    let mut shown = "Path: ".to_string();
    let ghost head = shown@;
    let mut i: usize = 0;
    assert(views.take(0) =~= Seq::empty());
    assert(head + joined_text(views.take(0), ", "@) =~= head);
    while i < paths.len()
        invariant
            i <= paths@.len(),
            views == text::string_views(paths@),
            shown@ == head + joined_text(views.take(i as int), ", "@),
        decreases paths.len() - i,
    {
        proof {
            assert(views[i as int] == paths@[i as int]@);
            assert(views.take(i + 1).drop_last() =~= views.take(i as int));
            assert(views.take(i + 1).last() == views[i as int]);
        }
        if i > 0 {
            shown.append(", ");
        }
        shown.append(paths[i].as_str());
        i += 1;
        assert(shown@ =~= head + joined_text(views.take(i as int), ", "@));
    }
    assert(views.take(i as int) =~= views);
    shown
}

/// The line about the paths that are scanned.
pub fn path_line(state: &ScanningState) -> (shown: String)
    ensures
        shown@ == "Path: "@ + joined_text(shown_paths(state@.paths), ", "@),
{
    let ghost goal = shown_paths(state@.paths);
    let mut paths: Vec<String> = Vec::new();
    let mut i: usize = 0;
    while i < state.paths.len()
        invariant
            i <= state.paths@.len(),
            goal == shown_paths(tui::path_views(state.paths@)),
            paths@.len() == i,
            forall|j: int| 0 <= j < i ==> (#[trigger] paths@[j])@ == goal[j],
        decreases state.paths.len() - i,
    {
        assert(tui::path_views(state.paths@)[i as int] == state.paths@[i as int]@);
        paths.push(state.paths[i].display());
        i += 1;
    }
    assert(text::string_views(paths@) =~= goal);
    path_line_of(&paths)
}

/// The signs that a spinner goes through.
pub open spec fn spinner_signs() -> Seq<char> {
    seq!['⠋', '⠙', '⠹', '⠸', '⠼', '⠴', '⠦', '⠧', '⠇', '⠏']
}

/// The sign of a spinner in a frame: the next one every second frame.
pub open spec fn spinner_sign(frame: u64) -> char {
    spinner_signs()[(frame as int / 2) % 10]
}

fn spinner(frame: u64) -> (sign: char)
    ensures
        sign == spinner_sign(frame),
{
    let signs: [char; 10] = ['⠋', '⠙', '⠹', '⠸', '⠼', '⠴', '⠦', '⠧', '⠇', '⠏'];
    let i: usize = ((frame / 2) % 10) as usize;
    assert(signs@ =~= spinner_signs());
    signs[i]
}

/// The line about the phase of a scan.
pub fn phase_line(state: &ScanningState, frame: u64) -> (shown: String)
    ensures
        shown@ == seq![spinner_sign(frame)] + "  "@ + types::phase_label(state@.phase),
{
    let mut shown = String::new();
    shown.push(spinner(frame));
    assert(shown@ =~= seq![spinner_sign(frame)]);
    shown.append("  ");
    shown.append(state.phase.label());
    shown
}

/// How far the phase of a scan is, in percent.
pub fn scan_percent(state: &ScanningState) -> (percent: u16)
    ensures
        percent as nat == rounding::percent_of(state@.phase_done, state@.phase_total),
{
    rounding::percent(state.phase_done, state.phase_total)
}

/// The text in the bar of a scan.
pub open spec fn scan_label_text(done: u64, total: u64) -> Seq<char> {
    if total > 0 {
        text::count_text(done) + " / "@ + text::count_text(total)
    } else {
        text::count_text(done)
    }
}

/// The text in the bar of a scan.
pub fn scan_label(state: &ScanningState) -> (shown: String)
    ensures
        shown@ == scan_label_text(state@.phase_done, state@.phase_total),
{
    let mut shown = text::fmt_count(state.phase_done);
    if state.phase_total > 0 {
        shown.append(" / ");
        shown.append(text::fmt_count(state.phase_total).as_str());
    }
    shown
}

/// The line about the files found.
pub fn found_line(state: &ScanningState) -> (shown: String)
    ensures
        shown@ == "Files found: "@ + text::count_text(state@.files_found),
{
    let mut shown = "Files found: ".to_string();
    shown.append(text::fmt_count(state.files_found).as_str());
    shown
}

// ---------------------------------------------------------------------------
// Review
// ---------------------------------------------------------------------------

/// The title of the review, with the text for what the selected groups save.
pub open spec fn review_title_text(count: nat, dry_run: bool, saves: Seq<char>) -> Seq<char> {
    " MacDeDup — Review Duplicates"@ + dry_run_text(dry_run) + "  ("@ + text::decimal_text(
        count as int,
    ) + " groups, save "@ + saves + ")"@
}

/// The title of the review, with the text for what the selected groups save.
pub fn review_title_of(state: &ReviewState, saves: &str) -> (shown: String)
    ensures
        shown@ == review_title_text(state@.groups.len(), state@.dry_run, saves@),
{
    let mut shown = " MacDeDup — Review Duplicates".to_string();
    shown.append(dry_run_label(state.dry_run));
    shown.append("  (");
    shown.append(text::decimal(state.groups.len() as u64).as_str());
    shown.append(" groups, save ");
    shown.append(saves);
    shown.append(")");
    shown
}

/// The title of the review.
pub fn review_title(state: &ReviewState) -> (shown: String)
    requires
        tui::selected_savings_sum(state@.groups) <= u64::MAX,
    ensures
        exists|saves: Seq<char>|
            text::tells_bytes(saves, tui::selected_savings_sum(state@.groups) as u64) && shown@
                == #[trigger] review_title_text(state@.groups.len(), state@.dry_run, saves),
{
    let saves = text::byte_size(state.selected_savings());
    review_title_of(state, saves.as_str())
}

/// The entry of a group in the list, with its name and the text for what it saves.
pub open spec fn review_row_text(
    selected: bool,
    name: Seq<char>,
    copies: nat,
    saves: Seq<char>,
) -> Seq<char> {
    let short = text::truncated_text(name, NAME_WIDTH as nat);
    "["@ + (if selected {
        "✓"@
    } else {
        " "@
    }) + "] "@ + (short + text::blanks_to(short.len(), NAME_WIDTH as nat)) + " ×"@
        + text::decimal_text(copies as int) + "  "@ + saves
}

/// The entry of a group in the list, with its name and the text for what it saves.
pub fn review_row_of(group: &FileGroup, name: &str, saves: &str) -> (shown: String)
    ensures
        shown@ == review_row_text(group@.selected, name@, group@.files.len(), saves@),
{
    let mut shown = "[".to_string();
    if group.selected {
        shown.append("✓");
    } else {
        shown.append(" ");
    }
    shown.append("] ");
    let short = text::truncate(name, NAME_WIDTH);
    shown.append(text::padded_right(short.as_str(), NAME_WIDTH).as_str());
    shown.append(" ×");
    shown.append(text::decimal(group.files.len() as u64).as_str());
    shown.append("  ");
    shown.append(saves);
    shown
}

/// The entry of a group in the list.
pub fn review_row(group: &FileGroup) -> (shown: String)
    requires
        group.files@.len() > 0,
    ensures
        exists|saves: Seq<char>|
            text::tells_bytes(saves, types::savings_of(group@)) && shown@ == #[trigger]
                review_row_text(
                    group@.selected,
                    cli::group_name(group@),
                    group@.files.len(),
                    saves,
                ),
{
    let name = cli::name_of_group(group);
    let saves = text::byte_size(group.savings());
    review_row_of(group, name.as_str(), saves.as_str())
}

/// The group whose details are shown: that under the cursor.
pub open spec fn detailed_group(groups: Seq<FileGroupView>, cursor: Option<usize>) -> Option<
    FileGroupView,
> {
    match cursor {
        Some(i) => if i < groups.len() {
            Some(groups[i as int])
        } else {
            None
        },
        None => None,
    }
}

/// The group whose details are shown.
pub fn group_in_detail(state: &ReviewState) -> (group: Option<&FileGroup>)
    ensures
        match group {
            Some(group) => detailed_group(state@.groups, state@.cursor) == Some(group@),
            None => detailed_group(state@.groups, state@.cursor) is None,
        },
{
    match state.selected_idx() {
        Some(i) => if i < state.groups.len() {
            assert(state@.groups[i as int] == state.groups@[i as int]@);
            Some(&state.groups[i])
        } else {
            None
        },
        None => None,
    }
}

/// The lines about the targets of a group, from the paths as text.
pub open spec fn target_lines(paths: Seq<Seq<char>>) -> Seq<Seq<SpanView>> {
    paths.map_values(|p: Seq<char>| one_tone(Tone::Gray, "  "@ + p))
}

/// The details of a group, from the paths of its files as text and the texts for its sizes.
pub open spec fn detail_text(
    paths: Seq<Seq<char>>,
    size: Seq<char>,
    saves: Seq<char>,
) -> Seq<Seq<SpanView>> {
    seq![
        seq![
            SpanView { tone: Tone::Gray, text: "Size: "@ },
            SpanView { tone: Tone::White, text: size },
            SpanView { tone: Tone::Plain, text: "   "@ },
            SpanView { tone: Tone::Gray, text: "Saves: "@ },
            SpanView { tone: Tone::Green, text: saves },
        ],
        one_tone(Tone::Plain, ""@),
        one_tone(Tone::YellowBold, "Source (kept):"@),
        one_tone(Tone::White, "  "@ + paths[0]),
        one_tone(Tone::Plain, ""@),
        one_tone(
            Tone::RedBold,
            "Targets ("@ + text::decimal_text(paths.len() - 1) + "):"@,
        ),
    ] + target_lines(paths.skip(1))
}

/// The paths of files as text.
pub open spec fn shown_files(files: Seq<FileInfoView>) -> Seq<Seq<char>> {
    files.map_values(|f: FileInfoView| text::lossy_text(f.path))
}

/// The details of a group, from the paths of its files as text and the texts for its sizes.
pub fn detail_lines_of(paths: &Vec<String>, size: String, saves: String) -> (lines: Vec<
    Vec<Span>,
>)
    requires
        paths@.len() > 0,
    ensures
        line_views(lines@) == detail_text(text::string_views(paths@), size@, saves@),
{
    let ghost views = text::string_views(paths@);
    let ghost goal = detail_text(views, size@, saves@);
    let mut first: Vec<Span> = Vec::new();
    first.push(Span { tone: Tone::Gray, text: "Size: ".to_string() });
    first.push(Span { tone: Tone::White, text: size });
    first.push(Span { tone: Tone::Plain, text: "   ".to_string() });
    first.push(Span { tone: Tone::Gray, text: "Saves: ".to_string() });
    first.push(Span { tone: Tone::Green, text: saves });
    assert(span_views(first@) =~= goal[0]);
    let mut lines: Vec<Vec<Span>> = Vec::new();
    lines.push(first);
    assert(line_views(lines@) =~= seq![goal[0]]);
    push_line(&mut lines, Tone::Plain, "".to_string());
    push_line(&mut lines, Tone::YellowBold, "Source (kept):".to_string());
    let mut source = "  ".to_string();
    source.append(paths[0].as_str());
    assert(views[0] == paths@[0]@);
    push_line(&mut lines, Tone::White, source);
    push_line(&mut lines, Tone::Plain, "".to_string());
    let mut heading = "Targets (".to_string();
    heading.append(text::decimal((paths.len() - 1) as u64).as_str());
    heading.append("):");
    push_line(&mut lines, Tone::RedBold, heading);
    let ghost head = line_views(lines@);
    assert(head =~= goal.take(6));
    let mut i: usize = 1;
    assert(line_views(lines@) =~= head + target_lines(views.subrange(1, 1)));
    while i < paths.len()
        invariant
            1 <= i <= paths@.len(),
            views == text::string_views(paths@),
            line_views(lines@) == head + target_lines(views.subrange(1, i as int)),
        decreases paths.len() - i,
    {
        assert(views[i as int] == paths@[i as int]@);
        let mut line = "  ".to_string();
        line.append(paths[i].as_str());
        push_line(&mut lines, Tone::Gray, line);
        i += 1;
        assert(target_lines(views.subrange(1, i as int)) =~= target_lines(
            views.subrange(1, i - 1),
        ).push(one_tone(Tone::Gray, "  "@ + views[i - 1])));
        assert(line_views(lines@) =~= head + target_lines(views.subrange(1, i as int)));
    }
    assert(views.subrange(1, i as int) =~= views.skip(1));
    assert(line_views(lines@) =~= goal);
    lines
}

fn display_files(files: &Vec<FileInfo>) -> (paths: Vec<String>)
    ensures
        text::string_views(paths@) == shown_files(types::file_views(files@)),
{
    let ghost goal = shown_files(types::file_views(files@));
    let mut paths: Vec<String> = Vec::new();
    let mut i: usize = 0;
    while i < files.len()
        invariant
            i <= files@.len(),
            goal == shown_files(types::file_views(files@)),
            paths@.len() == i,
            forall|j: int| 0 <= j < i ==> (#[trigger] paths@[j])@ == goal[j],
        decreases files.len() - i,
    {
        assert(types::file_views(files@)[i as int] == files@[i as int]@);
        paths.push(files[i].path.display());
        i += 1;
    }
    assert(text::string_views(paths@) =~= goal);
    paths
}

/// The details of a group.
pub fn detail_lines(group: &FileGroup) -> (lines: Vec<Vec<Span>>)
    requires
        group.files@.len() > 0,
    ensures
        exists|size: Seq<char>, saves: Seq<char>|
            {
                &&& text::tells_bytes(size, group@.size)
                &&& text::tells_bytes(saves, types::savings_of(group@))
                &&& line_views(lines@) == #[trigger] detail_text(
                    shown_files(group@.files),
                    size,
                    saves,
                )
            },
{
    let paths = display_files(&group.files);
    let size = text::byte_size(group.size);
    let saves = text::byte_size(group.savings());
    assert(text::string_views(paths@).len() == paths@.len());
    assert(shown_files(group@.files).len() == group.files@.len());
    detail_lines_of(&paths, size, saves)
}

// ---------------------------------------------------------------------------
// Reclaiming
// ---------------------------------------------------------------------------

/// The title of a reclamation.
pub fn reclaiming_title(state: &ReclaimingState) -> (shown: String)
    ensures
        shown@ == " MacDeDup — Reclaiming Space"@ + dry_run_text(state@.dry_run) + " "@,
{
    let mut shown = " MacDeDup — Reclaiming Space".to_string();
    shown.append(dry_run_label(state.dry_run));
    shown.append(" ");
    shown
}

/// How far a reclamation is, in percent.
pub fn reclaiming_percent(state: &ReclaimingState) -> (percent: u16)
    ensures
        percent as nat == rounding::percent_of(state@.done, state@.total),
{
    rounding::percent(state.done, state.total)
}

/// The text in the bar of a reclamation.
pub fn reclaiming_label(state: &ReclaimingState) -> (shown: String)
    ensures
        shown@ == text::decimal_text(state@.done as int) + "/"@ + text::decimal_text(
            state@.total as int,
        ) + " groups"@,
{
    let mut shown = text::decimal(state.done);
    shown.append("/");
    shown.append(text::decimal(state.total).as_str());
    shown.append(" groups");
    shown
}

/// The line about the space reclaimed, with the text for its size.
pub fn reclaimed_line_of(size: &str) -> (shown: String)
    ensures
        shown@ == "Space reclaimed: "@ + size@,
{
    let mut shown = "Space reclaimed: ".to_string();
    shown.append(size);
    shown
}

/// The line about the space reclaimed.
pub fn reclaimed_line(state: &ReclaimingState) -> (shown: String)
    ensures
        exists|size: Seq<char>|
            text::tells_bytes(size, state@.reclaimed) && shown@ == #[trigger] (
            "Space reclaimed: "@ + size),
{
    let size = text::byte_size(state.reclaimed);
    reclaimed_line_of(size.as_str())
}

// ---------------------------------------------------------------------------
// The end
// ---------------------------------------------------------------------------

/// The title of the last screen.
pub fn done_title(state: &DoneState) -> (shown: String)
    ensures
        shown@ == " MacDeDup — Complete!"@ + dry_run_text(state@.dry_run) + " "@,
{
    let mut shown = " MacDeDup — Complete!".to_string();
    shown.append(dry_run_label(state.dry_run));
    shown.append(" ");
    shown
}

/// The lines of the last screen, with the text for the space reclaimed.
pub open spec fn done_text(state: tui::DoneView, size: Seq<char>) -> Seq<Seq<SpanView>> {
    let head = seq![
        one_tone(Tone::Plain, ""@),
        one_tone(
            Tone::GreenBold,
            "  ✓ "@ + (if state.dry_run {
                "Would reclaim"@
            } else {
                "Reclaimed"@
            }) + ": "@ + size,
        ),
        one_tone(
            Tone::White,
            "    "@ + text::decimal_text(state.groups_done as int) + " groups processed"@,
        ),
        one_tone(Tone::Plain, ""@),
    ];
    let errors = if state.errors.len() > 0 {
        seq![
            one_tone(
                Tone::Yellow,
                "  "@ + text::decimal_text(state.errors.len() as int)
                    + " errors occurred (see above)"@,
            ),
        ]
    } else {
        Seq::empty()
    };
    head + errors + seq![
        one_tone(Tone::Plain, ""@),
        one_tone(Tone::DarkGray, "  Press Q or Enter to exit"@),
    ]
}

/// The lines of the last screen, with the text for the space reclaimed.
pub fn done_lines_of(state: &DoneState, size: &str) -> (lines: Vec<Vec<Span>>)
    ensures
        line_views(lines@) == done_text(state@, size@),
{
    let ghost goal = done_text(state@, size@);
    let mut lines: Vec<Vec<Span>> = Vec::new();
    assert(line_views(lines@) =~= Seq::empty());
    push_line(&mut lines, Tone::Plain, "".to_string());
    let mut result = "  ✓ ".to_string();
    if state.dry_run {
        result.append("Would reclaim");
    } else {
        result.append("Reclaimed");
    }
    result.append(": ");
    result.append(size);
    push_line(&mut lines, Tone::GreenBold, result);
    let mut count = "    ".to_string();
    count.append(text::decimal(state.groups_done).as_str());
    count.append(" groups processed");
    push_line(&mut lines, Tone::White, count);
    push_line(&mut lines, Tone::Plain, "".to_string());
    assert(state@.errors.len() == state.errors@.len());
    if state.errors.len() > 0 {
        let mut errors = "  ".to_string();
        errors.append(text::decimal(state.errors.len() as u64).as_str());
        errors.append(" errors occurred (see above)");
        push_line(&mut lines, Tone::Yellow, errors);
    }
    push_line(&mut lines, Tone::Plain, "".to_string());
    push_line(&mut lines, Tone::DarkGray, "  Press Q or Enter to exit".to_string());
    assert(line_views(lines@) =~= goal);
    lines
}

/// The lines of the last screen.
pub fn done_lines(state: &DoneState) -> (lines: Vec<Vec<Span>>)
    ensures
        exists|size: Seq<char>|
            text::tells_bytes(size, state@.total_reclaimed) && line_views(lines@) == #[trigger]
                done_text(state@, size),
{
    let size = text::byte_size(state.total_reclaimed);
    done_lines_of(state, size.as_str())
}

/// The text of the error screen.
pub fn error_text(error: &str) -> (shown: String)
    ensures
        shown@ == error@ + "\n\nPress Q to exit."@,
{
    let mut shown = error.to_string();
    shown.append("\n\nPress Q to exit.");
    shown
}

} // verus!
