//! What the console and the screens show.

use crate::cli;
use crate::scenes;
use crate::scenes::{SpanView, Tone};
use crate::text;
use crate::tui;
use crate::types;
use crate::types::{
    FileGroupView, FileInfoView, ReclaimMessageView, ScanMessageView, ScanPhase,
};
use vstd::prelude::*;

verus! {

// ---------------------------------------------------------------------------
// The console during a scan
// ---------------------------------------------------------------------------

/// What is printed when a phase of a scan begins: whatever ends before it is closed first.
pub proof fn law_beginning_of_a_phase(phase: ScanPhase, found: u64)
    ensures
        cli::scan_text(phase, found, ScanMessageView::Phase(ScanPhase::Walking))
            == Seq::<char>::empty(),
        cli::scan_text(phase, found, ScanMessageView::Phase(ScanPhase::Grouping)) == "\r\x1b[K"@
            + "Scanning:  "@ + text::grouped_text(found as int) + " files found.\r\n"@,
        cli::scan_text(phase, found, ScanMessageView::Phase(ScanPhase::PrefixHashing))
            == "Hashing:   quick pass  "@ + text::bar_text(0),
        cli::scan_text(phase, found, ScanMessageView::Phase(ScanPhase::FullHashing))
            == "\r\x1b[K"@ + "Hashing:   quick pass  "@ + text::bar_text(100) + " done.\r\n"@
            + "Hashing:   full pass   "@ + text::bar_text(0),
{
}

/// What is printed for progress: the count while walking, and the bar while digests are computed
/// where their number is known.
pub proof fn law_progress_of_a_phase(found: u64, done: u64, total: u64)
    ensures
        ({
            let message = ScanMessageView::Progress { done, total };
            let bar = text::bar_text(cli::whole_percent(done as nat, total as nat));
            let none = Seq::<char>::empty();
            &&& cli::scan_text(ScanPhase::Walking, found, message) == "\r\x1b[K"@ + "Scanning:  "@
                + text::grouped_text(done as int) + " files…"@
            &&& cli::scan_text(ScanPhase::Grouping, found, message) == none
            &&& total == 0 ==> cli::scan_text(ScanPhase::PrefixHashing, found, message) == none
            &&& total == 0 ==> cli::scan_text(ScanPhase::FullHashing, found, message) == none
            &&& total > 0 ==> cli::scan_text(ScanPhase::PrefixHashing, found, message)
                == "\r\x1b[K"@ + "Hashing:   quick pass  "@ + bar
            &&& total > 0 ==> cli::scan_text(ScanPhase::FullHashing, found, message)
                == "\r\x1b[K"@ + "Hashing:   full pass   "@ + bar
        }),
{
}

/// What is printed at the end of a scan: the current line is closed, and an empty one follows.
pub proof fn law_end_of_a_scan(found: u64, groups: Seq<FileGroupView>, error: Seq<char>)
    ensures
        ({
            let done = ScanMessageView::Done(groups);
            let walked = "\r\x1b[K"@ + "Scanning:  "@ + text::grouped_text(found as int)
                + " files found.\r\n"@ + "\r\n"@;
            &&& cli::scan_text(ScanPhase::Walking, found, done) == walked
            &&& cli::scan_text(ScanPhase::Grouping, found, done) == walked
            &&& cli::scan_text(ScanPhase::PrefixHashing, found, done) == "\r\x1b[K"@
                + "Hashing:   quick pass  "@ + text::bar_text(100) + " done.\r\n"@ + "\r\n"@
            &&& cli::scan_text(ScanPhase::FullHashing, found, done) == "\r\x1b[K"@
                + "Hashing:   full pass   "@ + text::bar_text(100) + " done.\r\n"@ + "\r\n"@
            &&& cli::scan_text(ScanPhase::Walking, found, ScanMessageView::Error(error))
                == "\r\x1b[K"@ + "\r\n"@
        }),
{
}

/// A failure is printed the same way in every phase.
pub proof fn law_failures_close_the_line(
    phase: ScanPhase,
    other: ScanPhase,
    found: u64,
    error: Seq<char>,
)
    ensures
        cli::scan_text(phase, found, ScanMessageView::Error(error)) == cli::scan_text(
            other,
            found,
            ScanMessageView::Error(error),
        ),
{
}

/// A scan is over with its groups or its error, and goes on after every other message.
pub proof fn law_scan_ends_with_its_message(end: cli::ScanEnd, message: ScanMessageView)
    requires
        cli::ends_as(end, message),
    ensures
        message matches ScanMessageView::Done(groups) ==> end is Done && types::group_views(
            end->Done_0@,
        ) == groups,
        message matches ScanMessageView::Error(error) ==> end is Failed && end->Failed_0@ == error,
        message is Phase || message is Progress ==> end is Running,
{
}

// ---------------------------------------------------------------------------
// The summary
// ---------------------------------------------------------------------------

/// A line starts and ends at the first column.
pub proof fn law_lines_start_and_end_at_the_first_column(line: Seq<char>)
    ensures
        cli::line_text(line) == "\r"@ + line + "\r\n"@,
{
}

/// One more entry of the list is one more line, with the number, name, copies and savings of its
/// group.
pub proof fn law_list_grows_by_lines(
    groups: Seq<FileGroupView>,
    names: Seq<Seq<char>>,
    saves: Seq<Seq<char>>,
    n: nat,
)
    ensures
        cli::rows_text(groups, names, saves, 0) == Seq::<char>::empty(),
        ({
            let number = text::decimal_text(n as int + 1);
            let row = "  "@ + (text::blanks_to(number.len(), 3) + number) + ". "@ + names[n as int]
                + " ("@ + text::decimal_text(groups[n as int].files.len() as int)
                + " copies, saves "@ + saves[n as int] + ")"@;
            cli::rows_text(groups, names, saves, n + 1) == cli::rows_text(groups, names, saves, n)
                + ("\r"@ + row + "\r\n"@)
        }),
{
}

/// The text tells the number of groups, by `total` what they save together, and for each of the
/// first ten of them its name and what it saves.
pub open spec fn tells_groups(
    shown: Seq<char>,
    groups: Seq<FileGroupView>,
    total: Seq<char>,
    names: Seq<Seq<char>>,
    saves: Seq<Seq<char>>,
) -> bool {
    let n: nat = if groups.len() > 10 {
        10
    } else {
        groups.len()
    };
    let count = text::decimal_text(groups.len() as int);
    let more = if groups.len() > 10 {
        "\r"@ + ("       … and "@ + text::decimal_text(groups.len() - 10) + " more groups"@)
            + "\r\n"@
    } else {
        Seq::empty()
    };
    &&& text::tells_bytes(total, types::savings_sum(groups) as u64)
    &&& names.len() == n
    &&& saves.len() == n
    &&& forall|i: int|
        0 <= i < n ==> text::tells_bytes(#[trigger] saves[i], types::savings_of(groups[i]))
    &&& forall|i: int|
        0 <= i < n ==> #[trigger] names[i] == (match crate::path::file_name(
            groups[i].files[0].path,
        ) {
            Some(name) => text::lossy_text(name),
            None => Seq::empty(),
        })
    &&& shown == "\r"@ + ("Found "@ + count + " duplicate group(s) — potential savings: "@ + total)
        + "\r\n"@ + ("\r"@ + ""@ + "\r\n"@) + cli::rows_text(groups, names, saves, n) + more + (
    "\r"@ + ""@ + "\r\n"@)
}

/// A summary tells the number of groups, what they save together and the first ten of them, with
/// the name of the source of each, and how many more there are.
pub proof fn law_summary_tells_the_groups(shown: Seq<char>, groups: Seq<FileGroupView>)
    requires
        cli::is_summary(shown, groups),
        types::savings_sum(groups) <= u64::MAX,
    ensures
        groups.len() == 0 ==> shown == "\r"@ + "No duplicate files found."@ + "\r\n"@,
        groups.len() > 0 ==> exists|
            total: Seq<char>,
            names: Seq<Seq<char>>,
            saves: Seq<Seq<char>>,
        | #[trigger]
            tells_groups(shown, groups, total, names, saves),
{
    let (total, saves) = choose|total: Seq<char>, saves: Seq<Seq<char>>|
        {
            &&& text::tells_bytes(total, types::savings_sum(groups) as u64)
            &&& saves.len() == cli::listed(groups)
            &&& cli::tell_savings(saves, groups)
            &&& shown == #[trigger] cli::summary_text(
                groups,
                total,
                cli::group_names(groups, cli::listed(groups)),
                saves,
            )
        };
    let names = cli::group_names(groups, cli::listed(groups));
    if groups.len() > 0 {
        assert(tells_groups(shown, groups, total, names, saves));
    }
}

// ---------------------------------------------------------------------------
// The console during a reclamation
// ---------------------------------------------------------------------------

/// What is printed for the messages of a reclamation.
pub proof fn law_console_of_a_reclamation(
    errors: Seq<Seq<char>>,
    done: u64,
    total: u64,
    bytes: u64,
    size: Seq<char>,
    error: Seq<char>,
)
    ensures
        ({
            let progress = ReclaimMessageView::Progress { done, total, reclaimed: bytes };
            &&& total > 0 ==> cli::reclaim_text(errors, progress, size) == "\r\x1b[K"@
                + "Reclaiming: "@ + text::bar_text(
                cli::whole_percent(done as nat, total as nat),
            ) + " "@ + size + " — "@ + text::grouped_text(done as int) + "/"@ + text::grouped_text(
                total as int,
            )
            &&& total == 0 ==> cli::reclaim_text(errors, progress, size) == Seq::<char>::empty()
            &&& cli::told_bytes(progress) == bytes
            &&& cli::errors_after(errors, progress) == errors
        }),
        ({
            let end = ReclaimMessageView::Done { total_reclaimed: bytes };
            let head = "\r\x1b[K"@ + "Reclaiming: "@ + text::bar_text(100) + " done.\r\n"@ + ("\r"@
                + ("✓  Reclaimed "@ + size + "."@) + "\r\n"@);
            &&& errors.len() == 0 ==> cli::reclaim_text(errors, end, size) == head
            &&& errors.len() > 0 ==> cli::reclaim_text(errors, end, size) == head + ("\r"@ + ""@
                + "\r\n"@ + ("\r"@ + (text::decimal_text(errors.len() as int) + " error(s):"@)
                + "\r\n"@) + cli::error_lines(errors, errors.len()))
            &&& cli::told_bytes(end) == bytes
            &&& cli::errors_after(errors, end) == errors
        }),
        ({
            let failure = ReclaimMessageView::Error(error);
            &&& cli::reclaim_text(errors, failure, size) == "\r\x1b[K"@ + "  ! "@ + error
                + "\r\n"@
            &&& cli::errors_after(errors, failure) == errors.push(error)
        }),
{
    let end = ReclaimMessageView::Done { total_reclaimed: bytes };
    let head = "\r\x1b[K"@ + "Reclaiming: "@ + text::bar_text(100) + " done.\r\n"@ + ("\r"@ + (
    "✓  Reclaimed "@ + size + "."@) + "\r\n"@);
    assert(head + Seq::<char>::empty() =~= head);
}

/// One more error is one more line.
pub proof fn law_errors_are_listed_line_by_line(errors: Seq<Seq<char>>, n: nat)
    ensures
        cli::error_lines(errors, 0) == Seq::<char>::empty(),
        cli::error_lines(errors, n + 1) == cli::error_lines(errors, n) + ("\r"@ + ("   • "@
            + errors[n as int]) + "\r\n"@),
{
}

// ---------------------------------------------------------------------------
// The screens
// ---------------------------------------------------------------------------

/// The words for the phases.
pub proof fn law_words_for_phases()
    ensures
        types::phase_label(ScanPhase::Walking) == "Scanning files"@,
        types::phase_label(ScanPhase::Grouping) == "Grouping by size"@,
        types::phase_label(ScanPhase::PrefixHashing) == "Quick-hashing candidates"@,
        types::phase_label(ScanPhase::FullHashing) == "Computing full checksums"@,
{
}

/// The paths of a scan are joined, with the separator between each two.
pub proof fn law_paths_are_joined(
    texts: Seq<Seq<char>>,
    one: Seq<char>,
    separator: Seq<char>,
)
    ensures
        scenes::joined_text(Seq::empty(), separator) == Seq::<char>::empty(),
        scenes::joined_text(seq![one], separator) == one,
        texts.len() > 0 ==> scenes::joined_text(texts.push(one), separator) == scenes::joined_text(
            texts,
            separator,
        ) + separator + one,
{
    assert(texts.push(one).drop_last() =~= texts);
}

/// The text in the bar of a scan tells the total where it is known.
pub proof fn law_bar_of_a_scan_tells_the_total(done: u64, total: u64)
    ensures
        total == 0 ==> scenes::scan_label_text(done, total) == text::count_text(done),
        total > 0 ==> scenes::scan_label_text(done, total) == text::count_text(done) + " / "@
            + text::count_text(total),
{
}

/// The spinner shows the next of its ten signs every second frame and then starts anew.
pub proof fn law_spinner_turns(frame: u64)
    requires
        frame < u64::MAX - 20,
    ensures
        frame % 2 == 0 ==> scenes::spinner_sign((frame + 1) as u64) == scenes::spinner_sign(frame),
        scenes::spinner_sign((frame + 20) as u64) == scenes::spinner_sign(frame),
        scenes::spinner_signs() == seq!['⠋', '⠙', '⠹', '⠸', '⠼', '⠴', '⠦', '⠧', '⠇', '⠏'],
        scenes::spinner_sign(frame) == scenes::spinner_signs()[frame as int / 2 % 10],
{
}

/// Titles tell a dry run.
pub proof fn law_titles_tell_a_dry_run(count: nat, saves: Seq<char>)
    ensures
        scenes::dry_run_text(true) == " [DRY RUN]"@,
        scenes::dry_run_text(false) == ""@,
        scenes::review_title_text(count, true, saves) == " MacDeDup — Review Duplicates"@
            + " [DRY RUN]"@ + "  ("@ + text::decimal_text(count as int) + " groups, save "@ + saves
            + ")"@,
        scenes::review_title_text(count, false, saves) == " MacDeDup — Review Duplicates"@ + ""@
            + "  ("@ + text::decimal_text(count as int) + " groups, save "@ + saves + ")"@,
{
}

/// The entry of a group shows whether it is selected, its name in forty columns, its copies and
/// what it saves.
pub proof fn law_entry_of_a_group(name: Seq<char>, copies: nat, saves: Seq<char>)
    ensures
        ({
            let short = text::truncated_text(name, 40);
            let rest = (short + text::blanks_to(short.len(), 40)) + " ×"@ + text::decimal_text(
                copies as int,
            ) + "  "@ + saves;
            &&& scenes::review_row_text(true, name, copies, saves) =~= "["@ + "✓"@ + "] "@ + rest
            &&& scenes::review_row_text(false, name, copies, saves) =~= "["@ + " "@ + "] "@ + rest
        }),
{
}

/// The details are those of the group that the cursor is on, wherever that is in the list, and of
/// none where it is on no group.
pub proof fn law_details_are_of_the_group_under_the_cursor(
    groups: Seq<FileGroupView>,
    cursor: Option<usize>,
)
    ensures
        cursor is None ==> scenes::detailed_group(groups, cursor) is None,
        cursor matches Some(i) ==> {
            &&& i < groups.len() ==> scenes::detailed_group(groups, cursor) == Some(
                groups[i as int],
            )
            &&& i >= groups.len() ==> scenes::detailed_group(groups, cursor) is None
        },
{
}

/// The details tell the size of the files and what the group saves, then the path of the source,
/// and then the path of every target on a line of its own.
pub proof fn law_details_of_a_group(
    paths: Seq<Seq<char>>,
    size: Seq<char>,
    saves: Seq<char>,
    i: int,
)
    requires
        1 <= i < paths.len(),
    ensures
        ({
            let lines = scenes::detail_text(paths, size, saves);
            let plain = |tone: Tone, shown: Seq<char>| seq![SpanView { tone, text: shown }];
            &&& lines.len() == 5 + paths.len()
            &&& lines[0] == seq![
                SpanView { tone: Tone::Gray, text: "Size: "@ },
                SpanView { tone: Tone::White, text: size },
                SpanView { tone: Tone::Plain, text: "   "@ },
                SpanView { tone: Tone::Gray, text: "Saves: "@ },
                SpanView { tone: Tone::Green, text: saves },
            ]
            &&& lines[1] == plain(Tone::Plain, ""@)
            &&& lines[2] == plain(Tone::YellowBold, "Source (kept):"@)
            &&& lines[3] == plain(Tone::White, "  "@ + paths[0])
            &&& lines[4] == plain(Tone::Plain, ""@)
            &&& lines[5] == plain(
                Tone::RedBold,
                "Targets ("@ + text::decimal_text(paths.len() - 1) + "):"@,
            )
            &&& lines[5 + i] == plain(Tone::Gray, "  "@ + paths[i])
        }),
{
}

/// The paths shown are those of the files, in their order.
pub proof fn law_shown_paths_are_those_of_the_files(files: Seq<FileInfoView>, i: int)
    requires
        0 <= i < files.len(),
    ensures
        scenes::shown_files(files).len() == files.len(),
        scenes::shown_files(files)[i] == text::lossy_text(files[i].path),
{
}

/// The last screen tells what was reclaimed, in how many groups, and how many errors there were.
pub proof fn law_last_screen(state: tui::DoneView, size: Seq<char>)
    ensures
        ({
            let lines = scenes::done_text(state, size);
            let plain = |tone: Tone, shown: Seq<char>| seq![SpanView { tone, text: shown }];
            let n = lines.len();
            &&& n == (if state.errors.len() > 0 {
                7nat
            } else {
                6nat
            })
            &&& lines[0] == plain(Tone::Plain, ""@)
            &&& state.dry_run ==> lines[1] == plain(
                Tone::GreenBold,
                "  ✓ "@ + "Would reclaim"@ + ": "@ + size,
            )
            &&& !state.dry_run ==> lines[1] == plain(
                Tone::GreenBold,
                "  ✓ "@ + "Reclaimed"@ + ": "@ + size,
            )
            &&& lines[2] == plain(
                Tone::White,
                "    "@ + text::decimal_text(state.groups_done as int) + " groups processed"@,
            )
            &&& lines[3] == plain(Tone::Plain, ""@)
            &&& state.errors.len() > 0 ==> lines[4] == plain(
                Tone::Yellow,
                "  "@ + text::decimal_text(state.errors.len() as int)
                    + " errors occurred (see above)"@,
            )
            &&& lines[n - 2] == plain(Tone::Plain, ""@)
            &&& lines[n - 1] == plain(Tone::DarkGray, "  Press Q or Enter to exit"@)
        }),
{
}

} // verus!
