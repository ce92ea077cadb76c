//! The screens of the interactive mode.

use macdedup::path::FilePath;
use macdedup::scenes::{
    detail_lines, detail_lines_of, done_lines, done_lines_of, done_title, error_text, found_line,
    group_in_detail, path_line, path_line_of, phase_line, reclaimed_line, reclaimed_line_of,
    reclaiming_label, reclaiming_percent, reclaiming_title, review_row, review_row_of,
    review_title, review_title_of, scan_label, scan_percent, Span, Tone, REVIEW_HINT,
};
use macdedup::tui::{
    review_command, DoneState, Key, KeyOutcome, KeyPress, ReclaimingState, ReviewCommand,
    ReviewState, ScanningState, Screen,
};
use macdedup::types::{FileGroup, FileInfo, ReclaimMessage, ScanMessage, ScanPhase};

fn path(text: &str) -> FilePath {
    FilePath::new(text.as_bytes().to_vec())
}

fn group(size: u64, paths: &[&str], selected: bool) -> FileGroup {
    let files = paths
        .iter()
        .map(|p| FileInfo { path: path(p), size, inode: 1, device: 1 })
        .collect();
    FileGroup { size, files, selected }
}

fn three_groups() -> Vec<FileGroup> {
    vec![
        group(100, &["/a", "/b"], true),
        group(20, &["/c", "/d", "/e"], true),
        group(3, &["/f", "/g"], true),
    ]
}

fn press(key: Key) -> KeyPress {
    KeyPress { key, control: false }
}

fn review(screen: &Screen) -> &ReviewState {
    match screen {
        Screen::Review(state) => state,
        other => panic!("{:?}", other),
    }
}

fn scanning(screen: &Screen) -> &ScanningState {
    match screen {
        Screen::Scanning(state) => state,
        other => panic!("{:?}", other),
    }
}

fn selection(state: &ReviewState) -> Vec<bool> {
    state.groups.iter().map(|g| g.selected).collect()
}

fn shown(lines: &[Vec<Span>]) -> Vec<String> {
    lines.iter().map(|l| l.iter().map(|s| s.text.as_str()).collect()).collect()
}

fn tones(lines: &[Vec<Span>]) -> Vec<Vec<Tone>> {
    lines.iter().map(|l| l.iter().map(|s| s.tone).collect()).collect()
}

// The course of the program

#[test]
fn the_first_screen() {
    let screen = Screen::new(vec![path("/x")]);
    let state = scanning(&screen);
    assert_eq!(state.paths[0].bytes, b"/x");
    assert_eq!(state.phase, ScanPhase::Walking);
    assert_eq!((state.phase_done, state.phase_total, state.files_found), (0, 0, 0));
}

#[test]
fn progress_of_a_scan() {
    let screen = Screen::new(vec![]);
    let screen = screen.on_scan_message(ScanMessage::Progress { done: 200, total: 0 }, false);
    let screen = screen.on_scan_message(ScanMessage::Progress { done: 300, total: 300 }, false);
    let state = scanning(&screen);
    assert_eq!((state.phase_done, state.phase_total, state.files_found), (300, 300, 300));
    let screen = screen.on_scan_message(ScanMessage::Phase(ScanPhase::PrefixHashing), false);
    let state = scanning(&screen);
    assert_eq!(state.phase, ScanPhase::PrefixHashing);
    assert_eq!((state.phase_done, state.phase_total, state.files_found), (0, 0, 300));
    let screen = screen.on_scan_message(ScanMessage::Progress { done: 100, total: 150 }, false);
    let screen = screen.on_scan_message(ScanMessage::Progress { done: 120, total: 0 }, false);
    let state = scanning(&screen);
    assert_eq!((state.phase_done, state.phase_total, state.files_found), (120, 150, 300));
}

#[test]
fn a_scan_leads_to_the_review() {
    let screen =
        Screen::new(vec![]).on_scan_message(ScanMessage::Done(three_groups()), true);
    let state = review(&screen);
    assert_eq!(state.groups.len(), 3);
    assert_eq!(state.cursor, Some(0));
    assert!(state.dry_run);
    assert!(state.errors.is_empty());
    let screen = Screen::new(vec![]).on_scan_message(ScanMessage::Done(vec![]), false);
    assert_eq!(review(&screen).cursor, None);
}

#[test]
fn a_scan_that_fails_leads_to_the_error_screen() {
    let screen = Screen::new(vec![]).on_scan_message(ScanMessage::Error("e".to_string()), false);
    assert!(matches!(screen, Screen::FatalError(e) if e == "e"));
}

#[test]
fn messages_for_another_screen_have_no_effect() {
    let screen = Screen::FatalError("e".to_string());
    let screen = screen.on_scan_message(ScanMessage::Done(vec![]), false);
    let screen = screen.on_reclaim_message(ReclaimMessage::Done { total_reclaimed: 1 });
    assert!(matches!(screen, Screen::FatalError(e) if e == "e"));
}

#[test]
fn from_the_review_to_the_end() {
    let mut groups = three_groups();
    groups[1].selected = false;
    let mut screen = Screen::new(vec![]).on_scan_message(ScanMessage::Done(groups), false);
    assert_eq!(screen.on_key(press(Key::Enter)), KeyOutcome::StartReclaim);
    let groups = screen.start_reclaim(false).unwrap();
    assert_eq!(groups.len(), 3);
    assert!(!groups[1].selected);
    match &screen {
        Screen::Reclaiming(s) => {
            assert_eq!((s.done, s.total, s.reclaimed, s.dry_run), (0, 2, 0, false));
            assert!(s.errors.is_empty());
        }
        other => panic!("{:?}", other),
    }
    let screen = screen.on_reclaim_message(ReclaimMessage::Error("x".to_string()));
    let screen = screen.on_reclaim_message(ReclaimMessage::Progress {
        done: 2,
        total: 2,
        reclaimed: 103,
    });
    let screen = screen.on_reclaim_message(ReclaimMessage::Done { total_reclaimed: 103 });
    match &screen {
        Screen::Done(s) => {
            assert_eq!((s.total_reclaimed, s.groups_done, s.files_done), (103, 2, 2));
            assert_eq!(s.errors, ["x"]);
            assert!(!s.dry_run);
        }
        other => panic!("{:?}", other),
    }
}

#[test]
fn only_the_review_starts_a_reclamation() {
    let mut screen = Screen::new(vec![]);
    assert!(screen.start_reclaim(false).is_none());
    assert!(matches!(screen, Screen::Scanning(_)));
}

// Keys

#[test]
fn control_c_quits_everywhere() {
    let control_c = KeyPress { key: Key::Char('c'), control: true };
    let done = DoneState {
        total_reclaimed: 0,
        groups_done: 0,
        files_done: 0,
        dry_run: false,
        errors: vec![],
    };
    let reclaiming =
        ReclaimingState { done: 0, total: 0, reclaimed: 0, errors: vec![], dry_run: false };
    for mut screen in [
        Screen::new(vec![]),
        Screen::Review(ReviewState::new(three_groups(), false)),
        Screen::Reclaiming(reclaiming),
        Screen::Done(done),
        Screen::FatalError("e".to_string()),
    ] {
        assert_eq!(screen.on_key(press(Key::Char('c'))), KeyOutcome::Stay);
        assert_eq!(screen.on_key(control_c), KeyOutcome::Quit);
        assert_eq!(screen.on_key(press(Key::Char('q'))), KeyOutcome::Quit);
        let at_work = matches!(screen, Screen::Scanning(_) | Screen::Reclaiming(_));
        let capital = if at_work { KeyOutcome::Stay } else { KeyOutcome::Quit };
        assert_eq!(screen.on_key(press(Key::Char('Q'))), capital);
        assert_eq!(screen.on_key(press(Key::Other)), KeyOutcome::Stay);
    }
}

#[test]
fn enter_and_escape_leave_the_last_screens() {
    let mut screen = Screen::FatalError("e".to_string());
    assert_eq!(screen.on_key(press(Key::Enter)), KeyOutcome::Quit);
    assert_eq!(screen.on_key(press(Key::Esc)), KeyOutcome::Quit);
    let mut screen = Screen::new(vec![]);
    assert_eq!(screen.on_key(press(Key::Enter)), KeyOutcome::Stay);
    assert_eq!(screen.on_key(press(Key::Esc)), KeyOutcome::Stay);
}

#[test]
fn keys_of_the_review() {
    for (key, command) in [
        (Key::Up, ReviewCommand::MoveUp),
        (Key::Char('k'), ReviewCommand::MoveUp),
        (Key::Char('K'), ReviewCommand::Nothing),
        (Key::Down, ReviewCommand::MoveDown),
        (Key::Char('j'), ReviewCommand::MoveDown),
        (Key::Char(' '), ReviewCommand::Toggle),
        (Key::Char('a'), ReviewCommand::ToggleAll),
        (Key::Char('A'), ReviewCommand::ToggleAll),
        (Key::Char('r'), ReviewCommand::Reclaim),
        (Key::Char('R'), ReviewCommand::Reclaim),
        (Key::Enter, ReviewCommand::Reclaim),
        (Key::Char('q'), ReviewCommand::Quit),
        (Key::Char('Q'), ReviewCommand::Quit),
        (Key::Esc, ReviewCommand::Quit),
        (Key::Char('x'), ReviewCommand::Nothing),
        (Key::Other, ReviewCommand::Nothing),
    ] {
        assert_eq!(review_command(key), command, "{:?}", key);
    }
}

#[test]
fn the_cursor_stays_in_the_list() {
    let mut screen = Screen::Review(ReviewState::new(three_groups(), false));
    for (key, cursor) in [
        (Key::Up, 0),
        (Key::Down, 1),
        (Key::Char('j'), 2),
        (Key::Down, 2),
        (Key::Char('k'), 1),
        (Key::Up, 0),
    ] {
        assert_eq!(screen.on_key(press(key)), KeyOutcome::Stay);
        assert_eq!(review(&screen).selected_idx(), Some(cursor));
    }
}

#[test]
fn the_cursor_of_an_empty_list() {
    let mut state = ReviewState::new(vec![], false);
    state.toggle_selected();
    assert_eq!(state.cursor, None);
    state.move_down();
    assert_eq!(state.cursor, Some(0));
    state.move_down();
    assert_eq!(state.cursor, Some(0));
    state.toggle_selected();
    assert!(state.groups.is_empty());
    let mut state = ReviewState::new(vec![], false);
    state.move_up();
    assert_eq!(state.cursor, Some(0));
}

#[test]
fn a_cursor_far_below_the_list_can_move_up() {
    let mut state = ReviewState::new(three_groups(), false);
    state.cursor = Some(usize::MAX);
    let mut screen = Screen::Review(state);
    assert_eq!(screen.on_key(press(Key::Char(' '))), KeyOutcome::Stay);
    assert_eq!(screen.on_key(press(Key::Up)), KeyOutcome::Stay);
    assert_eq!(review(&screen).cursor, Some(usize::MAX - 1));
    assert_eq!(selection(review(&screen)), [true, true, true]);
}

#[test]
fn toggling_twice_changes_nothing() {
    let mut screen = Screen::Review(ReviewState::new(three_groups(), false));
    screen.on_key(press(Key::Down));
    screen.on_key(press(Key::Char(' ')));
    assert_eq!(selection(review(&screen)), [true, false, true]);
    screen.on_key(press(Key::Char(' ')));
    assert_eq!(selection(review(&screen)), [true, true, true]);
}

#[test]
fn all_groups_at_once() {
    let mut screen = Screen::Review(ReviewState::new(three_groups(), false));
    screen.on_key(press(Key::Char(' ')));
    screen.on_key(press(Key::Char('a')));
    assert_eq!(selection(review(&screen)), [true, true, true]);
    screen.on_key(press(Key::Char('a')));
    assert_eq!(selection(review(&screen)), [false, false, false]);
    screen.on_key(press(Key::Char('A')));
    assert_eq!(selection(review(&screen)), [true, true, true]);
}

#[test]
fn savings_of_the_selected_groups() {
    let mut state = ReviewState::new(three_groups(), false);
    assert_eq!((state.selected_savings(), state.total_savings()), (143, 143));
    assert_eq!(state.selected_count(), 3);
    assert!(state.all_selected());
    state.toggle_selected();
    assert_eq!((state.selected_savings(), state.total_savings()), (43, 143));
    assert_eq!(state.selected_count(), 2);
    assert!(!state.all_selected());
    state.select_all(false);
    assert_eq!((state.selected_savings(), state.selected_count()), (0, 0));
}

// What is shown

fn scanning_state(phase: ScanPhase, done: u64, total: u64) -> ScanningState {
    ScanningState {
        paths: vec![path("/x"), path("/y z")],
        phase,
        phase_done: done,
        phase_total: total,
        files_found: 1_500,
    }
}

#[test]
fn the_scanning_screen() {
    let state = scanning_state(ScanPhase::FullHashing, 50, 2_000);
    assert_eq!(path_line(&state), "Path: /x, /y z");
    assert_eq!(phase_line(&state, 0), "⠋  Computing full checksums");
    assert_eq!(phase_line(&state, 1), "⠋  Computing full checksums");
    assert_eq!(phase_line(&state, 2), "⠙  Computing full checksums");
    assert_eq!(phase_line(&state, 19), "⠏  Computing full checksums");
    assert_eq!(phase_line(&state, 20), "⠋  Computing full checksums");
    assert_eq!(scan_percent(&state), 2);
    assert_eq!(scan_label(&state), "50 / 2.0K");
    assert_eq!(found_line(&state), "Files found: 1.5K");
    let state = scanning_state(ScanPhase::Walking, 400, 0);
    assert_eq!(phase_line(&state, 5), "⠹  Scanning files");
    assert_eq!(scan_percent(&state), 0);
    assert_eq!(scan_label(&state), "400");
}

#[test]
fn paths_are_joined() {
    assert_eq!(path_line_of(&vec![]), "Path: ");
    assert_eq!(path_line_of(&vec!["a".to_string()]), "Path: a");
    assert_eq!(
        path_line_of(&vec!["a".to_string(), "b".to_string(), "c".to_string()]),
        "Path: a, b, c"
    );
}

#[test]
fn the_title_of_the_review() {
    let mut state = ReviewState::new(three_groups(), false);
    assert_eq!(review_title(&state), " MacDeDup — Review Duplicates  (3 groups, save 143 B)");
    state.dry_run = true;
    state.toggle_selected();
    assert_eq!(
        review_title(&state),
        " MacDeDup — Review Duplicates [DRY RUN]  (3 groups, save 43 B)"
    );
    assert_eq!(
        review_title_of(&state, "S"),
        " MacDeDup — Review Duplicates [DRY RUN]  (3 groups, save S)"
    );
}

#[test]
fn rows_of_the_review() {
    let g = group(2_000, &["/x/a.txt", "/b", "/c"], true);
    assert_eq!(review_row(&g), format!("[✓] {:40} ×3  4.0 KB", "a.txt"));
    let long = "n".repeat(41);
    let g = group(5, &[&format!("/x/{}", long), "/b"], false);
    assert_eq!(review_row(&g), format!("[ ] {}… ×2  5 B", "n".repeat(40)));
    assert_eq!(review_row_of(&g, "é", "S"), format!("[ ] {:40} ×2  S", "é"));
}

#[test]
fn the_hint_of_the_review() {
    assert_eq!(
        REVIEW_HINT,
        "↑↓/j/k: navigate  Space: toggle  A: all  R/Enter: reclaim  Q: quit"
    );
}

#[test]
fn the_group_under_the_cursor_is_shown_in_detail() {
    let mut state = ReviewState::new(three_groups(), false);
    state.move_down();
    let lines = detail_lines(group_in_detail(&state).unwrap());
    assert_eq!(
        shown(&lines),
        ["Size: 20 B   Saves: 40 B", "", "Source (kept):", "  /c", "", "Targets (2):", "  /d", "  /e"]
    );
    assert_eq!(
        tones(&lines),
        [
            vec![Tone::Gray, Tone::White, Tone::Plain, Tone::Gray, Tone::Green],
            vec![Tone::Plain],
            vec![Tone::YellowBold],
            vec![Tone::White],
            vec![Tone::Plain],
            vec![Tone::RedBold],
            vec![Tone::Gray],
            vec![Tone::Gray],
        ]
    );
    let mut state = ReviewState::new(vec![], false);
    assert!(group_in_detail(&state).is_none());
    state.move_down();
    assert!(group_in_detail(&state).is_none());
}

#[test]
fn details_from_given_texts() {
    let lines =
        detail_lines_of(&vec!["p".to_string()], "A".to_string(), "B".to_string());
    assert_eq!(
        shown(&lines),
        ["Size: A   Saves: B", "", "Source (kept):", "  p", "", "Targets (0):"]
    );
}

#[test]
fn the_reclaiming_screen() {
    let mut state = ReclaimingState {
        done: 1,
        total: 3,
        reclaimed: 2_000_000,
        errors: vec![],
        dry_run: false,
    };
    assert_eq!(reclaiming_title(&state), " MacDeDup — Reclaiming Space ");
    assert_eq!(reclaiming_percent(&state), 33);
    assert_eq!(reclaiming_label(&state), "1/3 groups");
    assert_eq!(reclaimed_line(&state), "Space reclaimed: 2.0 MB");
    assert_eq!(reclaimed_line_of("S"), "Space reclaimed: S");
    state.dry_run = true;
    assert_eq!(reclaiming_title(&state), " MacDeDup — Reclaiming Space [DRY RUN] ");
}

#[test]
fn the_last_screen() {
    let mut state = DoneState {
        total_reclaimed: 1_000,
        groups_done: 2,
        files_done: 2,
        dry_run: false,
        errors: vec![],
    };
    assert_eq!(done_title(&state), " MacDeDup — Complete! ");
    let lines = done_lines(&state);
    assert_eq!(
        shown(&lines),
        ["", "  ✓ Reclaimed: 1.0 KB", "    2 groups processed", "", "", "  Press Q or Enter to exit"]
    );
    assert_eq!(
        tones(&lines),
        [
            vec![Tone::Plain],
            vec![Tone::GreenBold],
            vec![Tone::White],
            vec![Tone::Plain],
            vec![Tone::Plain],
            vec![Tone::DarkGray],
        ]
    );
    state.dry_run = true;
    state.errors.push("x".to_string());
    assert_eq!(done_title(&state), " MacDeDup — Complete! [DRY RUN] ");
    let lines = done_lines_of(&state, "S");
    assert_eq!(
        shown(&lines),
        [
            "",
            "  ✓ Would reclaim: S",
            "    2 groups processed",
            "",
            "  1 errors occurred (see above)",
            "",
            "  Press Q or Enter to exit"
        ]
    );
    assert_eq!(tones(&lines)[4], [Tone::Yellow]);
}

#[test]
fn the_error_screen() {
    assert_eq!(error_text("no access"), "no access\n\nPress Q to exit.");
}
