//! What the plain-text mode prints.

use macdedup::cli::{
    aborted_notice, after_summary, dry_run_notice, name_of_group, out, row, summary, summary_of,
    AfterSummary, ReclaimConsole, ScanConsole, ScanEnd, CONFIRM_PROMPT,
};
use macdedup::path::FilePath;
use macdedup::types::{
    total_savings, FileGroup, FileInfo, ReclaimMessage, ScanMessage, ScanPhase,
};

fn group(size: u64, paths: &[&str]) -> FileGroup {
    let files = paths
        .iter()
        .map(|p| FileInfo {
            path: FilePath::new(p.as_bytes().to_vec()),
            size,
            inode: 1,
            device: 1,
        })
        .collect();
    FileGroup { size, files, selected: true }
}

fn bar(filled: usize) -> String {
    format!("[{}{}]", "█".repeat(filled), "░".repeat(30 - filled))
}

fn text_of(console: &mut ScanConsole, message: ScanMessage) -> String {
    console.on_message(message).text
}

#[test]
fn lines_start_and_end_at_the_first_column() {
    assert_eq!(out("abc"), "\rabc\r\n");
    assert_eq!(out(""), "\r\r\n");
}

#[test]
fn notices() {
    assert_eq!(dry_run_notice(), "\r[DRY RUN] No files were modified.\r\n");
    assert_eq!(aborted_notice(), "\rAborted.\r\n");
    assert_eq!(CONFIRM_PROMPT, "Proceed with reclamation? [y/N] ");
}

#[test]
fn a_scan_prints_its_phases() {
    let mut c = ScanConsole::new();
    assert_eq!(text_of(&mut c, ScanMessage::Phase(ScanPhase::Walking)), "");
    assert_eq!(
        text_of(&mut c, ScanMessage::Progress { done: 200, total: 0 }),
        "\r\x1b[KScanning:  200 files…"
    );
    assert_eq!(
        text_of(&mut c, ScanMessage::Progress { done: 1234, total: 1234 }),
        "\r\x1b[KScanning:  1,234 files…"
    );
    assert_eq!(
        text_of(&mut c, ScanMessage::Phase(ScanPhase::Grouping)),
        "\r\x1b[KScanning:  1,234 files found.\r\n"
    );
    assert_eq!(text_of(&mut c, ScanMessage::Progress { done: 1, total: 2 }), "");
    assert_eq!(
        text_of(&mut c, ScanMessage::Phase(ScanPhase::PrefixHashing)),
        format!("Hashing:   quick pass  {}", bar(0))
    );
    assert_eq!(text_of(&mut c, ScanMessage::Progress { done: 100, total: 0 }), "");
    assert_eq!(
        text_of(&mut c, ScanMessage::Progress { done: 100, total: 200 }),
        format!("\r\x1b[KHashing:   quick pass  {}", bar(15))
    );
    assert_eq!(
        text_of(&mut c, ScanMessage::Phase(ScanPhase::FullHashing)),
        format!(
            "\r\x1b[KHashing:   quick pass  {} done.\r\nHashing:   full pass   {}",
            bar(30),
            bar(0)
        )
    );
    assert_eq!(
        text_of(&mut c, ScanMessage::Progress { done: 20, total: 30 }),
        format!("\r\x1b[KHashing:   full pass   {}", bar(19))
    );
    let print = c.on_message(ScanMessage::Done(vec![group(5, &["/a", "/b"])]));
    assert_eq!(print.text, format!("\r\x1b[KHashing:   full pass   {} done.\r\n\r\n", bar(30)));
    assert!(matches!(print.end, ScanEnd::Done(groups) if groups.len() == 1));
    assert_eq!(c.files_found, 1234);
}

#[test]
fn a_scan_can_end_in_every_phase() {
    let mut c = ScanConsole::new();
    assert_eq!(
        text_of(&mut c, ScanMessage::Done(vec![])),
        "\r\x1b[KScanning:  0 files found.\r\n\r\n"
    );
    c.on_message(ScanMessage::Phase(ScanPhase::Grouping));
    assert_eq!(
        text_of(&mut c, ScanMessage::Done(vec![])),
        "\r\x1b[KScanning:  0 files found.\r\n\r\n"
    );
    c.on_message(ScanMessage::Phase(ScanPhase::PrefixHashing));
    assert_eq!(
        text_of(&mut c, ScanMessage::Done(vec![])),
        format!("\r\x1b[KHashing:   quick pass  {} done.\r\n\r\n", bar(30))
    );
}

#[test]
fn a_scan_can_fail() {
    let print = ScanConsole::new().on_message(ScanMessage::Error("broken".to_string()));
    assert_eq!(print.text, "\r\x1b[K\r\n");
    assert!(matches!(print.end, ScanEnd::Failed(error) if error == "broken"));
}

#[test]
fn other_messages_go_on() {
    let print = ScanConsole::new().on_message(ScanMessage::Phase(ScanPhase::Grouping));
    assert!(matches!(print.end, ScanEnd::Running));
}

#[test]
fn groups_go_by_the_name_of_their_source() {
    assert_eq!(name_of_group(&group(5, &["/x/a.txt", "/b"])), "a.txt");
    assert_eq!(name_of_group(&group(5, &["/"])), "");
}

#[test]
fn rows_are_numbered() {
    assert_eq!(row(1, "a.txt", 3, "10 B"), "    1. a.txt (3 copies, saves 10 B)");
    assert_eq!(row(10, "b", 2, "1.0 KB"), "   10. b (2 copies, saves 1.0 KB)");
    assert_eq!(row(1000, "b", 2, "x"), "  1000. b (2 copies, saves x)");
}

#[test]
fn the_summary_of_nothing() {
    assert_eq!(summary(&vec![]), "\rNo duplicate files found.\r\n");
}

#[test]
fn the_summary_lists_the_groups() {
    let groups = vec![group(2_500, &["/x/a", "/y/a", "/z/a"]), group(7, &["/b", "/c"])];
    assert_eq!(total_savings(&groups), 5_007);
    assert_eq!(
        summary(&groups),
        "\rFound 2 duplicate group(s) — potential savings: 5.0 KB\r\n\r\r\n\
         \r    1. a (3 copies, saves 5.0 KB)\r\n\r    2. b (2 copies, saves 7 B)\r\n\r\r\n"
    );
}

#[test]
fn the_summary_lists_ten_groups() {
    let groups: Vec<FileGroup> = (0..12).map(|_| group(1, &["/a", "/b"])).collect();
    let shown = summary(&groups);
    assert_eq!(shown.matches("copies").count(), 10);
    assert!(shown
        .contains("\r   10. a (2 copies, saves 1 B)\r\n\r       … and 2 more groups\r\n\r\r\n"));
    let groups: Vec<FileGroup> = (0..10).map(|_| group(1, &["/a", "/b"])).collect();
    assert!(!summary(&groups).contains("more groups"));
}

#[test]
fn the_summary_from_given_texts() {
    let shown = summary_of(
        &vec![group(1, &["/a", "/b"])],
        "T",
        &vec!["N".to_string()],
        &vec!["S".to_string()],
    );
    assert_eq!(
        shown,
        "\rFound 1 duplicate group(s) — potential savings: T\r\n\r\r\n\
         \r    1. N (2 copies, saves S)\r\n\r\r\n"
    );
}

#[test]
fn what_follows_on_the_summary() {
    let groups = vec![group(1, &["/a", "/b"])];
    assert_eq!(after_summary(&vec![], false), AfterSummary::Stop);
    assert_eq!(after_summary(&vec![], true), AfterSummary::Stop);
    assert_eq!(after_summary(&groups, true), AfterSummary::NoteDryRun);
    assert_eq!(after_summary(&groups, false), AfterSummary::Confirm);
}

#[test]
fn a_reclamation_prints_its_progress() {
    let mut c = ReclaimConsole::new();
    let print = c.on_message(ReclaimMessage::Progress { done: 1, total: 2, reclaimed: 1_500_000 });
    assert_eq!(print.text, format!("\r\x1b[KReclaiming: {} 1.5 MB — 1/2", bar(15)));
    assert!(!print.ended);
    let print = c.on_message(ReclaimMessage::Progress { done: 0, total: 0, reclaimed: 0 });
    assert_eq!(print.text, "");
    let print = c.on_message(ReclaimMessage::Error("Failed /x: no".to_string()));
    assert_eq!(print.text, "\r\x1b[K  ! Failed /x: no\r\n");
    assert!(!print.ended);
    let print = c.on_message(ReclaimMessage::Done { total_reclaimed: 999 });
    assert_eq!(
        print.text,
        format!(
            "\r\x1b[KReclaiming: {} done.\r\n\r✓  Reclaimed 999 B.\r\n\
             \r\r\n\r1 error(s):\r\n\r   • Failed /x: no\r\n",
            bar(30)
        )
    );
    assert!(print.ended);
}

#[test]
fn a_reclamation_without_errors() {
    let mut c = ReclaimConsole::new();
    let print = c.on_message_sized(ReclaimMessage::Done { total_reclaimed: 1 }, "SIZE");
    assert_eq!(
        print.text,
        format!("\r\x1b[KReclaiming: {} done.\r\n\r✓  Reclaimed SIZE.\r\n", bar(30))
    );
}

#[test]
fn sizes_are_told_as_by_bytesize() {
    for bytes in [
        0,
        1,
        999,
        1_000,
        1_023,
        1_024,
        1_048_575,
        1_048_577,
        1_100_000,
        123_456_789,
        1_073_741_825,
        1_099_511_627_777,
        1_125_899_906_842_625,
        1_152_921_504_606_846_977,
        u64::MAX,
    ] {
        let mut c = ReclaimConsole::new();
        let print = c.on_message(ReclaimMessage::Done { total_reclaimed: bytes });
        let expected = format!("Reclaimed {}.", bytesize::ByteSize(bytes));
        assert!(print.text.contains(&expected), "{}", expected);
    }
}

#[test]
fn sizes_change_their_unit_at_powers_of_1024() {
    for (bytes, shown) in [
        (999, "999 B"),
        (1_000, "1.0 KB"),
        (1_040_000, "1040.0 KB"),
        (1_060_000, "1.1 MB"),
        (1_070_000_000, "1070.0 MB"),
        (1_080_000_000, "1.1 GB"),
        (u64::MAX, "18.4 EB"),
    ] {
        let mut c = ReclaimConsole::new();
        let print = c.on_message(ReclaimMessage::Done { total_reclaimed: bytes });
        assert!(print.text.contains(&format!("Reclaimed {}.", shown)), "{}", print.text);
    }
}
