//! Reclaiming groups and replacing single files.

use macdedup::path::FilePath;
use macdedup::reclaim::{
    failure_message_for, selected_have_sources, selected_target_bytes, ReclaimStep, Reclaimer,
};
use macdedup::replace::{
    temp_path, temp_path_named, CloneAction, CloneError, CloneEvent, CloneJob, CloneState,
    StatFacts,
};
use macdedup::tui::ReviewState;
use macdedup::types::{FileGroup, FileInfo, ReclaimMessage};
use macdedup::xattrs::{swap_xattrs, ReadAttr, XattrOp};

fn path(text: &str) -> FilePath {
    FilePath::new(text.as_bytes().to_vec())
}

fn group(size: u64, paths: &[&str], selected: bool) -> FileGroup {
    let files = paths
        .iter()
        .map(|p| FileInfo { path: path(p), size, inode: 1, device: 1 })
        .collect();
    FileGroup { size, files, selected }
}

// Groups

/// Runs a reclamation; `saved` tells how the replacement of each target goes.
fn run(
    groups: Vec<FileGroup>,
    dry_run: bool,
    saved: &dyn Fn(&str) -> Result<u64, String>,
) -> Vec<String> {
    let mut log: Vec<String> = vec![];
    let mut reclaimer = Reclaimer::new(groups, dry_run);
    loop {
        match reclaimer.next() {
            ReclaimStep::Clone { source, target } => {
                log.push(format!("clone {} {}", source.display(), target.display()));
                if let Some(message) = reclaimer.outcome(saved(&target.display())) {
                    log.push(format!("{:?}", message));
                }
            }
            ReclaimStep::Report(message) => log.push(format!("{:?}", message)),
            ReclaimStep::Finished => return log,
        }
    }
}

#[test]
fn selected_groups_are_reclaimed_in_order() {
    let groups = vec![
        group(10, &["/a", "/b", "/c"], true),
        group(20, &["/d", "/e"], false),
        group(30, &["/f", "/g"], true),
    ];
    let log = run(groups, false, &|target| match target {
        "/b" => Ok(10),
        "/c" => Err("no".to_string()),
        _ => Ok(31),
    });
    assert_eq!(
        log,
        [
            "clone /a /b",
            "clone /a /c",
            "Error(\"Failed /c: no\")",
            "Progress { done: 1, total: 2, reclaimed: 10 }",
            "clone /f /g",
            "Progress { done: 2, total: 2, reclaimed: 41 }",
            "Done { total_reclaimed: 41 }",
        ]
    );
}

#[test]
fn a_dry_run_touches_nothing_and_counts_all_targets() {
    let groups = vec![
        group(10, &["/a", "/b", "/c"], true),
        group(20, &["/d", "/e"], false),
        group(30, &["/f", "/g"], true),
    ];
    let log = run(groups, true, &|_| panic!("a target was replaced"));
    assert_eq!(
        log,
        [
            "Progress { done: 1, total: 2, reclaimed: 20 }",
            "Progress { done: 2, total: 2, reclaimed: 50 }",
            "Done { total_reclaimed: 50 }",
        ]
    );
}

#[test]
fn a_dry_run_keeps_to_the_preview() {
    let groups = vec![
        group(10, &["/a", "/b", "/c"], true),
        group(20, &["/d", "/e"], false),
        group(30, &["/f", "/g"], true),
    ];
    let state = ReviewState::new(groups, true);
    assert_eq!(state.selected_savings(), 50);
    let log = run(state.groups, true, &|_| Ok(0));
    assert_eq!(log.last().unwrap(), "Done { total_reclaimed: 50 }");
}

#[test]
fn nothing_selected_ends_at_once() {
    let log = run(vec![group(10, &["/a", "/b"], false)], false, &|_| Ok(1));
    assert_eq!(log, ["Done { total_reclaimed: 0 }"]);
    let log = run(vec![], true, &|_| Ok(1));
    assert_eq!(log, ["Done { total_reclaimed: 0 }"]);
}

#[test]
fn a_group_of_one_file_is_only_reported() {
    let log = run(vec![group(10, &["/a"], true)], false, &|_| Ok(1));
    assert_eq!(
        log,
        ["Progress { done: 1, total: 1, reclaimed: 0 }", "Done { total_reclaimed: 0 }"]
    );
}

#[test]
fn a_finished_reclamation_stays_finished() {
    let mut reclaimer = Reclaimer::new(vec![], false);
    assert!(matches!(
        reclaimer.next(),
        ReclaimStep::Report(ReclaimMessage::Done { total_reclaimed: 0 })
    ));
    assert!(matches!(reclaimer.next(), ReclaimStep::Finished));
    assert!(matches!(reclaimer.next(), ReclaimStep::Finished));
}

#[test]
fn bytes_of_the_selected_targets() {
    let groups = vec![group(10, &["/a", "/b", "/c"], true), group(20, &["/d", "/e"], false)];
    assert_eq!(selected_target_bytes(&groups), Some(20));
    let groups = vec![group(u64::MAX, &["/a", "/b"], true)];
    assert_eq!(selected_target_bytes(&groups), Some(u64::MAX));
    let groups = vec![group(u64::MAX, &["/a", "/b", "/c"], true)];
    assert_eq!(selected_target_bytes(&groups), None);
    let groups = vec![group(u64::MAX, &["/a", "/b"], true), group(1, &["/c", "/d"], true)];
    assert_eq!(selected_target_bytes(&groups), None);
}

#[test]
fn sources_of_the_selected_groups() {
    assert!(selected_have_sources(&vec![group(1, &["/a"], true), group(1, &[], false)]));
    assert!(!selected_have_sources(&vec![group(1, &["/a"], true), group(1, &[], true)]));
}

#[test]
fn words_for_a_failure() {
    assert_eq!(failure_message_for("/x", "set ownership"), "Failed /x: set ownership");
}

// Single files

fn facts(device: u64, size: u64, flags: u32) -> StatFacts {
    StatFacts { device, size, flags }
}

fn show(action: &CloneAction) -> String {
    match action {
        CloneAction::Stat { path } => format!("stat {}", path.display()),
        CloneAction::MakeClone { from, to } => format!("clone {} {}", from.display(), to.display()),
        CloneAction::CopyXattrs { from, to } => {
            format!("xattrs {} {}", from.display(), to.display())
        }
        CloneAction::SetPermissions { from, to } => {
            format!("mode {} {}", from.display(), to.display())
        }
        CloneAction::SetOwnership { from, to } => {
            format!("owner {} {}", from.display(), to.display())
        }
        CloneAction::SetTimes { from, to } => format!("times {} {}", from.display(), to.display()),
        CloneAction::Rename { from, to } => format!("rename {} {}", from.display(), to.display()),
        CloneAction::SetFlags { path, flags } => format!("flags {} {}", path.display(), flags),
        CloneAction::Remove { path } => format!("remove {}", path.display()),
        CloneAction::Finish { outcome } => format!("finish {:?}", outcome),
    }
}

/// Runs a replacement in which the `fails`-th action fails, if there is one.
fn replace(source: StatFacts, target: StatFacts, fails: Option<usize>) -> Vec<String> {
    let mut job = CloneJob::new(&path("/d/src"), &path("/d/tgt"), 42);
    let mut log: Vec<String> = vec![];
    loop {
        let action = job.action();
        log.push(show(&action));
        if matches!(action, CloneAction::Finish { .. }) {
            return log;
        }
        let event = if fails == Some(log.len() - 1) {
            CloneEvent::Failed
        } else {
            match job.state {
                CloneState::StatSource => CloneEvent::Stat(source),
                CloneState::StatTarget { .. } => CloneEvent::Stat(target),
                _ => CloneEvent::Done,
            }
        };
        job.advance(event);
    }
}

#[test]
fn a_replacement_goes_through_all_steps() {
    let log = replace(facts(1, 9, 0), facts(1, 8, 0), None);
    assert_eq!(
        log,
        [
            "stat /d/src",
            "stat /d/tgt",
            "clone /d/src /d/tgt.mdd_tmp_42",
            "xattrs /d/tgt /d/tgt.mdd_tmp_42",
            "owner /d/tgt /d/tgt.mdd_tmp_42",
            "mode /d/tgt /d/tgt.mdd_tmp_42",
            "times /d/tgt /d/tgt.mdd_tmp_42",
            "rename /d/tgt.mdd_tmp_42 /d/tgt",
            "finish Ok(8)",
        ]
    );
}

#[test]
fn the_flags_of_the_target_are_set_after_the_renaming() {
    let log = replace(facts(1, 9, 0), facts(1, 9, 0x8000), None);
    assert_eq!(log[7..], ["rename /d/tgt.mdd_tmp_42 /d/tgt", "flags /d/tgt 32768", "finish Ok(9)"]);
    let log = replace(facts(1, 9, 0x8000), facts(1, 9, 0), None);
    assert_eq!(log[8..], ["flags /d/tgt 0", "finish Ok(9)"]);
}

#[test]
fn flags_that_cannot_be_set_do_no_harm() {
    let log = replace(facts(1, 9, 0), facts(1, 9, 0x8000), Some(8));
    assert_eq!(log[8..], ["flags /d/tgt 32768", "finish Ok(9)"]);
}

#[test]
fn attributes_that_cannot_be_copied_do_no_harm() {
    let log = replace(facts(1, 9, 0), facts(1, 9, 0), Some(3));
    assert_eq!(log.last().unwrap(), "finish Ok(9)");
}

#[test]
fn a_file_that_cannot_be_read_ends_the_replacement() {
    let log = replace(facts(1, 9, 0), facts(1, 9, 0), Some(0));
    assert_eq!(log, ["stat /d/src", "finish Err(\"Cannot stat source: /d/src\")"]);
    let log = replace(facts(1, 9, 0), facts(1, 9, 0), Some(1));
    assert_eq!(log[1..], ["stat /d/tgt", "finish Err(\"Cannot stat target: /d/tgt\")"]);
}

#[test]
fn volumes_must_be_the_same() {
    let log = replace(facts(1, 9, 0), facts(2, 9, 0), None);
    assert_eq!(
        log[1..],
        [
            "stat /d/tgt",
            "finish Err(\"source and target are on different volumes (APFS clones must be on the \
             same volume)\")"
        ]
    );
}

#[test]
fn a_clone_that_cannot_be_made_leaves_nothing_to_remove() {
    let log = replace(facts(1, 9, 0), facts(1, 9, 0), Some(2));
    assert_eq!(
        log[2..],
        [
            "clone /d/src /d/tgt.mdd_tmp_42",
            "finish Err(\"APFS clonefile failed: /d/src -> /d/tgt.mdd_tmp_42\")"
        ]
    );
}

#[test]
fn a_failure_after_the_clone_removes_it() {
    for (step, message) in [
        (4, "set ownership"),
        (5, "set permissions"),
        (6, "set timestamps"),
        (7, "rename /d/tgt.mdd_tmp_42 -> /d/tgt"),
    ] {
        let log = replace(facts(1, 9, 0), facts(1, 9, 0), Some(step));
        assert_eq!(log.len(), step + 3);
        assert_eq!(log[step + 1], "remove /d/tgt.mdd_tmp_42");
        assert_eq!(log[step + 2], format!("finish Err({:?})", message));
    }
}

#[test]
fn the_source_is_only_read() {
    for fails in 0..9 {
        for line in replace(facts(1, 9, 3), facts(1, 9, 5), Some(fails)) {
            if line.contains("/d/src") {
                assert!(
                    line == "stat /d/src"
                        || line == "clone /d/src /d/tgt.mdd_tmp_42"
                        || line.starts_with("finish"),
                    "{}",
                    line
                );
            }
        }
    }
}

#[test]
fn words_for_every_error() {
    let job = CloneJob::new(&path("/s"), &path("/t"), 1);
    assert_eq!(job.error_message(CloneError::StatSource), "Cannot stat source: /s");
    assert_eq!(job.error_message(CloneError::StatTarget), "Cannot stat target: /t");
    assert_eq!(
        job.error_message(CloneError::DifferentVolumes),
        "source and target are on different volumes (APFS clones must be on the same volume)"
    );
    assert_eq!(
        job.error_message(CloneError::MakeClone),
        "APFS clonefile failed: /s -> /t.mdd_tmp_1"
    );
    assert_eq!(job.error_message(CloneError::SetPermissions), "set permissions");
    assert_eq!(job.error_message(CloneError::SetOwnership), "set ownership");
    assert_eq!(job.error_message(CloneError::SetTimes), "set timestamps");
    assert_eq!(job.error_message(CloneError::Rename), "rename /t.mdd_tmp_1 -> /t");
}

#[test]
fn temporary_paths() {
    assert_eq!(temp_path(&path("/a/b.txt"), 7).bytes, b"/a/b.txt.mdd_tmp_7");
    assert_eq!(temp_path(&path("b"), 0).bytes, b"b.mdd_tmp_0");
    assert_eq!(temp_path(&path("/"), 7).bytes, b"/.mdd_tmp_7");
    let odd = FilePath::new(vec![47, 255, 97]);
    assert_eq!(temp_path(&odd, 7).display(), "/\u{fffd}a.mdd_tmp_7");
    assert_eq!(temp_path_named(&path("/a/b"), "x", 12).bytes, b"/a/x.mdd_tmp_12");
}

// Extended attributes

#[test]
fn attributes_are_removed_then_set() {
    let ops = swap_xattrs(
        vec![b"p".to_vec(), b"q".to_vec()],
        vec![
            ReadAttr { name: b"q".to_vec(), value: Some(b"1".to_vec()) },
            ReadAttr { name: b"r".to_vec(), value: None },
            ReadAttr { name: b"s".to_vec(), value: Some(vec![]) },
        ],
    );
    let shown: Vec<String> = ops
        .iter()
        .map(|op| match op {
            XattrOp::Remove { name } => format!("-{}", String::from_utf8_lossy(name)),
            XattrOp::Assign { name, value } => {
                format!("+{}={:?}", String::from_utf8_lossy(name), value)
            }
        })
        .collect();
    assert_eq!(shown, ["-p", "-q", "+q=[49]", "+s=[]"]);
}

#[test]
fn no_attributes_no_changes() {
    assert!(swap_xattrs(vec![], vec![]).is_empty());
}
