//! What a reclamation reports and touches as a whole.

use crate::reclaim;
use crate::reclaim::{ReclaimStepView, ReclaimerView};
use crate::tui;
use crate::types;
use crate::types::{FileGroupView, FileInfoView, ReclaimMessageView};
use vstd::prelude::*;

verus! {

/// How a replacement went: the bytes saved, or the words for what went wrong.
pub type Outcome = Result<u64, Seq<char>>;

/// Everything that is reported from a position on, given how the replacements go that are still
/// to be named.
pub open spec fn reports(at: ReclaimerView, outcomes: Seq<Outcome>) -> Seq<ReclaimMessageView>
    decreases
            at.queue.len() - at.group,
            at.queue[at.group].files.len() - at.target,
            (if at.ended {
                0int
            } else {
                1int
            }),
{
    match at.step() {
        ReclaimStepView::Finished => Seq::empty(),
        ReclaimStepView::Report(message) => seq![message] + reports(at.after_step(), outcomes),
        ReclaimStepView::Clone { source, target } => match outcomes.first() {
            Ok(saved) => reports(at.after_clone(saved as int), outcomes.drop_first()),
            Err(error) => seq![
                ReclaimMessageView::Error(reclaim::failure_text(target, error)),
            ] + reports(at.after_clone(0), outcomes.drop_first()),
        },
    }
}

/// The bytes saved by the replacements together.
pub open spec fn saved_by(outcomes: Seq<Outcome>) -> int
    decreases outcomes.len(),
{
    if outcomes.len() == 0 {
        0
    } else {
        (match outcomes.first() {
            Ok(saved) => saved as int,
            Err(_) => 0,
        }) + saved_by(outcomes.drop_first())
    }
}

/// The errors among the replacements of the files, one after another.
pub open spec fn errors_of(targets: Seq<FileInfoView>, outcomes: Seq<Outcome>) -> Seq<
    ReclaimMessageView,
>
    decreases targets.len(),
{
    if targets.len() == 0 {
        Seq::empty()
    } else {
        let rest = errors_of(targets.drop_first(), outcomes.drop_first());
        match outcomes.first() {
            Ok(_) => rest,
            Err(error) => seq![
                ReclaimMessageView::Error(reclaim::failure_text(targets.first().path, error)),
            ] + rest,
        }
    }
}

/// The targets of a group.
pub open spec fn targets_of(group: FileGroupView) -> Seq<FileInfoView> {
    group.files.skip(1)
}

/// The number of targets of the groups from position `k` on.
pub open spec fn targets_from(queue: Seq<FileGroupView>, k: int) -> nat
    decreases queue.len() - k,
{
    if k >= queue.len() {
        0
    } else {
        targets_of(queue[k]).len() + targets_from(queue, k + 1)
    }
}

/// The account of a reclamation from group `k` on, with `reclaimed` bytes saved before: for each
/// group the errors among its targets and then the progress, and the total at the end.
pub open spec fn account(
    queue: Seq<FileGroupView>,
    dry_run: bool,
    k: int,
    reclaimed: int,
    outcomes: Seq<Outcome>,
) -> Seq<ReclaimMessageView>
    decreases queue.len() - k,
{
    if k >= queue.len() {
        seq![ReclaimMessageView::Done { total_reclaimed: reclaimed as u64 }]
    } else {
        let targets = targets_of(queue[k]);
        let mine = if dry_run {
            Seq::empty()
        } else {
            outcomes.take(targets.len() as int)
        };
        let after = reclaimed + (if dry_run {
            types::target_bytes(queue[k]) as int
        } else {
            saved_by(mine)
        });
        let errors = if dry_run {
            Seq::empty()
        } else {
            errors_of(targets, mine)
        };
        let progress = ReclaimMessageView::Progress {
            done: (k + 1) as u64,
            total: queue.len() as u64,
            reclaimed: after as u64,
        };
        errors.push(progress) + account(
            queue,
            dry_run,
            k + 1,
            after,
            if dry_run {
                outcomes
            } else {
                outcomes.skip(targets.len() as int)
            },
        )
    }
}

/// From one target of a group to its end: the errors among the rest of its targets, and then
/// what the group's end reports.
proof fn lemma_rest_of_group(at: ReclaimerView, outcomes: Seq<Outcome>)
    requires
        at.wf(),
        !at.dry_run,
        at.group < at.queue.len(),
        outcomes.len() >= at.queue[at.group].files.len() - at.target,
    ensures
        ({
            let files = at.queue[at.group].files;
            let n = files.len() - at.target;
            let mine = outcomes.take(n);
            reports(at, outcomes) == errors_of(files.skip(at.target), mine) + reports(
                ReclaimerView {
                    target: files.len() as int,
                    reclaimed: at.reclaimed + saved_by(mine),
                    ..at
                },
                outcomes.skip(n),
            )
        }),
    decreases at.queue[at.group].files.len() - at.target,
{
    let files = at.queue[at.group].files;
    let n = files.len() - at.target;
    let mine = outcomes.take(n);
    let end = ReclaimerView {
        target: files.len() as int,
        reclaimed: at.reclaimed + saved_by(mine),
        ..at
    };
    if n == 0 {
        assert(files.skip(at.target) =~= Seq::empty());
        assert(mine =~= Seq::empty());
        assert(outcomes.skip(0) =~= outcomes);
        assert(end == at);
        assert(Seq::empty() + reports(at, outcomes) =~= reports(at, outcomes));
    } else {
        let saved = match outcomes.first() {
            Ok(saved) => saved as int,
            Err(_) => 0,
        };
        let later = at.after_clone(saved);
        let rest = outcomes.drop_first();
        lemma_rest_of_group(later, rest);
        assert(mine.first() == outcomes.first());
        assert(mine.drop_first() =~= rest.take(n - 1));
        assert(rest.skip(n - 1) =~= outcomes.skip(n));
        assert(files.skip(at.target).drop_first() =~= files.skip(at.target + 1));
        assert(files.skip(at.target).first() == files[at.target]);
        let tail = reports(end, outcomes.skip(n));
        let errors = errors_of(files.skip(at.target + 1), rest.take(n - 1));
        match outcomes.first() {
            Ok(_) => {},
            Err(error) => {
                let message = ReclaimMessageView::Error(
                    reclaim::failure_text(files[at.target].path, error),
                );
                assert(seq![message] + (errors + tail) =~= (seq![message] + errors) + tail);
            },
        }
    }
}

proof fn lemma_reports(at: ReclaimerView, outcomes: Seq<Outcome>)
    requires
        at.wf(),
        !at.ended,
        at.group < at.queue.len() ==> at.target == 1,
        !at.dry_run ==> outcomes.len() >= targets_from(at.queue, at.group),
    ensures
        reports(at, outcomes) == account(
            at.queue,
            at.dry_run,
            at.group,
            at.reclaimed,
            outcomes,
        ),
    decreases at.queue.len() - at.group,
{
    if at.group == at.queue.len() {
        let done = at.after_step();
        assert(reports(done, outcomes) =~= Seq::empty());
        assert(reports(at, outcomes) =~= account(
            at.queue,
            at.dry_run,
            at.group,
            at.reclaimed,
            outcomes,
        ));
    } else {
        let group = at.queue[at.group];
        let targets = targets_of(group);
        let n = targets.len() as int;
        if at.dry_run {
            let later = at.after_step();
            lemma_next_group_wf(at);
            lemma_reports(later, outcomes);
            let progress = at.step()->Report_0;
            let errors: Seq<ReclaimMessageView> = Seq::empty();
            assert(seq![progress] + reports(later, outcomes) =~= errors.push(progress) + reports(
                later,
                outcomes,
            ));
        } else {
            lemma_rest_of_group(at, outcomes);
            let mine = outcomes.take(n);
            let end = ReclaimerView {
                target: group.files.len() as int,
                reclaimed: at.reclaimed + saved_by(mine),
                ..at
            };
            let later = end.after_step();
            lemma_next_group_wf(end);
            lemma_reports(later, outcomes.skip(n));
            let progress = end.step()->Report_0;
            let errors = errors_of(targets, mine);
            let tail = reports(later, outcomes.skip(n));
            assert(errors + (seq![progress] + tail) =~= errors.push(progress) + tail);
        }
    }
}

proof fn lemma_next_group_wf(at: ReclaimerView)
    requires
        at.wf(),
        at.group < at.queue.len(),
        at.step() is Report,
    ensures
        at.after_step().wf(),
{
    let later = at.after_step();
    if later.group < later.queue.len() {
        assert(later.queue[later.group].files.len() > 0);
    }
    if at.dry_run {
        assert(at.queue.take(at.group + 1).drop_last() =~= at.queue.take(at.group));
    }
}

/// What a reclamation reports: for each selected group, in order, the errors among its targets
/// and then the progress, with the count of the groups so far and the bytes saved so far; and the
/// total at the end. In a dry run nothing is replaced, and every target counts as saved.
pub proof fn law_reports_give_account(
    groups: Seq<FileGroupView>,
    dry_run: bool,
    outcomes: Seq<Outcome>,
)
    requires
        reclaim::have_sources(reclaim::selected_groups(groups)),
        dry_run ==> reclaim::all_target_bytes(reclaim::selected_groups(groups)) <= u64::MAX,
        !dry_run ==> outcomes.len() >= targets_from(reclaim::selected_groups(groups), 0),
    ensures
        reports(reclaim::reclaim_start(groups, dry_run), outcomes) == account(
            reclaim::selected_groups(groups),
            dry_run,
            0,
            0,
            outcomes,
        ),
{
    let start = reclaim::reclaim_start(groups, dry_run);
    assert(start.queue.take(0) =~= Seq::empty());
    if start.queue.len() > 0 {
        assert(start.queue[0].files.len() > 0);
    }
    lemma_reports(start, outcomes);
}

proof fn lemma_dry_total(
    queue: Seq<FileGroupView>,
    k: int,
    outcomes: Seq<Outcome>,
)
    requires
        0 <= k <= queue.len(),
    ensures
        account(
            queue,
            true,
            k,
            reclaim::all_target_bytes(queue.take(k)) as int,
            outcomes,
        ).last() == (ReclaimMessageView::Done {
            total_reclaimed: reclaim::all_target_bytes(queue) as u64,
        }),
        account(queue, true, k, reclaim::all_target_bytes(queue.take(k)) as int, outcomes).len()
            > 0,
    decreases queue.len() - k,
{
    if k < queue.len() {
        assert(queue.take(k + 1).drop_last() =~= queue.take(k));
        lemma_dry_total(queue, k + 1, outcomes);
    } else {
        assert(queue.take(k) =~= queue);
    }
}

/// A dry run ends with the bytes of all targets of the selected groups, whatever would become of
/// the replacements.
pub proof fn law_dry_run_total(groups: Seq<FileGroupView>, outcomes: Seq<Outcome>)
    requires
        reclaim::have_sources(reclaim::selected_groups(groups)),
        reclaim::all_target_bytes(reclaim::selected_groups(groups)) <= u64::MAX,
    ensures
        reports(reclaim::reclaim_start(groups, true), outcomes).len() > 0,
        reports(reclaim::reclaim_start(groups, true), outcomes).last() == (
        ReclaimMessageView::Done {
            total_reclaimed: reclaim::all_target_bytes(reclaim::selected_groups(groups)) as u64,
        }),
{
    let queue = reclaim::selected_groups(groups);
    law_reports_give_account(groups, true, outcomes);
    assert(queue.take(0) =~= Seq::empty());
    lemma_dry_total(queue, 0, outcomes);
}

proof fn lemma_savings_are_bytes(groups: Seq<FileGroupView>)
    requires
        reclaim::all_target_bytes(groups) <= u64::MAX,
    ensures
        types::savings_sum(groups) == reclaim::all_target_bytes(groups),
    decreases groups.len(),
{
    if groups.len() > 0 {
        lemma_savings_are_bytes(groups.drop_last());
    }
}

/// A dry run ends with what the review says that the selected groups save.
pub proof fn law_dry_run_keeps_to_the_preview(
    groups: Seq<FileGroupView>,
    outcomes: Seq<Outcome>,
)
    requires
        reclaim::have_sources(reclaim::selected_groups(groups)),
        reclaim::all_target_bytes(reclaim::selected_groups(groups)) <= u64::MAX,
    ensures
        reports(reclaim::reclaim_start(groups, true), outcomes).last() == (
        ReclaimMessageView::Done { total_reclaimed: tui::selected_savings_sum(groups) as u64 }),
{
    law_dry_run_total(groups, outcomes);
    lemma_savings_are_bytes(reclaim::selected_groups(groups));
}

proof fn lemma_saved_split(outcomes: Seq<Outcome>, n: int)
    requires
        0 <= n <= outcomes.len(),
    ensures
        saved_by(outcomes) == saved_by(outcomes.take(n)) + saved_by(outcomes.skip(n)),
    decreases n,
{
    if n == 0 {
        assert(outcomes.take(0) =~= Seq::empty());
        assert(outcomes.skip(0) =~= outcomes);
    } else {
        lemma_saved_split(outcomes.drop_first(), n - 1);
        assert(outcomes.take(n).drop_first() =~= outcomes.drop_first().take(n - 1));
        assert(outcomes.drop_first().skip(n - 1) =~= outcomes.skip(n));
        assert(outcomes.take(n).first() == outcomes.first());
    }
}

proof fn lemma_real_total(
    queue: Seq<FileGroupView>,
    k: int,
    reclaimed: int,
    outcomes: Seq<Outcome>,
)
    requires
        0 <= k <= queue.len(),
        outcomes.len() == targets_from(queue, k),
    ensures
        account(queue, false, k, reclaimed, outcomes).len() > 0,
        account(queue, false, k, reclaimed, outcomes).last() == (ReclaimMessageView::Done {
            total_reclaimed: (reclaimed + saved_by(outcomes)) as u64,
        }),
    decreases queue.len() - k,
{
    if k < queue.len() {
        let n = targets_of(queue[k]).len() as int;
        lemma_saved_split(outcomes, n);
        lemma_real_total(
            queue,
            k + 1,
            reclaimed + saved_by(outcomes.take(n)),
            outcomes.skip(n),
        );
    }
}

/// A reclamation ends with the bytes that its replacements saved, failures counting nothing.
pub proof fn law_total_is_what_was_saved(groups: Seq<FileGroupView>, outcomes: Seq<Outcome>)
    requires
        reclaim::have_sources(reclaim::selected_groups(groups)),
        outcomes.len() == targets_from(reclaim::selected_groups(groups), 0),
    ensures
        reports(reclaim::reclaim_start(groups, false), outcomes).len() > 0,
        reports(reclaim::reclaim_start(groups, false), outcomes).last() == (
        ReclaimMessageView::Done { total_reclaimed: saved_by(outcomes) as u64 }),
{
    law_reports_give_account(groups, false, outcomes);
    lemma_real_total(reclaim::selected_groups(groups), 0, 0, outcomes);
}

/// Only targets of selected groups are replaced, each by a clone of the source of its group, and
/// in a dry run none.
pub proof fn law_only_selected_targets_are_replaced(
    groups: Seq<FileGroupView>,
    at: ReclaimerView,
)
    requires
        at.wf(),
        at.queue == reclaim::selected_groups(groups),
        at.step() is Clone,
    ensures
        !at.dry_run,
        exists|i: int, j: int|
            0 <= i < groups.len() && 1 <= j < groups[i].files.len() && groups[i].selected
                && at.step()->source == groups[i].files[0].path && at.step()->target == (
            #[trigger] groups[i].files[j]).path,
{
    let pred = |g: FileGroupView| g.selected;
    groups.lemma_filter_pred(pred, at.group);
    crate::funnel::lemma_filtered_is_member(groups, pred, at.group);
    let i = choose|i: int| 0 <= i < groups.len() && groups[i] == at.queue[at.group];
    assert(at.step()->target == groups[i].files[at.target].path);
}

// ---------------------------------------------------------------------------
// Sums and replacements, file by file
// ---------------------------------------------------------------------------

/// The selected groups are those that are selected, in their order: one more group is one more
/// where it is selected.
pub proof fn law_selection_goes_group_by_group(groups: Seq<FileGroupView>, group: FileGroupView)
    ensures
        reclaim::selected_groups(Seq::empty()) == Seq::<FileGroupView>::empty(),
        group.selected ==> reclaim::selected_groups(groups.push(group))
            == reclaim::selected_groups(groups).push(group),
        !group.selected ==> reclaim::selected_groups(groups.push(group))
            == reclaim::selected_groups(groups),
{
    reveal(Seq::filter);
    assert(groups.push(group).drop_last() =~= groups);
}

/// The size of a group, added once for each file but the first.
pub open spec fn sizes_added(size: u64, files: Seq<FileInfoView>, start: int) -> int {
    files.skip(1).fold_left(start, |sum: int, file: FileInfoView| sum + size)
}

/// The sizes of all targets of selected groups, added up one by one.
pub open spec fn all_sizes_added(groups: Seq<FileGroupView>) -> int {
    groups.fold_left(
        0,
        |sum: int, group: FileGroupView|
            if group.selected {
                sizes_added(group.size, group.files, sum)
            } else {
                sum
            },
    )
}

proof fn lemma_fold_size(files: Seq<FileInfoView>, size: u64, start: int)
    ensures
        files.fold_left(start, |sum: int, file: FileInfoView| sum + size) == start + size
            * files.len(),
    decreases files.len(),
{
    if files.len() > 0 {
        let n = files.len();
        lemma_fold_size(files.drop_last(), size, start);
        assert(size * n == size * (n - 1) + size) by (nonlinear_arith);
    } else {
        assert(size * files.len() == 0) by (nonlinear_arith)
            requires
                files.len() == 0,
        ;
    }
}

proof fn lemma_all_sizes_added(groups: Seq<FileGroupView>)
    requires
        reclaim::have_sources(reclaim::selected_groups(groups)),
    ensures
        all_sizes_added(groups) == reclaim::all_target_bytes(reclaim::selected_groups(groups)),
    decreases groups.len(),
{
    reveal(Seq::filter);
    if groups.len() > 0 {
        let rest = groups.drop_last();
        let last = groups.last();
        let kept = reclaim::selected_groups(rest);
        law_selection_goes_group_by_group(rest, last);
        assert(rest.push(last) =~= groups);
        let all = reclaim::selected_groups(groups);
        assert forall|k: int| 0 <= k < kept.len() implies (#[trigger] kept[k]).files.len() > 0 by {
            assert(all[k] == kept[k]);
        }
        lemma_all_sizes_added(rest);
        if last.selected {
            assert(all[kept.len() as int] == last);
            assert(all.drop_last() =~= kept);
            lemma_fold_size(last.files.skip(1), last.size, all_sizes_added(rest));
            assert(last.files.skip(1).len() == last.files.len() - 1);
            assert(types::target_bytes(last) == last.size * (last.files.len() - 1)) by {
                assert(last.size as nat * (last.files.len() - 1) as nat == last.size * (
                last.files.len() - 1));
            }
        }
    } else {
        assert(reclaim::selected_groups(groups) =~= Seq::empty());
    }
}

/// A dry run ends with the size of every target of every selected group, added up file by file.
pub proof fn law_dry_run_adds_up_the_targets(groups: Seq<FileGroupView>, outcomes: Seq<Outcome>)
    requires
        reclaim::have_sources(reclaim::selected_groups(groups)),
        reclaim::all_target_bytes(reclaim::selected_groups(groups)) <= u64::MAX,
    ensures
        reports(reclaim::reclaim_start(groups, true), outcomes).last() == (
        ReclaimMessageView::Done { total_reclaimed: all_sizes_added(groups) as u64 }),
        0 <= all_sizes_added(groups) <= u64::MAX,
{
    law_dry_run_total(groups, outcomes);
    lemma_all_sizes_added(groups);
}

/// The bytes of the selected targets are the sizes of the targets, added up file by file.
pub proof fn law_target_bytes_are_sizes(groups: Seq<FileGroupView>)
    requires
        reclaim::have_sources(reclaim::selected_groups(groups)),
    ensures
        all_sizes_added(groups) == reclaim::all_target_bytes(reclaim::selected_groups(groups)),
{
    lemma_all_sizes_added(groups);
}

/// The replacements that are named from a position on, each as source and target, given how they
/// go.
pub open spec fn replacements(at: ReclaimerView, outcomes: Seq<Outcome>) -> Seq<
    (Seq<u8>, Seq<u8>),
>
    decreases
            at.queue.len() - at.group,
            at.queue[at.group].files.len() - at.target,
            (if at.ended {
                0int
            } else {
                1int
            }),
{
    match at.step() {
        ReclaimStepView::Finished => Seq::empty(),
        ReclaimStepView::Report(_) => replacements(at.after_step(), outcomes),
        ReclaimStepView::Clone { source, target } => seq![(source, target)] + replacements(
            at.after_clone(
                match outcomes.first() {
                    Ok(saved) => saved as int,
                    Err(_) => 0,
                },
            ),
            outcomes.drop_first(),
        ),
    }
}

/// Each file from position `t` on with the first file of the group.
pub open spec fn pairs_from(files: Seq<FileInfoView>, t: int) -> Seq<(Seq<u8>, Seq<u8>)> {
    files.skip(t).map_values(|file: FileInfoView| (files[0].path, file.path))
}

/// The targets of the groups from position `k` on, each with its source.
pub open spec fn all_pairs(queue: Seq<FileGroupView>, k: int) -> Seq<(Seq<u8>, Seq<u8>)>
    decreases queue.len() - k,
{
    if k >= queue.len() {
        Seq::empty()
    } else {
        pairs_from(queue[k].files, 1) + all_pairs(queue, k + 1)
    }
}

proof fn lemma_replacements(at: ReclaimerView, outcomes: Seq<Outcome>)
    requires
        at.wf(),
        !at.dry_run,
        !at.ended,
    ensures
        replacements(at, outcomes) == (if at.group < at.queue.len() {
            pairs_from(at.queue[at.group].files, at.target) + all_pairs(at.queue, at.group + 1)
        } else {
            Seq::empty()
        }),
    decreases
            at.queue.len() - at.group,
            (if at.group < at.queue.len() {
                at.queue[at.group].files.len() - at.target
            } else {
                0
            }),
{
    if at.group < at.queue.len() {
        let files = at.queue[at.group].files;
        if at.target < files.len() {
            let saved = match outcomes.first() {
                Ok(saved) => saved as int,
                Err(_) => 0,
            };
            lemma_replacements(at.after_clone(saved), outcomes.drop_first());
            let pair = (files[0].path, files[at.target].path);
            assert(pairs_from(files, at.target) =~= seq![pair] + pairs_from(
                files,
                at.target + 1,
            ));
            assert(replacements(at, outcomes) =~= pairs_from(files, at.target) + all_pairs(
                at.queue,
                at.group + 1,
            ));
        } else {
            lemma_next_group_wf(at);
            lemma_replacements(at.after_step(), outcomes);
            assert(pairs_from(files, at.target) =~= Seq::empty());
            assert(replacements(at, outcomes) =~= pairs_from(files, at.target) + all_pairs(
                at.queue,
                at.group + 1,
            ));
        }
    } else {
        let done = at.after_step();
        assert(replacements(done, outcomes) =~= Seq::empty());
    }
}

/// Every target of every selected group is named once for replacement by a clone of the first
/// file of its group, group by group and file by file, however earlier replacements went.
pub proof fn law_every_selected_target_is_replaced(
    groups: Seq<FileGroupView>,
    outcomes: Seq<Outcome>,
)
    requires
        reclaim::have_sources(reclaim::selected_groups(groups)),
    ensures
        replacements(reclaim::reclaim_start(groups, false), outcomes) == all_pairs(
            reclaim::selected_groups(groups),
            0,
        ),
{
    let start = reclaim::reclaim_start(groups, false);
    if start.queue.len() > 0 {
        assert(start.queue[0].files.len() > 0);
    }
    lemma_replacements(start, outcomes);
    assert(all_pairs(start.queue, 0) =~= replacements(start, outcomes));
}

/// A target that could not be replaced is told with its path and the words for what went wrong.
pub proof fn law_failures_name_their_target(target: Seq<u8>, error: Seq<char>)
    ensures
        reclaim::failure_text(target, error) == "Failed "@ + crate::text::lossy_text(target)
            + ": "@ + error,
{
}

/// Groups have sources where each holds a file, however many there are.
pub proof fn law_sources_are_first_files(groups: Seq<FileGroupView>)
    ensures
        reclaim::have_sources(groups) <==> forall|i: int|
            0 <= i < groups.len() ==> (#[trigger] groups[i]).files.len() != 0,
{
}

/// A reclamation starts with the selected groups, at the first target of the first of them, with
/// nothing saved.
pub proof fn law_start_of_a_reclamation(groups: Seq<FileGroupView>, dry_run: bool)
    ensures
        ({
            let start = reclaim::reclaim_start(groups, dry_run);
            &&& start.queue == groups.filter(|g: FileGroupView| g.selected)
            &&& start.dry_run == dry_run
            &&& start.group == 0 && start.target == 1
            &&& start.reclaimed == 0 && !start.ended
        }),
{
}

} // verus!
