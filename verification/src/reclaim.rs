//! Reclaiming the space of the targets of the selected groups.
//!
//! A [`Reclaimer`] goes through the selected groups in order. It names one target after another
//! that is to be replaced by a clone of its source, takes in how each replacement went, and
//! reports.

use crate::path::FilePath;
use crate::sort;
use crate::text;
use crate::types;
use crate::types::{FileGroup, FileGroupView, ReclaimMessage, ReclaimMessageView};
use vstd::prelude::*;

verus! {

/// The groups that are selected, in order.
pub open spec fn selected_groups(groups: Seq<FileGroupView>) -> Seq<FileGroupView> {
    groups.filter(|g: FileGroupView| g.selected)
}

/// The bytes of the targets of all groups together.
pub open spec fn all_target_bytes(groups: Seq<FileGroupView>) -> nat
    decreases groups.len(),
{
    if groups.len() == 0 {
        0
    } else {
        all_target_bytes(groups.drop_last()) + types::target_bytes(groups.last())
    }
}

/// Every group has a source.
pub open spec fn have_sources(groups: Seq<FileGroupView>) -> bool {
    forall|i: int| 0 <= i < groups.len() ==> (#[trigger] groups[i]).files.len() > 0
}

/// The words for a target that could not be replaced.
pub open spec fn failure_text(target: Seq<u8>, error: Seq<char>) -> Seq<char> {
    "Failed "@ + text::lossy_text(target) + ": "@ + error
}

/// The words for a target that could not be replaced, from its path as text.
pub fn failure_message_for(target: &str, error: &str) -> (message: String)
    ensures
        message@ == "Failed "@ + target@ + ": "@ + error@,
{
    let mut message = "Failed ".to_string();
    message.append(target);
    message.append(": ");
    message.append(error);
    message
}

/// What is to be done next.
#[derive(Debug)]
pub enum ReclaimStep {
    /// Replace `target` by a clone of `source`, then call [`Reclaimer::outcome`].
    Clone { source: FilePath, target: FilePath },
    /// Pass the message on.
    Report(ReclaimMessage),
    /// Nothing is left to do.
    Finished,
}

/// The mathematical value of a [`ReclaimStep`].
pub enum ReclaimStepView {
    Clone { source: Seq<u8>, target: Seq<u8> },
    Report(ReclaimMessageView),
    Finished,
}

impl View for ReclaimStep {
    type V = ReclaimStepView;

    open spec fn view(&self) -> ReclaimStepView {
        match self {
            ReclaimStep::Clone { source, target } => ReclaimStepView::Clone {
                source: source@,
                target: target@,
            },
            ReclaimStep::Report(message) => ReclaimStepView::Report(message@),
            ReclaimStep::Finished => ReclaimStepView::Finished,
        }
    }
}

/// How far a reclamation has come.
#[derive(Debug)]
pub struct Reclaimer {
    /// The selected groups.
    pub queue: Vec<FileGroup>,
    pub dry_run: bool,
    /// The group that is being worked on.
    pub group: usize,
    /// The file of that group that is to be replaced next.
    pub target: usize,
    /// The bytes saved so far.
    pub reclaimed: u64,
    /// Whether the end has been reported.
    pub ended: bool,
}

/// The mathematical value of a [`Reclaimer`].
pub struct ReclaimerView {
    pub queue: Seq<FileGroupView>,
    pub dry_run: bool,
    pub group: int,
    pub target: int,
    pub reclaimed: int,
    pub ended: bool,
}

impl View for Reclaimer {
    type V = ReclaimerView;

    open spec fn view(&self) -> ReclaimerView {
        ReclaimerView {
            queue: types::group_views(self.queue@),
            dry_run: self.dry_run,
            group: self.group as int,
            target: self.target as int,
            reclaimed: self.reclaimed as int,
            ended: self.ended,
        }
    }
}

impl ReclaimerView {
    /// The position is one that a reclamation comes through, and what a dry run is still to add
    /// fits in a `u64`.
    pub open spec fn wf(self) -> bool {
        &&& have_sources(self.queue)
        &&& 0 <= self.group <= self.queue.len()
        &&& self.group < self.queue.len() ==> 1 <= self.target
            <= self.queue[self.group].files.len()
        &&& self.ended ==> self.group == self.queue.len()
        &&& self.dry_run ==> {
            &&& self.target == 1
            &&& self.reclaimed == all_target_bytes(self.queue.take(self.group))
            &&& all_target_bytes(self.queue) <= u64::MAX
        }
    }

    /// The bytes saved once the current group is complete: in a dry run all of its targets
    /// count.
    pub open spec fn reclaimed_after_group(self) -> int {
        if self.dry_run {
            self.reclaimed + types::target_bytes(self.queue[self.group])
        } else {
            self.reclaimed
        }
    }

    /// What is to be done next.
    pub open spec fn step(self) -> ReclaimStepView {
        if self.group < self.queue.len() {
            let group = self.queue[self.group];
            if !self.dry_run && self.target < group.files.len() {
                ReclaimStepView::Clone {
                    source: group.files[0].path,
                    target: group.files[self.target].path,
                }
            } else {
                ReclaimStepView::Report(
                    ReclaimMessageView::Progress {
                        done: (self.group + 1) as u64,
                        total: self.queue.len() as u64,
                        reclaimed: self.reclaimed_after_group() as u64,
                    },
                )
            }
        } else if !self.ended {
            ReclaimStepView::Report(
                ReclaimMessageView::Done { total_reclaimed: self.reclaimed as u64 },
            )
        } else {
            ReclaimStepView::Finished
        }
    }

    /// The position after the next step has been named: a report is done with, a replacement is
    /// waited for.
    pub open spec fn after_step(self) -> ReclaimerView {
        if self.group < self.queue.len() {
            if self.step() is Clone {
                self
            } else {
                ReclaimerView {
                    group: self.group + 1,
                    target: 1,
                    reclaimed: self.reclaimed_after_group(),
                    ..self
                }
            }
        } else {
            ReclaimerView { ended: true, ..self }
        }
    }

    /// The position after a replacement that saved so many bytes.
    pub open spec fn after_clone(self, saved: int) -> ReclaimerView {
        ReclaimerView { target: self.target + 1, reclaimed: self.reclaimed + saved, ..self }
    }
}

/// The position at the start.
pub open spec fn reclaim_start(groups: Seq<FileGroupView>, dry_run: bool) -> ReclaimerView {
    ReclaimerView {
        queue: selected_groups(groups),
        dry_run,
        group: 0,
        target: 1,
        reclaimed: 0,
        ended: false,
    }
}

proof fn lemma_bytes_prefix(groups: Seq<FileGroupView>, i: int)
    requires
        0 <= i < groups.len(),
    ensures
        all_target_bytes(groups.take(i + 1)) == all_target_bytes(groups.take(i))
            + types::target_bytes(groups[i]),
        all_target_bytes(groups.take(i + 1)) <= all_target_bytes(groups),
    decreases groups.len() - i,
{
    assert(groups.take(i + 1).drop_last() =~= groups.take(i));
    if i + 1 < groups.len() {
        lemma_bytes_prefix(groups, i + 1);
    } else {
        assert(groups.take(i + 1) =~= groups);
    }
}

/// The bytes of the targets of the selected groups, unless they are more than a `u64` holds.
pub fn selected_target_bytes(groups: &Vec<FileGroup>) -> (total: Option<u64>)
    ensures
        match total {
            Some(total) => total as nat == all_target_bytes(
                selected_groups(types::group_views(groups@)),
            ),
            None => all_target_bytes(selected_groups(types::group_views(groups@))) > u64::MAX,
        },
{
    let ghost views = types::group_views(groups@);
    let mut total: u64 = 0;
    let mut i: usize = 0;
    proof {
        reveal(Seq::filter);
        assert(selected_groups(views.take(0)) =~= Seq::empty());
    }
    while i < groups.len()
        invariant
            i <= groups@.len(),
            views == types::group_views(groups@),
            total as nat == all_target_bytes(selected_groups(views.take(i as int))),
        decreases groups.len() - i,
    {
        let group = &groups[i];
        proof {
            assert(views[i as int] == group@);
            lemma_selected_push(views, i as int);
        }
        if group.selected {
            proof {
                lemma_selected_prefix_bytes(views, i + 1);
            }
            let targets: u64 = group.files.len().saturating_sub(1) as u64;
            assert(types::target_bytes(group@) == group.size as nat * targets as nat);
            match group.size.checked_mul(targets) {
                Some(bytes) => match total.checked_add(bytes) {
                    Some(sum) => {
                        total = sum;
                    },
                    None => {
                        return None;
                    },
                },
                None => {
                    return None;
                },
            }
        }
        i += 1;
    }
    assert(views.take(i as int) =~= views);
    Some(total)
}

/// One more group adds its targets where it is selected.
proof fn lemma_selected_push(groups: Seq<FileGroupView>, i: int)
    requires
        0 <= i < groups.len(),
    ensures
        selected_groups(groups.take(i + 1)) == (if groups[i].selected {
            selected_groups(groups.take(i)).push(groups[i])
        } else {
            selected_groups(groups.take(i))
        }),
        all_target_bytes(selected_groups(groups.take(i + 1))) == all_target_bytes(
            selected_groups(groups.take(i)),
        ) + (if groups[i].selected {
            types::target_bytes(groups[i])
        } else {
            0
        }),
{
    reveal(Seq::filter);
    let before = selected_groups(groups.take(i));
    assert(groups.take(i + 1).drop_last() =~= groups.take(i));
    assert(groups.take(i + 1).last() == groups[i]);
    if groups[i].selected {
        assert(before.push(groups[i]).drop_last() =~= before);
    }
}

proof fn lemma_selected_prefix_bytes(groups: Seq<FileGroupView>, i: int)
    requires
        0 <= i <= groups.len(),
    ensures
        all_target_bytes(selected_groups(groups.take(i))) <= all_target_bytes(
            selected_groups(groups),
        ),
    decreases groups.len() - i,
{
    if i < groups.len() {
        lemma_selected_push(groups, i);
        lemma_selected_prefix_bytes(groups, i + 1);
    } else {
        assert(groups.take(i) =~= groups);
    }
}

/// Whether every selected group has a source.
pub fn selected_have_sources(groups: &Vec<FileGroup>) -> (yes: bool)
    ensures
        yes == have_sources(selected_groups(types::group_views(groups@))),
{
    let ghost views = types::group_views(groups@);
    let mut i: usize = 0;
    proof {
        reveal(Seq::filter);
        assert(selected_groups(views.take(0)) =~= Seq::empty());
    }
    while i < groups.len()
        invariant
            i <= groups@.len(),
            views == types::group_views(groups@),
            have_sources(selected_groups(views.take(i as int))),
        decreases groups.len() - i,
    {
        proof {
            assert(views[i as int] == groups@[i as int]@);
            lemma_selected_push(views, i as int);
        }
        let ghost before = selected_groups(views.take(i as int));
        let ghost after = selected_groups(views.take(i + 1));
        if groups[i].selected && groups[i].files.len() == 0 {
            proof {
                let pred = |g: FileGroupView| g.selected;
                views.lemma_filter_contains(pred, i as int);
                let k = choose|k: int|
                    0 <= k < selected_groups(views).len() && selected_groups(views)[k]
                        == views[i as int];
                assert(selected_groups(views)[k].files.len() == 0);
            }
            return false;
        }
        proof {
            assert forall|k: int| 0 <= k < after.len() implies (#[trigger] after[k]).files.len()
                > 0 by {
                if k < before.len() {
                    assert(after[k] == before[k]);
                } else {
                    assert(after[k] == views[i as int]);
                }
            }
        }
        i += 1;
    }
    assert(views.take(i as int) =~= views);
    true
}

impl Reclaimer {
    /// Before the first step.
    pub fn new(groups: Vec<FileGroup>, dry_run: bool) -> (reclaimer: Reclaimer)
        requires
            have_sources(selected_groups(types::group_views(groups@))),
            dry_run ==> all_target_bytes(selected_groups(types::group_views(groups@)))
                <= u64::MAX,
        ensures
            reclaimer@.wf(),
            reclaimer@ == reclaim_start(types::group_views(groups@), dry_run),
    {
        let ghost groups0 = groups@;
        let ghost views = types::group_views(groups0);
        let mut rest = sort::reversed(groups);
        let mut queue: Vec<FileGroup> = Vec::new();
        let ghost mut n: int = 0;
        proof {
            reveal(Seq::filter);
            assert(rest@ =~= groups0.skip(0).reverse());
            assert(types::group_views(queue@) =~= selected_groups(views.take(0)));
        }
        while rest.len() > 0
            invariant
                0 <= n <= groups0.len(),
                views == types::group_views(groups0),
                rest@ == groups0.skip(n).reverse(),
                types::group_views(queue@) == selected_groups(views.take(n)),
            decreases rest.len(),
        {
            let ghost before = queue@;
            match rest.pop() {
                Some(group) => {
                    proof {
                        assert(group == groups0[n]);
                        assert(views[n] == group@);
                        assert(rest@ =~= groups0.skip(n + 1).reverse());
                        lemma_selected_push(views, n);
                        n = n + 1;
                    }
                    if group.selected {
                        queue.push(group);
                        assert(types::group_views(queue@) =~= types::group_views(before).push(
                            group@,
                        ));
                    }
                },
                None => {},
            }
        }
        proof {
            assert(views.take(n) =~= views);
            let q = types::group_views(queue@);
            assert(q.take(0) =~= Seq::empty());
            if q.len() > 0 {
                assert(q[0].files.len() > 0);
            }
        }
        Reclaimer { queue, dry_run, group: 0, target: 1, reclaimed: 0, ended: false }
    }

    /// Names what is to be done next. After a replacement has been named, its outcome is to be
    /// told before the next step is asked for.
    pub fn next(&mut self) -> (step: ReclaimStep)
        requires
            old(self)@.wf(),
        ensures
            final(self)@.wf(),
            step@ == old(self)@.step(),
            final(self)@ == old(self)@.after_step(),
    {
        let ghost view = self@;
        assert(view.queue.len() == self.queue@.len());
        if self.group < self.queue.len() {
            let group = &self.queue[self.group];
            proof {
                assert(view.queue[view.group] == group@);
                assert(group@.files.len() == group.files@.len());
                lemma_bytes_prefix(view.queue, view.group);
            }
            if !self.dry_run && self.target < group.files.len() {
                let ghost files = group@.files;
                assert(files[0] == group.files@[0]@);
                assert(files[self.target as int] == group.files@[self.target as int]@);
                return ReclaimStep::Clone {
                    source: group.files[0].path.clone(),
                    target: group.files[self.target].path.clone(),
                };
            }
            if self.dry_run {
                let targets: u64 = (group.files.len() - 1) as u64;
                assert(types::target_bytes(group@) == group.size as nat * targets as nat);
                let bytes: u64 = group.size * targets;
                self.reclaimed = self.reclaimed + bytes;
            }
            self.group = self.group + 1;
            self.target = 1;
            proof {
                if self.group < self.queue@.len() {
                    assert(self@.queue[self@.group].files.len() > 0);
                }
            }
            ReclaimStep::Report(
                ReclaimMessage::Progress {
                    done: self.group as u64,
                    total: self.queue.len() as u64,
                    reclaimed: self.reclaimed,
                },
            )
        } else if !self.ended {
            self.ended = true;
            ReclaimStep::Report(ReclaimMessage::Done { total_reclaimed: self.reclaimed })
        } else {
            ReclaimStep::Finished
        }
    }

    /// Takes in how the replacement went that has been named: the bytes that it saved, or what
    /// went wrong, which is reported.
    pub fn outcome(&mut self, outcome: Result<u64, String>) -> (message: Option<ReclaimMessage>)
        requires
            old(self)@.wf(),
            old(self)@.step() is Clone,
            outcome is Ok ==> old(self)@.reclaimed + outcome->Ok_0 <= u64::MAX,
        ensures
            final(self)@.wf(),
            match outcome {
                Ok(saved) => final(self)@ == old(self)@.after_clone(saved as int) && message
                    is None,
                Err(error) => {
                    &&& final(self)@ == old(self)@.after_clone(0)
                    &&& message is Some
                    &&& message->0@ == ReclaimMessageView::Error(
                        failure_text(old(self)@.step()->target, error@),
                    )
                },
            },
    {
        let ghost view = self@;
        assert(view.queue.len() == self.queue@.len());
        assert(view.queue[view.group] == self.queue@[view.group]@);
        let file = self.target;
        let group = &self.queue[self.group];
        assert(group@.files.len() == group.files@.len());
        assert(group@.files[file as int] == group.files@[file as int]@);
        assert(file < group.files.len());
        match outcome {
            Ok(saved) => {
                self.target = file + 1;
                self.reclaimed = self.reclaimed + saved;
                None
            },
            Err(error) => {
                let shown = group.files[file].path.display();
                let message = failure_message_for(shown.as_str(), error.as_str());
                self.target = file + 1;
                Some(ReclaimMessage::Error(message))
            },
        }
    }
}

} // verus!
