//! The screens of the interactive mode.
//!
//! A [`Screen`] changes with the messages of a scan or a reclamation and with the keys that are
//! pressed. The caller draws it, waits for messages and keys, and starts the reclamation when
//! [`Screen::start_reclaim`] hands out the groups.

use crate::path::FilePath;
use crate::reclaim;
use crate::text;
use crate::types;
use crate::types::{
    FileGroup, FileGroupView, ReclaimMessage, ReclaimMessageView, ScanMessage, ScanMessageView,
    ScanPhase,
};
use vstd::prelude::*;

verus! {

// ---------------------------------------------------------------------------
// States
// ---------------------------------------------------------------------------

/// A scan on its way.
#[derive(Debug)]
pub struct ScanningState {
    pub paths: Vec<FilePath>,
    pub phase: ScanPhase,
    pub phase_done: u64,
    /// Zero where the total is unknown.
    pub phase_total: u64,
    pub files_found: u64,
}

/// The mathematical value of a [`ScanningState`].
pub struct ScanningView {
    pub paths: Seq<Seq<u8>>,
    pub phase: ScanPhase,
    pub phase_done: u64,
    pub phase_total: u64,
    pub files_found: u64,
}

/// The values of a list of paths.
pub open spec fn path_views(paths: Seq<FilePath>) -> Seq<Seq<u8>> {
    paths.map_values(|p: FilePath| p@)
}

impl View for ScanningState {
    type V = ScanningView;

    open spec fn view(&self) -> ScanningView {
        ScanningView {
            paths: path_views(self.paths@),
            phase: self.phase,
            phase_done: self.phase_done,
            phase_total: self.phase_total,
            files_found: self.files_found,
        }
    }
}

/// The groups that were found, for review.
#[derive(Debug)]
pub struct ReviewState {
    pub groups: Vec<FileGroup>,
    /// The group that the cursor is on.
    pub cursor: Option<usize>,
    pub errors: Vec<String>,
    pub dry_run: bool,
}

/// The mathematical value of a [`ReviewState`].
pub struct ReviewView {
    pub groups: Seq<FileGroupView>,
    pub cursor: Option<usize>,
    pub errors: Seq<Seq<char>>,
    pub dry_run: bool,
}

impl View for ReviewState {
    type V = ReviewView;

    open spec fn view(&self) -> ReviewView {
        ReviewView {
            groups: types::group_views(self.groups@),
            cursor: self.cursor,
            errors: text::string_views(self.errors@),
            dry_run: self.dry_run,
        }
    }
}

/// A reclamation on its way.
#[derive(Debug)]
pub struct ReclaimingState {
    pub done: u64,
    pub total: u64,
    pub reclaimed: u64,
    pub errors: Vec<String>,
    pub dry_run: bool,
}

/// The mathematical value of a [`ReclaimingState`].
pub struct ReclaimingView {
    pub done: u64,
    pub total: u64,
    pub reclaimed: u64,
    pub errors: Seq<Seq<char>>,
    pub dry_run: bool,
}

impl View for ReclaimingState {
    type V = ReclaimingView;

    open spec fn view(&self) -> ReclaimingView {
        ReclaimingView {
            done: self.done,
            total: self.total,
            reclaimed: self.reclaimed,
            errors: text::string_views(self.errors@),
            dry_run: self.dry_run,
        }
    }
}

/// A reclamation that has ended.
#[derive(Debug)]
pub struct DoneState {
    pub total_reclaimed: u64,
    pub groups_done: u64,
    pub files_done: u64,
    pub dry_run: bool,
    pub errors: Vec<String>,
}

/// The mathematical value of a [`DoneState`].
pub struct DoneView {
    pub total_reclaimed: u64,
    pub groups_done: u64,
    pub files_done: u64,
    pub dry_run: bool,
    pub errors: Seq<Seq<char>>,
}

impl View for DoneState {
    type V = DoneView;

    open spec fn view(&self) -> DoneView {
        DoneView {
            total_reclaimed: self.total_reclaimed,
            groups_done: self.groups_done,
            files_done: self.files_done,
            dry_run: self.dry_run,
            errors: text::string_views(self.errors@),
        }
    }
}

/// What is shown.
#[derive(Debug)]
pub enum Screen {
    Scanning(ScanningState),
    Review(ReviewState),
    Reclaiming(ReclaimingState),
    Done(DoneState),
    FatalError(String),
}

/// The mathematical value of a [`Screen`].
pub enum ScreenView {
    Scanning(ScanningView),
    Review(ReviewView),
    Reclaiming(ReclaimingView),
    Done(DoneView),
    FatalError(Seq<char>),
}

impl View for Screen {
    type V = ScreenView;

    open spec fn view(&self) -> ScreenView {
        match self {
            Screen::Scanning(state) => ScreenView::Scanning(state@),
            Screen::Review(state) => ScreenView::Review(state@),
            Screen::Reclaiming(state) => ScreenView::Reclaiming(state@),
            Screen::Done(state) => ScreenView::Done(state@),
            Screen::FatalError(error) => ScreenView::FatalError(error@),
        }
    }
}

// ---------------------------------------------------------------------------
// Review
// ---------------------------------------------------------------------------

impl ReviewView {
    /// The cursor is on a group, where there is one.
    pub open spec fn wf(self) -> bool {
        &&& self.groups.len() > 0 ==> self.cursor is Some
        &&& self.cursor is Some ==> self.cursor->0 < self.groups.len() || self.cursor->0 == 0
    }

    /// The cursor one group up, at most to the first.
    pub open spec fn moved_up(self) -> ReviewView {
        let cursor = match self.cursor {
            Some(i) => if i == 0 {
                0
            } else {
                (i - 1) as usize
            },
            None => 0,
        };
        ReviewView { cursor: Some(cursor), ..self }
    }

    /// The cursor one group down, at most to the last.
    pub open spec fn moved_down(self) -> ReviewView {
        let cursor = match self.cursor {
            Some(i) => if i + 1 < self.groups.len() {
                (i + 1) as usize
            } else if self.groups.len() == 0 {
                0
            } else {
                (self.groups.len() - 1) as usize
            },
            None => 0,
        };
        ReviewView { cursor: Some(cursor), ..self }
    }

    /// The group under the cursor selected if it was not, and not if it was.
    pub open spec fn toggled(self) -> ReviewView {
        match self.cursor {
            Some(i) => if i < self.groups.len() {
                let group = self.groups[i as int];
                ReviewView {
                    groups: self.groups.update(
                        i as int,
                        FileGroupView { selected: !group.selected, ..group },
                    ),
                    ..self
                }
            } else {
                self
            },
            None => self,
        }
    }

    /// All groups selected, or none.
    pub open spec fn all_set(self, value: bool) -> ReviewView {
        ReviewView { groups: groups_set(self.groups, value), ..self }
    }

    /// Every group is selected.
    pub open spec fn all_on(self) -> bool {
        forall|i: int| 0 <= i < self.groups.len() ==> (#[trigger] self.groups[i]).selected
    }
}

/// The groups, all selected or none.
pub open spec fn groups_set(groups: Seq<FileGroupView>, value: bool) -> Seq<FileGroupView> {
    groups.map_values(|g: FileGroupView| FileGroupView { selected: value, ..g })
}

/// The bytes that the selected groups save together.
pub open spec fn selected_savings_sum(groups: Seq<FileGroupView>) -> nat {
    types::savings_sum(reclaim::selected_groups(groups))
}

proof fn lemma_selected_savings_push(groups: Seq<FileGroupView>, i: int)
    requires
        0 <= i < groups.len(),
    ensures
        selected_savings_sum(groups.take(i + 1)) == selected_savings_sum(groups.take(i)) + (
        if groups[i].selected {
            types::savings_of(groups[i]) as nat
        } else {
            0
        }),
{
    reveal(Seq::filter);
    let before = reclaim::selected_groups(groups.take(i));
    assert(groups.take(i + 1).drop_last() =~= groups.take(i));
    assert(groups.take(i + 1).last() == groups[i]);
    if groups[i].selected {
        assert(before.push(groups[i]).drop_last() =~= before);
    }
}

proof fn lemma_selected_savings_prefix(groups: Seq<FileGroupView>, i: int)
    requires
        0 <= i <= groups.len(),
    ensures
        selected_savings_sum(groups.take(i)) <= selected_savings_sum(groups),
    decreases groups.len() - i,
{
    if i < groups.len() {
        lemma_selected_savings_push(groups, i);
        lemma_selected_savings_prefix(groups, i + 1);
    } else {
        assert(groups.take(i) =~= groups);
    }
}

impl ReviewState {
    /// The review of the groups that a scan found.
    pub fn new(groups: Vec<FileGroup>, dry_run: bool) -> (state: ReviewState)
        ensures
            state@ == review_of(types::group_views(groups@), dry_run),
            state@.wf(),
    {
        let errors: Vec<String> = Vec::new();
        assert(text::string_views(errors@) =~= Seq::<Seq<char>>::empty());
        let cursor: Option<usize> = if groups.len() > 0 {
            Some(0)
        } else {
            None
        };
        ReviewState { groups, cursor, errors, dry_run }
    }

    /// The bytes that the selected groups save together.
    pub fn selected_savings(&self) -> (total: u64)
        requires
            selected_savings_sum(self@.groups) <= u64::MAX,
        ensures
            total as nat == selected_savings_sum(self@.groups),
    {
        let ghost views = self@.groups;
        let mut total: u64 = 0;
        let mut i: usize = 0;
        proof {
            reveal(Seq::filter);
            assert(reclaim::selected_groups(views.take(0)) =~= Seq::empty());
        }
        while i < self.groups.len()
            invariant
                i <= self.groups@.len(),
                views == types::group_views(self.groups@),
                selected_savings_sum(views) <= u64::MAX,
                total as nat == selected_savings_sum(views.take(i as int)),
            decreases self.groups.len() - i,
        {
            proof {
                assert(views[i as int] == self.groups@[i as int]@);
                lemma_selected_savings_push(views, i as int);
                lemma_selected_savings_prefix(views, i + 1);
            }
            if self.groups[i].selected {
                total = total + self.groups[i].savings();
            }
            i += 1;
        }
        assert(views.take(i as int) =~= views);
        total
    }

    /// The bytes that all groups save together.
    pub fn total_savings(&self) -> (total: u64)
        requires
            types::savings_sum(self@.groups) <= u64::MAX,
        ensures
            total as nat == types::savings_sum(self@.groups),
    {
        types::total_savings(&self.groups)
    }

    /// The group that the cursor is on.
    pub fn selected_idx(&self) -> (cursor: Option<usize>)
        ensures
            cursor == self@.cursor,
    {
        self.cursor
    }

    /// Moves the cursor up.
    pub fn move_up(&mut self)
        ensures
            final(self)@ == old(self)@.moved_up(),
    {
        let i: usize = match self.cursor {
            Some(i) => i.saturating_sub(1),
            None => 0,
        };
        self.cursor = Some(i);
    }

    /// Moves the cursor down.
    pub fn move_down(&mut self)
        requires
            old(self)@.cursor is Some ==> old(self)@.cursor->0 < usize::MAX,
        ensures
            final(self)@ == old(self)@.moved_down(),
    {
        let last: usize = self.groups.len().saturating_sub(1);
        let i: usize = match self.cursor {
            Some(i) => if i + 1 < last {
                i + 1
            } else {
                last
            },
            None => 0,
        };
        self.cursor = Some(i);
    }

    /// Selects the group under the cursor, or no longer.
    pub fn toggle_selected(&mut self)
        ensures
            final(self)@ == old(self)@.toggled(),
    {
        if let Some(i) = self.cursor {
            if i < self.groups.len() {
                let ghost before = self.groups@;
                let value: bool = !self.groups[i].selected;
                set_group(&mut self.groups, i, value);
                assert(types::group_views(before)[i as int] == before[i as int]@);
            }
        }
    }

    /// Selects all groups, or none.
    pub fn select_all(&mut self, value: bool)
        ensures
            final(self)@ == old(self)@.all_set(value),
    {
        let ghost views = types::group_views(self.groups@);
        let ghost goal = groups_set(views, value);
        let mut i: usize = 0;
        while i < self.groups.len()
            invariant
                i <= self.groups@.len(),
                self.groups@.len() == views.len(),
                goal == groups_set(views, value),
                self.cursor == old(self).cursor,
                self.errors == old(self).errors,
                self.dry_run == old(self).dry_run,
                forall|j: int|
                    0 <= j < i ==> #[trigger] types::group_views(self.groups@)[j] == goal[j],
                forall|j: int|
                    i <= j < views.len() ==> #[trigger] types::group_views(self.groups@)[j]
                        == views[j],
            decreases self.groups.len() - i,
        {
            let ghost before = types::group_views(self.groups@);
            assert(before[i as int] == views[i as int]);
            set_group(&mut self.groups, i, value);
            i += 1;
        }
        assert(types::group_views(self.groups@) =~= goal);
    }

    /// Whether every group is selected.
    pub fn all_selected(&self) -> (yes: bool)
        ensures
            yes == self@.all_on(),
    {
        let ghost views = self@.groups;
        let mut i: usize = 0;
        while i < self.groups.len()
            invariant
                i <= self.groups@.len(),
                views == types::group_views(self.groups@),
                self@.groups == views,
                forall|j: int| 0 <= j < i ==> (#[trigger] views[j]).selected,
            decreases self.groups.len() - i,
        {
            assert(views[i as int] == self.groups@[i as int]@);
            if !self.groups[i].selected {
                return false;
            }
            i += 1;
        }
        true
    }

    /// How many groups are selected.
    pub fn selected_count(&self) -> (count: u64)
        ensures
            count as nat == reclaim::selected_groups(self@.groups).len(),
    {
        let ghost views = self@.groups;
        let mut count: u64 = 0;
        let mut i: usize = 0;
        proof {
            reveal(Seq::filter);
            assert(reclaim::selected_groups(views.take(0)) =~= Seq::empty());
        }
        while i < self.groups.len()
            invariant
                i <= self.groups@.len(),
                count <= i,
                views == types::group_views(self.groups@),
                count as nat == reclaim::selected_groups(views.take(i as int)).len(),
            decreases self.groups.len() - i,
        {
            proof {
                reveal(Seq::filter);
                assert(views[i as int] == self.groups@[i as int]@);
                assert(views.take(i + 1).drop_last() =~= views.take(i as int));
                assert(views.take(i + 1).last() == views[i as int]);
            }
            if self.groups[i].selected {
                count += 1;
            }
            i += 1;
        }
        assert(views.take(i as int) =~= views);
        count
    }
}

fn set_group(groups: &mut Vec<FileGroup>, i: usize, value: bool)
    requires
        i < old(groups)@.len(),
    ensures
        final(groups)@.len() == old(groups)@.len(),
        types::group_views(final(groups)@) == types::group_views(old(groups)@).update(
            i as int,
            FileGroupView { selected: value, ..old(groups)@[i as int]@ },
        ),
{
    let ghost before = groups@;
    groups[i].selected = value;
    assert(types::group_views(groups@) =~= types::group_views(before).update(
        i as int,
        FileGroupView { selected: value, ..before[i as int]@ },
    ));
}

/// The review of the groups that a scan found.
pub open spec fn review_of(groups: Seq<FileGroupView>, dry_run: bool) -> ReviewView {
    ReviewView {
        groups,
        cursor: if groups.len() > 0 {
            Some(0usize)
        } else {
            None
        },
        errors: Seq::empty(),
        dry_run,
    }
}

// ---------------------------------------------------------------------------
// Messages
// ---------------------------------------------------------------------------

/// The screen before the first message of a scan.
pub open spec fn first_screen(paths: Seq<Seq<u8>>) -> ScreenView {
    ScreenView::Scanning(
        ScanningView {
            paths,
            phase: ScanPhase::Walking,
            phase_done: 0,
            phase_total: 0,
            files_found: 0,
        },
    )
}

/// The screen after a message of a scan.
pub open spec fn after_scan_message(
    state: ScanningView,
    message: ScanMessageView,
    dry_run: bool,
) -> ScreenView {
    match message {
        ScanMessageView::Phase(phase) => ScreenView::Scanning(
            ScanningView { phase, phase_done: 0, phase_total: 0, ..state },
        ),
        ScanMessageView::Progress { done, total } => ScreenView::Scanning(
            ScanningView {
                phase_done: done,
                phase_total: if total > 0 {
                    total
                } else {
                    state.phase_total
                },
                files_found: if state.phase is Walking {
                    done
                } else {
                    state.files_found
                },
                ..state
            },
        ),
        ScanMessageView::Done(groups) => ScreenView::Review(review_of(groups, dry_run)),
        ScanMessageView::Error(error) => ScreenView::FatalError(error),
    }
}

/// The screen after a message of a reclamation.
pub open spec fn after_reclaim_message(
    state: ReclaimingView,
    message: ReclaimMessageView,
) -> ScreenView {
    match message {
        ReclaimMessageView::Progress { done, total, reclaimed } => ScreenView::Reclaiming(
            ReclaimingView { done, total, reclaimed, ..state },
        ),
        ReclaimMessageView::Done { total_reclaimed } => ScreenView::Done(
            DoneView {
                total_reclaimed,
                groups_done: state.done,
                files_done: state.done,
                dry_run: state.dry_run,
                errors: state.errors,
            },
        ),
        ReclaimMessageView::Error(error) => ScreenView::Reclaiming(
            ReclaimingView { errors: state.errors.push(error), ..state },
        ),
    }
}

/// The screen after the start of a reclamation.
pub open spec fn reclaiming_screen(groups: Seq<FileGroupView>, dry_run: bool) -> ScreenView {
    ScreenView::Reclaiming(
        ReclaimingView {
            done: 0,
            total: reclaim::selected_groups(groups).len() as u64,
            reclaimed: 0,
            errors: Seq::empty(),
            dry_run,
        },
    )
}

// ---------------------------------------------------------------------------
// Keys
// ---------------------------------------------------------------------------

/// A key.
#[derive(Debug, Clone, Copy, PartialEq, Eq, Structural)]
pub enum Key {
    Char(char),
    Up,
    Down,
    Enter,
    Esc,
    Other,
}

/// A key with the control key held down or not.
#[derive(Debug, Clone, Copy, PartialEq, Eq, Structural)]
pub struct KeyPress {
    pub key: Key,
    pub control: bool,
}

/// What a key is for on the review screen.
#[derive(Debug, Clone, Copy, PartialEq, Eq, Structural)]
pub enum ReviewCommand {
    Quit,
    MoveUp,
    MoveDown,
    Toggle,
    ToggleAll,
    Reclaim,
    Nothing,
}

/// What follows from a key.
#[derive(Debug, Clone, Copy, PartialEq, Eq, Structural)]
pub enum KeyOutcome {
    /// Go on.
    Stay,
    /// End the program.
    Quit,
    /// Start the reclamation.
    StartReclaim,
}

/// The key for quitting on the screens that name it in capitals: small or capital.
pub open spec fn is_q(key: Key) -> bool {
    key == Key::Char('q') || key == Key::Char('Q')
}

/// What a key is for on the review screen. The letters that the screen names in capitals may be
/// typed small or capital.
pub open spec fn command_of(key: Key) -> ReviewCommand {
    if is_q(key) || key == Key::Esc {
        ReviewCommand::Quit
    } else if key == Key::Up || key == Key::Char('k') {
        ReviewCommand::MoveUp
    } else if key == Key::Down || key == Key::Char('j') {
        ReviewCommand::MoveDown
    } else if key == Key::Char(' ') {
        ReviewCommand::Toggle
    } else if key == Key::Char('a') || key == Key::Char('A') {
        ReviewCommand::ToggleAll
    } else if key == Key::Char('r') || key == Key::Char('R') || key == Key::Enter {
        ReviewCommand::Reclaim
    } else {
        ReviewCommand::Nothing
    }
}

/// What a key is for on the review screen.
pub fn review_command(key: Key) -> (command: ReviewCommand)
    ensures
        command == command_of(key),
{
    match key {
        Key::Esc => ReviewCommand::Quit,
        Key::Up => ReviewCommand::MoveUp,
        Key::Down => ReviewCommand::MoveDown,
        Key::Enter => ReviewCommand::Reclaim,
        Key::Other => ReviewCommand::Nothing,
        Key::Char(ch) => if ch == 'q' || ch == 'Q' {
            ReviewCommand::Quit
        } else if ch == 'k' {
            ReviewCommand::MoveUp
        } else if ch == 'j' {
            ReviewCommand::MoveDown
        } else if ch == ' ' {
            ReviewCommand::Toggle
        } else if ch == 'a' || ch == 'A' {
            ReviewCommand::ToggleAll
        } else if ch == 'r' || ch == 'R' {
            ReviewCommand::Reclaim
        } else {
            ReviewCommand::Nothing
        },
    }
}

/// The review after a command.
pub open spec fn after_command(state: ReviewView, command: ReviewCommand) -> ReviewView {
    match command {
        ReviewCommand::MoveUp => state.moved_up(),
        ReviewCommand::MoveDown => state.moved_down(),
        ReviewCommand::Toggle => state.toggled(),
        ReviewCommand::ToggleAll => state.all_set(!state.all_on()),
        _ => state,
    }
}

/// The screen after a key.
pub open spec fn screen_after_key(screen: ScreenView, press: KeyPress) -> ScreenView {
    match screen {
        ScreenView::Review(state) => if quits_anywhere(press) {
            screen
        } else {
            ScreenView::Review(after_command(state, command_of(press.key)))
        },
        _ => screen,
    }
}

/// Ctrl-C ends the program on every screen.
pub open spec fn quits_anywhere(press: KeyPress) -> bool {
    press.key == Key::Char('c') && press.control
}

/// What follows from a key.
pub open spec fn outcome_of_key(screen: ScreenView, press: KeyPress) -> KeyOutcome {
    if quits_anywhere(press) {
        KeyOutcome::Quit
    } else {
        match screen {
            ScreenView::Scanning(_) | ScreenView::Reclaiming(_) => if press.key == Key::Char('q') {
                KeyOutcome::Quit
            } else {
                KeyOutcome::Stay
            },
            ScreenView::Review(_) => match command_of(press.key) {
                ReviewCommand::Quit => KeyOutcome::Quit,
                ReviewCommand::Reclaim => KeyOutcome::StartReclaim,
                _ => KeyOutcome::Stay,
            },
            ScreenView::Done(_) | ScreenView::FatalError(_) => if is_q(press.key) || press.key
                == Key::Esc || press.key == Key::Enter {
                KeyOutcome::Quit
            } else {
                KeyOutcome::Stay
            },
        }
    }
}

fn is_quit_letter(key: Key) -> (yes: bool)
    ensures
        yes == is_q(key),
{
    match key {
        Key::Char(ch) => ch == 'q' || ch == 'Q',
        _ => false,
    }
}

impl Screen {
    /// The screen before the first message of a scan.
    pub fn new(paths: Vec<FilePath>) -> (screen: Screen)
        ensures
            screen@ == first_screen(path_views(paths@)),
    {
        Screen::Scanning(
            ScanningState {
                paths,
                phase: ScanPhase::Walking,
                phase_done: 0,
                phase_total: 0,
                files_found: 0,
            },
        )
    }

    /// Takes in a message of a scan. On other screens it has no effect.
    pub fn on_scan_message(self, message: ScanMessage, dry_run: bool) -> (screen: Screen)
        ensures
            screen@ == (match self@ {
                ScreenView::Scanning(state) => after_scan_message(state, message@, dry_run),
                _ => self@,
            }),
    {
        match self {
            Screen::Scanning(state) => match message {
                ScanMessage::Phase(phase) => Screen::Scanning(
                    ScanningState {
                        paths: state.paths,
                        phase,
                        phase_done: 0,
                        phase_total: 0,
                        files_found: state.files_found,
                    },
                ),
                ScanMessage::Progress { done, total } => {
                    let phase_total: u64 = if total > 0 {
                        total
                    } else {
                        state.phase_total
                    };
                    let files_found: u64 = match state.phase {
                        ScanPhase::Walking => done,
                        _ => state.files_found,
                    };
                    Screen::Scanning(
                        ScanningState {
                            paths: state.paths,
                            phase: state.phase,
                            phase_done: done,
                            phase_total,
                            files_found,
                        },
                    )
                },
                ScanMessage::Done(groups) => Screen::Review(ReviewState::new(groups, dry_run)),
                ScanMessage::Error(error) => Screen::FatalError(error),
            },
            other => other,
        }
    }

    /// Takes in a message of a reclamation. On other screens it has no effect.
    pub fn on_reclaim_message(self, message: ReclaimMessage) -> (screen: Screen)
        ensures
            screen@ == (match self@ {
                ScreenView::Reclaiming(state) => after_reclaim_message(state, message@),
                _ => self@,
            }),
    {
        match self {
            Screen::Reclaiming(state) => match message {
                ReclaimMessage::Progress { done, total, reclaimed } => Screen::Reclaiming(
                    ReclaimingState {
                        done,
                        total,
                        reclaimed,
                        errors: state.errors,
                        dry_run: state.dry_run,
                    },
                ),
                ReclaimMessage::Done { total_reclaimed } => Screen::Done(
                    DoneState {
                        total_reclaimed,
                        groups_done: state.done,
                        files_done: state.done,
                        dry_run: state.dry_run,
                        errors: state.errors,
                    },
                ),
                ReclaimMessage::Error(error) => {
                    let mut errors = state.errors;
                    let ghost before = errors@;
                    errors.push(error);
                    assert(text::string_views(errors@) =~= text::string_views(before).push(error@));
                    Screen::Reclaiming(
                        ReclaimingState {
                            done: state.done,
                            total: state.total,
                            reclaimed: state.reclaimed,
                            errors,
                            dry_run: state.dry_run,
                        },
                    )
                },
            },
            other => other,
        }
    }

    /// Takes in a key.
    pub fn on_key(&mut self, press: KeyPress) -> (outcome: KeyOutcome)
        requires
            old(self)@ is Review && old(self)@->Review_0.cursor is Some && command_of(press.key)
                == ReviewCommand::MoveDown ==> old(self)@->Review_0.cursor->0 < usize::MAX,
        ensures
            final(self)@ == screen_after_key(old(self)@, press),
            outcome == outcome_of_key(old(self)@, press),
    {
        if press.control {
            if let Key::Char(ch) = press.key {
                if ch == 'c' {
                    return KeyOutcome::Quit;
                }
            }
        }
        match self {
            Screen::Scanning(_) | Screen::Reclaiming(_) => match press.key {
                Key::Char(ch) => if ch == 'q' {
                    KeyOutcome::Quit
                } else {
                    KeyOutcome::Stay
                },
                _ => KeyOutcome::Stay,
            },
            Screen::Review(state) => match review_command(press.key) {
                ReviewCommand::Quit => KeyOutcome::Quit,
                ReviewCommand::Reclaim => KeyOutcome::StartReclaim,
                ReviewCommand::MoveUp => {
                    state.move_up();
                    KeyOutcome::Stay
                },
                ReviewCommand::MoveDown => {
                    state.move_down();
                    KeyOutcome::Stay
                },
                ReviewCommand::Toggle => {
                    state.toggle_selected();
                    KeyOutcome::Stay
                },
                ReviewCommand::ToggleAll => {
                    let value: bool = !state.all_selected();
                    state.select_all(value);
                    KeyOutcome::Stay
                },
                ReviewCommand::Nothing => KeyOutcome::Stay,
            },
            Screen::Done(_) | Screen::FatalError(_) => {
                let quit: bool = is_quit_letter(press.key) || (match press.key {
                    Key::Esc | Key::Enter => true,
                    _ => false,
                });
                if quit {
                    KeyOutcome::Quit
                } else {
                    KeyOutcome::Stay
                }
            },
        }
    }

    /// Goes on from the review to the reclamation and hands out the groups to reclaim. On other
    /// screens it has no effect.
    pub fn start_reclaim(&mut self, dry_run: bool) -> (groups: Option<Vec<FileGroup>>)
        ensures
            match old(self)@ {
                ScreenView::Review(state) => {
                    &&& groups is Some
                    &&& types::group_views(groups->0@) == state.groups
                    &&& final(self)@ == reclaiming_screen(state.groups, dry_run)
                },
                _ => groups is None && final(self)@ == old(self)@,
            },
    {
        let (groups, total) = match self {
            Screen::Review(state) => (types::clone_groups(&state.groups), state.selected_count()),
            _ => {
                return None;
            },
        };
        let errors: Vec<String> = Vec::new();
        assert(text::string_views(errors@) =~= Seq::<Seq<char>>::empty());
        *self = Screen::Reclaiming(
            ReclaimingState { done: 0, total, reclaimed: 0, errors, dry_run },
        );
        Some(groups)
    }
}

// ---------------------------------------------------------------------------
// Laws
// ---------------------------------------------------------------------------

/// The place of a screen in the course of the program.
pub open spec fn screen_stage(screen: ScreenView) -> int {
    match screen {
        ScreenView::Scanning(_) => 0,
        ScreenView::Review(_) => 1,
        ScreenView::Reclaiming(_) => 2,
        ScreenView::Done(_) => 3,
        ScreenView::FatalError(_) => 4,
    }
}

/// A scan leads to the review or to the error screen, and only its end does.
pub proof fn law_scan_leads_to_review(
    state: ScanningView,
    message: ScanMessageView,
    dry_run: bool,
)
    ensures
        screen_stage(after_scan_message(state, message, dry_run)) == (match message {
            ScanMessageView::Done(_) => 1int,
            ScanMessageView::Error(_) => 4,
            _ => 0,
        }),
{
}

/// A reclamation leads to the last screen, and only its end does.
pub proof fn law_reclamation_leads_to_done(state: ReclaimingView, message: ReclaimMessageView)
    ensures
        screen_stage(after_reclaim_message(state, message)) == (if message is Done {
            3int
        } else {
            2
        }),
{
}

/// No key leads to another screen, and only on the review screen can a key start a reclamation.
pub proof fn law_keys_stay_on_screen(screen: ScreenView, press: KeyPress)
    ensures
        screen_stage(screen_after_key(screen, press)) == screen_stage(screen),
        outcome_of_key(screen, press) is StartReclaim ==> screen is Review,
{
}

/// Every screen can be left by Ctrl-C and by `q`.
pub proof fn law_every_screen_can_be_left(screen: ScreenView, press: KeyPress)
    requires
        press.key == Key::Char('q') || (press.key == Key::Char('c') && press.control),
    ensures
        outcome_of_key(screen, press) == KeyOutcome::Quit,
        screen_after_key(screen, press) == screen,
{
}

/// Nothing but Ctrl-C and `q` ends the program during a scan or a reclamation.
pub proof fn law_work_is_not_left_by_chance(screen: ScreenView, press: KeyPress)
    requires
        screen is Scanning || screen is Reclaiming,
        press.key != Key::Char('q'),
        !(press.key == Key::Char('c') && press.control),
    ensures
        outcome_of_key(screen, press) == KeyOutcome::Stay,
        screen_after_key(screen, press) == screen,
{
}

/// Whatever key is pressed, the cursor stays on a group, the groups stay what they are but for
/// their selection, and nothing else changes.
pub proof fn law_review_keeps_groups(state: ReviewView, command: ReviewCommand)
    requires
        state.wf(),
    ensures
        ({
            let after = after_command(state, command);
            &&& after.wf()
            &&& groups_set(after.groups, true) == groups_set(state.groups, true)
            &&& after.errors == state.errors
            &&& after.dry_run == state.dry_run
        }),
{
    let after = after_command(state, command);
    assert(groups_set(after.groups, true) =~= groups_set(state.groups, true));
}

/// Toggling twice changes nothing.
pub proof fn law_toggle_twice(state: ReviewView)
    ensures
        state.toggled().toggled() == state,
{
    assert(state.toggled().toggled().groups =~= state.groups);
}

/// The key for all selects every group unless every group is selected, and then none. Where
/// every group was selected, pressing it twice changes nothing.
pub proof fn law_toggle_all(state: ReviewView)
    ensures
        ({
            let once = after_command(state, ReviewCommand::ToggleAll);
            let twice = after_command(once, ReviewCommand::ToggleAll);
            &&& !state.all_on() ==> once.all_on()
            &&& state.all_on() ==> forall|i: int|
                0 <= i < once.groups.len() ==> !(#[trigger] once.groups[i]).selected
            &&& state.all_on() ==> twice == state
        }),
{
    let once = after_command(state, ReviewCommand::ToggleAll);
    let twice = after_command(once, ReviewCommand::ToggleAll);
    if state.all_on() {
        if state.groups.len() > 0 {
            assert(!once.groups[0].selected);
        }
        assert(twice.groups =~= state.groups);
    }
}

/// Moving down and then up comes back, except from the last group.
pub proof fn law_down_then_up(state: ReviewView)
    requires
        state.groups.len() <= usize::MAX,
        state.cursor is Some,
        state.cursor->0 + 1 < state.groups.len(),
    ensures
        state.moved_down().moved_up() == state,
{
}

/// The total that a reclamation is first shown with is that which its own reports tell.
pub proof fn law_shown_total_is_reported(
    groups: Seq<FileGroupView>,
    dry_run: bool,
    at: reclaim::ReclaimerView,
)
    requires
        at.queue == reclaim::selected_groups(groups),
        at.step() is Report,
        at.step()->Report_0 is Progress,
    ensures
        at.step()->Report_0->total == reclaiming_screen(groups, dry_run)->Reclaiming_0.total,
{
}

/// Space turns the selection of the group under the cursor into its negation, wherever in the
/// list that is, and changes nothing else.
pub proof fn law_space_toggles_the_group_under_the_cursor(
    state: ReviewView,
    press: KeyPress,
    i: usize,
)
    requires
        press.key == Key::Char(' '),
        state.cursor == Some(i),
        i < state.groups.len(),
    ensures
        ({
            let after = screen_after_key(ScreenView::Review(state), press);
            let now = after->Review_0;
            let group = state.groups[i as int];
            &&& after is Review
            &&& outcome_of_key(ScreenView::Review(state), press) is Stay
            &&& now.groups.len() == state.groups.len()
            &&& now.groups[i as int].selected == !group.selected
            &&& now.groups[i as int].files == group.files
            &&& now.groups[i as int].size == group.size
            &&& forall|j: int|
                0 <= j < state.groups.len() && j != i ==> #[trigger] now.groups[j]
                    == state.groups[j]
            &&& now.cursor == state.cursor
            &&& now.errors == state.errors
            &&& now.dry_run == state.dry_run
        }),
{
}

/// Space has no effect where the cursor is on no group.
pub proof fn law_space_needs_a_group(state: ReviewView, press: KeyPress)
    requires
        press.key == Key::Char(' '),
        state.cursor matches Some(i) ==> i >= state.groups.len(),
    ensures
        screen_after_key(ScreenView::Review(state), press) == ScreenView::Review(state),
        outcome_of_key(ScreenView::Review(state), press) is Stay,
{
}

/// The keys for moving move the cursor by one group and no further than the ends of the list;
/// nothing else changes.
pub proof fn law_cursor_keys_move_by_one(state: ReviewView, press: KeyPress)
    requires
        state.groups.len() <= usize::MAX,
        press.key == Key::Up || press.key == Key::Char('k') || press.key == Key::Down || press.key
            == Key::Char('j'),
    ensures
        ({
            let after = screen_after_key(ScreenView::Review(state), press);
            let now = after->Review_0;
            let up = press.key == Key::Up || press.key == Key::Char('k');
            &&& after is Review
            &&& outcome_of_key(ScreenView::Review(state), press) is Stay
            &&& now.groups == state.groups
            &&& now.errors == state.errors
            &&& now.dry_run == state.dry_run
            &&& now.cursor is Some
            &&& state.cursor is None ==> now.cursor->0 == 0
            &&& state.cursor matches Some(i) ==> {
                &&& up && i > 0 ==> now.cursor->0 == i - 1
                &&& up && i == 0 ==> now.cursor->0 == 0
                &&& !up && i + 1 < state.groups.len() ==> now.cursor->0 == i + 1
                &&& !up && i + 1 >= state.groups.len() && state.groups.len() > 0
                    ==> now.cursor->0 == state.groups.len() - 1
                &&& !up && state.groups.len() == 0 ==> now.cursor->0 == 0
            }
        }),
{
}

/// The key for all gives every group the same selection: none where all were selected, and all
/// where some group was not. Nothing else changes.
pub proof fn law_key_for_all_sets_every_group(state: ReviewView, press: KeyPress)
    requires
        press.key == Key::Char('a') || press.key == Key::Char('A'),
    ensures
        ({
            let after = screen_after_key(ScreenView::Review(state), press);
            let now = after->Review_0;
            let all = forall|i: int|
                0 <= i < state.groups.len() ==> (#[trigger] state.groups[i]).selected;
            &&& after is Review
            &&& outcome_of_key(ScreenView::Review(state), press) is Stay
            &&& now.groups.len() == state.groups.len()
            &&& forall|i: int|
                0 <= i < state.groups.len() ==> {
                    &&& (#[trigger] now.groups[i]).selected == !all
                    &&& now.groups[i].files == state.groups[i].files
                    &&& now.groups[i].size == state.groups[i].size
                }
            &&& now.cursor == state.cursor
            &&& now.errors == state.errors
            &&& now.dry_run == state.dry_run
        }),
{
}

/// The keys that start the reclamation, and no others do.
pub proof fn law_keys_that_reclaim(screen: ScreenView, press: KeyPress)
    ensures
        outcome_of_key(screen, press) is StartReclaim <==> screen is Review && (press.key
            == Key::Enter || press.key == Key::Char('r') || press.key == Key::Char('R')),
        outcome_of_key(screen, press) is StartReclaim ==> screen_after_key(screen, press)
            == screen,
{
}

/// The keys that end the program on each screen, and no others do.
pub proof fn law_keys_that_quit(screen: ScreenView, press: KeyPress)
    ensures
        outcome_of_key(screen, press) is Quit <==> {
            ||| press.key == Key::Char('c') && press.control
            ||| press.key == Key::Char('q')
            ||| press.key == Key::Char('Q') && !(screen is Scanning) && !(screen is Reclaiming)
            ||| press.key == Key::Esc && !(screen is Scanning) && !(screen is Reclaiming)
            ||| press.key == Key::Enter && (screen is Done || screen is FatalError)
        },
        outcome_of_key(screen, press) is Quit ==> screen_after_key(screen, press) == screen,
{
}

/// Keys without a meaning on the review screen, and all keys on the others, change nothing that
/// is shown.
pub proof fn law_other_keys_change_nothing(screen: ScreenView, press: KeyPress)
    requires
        screen is Review ==> !(press.key == Key::Up || press.key == Key::Down || press.key
            == Key::Char('k') || press.key == Key::Char('j') || press.key == Key::Char(' ')
            || press.key == Key::Char('a') || press.key == Key::Char('A')),
    ensures
        screen_after_key(screen, press) == screen,
{
}

/// What the messages of a scan change on its screen.
pub proof fn law_scan_messages_on_screen(
    state: ScanningView,
    phase: ScanPhase,
    done: u64,
    total: u64,
    groups: Seq<FileGroupView>,
    error: Seq<char>,
    dry_run: bool,
)
    ensures
        ({
            let next = after_scan_message(state, ScanMessageView::Phase(phase), dry_run);
            let now = next->Scanning_0;
            &&& next is Scanning && now.phase == phase && now.paths == state.paths
            &&& now.phase_done == 0 && now.phase_total == 0 && now.files_found
                == state.files_found
        }),
        ({
            let next = after_scan_message(
                state,
                ScanMessageView::Progress { done, total },
                dry_run,
            );
            let now = next->Scanning_0;
            &&& next is Scanning && now.phase == state.phase && now.paths == state.paths
            &&& now.phase_done == done
            &&& total > 0 ==> now.phase_total == total
            &&& total == 0 ==> now.phase_total == state.phase_total
            &&& state.phase is Walking ==> now.files_found == done
            &&& !(state.phase is Walking) ==> now.files_found == state.files_found
        }),
        ({
            let next = after_scan_message(state, ScanMessageView::Done(groups), dry_run);
            let now = next->Review_0;
            &&& next is Review && now.groups == groups && now.dry_run == dry_run
            &&& now.errors.len() == 0
            &&& groups.len() > 0 ==> now.cursor == Some(0usize)
            &&& groups.len() == 0 ==> now.cursor is None
        }),
        after_scan_message(state, ScanMessageView::Error(error), dry_run)
            == ScreenView::FatalError(error),
{
}

/// What the messages of a reclamation change on its screen.
pub proof fn law_reclaim_messages_on_screen(
    state: ReclaimingView,
    done: u64,
    total: u64,
    reclaimed: u64,
    error: Seq<char>,
)
    ensures
        ({
            let next = after_reclaim_message(
                state,
                ReclaimMessageView::Progress { done, total, reclaimed },
            );
            let now = next->Reclaiming_0;
            &&& next is Reclaiming && now.done == done && now.total == total
            &&& now.reclaimed == reclaimed && now.errors == state.errors
            &&& now.dry_run == state.dry_run
        }),
        ({
            let next = after_reclaim_message(state, ReclaimMessageView::Error(error));
            let now = next->Reclaiming_0;
            &&& next is Reclaiming && now.done == state.done && now.total == state.total
            &&& now.reclaimed == state.reclaimed && now.errors == state.errors.push(error)
            &&& now.dry_run == state.dry_run
        }),
        ({
            let next = after_reclaim_message(
                state,
                ReclaimMessageView::Done { total_reclaimed: reclaimed },
            );
            let now = next->Done_0;
            &&& next is Done && now.total_reclaimed == reclaimed && now.groups_done == state.done
            &&& now.files_done == state.done && now.errors == state.errors
            &&& now.dry_run == state.dry_run
        }),
{
}

/// The screens that a program and a reclamation start with.
pub proof fn law_first_screens(paths: Seq<Seq<u8>>, groups: Seq<FileGroupView>, dry_run: bool)
    requires
        groups.len() <= u64::MAX,
    ensures
        ({
            let screen = first_screen(paths);
            let now = screen->Scanning_0;
            &&& screen is Scanning && now.paths == paths && now.phase is Walking
            &&& now.phase_done == 0 && now.phase_total == 0 && now.files_found == 0
        }),
        ({
            let screen = reclaiming_screen(groups, dry_run);
            let now = screen->Reclaiming_0;
            &&& screen is Reclaiming && now.done == 0 && now.reclaimed == 0
            &&& now.errors.len() == 0 && now.dry_run == dry_run
            &&& now.total == groups.fold_left(
                0,
                |count: int, group: FileGroupView|
                    if group.selected {
                        count + 1
                    } else {
                        count
                    },
            )
        }),
{
    lemma_selected_len(groups);
    reveal(Seq::filter);
    lemma_selected_at_most(groups);
}

proof fn lemma_selected_len(groups: Seq<FileGroupView>)
    ensures
        reclaim::selected_groups(groups).len() == groups.fold_left(
            0,
            |count: int, group: FileGroupView|
                if group.selected {
                    count + 1
                } else {
                    count
                },
        ),
    decreases groups.len(),
{
    reveal(Seq::filter);
    if groups.len() > 0 {
        lemma_selected_len(groups.drop_last());
    }
}

proof fn lemma_selected_at_most(groups: Seq<FileGroupView>)
    ensures
        reclaim::selected_groups(groups).len() <= groups.len(),
    decreases groups.len(),
{
    reveal(Seq::filter);
    if groups.len() > 0 {
        lemma_selected_at_most(groups.drop_last());
    }
}

/// What the review says that is saved changes by what a group saves when that group is selected
/// or no longer, and by nothing else.
pub proof fn law_shown_savings_go_group_by_group(
    groups: Seq<FileGroupView>,
    group: FileGroupView,
)
    ensures
        selected_savings_sum(Seq::empty()) == 0,
        group.selected ==> selected_savings_sum(groups.push(group)) == selected_savings_sum(groups)
            + types::savings_of(group),
        !group.selected ==> selected_savings_sum(groups.push(group)) == selected_savings_sum(
            groups,
        ),
{
    reveal(Seq::filter);
    let all = groups.push(group);
    lemma_selected_savings_push(all, groups.len() as int);
    assert(all.take(groups.len() as int) =~= groups);
    assert(all.take(groups.len() as int + 1) =~= all);
    assert(reclaim::selected_groups(Seq::empty()) =~= Seq::empty());
}

} // verus!
