//! The files, the groups of duplicates and the messages that the stages exchange.

use crate::path::FilePath;
use vstd::prelude::*;

verus! {

/// Information about a single file on disk.
#[derive(Debug)]
pub struct FileInfo {
    pub path: FilePath,
    pub size: u64,
    pub inode: u64,
    pub device: u64,
}

/// The mathematical value of a [`FileInfo`].
pub struct FileInfoView {
    pub path: Seq<u8>,
    pub size: u64,
    pub inode: u64,
    pub device: u64,
}

impl View for FileInfo {
    type V = FileInfoView;

    open spec fn view(&self) -> FileInfoView {
        FileInfoView {
            path: self.path@,
            size: self.size,
            inode: self.inode,
            device: self.device,
        }
    }
}

impl Clone for FileInfo {
    fn clone(&self) -> (copy: Self)
        ensures
            copy@ == self@,
    {
        FileInfo {
            path: self.path.clone(),
            size: self.size,
            inode: self.inode,
            device: self.device,
        }
    }
}

/// The values of a list of files.
pub open spec fn file_views(files: Seq<FileInfo>) -> Seq<FileInfoView> {
    files.map_values(|f: FileInfo| f@)
}

fn clone_files(files: &Vec<FileInfo>) -> (copies: Vec<FileInfo>)
    ensures
        file_views(copies@) == file_views(files@),
{
    let mut copies: Vec<FileInfo> = Vec::new();
    let mut i: usize = 0;
    while i < files.len()
        invariant
            i <= files@.len(),
            file_views(copies@) == file_views(files@.take(i as int)),
        decreases files.len() - i,
    {
        let ghost before = copies@;
        let copy = files[i].clone();
        copies.push(copy);
        i += 1;
        assert(file_views(copies@) =~= file_views(before).push(copy@));
        assert(file_views(files@.take(i as int)) =~= file_views(files@.take(i - 1)).push(
            files@[i - 1]@,
        ));
    }
    assert(files@.take(i as int) =~= files@);
    copies
}

/// A group of files that have identical content.
#[derive(Debug)]
pub struct FileGroup {
    pub size: u64,
    /// `files[0]` is treated as the "source"; the rest are "targets".
    pub files: Vec<FileInfo>,
    /// Whether this group is selected for reclamation.
    pub selected: bool,
}

/// The mathematical value of a [`FileGroup`].
pub struct FileGroupView {
    pub size: u64,
    pub files: Seq<FileInfoView>,
    pub selected: bool,
}

impl View for FileGroup {
    type V = FileGroupView;

    open spec fn view(&self) -> FileGroupView {
        FileGroupView {
            size: self.size,
            files: file_views(self.files@),
            selected: self.selected,
        }
    }
}

impl Clone for FileGroup {
    fn clone(&self) -> (copy: Self)
        ensures
            copy@ == self@,
    {
        FileGroup {
            size: self.size,
            files: clone_files(&self.files),
            selected: self.selected,
        }
    }
}

/// The values of a list of groups.
pub open spec fn group_views(groups: Seq<FileGroup>) -> Seq<FileGroupView> {
    groups.map_values(|g: FileGroup| g@)
}

/// A copy of every group.
pub fn clone_groups(groups: &Vec<FileGroup>) -> (copies: Vec<FileGroup>)
    ensures
        group_views(copies@) == group_views(groups@),
{
    let mut copies: Vec<FileGroup> = Vec::new();
    let mut i: usize = 0;
    while i < groups.len()
        invariant
            i <= groups@.len(),
            group_views(copies@) == group_views(groups@.take(i as int)),
        decreases groups.len() - i,
    {
        let ghost before = copies@;
        let copy = groups[i].clone();
        copies.push(copy);
        i += 1;
        assert(group_views(copies@) =~= group_views(before).push(copy@));
        assert(group_views(groups@.take(i as int)) =~= group_views(groups@.take(i - 1)).push(
            groups@[i - 1]@,
        ));
    }
    assert(groups@.take(i as int) =~= groups@);
    copies
}

/// The number of targets of a group: all its files but the source.
pub open spec fn target_count(group: FileGroupView) -> nat {
    if group.files.len() == 0 {
        0
    } else {
        (group.files.len() - 1) as nat
    }
}

/// The bytes that the targets of a group occupy.
pub open spec fn target_bytes(group: FileGroupView) -> nat {
    group.size as nat * target_count(group)
}

/// What a group saves: the bytes of its targets, or the greatest `u64` where they are more.
pub open spec fn savings_of(group: FileGroupView) -> u64 {
    if target_bytes(group) > u64::MAX {
        u64::MAX
    } else {
        target_bytes(group) as u64
    }
}

impl FileGroup {
    /// Bytes saved by converting all targets to clones of the source.
    pub fn savings(&self) -> (saved: u64)
        ensures
            saved == savings_of(self@),
    {
        let targets: u64 = self.files.len().saturating_sub(1) as u64;
        match self.size.checked_mul(targets) {
            Some(saved) => saved,
            None => u64::MAX,
        }
    }
}

/// What the groups save together.
pub open spec fn savings_sum(groups: Seq<FileGroupView>) -> nat
    decreases groups.len(),
{
    if groups.len() == 0 {
        0
    } else {
        savings_sum(groups.drop_last()) + savings_of(groups.last()) as nat
    }
}

/// The first groups save no more than all.
pub proof fn lemma_savings_prefix(groups: Seq<FileGroupView>, n: int)
    requires
        0 <= n <= groups.len(),
    ensures
        savings_sum(groups.take(n)) <= savings_sum(groups),
    decreases groups.len() - n,
{
    if n < groups.len() {
        assert(groups.take(n + 1).drop_last() =~= groups.take(n));
        lemma_savings_prefix(groups, n + 1);
    } else {
        assert(groups.take(n) =~= groups);
    }
}

/// Bytes saved by all groups together.
pub fn total_savings(groups: &Vec<FileGroup>) -> (total: u64)
    requires
        savings_sum(group_views(groups@)) <= u64::MAX,
    ensures
        total as nat == savings_sum(group_views(groups@)),
{
    let ghost views = group_views(groups@);
    let mut total: u64 = 0;
    let mut i: usize = 0;
    while i < groups.len()
        invariant
            i <= groups@.len(),
            views == group_views(groups@),
            savings_sum(views) <= u64::MAX,
            total as nat == savings_sum(views.take(i as int)),
        decreases groups.len() - i,
    {
        proof {
            assert(views[i as int] == groups@[i as int]@);
            assert(views.take(i + 1).drop_last() =~= views.take(i as int));
            lemma_savings_prefix(views, i + 1);
        }
        total = total + groups[i].savings();
        i += 1;
    }
    assert(views.take(i as int) =~= views);
    total
}

/// What the scanner reports.
#[derive(Debug)]
pub enum ScanMessage {
    Phase(ScanPhase),
    /// `total == 0` means that the total is unknown.
    Progress { done: u64, total: u64 },
    Done(Vec<FileGroup>),
    Error(String),
}

/// The mathematical value of a [`ScanMessage`].
pub enum ScanMessageView {
    Phase(ScanPhase),
    Progress { done: u64, total: u64 },
    Done(Seq<FileGroupView>),
    Error(Seq<char>),
}

impl View for ScanMessage {
    type V = ScanMessageView;

    open spec fn view(&self) -> ScanMessageView {
        match self {
            ScanMessage::Phase(phase) => ScanMessageView::Phase(*phase),
            ScanMessage::Progress { done, total } => ScanMessageView::Progress {
                done: *done,
                total: *total,
            },
            ScanMessage::Done(groups) => ScanMessageView::Done(group_views(groups@)),
            ScanMessage::Error(text) => ScanMessageView::Error(text@),
        }
    }
}

/// The values of a list of scan messages.
pub open spec fn scan_message_views(messages: Seq<ScanMessage>) -> Seq<ScanMessageView> {
    messages.map_values(|m: ScanMessage| m@)
}

/// The stages of a scan.
#[derive(Debug, Clone, Copy, PartialEq, Eq, Structural)]
pub enum ScanPhase {
    Walking,
    Grouping,
    PrefixHashing,
    FullHashing,
}

/// The words that a stage is shown by.
pub open spec fn phase_label(phase: ScanPhase) -> Seq<char> {
    match phase {
        ScanPhase::Walking => "Scanning files"@,
        ScanPhase::Grouping => "Grouping by size"@,
        ScanPhase::PrefixHashing => "Quick-hashing candidates"@,
        ScanPhase::FullHashing => "Computing full checksums"@,
    }
}

impl ScanPhase {
    pub fn label(&self) -> (text: &'static str)
        ensures
            text@ == phase_label(*self),
    {
        match self {
            Self::Walking => "Scanning files",
            Self::Grouping => "Grouping by size",
            Self::PrefixHashing => "Quick-hashing candidates",
            Self::FullHashing => "Computing full checksums",
        }
    }
}

/// What the reclaimer reports.
#[derive(Debug)]
pub enum ReclaimMessage {
    Progress { done: u64, total: u64, reclaimed: u64 },
    Done { total_reclaimed: u64 },
    Error(String),
}

/// The mathematical value of a [`ReclaimMessage`].
pub enum ReclaimMessageView {
    Progress { done: u64, total: u64, reclaimed: u64 },
    Done { total_reclaimed: u64 },
    Error(Seq<char>),
}

impl View for ReclaimMessage {
    type V = ReclaimMessageView;

    open spec fn view(&self) -> ReclaimMessageView {
        match self {
            ReclaimMessage::Progress { done, total, reclaimed } => ReclaimMessageView::Progress {
                done: *done,
                total: *total,
                reclaimed: *reclaimed,
            },
            ReclaimMessage::Done { total_reclaimed } => ReclaimMessageView::Done {
                total_reclaimed: *total_reclaimed,
            },
            ReclaimMessage::Error(text) => ReclaimMessageView::Error(text@),
        }
    }
}

/// One file of a group stays, whatever their number: what the group saves and the size of one
/// file are the size of all its files together, as far as a `u64` holds that.
pub proof fn law_one_file_stays(group: FileGroupView)
    ensures
        group.files.len() == 0 ==> savings_of(group) == 0,
        group.files.len() > 0 && group.size * group.files.len() <= u64::MAX ==> savings_of(group)
            + group.size == group.size * group.files.len(),
        group.files.len() > 0 && group.size * (group.files.len() - 1) > u64::MAX ==> savings_of(
            group,
        ) == u64::MAX,
        group.files.len() > 0 && group.size * (group.files.len() - 1) <= u64::MAX ==> savings_of(
            group,
        ) == group.size * (group.files.len() - 1),
{
    if group.files.len() > 0 {
        let n = group.files.len();
        assert(group.size * n == group.size * (n - 1) + group.size) by (nonlinear_arith);
        assert(group.size as nat * (n - 1) as nat == group.size * (n - 1));
    }
}

/// What groups save together is what each saves, added up.
pub proof fn law_savings_add_up(groups: Seq<FileGroupView>, more: Seq<FileGroupView>)
    ensures
        savings_sum(groups + more) == savings_sum(groups) + savings_sum(more),
        groups.len() == 1 ==> savings_sum(groups) == savings_of(groups[0]),
    decreases more.len(),
{
    if more.len() == 0 {
        assert(groups + more =~= groups);
    } else {
        law_savings_add_up(groups, more.drop_last());
        assert((groups + more).drop_last() =~= groups + more.drop_last());
        assert((groups + more).last() == more.last());
    }
    if groups.len() == 1 {
        assert(groups.drop_last() =~= Seq::empty());
        assert(savings_sum(groups.drop_last()) == 0);
    }
}

/// What is known of a file and of a group is what their fields hold.
pub proof fn law_values_are_what_the_fields_hold(file: FileInfo, group: FileGroup, i: int)
    requires
        0 <= i < group.files@.len(),
    ensures
        file@.path == file.path.bytes@,
        file@.size == file.size,
        file@.inode == file.inode,
        file@.device == file.device,
        group@.size == group.size,
        group@.selected == group.selected,
        group@.files.len() == group.files@.len(),
        group@.files[i] == group.files@[i]@,
{
}

/// The values of a list stand in the order of the list.
pub proof fn law_values_stand_in_order(groups: Seq<FileGroup>, files: Seq<FileInfo>, i: int)
    ensures
        group_views(groups).len() == groups.len(),
        file_views(files).len() == files.len(),
        0 <= i < groups.len() ==> group_views(groups)[i] == groups[i]@,
        0 <= i < files.len() ==> file_views(files)[i] == files[i]@,
{
}

} // verus!
