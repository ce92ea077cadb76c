//! Which files are looked at, and what a scan does next.
//!
//! Reading directories and files is left to the caller. It asks [`is_excluded_root`] before it
//! walks and [`is_excluded`] before it descends, hands every entry to a [`Walk`], and then does
//! the work that each [`ScanStep`] names.

use crate::funnel;
use crate::path;
use crate::path::FilePath;
use crate::text;
use crate::types;
use crate::types::{FileGroup, FileInfo, FileInfoView, ScanMessage, ScanMessageView, ScanPhase};
use vstd::prelude::*;
use vstd::utf8::*;

verus! {

/// Set by the owner of a file against changes to it.
pub const UF_IMMUTABLE: u32 = 0x0002;

/// Set by the system against changes to a file.
pub const SF_IMMUTABLE: u32 = 0x0002_0000;

// ---------------------------------------------------------------------------
// What is never scanned
// ---------------------------------------------------------------------------

/// The endings of directories that are shown as single files.
pub open spec fn package_endings() -> Seq<Seq<char>> {
    seq![
        ".app"@,
        ".bundle"@,
        ".framework"@,
        ".plugin"@,
        ".kext"@,
        ".photoslibrary"@,
        ".imovielibrary"@,
        ".aplibrary"@,
        ".rtfd"@,
        ".xcodeproj"@,
        ".xcworkspace"@,
        ".playground"@,
        ".pages"@,
        ".numbers"@,
        ".key"@,
        ".sparsebundle"@,
    ]
}

/// The name has one of the endings of packages.
pub open spec fn is_package_name(name: Seq<char>) -> bool {
    exists|i: int|
        0 <= i < package_endings().len() && text::text_ends_with(
            name,
            #[trigger] package_endings()[i],
        )
}

/// The entries of the root directory that belong to the system.
pub open spec fn is_system_name(name: Seq<char>) -> bool {
    name == "System"@ || name == "dev"@ || name == "private"@ || name == "cores"@ || name
        == "proc"@
}

/// The name of library directories.
pub open spec fn library_name() -> Seq<u8> {
    encode_utf8("Library"@)
}

/// The library directory of the root or, where the home directory is known, of the user.
pub open spec fn is_library_path(p: Seq<u8>, home: Option<Seq<u8>>) -> bool {
    ||| home is Some && path::components(p) == path::components(home->0).push(
        path::ComponentView::Normal(library_name()),
    )
    ||| path::in_root(p) && path::file_name(p) == Some(library_name())
}

/// An entry with this name is neither yielded nor descended into.
pub open spec fn excludes(
    name: Seq<char>,
    is_dir: bool,
    root_entry: bool,
    library: bool,
    scan_library: bool,
) -> bool {
    ||| is_dir && is_package_name(name)
    ||| root_entry && is_system_name(name)
    ||| !scan_library && library
}

/// The path is neither yielded nor descended into.
pub open spec fn is_excluded_path(
    p: Seq<u8>,
    is_dir: bool,
    scan_library: bool,
    home: Option<Seq<u8>>,
) -> bool {
    match path::file_name(p) {
        None => false,
        Some(name) => excludes(
            text::lossy_text(name),
            is_dir,
            path::in_root(p),
            is_library_path(p, home),
            scan_library,
        ),
    }
}

/// Whether a directory of this name is a package: one that is shown as a single file.
pub fn is_package_dir(name: &str) -> (yes: bool)
    ensures
        yes == is_package_name(name@),
{
    let yes: bool = text::ends_with(name, ".app") || text::ends_with(name, ".bundle")
        || text::ends_with(name, ".framework") || text::ends_with(name, ".plugin")
        || text::ends_with(name, ".kext") || text::ends_with(name, ".photoslibrary")
        || text::ends_with(name, ".imovielibrary") || text::ends_with(name, ".aplibrary")
        || text::ends_with(name, ".rtfd") || text::ends_with(name, ".xcodeproj")
        || text::ends_with(name, ".xcworkspace") || text::ends_with(name, ".playground")
        || text::ends_with(name, ".pages") || text::ends_with(name, ".numbers")
        || text::ends_with(name, ".key") || text::ends_with(name, ".sparsebundle");
    proof {
        let e = package_endings();
        assert(e[0] == ".app"@ && e[1] == ".bundle"@ && e[2] == ".framework"@ && e[3]
            == ".plugin"@);
        assert(e[4] == ".kext"@ && e[5] == ".photoslibrary"@ && e[6] == ".imovielibrary"@ && e[7]
            == ".aplibrary"@);
        assert(e[8] == ".rtfd"@ && e[9] == ".xcodeproj"@ && e[10] == ".xcworkspace"@ && e[11]
            == ".playground"@);
        assert(e[12] == ".pages"@ && e[13] == ".numbers"@ && e[14] == ".key"@ && e[15]
            == ".sparsebundle"@);
    }
    yes
}

fn is_system_dir(name: &str) -> (yes: bool)
    ensures
        yes == is_system_name(name@),
{
    text::same_text(name, "System") || text::same_text(name, "dev") || text::same_text(
        name,
        "private",
    ) || text::same_text(name, "cores") || text::same_text(name, "proc")
}

/// Whether the path names the library directory of the root or of the user.
pub fn is_library_dir(p: &FilePath, home: &Option<FilePath>) -> (yes: bool)
    ensures
        yes == is_library_path(
            p@,
            match home {
                Some(h) => Some(h@),
                None => None,
            },
        ),
{
    match home {
        Some(h) => {
            if p.is_entry_of(h, "Library".as_bytes()) {
                return true;
            }
        },
        None => {},
    }
    if !p.in_root() {
        return false;
    }
    match p.file_name() {
        Some(name) => crate::order::same_bytes(name.as_slice(), "Library".as_bytes()),
        None => false,
    }
}

/// Whether an entry with this name is left out: `root_entry` tells that it stands in the root
/// directory, `library` that it is a library directory.
pub fn is_excluded_name(
    name: &str,
    is_dir: bool,
    root_entry: bool,
    library: bool,
    scan_library: bool,
) -> (yes: bool)
    ensures
        yes == excludes(name@, is_dir, root_entry, library, scan_library),
{
    (is_dir && is_package_dir(name)) || (root_entry && is_system_dir(name)) || (!scan_library
        && library)
}

/// Whether a walk should neither yield the entry nor descend into it.
pub fn is_excluded(
    p: &FilePath,
    is_dir: bool,
    scan_library: bool,
    home: &Option<FilePath>,
) -> (yes: bool)
    ensures
        yes == is_excluded_path(
            p@,
            is_dir,
            scan_library,
            match home {
                Some(h) => Some(h@),
                None => None,
            },
        ),
        path::file_name(p@) matches Some(bytes) ==> text::reads_exactly(bytes),
{
    match p.file_name() {
        Some(name) => {
            let shown = text::from_utf8_lossy(name.as_slice());
            is_excluded_name(
                shown.as_str(),
                is_dir,
                p.in_root(),
                is_library_dir(p, home),
                scan_library,
            )
        },
        None => false,
    }
}

/// `p` names the directory that the first `k` components of `below` lead to, on the way to what
/// they all lead to.
pub open spec fn is_ancestor(p: Seq<u8>, below: Seq<u8>, k: int) -> bool {
    &&& 0 < k < path::components(below).len()
    &&& path::components(p) == path::components(below).take(k)
}

/// The directory of processes, which is left out of a walk from above but may be asked into.
pub open spec fn is_proc_path(p: Seq<u8>) -> bool {
    path::in_root(p) && path::file_name(p) is Some && text::lossy_text(path::file_name(p)->0)
        == "proc"@
}

/// A directory on the way to the path, other than `/proc`, is neither yielded nor descended
/// into.
pub open spec fn lies_in_excluded(
    below: Seq<u8>,
    scan_library: bool,
    home: Option<Seq<u8>>,
) -> bool {
    exists|k: int, p: Seq<u8>| #[trigger]
        is_ancestor(p, below, k) && is_excluded_path(p, true, scan_library, home)
            && !is_proc_path(p)
}

fn is_proc_dir(p: &FilePath) -> (yes: bool)
    ensures
        yes == is_proc_path(p@),
{
    if !p.in_root() {
        return false;
    }
    match p.file_name() {
        Some(name) => {
            let shown = text::from_utf8_lossy(name.as_slice());
            text::same_text(shown.as_str(), "proc")
        },
        None => false,
    }
}

/// Whether a walk should not start at the root, because a directory on the way to it, other than
/// `/proc`, is left out. The root itself is an entry of the walk.
pub fn is_excluded_root(root: &FilePath, scan_library: bool, home: &Option<FilePath>) -> (yes: bool)
    ensures
        yes == lies_in_excluded(
            root@,
            scan_library,
            match home {
                Some(h) => Some(h@),
                None => None,
            },
        ),
        forall|k: int, p: Seq<u8>| #[trigger]
            is_ancestor(p, root@, k) && path::file_name(p) is Some ==> text::reads_exactly(
                path::file_name(p)->0,
            ),
{
    let ghost comps = path::components(root@);
    let ghost home_view = match home {
        Some(h) => Some(h@),
        None => None,
    };
    let parts = root.components();
    assert(path::component_views(parts@).len() == parts@.len());
    let mut left: usize = parts.len();
    let mut dir = root.clone();
    let mut found: bool = false;
    assert(comps.take(comps.len() as int) =~= comps);
    while left > 1
        invariant
            left <= comps.len(),
            comps == path::components(root@),
            home_view == (match home {
                Some(h) => Some(h@),
                None => None,
            }),
            path::components(dir@) == comps.take(left as int),
            found ==> lies_in_excluded(root@, scan_library, home_view),
            forall|k: int, p: Seq<u8>| #[trigger]
                is_ancestor(p, root@, k) && k >= left ==> {
                    &&& is_excluded_path(p, true, scan_library, home_view) && !is_proc_path(p)
                        ==> found
                    &&& path::file_name(p) is Some ==> text::reads_exactly(path::file_name(p)->0)
                },
        decreases left,
    {
        proof {
            path::lemma_later_components(root@, left - 1);
            path::law_parent_drops_last_component(dir@);
            assert(comps.take(left as int).drop_last() =~= comps.take(left - 1));
        }
        dir = dir.parent();
        left -= 1;
        assert(is_ancestor(dir@, root@, left as int));
        if is_excluded(&dir, true, scan_library, home) && !is_proc_dir(&dir) {
            found = true;
        }
    }
    found
}

/// One of the flags against changes is set.
pub open spec fn locked_by(flags: u32) -> bool {
    flags & UF_IMMUTABLE != 0 || flags & SF_IMMUTABLE != 0
}

/// Whether a file with these flags cannot safely be replaced.
pub fn is_locked(flags: u32) -> (yes: bool)
    ensures
        yes == locked_by(flags),
{
    flags & UF_IMMUTABLE != 0 || flags & SF_IMMUTABLE != 0
}

// ---------------------------------------------------------------------------
// The walk
// ---------------------------------------------------------------------------

/// What is known of a file before its content is read.
#[derive(Debug, Clone, Copy)]
pub struct EntryMeta {
    pub size: u64,
    pub inode: u64,
    pub device: u64,
}

/// One entry that a walk yields.
#[derive(Debug)]
pub struct WalkEntry {
    pub path: FilePath,
    /// Whether the entry is a regular file: no directory, no symbolic link.
    pub is_file: bool,
    /// `None` where it could not be read.
    pub meta: Option<EntryMeta>,
    /// The BSD flags of the file.
    pub flags: u32,
}

/// The file that an entry adds to a scan for files of at least `min_size` bytes, if any.
pub open spec fn scanned_file(entry: WalkEntry, min_size: u64) -> Option<FileInfoView> {
    match entry.meta {
        Some(meta) => {
            if entry.is_file && meta.size >= min_size && !locked_by(entry.flags) {
                Some(
                    FileInfoView {
                        path: entry.path@,
                        size: meta.size,
                        inode: meta.inode,
                        device: meta.device,
                    },
                )
            } else {
                None
            }
        },
        None => None,
    }
}

/// What a walk reports when it has found its `found`-th file: its count, at every two
/// hundredth.
pub open spec fn walk_progress(found: nat) -> Option<ScanMessageView> {
    if found % 200 == 0 {
        Some(ScanMessageView::Progress { done: found as u64, total: 0 })
    } else {
        None
    }
}

/// The value of an optional message.
pub open spec fn optional_message(message: Option<ScanMessage>) -> Option<ScanMessageView> {
    match message {
        Some(m) => Some(m@),
        None => None,
    }
}

/// What a scan does next.
#[derive(Debug)]
pub enum ScanWork {
    /// Compute the digest of the start of each file, then call [`after_prefixes`].
    HashPrefixes(Vec<FileInfo>),
    /// Compute the digest of the content of each file, then call [`after_contents`].
    HashContents(Vec<FileInfo>),
    /// Nothing is left to do.
    Finished,
}

/// What a scan reports and does next.
#[derive(Debug)]
pub struct ScanStep {
    pub messages: Vec<ScanMessage>,
    pub next: ScanWork,
}

/// What a scan reports first.
pub fn begin_scan() -> (message: ScanMessage)
    ensures
        message@ == ScanMessageView::Phase(ScanPhase::Walking),
{
    ScanMessage::Phase(ScanPhase::Walking)
}

/// The files found so far by a walk.
#[derive(Debug)]
pub struct Walk {
    pub min_size: u64,
    pub files: Vec<FileInfo>,
}

impl Walk {
    /// A walk that takes files of at least `min_size` bytes.
    pub fn new(min_size: u64) -> (walk: Walk)
        ensures
            walk.min_size == min_size,
            types::file_views(walk.files@) == Seq::<FileInfoView>::empty(),
    {
        let files: Vec<FileInfo> = Vec::new();
        assert(types::file_views(files@) =~= Seq::<FileInfoView>::empty());
        Walk { min_size, files }
    }

    /// Takes in one entry.
    pub fn visit(&mut self, entry: WalkEntry) -> (message: Option<ScanMessage>)
        ensures
            final(self).min_size == old(self).min_size,
            match scanned_file(entry, old(self).min_size) {
                Some(file) => {
                    &&& types::file_views(final(self).files@) == types::file_views(
                        old(self).files@,
                    ).push(file)
                    &&& optional_message(message) == walk_progress(old(self).files@.len() + 1)
                },
                None => {
                    &&& final(self).files@ == old(self).files@
                    &&& message is None
                },
            },
    {
        if !entry.is_file {
            return None;
        }
        let meta = match entry.meta {
            Some(meta) => meta,
            None => {
                return None;
            },
        };
        if meta.size < self.min_size || is_locked(entry.flags) {
            return None;
        }
        let ghost before = self.files@;
        let file = FileInfo {
            path: entry.path,
            size: meta.size,
            inode: meta.inode,
            device: meta.device,
        };
        self.files.push(file);
        assert(types::file_views(self.files@) =~= types::file_views(before).push(file@));
        let found: u64 = self.files.len() as u64;
        if found % 200 == 0 {
            Some(ScanMessage::Progress { done: found, total: 0 })
        } else {
            None
        }
    }

    /// Ends the walk: the files that share their size with another are looked at further.
    pub fn finish(self) -> (step: ScanStep)
        ensures
            walk_leads_to(types::file_views(self.files@), step),
    {
        let ghost views = types::file_views(self.files@);
        let found: u64 = self.files.len() as u64;
        let kept = funnel::size_candidates(self.files);
        let mut messages: Vec<ScanMessage> = Vec::new();
        messages.push(ScanMessage::Progress { done: found, total: found });
        messages.push(ScanMessage::Phase(ScanPhase::Grouping));
        assert(types::file_views(kept@).len() == kept@.len());
        if kept.len() == 0 {
            assert(types::file_views(kept@) =~= Seq::<FileInfoView>::empty());
            let none: Vec<FileGroup> = Vec::new();
            assert(types::group_views(none@) =~= Seq::empty());
            messages.push(ScanMessage::Done(none));
            assert(types::scan_message_views(messages@) =~= walk_messages(views.len()).push(
                ScanMessageView::Done(Seq::empty()),
            ));
            ScanStep { messages, next: ScanWork::Finished }
        } else {
            messages.push(ScanMessage::Phase(ScanPhase::PrefixHashing));
            assert(types::scan_message_views(messages@) =~= walk_messages(views.len()).push(
                ScanMessageView::Phase(ScanPhase::PrefixHashing),
            ));
            ScanStep { messages, next: ScanWork::HashPrefixes(kept) }
        }
    }
}

/// What is reported when a walk has found `found` files.
pub open spec fn walk_messages(found: nat) -> Seq<ScanMessageView> {
    seq![
        ScanMessageView::Progress { done: found as u64, total: found as u64 },
        ScanMessageView::Phase(ScanPhase::Grouping),
    ]
}

/// The step after a walk that found `files`.
pub open spec fn walk_leads_to(files: Seq<FileInfoView>, step: ScanStep) -> bool {
    let messages = types::scan_message_views(step.messages@);
    match step.next {
        ScanWork::HashPrefixes(kept) => {
            &&& kept@.len() > 0
            &&& funnel::are_candidates(types::file_views(kept@), funnel::unhashed(files))
            &&& messages == walk_messages(files.len()).push(
                ScanMessageView::Phase(ScanPhase::PrefixHashing),
            )
        },
        ScanWork::HashContents(_) => false,
        ScanWork::Finished => {
            &&& funnel::are_candidates(Seq::empty(), funnel::unhashed(files))
            &&& messages == walk_messages(files.len()).push(ScanMessageView::Done(Seq::empty()))
        },
    }
}

/// The step after the quick digests: `items` are the files that have one.
pub open spec fn prefixes_lead_to(
    items: Seq<funnel::FingerprintedView>,
    step: ScanStep,
) -> bool {
    let messages = types::scan_message_views(step.messages@);
    match step.next {
        ScanWork::HashPrefixes(_) => false,
        ScanWork::HashContents(kept) => {
            &&& kept@.len() > 0
            &&& funnel::are_candidates(types::file_views(kept@), items)
            &&& messages == seq![ScanMessageView::Phase(ScanPhase::FullHashing)]
        },
        ScanWork::Finished => {
            &&& funnel::are_candidates(Seq::empty(), items)
            &&& messages == seq![ScanMessageView::Done(Seq::empty())]
        },
    }
}

/// Takes in the digest of the start of each file, `None` where it could not be read: the files
/// that share size and digest with another are looked at further.
pub fn after_prefixes(files: Vec<FileInfo>, digests: &Vec<Option<[u8; 32]>>) -> (step: ScanStep)
    requires
        files@.len() == digests@.len(),
    ensures
        prefixes_lead_to(
            funnel::hashed(types::file_views(files@), funnel::digest_views(digests@)),
            step,
        ),
{
    let kept = funnel::prefix_candidates(files, digests);
    let mut messages: Vec<ScanMessage> = Vec::new();
    assert(types::file_views(kept@).len() == kept@.len());
    if kept.len() == 0 {
        assert(types::file_views(kept@) =~= Seq::<FileInfoView>::empty());
        let none: Vec<FileGroup> = Vec::new();
        assert(types::group_views(none@) =~= Seq::empty());
        messages.push(ScanMessage::Done(none));
        assert(types::scan_message_views(messages@) =~= seq![
            ScanMessageView::Done(Seq::empty()),
        ]);
        ScanStep { messages, next: ScanWork::Finished }
    } else {
        messages.push(ScanMessage::Phase(ScanPhase::FullHashing));
        assert(types::scan_message_views(messages@) =~= seq![
            ScanMessageView::Phase(ScanPhase::FullHashing),
        ]);
        ScanStep { messages, next: ScanWork::HashContents(kept) }
    }
}

/// Takes in the digest of the content of each file, `None` where it could not be read: the scan
/// ends with the groups of duplicates.
pub fn after_contents(files: Vec<FileInfo>, digests: &Vec<Option<[u8; 32]>>) -> (message:
    ScanMessage)
    requires
        files@.len() == digests@.len(),
    ensures
        message@ is Done,
        funnel::is_duplicate_report(
            message@->Done_0,
            funnel::hashed(types::file_views(files@), funnel::digest_views(digests@)),
        ),
{
    ScanMessage::Done(funnel::duplicate_groups(files, digests))
}

/// What is reported when `done` of `total` quick digests have been computed: the count, at every
/// hundredth.
pub fn prefix_progress(done: u64, total: u64) -> (message: Option<ScanMessage>)
    ensures
        optional_message(message) == (if done % 100 == 0 {
            Some(ScanMessageView::Progress { done, total })
        } else {
            None
        }),
{
    if done % 100 == 0 {
        Some(ScanMessage::Progress { done, total })
    } else {
        None
    }
}

/// What is reported when `done` of `total` full digests have been computed: the count, at every
/// twentieth.
pub fn full_progress(done: u64, total: u64) -> (message: Option<ScanMessage>)
    ensures
        optional_message(message) == (if done % 20 == 0 {
            Some(ScanMessageView::Progress { done, total })
        } else {
            None
        }),
{
    if done % 20 == 0 {
        Some(ScanMessage::Progress { done, total })
    } else {
        None
    }
}

// ---------------------------------------------------------------------------
// Laws
// ---------------------------------------------------------------------------

/// What is no regular file, is locked or is too small is never scanned.
pub proof fn law_never_scanned(entry: WalkEntry, min_size: u64)
    requires
        !entry.is_file || locked_by(entry.flags) || (entry.meta is Some && entry.meta->0.size
            < min_size),
    ensures
        scanned_file(entry, min_size) is None,
{
}

/// Packages and the directories of the system are excluded whether or not libraries are to be
/// scanned.
pub proof fn law_always_excluded(
    p: Seq<u8>,
    is_dir: bool,
    scan_library: bool,
    home: Option<Seq<u8>>,
)
    requires
        path::file_name(p) is Some,
        (is_dir && is_package_name(text::lossy_text(path::file_name(p)->0))) || (path::in_root(p)
            && is_system_name(text::lossy_text(path::file_name(p)->0))),
    ensures
        is_excluded_path(p, is_dir, scan_library, home),
{
}

/// A library directory is excluded unless libraries are to be scanned, and whether they are
/// makes no difference to any other path.
pub proof fn law_libraries_need_asking(p: Seq<u8>, is_dir: bool, home: Option<Seq<u8>>)
    ensures
        is_library_path(p, home) ==> is_excluded_path(p, is_dir, false, home),
        !is_library_path(p, home) ==> is_excluded_path(p, is_dir, false, home)
            == is_excluded_path(p, is_dir, true, home),
        is_excluded_path(p, is_dir, true, home) ==> is_excluded_path(p, is_dir, false, home),
{
    if is_library_path(p, home) && !path::in_root(p) {
        assert(path::components(p).last() == path::ComponentView::Normal(library_name()));
    }
}

/// What is excluded, and nothing else is: a directory whose name has one of the endings of
/// packages, an entry of the root directory with one of the names of the system, and, unless
/// libraries are to be scanned, the library of the root and that of the home directory.
pub proof fn law_nothing_else_is_excluded(
    p: Seq<u8>,
    is_dir: bool,
    scan_library: bool,
    home: Option<Seq<u8>>,
)
    ensures
        is_excluded_path(p, is_dir, scan_library, home) <==> {
            let comps = path::components(p);
            let named = comps.len() > 0 && comps.last() is Normal;
            let name = text::lossy_text(comps.last()->0);
            let library = path::ComponentView::Normal(encode_utf8("Library"@));
            let ends = |ending: Seq<char>| exists|stem: Seq<char>| name == #[trigger] (stem + ending);
            let package = ends(".app"@) || ends(".bundle"@) || ends(".framework"@) || ends(
                ".plugin"@,
            ) || ends(".kext"@) || ends(".photoslibrary"@) || ends(".imovielibrary"@) || ends(
                ".aplibrary"@,
            ) || ends(".rtfd"@) || ends(".xcodeproj"@) || ends(".xcworkspace"@) || ends(
                ".playground"@,
            ) || ends(".pages"@) || ends(".numbers"@) || ends(".key"@) || ends(".sparsebundle"@);
            let system = name == "System"@ || name == "dev"@ || name == "private"@ || name
                == "cores"@ || name == "proc"@;
            &&& named
            &&& {
                ||| is_dir && package
                ||| comps.len() == 2 && comps[0] is RootDir && system
                ||| !scan_library && comps == seq![path::ComponentView::RootDir, library]
                ||| !scan_library && home is Some && comps == path::components(home->0).push(
                    library,
                )
            }
        },
{
    let comps = path::components(p);
    let name = text::lossy_text(comps.last()->0);
    let library = path::ComponentView::Normal(encode_utf8("Library"@));
    let ends = |ending: Seq<char>| exists|stem: Seq<char>| name == #[trigger] (stem + ending);
    let e = package_endings();
    assert forall|i: int| 0 <= i < e.len() implies text::text_ends_with(name, #[trigger] e[i])
        == ends(e[i]) by {
        lemma_ends(name, e[i]);
    }
    assert(e[0] == ".app"@ && e[1] == ".bundle"@ && e[2] == ".framework"@ && e[3] == ".plugin"@);
    assert(e[4] == ".kext"@ && e[5] == ".photoslibrary"@ && e[6] == ".imovielibrary"@ && e[7]
        == ".aplibrary"@);
    assert(e[8] == ".rtfd"@ && e[9] == ".xcodeproj"@ && e[10] == ".xcworkspace"@ && e[11]
        == ".playground"@);
    assert(e[12] == ".pages"@ && e[13] == ".numbers"@ && e[14] == ".key"@ && e[15]
        == ".sparsebundle"@);
    assert(e.len() == 16);
    let root_library = seq![path::ComponentView::RootDir, library];
    if path::in_root(p) && path::file_name(p) == Some(library_name()) {
        assert(comps =~= root_library);
    }
    if comps == root_library {
        assert(comps.last() == library);
    }
}

proof fn lemma_ends(name: Seq<char>, ending: Seq<char>)
    ensures
        text::text_ends_with(name, ending) <==> exists|stem: Seq<char>|
            name == #[trigger] (stem + ending),
{
    if text::text_ends_with(name, ending) {
        let stem = name.take(name.len() - ending.len());
        assert(name =~= stem + ending);
    }
    if exists|stem: Seq<char>| name == #[trigger] (stem + ending) {
        let stem = choose|stem: Seq<char>| name == #[trigger] (stem + ending);
        assert(name.skip(name.len() - ending.len()) =~= ending);
    }
}

/// A root is refused exactly where a proper start of its components leads to an excluded
/// directory other than `/proc`, however deep the root lies below it.
pub proof fn law_roots_below_excluded_are_refused(
    root: Seq<u8>,
    dir: Seq<u8>,
    k: int,
    scan_library: bool,
    home: Option<Seq<u8>>,
)
    requires
        0 < k < path::components(root).len(),
        path::components(dir) == path::components(root).take(k),
        is_excluded_path(dir, true, scan_library, home),
        path::components(dir).len() != 2 || text::lossy_text(path::components(dir)[1]->0)
            != "proc"@,
    ensures
        lies_in_excluded(root, scan_library, home),
{
    assert(is_ancestor(dir, root, k));
}

/// Where no proper start of its components leads to an excluded directory, a root is not refused.
pub proof fn law_other_roots_are_walked(
    root: Seq<u8>,
    scan_library: bool,
    home: Option<Seq<u8>>,
)
    requires
        forall|dir: Seq<u8>|
            path::components(dir).len() < path::components(root).len() && path::components(dir)
                == path::components(root).take(path::components(dir).len() as int)
                ==> !#[trigger] is_excluded_path(dir, true, scan_library, home),
    ensures
        !lies_in_excluded(root, scan_library, home),
{
}

/// A regular file of at least the least size that carries neither of the two flags against
/// changes is scanned with its own path, size, inode and device, and no other entry is.
pub proof fn law_every_other_file_is_scanned(entry: WalkEntry, min_size: u64)
    ensures
        scanned_file(entry, min_size) is Some <==> entry.is_file && entry.meta is Some
            && entry.meta->0.size >= min_size && entry.flags & 0x0002 == 0 && entry.flags
            & 0x0002_0000 == 0,
        scanned_file(entry, min_size) matches Some(file) ==> {
            &&& file.path == entry.path.bytes@
            &&& file.size == entry.meta->0.size
            &&& file.inode == entry.meta->0.inode
            &&& file.device == entry.meta->0.device
        },
{
}

} // verus!
