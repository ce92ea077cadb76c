//! What a scan never comes to.

use crate::funnel;
use crate::funnel::FingerprintedView;
use crate::funnel_laws;
use crate::path;
use crate::scanner;
use crate::scanner::{ScanStep, ScanWork, WalkEntry};
use crate::types;
use crate::types::{FileGroupView, FileInfoView, ScanMessageView, ScanPhase};
use vstd::prelude::*;

verus! {

/// One entry that a walk yields, with its absolute path.
pub struct Visit {
    pub entry: WalkEntry,
    pub place: Seq<u8>,
    pub is_dir: bool,
}

/// `place` is one of the roots, and no directory on the way to it is excluded but `/proc`.
pub open spec fn starts_at(
    place: Seq<u8>,
    roots: Seq<Seq<u8>>,
    scan_library: bool,
    home: Option<Seq<u8>>,
) -> bool {
    exists|r: int|
        {
            &&& 0 <= r < roots.len()
            &&& path::components(place) == path::components(#[trigger] roots[r])
            &&& !scanner::lies_in_excluded(roots[r], scan_library, home)
        }
}

/// `place` is an entry of the directory at `dir`.
pub open spec fn is_entry_in(place: Seq<u8>, dir: Seq<u8>) -> bool {
    &&& path::components(place).len() == path::components(dir).len() + 1
    &&& path::components(place).drop_last() == path::components(dir)
}

/// The visit at position `i` is one that a walk can make: what it comes to is not excluded, and
/// it is a root that may be walked or stands in a directory that was visited before.
pub open spec fn can_visit(
    visits: Seq<Visit>,
    roots: Seq<Seq<u8>>,
    scan_library: bool,
    home: Option<Seq<u8>>,
    i: int,
) -> bool {
    let visit = visits[i];
    &&& !scanner::is_excluded_path(visit.place, visit.is_dir, scan_library, home)
    &&& visit.entry.is_file ==> !visit.is_dir
    &&& {
        ||| starts_at(visit.place, roots, scan_library, home)
        ||| exists|j: int|
            0 <= j < i && (#[trigger] visits[j]).is_dir && is_entry_in(
                visit.place,
                visits[j].place,
            )
    }
}

/// The visits of a walk that asks [`scanner::is_excluded_root`] of every root and
/// [`scanner::is_excluded`] of every entry.
pub open spec fn is_walk(
    visits: Seq<Visit>,
    roots: Seq<Seq<u8>>,
    scan_library: bool,
    home: Option<Seq<u8>>,
) -> bool {
    forall|i: int|
        0 <= i < visits.len() ==> #[trigger] can_visit(visits, roots, scan_library, home, i)
}

/// The files that a [`scanner::Walk`] has after it has taken in the entries one after another.
pub open spec fn files_found(visits: Seq<Visit>, min_size: u64) -> Seq<FileInfoView>
    decreases visits.len(),
{
    if visits.len() == 0 {
        Seq::empty()
    } else {
        let before = files_found(visits.drop_last(), min_size);
        match scanner::scanned_file(visits.last().entry, min_size) {
            Some(file) => before.push(file),
            None => before,
        }
    }
}

/// `place` is `root` or lies below it, no directory on the way to the root but `/proc` is
/// excluded, and none from the root down.
pub open spec fn is_clear_from(
    place: Seq<u8>,
    root: Seq<u8>,
    scan_library: bool,
    home: Option<Seq<u8>>,
) -> bool {
    let depth = path::components(root).len();
    &&& depth <= path::components(place).len()
    &&& path::components(place).take(depth as int) == path::components(root)
    &&& !scanner::lies_in_excluded(root, scan_library, home)
    &&& forall|k: int, p: Seq<u8>| #[trigger]
        scanner::is_ancestor(p, place, k) && k >= depth ==> !scanner::is_excluded_path(
            p,
            true,
            scan_library,
            home,
        )
}

/// What a walk comes to is not excluded. It lies below a root, and no directory from the root
/// down to it is excluded; neither is any on the way to the root, `/proc` aside.
pub proof fn law_no_excluded_ancestor(
    visits: Seq<Visit>,
    roots: Seq<Seq<u8>>,
    scan_library: bool,
    home: Option<Seq<u8>>,
    i: int,
)
    requires
        is_walk(visits, roots, scan_library, home),
        0 <= i < visits.len(),
    ensures
        !scanner::is_excluded_path(visits[i].place, visits[i].is_dir, scan_library, home),
        !scanner::lies_in_excluded(visits[i].place, scan_library, home),
        exists|r: int|
            0 <= r < roots.len() && is_clear_from(
                visits[i].place,
                #[trigger] roots[r],
                scan_library,
                home,
            ),
{
    let place = visits[i].place;
    assert(can_visit(visits, roots, scan_library, home, i));
    let r = lemma_clear_from_root(visits, roots, scan_library, home, i);
    let depth = path::components(roots[r]).len();
    assert forall|k: int, p: Seq<u8>| #[trigger]
        scanner::is_ancestor(p, place, k) && scanner::is_excluded_path(
            p,
            true,
            scan_library,
            home,
        ) implies scanner::is_proc_path(p) by {
        if k < depth {
            let comps = path::components(place);
            assert(comps.take(k) =~= comps.take(depth as int).take(k));
            assert(scanner::is_ancestor(p, roots[r], k));
        }
    }
}

proof fn lemma_clear_from_root(
    visits: Seq<Visit>,
    roots: Seq<Seq<u8>>,
    scan_library: bool,
    home: Option<Seq<u8>>,
    i: int,
) -> (r: int)
    requires
        is_walk(visits, roots, scan_library, home),
        0 <= i < visits.len(),
    ensures
        0 <= r < roots.len(),
        is_clear_from(visits[i].place, roots[r], scan_library, home),
    decreases i,
{
    let place = visits[i].place;
    let comps = path::components(place);
    assert(can_visit(visits, roots, scan_library, home, i));
    if starts_at(place, roots, scan_library, home) {
        let r = choose|r: int|
            {
                &&& 0 <= r < roots.len()
                &&& path::components(place) == path::components(#[trigger] roots[r])
                &&& !scanner::lies_in_excluded(roots[r], scan_library, home)
            };
        assert(comps.take(comps.len() as int) =~= comps);
        r
    } else {
        let j = choose|j: int|
            0 <= j < i && (#[trigger] visits[j]).is_dir && is_entry_in(place, visits[j].place);
        let dir = visits[j].place;
        assert(can_visit(visits, roots, scan_library, home, j));
        let r = lemma_clear_from_root(visits, roots, scan_library, home, j);
        let depth = path::components(roots[r]).len();
        assert(comps.take(depth as int) =~= comps.drop_last().take(depth as int));
        assert forall|k: int, p: Seq<u8>| #[trigger]
            scanner::is_ancestor(p, place, k) && k >= depth implies !scanner::is_excluded_path(
            p,
            true,
            scan_library,
            home,
        ) by {
            assert(comps.take(k) =~= comps.drop_last().take(k));
            if k < comps.len() - 1 {
                assert(scanner::is_ancestor(p, dir, k));
            } else {
                assert(comps.take(k) =~= path::components(dir));
            }
        }
        r
    }
}

proof fn lemma_found_was_visited(visits: Seq<Visit>, min_size: u64, file: FileInfoView) -> (v: int)
    requires
        files_found(visits, min_size).contains(file),
    ensures
        0 <= v < visits.len(),
        scanner::scanned_file(visits[v].entry, min_size) == Some(file),
    decreases visits.len(),
{
    let found = files_found(visits, min_size);
    let before = files_found(visits.drop_last(), min_size);
    let i = choose|i: int| 0 <= i < found.len() && found[i] == file;
    if i < before.len() {
        assert(before[i] == file);
        lemma_found_was_visited(visits.drop_last(), min_size, file)
    } else {
        visits.len() - 1
    }
}

/// `file` was found by the visit, which came to a regular file that is large enough, not locked
/// and not excluded. No directory from a root down to it is excluded, nor any on the way to the
/// root, `/proc` aside.
pub open spec fn is_allowed(
    file: FileInfoView,
    visit: Visit,
    roots: Seq<Seq<u8>>,
    min_size: u64,
    scan_library: bool,
    home: Option<Seq<u8>>,
) -> bool {
    &&& visit.entry.path@ == file.path
    &&& visit.entry.is_file
    &&& file.size >= min_size
    &&& !scanner::locked_by(visit.entry.flags)
    &&& !scanner::is_excluded_path(visit.place, false, scan_library, home)
    &&& !scanner::lies_in_excluded(visit.place, scan_library, home)
    &&& exists|r: int|
        0 <= r < roots.len() && is_clear_from(
            visit.place,
            #[trigger] roots[r],
            scan_library,
            home,
        )
}

/// Every file that a scan reports is a regular file of at least the least size that is not
/// locked, and neither it nor any directory from its root down to it is excluded. Of the
/// directories on the way to the root none is excluded but `/proc`.
pub proof fn law_reported_files_are_allowed(
    visits: Seq<Visit>,
    roots: Seq<Seq<u8>>,
    scan_library: bool,
    home: Option<Seq<u8>>,
    min_size: u64,
    prefix_digest: spec_fn(FileInfoView) -> Option<Seq<u8>>,
    full_digest: spec_fn(FileInfoView) -> Option<Seq<u8>>,
    by_size: Seq<FileInfoView>,
    by_prefix: Seq<FileInfoView>,
    groups: Seq<FileGroupView>,
    g: int,
    i: int,
)
    requires
        is_walk(visits, roots, scan_library, home),
        funnel_laws::scans_to(
            files_found(visits, min_size),
            prefix_digest,
            full_digest,
            by_size,
            by_prefix,
            groups,
        ),
        0 <= g < groups.len(),
        0 <= i < groups[g].files.len(),
    ensures
        exists|v: int|
            0 <= v < visits.len() && is_allowed(
                groups[g].files[i],
                #[trigger] visits[v],
                roots,
                min_size,
                scan_library,
                home,
            ),
{
    let found = files_found(visits, min_size);
    let file = groups[g].files[i];
    funnel_laws::law_grouped_files_were_walked(
        found,
        prefix_digest,
        full_digest,
        by_size,
        by_prefix,
        groups,
        g,
        i,
    );
    let v = lemma_found_was_visited(visits, min_size, file);
    assert(can_visit(visits, roots, scan_library, home, v));
    law_no_excluded_ancestor(visits, roots, scan_library, home, v);
    assert(is_allowed(file, visits[v], roots, min_size, scan_library, home));
}

/// Where every root lies in an excluded directory, nothing is walked.
pub proof fn law_excluded_roots_are_not_walked(
    visits: Seq<Visit>,
    roots: Seq<Seq<u8>>,
    scan_library: bool,
    home: Option<Seq<u8>>,
)
    requires
        is_walk(visits, roots, scan_library, home),
        forall|r: int|
            0 <= r < roots.len() ==> scanner::lies_in_excluded(
                #[trigger] roots[r],
                scan_library,
                home,
            ),
    ensures
        visits.len() == 0,
{
    if visits.len() > 0 {
        assert(can_visit(visits, roots, scan_library, home, 0));
    }
}

/// Two files of the same size that are not links to the same file.
pub open spec fn same_size_twins(a: FileInfoView, b: FileInfoView) -> bool {
    a.size == b.size && (a.inode != b.inode || a.device != b.device)
}

/// After a walk the quick digests are computed where two different files have the same size, and
/// else the scan ends without groups. The count of the files and the phases are reported.
pub proof fn law_walk_goes_on_where_sizes_are_shared(files: Seq<FileInfoView>, step: ScanStep)
    requires
        scanner::walk_leads_to(files, step),
        files.len() <= u64::MAX,
    ensures
        step.next is HashPrefixes || step.next is Finished,
        step.next is HashPrefixes <==> exists|i: int, j: int|
            0 <= i < files.len() && 0 <= j < files.len() && #[trigger] same_size_twins(
                files[i],
                files[j],
            ),
        step.next matches ScanWork::HashPrefixes(kept) ==> forall|file: FileInfoView| #[trigger]
            types::file_views(kept@).contains(file) <==> files.contains(file) && exists|
                i: int,
                j: int,
            |
                0 <= i < files.len() && 0 <= j < files.len() && files[i].size == file.size
                    && #[trigger] same_size_twins(files[i], files[j]),
        step.messages@.len() == 3,
        step.messages@[0]@ == (ScanMessageView::Progress {
            done: files.len() as u64,
            total: files.len() as u64,
        }),
        step.messages@[1]@ == ScanMessageView::Phase(ScanPhase::Grouping),
        step.next is HashPrefixes ==> step.messages@[2]@ == ScanMessageView::Phase(
            ScanPhase::PrefixHashing,
        ),
        step.next is Finished ==> step.messages@[2]@ == ScanMessageView::Done(Seq::empty()),
{
    let items = funnel::unhashed(files);
    let kept = match step.next {
        ScanWork::HashPrefixes(kept) => types::file_views(kept@),
        _ => Seq::empty(),
    };
    funnel_laws::law_a_stage_goes_on_where_there_are_twins(kept, items);
    if exists|b: int, c: int|
        0 <= b < items.len() && 0 <= c < items.len() && #[trigger] funnel_laws::is_twin(
            items[b],
            items[c],
        ) {
        let (b, c) = choose|b: int, c: int|
            0 <= b < items.len() && 0 <= c < items.len() && #[trigger] funnel_laws::is_twin(
                items[b],
                items[c],
            );
        assert(same_size_twins(files[b], files[c]));
    }
    if exists|i: int, j: int|
        0 <= i < files.len() && 0 <= j < files.len() && #[trigger] same_size_twins(
            files[i],
            files[j],
        ) {
        let (i, j) = choose|i: int, j: int|
            0 <= i < files.len() && 0 <= j < files.len() && #[trigger] same_size_twins(
                files[i],
                files[j],
            );
        assert(funnel_laws::is_twin(items[i], items[j]));
    }
    assert forall|file: FileInfoView| #[trigger] kept.contains(file) <==> files.contains(file)
        && exists|i: int, j: int|
        0 <= i < files.len() && 0 <= j < files.len() && files[i].size == file.size
            && #[trigger] same_size_twins(files[i], files[j]) by {
        funnel_laws::law_a_stage_keeps_what_has_twins(kept, items, file);
        if kept.contains(file) {
            let a = choose|a: int|
                0 <= a < items.len() && (#[trigger] items[a]).file == file
                    && funnel_laws::shares_with_twins(items, a);
            assert(files[a] == file);
            let (b, c) = choose|b: int, c: int|
                {
                    &&& 0 <= b < items.len()
                    &&& 0 <= c < items.len()
                    &&& #[trigger] funnel_laws::is_twin(items[b], items[c])
                    &&& items[b].file.size == items[a].file.size
                    &&& items[b].digest == items[a].digest
                };
            assert(same_size_twins(files[b], files[c]));
        }
        if files.contains(file) && exists|i: int, j: int|
            0 <= i < files.len() && 0 <= j < files.len() && files[i].size == file.size
                && #[trigger] same_size_twins(files[i], files[j]) {
            let a = choose|a: int| 0 <= a < files.len() && files[a] == file;
            let (i, j) = choose|i: int, j: int|
                0 <= i < files.len() && 0 <= j < files.len() && files[i].size == file.size
                    && #[trigger] same_size_twins(files[i], files[j]);
            assert(items[a].file == file);
            assert(funnel_laws::is_twin(items[i], items[j]));
            assert(funnel_laws::shares_with_twins(items, a));
        }
    }
    let views = types::scan_message_views(step.messages@);
    assert(views.len() == 3);
    assert(views[0] == step.messages@[0]@ && views[1] == step.messages@[1]@ && views[2]
        == step.messages@[2]@);
}

/// After the quick digests the full ones are computed where two different files have the same
/// size and quick digest, and else the scan ends without groups.
pub proof fn law_scan_goes_on_where_quick_digests_are_shared(
    items: Seq<FingerprintedView>,
    step: ScanStep,
)
    requires
        scanner::prefixes_lead_to(items, step),
    ensures
        step.next is HashContents || step.next is Finished,
        step.next is HashContents <==> exists|b: int, c: int|
            0 <= b < items.len() && 0 <= c < items.len() && #[trigger] funnel_laws::is_twin(
                items[b],
                items[c],
            ),
        step.next matches ScanWork::HashContents(kept) ==> forall|file: FileInfoView| #[trigger]
            types::file_views(kept@).contains(file) <==> exists|a: int|
                0 <= a < items.len() && (#[trigger] items[a]).file == file
                    && funnel_laws::shares_with_twins(items, a),
        step.messages@.len() == 1,
        step.next is HashContents ==> step.messages@[0]@ == ScanMessageView::Phase(
            ScanPhase::FullHashing,
        ),
        step.next is Finished ==> step.messages@[0]@ == ScanMessageView::Done(Seq::empty()),
{
    let kept = match step.next {
        ScanWork::HashContents(kept) => types::file_views(kept@),
        _ => Seq::empty(),
    };
    funnel_laws::law_a_stage_goes_on_where_there_are_twins(kept, items);
    assert forall|file: FileInfoView| #[trigger] kept.contains(file) <==> exists|a: int|
        0 <= a < items.len() && (#[trigger] items[a]).file == file
            && funnel_laws::shares_with_twins(items, a) by {
        funnel_laws::law_a_stage_keeps_what_has_twins(kept, items, file);
    }
    let views = types::scan_message_views(step.messages@);
    assert(views.len() == 1);
    assert(views[0] == step.messages@[0]@);
}

/// A walk reports its count at every two hundredth file and at no other.
pub proof fn law_walk_reports_every_two_hundredth(found: nat)
    requires
        0 < found <= u64::MAX,
    ensures
        found % 200 == 0 ==> scanner::walk_progress(found) == Some(
            ScanMessageView::Progress { done: found as u64, total: 0 },
        ),
        found % 200 != 0 ==> scanner::walk_progress(found) is None,
{
}

/// The steps of a scan, one after another, are the stages of the search for duplicates.
pub proof fn law_steps_make_a_scan(
    walked: Seq<FileInfoView>,
    prefix_digest: spec_fn(FileInfoView) -> Option<Seq<u8>>,
    full_digest: spec_fn(FileInfoView) -> Option<Seq<u8>>,
    first: ScanStep,
    second: ScanStep,
    groups: Seq<FileGroupView>,
)
    requires
        scanner::walk_leads_to(walked, first),
        first.next is HashPrefixes,
        ({
            let by_size = types::file_views(first.next->HashPrefixes_0@);
            let by_prefix = types::file_views(second.next->HashContents_0@);
            &&& scanner::prefixes_lead_to(
                funnel::hashed(by_size, funnel_laws::digests_by(prefix_digest, by_size)),
                second,
            )
            &&& second.next is HashContents
            &&& funnel::is_duplicate_report(
                groups,
                funnel::hashed(by_prefix, funnel_laws::digests_by(full_digest, by_prefix)),
            )
        }),
    ensures
        funnel_laws::scans_to(
            walked,
            prefix_digest,
            full_digest,
            types::file_views(first.next->HashPrefixes_0@),
            types::file_views(second.next->HashContents_0@),
            groups,
        ),
{
}

} // verus!
