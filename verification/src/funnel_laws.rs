//! What the stages that narrow down the files guarantee as a whole.

use crate::funnel;
use crate::funnel::{ContentKey, FingerprintedView};
use crate::hashing;
use crate::sort;
use crate::types::{FileGroupView, FileInfoView};
use vstd::prelude::*;

verus! {

/// The digest that a computation gives for each file.
pub open spec fn digests_by(
    digest: spec_fn(FileInfoView) -> Option<Seq<u8>>,
    files: Seq<FileInfoView>,
) -> Seq<Option<Seq<u8>>> {
    files.map_values(digest)
}

/// The stages, one after another: by size, by the digest of the start, by the digest of the
/// whole content.
pub open spec fn scans_to(
    walked: Seq<FileInfoView>,
    prefix_digest: spec_fn(FileInfoView) -> Option<Seq<u8>>,
    full_digest: spec_fn(FileInfoView) -> Option<Seq<u8>>,
    by_size: Seq<FileInfoView>,
    by_prefix: Seq<FileInfoView>,
    groups: Seq<FileGroupView>,
) -> bool {
    &&& funnel::are_candidates(by_size, funnel::unhashed(walked))
    &&& funnel::are_candidates(
        by_prefix,
        funnel::hashed(by_size, digests_by(prefix_digest, by_size)),
    )
    &&& funnel::is_duplicate_report(
        groups,
        funnel::hashed(by_prefix, digests_by(full_digest, by_prefix)),
    )
}

/// Two entries that are not links to the same file.
pub open spec fn different_files(a: FileInfoView, b: FileInfoView) -> bool {
    a.inode != b.inode || a.device != b.device
}

// ---------------------------------------------------------------------------
// Members of classes and of their concatenation
// ---------------------------------------------------------------------------

/// Every item belongs to the class of its key.
proof fn lemma_in_class(items: Seq<FingerprintedView>, a: int)
    requires
        0 <= a < items.len(),
    ensures
        funnel::class_of(items, funnel::key_of(items[a])).contains(items[a].file),
{
    let key = funnel::key_of(items[a]);
    let pred = |t: FingerprintedView| funnel::key_of(t) == key;
    let kept = items.filter(pred);
    items.lemma_filter_contains(pred, a);
    let i = choose|i: int| 0 <= i < kept.len() && kept[i] == items[a];
    assert(funnel::class_of(items, key)[i] == items[a].file);
}

/// A class with two entries that are not links to the same file is worth comparing.
proof fn lemma_worth_with_two(files: Seq<FileInfoView>, a: FileInfoView, b: FileInfoView)
    requires
        files.contains(a),
        files.contains(b),
        different_files(a, b),
    ensures
        funnel::worth_comparing(files),
{
    let i = choose|i: int| 0 <= i < files.len() && files[i] == a;
    let j = choose|j: int| 0 <= j < files.len() && files[j] == b;
    assert(i != j);
    if funnel::links_to_one_file(files) {
        assert(files[i].inode == files[0].inode && files[i].device == files[0].device);
        assert(files[j].inode == files[0].inode && files[j].device == files[0].device);
    }
}

/// A class worth comparing holds two entries that are not links to the same file.
proof fn lemma_worth_has_two(files: Seq<FileInfoView>) -> (pair: (FileInfoView, FileInfoView))
    requires
        funnel::worth_comparing(files),
    ensures
        files.contains(pair.0),
        files.contains(pair.1),
        different_files(pair.0, pair.1),
{
    let i = choose|i: int|
        0 <= i < files.len() && !((#[trigger] files[i]).inode == files[0].inode
            && files[i].device == files[0].device);
    assert(files.contains(files[0]));
    assert(files.contains(files[i]));
    (files[0], files[i])
}

proof fn lemma_in_flatten(classes: Seq<Seq<FileInfoView>>, c: int, file: FileInfoView)
    requires
        0 <= c < classes.len(),
        classes[c].contains(file),
    ensures
        classes.flatten().contains(file),
    decreases classes.len(),
{
    let rest = classes.drop_last();
    assert(rest.push(classes.last()) =~= classes);
    rest.lemma_flatten_push(classes.last());
    let flat = rest.flatten();
    if c == classes.len() - 1 {
        let i = choose|i: int| 0 <= i < classes[c].len() && classes[c][i] == file;
        assert((flat + classes.last())[flat.len() + i] == file);
    } else {
        lemma_in_flatten(rest, c, file);
        let i = choose|i: int| 0 <= i < flat.len() && flat[i] == file;
        assert((flat + classes.last())[i] == file);
    }
}

/// Two items with the same key that are not links to the same file stay candidates.
proof fn lemma_candidates_keep(
    files: Seq<FileInfoView>,
    items: Seq<FingerprintedView>,
    a: int,
    b: int,
)
    requires
        funnel::are_candidates(files, items),
        0 <= a < items.len(),
        0 <= b < items.len(),
        funnel::key_of(items[a]) == funnel::key_of(items[b]),
        different_files(items[a].file, items[b].file),
    ensures
        files.contains(items[a].file),
        files.contains(items[b].file),
{
    let key = funnel::key_of(items[a]);
    lemma_in_class(items, a);
    lemma_in_class(items, b);
    lemma_worth_with_two(funnel::class_of(items, key), items[a].file, items[b].file);
    let keys = choose|keys: Seq<ContentKey>| #[trigger]
        funnel::lists_worthy_keys(keys, items) && files == funnel::classes_at(
            keys,
            items,
        ).flatten();
    assert(keys.contains(key));
    let c = choose|c: int| 0 <= c < keys.len() && keys[c] == key;
    assert(funnel::classes_at(keys, items)[c] == funnel::class_of(items, key));
    lemma_in_flatten(funnel::classes_at(keys, items), c, items[a].file);
    lemma_in_flatten(funnel::classes_at(keys, items), c, items[b].file);
}

/// A file whose digest could be computed is among the hashed ones, with that digest.
proof fn lemma_in_hashed(
    files: Seq<FileInfoView>,
    digests: Seq<Option<Seq<u8>>>,
    i: int,
) -> (a: int)
    requires
        files.len() == digests.len(),
        0 <= i < files.len(),
        digests[i] is Some,
    ensures
        0 <= a < funnel::hashed(files, digests).len(),
        funnel::hashed(files, digests)[a].file == files[i],
        funnel::hashed(files, digests)[a].digest == digests[i],
    decreases files.len(),
{
    let rest = funnel::hashed(files.drop_last(), digests.drop_last());
    if i == files.len() - 1 {
        rest.len() as int
    } else {
        assert(files.drop_last()[i] == files[i]);
        assert(digests.drop_last()[i] == digests[i]);
        let a = lemma_in_hashed(files.drop_last(), digests.drop_last(), i);
        assert(funnel::hashed(files, digests)[a] == rest[a]);
        a
    }
}

// ---------------------------------------------------------------------------
// Laws of the report
// ---------------------------------------------------------------------------

/// All files have this size, and this digest was computed for each of them.
pub open spec fn all_have(
    files: Seq<FileInfoView>,
    size: u64,
    digest: Option<Seq<u8>>,
    items: Seq<FingerprintedView>,
) -> bool {
    forall|i: int|
        0 <= i < files.len() ==> (#[trigger] files[i]).size == size && items.contains(
            FingerprintedView { file: files[i], digest },
        )
}

/// All files of a group have the size of the group, and one and the same digest was computed
/// for all of them.
pub proof fn law_groups_hold_equal_content(
    groups: Seq<FileGroupView>,
    items: Seq<FingerprintedView>,
    g: int,
)
    requires
        funnel::is_duplicate_report(groups, items),
        0 <= g < groups.len(),
    ensures
        exists|digest: Option<Seq<u8>>| #[trigger]
            all_have(groups[g].files, groups[g].size, digest, items),
{
    broadcast use vstd::seq_lib::group_to_multiset_ensures;

    let keys = choose|keys: Seq<ContentKey>| #[trigger]
        funnel::lists_worthy_keys(keys, items) && funnel::groups_match(groups, items, keys);
    let key = keys[g];
    let files = groups[g].files;
    let class = funnel::class_of(items, key);
    assert(funnel::is_group_of(groups[g], items, keys[g]));
    assert forall|i: int| 0 <= i < files.len() implies (#[trigger] files[i]).size == groups[g].size
        && items.contains(FingerprintedView { file: files[i], digest: key.digest }) by {
        assert(files.contains(files[i]));
        assert(class.to_multiset().count(files[i]) > 0);
        assert(class.contains(files[i]));
        let j = choose|j: int| 0 <= j < class.len() && class[j] == files[i];
        let a = funnel::lemma_class_member(items, key, j);
        assert(items[a] == FingerprintedView { file: files[i], digest: key.digest });
        assert(items.contains(items[a]));
    }
    assert(all_have(files, groups[g].size, key.digest, items));
}

/// A group has a source and at least one target, its files are not all links to one file, and
/// it is selected.
pub proof fn law_groups_have_targets(
    groups: Seq<FileGroupView>,
    items: Seq<FingerprintedView>,
    g: int,
)
    requires
        funnel::is_duplicate_report(groups, items),
        0 <= g < groups.len(),
    ensures
        groups[g].files.len() >= 2,
        !funnel::links_to_one_file(groups[g].files),
        groups[g].selected,
{
    broadcast use vstd::seq_lib::group_to_multiset_ensures;

    let keys = choose|keys: Seq<ContentKey>| #[trigger]
        funnel::lists_worthy_keys(keys, items) && funnel::groups_match(groups, items, keys);
    let files = groups[g].files;
    let class = funnel::class_of(items, keys[g]);
    assert(funnel::is_group_of(groups[g], items, keys[g]));
    assert(keys.contains(keys[g]));
    assert(files.len() == files.to_multiset().len() && class.len() == class.to_multiset().len());
    let (a, b) = lemma_worth_has_two(class);
    assert(files.to_multiset().count(a) > 0 && files.to_multiset().count(b) > 0);
    assert(files.contains(a) && files.contains(b));
    lemma_worth_with_two(files, a, b);
}

/// Where one digest was computed for each file, no file is in two groups.
pub proof fn law_groups_are_disjoint(
    groups: Seq<FileGroupView>,
    items: Seq<FingerprintedView>,
    g: int,
    h: int,
    file: FileInfoView,
)
    requires
        funnel::is_duplicate_report(groups, items),
        forall|a: int, b: int|
            0 <= a < items.len() && 0 <= b < items.len() && (#[trigger] items[a]).file == (
            #[trigger] items[b]).file ==> items[a].digest == items[b].digest,
        0 <= g < groups.len(),
        0 <= h < groups.len(),
        groups[g].files.contains(file),
        groups[h].files.contains(file),
    ensures
        g == h,
{
    broadcast use vstd::seq_lib::group_to_multiset_ensures;

    let keys = choose|keys: Seq<ContentKey>| #[trigger]
        funnel::lists_worthy_keys(keys, items) && funnel::groups_match(groups, items, keys);
    assert(funnel::is_group_of(groups[g], items, keys[g]));
    assert(funnel::is_group_of(groups[h], items, keys[h]));
    let cg = funnel::class_of(items, keys[g]);
    let ch = funnel::class_of(items, keys[h]);
    assert(cg.to_multiset().count(file) > 0 && ch.to_multiset().count(file) > 0);
    assert(cg.contains(file) && ch.contains(file));
    let i = choose|i: int| 0 <= i < cg.len() && cg[i] == file;
    let j = choose|j: int| 0 <= j < ch.len() && ch[j] == file;
    let a = funnel::lemma_class_member(items, keys[g], i);
    let b = funnel::lemma_class_member(items, keys[h], j);
    assert(items[a].file == items[b].file);
    assert(keys[g] == keys[h]);
}

/// Within a group the files stand in the order of their paths, so the source is a file with
/// the least path.
pub proof fn law_source_has_least_path(
    groups: Seq<FileGroupView>,
    items: Seq<FingerprintedView>,
    g: int,
    i: int,
)
    requires
        funnel::is_duplicate_report(groups, items),
        0 <= g < groups.len(),
        0 <= i < groups[g].files.len(),
    ensures
        crate::path::path_le(groups[g].files[0].path, groups[g].files[i].path),
{
    let keys = choose|keys: Seq<ContentKey>| #[trigger]
        funnel::lists_worthy_keys(keys, items) && funnel::groups_match(groups, items, keys);
    let files = groups[g].files;
    let le = funnel::path_order();
    assert(funnel::is_group_of(groups[g], items, keys[g]));
    if i > 0 {
        assert(le(files[0], files[i]));
    } else {
        crate::path::law_path_order_total(files[0].path, files[0].path);
    }
}

/// The groups that save most come first: the size of a group times the number of its targets, or
/// the greatest `u64` where that is more, is never less than that of a later group.
pub proof fn law_groups_that_save_most_come_first(
    groups: Seq<FileGroupView>,
    items: Seq<FingerprintedView>,
    i: int,
    j: int,
)
    requires
        funnel::is_duplicate_report(groups, items),
        0 <= i < j < groups.len(),
    ensures
        ({
            let cap = u64::MAX as int;
            let a = groups[i].size * (groups[i].files.len() - 1);
            let b = groups[j].size * (groups[j].files.len() - 1);
            (if a > cap {
                cap
            } else {
                a
            }) >= (if b > cap {
                cap
            } else {
                b
            })
        }),
{
    let le = funnel::savings_order();
    assert(le(groups[i], groups[j]));
    law_groups_have_targets(groups, items, i);
    law_groups_have_targets(groups, items, j);
    crate::types::law_one_file_stays(groups[i]);
    crate::types::law_one_file_stays(groups[j]);
}

/// No duplicate is missed: two walked files with the same size, the same digest of their start
/// and the same digest of their content end up in one group, unless they are links to the same
/// file.
pub proof fn law_no_duplicate_missed(
    walked: Seq<FileInfoView>,
    prefix_digest: spec_fn(FileInfoView) -> Option<Seq<u8>>,
    full_digest: spec_fn(FileInfoView) -> Option<Seq<u8>>,
    by_size: Seq<FileInfoView>,
    by_prefix: Seq<FileInfoView>,
    groups: Seq<FileGroupView>,
    i: int,
    j: int,
)
    requires
        scans_to(walked, prefix_digest, full_digest, by_size, by_prefix, groups),
        0 <= i < walked.len(),
        0 <= j < walked.len(),
        walked[i].size == walked[j].size,
        prefix_digest(walked[i]) is Some,
        prefix_digest(walked[i]) == prefix_digest(walked[j]),
        full_digest(walked[i]) is Some,
        full_digest(walked[i]) == full_digest(walked[j]),
        different_files(walked[i], walked[j]),
    ensures
        exists|g: int|
            0 <= g < groups.len() && (#[trigger] groups[g]).files.contains(walked[i])
                && groups[g].files.contains(walked[j]),
{
    broadcast use vstd::seq_lib::group_to_multiset_ensures;

    let a = walked[i];
    let b = walked[j];
    let sized = funnel::unhashed(walked);
    assert(sized[i].file == a && sized[j].file == b);
    lemma_candidates_keep(by_size, sized, i, j);
    let i1 = choose|i1: int| 0 <= i1 < by_size.len() && by_size[i1] == a;
    let j1 = choose|j1: int| 0 <= j1 < by_size.len() && by_size[j1] == b;
    let d1 = digests_by(prefix_digest, by_size);
    let a1 = lemma_in_hashed(by_size, d1, i1);
    let b1 = lemma_in_hashed(by_size, d1, j1);
    lemma_candidates_keep(by_prefix, funnel::hashed(by_size, d1), a1, b1);
    let i2 = choose|i2: int| 0 <= i2 < by_prefix.len() && by_prefix[i2] == a;
    let j2 = choose|j2: int| 0 <= j2 < by_prefix.len() && by_prefix[j2] == b;
    let d2 = digests_by(full_digest, by_prefix);
    let items = funnel::hashed(by_prefix, d2);
    let a2 = lemma_in_hashed(by_prefix, d2, i2);
    let b2 = lemma_in_hashed(by_prefix, d2, j2);
    let key = funnel::key_of(items[a2]);
    let class = funnel::class_of(items, key);
    lemma_in_class(items, a2);
    lemma_in_class(items, b2);
    lemma_worth_with_two(class, a, b);
    let keys = choose|keys: Seq<ContentKey>| #[trigger]
        funnel::lists_worthy_keys(keys, items) && funnel::groups_match(groups, items, keys);
    assert(keys.contains(key));
    let g = choose|g: int| 0 <= g < keys.len() && keys[g] == key;
    assert(funnel::is_group_of(groups[g], items, keys[g]));
    let files = groups[g].files;
    assert(class.to_multiset().count(a) > 0 && class.to_multiset().count(b) > 0);
    assert(files.contains(a) && files.contains(b));
}

// ---------------------------------------------------------------------------
// The stages against a direct comparison
// ---------------------------------------------------------------------------

/// The test for the files of one size for which one digest is computed.
pub open spec fn has_content_key(
    digest: spec_fn(FileInfoView) -> Option<Seq<u8>>,
    key: ContentKey,
) -> spec_fn(FileInfoView) -> bool {
    |f: FileInfoView| f.size == key.size && digest(f) == key.digest
}

proof fn lemma_filter_push<A>(s: Seq<A>, x: A, pred: spec_fn(A) -> bool)
    ensures
        s.push(x).filter(pred) == (if pred(x) {
            s.filter(pred).push(x)
        } else {
            s.filter(pred)
        }),
{
    reveal(Seq::filter);
    assert(s.push(x).drop_last() =~= s);
}

/// The class of a key among the hashed files, told by the files alone.
proof fn lemma_hashed_class(
    files: Seq<FileInfoView>,
    digest: spec_fn(FileInfoView) -> Option<Seq<u8>>,
    key: ContentKey,
)
    ensures
        funnel::class_of(funnel::hashed(files, digests_by(digest, files)), key) == (
        if key.digest is Some {
            files.filter(has_content_key(digest, key))
        } else {
            Seq::empty()
        }),
    decreases files.len(),
{
    reveal(Seq::filter);
    let d = digests_by(digest, files);
    let q = has_content_key(digest, key);
    let pred = |t: FingerprintedView| funnel::key_of(t) == key;
    let file = |t: FingerprintedView| t.file;
    let items = funnel::hashed(files, d);
    if files.len() == 0 {
        assert(funnel::class_of(items, key) =~= Seq::empty());
        assert(files.filter(q) =~= Seq::empty());
    } else {
        let rest = files.drop_last();
        lemma_hashed_class(rest, digest, key);
        assert(digests_by(digest, rest) =~= d.drop_last());
        assert(d.last() == digest(files.last()));
        let before = funnel::hashed(rest, d.drop_last());
        match d.last() {
            Some(x) => {
                let item = FingerprintedView { file: files.last(), digest: Some(x) };
                lemma_filter_push(before, item, pred);
                if funnel::key_of(item) == key {
                    assert(before.filter(pred).push(item).map_values(file) =~= before.filter(
                        pred,
                    ).map_values(file).push(files.last()));
                }
            },
            None => {},
        }
    }
}

/// Of several concatenated classes, a test that only files of class `c` can pass keeps what it
/// keeps of that class.
proof fn lemma_filter_flatten(
    classes: Seq<Seq<FileInfoView>>,
    q: spec_fn(FileInfoView) -> bool,
    c: int,
)
    requires
        forall|e: int, i: int|
            0 <= e < classes.len() && e != c && 0 <= i < classes[e].len() ==> !q(
                #[trigger] classes[e][i],
            ),
    ensures
        0 <= c < classes.len() ==> classes.flatten().filter(q) == classes[c].filter(q),
        !(0 <= c < classes.len()) ==> classes.flatten().filter(q) == Seq::<FileInfoView>::empty(),
    decreases classes.len(),
{
    if classes.len() == 0 {
        reveal(Seq::filter);
        assert(classes.flatten().filter(q) =~= Seq::empty());
    } else {
        let rest = classes.drop_last();
        let last = classes.last();
        let e = classes.len() - 1;
        assert(rest.push(last) =~= classes);
        rest.lemma_flatten_push(last);
        assert forall|d: int, i: int|
            0 <= d < rest.len() && d != c && 0 <= i < rest[d].len() implies !q(
            #[trigger] rest[d][i],
        ) by {
            assert(!q(classes[d][i]));
        }
        lemma_filter_flatten(rest, q, c);
        Seq::filter_distributes_over_add(rest.flatten(), last, q);
        if e == c {
            assert(Seq::empty() + last.filter(q) =~= last.filter(q));
        } else {
            assert forall|i: int| 0 <= i < last.len() implies !q(#[trigger] last[i]) by {
                assert(!q(classes[e][i]));
            }
            sort::lemma_filter_none(last, q);
            assert(rest.flatten().filter(q) + Seq::<FileInfoView>::empty()
                =~= rest.flatten().filter(q));
        }
    }
}

spec fn item_files(items: Seq<FingerprintedView>) -> Seq<FileInfoView> {
    items.map_values(|t: FingerprintedView| t.file)
}

/// A test that only files of one class can pass keeps the same of the class as of all files.
proof fn lemma_filter_class(
    items: Seq<FingerprintedView>,
    key: ContentKey,
    q: spec_fn(FileInfoView) -> bool,
)
    requires
        forall|a: int|
            0 <= a < items.len() && q((#[trigger] items[a]).file) ==> funnel::key_of(items[a])
                == key,
    ensures
        funnel::class_of(items, key).filter(q) == item_files(items).filter(q),
    decreases items.len(),
{
    reveal(Seq::filter);
    let pred = |t: FingerprintedView| funnel::key_of(t) == key;
    let file = |t: FingerprintedView| t.file;
    if items.len() > 0 {
        let rest = items.drop_last();
        assert forall|a: int| 0 <= a < rest.len() && q((#[trigger] rest[a]).file) implies
            funnel::key_of(rest[a]) == key by {
            assert(rest[a] == items[a]);
        }
        lemma_filter_class(rest, key, q);
        let last = items.last();
        assert(item_files(items) =~= item_files(rest).push(last.file));
        lemma_filter_push(item_files(rest), last.file, q);
        if pred(last) {
            assert(rest.filter(pred).push(last).map_values(file) =~= rest.filter(
                pred,
            ).map_values(file).push(last.file));
            lemma_filter_push(funnel::class_of(rest, key), last.file, q);
        } else {
            assert(!q(items[items.len() - 1].file));
        }
    } else {
        assert(funnel::class_of(items, key).filter(q) =~= item_files(items).filter(q));
    }
}

/// A stage keeps all or nothing of what a test keeps that only files of one class can pass.
proof fn lemma_stage(
    files: Seq<FileInfoView>,
    items: Seq<FingerprintedView>,
    key: ContentKey,
    q: spec_fn(FileInfoView) -> bool,
)
    requires
        funnel::are_candidates(files, items),
        forall|a: int|
            0 <= a < items.len() && q((#[trigger] items[a]).file) ==> funnel::key_of(items[a])
                == key,
    ensures
        files.filter(q) == (if funnel::worth_comparing(funnel::class_of(items, key)) {
            item_files(items).filter(q)
        } else {
            Seq::empty()
        }),
{
    let keys = choose|keys: Seq<ContentKey>| #[trigger]
        funnel::lists_worthy_keys(keys, items) && files == funnel::classes_at(
            keys,
            items,
        ).flatten();
    let classes = funnel::classes_at(keys, items);
    let c = if keys.contains(key) {
        choose|c: int| 0 <= c < keys.len() && keys[c] == key
    } else {
        -1
    };
    assert forall|e: int, i: int|
        0 <= e < classes.len() && e != c && 0 <= i < classes[e].len() implies !q(
        #[trigger] classes[e][i],
    ) by {
        assert(classes[e] == funnel::class_of(items, keys[e]));
        let a = funnel::lemma_class_member(items, keys[e], i);
        if q(classes[e][i]) {
            assert(q(items[a].file));
            assert(keys[e] == key);
        }
    }
    lemma_filter_flatten(classes, q, c);
    lemma_filter_class(items, key, q);
    assert(keys.contains(key) <==> funnel::worth_comparing(funnel::class_of(items, key)));
}

/// Where a part of a class is worth comparing, the class is.
proof fn lemma_worth_grows(files: Seq<FileInfoView>, q: spec_fn(FileInfoView) -> bool)
    requires
        funnel::worth_comparing(files.filter(q)),
    ensures
        funnel::worth_comparing(files),
{
    let part = files.filter(q);
    let (a, b) = lemma_worth_has_two(part);
    let i = choose|i: int| 0 <= i < part.len() && part[i] == a;
    let j = choose|j: int| 0 <= j < part.len() && part[j] == b;
    funnel::lemma_filtered_is_member(files, q, i);
    funnel::lemma_filtered_is_member(files, q, j);
    lemma_worth_with_two(files, a, b);
}

/// Leaving out files that the test rejects anyway changes nothing for it.
proof fn lemma_hashed_files_filter(
    files: Seq<FileInfoView>,
    digest: spec_fn(FileInfoView) -> Option<Seq<u8>>,
    q: spec_fn(FileInfoView) -> bool,
)
    requires
        forall|i: int| 0 <= i < files.len() && q(#[trigger] files[i]) ==> digest(files[i]) is Some,
    ensures
        item_files(funnel::hashed(files, digests_by(digest, files))).filter(q) == files.filter(q),
    decreases files.len(),
{
    reveal(Seq::filter);
    let d = digests_by(digest, files);
    let items = funnel::hashed(files, d);
    if files.len() > 0 {
        let rest = files.drop_last();
        assert forall|i: int| 0 <= i < rest.len() && q(#[trigger] rest[i]) implies digest(rest[i])
            is Some by {
            assert(rest[i] == files[i]);
        }
        lemma_hashed_files_filter(rest, digest, q);
        assert(digests_by(digest, rest) =~= d.drop_last());
        let before = funnel::hashed(rest, d.drop_last());
        assert(d.last() == digest(files.last()));
        match d.last() {
            Some(x) => {
                assert(item_files(items) =~= item_files(before).push(files.last()));
                lemma_filter_push(item_files(before), files.last(), q);
            },
            None => {
                assert(!q(files[files.len() - 1]));
            },
        }
    } else {
        assert(item_files(items).filter(q) =~= files.filter(q));
    }
}

/// An item of the hashed files carries the digest of its file.
proof fn lemma_hashed_digest(
    files: Seq<FileInfoView>,
    digest: spec_fn(FileInfoView) -> Option<Seq<u8>>,
    a: int,
)
    requires
        0 <= a < funnel::hashed(files, digests_by(digest, files)).len(),
    ensures
        ({
            let item = funnel::hashed(files, digests_by(digest, files))[a];
            item.digest == digest(item.file) && item.digest is Some && files.contains(item.file)
        }),
    decreases files.len(),
{
    let d = digests_by(digest, files);
    let items = funnel::hashed(files, d);
    let rest = files.drop_last();
    assert(digests_by(digest, rest) =~= d.drop_last());
    let before = funnel::hashed(rest, d.drop_last());
    assert(d.last() == digest(files.last()));
    if a < before.len() {
        lemma_hashed_digest(rest, digest, a);
        let i = choose|i: int| 0 <= i < rest.len() && rest[i] == before[a].file;
        assert(files[i] == before[a].file);
    } else {
        assert(files[files.len() - 1] == items[a].file);
    }
}

/// A filtered list of candidates is made of files that were there before.
proof fn lemma_candidates_are_members(
    files: Seq<FileInfoView>,
    items: Seq<FingerprintedView>,
    i: int,
) -> (a: int)
    requires
        funnel::are_candidates(files, items),
        0 <= i < files.len(),
    ensures
        0 <= a < items.len(),
        items[a].file == files[i],
{
    let keys = choose|keys: Seq<ContentKey>| #[trigger]
        funnel::lists_worthy_keys(keys, items) && files == funnel::classes_at(
            keys,
            items,
        ).flatten();
    let classes = funnel::classes_at(keys, items);
    let c = lemma_flatten_member(classes, i);
    let k = choose|k: int| 0 <= k < classes[c].len() && classes[c][k] == files[i];
    assert(classes[c] == funnel::class_of(items, keys[c]));
    funnel::lemma_class_member(items, keys[c], k)
}

proof fn lemma_flatten_member(classes: Seq<Seq<FileInfoView>>, i: int) -> (c: int)
    requires
        0 <= i < classes.flatten().len(),
    ensures
        0 <= c < classes.len(),
        classes[c].contains(classes.flatten()[i]),
    decreases classes.len(),
{
    let rest = classes.drop_last();
    if classes.len() == 0 {
        0
    } else {
        assert(rest.push(classes.last()) =~= classes);
        rest.lemma_flatten_push(classes.last());
        let flat = rest.flatten();
        if i < flat.len() {
            assert(classes.flatten()[i] == flat[i]);
            lemma_flatten_member(rest, i)
        } else {
            assert(classes.last()[i - flat.len()] == classes.flatten()[i]);
            classes.len() - 1
        }
    }
}

/// What the stages keep of the files with one size and one digest of the content: all of them
/// or, where they are not worth comparing, perhaps none.
proof fn lemma_stages_keep(
    walked: Seq<FileInfoView>,
    prefix_digest: spec_fn(FileInfoView) -> Option<Seq<u8>>,
    full_digest: spec_fn(FileInfoView) -> Option<Seq<u8>>,
    by_size: Seq<FileInfoView>,
    by_prefix: Seq<FileInfoView>,
    key: ContentKey,
)
    requires
        key.digest is Some,
        funnel::are_candidates(by_size, funnel::unhashed(walked)),
        funnel::are_candidates(
            by_prefix,
            funnel::hashed(by_size, digests_by(prefix_digest, by_size)),
        ),
        forall|i: int|
            0 <= i < walked.len() && full_digest(#[trigger] walked[i]) is Some ==> prefix_digest(
                walked[i],
            ) is Some,
        forall|i: int, j: int|
            0 <= i < walked.len() && 0 <= j < walked.len() && (#[trigger] walked[i]).size == (
            #[trigger] walked[j]).size && full_digest(walked[i]) is Some && full_digest(walked[i])
                == full_digest(walked[j]) ==> prefix_digest(walked[i]) == prefix_digest(walked[j]),
    ensures
        ({
            let q = has_content_key(full_digest, key);
            &&& by_prefix.filter(q) == walked.filter(q) || by_prefix.filter(q).len() == 0
            &&& funnel::worth_comparing(walked.filter(q)) ==> by_prefix.filter(q) == walked.filter(
                q,
            )
        }),
{
    let q = has_content_key(full_digest, key);
    let sized = funnel::unhashed(walked);
    let size_key = ContentKey { size: key.size, digest: None };
    assert forall|a: int| 0 <= a < sized.len() && q((#[trigger] sized[a]).file) implies
        funnel::key_of(sized[a]) == size_key by {}
    lemma_stage(by_size, sized, size_key, q);
    assert(item_files(sized) =~= walked);
    lemma_filter_class(sized, size_key, q);
    let quick = funnel::hashed(by_size, digests_by(prefix_digest, by_size));
    assert forall|i: int| 0 <= i < by_size.len() implies walked.contains(#[trigger] by_size[i]) by {
        let a = lemma_candidates_are_members(by_size, sized, i);
        assert(walked[a] == by_size[i]);
    }
    assert forall|i: int| 0 <= i < by_size.len() && q(#[trigger] by_size[i]) implies prefix_digest(
        by_size[i],
    ) is Some by {
        let a = choose|a: int| 0 <= a < walked.len() && walked[a] == by_size[i];
        assert(full_digest(walked[a]) is Some);
    }
    lemma_hashed_files_filter(by_size, prefix_digest, q);
    if exists|a: int| 0 <= a < quick.len() && q((#[trigger] quick[a]).file) {
        let a0 = choose|a: int| 0 <= a < quick.len() && q((#[trigger] quick[a]).file);
        let quick_key = funnel::key_of(quick[a0]);
        lemma_hashed_digest(by_size, prefix_digest, a0);
        let f0 = quick[a0].file;
        let w0 = choose|w: int| 0 <= w < by_size.len() && by_size[w] == f0;
        assert(walked.contains(by_size[w0]));
        let i0 = choose|i: int| 0 <= i < walked.len() && walked[i] == f0;
        assert forall|a: int| 0 <= a < quick.len() && q((#[trigger] quick[a]).file) implies
            funnel::key_of(quick[a]) == quick_key by {
            lemma_hashed_digest(by_size, prefix_digest, a);
            let f = quick[a].file;
            let w = choose|w: int| 0 <= w < by_size.len() && by_size[w] == f;
            assert(walked.contains(by_size[w]));
            let i = choose|i: int| 0 <= i < walked.len() && walked[i] == f;
            assert(walked[i].size == walked[i0].size);
        }
        lemma_stage(by_prefix, quick, quick_key, q);
        lemma_filter_class(quick, quick_key, q);
        if funnel::worth_comparing(walked.filter(q)) {
            lemma_worth_grows(funnel::class_of(sized, size_key), q);
            lemma_worth_grows(funnel::class_of(quick, quick_key), q);
        }
    } else {
        let no_key = ContentKey { size: 0, digest: None };
        lemma_stage(by_prefix, quick, no_key, q);
        let qf = item_files(quick);
        assert forall|a: int| 0 <= a < qf.len() implies !q(#[trigger] qf[a]) by {
            assert(qf[a] == quick[a].file);
        }
        sort::lemma_filter_none(qf, q);
        if funnel::worth_comparing(walked.filter(q)) {
            lemma_worth_grows(funnel::class_of(sized, size_key), q);
        }
    }
}

/// The quick stages only save work: where equal content has equal starts, the report is one
/// that a comparison of all walked files by size and digest of the content gives.
pub proof fn law_stages_report_as_direct_comparison(
    walked: Seq<FileInfoView>,
    prefix_digest: spec_fn(FileInfoView) -> Option<Seq<u8>>,
    full_digest: spec_fn(FileInfoView) -> Option<Seq<u8>>,
    by_size: Seq<FileInfoView>,
    by_prefix: Seq<FileInfoView>,
    groups: Seq<FileGroupView>,
)
    requires
        scans_to(walked, prefix_digest, full_digest, by_size, by_prefix, groups),
        forall|i: int|
            0 <= i < walked.len() && full_digest(#[trigger] walked[i]) is Some ==> prefix_digest(
                walked[i],
            ) is Some,
        forall|i: int, j: int|
            0 <= i < walked.len() && 0 <= j < walked.len() && (#[trigger] walked[i]).size == (
            #[trigger] walked[j]).size && full_digest(walked[i]) is Some && full_digest(walked[i])
                == full_digest(walked[j]) ==> prefix_digest(walked[i]) == prefix_digest(walked[j]),
    ensures
        funnel::is_duplicate_report(
            groups,
            funnel::hashed(walked, digests_by(full_digest, walked)),
        ),
{
    let staged = funnel::hashed(by_prefix, digests_by(full_digest, by_prefix));
    let direct = funnel::hashed(walked, digests_by(full_digest, walked));
    let keys = choose|keys: Seq<ContentKey>| #[trigger]
        funnel::lists_worthy_keys(keys, staged) && funnel::groups_match(groups, staged, keys);
    assert forall|key: ContentKey|
        (#[trigger] keys.contains(key) <==> funnel::worth_comparing(funnel::class_of(direct, key)))
            && (keys.contains(key) ==> funnel::class_of(staged, key) == funnel::class_of(
            direct,
            key,
        )) by {
        lemma_hashed_class(by_prefix, full_digest, key);
        lemma_hashed_class(walked, full_digest, key);
        if key.digest is Some {
            lemma_stages_keep(walked, prefix_digest, full_digest, by_size, by_prefix, key);
        }
        assert(keys.contains(key) <==> funnel::worth_comparing(funnel::class_of(staged, key)));
    }
    assert(funnel::lists_worthy_keys(keys, direct));
    assert forall|g: int| 0 <= g < groups.len() implies #[trigger] funnel::is_group_of(
        groups[g],
        direct,
        keys[g],
    ) by {
        assert(keys.contains(keys[g]));
        assert(funnel::is_group_of(groups[g], staged, keys[g]));
    }
}

// ---------------------------------------------------------------------------
// Scans of files with given contents
// ---------------------------------------------------------------------------

/// The quick digests of files that hold these contents; `None` stands for a file that cannot be
/// read.
pub open spec fn quick_digests(content: spec_fn(FileInfoView) -> Option<Seq<u8>>) -> spec_fn(
    FileInfoView,
) -> Option<Seq<u8>> {
    |f: FileInfoView|
        match content(f) {
            Some(bytes) => Some(hashing::blake3_digest(hashing::quick_part(bytes))),
            None => None,
        }
}

/// The full digests of files that hold these contents; `None` stands for a file that cannot be
/// read.
pub open spec fn full_digests(content: spec_fn(FileInfoView) -> Option<Seq<u8>>) -> spec_fn(
    FileInfoView,
) -> Option<Seq<u8>> {
    |f: FileInfoView|
        match content(f) {
            Some(bytes) => Some(hashing::blake3_digest(bytes)),
            None => None,
        }
}

/// Two files that can be read and hold the same content end up in one group, unless they are
/// links to the same file.
pub proof fn law_identical_files_are_grouped(
    walked: Seq<FileInfoView>,
    content: spec_fn(FileInfoView) -> Option<Seq<u8>>,
    by_size: Seq<FileInfoView>,
    by_prefix: Seq<FileInfoView>,
    groups: Seq<FileGroupView>,
    i: int,
    j: int,
)
    requires
        scans_to(
            walked,
            quick_digests(content),
            full_digests(content),
            by_size,
            by_prefix,
            groups,
        ),
        0 <= i < walked.len(),
        0 <= j < walked.len(),
        walked[i].size == walked[j].size,
        content(walked[i]) is Some,
        content(walked[i]) == content(walked[j]),
        different_files(walked[i], walked[j]),
    ensures
        exists|g: int|
            0 <= g < groups.len() && (#[trigger] groups[g]).files.contains(walked[i])
                && groups[g].files.contains(walked[j]),
{
    law_no_duplicate_missed(
        walked,
        quick_digests(content),
        full_digests(content),
        by_size,
        by_prefix,
        groups,
        i,
        j,
    );
}

/// Two files of one group were walked, could be read, and have the same size and contents with
/// the same digest.
pub proof fn law_grouped_files_agree(
    walked: Seq<FileInfoView>,
    content: spec_fn(FileInfoView) -> Option<Seq<u8>>,
    by_size: Seq<FileInfoView>,
    by_prefix: Seq<FileInfoView>,
    groups: Seq<FileGroupView>,
    g: int,
    i: int,
    j: int,
)
    requires
        scans_to(
            walked,
            quick_digests(content),
            full_digests(content),
            by_size,
            by_prefix,
            groups,
        ),
        0 <= g < groups.len(),
        0 <= i < groups[g].files.len(),
        0 <= j < groups[g].files.len(),
    ensures
        groups[g].files[i].size == groups[g].files[j].size,
        content(groups[g].files[i]) is Some,
        content(groups[g].files[j]) is Some,
        hashing::blake3_digest(content(groups[g].files[i])->0) == hashing::blake3_digest(
            content(groups[g].files[j])->0,
        ),
        walked.contains(groups[g].files[i]),
        walked.contains(groups[g].files[j]),
{
    let full = full_digests(content);
    let quick = quick_digests(content);
    let items = funnel::hashed(by_prefix, digests_by(full, by_prefix));
    let files = groups[g].files;
    law_groups_hold_equal_content(groups, items, g);
    let digest = choose|digest: Option<Seq<u8>>| #[trigger]
        all_have(files, groups[g].size, digest, items);
    let fi = FingerprintedView { file: files[i], digest };
    let fj = FingerprintedView { file: files[j], digest };
    assert(files[i].size == groups[g].size && items.contains(fi));
    assert(files[j].size == groups[g].size && items.contains(fj));
    let a = choose|a: int| 0 <= a < items.len() && items[a] == fi;
    let b = choose|b: int| 0 <= b < items.len() && items[b] == fj;
    lemma_hashed_digest(by_prefix, full, a);
    lemma_hashed_digest(by_prefix, full, b);
    law_grouped_files_were_walked(walked, quick, full, by_size, by_prefix, groups, g, i);
    law_grouped_files_were_walked(walked, quick, full, by_size, by_prefix, groups, g, j);
}

/// Every file of a group was walked.
pub proof fn law_grouped_files_were_walked(
    walked: Seq<FileInfoView>,
    prefix_digest: spec_fn(FileInfoView) -> Option<Seq<u8>>,
    full_digest: spec_fn(FileInfoView) -> Option<Seq<u8>>,
    by_size: Seq<FileInfoView>,
    by_prefix: Seq<FileInfoView>,
    groups: Seq<FileGroupView>,
    g: int,
    i: int,
)
    requires
        scans_to(walked, prefix_digest, full_digest, by_size, by_prefix, groups),
        0 <= g < groups.len(),
        0 <= i < groups[g].files.len(),
    ensures
        walked.contains(groups[g].files[i]),
{
    let items = funnel::hashed(by_prefix, digests_by(full_digest, by_prefix));
    let files = groups[g].files;
    law_groups_hold_equal_content(groups, items, g);
    let digest = choose|digest: Option<Seq<u8>>| #[trigger]
        all_have(files, groups[g].size, digest, items);
    let item = FingerprintedView { file: files[i], digest };
    assert(files[i].size == groups[g].size && items.contains(item));
    let a = choose|a: int| 0 <= a < items.len() && items[a] == item;
    lemma_hashed_digest(by_prefix, full_digest, a);
    lemma_scanned_were_walked(walked, prefix_digest, by_size, by_prefix, files[i]);
}

/// What is left after the quick digests was walked.
proof fn lemma_scanned_were_walked(
    walked: Seq<FileInfoView>,
    prefix_digest: spec_fn(FileInfoView) -> Option<Seq<u8>>,
    by_size: Seq<FileInfoView>,
    by_prefix: Seq<FileInfoView>,
    file: FileInfoView,
)
    requires
        funnel::are_candidates(by_size, funnel::unhashed(walked)),
        funnel::are_candidates(
            by_prefix,
            funnel::hashed(by_size, digests_by(prefix_digest, by_size)),
        ),
        by_prefix.contains(file),
    ensures
        walked.contains(file),
{
    let i2 = choose|k: int| 0 <= k < by_prefix.len() && by_prefix[k] == file;
    let quick_items = funnel::hashed(by_size, digests_by(prefix_digest, by_size));
    let a1 = lemma_candidates_are_members(by_prefix, quick_items, i2);
    lemma_hashed_digest(by_size, prefix_digest, a1);
    let i1 = choose|k: int| 0 <= k < by_size.len() && by_size[k] == file;
    let a0 = lemma_candidates_are_members(by_size, funnel::unhashed(walked), i1);
    assert(walked[a0] == file);
}

/// A scan that ends after the walk, for want of candidates, ends as one that goes on would: with
/// no groups.
pub proof fn law_early_end_after_walk(
    walked: Seq<FileInfoView>,
    prefix_digest: spec_fn(FileInfoView) -> Option<Seq<u8>>,
    full_digest: spec_fn(FileInfoView) -> Option<Seq<u8>>,
)
    requires
        funnel::are_candidates(Seq::empty(), funnel::unhashed(walked)),
    ensures
        scans_to(
            walked,
            prefix_digest,
            full_digest,
            Seq::empty(),
            Seq::empty(),
            Seq::empty(),
        ),
{
    let none: Seq<FileInfoView> = Seq::empty();
    lemma_no_items(funnel::hashed(none, digests_by(prefix_digest, none)));
    law_early_end_after_prefixes(walked, prefix_digest, full_digest, none);
}

/// A scan that ends after the quick digests, for want of candidates, ends as one that goes on
/// would: with no groups.
pub proof fn law_early_end_after_prefixes(
    walked: Seq<FileInfoView>,
    prefix_digest: spec_fn(FileInfoView) -> Option<Seq<u8>>,
    full_digest: spec_fn(FileInfoView) -> Option<Seq<u8>>,
    by_size: Seq<FileInfoView>,
)
    requires
        funnel::are_candidates(by_size, funnel::unhashed(walked)),
        funnel::are_candidates(
            Seq::empty(),
            funnel::hashed(by_size, digests_by(prefix_digest, by_size)),
        ),
    ensures
        scans_to(
            walked,
            prefix_digest,
            full_digest,
            by_size,
            Seq::empty(),
            Seq::empty(),
        ),
{
    let items = funnel::hashed(Seq::empty(), digests_by(full_digest, Seq::empty()));
    lemma_no_items(items);
    let keys: Seq<ContentKey> = Seq::empty();
    assert(funnel::lists_worthy_keys(keys, items));
    assert(funnel::groups_match(Seq::empty(), items, keys));
}

proof fn lemma_no_items(items: Seq<FingerprintedView>)
    requires
        items.len() == 0,
    ensures
        funnel::lists_worthy_keys(Seq::empty(), items),
        funnel::are_candidates(Seq::empty(), items),
{
    reveal(Seq::filter);
    let keys: Seq<ContentKey> = Seq::empty();
    assert forall|key: ContentKey| #[trigger] keys.contains(key) <==> funnel::worth_comparing(
        funnel::class_of(items, key),
    ) by {
        assert(funnel::class_of(items, key).len() == 0);
    }
    assert(funnel::lists_worthy_keys(keys, items));
    assert(funnel::classes_at(keys, items).flatten() =~= Seq::<FileInfoView>::empty());
}

// ---------------------------------------------------------------------------
// What a stage keeps and what a report holds, file by file
// ---------------------------------------------------------------------------

/// Two entries with the same size and the same digest that are not links to the same file.
pub open spec fn is_twin(a: FingerprintedView, b: FingerprintedView) -> bool {
    &&& a.file.size == b.file.size
    &&& a.digest == b.digest
    &&& a.file.inode != b.file.inode || a.file.device != b.file.device
}

/// The item at `a` has the size and the digest of two that are twins.
pub open spec fn shares_with_twins(items: Seq<FingerprintedView>, a: int) -> bool {
    exists|b: int, c: int|
        {
            &&& 0 <= b < items.len()
            &&& 0 <= c < items.len()
            &&& #[trigger] is_twin(items[b], items[c])
            &&& items[b].file.size == items[a].file.size
            &&& items[b].digest == items[a].digest
        }
}

proof fn lemma_twins_make_class_worthy(items: Seq<FingerprintedView>, b: int, c: int)
    requires
        0 <= b < items.len(),
        0 <= c < items.len(),
        is_twin(items[b], items[c]),
    ensures
        funnel::worth_comparing(funnel::class_of(items, funnel::key_of(items[b]))),
{
    lemma_in_class(items, b);
    lemma_in_class(items, c);
    lemma_worth_with_two(
        funnel::class_of(items, funnel::key_of(items[b])),
        items[b].file,
        items[c].file,
    );
}

proof fn lemma_worthy_class_has_twins(items: Seq<FingerprintedView>, key: ContentKey) -> (pair: (
    int,
    int,
))
    requires
        funnel::worth_comparing(funnel::class_of(items, key)),
    ensures
        0 <= pair.0 < items.len(),
        0 <= pair.1 < items.len(),
        is_twin(items[pair.0], items[pair.1]),
        funnel::key_of(items[pair.0]) == key,
{
    let class = funnel::class_of(items, key);
    let (x, y) = lemma_worth_has_two(class);
    let i = choose|i: int| 0 <= i < class.len() && class[i] == x;
    let j = choose|j: int| 0 <= j < class.len() && class[j] == y;
    let b = funnel::lemma_class_member(items, key, i);
    let c = funnel::lemma_class_member(items, key, j);
    (b, c)
}

/// A stage keeps a file exactly where two files of its size and digest are not links to the same
/// file.
pub proof fn law_a_stage_keeps_what_has_twins(
    kept: Seq<FileInfoView>,
    items: Seq<FingerprintedView>,
    file: FileInfoView,
)
    requires
        funnel::are_candidates(kept, items),
    ensures
        kept.contains(file) <==> exists|a: int|
            0 <= a < items.len() && (#[trigger] items[a]).file == file && shares_with_twins(
                items,
                a,
            ),
{
    let keys = choose|keys: Seq<ContentKey>| #[trigger]
        funnel::lists_worthy_keys(keys, items) && kept == funnel::classes_at(
            keys,
            items,
        ).flatten();
    let classes = funnel::classes_at(keys, items);
    if kept.contains(file) {
        let i = choose|i: int| 0 <= i < kept.len() && kept[i] == file;
        let c = lemma_flatten_member(classes, i);
        let k = choose|k: int| 0 <= k < classes[c].len() && classes[c][k] == file;
        assert(classes[c] == funnel::class_of(items, keys[c]));
        let a = funnel::lemma_class_member(items, keys[c], k);
        assert(keys.contains(keys[c]));
        let (x, y) = lemma_worthy_class_has_twins(items, keys[c]);
        assert(is_twin(items[x], items[y]));
        assert(shares_with_twins(items, a));
    }
    if exists|a: int|
        0 <= a < items.len() && (#[trigger] items[a]).file == file && shares_with_twins(
            items,
            a,
        ) {
        let a = choose|a: int|
            0 <= a < items.len() && (#[trigger] items[a]).file == file && shares_with_twins(
                items,
                a,
            );
        let (b, c) = choose|b: int, c: int|
            {
                &&& 0 <= b < items.len()
                &&& 0 <= c < items.len()
                &&& #[trigger] is_twin(items[b], items[c])
                &&& items[b].file.size == items[a].file.size
                &&& items[b].digest == items[a].digest
            };
        lemma_twins_make_class_worthy(items, b, c);
        let key = funnel::key_of(items[b]);
        assert(funnel::key_of(items[a]) == key);
        lemma_in_class(items, a);
        assert(keys.contains(key));
        let n = choose|n: int| 0 <= n < keys.len() && keys[n] == key;
        assert(classes[n] == funnel::class_of(items, key));
        lemma_in_flatten(classes, n, file);
    }
}

/// A stage keeps nothing exactly where there are no twins.
pub proof fn law_a_stage_goes_on_where_there_are_twins(
    kept: Seq<FileInfoView>,
    items: Seq<FingerprintedView>,
)
    requires
        funnel::are_candidates(kept, items),
    ensures
        kept.len() > 0 <==> exists|b: int, c: int|
            0 <= b < items.len() && 0 <= c < items.len() && #[trigger] is_twin(
                items[b],
                items[c],
            ),
{
    if kept.len() > 0 {
        assert(kept.contains(kept[0]));
        law_a_stage_keeps_what_has_twins(kept, items, kept[0]);
        let a = choose|a: int|
            0 <= a < items.len() && (#[trigger] items[a]).file == kept[0] && shares_with_twins(
                items,
                a,
            );
        let (b, c) = choose|b: int, c: int|
            {
                &&& 0 <= b < items.len()
                &&& 0 <= c < items.len()
                &&& #[trigger] is_twin(items[b], items[c])
                &&& items[b].file.size == items[a].file.size
                &&& items[b].digest == items[a].digest
            };
        assert(is_twin(items[b], items[c]));
    }
    if exists|b: int, c: int|
        0 <= b < items.len() && 0 <= c < items.len() && #[trigger] is_twin(items[b], items[c]) {
        let (b, c) = choose|b: int, c: int|
            0 <= b < items.len() && 0 <= c < items.len() && #[trigger] is_twin(
                items[b],
                items[c],
            );
        assert(shares_with_twins(items, b));
        law_a_stage_keeps_what_has_twins(kept, items, items[b].file);
    }
}

/// A group holds every file of its size with its digest, each as often as it was listed, and
/// nothing else.
pub open spec fn holds_all(
    group: FileGroupView,
    digest: Option<Seq<u8>>,
    items: Seq<FingerprintedView>,
) -> bool {
    group.files.to_multiset() == items.filter(
        |t: FingerprintedView| t.file.size == group.size && t.digest == digest,
    ).map_values(|t: FingerprintedView| t.file).to_multiset()
}

/// A group holds every file of its size with one digest, each as often as it was listed, and
/// nothing else.
pub proof fn law_groups_are_whole(
    groups: Seq<FileGroupView>,
    items: Seq<FingerprintedView>,
    g: int,
)
    requires
        funnel::is_duplicate_report(groups, items),
        0 <= g < groups.len(),
    ensures
        exists|digest: Option<Seq<u8>>| #[trigger] holds_all(groups[g], digest, items),
{
    let keys = choose|keys: Seq<ContentKey>| #[trigger]
        funnel::lists_worthy_keys(keys, items) && funnel::groups_match(groups, items, keys);
    let key = keys[g];
    assert(funnel::is_group_of(groups[g], items, key));
    let by_key = |t: FingerprintedView| funnel::key_of(t) == key;
    let by_parts = |t: FingerprintedView| t.file.size == groups[g].size && t.digest == key.digest;
    assert(by_key =~= by_parts);
    assert(holds_all(groups[g], key.digest, items));
}

/// Two files of a report that are twins stand in one group.
pub proof fn law_twins_are_reported(
    groups: Seq<FileGroupView>,
    items: Seq<FingerprintedView>,
    a: int,
    b: int,
)
    requires
        funnel::is_duplicate_report(groups, items),
        0 <= a < items.len(),
        0 <= b < items.len(),
        is_twin(items[a], items[b]),
    ensures
        exists|g: int|
            0 <= g < groups.len() && (#[trigger] groups[g]).files.contains(items[a].file)
                && groups[g].files.contains(items[b].file),
{
    broadcast use vstd::seq_lib::group_to_multiset_ensures;

    let keys = choose|keys: Seq<ContentKey>| #[trigger]
        funnel::lists_worthy_keys(keys, items) && funnel::groups_match(groups, items, keys);
    let key = funnel::key_of(items[a]);
    lemma_twins_make_class_worthy(items, a, b);
    assert(keys.contains(key));
    let g = choose|g: int| 0 <= g < keys.len() && keys[g] == key;
    assert(funnel::is_group_of(groups[g], items, keys[g]));
    lemma_in_class(items, a);
    lemma_in_class(items, b);
    let class = funnel::class_of(items, key);
    assert(class.to_multiset().count(items[a].file) > 0);
    assert(class.to_multiset().count(items[b].file) > 0);
    assert(groups[g].files.contains(items[a].file));
    assert(groups[g].files.contains(items[b].file));
}

/// A group holds two files that are not links to the same file.
pub proof fn law_groups_hold_different_files(
    groups: Seq<FileGroupView>,
    items: Seq<FingerprintedView>,
    g: int,
)
    requires
        funnel::is_duplicate_report(groups, items),
        0 <= g < groups.len(),
    ensures
        exists|i: int, j: int|
            {
                &&& 0 <= i < groups[g].files.len()
                &&& 0 <= j < groups[g].files.len()
                &&& (#[trigger] groups[g].files[i]).inode != (#[trigger] groups[g].files[j]).inode
                    || groups[g].files[i].device != groups[g].files[j].device
            },
{
    law_groups_have_targets(groups, items, g);
    let files = groups[g].files;
    assert(funnel::worth_comparing(files));
    let (x, y) = lemma_worth_has_two(files);
    let i = choose|i: int| 0 <= i < files.len() && files[i] == x;
    let j = choose|j: int| 0 <= j < files.len() && files[j] == y;
    assert(groups[g].files[i] == x && groups[g].files[j] == y);
}

/// Within a group every file stands before those with greater paths.
pub proof fn law_files_stand_in_path_order(
    groups: Seq<FileGroupView>,
    items: Seq<FingerprintedView>,
    g: int,
    i: int,
    j: int,
)
    requires
        funnel::is_duplicate_report(groups, items),
        0 <= g < groups.len(),
        0 <= i < j < groups[g].files.len(),
    ensures
        crate::path::path_le(groups[g].files[i].path, groups[g].files[j].path),
{
    let keys = choose|keys: Seq<ContentKey>| #[trigger]
        funnel::lists_worthy_keys(keys, items) && funnel::groups_match(groups, items, keys);
    let files = groups[g].files;
    let le = funnel::path_order();
    assert(funnel::is_group_of(groups[g], items, keys[g]));
    assert(le(files[i], files[j]));
}

/// The files with a digest are those for which one was computed, in their order, each with its
/// own.
pub proof fn law_only_unread_files_are_dropped(
    files: Seq<FileInfoView>,
    digests: Seq<Option<Seq<u8>>>,
    file: FileInfoView,
    digest: Option<Seq<u8>>,
)
    requires
        files.len() == digests.len(),
    ensures
        funnel::hashed(Seq::empty(), Seq::empty()) == Seq::<FingerprintedView>::empty(),
        digest is None ==> funnel::hashed(files.push(file), digests.push(digest))
            == funnel::hashed(files, digests),
        digest is Some ==> funnel::hashed(files.push(file), digests.push(digest))
            == funnel::hashed(files, digests).push(FingerprintedView { file, digest }),
{
    assert(files.push(file).drop_last() =~= files);
    assert(digests.push(digest).drop_last() =~= digests);
}

/// The quick digest covers the first 4096 bytes of a content, and all of a shorter one.
pub proof fn law_quick_part_is_the_start(content: Seq<u8>)
    ensures
        content.len() <= 4096 ==> hashing::quick_part(content) == content,
        content.len() > 4096 ==> hashing::quick_part(content).len() == 4096,
        content.len() > 4096 ==> forall|i: int|
            0 <= i < 4096 ==> #[trigger] hashing::quick_part(content)[i] == content[i],
{
}

} // verus!
