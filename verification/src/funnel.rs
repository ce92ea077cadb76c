//! From a list of files to groups of duplicates.
//!
//! Files are narrowed down in stages. Each stage puts the files into classes by a key, their
//! size together with a digest where one has been computed, and keeps the classes that hold
//! more than one file and not just several links to one file.

use crate::order;
use crate::path;
use crate::sort;
use crate::sort::Ranked;
use crate::types;
use crate::types::{FileGroup, FileGroupView, FileInfo, FileInfoView};
use vstd::prelude::*;

verus! {

/// A file with a digest of its content, or of the start of it, where one has been computed.
#[derive(Debug)]
pub struct Fingerprinted {
    pub file: FileInfo,
    pub digest: Option<[u8; 32]>,
}

/// The mathematical value of a [`Fingerprinted`].
pub struct FingerprintedView {
    pub file: FileInfoView,
    pub digest: Option<Seq<u8>>,
}

/// The bytes of a digest, where there is one.
pub open spec fn digest_view(digest: Option<[u8; 32]>) -> Option<Seq<u8>> {
    match digest {
        Some(bytes) => Some(bytes@),
        None => None,
    }
}

impl View for Fingerprinted {
    type V = FingerprintedView;

    open spec fn view(&self) -> FingerprintedView {
        FingerprintedView { file: self.file@, digest: digest_view(self.digest) }
    }
}

/// The values of a list of fingerprinted files.
pub open spec fn fingerprinted_views(items: Seq<Fingerprinted>) -> Seq<FingerprintedView> {
    items.map_values(|t: Fingerprinted| t@)
}

/// What files are put into classes by.
pub struct ContentKey {
    pub size: u64,
    pub digest: Option<Seq<u8>>,
}

pub open spec fn key_of(item: FingerprintedView) -> ContentKey {
    ContentKey { size: item.file.size, digest: item.digest }
}

/// The files with a given key, in the order in which they stand in the list.
pub open spec fn class_of(items: Seq<FingerprintedView>, key: ContentKey) -> Seq<FileInfoView> {
    items.filter(|t: FingerprintedView| key_of(t) == key).map_values(|t: FingerprintedView| t.file)
}

/// All files are links to the same file.
pub open spec fn links_to_one_file(files: Seq<FileInfoView>) -> bool {
    forall|i: int|
        0 <= i < files.len() ==> (#[trigger] files[i]).inode == files[0].inode && files[i].device
            == files[0].device
}

/// More than one file, and not just several links to one.
pub open spec fn worth_comparing(files: Seq<FileInfoView>) -> bool {
    files.len() > 1 && !links_to_one_file(files)
}

/// `keys` lists, once each, the keys whose classes are worth comparing.
pub open spec fn lists_worthy_keys(keys: Seq<ContentKey>, items: Seq<FingerprintedView>) -> bool {
    &&& keys.no_duplicates()
    &&& forall|key: ContentKey| #[trigger]
        keys.contains(key) <==> worth_comparing(class_of(items, key))
}

/// The classes of the listed keys.
pub open spec fn classes_at(keys: Seq<ContentKey>, items: Seq<FingerprintedView>) -> Seq<
    Seq<FileInfoView>,
> {
    keys.map_values(|key: ContentKey| class_of(items, key))
}

/// `files` holds the classes that are worth comparing, one after another in some order.
pub open spec fn are_candidates(files: Seq<FileInfoView>, items: Seq<FingerprintedView>) -> bool {
    exists|keys: Seq<ContentKey>| #[trigger]
        lists_worthy_keys(keys, items) && files == classes_at(keys, items).flatten()
}

/// The order of files by path.
pub open spec fn path_order() -> spec_fn(FileInfoView, FileInfoView) -> bool {
    |a: FileInfoView, b: FileInfoView| path::path_le(a.path, b.path)
}

/// The group that a class of files with the same key becomes: its files by path, selected.
pub open spec fn is_group_of(
    group: FileGroupView,
    items: Seq<FingerprintedView>,
    key: ContentKey,
) -> bool {
    &&& group.size == key.size
    &&& group.selected
    &&& sort::stable_sort_of(group.files, class_of(items, key), path_order())
}

/// Groups by what they save, greatest first.
pub open spec fn savings_order() -> spec_fn(FileGroupView, FileGroupView) -> bool {
    |a: FileGroupView, b: FileGroupView| types::savings_of(a) >= types::savings_of(b)
}

/// Every group is that of its key in `keys`.
pub open spec fn groups_match(
    groups: Seq<FileGroupView>,
    items: Seq<FingerprintedView>,
    keys: Seq<ContentKey>,
) -> bool {
    &&& groups.len() == keys.len()
    &&& forall|i: int| 0 <= i < groups.len() ==> #[trigger] is_group_of(groups[i], items, keys[i])
}

/// One group for each class worth comparing, those that save most first.
pub open spec fn is_duplicate_report(
    groups: Seq<FileGroupView>,
    items: Seq<FingerprintedView>,
) -> bool {
    &&& sort::in_order(groups, savings_order())
    &&& exists|keys: Seq<ContentKey>| #[trigger]
        lists_worthy_keys(keys, items) && groups_match(groups, items, keys)
}

/// Files before any digest has been computed.
pub open spec fn unhashed(files: Seq<FileInfoView>) -> Seq<FingerprintedView> {
    files.map_values(|f: FileInfoView| FingerprintedView { file: f, digest: None })
}

/// The files whose digest could be computed, each with its digest.
pub open spec fn hashed(files: Seq<FileInfoView>, digests: Seq<Option<Seq<u8>>>) -> Seq<
    FingerprintedView,
>
    decreases files.len(),
{
    if files.len() == 0 {
        Seq::empty()
    } else {
        let rest = hashed(files.drop_last(), digests.drop_last());
        match digests.last() {
            Some(digest) => rest.push(
                FingerprintedView { file: files.last(), digest: Some(digest) },
            ),
            None => rest,
        }
    }
}

/// The bytes of a list of digests.
pub open spec fn digest_views(digests: Seq<Option<[u8; 32]>>) -> Seq<Option<Seq<u8>>> {
    digests.map_values(|d: Option<[u8; 32]>| digest_view(d))
}

// ---------------------------------------------------------------------------
// The order of keys
// ---------------------------------------------------------------------------

spec fn digest_le(a: Option<Seq<u8>>, b: Option<Seq<u8>>) -> bool {
    match (a, b) {
        (None, _) => true,
        (Some(_), None) => false,
        (Some(s), Some(t)) => order::bytes_le(s, t),
    }
}

spec fn key_le(a: ContentKey, b: ContentKey) -> bool {
    a.size < b.size || (a.size == b.size && digest_le(a.digest, b.digest))
}

proof fn lemma_key_total(a: ContentKey, b: ContentKey)
    ensures
        key_le(a, b) || key_le(b, a),
{
    match (a.digest, b.digest) {
        (Some(s), Some(t)) => {
            order::lemma_lex_total(s, t, order::byte_order());
        },
        _ => {},
    }
}

proof fn lemma_key_transitive(a: ContentKey, b: ContentKey, c: ContentKey)
    requires
        key_le(a, b),
        key_le(b, c),
    ensures
        key_le(a, c),
{
    match (a.digest, b.digest, c.digest) {
        (Some(s), Some(t), Some(u)) => {
            if a.size == b.size && b.size == c.size {
                order::lemma_lex_transitive(s, t, u, order::byte_order());
            }
        },
        _ => {},
    }
}

proof fn lemma_key_antisymmetric(a: ContentKey, b: ContentKey)
    requires
        key_le(a, b),
        key_le(b, a),
    ensures
        a == b,
{
    match (a.digest, b.digest) {
        (Some(s), Some(t)) => {
            order::lemma_lex_antisymmetric(s, t, order::byte_order());
        },
        _ => {},
    }
}

fn same_digest(a: &Option<[u8; 32]>, b: &Option<[u8; 32]>) -> (same: bool)
    ensures
        same == (digest_view(*a) == digest_view(*b)),
{
    match (a, b) {
        (None, None) => true,
        (Some(s), Some(t)) => order::same_bytes(s.as_slice(), t.as_slice()),
        _ => false,
    }
}

fn digest_at_most(a: &Option<[u8; 32]>, b: &Option<[u8; 32]>) -> (at_most: bool)
    ensures
        at_most == digest_le(digest_view(*a), digest_view(*b)),
{
    match (a, b) {
        (None, _) => true,
        (Some(_), None) => false,
        (Some(s), Some(t)) => order::bytes_at_most(s.as_slice(), t.as_slice()),
    }
}

impl Ranked for Fingerprinted {
    closed spec fn at_most(self, other: Self) -> bool {
        key_le(key_of(self@), key_of(other@))
    }

    proof fn lemma_total(a: Self, b: Self) {
        lemma_key_total(key_of(a@), key_of(b@));
    }

    proof fn lemma_transitive(a: Self, b: Self, c: Self) {
        lemma_key_transitive(key_of(a@), key_of(b@), key_of(c@));
    }

    fn ranks_at_most(&self, other: &Self) -> (at_most: bool) {
        if self.file.size != other.file.size {
            self.file.size < other.file.size
        } else {
            digest_at_most(&self.digest, &other.digest)
        }
    }
}

/// Sorting by key leaves every class as it was.
proof fn lemma_sort_keeps_classes(sorted: Seq<Fingerprinted>, items: Seq<Fingerprinted>)
    requires
        sort::stable_sort_of(sorted, items, sort::rank_order::<Fingerprinted>()),
    ensures
        forall|key: ContentKey| #[trigger]
            class_of(fingerprinted_views(sorted), key) == class_of(fingerprinted_views(items), key),
{
    broadcast use vstd::seq_lib::group_to_multiset_ensures;

    let le = sort::rank_order::<Fingerprinted>();
    let view = |t: Fingerprinted| t@;
    assert forall|key: ContentKey| #[trigger]
        class_of(fingerprinted_views(sorted), key) == class_of(
            fingerprinted_views(items),
            key,
        ) by {
        let pred = |t: FingerprintedView| key_of(t) == key;
        let composed = |t: Fingerprinted| pred(view(t));
        sort::lemma_filter_map_values(sorted, view, pred);
        sort::lemma_filter_map_values(items, view, pred);
        if exists|i: int| 0 <= i < items.len() && composed(#[trigger] items[i]) {
            let i = choose|i: int| 0 <= i < items.len() && composed(#[trigger] items[i]);
            let x = items[i];
            let near = |y: Fingerprinted| le(x, y) && le(y, x);
            assert forall|y: Fingerprinted| #[trigger] composed(y) == near(y) by {
                if near(y) {
                    lemma_key_antisymmetric(key_of(x@), key_of(y@));
                }
                lemma_key_total(key_of(x@), key_of(x@));
            }
            assert(composed =~= near);
            assert(sort::rank_class(sorted, le, x) == sort::rank_class(items, le, x));
        } else {
            assert forall|i: int| 0 <= i < sorted.len() implies !composed(#[trigger] sorted[i]) by {
                assert(sorted.contains(sorted[i]));
                assert(items.to_multiset().count(sorted[i]) > 0);
                assert(items.contains(sorted[i]));
                let j = choose|j: int| 0 <= j < items.len() && items[j] == sorted[i];
                assert(!composed(items[j]));
            }
            sort::lemma_filter_none(sorted, composed);
            sort::lemma_filter_none(items, composed);
        }
    }
}

// ---------------------------------------------------------------------------
// Classes
// ---------------------------------------------------------------------------

/// Whether all files are links to the same file.
pub fn all_same_inode(files: &[FileInfo]) -> (same: bool)
    requires
        files@.len() > 0,
    ensures
        same == links_to_one_file(types::file_views(files@)),
{
    let ghost views = types::file_views(files@);
    let inode: u64 = files[0].inode;
    let device: u64 = files[0].device;
    assert(views[0] == files@[0]@);
    let mut i: usize = 0;
    while i < files.len()
        invariant
            i <= files@.len(),
            views == types::file_views(files@),
            files@.len() > 0,
            views[0].inode == inode,
            views[0].device == device,
            forall|j: int|
                0 <= j < i ==> (#[trigger] views[j]).inode == inode && views[j].device == device,
        decreases files.len() - i,
    {
        assert(views[i as int] == files@[i as int]@);
        if files[i].inode != inode || files[i].device != device {
            return false;
        }
        i += 1;
    }
    true
}

/// One more item adds its file to the class of its key and to no other.
proof fn lemma_class_push(items: Seq<FingerprintedView>, item: FingerprintedView, key: ContentKey)
    ensures
        class_of(items.push(item), key) == (if key_of(item) == key {
            class_of(items, key).push(item.file)
        } else {
            class_of(items, key)
        }),
{
    reveal(Seq::filter);
    assert(items.push(item).drop_last() =~= items);
    let pred = |t: FingerprintedView| key_of(t) == key;
    let file = |t: FingerprintedView| t.file;
    if key_of(item) == key {
        assert(items.filter(pred).push(item).map_values(file) =~= items.filter(pred).map_values(
            file,
        ).push(item.file));
    }
}

spec fn class_views(classes: Seq<Vec<FileInfo>>) -> Seq<Seq<FileInfoView>> {
    classes.map_values(|c: Vec<FileInfo>| types::file_views(c@))
}

/// What is known before the class of `key`, the last to be read, is complete.
spec fn all_but_closed(
    classes: Seq<Vec<FileInfo>>,
    keys: Seq<ContentKey>,
    key: ContentKey,
    items: Seq<FingerprintedView>,
) -> bool {
    &&& keys.no_duplicates()
    &&& !keys.contains(key)
    &&& class_views(classes) == classes_at(keys, items)
    &&& forall|k: ContentKey|
        k != key ==> (#[trigger] keys.contains(k) <==> worth_comparing(class_of(items, k)))
}

/// Keeps a complete class where it is worth comparing.
fn close_class(
    classes: &mut Vec<Vec<FileInfo>>,
    class: Vec<FileInfo>,
    Ghost(keys): Ghost<Seq<ContentKey>>,
    Ghost(key): Ghost<ContentKey>,
    Ghost(items): Ghost<Seq<FingerprintedView>>,
) -> (listed: Ghost<Seq<ContentKey>>)
    requires
        class@.len() > 0,
        types::file_views(class@) == class_of(items, key),
        all_but_closed(old(classes)@, keys, key, items),
    ensures
        lists_worthy_keys(listed@, items),
        class_views(final(classes)@) == classes_at(listed@, items),
{
    let keep: bool = class.len() > 1 && !all_same_inode(class.as_slice());
    if keep {
        let ghost before = classes@;
        classes.push(class);
        let ghost longer = keys.push(key);
        proof {
            assert(class_views(classes@) =~= class_views(before).push(
                types::file_views(class@),
            ));
            assert(classes_at(longer, items) =~= classes_at(keys, items).push(
                class_of(items, key),
            ));
            assert forall|k: ContentKey| #[trigger]
                longer.contains(k) <==> worth_comparing(class_of(items, k)) by {
                assert(longer[longer.len() - 1] == key);
                if keys.contains(k) {
                    let j = choose|j: int| 0 <= j < keys.len() && keys[j] == k;
                    assert(longer[j] == k);
                }
                if longer.contains(k) && k != key {
                    let j = choose|j: int| 0 <= j < longer.len() && longer[j] == k;
                    assert(keys[j] == k);
                }
            }
        }
        Ghost(longer)
    } else {
        Ghost(keys)
    }
}

/// The classes that are worth comparing, with the keys that they belong to.
fn worthy_classes(items: Vec<Fingerprinted>) -> (out: (
    Vec<Vec<FileInfo>>,
    Ghost<Seq<ContentKey>>,
))
    ensures
        lists_worthy_keys(out.1@, fingerprinted_views(items@)),
        class_views(out.0@) == classes_at(out.1@, fingerprinted_views(items@)),
{
    let ghost items0 = items@;
    let sorted = sort::merge_sort(items);
    let ghost sorted0 = sorted@;
    let ghost all = fingerprinted_views(sorted0);
    proof {
        lemma_sort_keeps_classes(sorted0, items0);
    }
    let mut rest = sort::reversed(sorted);
    let mut classes: Vec<Vec<FileInfo>> = Vec::new();
    let ghost mut keys: Seq<ContentKey> = Seq::empty();
    let ghost mut n: int = 0;
    match rest.pop() {
        None => {
            proof {
                assert(all =~= Seq::empty());
                lemma_no_items_no_keys(all);
                assert(class_views(classes@) =~= classes_at(keys, all));
                lemma_same_classes(keys, all, fingerprinted_views(items0));
            }
            return (classes, Ghost(keys));
        },
        Some(first) => {
            let mut size: u64 = first.file.size;
            let mut digest: Option<[u8; 32]> = first.digest;
            let mut class: Vec<FileInfo> = Vec::new();
            let ghost mut key: ContentKey = key_of(first@);
            proof {
                n = 1;
                assert(first == sorted0[0]);
                assert(rest@ =~= sorted0.skip(1).reverse());
                assert(all[0] == first@);
                assert(all.take(1) =~= Seq::empty().push(first@));
                lemma_first_class(first@);
                assert(class_views(classes@) =~= classes_at(keys, all.take(1)));
            }
            class.push(first.file);
            assert(types::file_views(class@) =~= seq![first@.file]);
            while rest.len() > 0
                invariant
                    1 <= n <= sorted0.len(),
                    rest@ == sorted0.skip(n).reverse(),
                    all == fingerprinted_views(sorted0),
                    sort::in_order(sorted0, sort::rank_order::<Fingerprinted>()),
                    key == key_of(all[n - 1]),
                    key == (ContentKey { size, digest: digest_view(digest) }),
                    class@.len() > 0,
                    types::file_views(class@) == class_of(all.take(n), key),
                    all_but_closed(classes@, keys, key, all.take(n)),
                decreases rest.len(),
            {
                let ghost rest0 = rest@;
                match rest.pop() {
                    Some(item) => {
                        proof {
                            assert(rest0.len() == sorted0.len() - n);
                            assert(item == sorted0[n]);
                            assert(rest@ =~= sorted0.skip(n + 1).reverse());
                            assert(all[n] == item@);
                            assert(all.take(n + 1) =~= all.take(n).push(item@));
                        }
                        if item.file.size == size && same_digest(&item.digest, &digest) {
                            let ghost class0 = class@;
                            class.push(item.file);
                            proof {
                                assert(types::file_views(class@) =~= types::file_views(
                                    class0,
                                ).push(item@.file));
                                lemma_class_push(all.take(n), item@, key);
                                lemma_other_classes_stay(classes@, keys, key, all.take(n), item@);
                            }
                        } else {
                            let listed = close_class(
                                &mut classes,
                                class,
                                Ghost(keys),
                                Ghost(key),
                                Ghost(all.take(n)),
                            );
                            proof {
                                lemma_new_key(sorted0, n);
                                keys = listed@;
                                lemma_open_class(classes@, keys, all.take(n), item@);
                                key = key_of(item@);
                            }
                            size = item.file.size;
                            digest = item.digest;
                            class = Vec::new();
                            class.push(item.file);
                            assert(types::file_views(class@) =~= Seq::empty().push(item@.file));
                        }
                        proof {
                            n = n + 1;
                        }
                    },
                    None => {},
                }
            }
            proof {
                assert(sorted0.skip(n).reverse().len() == 0);
                assert(all.take(n) =~= all);
            }
            let listed = close_class(&mut classes, class, Ghost(keys), Ghost(key), Ghost(all));
            proof {
                lemma_same_classes(listed@, all, fingerprinted_views(items0));
            }
            (classes, listed)
        },
    }
}

proof fn lemma_no_items_no_keys(items: Seq<FingerprintedView>)
    requires
        items.len() == 0,
    ensures
        lists_worthy_keys(Seq::empty(), items),
{
    reveal(Seq::filter);
    assert forall|key: ContentKey| #[trigger]
        Seq::<ContentKey>::empty().contains(key) <==> worth_comparing(class_of(items, key)) by {
        assert(class_of(items, key).len() == 0);
    }
}

/// Lists with the same classes have the same worthy keys.
proof fn lemma_same_classes(
    keys: Seq<ContentKey>,
    items: Seq<FingerprintedView>,
    others: Seq<FingerprintedView>,
)
    requires
        forall|key: ContentKey| #[trigger] class_of(items, key) == class_of(others, key),
        lists_worthy_keys(keys, items),
    ensures
        lists_worthy_keys(keys, others),
        classes_at(keys, items) == classes_at(keys, others),
{
    assert(classes_at(keys, items) =~= classes_at(keys, others));
    assert forall|key: ContentKey| #[trigger] keys.contains(key) <==> worth_comparing(
        class_of(others, key),
    ) by {
        assert(class_of(items, key) == class_of(others, key));
    }
}

proof fn lemma_first_class(first: FingerprintedView)
    ensures
        class_of(Seq::empty().push(first), key_of(first)) == seq![first.file],
        forall|k: ContentKey|
            k != key_of(first) ==> (#[trigger] class_of(Seq::empty().push(first), k)).len() == 0,
{
    reveal(Seq::filter);
    let none: Seq<FingerprintedView> = Seq::empty();
    lemma_class_push(none, first, key_of(first));
    assert(class_of(none, key_of(first)) =~= Seq::empty());
    assert(class_of(none, key_of(first)).push(first.file) =~= seq![first.file]);
    assert forall|k: ContentKey| k != key_of(first) implies (#[trigger] class_of(
        none.push(first),
        k,
    )).len() == 0 by {
        lemma_class_push(none, first, k);
    }
}

/// One more item with the key of the open class leaves the others as they are.
proof fn lemma_other_classes_stay(
    classes: Seq<Vec<FileInfo>>,
    keys: Seq<ContentKey>,
    key: ContentKey,
    items: Seq<FingerprintedView>,
    item: FingerprintedView,
)
    requires
        all_but_closed(classes, keys, key, items),
        key_of(item) == key,
    ensures
        all_but_closed(classes, keys, key, items.push(item)),
{
    assert forall|k: ContentKey| k != key implies (#[trigger] keys.contains(k)
        <==> worth_comparing(class_of(items.push(item), k))) by {
        lemma_class_push(items, item, k);
    }
    assert forall|i: int| 0 <= i < keys.len() implies #[trigger] classes_at(keys, items)[i]
        == classes_at(keys, items.push(item))[i] by {
        assert(keys.contains(keys[i]));
        lemma_class_push(items, item, keys[i]);
    }
    assert(classes_at(keys, items) =~= classes_at(keys, items.push(item)));
}

/// In a list sorted by key, an item with another key than its predecessor has a key that
/// did not occur before.
proof fn lemma_new_key(sorted: Seq<Fingerprinted>, n: int)
    requires
        1 <= n < sorted.len(),
        sort::in_order(sorted, sort::rank_order::<Fingerprinted>()),
        key_of(sorted[n]@) != key_of(sorted[n - 1]@),
    ensures
        class_of(fingerprinted_views(sorted).take(n), key_of(sorted[n]@)).len() == 0,
{
    let le = sort::rank_order::<Fingerprinted>();
    let key = key_of(sorted[n]@);
    let before = fingerprinted_views(sorted).take(n);
    let pred = |t: FingerprintedView| key_of(t) == key;
    assert forall|i: int| 0 <= i < before.len() implies !pred(#[trigger] before[i]) by {
        assert(before[i] == sorted[i]@);
        if pred(before[i]) {
            assert(le(sorted[n - 1], sorted[n]));
            if i < n - 1 {
                assert(le(sorted[i], sorted[n - 1]));
                lemma_key_antisymmetric(key_of(sorted[i]@), key_of(sorted[n - 1]@));
            }
        }
    }
    sort::lemma_filter_none(before, pred);
}

/// With all classes complete, an item with a new key opens a class of its own.
proof fn lemma_open_class(
    classes: Seq<Vec<FileInfo>>,
    keys: Seq<ContentKey>,
    items: Seq<FingerprintedView>,
    item: FingerprintedView,
)
    requires
        lists_worthy_keys(keys, items),
        class_views(classes) == classes_at(keys, items),
        class_of(items, key_of(item)).len() == 0,
    ensures
        all_but_closed(classes, keys, key_of(item), items.push(item)),
        class_of(items.push(item), key_of(item)) == Seq::<FileInfoView>::empty().push(item.file),
{
    let key = key_of(item);
    lemma_class_push(items, item, key);
    assert(class_of(items, key) =~= Seq::empty());
    assert(!keys.contains(key));
    assert forall|k: ContentKey| k != key implies (#[trigger] keys.contains(k)
        <==> worth_comparing(class_of(items.push(item), k))) by {
        lemma_class_push(items, item, k);
    }
    assert forall|i: int| 0 <= i < keys.len() implies #[trigger] classes_at(keys, items)[i]
        == classes_at(keys, items.push(item))[i] by {
        assert(keys.contains(keys[i]));
        lemma_class_push(items, item, keys[i]);
    }
    assert(classes_at(keys, items) =~= classes_at(keys, items.push(item)));
}

// ---------------------------------------------------------------------------
// Stages
// ---------------------------------------------------------------------------

fn concatenated(classes: Vec<Vec<FileInfo>>) -> (files: Vec<FileInfo>)
    ensures
        types::file_views(files@) == class_views(classes@).flatten(),
{
    let ghost classes0 = classes@;
    let mut rest = sort::reversed(classes);
    let mut files: Vec<FileInfo> = Vec::new();
    let ghost mut n: int = 0;
    assert(types::file_views(files@) =~= class_views(classes0.take(0)).flatten());
    assert(rest@ =~= classes0.skip(0).reverse());
    while rest.len() > 0
        invariant
            0 <= n <= classes0.len(),
            rest@ == classes0.skip(n).reverse(),
            types::file_views(files@) == class_views(classes0.take(n)).flatten(),
        decreases rest.len(),
    {
        let ghost before = files@;
        match rest.pop() {
            Some(mut class) => {
                let ghost class0 = class@;
                proof {
                    assert(class == classes0[n]);
                    assert(rest@ =~= classes0.skip(n + 1).reverse());
                    class_views(classes0.take(n)).lemma_flatten_push(types::file_views(class0));
                    assert(class_views(classes0.take(n + 1)) =~= class_views(
                        classes0.take(n),
                    ).push(types::file_views(class0)));
                    n = n + 1;
                }
                files.append(&mut class);
                assert(types::file_views(files@) =~= types::file_views(before)
                    + types::file_views(class0));
            },
            None => {},
        }
    }
    assert(classes0.take(n) =~= classes0);
    files
}

/// The files that are worth comparing further.
fn candidates(items: Vec<Fingerprinted>) -> (files: Vec<FileInfo>)
    ensures
        are_candidates(types::file_views(files@), fingerprinted_views(items@)),
{
    let ghost views = fingerprinted_views(items@);
    let (classes, keys) = worthy_classes(items);
    let files = concatenated(classes);
    assert(lists_worthy_keys(keys@, views));
    files
}

/// The files that share their size with another file.
pub fn size_candidates(files: Vec<FileInfo>) -> (kept: Vec<FileInfo>)
    ensures
        are_candidates(types::file_views(kept@), unhashed(types::file_views(files@))),
{
    let ghost files0 = files@;
    let mut rest = sort::reversed(files);
    let mut items: Vec<Fingerprinted> = Vec::new();
    let ghost mut n: int = 0;
    assert(rest@ =~= files0.skip(0).reverse());
    assert(fingerprinted_views(items@) =~= unhashed(types::file_views(files0.take(0))));
    while rest.len() > 0
        invariant
            0 <= n <= files0.len(),
            rest@ == files0.skip(n).reverse(),
            fingerprinted_views(items@) == unhashed(types::file_views(files0.take(n))),
        decreases rest.len(),
    {
        let ghost before = items@;
        match rest.pop() {
            Some(file) => {
                proof {
                    assert(file == files0[n]);
                    assert(rest@ =~= files0.skip(n + 1).reverse());
                    assert(files0.take(n + 1) =~= files0.take(n).push(file));
                    assert(unhashed(types::file_views(files0.take(n + 1))) =~= unhashed(
                        types::file_views(files0.take(n)),
                    ).push(FingerprintedView { file: file@, digest: None }));
                    n = n + 1;
                }
                items.push(Fingerprinted { file, digest: None });
                assert(fingerprinted_views(items@) =~= fingerprinted_views(before).push(
                    FingerprintedView { file: file@, digest: None },
                ));
            },
            None => {},
        }
    }
    assert(files0.take(n) =~= files0);
    candidates(items)
}

/// Puts each file together with its digest and leaves out those without one.
pub fn fingerprint(files: Vec<FileInfo>, digests: &Vec<Option<[u8; 32]>>) -> (items: Vec<
    Fingerprinted,
>)
    requires
        files@.len() == digests@.len(),
    ensures
        fingerprinted_views(items@) == hashed(
            types::file_views(files@),
            digest_views(digests@),
        ),
{
    let ghost files0 = files@;
    let ghost fv = types::file_views(files0);
    let ghost dv = digest_views(digests@);
    let mut rest = sort::reversed(files);
    let mut items: Vec<Fingerprinted> = Vec::new();
    let mut n: usize = 0;
    assert(rest@ =~= files0.skip(0).reverse());
    assert(fingerprinted_views(items@) =~= hashed(fv.take(0), dv.take(0)));
    while rest.len() > 0
        invariant
            0 <= n <= files0.len(),
            files0.len() == digests@.len(),
            rest@ == files0.skip(n as int).reverse(),
            fv == types::file_views(files0),
            dv == digest_views(digests@),
            fingerprinted_views(items@) == hashed(fv.take(n as int), dv.take(n as int)),
        decreases rest.len(),
    {
        let ghost before = items@;
        match rest.pop() {
            Some(file) => {
                proof {
                    assert(file == files0[n as int]);
                    assert(rest@ =~= files0.skip(n + 1).reverse());
                    assert(fv.take(n + 1).drop_last() =~= fv.take(n as int));
                    assert(dv.take(n + 1).drop_last() =~= dv.take(n as int));
                    assert(fv.take(n + 1).last() == file@);
                    assert(dv.take(n + 1).last() == digest_view(digests@[n as int]));
                }
                match digests[n] {
                    Some(digest) => {
                        items.push(Fingerprinted { file, digest: Some(digest) });
                        assert(fingerprinted_views(items@) =~= fingerprinted_views(before).push(
                            FingerprintedView { file: file@, digest: Some(digest@) },
                        ));
                    },
                    None => {},
                }
                assert(n < digests.len());
                n += 1;
            },
            None => {},
        }
    }
    assert(fv.take(n as int) =~= fv);
    assert(dv.take(n as int) =~= dv);
    items
}

/// The files that share their size and the digest of their start with another file.
pub fn prefix_candidates(files: Vec<FileInfo>, digests: &Vec<Option<[u8; 32]>>) -> (kept: Vec<
    FileInfo,
>)
    requires
        files@.len() == digests@.len(),
    ensures
        are_candidates(
            types::file_views(kept@),
            hashed(types::file_views(files@), digest_views(digests@)),
        ),
{
    candidates(fingerprint(files, digests))
}

impl Ranked for FileInfo {
    open spec fn at_most(self, other: Self) -> bool {
        path::path_le(self.path@, other.path@)
    }

    proof fn lemma_total(a: Self, b: Self) {
        path::law_path_order_total(a.path@, b.path@);
    }

    proof fn lemma_transitive(a: Self, b: Self, c: Self) {
        path::law_path_order_transitive(a.path@, b.path@, c.path@);
    }

    fn ranks_at_most(&self, other: &Self) -> (at_most: bool) {
        self.path.path_at_most(&other.path)
    }
}

/// A group on its way into the report, with the key of its class.
struct GroupEntry {
    group: FileGroup,
    key: Ghost<ContentKey>,
}

impl Ranked for GroupEntry {
    closed spec fn at_most(self, other: Self) -> bool {
        types::savings_of(self.group@) >= types::savings_of(other.group@)
    }

    proof fn lemma_total(a: Self, b: Self) {
    }

    proof fn lemma_transitive(a: Self, b: Self, c: Self) {
    }

    fn ranks_at_most(&self, other: &Self) -> (at_most: bool) {
        self.group.savings() >= other.group.savings()
    }
}

/// The group that a class becomes.
fn group_from_class(
    class: Vec<FileInfo>,
    Ghost(items): Ghost<Seq<FingerprintedView>>,
    Ghost(key): Ghost<ContentKey>,
) -> (group: FileGroup)
    requires
        types::file_views(class@) == class_of(items, key),
        class@.len() > 0,
    ensures
        is_group_of(group@, items, key),
{
    let ghost class0 = class@;
    let size: u64 = class[0].size;
    proof {
        lemma_class_member(items, key, 0);
        assert(types::file_views(class0)[0] == class0[0]@);
    }
    let files = sort::merge_sort(class);
    proof {
        lemma_path_sort(files@, class0);
    }
    FileGroup { size, files, selected: true }
}

proof fn lemma_path_sort(files: Seq<FileInfo>, class: Seq<FileInfo>)
    requires
        sort::stable_sort_of(files, class, sort::rank_order::<FileInfo>()),
    ensures
        sort::stable_sort_of(
            types::file_views(files),
            types::file_views(class),
            path_order(),
        ),
{
    let le = path_order();
    assert forall|a: FileInfoView, b: FileInfoView, c: FileInfoView| #[trigger]
        le(a, b) && #[trigger] le(b, c) implies le(a, c) by {
        path::law_path_order_transitive(a.path, b.path, c.path);
    }
    sort::lemma_stable_sort_of_images(
        files,
        class,
        sort::rank_order::<FileInfo>(),
        |f: FileInfo| f@,
        le,
    );
}

/// A file of a class stems from an item with the key of the class.
pub proof fn lemma_class_member(items: Seq<FingerprintedView>, key: ContentKey, i: int) -> (j: int)
    requires
        0 <= i < class_of(items, key).len(),
    ensures
        0 <= j < items.len(),
        items[j].file == class_of(items, key)[i],
        key_of(items[j]) == key,
{
    let pred = |t: FingerprintedView| key_of(t) == key;
    let kept = items.filter(pred);
    items.lemma_filter_pred(pred, i);
    lemma_filtered_is_member(items, pred, i);
    choose|j: int| 0 <= j < items.len() && items[j] == kept[i]
}

/// What a filter keeps was there before.
pub proof fn lemma_filtered_is_member<A>(s: Seq<A>, pred: spec_fn(A) -> bool, i: int)
    requires
        0 <= i < s.filter(pred).len(),
    ensures
        s.contains(s.filter(pred)[i]),
    decreases s.len(),
{
    reveal(Seq::filter);
    if s.len() > 0 {
        let rest = s.drop_last();
        if i < rest.filter(pred).len() {
            lemma_filtered_is_member(rest, pred, i);
            let j = choose|j: int| 0 <= j < rest.len() && rest[j] == rest.filter(pred)[i];
            assert(s[j] == s.filter(pred)[i]);
        } else {
            assert(s[s.len() - 1] == s.filter(pred)[i]);
        }
    }
}

spec fn entry_groups(entries: Seq<GroupEntry>) -> Seq<FileGroupView> {
    entries.map_values(|e: GroupEntry| e.group@)
}

spec fn entry_keys(entries: Seq<GroupEntry>) -> Seq<ContentKey> {
    entries.map_values(|e: GroupEntry| e.key@)
}

/// Rearranging the entries keeps the list of keys complete and without repetition.
proof fn lemma_entries_rearranged(
    out: Seq<GroupEntry>,
    entries: Seq<GroupEntry>,
    items: Seq<FingerprintedView>,
)
    requires
        out.to_multiset() == entries.to_multiset(),
        lists_worthy_keys(entry_keys(entries), items),
        groups_match(entry_groups(entries), items, entry_keys(entries)),
    ensures
        lists_worthy_keys(entry_keys(out), items),
        groups_match(entry_groups(out), items, entry_keys(out)),
{
    broadcast use vstd::seq_lib::group_to_multiset_ensures;

    let key = |e: GroupEntry| e.key@;
    sort::lemma_multiset_map_values(out, entries, key);
    entry_keys(entries).lemma_multiset_has_no_duplicates();
    entry_keys(out).lemma_multiset_has_no_duplicates_conv();
    assert forall|k: ContentKey| #[trigger] entry_keys(out).contains(k) <==> worth_comparing(
        class_of(items, k),
    ) by {
        assert(entry_keys(out).to_multiset().count(k) == entry_keys(entries).to_multiset().count(
            k,
        ));
        assert(entry_keys(entries).contains(k) <==> entry_keys(out).contains(k));
    }
    assert forall|i: int| 0 <= i < entry_groups(out).len() implies #[trigger] is_group_of(
        entry_groups(out)[i],
        items,
        entry_keys(out)[i],
    ) by {
        assert(out.contains(out[i]));
        assert(entries.to_multiset().count(out[i]) > 0);
        assert(entries.contains(out[i]));
        let j = choose|j: int| 0 <= j < entries.len() && entries[j] == out[i];
        assert(is_group_of(entry_groups(entries)[j], items, entry_keys(entries)[j]));
    }
}

/// The groups of files with the same size and the same digest of their content.
pub fn duplicate_groups(files: Vec<FileInfo>, digests: &Vec<Option<[u8; 32]>>) -> (groups: Vec<
    FileGroup,
>)
    requires
        files@.len() == digests@.len(),
    ensures
        is_duplicate_report(
            types::group_views(groups@),
            hashed(types::file_views(files@), digest_views(digests@)),
        ),
{
    let items = fingerprint(files, digests);
    let ghost views = fingerprinted_views(items@);
    let (classes, keys) = worthy_classes(items);
    let ghost classes0 = classes@;
    let mut rest = sort::reversed(classes);
    let mut entries: Vec<GroupEntry> = Vec::new();
    let ghost mut n: int = 0;
    assert(rest@ =~= classes0.skip(0).reverse());
    assert(class_views(classes0).len() == classes0.len());
    assert(entry_keys(entries@) =~= keys@.take(0));
    while rest.len() > 0
        invariant
            0 <= n <= classes0.len(),
            rest@ == classes0.skip(n).reverse(),
            class_views(classes0) == classes_at(keys@, views),
            lists_worthy_keys(keys@, views),
            keys@.len() == classes0.len(),
            entries@.len() == n,
            entry_keys(entries@) == keys@.take(n),
            forall|i: int|
                0 <= i < n ==> #[trigger] is_group_of(
                    entry_groups(entries@)[i],
                    views,
                    entry_keys(entries@)[i],
                ),
        decreases rest.len(),
    {
        let ghost before = entries@;
        match rest.pop() {
            Some(class) => {
                let ghost key = keys@[n];
                proof {
                    assert(class == classes0[n]);
                    assert(rest@ =~= classes0.skip(n + 1).reverse());
                    assert(class_views(classes0)[n] == classes_at(keys@, views)[n]);
                    assert(keys@.contains(key));
                    assert(types::file_views(class@).len() == class@.len());
                }
                let group = group_from_class(class, Ghost(views), Ghost(key));
                let entry = GroupEntry { group, key: Ghost(key) };
                entries.push(entry);
                proof {
                    assert(entry_keys(entries@) =~= entry_keys(before).push(key));
                    assert(keys@.take(n + 1) =~= keys@.take(n).push(key));
                    assert forall|i: int| 0 <= i < n + 1 implies #[trigger] is_group_of(
                        entry_groups(entries@)[i],
                        views,
                        entry_keys(entries@)[i],
                    ) by {
                        if i < n {
                            assert(entry_groups(entries@)[i] == entry_groups(before)[i]);
                            assert(entry_keys(entries@)[i] == entry_keys(before)[i]);
                        }
                    }
                    n = n + 1;
                }
            },
            None => {},
        }
    }
    let ghost entries0 = entries@;
    assert(keys@.take(n) =~= keys@);
    let sorted = sort::merge_sort(entries);
    let ghost sorted0 = sorted@;
    proof {
        lemma_entries_rearranged(sorted0, entries0, views);
    }
    let mut back = sort::reversed(sorted);
    let mut groups: Vec<FileGroup> = Vec::new();
    let ghost mut m: int = 0;
    assert(back@ =~= sorted0.skip(0).reverse());
    assert(types::group_views(groups@) =~= entry_groups(sorted0.take(0)));
    while back.len() > 0
        invariant
            0 <= m <= sorted0.len(),
            back@ == sorted0.skip(m).reverse(),
            types::group_views(groups@) == entry_groups(sorted0.take(m)),
        decreases back.len(),
    {
        let ghost before = groups@;
        match back.pop() {
            Some(entry) => {
                proof {
                    assert(entry == sorted0[m]);
                    assert(back@ =~= sorted0.skip(m + 1).reverse());
                    assert(entry_groups(sorted0.take(m + 1)) =~= entry_groups(
                        sorted0.take(m),
                    ).push(entry.group@));
                    m = m + 1;
                }
                groups.push(entry.group);
                assert(types::group_views(groups@) =~= types::group_views(before).push(
                    entry.group@,
                ));
            },
            None => {},
        }
    }
    proof {
        assert(sorted0.take(m) =~= sorted0);
        let gv = types::group_views(groups@);
        let le = savings_order();
        assert forall|i: int, j: int| 0 <= i < j < gv.len() implies le(
            #[trigger] gv[i],
            #[trigger] gv[j],
        ) by {
            let rank = sort::rank_order::<GroupEntry>();
            assert(rank(sorted0[i], sorted0[j]));
        }
        assert(lists_worthy_keys(entry_keys(sorted0), views));
    }
    groups
}

} // verus!
