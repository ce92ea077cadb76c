//! How paths are read and ordered.

use crate::order;
use crate::path;
use crate::path::ComponentView;
use vstd::prelude::*;

verus! {

/// Something that stands between two separators.
pub open spec fn is_piece(piece: Seq<u8>) -> bool {
    forall|i: int| 0 <= i < piece.len() ==> piece[i] != 47
}

proof fn lemma_one_piece(piece: Seq<u8>)
    requires
        is_piece(piece),
    ensures
        path::pieces(piece) == seq![piece],
        path::named_components(seq![piece]) == (match path::piece_component(piece) {
            Some(component) => seq![component],
            None => Seq::empty(),
        }),
{
    path::lemma_last_piece_unique(piece, 0);
    assert(seq![piece].drop_last() =~= Seq::empty());
    assert(path::named_components(Seq::<Seq<u8>>::empty()) =~= Seq::empty());
    match path::piece_component(piece) {
        Some(component) => {
            assert(Seq::<ComponentView>::empty().push(component) =~= seq![component]);
        },
        None => {},
    }
}

proof fn lemma_added_piece(dir: Seq<u8>, piece: Seq<u8>)
    requires
        is_piece(piece),
    ensures
        path::pieces(dir.push(47) + piece) == path::pieces(dir).push(piece),
        path::named_components(path::pieces(dir.push(47) + piece)) == (
        match path::piece_component(piece) {
            Some(component) => path::named_components(path::pieces(dir)).push(component),
            None => path::named_components(path::pieces(dir)),
        }),
{
    let p = dir.push(47) + piece;
    let k = dir.len() as int + 1;
    assert(p[k - 1] == 47);
    assert forall|i: int| k <= i < p.len() implies p[i] != path::SEPARATOR by {
        assert(p[i] == piece[i - k]);
    }
    path::lemma_last_piece_unique(p, k);
    assert(p.take(k - 1) =~= dir);
    assert(p.skip(k) =~= piece);
    assert(path::pieces(dir).push(piece).drop_last() =~= path::pieces(dir));
}

/// A path of one part: nothing stands for nothing, a dot for the current directory, two dots for
/// its parent, and everything else for a name.
pub proof fn law_path_of_one_part(piece: Seq<u8>)
    requires
        is_piece(piece),
    ensures
        path::components(piece) == (if piece.len() == 0 {
            Seq::<ComponentView>::empty()
        } else if piece == seq![46u8] {
            seq![ComponentView::CurDir]
        } else if piece == seq![46u8, 46u8] {
            seq![ComponentView::ParentDir]
        } else {
            seq![ComponentView::Normal(piece)]
        }),
{
    lemma_one_piece(piece);
    let none = Seq::<ComponentView>::empty();
    if piece.len() == 1 && piece[0] == 46 {
        assert(piece =~= seq![46u8]);
        assert(path::components(piece) =~= seq![ComponentView::CurDir]);
    } else {
        if piece.len() > 1 {
            assert(piece[1] != 47);
        }
        if piece.len() > 0 {
            assert(piece[0] != 47);
        }
        assert(path::leading_components(piece) =~= none);
        if piece == seq![46u8] {
            assert(piece[0] == 46);
        }
        assert(path::components(piece) =~= (if piece.len() == 0 {
            none
        } else if piece == seq![46u8, 46u8] {
            seq![ComponentView::ParentDir]
        } else {
            seq![ComponentView::Normal(piece)]
        }));
    }
}

/// A path of one part behind a separator starts at the root.
pub proof fn law_path_from_the_root(piece: Seq<u8>)
    requires
        is_piece(piece),
    ensures
        path::components(seq![47u8] + piece) == (if piece.len() == 0 || piece == seq![46u8] {
            seq![ComponentView::RootDir]
        } else if piece == seq![46u8, 46u8] {
            seq![ComponentView::RootDir, ComponentView::ParentDir]
        } else {
            seq![ComponentView::RootDir, ComponentView::Normal(piece)]
        }),
{
    let none: Seq<u8> = Seq::empty();
    let p = seq![47u8] + piece;
    lemma_one_piece(none);
    lemma_added_piece(none, piece);
    assert(none.push(47) + piece =~= p);
    assert(p[0] == 47);
    assert(path::leading_components(p) =~= seq![ComponentView::RootDir]);
    assert(path::components(p) =~= (if piece.len() == 0 || piece == seq![46u8] {
        seq![ComponentView::RootDir]
    } else if piece == seq![46u8, 46u8] {
        seq![ComponentView::RootDir, ComponentView::ParentDir]
    } else {
        seq![ComponentView::RootDir, ComponentView::Normal(piece)]
    }));
}

/// One more part behind a separator is one more step: none where it is empty or a dot, one to
/// the parent where it is two dots, and else one to the entry of that name.
pub proof fn law_path_with_one_more_part(dir: Seq<u8>, piece: Seq<u8>)
    requires
        dir.len() > 0,
        is_piece(piece),
    ensures
        path::components(dir.push(47) + piece) == (if piece.len() == 0 || piece == seq![46u8] {
            path::components(dir)
        } else if piece == seq![46u8, 46u8] {
            path::components(dir).push(ComponentView::ParentDir)
        } else {
            path::components(dir).push(ComponentView::Normal(piece))
        }),
{
    let p = dir.push(47) + piece;
    lemma_added_piece(dir, piece);
    assert(path::leading_components(p) == path::leading_components(dir)) by {
        assert(p[0] == dir[0]);
        if dir.len() > 1 {
            assert(p[1] == dir[1]);
        } else {
            assert(p[1] == 47);
        }
    }
    assert(path::components(p) =~= (if piece.len() == 0 || piece == seq![46u8] {
        path::components(dir)
    } else if piece == seq![46u8, 46u8] {
        path::components(dir).push(ComponentView::ParentDir)
    } else {
        path::components(dir).push(ComponentView::Normal(piece))
    }));
}

/// The file name is the last component where that is a name, and entries of the root directory
/// are one step away from it.
pub proof fn law_file_name_is_the_last_component(p: Seq<u8>, name: Seq<u8>)
    ensures
        path::file_name(p) == Some(name) <==> path::components(p).len() > 0 && path::components(
            p,
        ).last() == ComponentView::Normal(name),
        path::file_name(p) is None <==> path::components(p).len() == 0 || !(path::components(
            p,
        ).last() is Normal),
        path::in_root(p) <==> path::components(p).len() == 2 && path::components(p)[0] is RootDir,
{
}

/// A path without a file name gets one in the directory that it names.
pub proof fn law_name_for_a_path_without_one(p: Seq<u8>, name: Seq<u8>)
    requires
        path::file_name(p) is None,
        path::is_plain_name(name),
    ensures
        path::components(path::with_name(p, name)) == path::components(p).push(
            ComponentView::Normal(name),
        ),
{
    path::lemma_joined(p, name);
}

/// The two paths have the same first `k` components, and both have more.
pub open spec fn part_at(a: Seq<u8>, b: Seq<u8>, k: int) -> bool {
    &&& 0 <= k < path::components(a).len()
    &&& k < path::components(b).len()
    &&& forall|i: int| 0 <= i < k ==> path::components(a)[i] == path::components(b)[i]
}

/// Where two paths part at names, the lesser name stands first: the one with the lesser byte
/// where they first differ, or the shorter one where it is a start of the other.
pub proof fn law_paths_part_at_names(a: Seq<u8>, b: Seq<u8>, k: int, s: Seq<u8>, t: Seq<u8>, m: int)
    requires
        part_at(a, b, k),
        path::components(a)[k] == ComponentView::Normal(s),
        path::components(b)[k] == ComponentView::Normal(t),
        0 <= m <= s.len(),
        m < t.len(),
        forall|i: int| 0 <= i < m ==> s[i] == t[i],
        m < s.len() ==> s[m] < t[m],
    ensures
        path::path_le(a, b),
        !path::path_le(b, a),
{
    let (x, y) = (path::components(a), path::components(b));
    let le = path::component_order();
    if m < s.len() {
        order::law_first_difference_decides(s, t, m, order::byte_order());
        order::law_first_difference_decides(t, s, m, order::byte_order());
    } else {
        order::law_start_comes_first(s, t, order::byte_order());
    }
    assert(s != t);
    assert(x[k] != y[k]);
    order::law_first_difference_decides(x, y, k, le);
    order::law_first_difference_decides(y, x, k, le);
}

/// Where two paths part at steps of different kinds, the root stands before the current
/// directory, that before the parent directory, and that before names.
pub proof fn law_paths_part_at_kinds(a: Seq<u8>, b: Seq<u8>, k: int)
    requires
        part_at(a, b, k),
        ({
            let x = path::components(a)[k];
            let y = path::components(b)[k];
            ||| x is RootDir && !(y is RootDir)
            ||| x is CurDir && (y is ParentDir || y is Normal)
            ||| x is ParentDir && y is Normal
        }),
    ensures
        path::path_le(a, b),
        !path::path_le(b, a),
{
    let (x, y) = (path::components(a), path::components(b));
    let le = path::component_order();
    order::law_first_difference_decides(x, y, k, le);
    order::law_first_difference_decides(y, x, k, le);
}

/// A directory stands before everything in it.
pub proof fn law_directories_come_first(a: Seq<u8>, b: Seq<u8>)
    requires
        path::components(a).len() < path::components(b).len(),
        forall|i: int|
            0 <= i < path::components(a).len() ==> path::components(a)[i] == path::components(
                b,
            )[i],
    ensures
        path::path_le(a, b),
        !path::path_le(b, a),
{
    order::law_start_comes_first(
        path::components(a),
        path::components(b),
        path::component_order(),
    );
}

} // verus!
