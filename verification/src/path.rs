//! Unix paths as sequences of bytes.
//!
//! A path is read as a sequence of components: repeated separators count once, a trailing
//! separator counts for nothing, and `.` is a component only where it starts the path. Two
//! paths with the same components are equal.

use crate::order;
use crate::text;
use vstd::prelude::*;
use vstd::relations::*;

verus! {

/// The byte of `/`.
pub const SEPARATOR: u8 = 47;

/// The byte of `.`.
pub const DOT: u8 = 46;

/// One step of a path.
#[derive(Debug)]
pub enum Component {
    RootDir,
    CurDir,
    ParentDir,
    Normal(Vec<u8>),
}

/// The mathematical value of a [`Component`].
pub enum ComponentView {
    RootDir,
    CurDir,
    ParentDir,
    Normal(Seq<u8>),
}

impl View for Component {
    type V = ComponentView;

    open spec fn view(&self) -> ComponentView {
        match self {
            Component::RootDir => ComponentView::RootDir,
            Component::CurDir => ComponentView::CurDir,
            Component::ParentDir => ComponentView::ParentDir,
            Component::Normal(name) => ComponentView::Normal(name@),
        }
    }
}

/// Where the part of the path after its last separator begins.
pub open spec fn last_piece_start(p: Seq<u8>) -> int
    decreases p.len(),
{
    if p.len() == 0 || p.last() == SEPARATOR {
        p.len() as int
    } else {
        last_piece_start(p.drop_last())
    }
}

/// The parts between the separators, empty ones too.
pub open spec fn pieces(p: Seq<u8>) -> Seq<Seq<u8>>
    decreases p.len(),
    via pieces_terminates
{
    let start = last_piece_start(p);
    if start <= 0 {
        seq![p]
    } else {
        pieces(p.take(start - 1)).push(p.skip(start))
    }
}

#[via_fn]
proof fn pieces_terminates(p: Seq<u8>) {
    lemma_last_piece(p);
}

/// The component that one part stands for, if any.
pub open spec fn piece_component(piece: Seq<u8>) -> Option<ComponentView> {
    if piece.len() == 0 || piece == seq![DOT] {
        None
    } else if piece == seq![DOT, DOT] {
        Some(ComponentView::ParentDir)
    } else {
        Some(ComponentView::Normal(piece))
    }
}

/// The component that the start of the path stands for beside its first part, if any.
pub open spec fn leading_components(p: Seq<u8>) -> Seq<ComponentView> {
    if p.len() > 0 && p[0] == SEPARATOR {
        seq![ComponentView::RootDir]
    } else if p.len() > 0 && p[0] == DOT && (p.len() == 1 || p[1] == SEPARATOR) {
        seq![ComponentView::CurDir]
    } else {
        Seq::empty()
    }
}

/// The components that the parts stand for.
pub open spec fn named_components(ps: Seq<Seq<u8>>) -> Seq<ComponentView>
    decreases ps.len(),
{
    if ps.len() == 0 {
        Seq::empty()
    } else {
        match piece_component(ps.last()) {
            Some(component) => named_components(ps.drop_last()).push(component),
            None => named_components(ps.drop_last()),
        }
    }
}

/// The components of a path.
pub open spec fn components(p: Seq<u8>) -> Seq<ComponentView> {
    leading_components(p) + named_components(pieces(p))
}

/// The last component, where it is a name.
pub open spec fn file_name(p: Seq<u8>) -> Option<Seq<u8>> {
    if components(p).len() > 0 {
        match components(p).last() {
            ComponentView::Normal(name) => Some(name),
            _ => None,
        }
    } else {
        None
    }
}

/// Whether the path names an entry of the root directory.
pub open spec fn in_root(p: Seq<u8>) -> bool {
    components(p).len() == 2 && components(p)[0] == ComponentView::RootDir
}

/// The rank of a component by its kind.
pub open spec fn component_rank(c: ComponentView) -> int {
    match c {
        ComponentView::RootDir => 0,
        ComponentView::CurDir => 1,
        ComponentView::ParentDir => 2,
        ComponentView::Normal(_) => 3,
    }
}

/// Components in order of kind, names among themselves in order of bytes.
pub open spec fn component_order() -> spec_fn(ComponentView, ComponentView) -> bool {
    |a: ComponentView, b: ComponentView| component_le(a, b)
}

pub open spec fn component_le(a: ComponentView, b: ComponentView) -> bool {
    match (a, b) {
        (ComponentView::Normal(s), ComponentView::Normal(t)) => order::bytes_le(s, t),
        _ => component_rank(a) <= component_rank(b),
    }
}

/// Paths compared component by component.
pub open spec fn path_le(a: Seq<u8>, b: Seq<u8>) -> bool {
    order::lex_le(components(a), components(b), component_order())
}

proof fn lemma_byte_order_total()
    ensures
        total_ordering(order::byte_order()),
{
}

pub proof fn lemma_component_order_total()
    ensures
        total_ordering(component_order()),
{
    let le = component_order();
    lemma_byte_order_total();
    assert forall|a: ComponentView| #[trigger] le(a, a) by {
        match a {
            ComponentView::Normal(s) => {
                order::lemma_lex_total(s, s, order::byte_order());
            },
            _ => {},
        }
    }
    assert forall|a: ComponentView, b: ComponentView| #[trigger] le(a, b) && #[trigger] le(
        b,
        a,
    ) implies a == b by {
        match (a, b) {
            (ComponentView::Normal(s), ComponentView::Normal(t)) => {
                order::lemma_lex_antisymmetric(s, t, order::byte_order());
            },
            _ => {},
        }
    }
    assert forall|a: ComponentView, b: ComponentView, c: ComponentView| #[trigger]
        le(a, b) && #[trigger] le(b, c) implies le(a, c) by {
        match (a, b, c) {
            (
                ComponentView::Normal(s),
                ComponentView::Normal(t),
                ComponentView::Normal(u),
            ) => {
                order::lemma_lex_transitive(s, t, u, order::byte_order());
            },
            _ => {},
        }
    }
    assert forall|a: ComponentView, b: ComponentView| #[trigger] le(a, b) || #[trigger] le(
        b,
        a,
    ) by {
        match (a, b) {
            (ComponentView::Normal(s), ComponentView::Normal(t)) => {
                order::lemma_lex_total(s, t, order::byte_order());
            },
            _ => {},
        }
    }
}

/// Any two paths can be compared.
pub proof fn law_path_order_total(a: Seq<u8>, b: Seq<u8>)
    ensures
        path_le(a, b) || path_le(b, a),
{
    lemma_component_order_total();
    order::lemma_lex_total(components(a), components(b), component_order());
}

/// The order of paths is transitive.
pub proof fn law_path_order_transitive(a: Seq<u8>, b: Seq<u8>, c: Seq<u8>)
    requires
        path_le(a, b),
        path_le(b, c),
    ensures
        path_le(a, c),
{
    lemma_component_order_total();
    order::lemma_lex_transitive(components(a), components(b), components(c), component_order());
}

/// Two paths rank the same exactly when they have the same components.
pub proof fn law_path_order_ties(a: Seq<u8>, b: Seq<u8>)
    ensures
        (path_le(a, b) && path_le(b, a)) <==> components(a) == components(b),
{
    lemma_component_order_total();
    if path_le(a, b) && path_le(b, a) {
        order::lemma_lex_antisymmetric(components(a), components(b), component_order());
    }
    order::lemma_lex_total(components(a), components(a), component_order());
}

/// The last part starts inside the path, right behind a separator where it is not the first.
pub proof fn lemma_last_piece(p: Seq<u8>)
    ensures
        0 <= last_piece_start(p) <= p.len(),
        last_piece_start(p) > 0 ==> p[last_piece_start(p) - 1] == SEPARATOR,
        forall|i: int| last_piece_start(p) <= i < p.len() ==> p[i] != SEPARATOR,
    decreases p.len(),
{
    if p.len() > 0 && p.last() != SEPARATOR {
        lemma_last_piece(p.drop_last());
        assert forall|i: int| last_piece_start(p) <= i < p.len() implies p[i] != SEPARATOR by {
            if i < p.len() - 1 {
                assert(p.drop_last()[i] == p[i]);
            }
        }
    }
}

/// A position behind a separator, with none after it, is where the last part starts.
pub proof fn lemma_last_piece_unique(p: Seq<u8>, start: int)
    requires
        0 <= start <= p.len(),
        start > 0 ==> p[start - 1] == SEPARATOR,
        forall|i: int| start <= i < p.len() ==> p[i] != SEPARATOR,
    ensures
        last_piece_start(p) == start,
{
    lemma_last_piece(p);
    let found = last_piece_start(p);
    if found > start {
        assert(p[found - 1] == SEPARATOR);
    } else if found < start {
        assert(p[start - 1] == SEPARATOR);
    }
}

proof fn lemma_pieces_hold_no_separator(p: Seq<u8>)
    ensures
        forall|i: int, j: int|
            0 <= i < pieces(p).len() && 0 <= j < pieces(p)[i].len() ==> #[trigger] pieces(p)[i][j]
                != SEPARATOR,
    decreases p.len(),
{
    lemma_last_piece(p);
    let start = last_piece_start(p);
    if start > 0 {
        let rest = p.take(start - 1);
        lemma_pieces_hold_no_separator(rest);
        assert forall|i: int, j: int|
            0 <= i < pieces(p).len() && 0 <= j < pieces(p)[i].len() implies #[trigger] pieces(
            p,
        )[i][j] != SEPARATOR by {
            if i < pieces(rest).len() {
                assert(pieces(p)[i] == pieces(rest)[i]);
            } else {
                assert(pieces(p)[i][j] == p[start + j]);
            }
        }
    }
}

proof fn lemma_names_are_pieces(ps: Seq<Seq<u8>>, i: int)
    requires
        0 <= i < named_components(ps).len(),
        named_components(ps)[i] is Normal,
    ensures
        ps.contains(named_components(ps)[i]->0),
    decreases ps.len(),
{
    if ps.len() > 0 {
        let rest = ps.drop_last();
        if i < named_components(rest).len() {
            lemma_names_are_pieces(rest, i);
            let name = named_components(ps)[i]->0;
            let k = choose|k: int| 0 <= k < rest.len() && rest[k] == name;
            assert(ps[k] == name);
        } else {
            assert(ps[ps.len() - 1] == named_components(ps)[i]->0);
        }
    }
}

/// A file name holds no separator.
pub proof fn law_file_name_holds_no_separator(p: Seq<u8>, i: int)
    requires
        file_name(p) is Some,
        0 <= i < file_name(p)->0.len(),
    ensures
        file_name(p)->0[i] != SEPARATOR,
{
    let named = named_components(pieces(p));
    let last = components(p).last();
    assert(named.len() > 0) by {
        if named.len() == 0 {
            assert(components(p) =~= leading_components(p));
        }
    }
    assert(last == named[named.len() - 1]);
    lemma_names_are_pieces(pieces(p), named.len() - 1);
    lemma_pieces_hold_no_separator(p);
    let k = choose|k: int| 0 <= k < pieces(p).len() && pieces(p)[k] == last->0;
    assert(pieces(p)[k][i] != SEPARATOR);
}

// ---------------------------------------------------------------------------
// Paths next to a path
// ---------------------------------------------------------------------------

/// The path without what follows its last component.
pub open spec fn trimmed(p: Seq<u8>) -> Seq<u8>
    decreases p.len(),
    via trimmed_terminates
{
    let start = last_piece_start(p);
    if start <= 0 || piece_component(p.skip(start)) is Some {
        p
    } else if start == 1 {
        p.take(1)
    } else {
        trimmed(p.take(start - 1))
    }
}

#[via_fn]
proof fn trimmed_terminates(p: Seq<u8>) {
    lemma_last_piece(p);
}

/// The path without its last component, where that is a name or leads to the parent directory.
pub open spec fn parent_of(p: Seq<u8>) -> Seq<u8> {
    let t = trimmed(p);
    let start = last_piece_start(t);
    if start <= 0 {
        Seq::empty()
    } else if start == 1 {
        t.take(1)
    } else {
        trimmed(t.take(start - 1))
    }
}

/// The path of the entry `name` of the directory `dir`.
pub open spec fn joined(dir: Seq<u8>, name: Seq<u8>) -> Seq<u8> {
    if dir.len() == 0 || dir.last() == SEPARATOR {
        dir + name
    } else {
        dir.push(SEPARATOR) + name
    }
}

/// The path with another file name, or with one where it had none.
pub open spec fn with_name(p: Seq<u8>, name: Seq<u8>) -> Seq<u8> {
    if file_name(p) is Some {
        joined(parent_of(p), name)
    } else {
        joined(p, name)
    }
}

/// Something that can be the name of an entry.
pub open spec fn is_plain_name(name: Seq<u8>) -> bool {
    &&& name.len() > 0
    &&& forall|i: int| 0 <= i < name.len() ==> name[i] != SEPARATOR
    &&& name != seq![DOT]
    &&& name != seq![DOT, DOT]
}

proof fn lemma_trimmed(p: Seq<u8>)
    ensures
        components(trimmed(p)) == components(p),
        trimmed(p).len() <= p.len(),
        last_piece_start(trimmed(p)) > 0 && trimmed(p) != seq![SEPARATOR] ==> piece_component(
            trimmed(p).skip(last_piece_start(trimmed(p))),
        ) is Some,
    decreases p.len(),
{
    lemma_last_piece(p);
    let start = last_piece_start(p);
    if start <= 0 || piece_component(p.skip(start)) is Some {
    } else {
        let rest = p.take(start - 1);
        assert(pieces(p) == pieces(rest).push(p.skip(start)));
        assert(pieces(p).drop_last() =~= pieces(rest));
        assert(named_components(pieces(p)) == named_components(pieces(rest)));
        if start == 1 {
            let root = p.take(1);
            assert(root =~= seq![SEPARATOR]);
            assert(last_piece_start(root) == 1);
            assert(root.take(0) =~= rest);
            assert(root.skip(1) =~= Seq::<u8>::empty());
            assert(pieces(root) == pieces(rest).push(Seq::<u8>::empty()));
            assert(pieces(root).drop_last() =~= pieces(rest));
        } else {
            lemma_trimmed(rest);
            assert(leading_components(rest) == leading_components(p)) by {
                assert(rest[0] == p[0]);
                if rest.len() > 1 {
                    assert(rest[1] == p[1]);
                }
            }
        }
    }
}

/// An entry of a directory is one step further than the directory.
pub proof fn lemma_joined(dir: Seq<u8>, name: Seq<u8>)
    requires
        is_plain_name(name),
    ensures
        components(joined(dir, name)) == components(dir).push(ComponentView::Normal(name)),
{
    let p = joined(dir, name);
    assert(piece_component(name) == Some(ComponentView::Normal(name)));
    if dir.len() == 0 {
        assert(p =~= name);
        assert(dir =~= Seq::<u8>::empty());
        lemma_last_piece_unique(name, 0);
        lemma_last_piece_unique(dir, 0);
        assert(pieces(name) =~= seq![name]);
        assert(pieces(name).drop_last() =~= Seq::empty());
        assert(pieces(dir) =~= seq![dir]);
        assert(pieces(dir).drop_last() =~= Seq::empty());
        if name.len() == 1 && name[0] == DOT {
            assert(name =~= seq![DOT]);
        }
        assert(leading_components(name) =~= Seq::empty());
        assert(named_components(Seq::<Seq<u8>>::empty()) =~= Seq::empty());
        assert(components(p) =~= components(dir).push(ComponentView::Normal(name)));
    } else if dir.last() == SEPARATOR {
        let k = dir.len() as int;
        assert(p[k - 1] == SEPARATOR);
        lemma_last_piece_unique(p, k);
        lemma_last_piece_unique(dir, k);
        assert(p.take(k - 1) =~= dir.take(k - 1));
        assert(p.skip(k) =~= name);
        assert(dir.skip(k) =~= Seq::<u8>::empty());
        let before = pieces(dir.take(k - 1));
        assert(pieces(p) == before.push(name));
        assert(pieces(dir) == before.push(Seq::<u8>::empty()));
        assert(pieces(p).drop_last() =~= before);
        assert(pieces(dir).drop_last() =~= before);
        assert(leading_components(p) == leading_components(dir)) by {
            assert(p[0] == dir[0]);
            if dir.len() > 1 {
                assert(p[1] == dir[1]);
            }
        }
        assert(components(p) =~= components(dir).push(ComponentView::Normal(name)));
    } else {
        let k = dir.len() + 1;
        assert(p[k - 1] == SEPARATOR);
        lemma_last_piece_unique(p, k as int);
        assert(p.take(k - 1) =~= dir);
        assert(p.skip(k as int) =~= name);
        assert(pieces(p) == pieces(dir).push(name));
        assert(pieces(p).drop_last() =~= pieces(dir));
        assert(leading_components(p) == leading_components(dir)) by {
            assert(p[0] == dir[0]);
            if dir.len() > 1 {
                assert(p[1] == dir[1]);
            } else {
                assert(p[1] == SEPARATOR);
            }
        }
        assert(components(p) =~= components(dir).push(ComponentView::Normal(name)));
    }
}

/// Another file name leaves the path in the same directory.
pub proof fn law_new_name_same_directory(p: Seq<u8>, name: Seq<u8>)
    requires
        file_name(p) is Some,
        is_plain_name(name),
    ensures
        components(with_name(p, name)) == components(p).drop_last().push(
            ComponentView::Normal(name),
        ),
{
    law_parent_drops_last_component(p);
    lemma_joined(parent_of(p), name);
}

/// The parent of a path has all its components but the last.
pub proof fn law_parent_drops_last_component(p: Seq<u8>)
    requires
        components(p).len() > 0,
        components(p).last() is Normal || components(p).last() is ParentDir,
    ensures
        components(parent_of(p)) == components(p).drop_last(),
{
    let t = trimmed(p);
    let start = last_piece_start(t);
    lemma_trimmed(p);
    lemma_last_piece(t);
    let last = t.skip(start);
    if start <= 0 {
        assert(t.skip(0) =~= t);
        assert(pieces(t) =~= seq![t]);
        assert(pieces(t).drop_last() =~= Seq::empty());
        assert(named_components(Seq::<Seq<u8>>::empty()) =~= Seq::empty());
        let none: Seq<u8> = Seq::empty();
        lemma_last_piece_unique(none, 0);
        assert(pieces(none) =~= seq![none]);
        assert(pieces(none).drop_last() =~= Seq::empty());
        assert(components(none) =~= Seq::empty());
        if piece_component(t) is None {
            assert(components(t) =~= leading_components(t));
        } else {
            assert(t.len() > 0);
            if t[0] == SEPARATOR {
                assert(t[0] != SEPARATOR);
            }
            if t[0] == DOT && t.len() == 1 {
                assert(t =~= seq![DOT]);
            }
            if t.len() > 1 {
                assert(t[1] != SEPARATOR);
            }
            assert(leading_components(t) =~= Seq::empty());
            assert(components(t).drop_last() =~= Seq::empty());
        }
    } else {
        if t == seq![SEPARATOR] {
            let none: Seq<u8> = Seq::empty();
            assert(t.take(0) =~= none);
            assert(t.skip(1) =~= none);
            lemma_last_piece_unique(none, 0);
            assert(start == 1);
            assert(pieces(none) =~= seq![none]);
            assert(pieces(t) =~= seq![none, none]);
            assert(pieces(t).drop_last() =~= seq![none]);
            assert(seq![none].drop_last() =~= Seq::empty());
            reveal_with_fuel(named_components, 3);
            assert(named_components(pieces(t)) =~= Seq::empty());
            assert(components(t) =~= seq![ComponentView::RootDir]);
        }
        let rest = t.take(start - 1);
        assert(pieces(t) == pieces(rest).push(last));
        assert(pieces(t).drop_last() =~= pieces(rest));
        assert(components(t).drop_last() =~= leading_components(t) + named_components(
            pieces(rest),
        ));
        if start == 1 {
            let root = t.take(1);
            assert(root =~= seq![SEPARATOR]);
            lemma_last_piece_unique(root, 1);
            assert(root.take(0) =~= rest);
            assert(root.skip(1) =~= Seq::<u8>::empty());
            assert(pieces(root).drop_last() =~= pieces(rest));
            assert(components(root) == leading_components(t) + named_components(pieces(rest)));
        } else {
            lemma_trimmed(rest);
            assert(leading_components(rest) == leading_components(t)) by {
                assert(rest[0] == t[0]);
                if rest.len() > 1 {
                    assert(rest[1] == t[1]);
                }
            }
        }
    }
}

fn copy_bytes(bytes: &[u8]) -> (out: Vec<u8>)
    ensures
        out@ == bytes@,
{
    let mut out: Vec<u8> = Vec::new();
    let mut i: usize = 0;
    while i < bytes.len()
        invariant
            i <= bytes@.len(),
            out@ == bytes@.take(i as int),
        decreases bytes.len() - i,
    {
        out.push(bytes[i]);
        i += 1;
        assert(bytes@.take(i as int) =~= bytes@.take(i - 1).push(bytes@[i - 1]));
    }
    assert(bytes@.take(i as int) =~= bytes@);
    out
}

/// From the second component on, a path holds names and steps to the parent directory only.
pub proof fn lemma_later_components(p: Seq<u8>, i: int)
    requires
        0 < i < components(p).len(),
    ensures
        components(p)[i] is Normal || components(p)[i] is ParentDir,
{
    let lead = leading_components(p);
    let named = named_components(pieces(p));
    assert(components(p)[i] == named[i - lead.len()]);
    lemma_named_components(pieces(p), i - lead.len());
}

proof fn lemma_named_components(ps: Seq<Seq<u8>>, i: int)
    requires
        0 <= i < named_components(ps).len(),
    ensures
        named_components(ps)[i] is Normal || named_components(ps)[i] is ParentDir,
    decreases ps.len(),
{
    if ps.len() > 0 && i < named_components(ps.drop_last()).len() {
        lemma_named_components(ps.drop_last(), i);
    }
}

/// The values of a list of components.
pub open spec fn component_views(cs: Seq<Component>) -> Seq<ComponentView> {
    cs.map_values(|c: Component| c@)
}

/// Adds the component that `bytes[start..end]` stands for, if any.
fn push_piece(comps: &mut Vec<Component>, bytes: &Vec<u8>, start: usize, end: usize)
    requires
        start <= end <= bytes@.len(),
    ensures
        component_views(final(comps)@) == (match piece_component(
            bytes@.subrange(start as int, end as int),
        ) {
            Some(c) => component_views(old(comps)@).push(c),
            None => component_views(old(comps)@),
        }),
{
    let ghost piece = bytes@.subrange(start as int, end as int);
    let len: usize = end - start;
    if len == 0 {
        return;
    }
    if len == 1 && bytes[start] == DOT {
        assert(piece =~= seq![DOT]);
        return;
    }
    let component = if len == 2 && bytes[start] == DOT && bytes[start + 1] == DOT {
        assert(piece =~= seq![DOT, DOT]);
        Component::ParentDir
    } else {
        proof {
            if piece == seq![DOT] {
                assert(piece[0] == DOT);
            }
            if piece == seq![DOT, DOT] {
                assert(piece[0] == DOT && piece[1] == DOT);
            }
        }
        let mut name: Vec<u8> = Vec::new();
        let mut i: usize = start;
        while i < end
            invariant
                start <= i <= end <= bytes@.len(),
                name@ == bytes@.subrange(start as int, i as int),
            decreases end - i,
        {
            name.push(bytes[i]);
            i += 1;
            assert(bytes@.subrange(start as int, i as int) =~= bytes@.subrange(
                start as int,
                i - 1,
            ).push(bytes@[i - 1]));
        }
        Component::Normal(name)
    };
    let ghost before = comps@;
    comps.push(component);
    assert(component_views(comps@) =~= component_views(before).push(component@));
}

/// Where the last part of `bytes[..end]` begins.
fn piece_start(bytes: &Vec<u8>, end: usize) -> (start: usize)
    requires
        end <= bytes@.len(),
    ensures
        start as int == last_piece_start(bytes@.take(end as int)),
        start <= end,
{
    let mut start: usize = end;
    while start > 0 && bytes[start - 1] != SEPARATOR
        invariant
            start <= end <= bytes@.len(),
            forall|i: int| start <= i < end ==> bytes@[i] != SEPARATOR,
        decreases start,
    {
        start -= 1;
    }
    proof {
        lemma_last_piece_unique(bytes@.take(end as int), start as int);
    }
    start
}

/// The length of `bytes[..end]` without what follows its last component.
fn trimmed_len(bytes: &Vec<u8>, end: usize) -> (len: usize)
    requires
        end <= bytes@.len(),
    ensures
        len <= end,
        bytes@.take(len as int) == trimmed(bytes@.take(end as int)),
{
    let mut len: usize = end;
    loop
        invariant
            len <= end <= bytes@.len(),
            trimmed(bytes@.take(len as int)) == trimmed(bytes@.take(end as int)),
        decreases len,
    {
        let ghost p = bytes@.take(len as int);
        let start = piece_start(bytes, len);
        let ghost piece = p.skip(start as int);
        let size: usize = len - start;
        let blank: bool = size == 0 || (size == 1 && bytes[start] == DOT);
        proof {
            if size == 1 && bytes@[start as int] == DOT {
                assert(piece =~= seq![DOT]);
            }
            if piece == seq![DOT] {
                assert(piece[0] == DOT);
            }
            assert(blank == (piece_component(piece) is None));
        }
        if start == 0 || !blank {
            return len;
        }
        if start == 1 {
            assert(p.take(1) =~= bytes@.take(1));
            return 1;
        }
        assert(p.take(start - 1) =~= bytes@.take(start - 1));
        len = start - 1;
    }
}

/// A path of the file system.
#[derive(Debug)]
pub struct FilePath {
    pub bytes: Vec<u8>,
}

impl View for FilePath {
    type V = Seq<u8>;

    open spec fn view(&self) -> Seq<u8> {
        self.bytes@
    }
}

impl Clone for FilePath {
    fn clone(&self) -> (copy: Self)
        ensures
            copy@ == self@,
    {
        FilePath { bytes: copy_bytes(self.bytes.as_slice()) }
    }
}

impl FilePath {
    pub fn new(bytes: Vec<u8>) -> (path: FilePath)
        ensures
            path@ == bytes@,
    {
        FilePath { bytes }
    }

    /// The path as text.
    pub fn display(&self) -> (shown: String)
        ensures
            shown@ == text::lossy_text(self@),
            text::reads_exactly(self@),
    {
        text::from_utf8_lossy(self.bytes.as_slice())
    }

    /// The components of the path.
    pub fn components(&self) -> (comps: Vec<Component>)
        ensures
            component_views(comps@) == components(self@),
    {
        let bytes = &self.bytes;
        let mut comps: Vec<Component> = Vec::new();
        if bytes.len() > 0 && bytes[0] == SEPARATOR {
            comps.push(Component::RootDir);
        } else if bytes.len() > 0 && bytes[0] == DOT && (bytes.len() == 1 || bytes[1]
            == SEPARATOR) {
            comps.push(Component::CurDir);
        }
        let ghost lead = leading_components(bytes@);
        assert(component_views(comps@) =~= lead);
        let mut start: usize = 0;
        let mut i: usize = 0;
        let ghost mut done: Seq<Seq<u8>> = Seq::empty();
        assert(lead + named_components(done) =~= lead);
        while i < bytes.len()
            invariant
                start <= i <= bytes@.len(),
                *bytes == self.bytes,
                component_views(comps@) == lead + named_components(done),
                start == 0 ==> done.len() == 0,
                start > 0 ==> bytes@[start - 1] == SEPARATOR && done == pieces(
                    bytes@.take(start - 1),
                ),
                forall|j: int| start <= j < i ==> bytes@[j] != SEPARATOR,
            decreases bytes.len() - i,
        {
            if bytes[i] == SEPARATOR {
                push_piece(&mut comps, bytes, start, i);
                proof {
                    let piece = bytes@.subrange(start as int, i as int);
                    let upto = bytes@.take(i as int);
                    lemma_last_piece_unique(upto, start as int);
                    assert(upto.skip(start as int) =~= piece);
                    if start > 0 {
                        assert(upto.take(start - 1) =~= bytes@.take(start - 1));
                    } else {
                        assert(upto =~= piece);
                        assert(done.push(piece) =~= seq![piece]);
                    }
                    assert(done.push(piece) == pieces(upto));
                    assert(done.push(piece).drop_last() =~= done);
                    assert(component_views(comps@) =~= lead + named_components(done.push(piece)));
                    done = done.push(piece);
                }
                start = i + 1;
            }
            i += 1;
        }
        push_piece(&mut comps, bytes, start, i);
        proof {
            let piece = bytes@.subrange(start as int, i as int);
            lemma_last_piece_unique(bytes@, start as int);
            assert(bytes@.skip(start as int) =~= piece);
            if start == 0 {
                assert(bytes@ =~= piece);
                assert(done.push(piece) =~= seq![piece]);
            }
            assert(done.push(piece) == pieces(bytes@));
            assert(done.push(piece).drop_last() =~= done);
            assert(component_views(comps@) =~= lead + named_components(done.push(piece)));
        }
        comps
    }

    /// The last component, where it is a name.
    pub fn file_name(&self) -> (name: Option<Vec<u8>>)
        ensures
            match name {
                Some(name) => file_name(self@) == Some(name@),
                None => file_name(self@) is None,
            },
    {
        let mut comps = self.components();
        let ghost all = comps@;
        assert(component_views(all).len() == all.len());
        match comps.pop() {
            Some(last) => {
                assert(component_views(all).last() == last@);
                match last {
                    Component::Normal(name) => Some(name),
                    _ => None,
                }
            },
            None => None,
        }
    }

    /// Whether the path names an entry of the root directory.
    pub fn in_root(&self) -> (yes: bool)
        ensures
            yes == in_root(self@),
    {
        let comps = self.components();
        assert(component_views(comps@).len() == comps@.len());
        if comps.len() != 2 {
            return false;
        }
        assert(component_views(comps@)[0] == comps@[0]@);
        match comps[0] {
            Component::RootDir => true,
            _ => false,
        }
    }

    /// The length of the path without its last component.
    fn parent_len(&self) -> (end: usize)
        ensures
            end <= self.bytes@.len(),
            self.bytes@.take(end as int) == parent_of(self@),
    {
        let whole = trimmed_len(&self.bytes, self.bytes.len());
        assert(self.bytes@.take(self.bytes@.len() as int) =~= self.bytes@);
        let ghost t = self.bytes@.take(whole as int);
        let start = piece_start(&self.bytes, whole);
        if start == 0 {
            assert(self.bytes@.take(0) =~= Seq::<u8>::empty());
            0
        } else if start == 1 {
            assert(t.take(1) =~= self.bytes@.take(1));
            1
        } else {
            assert(t.take(start - 1) =~= self.bytes@.take(start - 1));
            trimmed_len(&self.bytes, start - 1)
        }
    }

    /// The path without its last component, where that is a name or leads to the parent
    /// directory.
    pub(crate) fn parent(&self) -> (dir: FilePath)
        ensures
            dir@ == parent_of(self@),
    {
        let end: usize = self.parent_len();
        FilePath {
            bytes: copy_bytes(vstd::slice::slice_subrange(self.bytes.as_slice(), 0, end)),
        }
    }

    /// The path with another file name, or with one where it had none.
    pub fn with_file_name(&self, name: &[u8]) -> (path: FilePath)
        ensures
            path@ == with_name(self@, name@),
    {
        let named: bool = self.file_name().is_some();
        let end: usize = if named {
            self.parent_len()
        } else {
            assert(self.bytes@.take(self.bytes@.len() as int) =~= self.bytes@);
            self.bytes.len()
        };
        let ghost dir = self.bytes@.take(end as int);
        let mut bytes = copy_bytes(vstd::slice::slice_subrange(self.bytes.as_slice(), 0, end));
        assert(bytes@ =~= dir);
        if end > 0 && bytes[end - 1] != SEPARATOR {
            bytes.push(SEPARATOR);
        }
        let ghost stem = bytes@;
        let mut i: usize = 0;
        while i < name.len()
            invariant
                i <= name@.len(),
                bytes@ == stem + name@.take(i as int),
            decreases name.len() - i,
        {
            bytes.push(name[i]);
            i += 1;
            assert(name@.take(i as int) =~= name@.take(i - 1).push(name@[i - 1]));
        }
        assert(name@.take(i as int) =~= name@);
        FilePath { bytes }
    }

    /// Whether the path names the entry `name` of the directory `dir`.
    pub fn is_entry_of(&self, dir: &FilePath, name: &[u8]) -> (yes: bool)
        ensures
            yes == (components(self@) == components(dir@).push(ComponentView::Normal(name@))),
    {
        let a = self.components();
        let b = dir.components();
        let ghost av = component_views(a@);
        let ghost bv = component_views(b@);
        let ghost entry = bv.push(ComponentView::Normal(name@));
        if a.len() == 0 || a.len() - 1 != b.len() {
            assert(av.len() != entry.len());
            return false;
        }
        let mut i: usize = 0;
        while i < b.len()
            invariant
                i <= b@.len(),
                a@.len() == b@.len() + 1,
                av == component_views(a@),
                bv == component_views(b@),
                av == components(self@),
                bv == components(dir@),
                entry == bv.push(ComponentView::Normal(name@)),
                forall|j: int| 0 <= j < i ==> av[j] == bv[j],
            decreases b.len() - i,
        {
            assert(av[i as int] == a@[i as int]@);
            assert(bv[i as int] == b@[i as int]@);
            if !same_component(&a[i], &b[i]) {
                assert(entry[i as int] == bv[i as int]);
                return false;
            }
            i += 1;
        }
        assert(av[i as int] == a@[i as int]@);
        assert(entry[i as int] == ComponentView::Normal(name@));
        match &a[i] {
            Component::Normal(last) => {
                let same: bool = order::same_bytes(last.as_slice(), name);
                proof {
                    if same {
                        assert(av =~= entry);
                    }
                }
                same
            },
            _ => false,
        }
    }

    /// Whether this path stands at most as high as `other` in the order of paths.
    pub fn path_at_most(&self, other: &FilePath) -> (at_most: bool)
        ensures
            at_most == path_le(self@, other@),
    {
        let a = self.components();
        let b = other.components();
        let ghost av = component_views(a@);
        let ghost bv = component_views(b@);
        let mut i: usize = 0;
        while i < a.len() && i < b.len()
            invariant
                i <= a@.len(),
                i <= b@.len(),
                av == component_views(a@),
                bv == component_views(b@),
                av == components(self@),
                bv == components(other@),
                av.take(i as int) == bv.take(i as int),
            decreases a.len() - i,
        {
            assert(av[i as int] == a@[i as int]@);
            assert(bv[i as int] == b@[i as int]@);
            if !same_component(&a[i], &b[i]) {
                proof {
                    order::lemma_lex_skip(av, bv, i as int, component_order());
                }
                return component_at_most(&a[i], &b[i]);
            }
            assert(av.take(i + 1) =~= av.take(i as int).push(av[i as int]));
            assert(bv.take(i + 1) =~= bv.take(i as int).push(bv[i as int]));
            i += 1;
        }
        proof {
            order::lemma_lex_skip(av, bv, i as int, component_order());
        }
        i == a.len()
    }
}

fn same_component(a: &Component, b: &Component) -> (same: bool)
    ensures
        same == (a@ == b@),
{
    match (a, b) {
        (Component::RootDir, Component::RootDir) => true,
        (Component::CurDir, Component::CurDir) => true,
        (Component::ParentDir, Component::ParentDir) => true,
        (Component::Normal(s), Component::Normal(t)) => order::same_bytes(
            s.as_slice(),
            t.as_slice(),
        ),
        _ => false,
    }
}

fn rank_of(c: &Component) -> (rank: u8)
    ensures
        rank as int == component_rank(c@),
{
    match c {
        Component::RootDir => 0,
        Component::CurDir => 1,
        Component::ParentDir => 2,
        Component::Normal(_) => 3,
    }
}

fn component_at_most(a: &Component, b: &Component) -> (at_most: bool)
    ensures
        at_most == component_le(a@, b@),
{
    match (a, b) {
        (Component::Normal(s), Component::Normal(t)) => order::bytes_at_most(
            s.as_slice(),
            t.as_slice(),
        ),
        _ => rank_of(a) <= rank_of(b),
    }
}

} // verus!
