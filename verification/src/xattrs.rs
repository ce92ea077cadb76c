//! Giving one file the extended attributes of another.

use vstd::prelude::*;

verus! {

/// An extended attribute as it was read: its name, and its value unless it could not be read.
#[derive(Debug)]
pub struct ReadAttr {
    pub name: Vec<u8>,
    pub value: Option<Vec<u8>>,
}

/// The mathematical value of a [`ReadAttr`].
pub struct ReadAttrView {
    pub name: Seq<u8>,
    pub value: Option<Seq<u8>>,
}

impl View for ReadAttr {
    type V = ReadAttrView;

    open spec fn view(&self) -> ReadAttrView {
        ReadAttrView {
            name: self.name@,
            value: match self.value {
                Some(value) => Some(value@),
                None => None,
            },
        }
    }
}

/// A change to the extended attributes of a file.
#[derive(Debug)]
pub enum XattrOp {
    Remove { name: Vec<u8> },
    Assign { name: Vec<u8>, value: Vec<u8> },
}

/// The mathematical value of an [`XattrOp`].
pub enum XattrOpView {
    Remove { name: Seq<u8> },
    Assign { name: Seq<u8>, value: Seq<u8> },
}

impl View for XattrOp {
    type V = XattrOpView;

    open spec fn view(&self) -> XattrOpView {
        match self {
            XattrOp::Remove { name } => XattrOpView::Remove { name: name@ },
            XattrOp::Assign { name, value } => XattrOpView::Assign { name: name@, value: value@ },
        }
    }
}

/// The values of a list of changes.
pub open spec fn op_views(ops: Seq<XattrOp>) -> Seq<XattrOpView> {
    ops.map_values(|op: XattrOp| op@)
}

/// The removal of every attribute that is there.
pub open spec fn removals(present: Seq<Vec<u8>>) -> Seq<XattrOpView> {
    present.map_values(|name: Vec<u8>| XattrOpView::Remove { name: name@ })
}

/// The setting of every attribute whose value could be read.
pub open spec fn settings(wanted: Seq<ReadAttrView>) -> Seq<XattrOpView>
    decreases wanted.len(),
{
    if wanted.len() == 0 {
        Seq::empty()
    } else {
        let before = settings(wanted.drop_last());
        match wanted.last().value {
            Some(value) => before.push(XattrOpView::Assign { name: wanted.last().name, value }),
            None => before,
        }
    }
}

/// The values of a list of attributes.
pub open spec fn attr_views(attrs: Seq<ReadAttr>) -> Seq<ReadAttrView> {
    attrs.map_values(|a: ReadAttr| a@)
}

/// The changes that replace the attributes named in `present` by those in `wanted`: first
/// everything is removed, then what is wanted is set.
pub fn swap_xattrs(present: Vec<Vec<u8>>, wanted: Vec<ReadAttr>) -> (ops: Vec<XattrOp>)
    ensures
        op_views(ops@) == removals(present@) + settings(attr_views(wanted@)),
{
    let ghost present0 = present@;
    let ghost views = attr_views(wanted@);
    let ghost wanted0 = wanted@;
    let mut ops: Vec<XattrOp> = Vec::new();
    let mut names = crate::sort::reversed(present);
    let ghost mut n: int = 0;
    assert(names@ =~= present0.skip(0).reverse());
    assert(op_views(ops@) =~= removals(present0.take(0)));
    while names.len() > 0
        invariant
            0 <= n <= present0.len(),
            names@ == present0.skip(n).reverse(),
            op_views(ops@) == removals(present0.take(n)),
        decreases names.len(),
    {
        let ghost before = ops@;
        match names.pop() {
            Some(name) => {
                proof {
                    assert(name == present0[n]);
                    assert(names@ =~= present0.skip(n + 1).reverse());
                    assert(removals(present0.take(n + 1)) =~= removals(present0.take(n)).push(
                        XattrOpView::Remove { name: name@ },
                    ));
                    n = n + 1;
                }
                ops.push(XattrOp::Remove { name });
                assert(op_views(ops@) =~= op_views(before).push(
                    XattrOpView::Remove { name: name@ },
                ));
            },
            None => {},
        }
    }
    assert(present0.take(n) =~= present0);
    let mut attrs = crate::sort::reversed(wanted);
    let ghost mut m: int = 0;
    assert(attrs@ =~= wanted0.skip(0).reverse());
    assert(op_views(ops@) =~= removals(present0) + settings(views.take(0)));
    while attrs.len() > 0
        invariant
            0 <= m <= wanted0.len(),
            views == attr_views(wanted0),
            attrs@ == wanted0.skip(m).reverse(),
            op_views(ops@) == removals(present0) + settings(views.take(m)),
        decreases attrs.len(),
    {
        let ghost before = ops@;
        match attrs.pop() {
            Some(attr) => {
                proof {
                    assert(attr == wanted0[m]);
                    assert(attrs@ =~= wanted0.skip(m + 1).reverse());
                    assert(views.take(m + 1).drop_last() =~= views.take(m));
                    assert(views.take(m + 1).last() == attr@);
                    m = m + 1;
                }
                match attr.value {
                    Some(value) => {
                        ops.push(XattrOp::Assign { name: attr.name, value });
                        assert(op_views(ops@) =~= op_views(before).push(
                            XattrOpView::Assign { name: attr.name@, value: value@ },
                        ));
                        assert(op_views(ops@) =~= removals(present0) + settings(views.take(m)));
                    },
                    None => {},
                }
            },
            None => {},
        }
    }
    assert(views.take(m) =~= views);
    ops
}

/// What a change makes of the attributes of a file.
pub open spec fn changed(attrs: Map<Seq<u8>, Seq<u8>>, op: XattrOpView) -> Map<Seq<u8>, Seq<u8>> {
    match op {
        XattrOpView::Remove { name } => attrs.remove(name),
        XattrOpView::Assign { name, value } => attrs.insert(name, value),
    }
}

/// What several changes make of the attributes of a file, one after another.
pub open spec fn changed_by(attrs: Map<Seq<u8>, Seq<u8>>, ops: Seq<XattrOpView>) -> Map<
    Seq<u8>,
    Seq<u8>,
>
    decreases ops.len(),
{
    if ops.len() == 0 {
        attrs
    } else {
        changed(changed_by(attrs, ops.drop_last()), ops.last())
    }
}

/// The list is a full reading of the attributes.
pub open spec fn reads(wanted: Seq<ReadAttrView>, attrs: Map<Seq<u8>, Seq<u8>>) -> bool {
    &&& forall|i: int|
        0 <= i < wanted.len() ==> attrs.dom().contains((#[trigger] wanted[i]).name)
            && wanted[i].value == Some(attrs[wanted[i].name])
    &&& forall|name: Seq<u8>| #[trigger]
        attrs.dom().contains(name) ==> exists|i: int|
            0 <= i < wanted.len() && (#[trigger] wanted[i]).name == name
}

/// The list names every attribute that is there.
pub open spec fn names_all(present: Seq<Vec<u8>>, attrs: Map<Seq<u8>, Seq<u8>>) -> bool {
    forall|name: Seq<u8>| #[trigger]
        attrs.dom().contains(name) ==> exists|i: int|
            0 <= i < present.len() && (#[trigger] present[i])@ == name
}

proof fn lemma_changed_by_add(
    attrs: Map<Seq<u8>, Seq<u8>>,
    first: Seq<XattrOpView>,
    second: Seq<XattrOpView>,
)
    ensures
        changed_by(attrs, first + second) == changed_by(changed_by(attrs, first), second),
    decreases second.len(),
{
    if second.len() == 0 {
        assert(first + second =~= first);
    } else {
        lemma_changed_by_add(attrs, first, second.drop_last());
        assert((first + second).drop_last() =~= first + second.drop_last());
        assert((first + second).last() == second.last());
    }
}

proof fn lemma_removals(attrs: Map<Seq<u8>, Seq<u8>>, present: Seq<Vec<u8>>)
    ensures
        forall|name: Seq<u8>| #[trigger]
            changed_by(attrs, removals(present)).dom().contains(name) <==> attrs.dom().contains(
                name,
            ) && !(exists|i: int| 0 <= i < present.len() && (#[trigger] present[i])@ == name),
    decreases present.len(),
{
    if present.len() > 0 {
        let rest = present.drop_last();
        lemma_removals(attrs, rest);
        assert(removals(present).drop_last() =~= removals(rest));
        assert(removals(present).last() == XattrOpView::Remove { name: present.last()@ });
        let earlier = changed_by(attrs, removals(rest));
        let after = changed_by(attrs, removals(present));
        assert(after == earlier.remove(present.last()@));
        assert forall|name: Seq<u8>| #[trigger] after.dom().contains(name) <==> attrs.dom().contains(
            name,
        ) && !(exists|i: int| 0 <= i < present.len() && (#[trigger] present[i])@ == name) by {
            assert(after.dom().contains(name) <==> earlier.dom().contains(name) && name
                != present.last()@);
            if exists|i: int| 0 <= i < present.len() && (#[trigger] present[i])@ == name {
                let i = choose|i: int| 0 <= i < present.len() && (#[trigger] present[i])@ == name;
                if i < present.len() - 1 {
                    assert(rest[i]@ == name);
                }
            } else {
                assert(present[present.len() - 1]@ != name);
                assert forall|i: int| 0 <= i < rest.len() implies (#[trigger] rest[i])@ != name by {
                    assert(present[i]@ != name);
                }
            }
        }
    }
}

proof fn lemma_settings(
    attrs: Map<Seq<u8>, Seq<u8>>,
    wanted: Seq<ReadAttrView>,
    goal: Map<Seq<u8>, Seq<u8>>,
)
    requires
        attrs.dom() == Set::<Seq<u8>>::empty(),
        forall|i: int|
            0 <= i < wanted.len() ==> goal.dom().contains((#[trigger] wanted[i]).name)
                && wanted[i].value == Some(goal[wanted[i].name]),
    ensures
        forall|name: Seq<u8>| #[trigger]
            changed_by(attrs, settings(wanted)).dom().contains(name) <==> exists|i: int|
                0 <= i < wanted.len() && (#[trigger] wanted[i]).name == name,
        forall|name: Seq<u8>| #[trigger]
            changed_by(attrs, settings(wanted)).dom().contains(name) ==> changed_by(
                attrs,
                settings(wanted),
            )[name] == goal[name],
    decreases wanted.len(),
{
    if wanted.len() > 0 {
        let rest = wanted.drop_last();
        assert forall|i: int| 0 <= i < rest.len() implies goal.dom().contains(
            (#[trigger] rest[i]).name,
        ) && rest[i].value == Some(goal[rest[i].name]) by {
            assert(rest[i] == wanted[i]);
        }
        lemma_settings(attrs, rest, goal);
        let last = wanted[wanted.len() - 1];
        let op = XattrOpView::Assign { name: last.name, value: goal[last.name] };
        assert(settings(wanted) == settings(rest).push(op));
        assert(settings(wanted).drop_last() =~= settings(rest));
        let earlier = changed_by(attrs, settings(rest));
        let after = changed_by(attrs, settings(wanted));
        assert(after == earlier.insert(last.name, goal[last.name]));
        assert forall|name: Seq<u8>| #[trigger] after.dom().contains(name) implies after[name]
            == goal[name] by {
            assert(name != last.name ==> earlier.dom().contains(name));
        }
        assert forall|name: Seq<u8>| #[trigger] after.dom().contains(name) <==> exists|i: int|
            0 <= i < wanted.len() && (#[trigger] wanted[i]).name == name by {
            assert(after.dom().contains(name) <==> earlier.dom().contains(name) || name
                == last.name);
            assert(wanted[wanted.len() - 1].name == last.name);
            if after.dom().contains(name) && name != last.name {
                let i = choose|i: int| 0 <= i < rest.len() && (#[trigger] rest[i]).name == name;
                assert(wanted[i].name == name);
            }
            if exists|i: int| 0 <= i < wanted.len() && (#[trigger] wanted[i]).name == name {
                let i = choose|i: int| 0 <= i < wanted.len() && (#[trigger] wanted[i]).name == name;
                if i < wanted.len() - 1 {
                    assert(rest[i].name == name);
                }
            }
        }
    }
}

/// The changes turn the attributes of one file into those of another, where all names of the
/// former and all attributes of the latter could be read.
pub proof fn law_swap_gives_wanted_attributes(
    present: Seq<Vec<u8>>,
    wanted: Seq<ReadAttrView>,
    old_attrs: Map<Seq<u8>, Seq<u8>>,
    wanted_attrs: Map<Seq<u8>, Seq<u8>>,
)
    requires
        names_all(present, old_attrs),
        reads(wanted, wanted_attrs),
    ensures
        changed_by(old_attrs, removals(present) + settings(wanted)) == wanted_attrs,
{
    lemma_changed_by_add(old_attrs, removals(present), settings(wanted));
    lemma_removals(old_attrs, present);
    let bare = changed_by(old_attrs, removals(present));
    assert(bare.dom() =~= Set::<Seq<u8>>::empty());
    lemma_settings(bare, wanted, wanted_attrs);
    let after = changed_by(bare, settings(wanted));
    assert forall|name: Seq<u8>| #[trigger] after.dom().contains(name)
        <==> wanted_attrs.dom().contains(name) by {
        if after.dom().contains(name) {
            let i = choose|i: int| 0 <= i < wanted.len() && (#[trigger] wanted[i]).name == name;
            assert(wanted_attrs.dom().contains(wanted[i].name));
        }
    }
    assert(after =~= wanted_attrs);
}

/// Every attribute that is there is removed, in order.
pub proof fn law_every_attribute_is_removed(present: Seq<Vec<u8>>, i: int)
    requires
        0 <= i < present.len(),
    ensures
        removals(present).len() == present.len(),
        removals(present)[i] == (XattrOpView::Remove { name: present[i]@ }),
{
}

/// Every attribute whose value could be read is set to that value, in order, whatever its name
/// and however long its value; the others are left out.
pub proof fn law_every_read_attribute_is_set(wanted: Seq<ReadAttrView>, attr: ReadAttrView)
    ensures
        settings(Seq::empty()) == Seq::<XattrOpView>::empty(),
        attr.value matches Some(value) ==> settings(wanted.push(attr)) == settings(wanted).push(
            XattrOpView::Assign { name: attr.name, value },
        ),
        attr.value is None ==> settings(wanted.push(attr)) == settings(wanted),
{
    assert(wanted.push(attr).drop_last() =~= wanted);
}

} // verus!
