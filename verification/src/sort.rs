//! A stable merge sort for anything that carries a total preorder.

use vstd::prelude::*;
use vstd::seq_lib::*;

verus! {

/// A total preorder that can be decided at run time.
pub trait Ranked: Sized {
    /// Whether `self` may stand before `other` in a sorted sequence.
    spec fn at_most(self, other: Self) -> bool;

    proof fn lemma_total(a: Self, b: Self)
        ensures
            a.at_most(b) || b.at_most(a),
    ;

    proof fn lemma_transitive(a: Self, b: Self, c: Self)
        requires
            a.at_most(b),
            b.at_most(c),
        ensures
            a.at_most(c),
    ;

    fn ranks_at_most(&self, other: &Self) -> (at_most: bool)
        ensures
            at_most == self.at_most(*other),
    ;
}

/// The order of `T`, as a function.
pub open spec fn rank_order<T: Ranked>() -> spec_fn(T, T) -> bool {
    |a: T, b: T| a.at_most(b)
}

/// No element stands after one that ranks above it.
pub open spec fn in_order<A>(s: Seq<A>, le: spec_fn(A, A) -> bool) -> bool {
    forall|i: int, j: int| 0 <= i < j < s.len() ==> le(#[trigger] s[i], #[trigger] s[j])
}

/// The elements of `s` that rank the same as `x`, in the order in which they stand in `s`.
pub open spec fn rank_class<A>(s: Seq<A>, le: spec_fn(A, A) -> bool, x: A) -> Seq<A> {
    s.filter(|y: A| le(x, y) && le(y, x))
}

/// `out` holds the elements of `s` in order, and elements of the same rank stand in
/// `out` as they stood in `s`.
pub open spec fn stable_sort_of<A>(out: Seq<A>, s: Seq<A>, le: spec_fn(A, A) -> bool) -> bool {
    &&& out.to_multiset() == s.to_multiset()
    &&& in_order(out, le)
    &&& forall|x: A| #[trigger] rank_class(out, le, x) == rank_class(s, le, x)
}

proof fn lemma_filter_cons<A>(x: A, s: Seq<A>, pred: spec_fn(A) -> bool)
    ensures
        (seq![x] + s).filter(pred) == (if pred(x) {
            seq![x] + s.filter(pred)
        } else {
            s.filter(pred)
        }),
{
    Seq::filter_distributes_over_add(seq![x], s, pred);
    reveal_with_fuel(Seq::filter, 2);
    assert(seq![x].drop_last() =~= Seq::<A>::empty());
    if pred(x) {
        assert(seq![x].filter(pred) =~= seq![x]);
    } else {
        assert(seq![x].filter(pred) + s.filter(pred) =~= s.filter(pred));
    }
}

/// A sequence without an element that satisfies `pred` has nothing left when filtered by it.
pub proof fn lemma_filter_none<A>(s: Seq<A>, pred: spec_fn(A) -> bool)
    requires
        forall|i: int| 0 <= i < s.len() ==> !pred(#[trigger] s[i]),
    ensures
        s.filter(pred) == Seq::<A>::empty(),
    decreases s.len(),
{
    reveal(Seq::filter);
    if s.len() > 0 {
        assert forall|i: int| 0 <= i < s.drop_last().len() implies !pred(
            #[trigger] s.drop_last()[i],
        ) by {
            assert(s.drop_last()[i] == s[i]);
        }
        lemma_filter_none(s.drop_last(), pred);
    } else {
        assert(s =~= Seq::<A>::empty());
    }
}

/// What the merge keeps for one class while the greatest remaining element moves from the
/// end of `left` to the front of `tail`.
proof fn lemma_take_left<T: Ranked>(left: Seq<T>, right: Seq<T>, tail: Seq<T>, x: T)
    requires
        left.len() > 0,
        in_order(right, rank_order::<T>()),
        right.len() > 0 ==> !left.last().at_most(right.last()),
    ensures
        rank_class(left.drop_last(), rank_order(), x) + rank_class(right, rank_order(), x)
            + rank_class(seq![left.last()] + tail, rank_order(), x) == rank_class(
            left,
            rank_order(),
            x,
        ) + rank_class(right, rank_order(), x) + rank_class(tail, rank_order(), x),
{
    let le = rank_order::<T>();
    let pred = |y: T| le(x, y) && le(y, x);
    let moved = left.last();
    lemma_filter_cons(moved, tail, pred);
    reveal(Seq::filter);
    if pred(moved) {
        assert forall|i: int| 0 <= i < right.len() implies !pred(#[trigger] right[i]) by {
            if pred(right[i]) {
                T::lemma_transitive(moved, x, right[i]);
                if i < right.len() - 1 {
                    assert(le(right[i], right[right.len() - 1]));
                    T::lemma_transitive(moved, right[i], right.last());
                }
            }
        }
        lemma_filter_none(right, pred);
        assert(left.filter(pred) == left.drop_last().filter(pred).push(moved));
        assert(left.drop_last().filter(pred) + Seq::<T>::empty() + (seq![moved] + tail.filter(pred))
            =~= left.drop_last().filter(pred).push(moved) + Seq::<T>::empty() + tail.filter(pred));
    }
}

proof fn lemma_take_right<T: Ranked>(left: Seq<T>, right: Seq<T>, tail: Seq<T>, x: T)
    requires
        right.len() > 0,
    ensures
        rank_class(left, rank_order(), x) + rank_class(right.drop_last(), rank_order(), x)
            + rank_class(seq![right.last()] + tail, rank_order(), x) == rank_class(
            left,
            rank_order(),
            x,
        ) + rank_class(right, rank_order(), x) + rank_class(tail, rank_order(), x),
{
    let le = rank_order::<T>();
    let pred = |y: T| le(x, y) && le(y, x);
    let moved = right.last();
    lemma_filter_cons(moved, tail, pred);
    reveal(Seq::filter);
    if pred(moved) {
        assert(left.filter(pred) + right.drop_last().filter(pred) + (seq![moved] + tail.filter(
            pred,
        )) =~= left.filter(pred) + right.drop_last().filter(pred).push(moved) + tail.filter(pred));
    }
}

/// Everything that remains ranks at most as high as everything in `tail`.
spec fn all_below<T: Ranked>(rest: Seq<T>, tail: Seq<T>) -> bool {
    forall|i: int, j: int|
        0 <= i < rest.len() && 0 <= j < tail.len() ==> (#[trigger] rest[i]).at_most(
            #[trigger] tail[j],
        )
}

/// Moves the last element of `from`, the greatest of what remains, to the front of `tail`.
proof fn lemma_order_step<T: Ranked>(from: Seq<T>, other: Seq<T>, tail: Seq<T>)
    requires
        from.len() > 0,
        in_order(from, rank_order::<T>()),
        in_order(other, rank_order::<T>()),
        in_order(tail, rank_order::<T>()),
        all_below(from, tail),
        all_below(other, tail),
        other.len() > 0 ==> other.last().at_most(from.last()),
    ensures
        in_order(from.drop_last(), rank_order::<T>()),
        in_order(seq![from.last()] + tail, rank_order::<T>()),
        all_below(from.drop_last(), seq![from.last()] + tail),
        all_below(other, seq![from.last()] + tail),
{
    let le = rank_order::<T>();
    let moved = from.last();
    let longer = seq![moved] + tail;
    assert forall|i: int, j: int| 0 <= i < j < longer.len() implies le(
        #[trigger] longer[i],
        #[trigger] longer[j],
    ) by {
        if i == 0 {
            assert(from[from.len() - 1].at_most(tail[j - 1]));
        } else {
            assert(le(tail[i - 1], tail[j - 1]));
        }
    }
    assert forall|i: int, j: int|
        0 <= i < from.drop_last().len() && 0 <= j < longer.len() implies (
    #[trigger] from.drop_last()[i]).at_most(#[trigger] longer[j]) by {
        if j == 0 {
            assert(le(from[i], from[from.len() - 1]));
        } else {
            assert(from[i].at_most(tail[j - 1]));
        }
    }
    assert forall|i: int, j: int| 0 <= i < other.len() && 0 <= j < longer.len() implies (
    #[trigger] other[i]).at_most(#[trigger] longer[j]) by {
        if j == 0 {
            if i < other.len() - 1 {
                assert(le(other[i], other[other.len() - 1]));
                T::lemma_transitive(other[i], other.last(), moved);
            }
        } else {
            assert(other[i].at_most(tail[j - 1]));
        }
    }
    assert forall|i: int, j: int| 0 <= i < j < from.drop_last().len() implies le(
        #[trigger] from.drop_last()[i],
        #[trigger] from.drop_last()[j],
    ) by {
        assert(le(from[i], from[j]));
    }
}

/// Moving the last element of `from` to the front of `tail` changes neither's union.
proof fn lemma_move_last<T>(from: Seq<T>, tail: Seq<T>)
    requires
        from.len() > 0,
    ensures
        from.drop_last().to_multiset().insert(from.last()) == from.to_multiset(),
        (seq![from.last()] + tail).to_multiset() == tail.to_multiset().insert(from.last()),
{
    broadcast use group_to_multiset_ensures;

    assert(from.drop_last().push(from.last()) =~= from);
    lemma_multiset_commutative(seq![from.last()], tail);
    assert(seq![from.last()] =~= Seq::<T>::empty().push(from.last()));
    assert((seq![from.last()] + tail).to_multiset() =~= tail.to_multiset().insert(from.last()));
}

proof fn lemma_no_elements<T>(s: Seq<T>)
    requires
        s.len() == 0,
    ensures
        s.to_multiset() == vstd::multiset::Multiset::<T>::empty(),
{
    broadcast use group_to_multiset_ensures;

    assert forall|x: T| s.to_multiset().count(x) == 0 by {
        assert(!s.contains(x));
    }
    assert(s.to_multiset() =~= vstd::multiset::Multiset::<T>::empty());
}

/// The elements in the opposite order.
pub fn reversed<T>(items: Vec<T>) -> (out: Vec<T>)
    ensures
        out@ == items@.reverse(),
{
    let mut rest = items;
    let mut out: Vec<T> = Vec::new();
    while rest.len() > 0
        invariant
            out@ + rest@.reverse() == items@.reverse(),
        decreases rest.len(),
    {
        let ghost before = rest@;
        let ghost done = out@;
        match rest.pop() {
            Some(item) => {
                out.push(item);
                assert(done + before.reverse() =~= out@ + rest@.reverse());
            },
            None => {},
        }
    }
    assert(out@ + rest@.reverse() =~= out@);
    out
}

/// Merges two sorted sequences; where elements rank the same, those of `left` come first.
fn merge<T: Ranked>(left: Vec<T>, right: Vec<T>) -> (out: Vec<T>)
    requires
        in_order(left@, rank_order::<T>()),
        in_order(right@, rank_order::<T>()),
    ensures
        out@.to_multiset() == left@.to_multiset().add(right@.to_multiset()),
        in_order(out@, rank_order::<T>()),
        forall|x: T| #[trigger]
            rank_class(out@, rank_order(), x) == rank_class(left@, rank_order(), x) + rank_class(
                right@,
                rank_order(),
                x,
            ),
{
    let mut lower = left;
    let mut upper = right;
    let mut taken: Vec<T> = Vec::new();
    let ghost mut tail: Seq<T> = Seq::empty();
    proof {
        assert forall|x: T|
            #![trigger rank_class(tail, rank_order(), x)]
            rank_class(lower@, rank_order(), x) + rank_class(upper@, rank_order(), x) + rank_class(
                tail,
                rank_order(),
                x,
            ) == rank_class(left@, rank_order(), x) + rank_class(right@, rank_order(), x) by {
            reveal(Seq::filter);
            assert(rank_class(tail, rank_order(), x) =~= Seq::<T>::empty());
        }
        assert(taken@ =~= tail.reverse());
        lemma_no_elements(tail);
        assert(lower@.to_multiset().add(upper@.to_multiset()).add(tail.to_multiset())
            =~= left@.to_multiset().add(right@.to_multiset()));
    }
    while lower.len() > 0 || upper.len() > 0
        invariant
            taken@ == tail.reverse(),
            lower@.to_multiset().add(upper@.to_multiset()).add(tail.to_multiset())
                == left@.to_multiset().add(right@.to_multiset()),
            in_order(lower@, rank_order::<T>()),
            in_order(upper@, rank_order::<T>()),
            in_order(tail, rank_order::<T>()),
            all_below(lower@, tail),
            all_below(upper@, tail),
            forall|x: T|
                #![trigger rank_class(tail, rank_order(), x)]
                rank_class(lower@, rank_order(), x) + rank_class(upper@, rank_order(), x)
                    + rank_class(tail, rank_order(), x) == rank_class(left@, rank_order(), x)
                    + rank_class(right@, rank_order(), x),
        decreases lower.len() + upper.len(),
    {
        let ghost lower0 = lower@;
        let ghost upper0 = upper@;
        let ghost tail0 = tail;
        let from_upper: bool = lower.len() == 0 || (upper.len() > 0 && lower[lower.len()
            - 1].ranks_at_most(&upper[upper.len() - 1]));
        if from_upper {
            match upper.pop() {
                Some(item) => {
                    taken.push(item);
                    proof {
                        tail = seq![item] + tail;
                        assert(taken@ =~= tail.reverse());
                        assert(upper@ =~= upper0.drop_last());
                        lemma_order_step(upper0, lower0, tail0);
                        lemma_move_last(upper0, tail0);
                        assert(lower@.to_multiset().add(upper@.to_multiset()).add(
                            tail.to_multiset(),
                        ) =~= lower0.to_multiset().add(upper0.to_multiset()).add(
                            tail0.to_multiset(),
                        ));
                        assert forall|x: T|
                            #![trigger rank_class(tail, rank_order(), x)]
                            rank_class(lower@, rank_order(), x) + rank_class(
                                upper@,
                                rank_order(),
                                x,
                            ) + rank_class(tail, rank_order(), x) == rank_class(
                                left@,
                                rank_order(),
                                x,
                            ) + rank_class(right@, rank_order(), x) by {
                            lemma_take_right(lower0, upper0, tail0, x);
                            let _ = rank_class(tail0, rank_order(), x);
                        }
                    }
                },
                None => {},
            }
        } else {
            proof {
                if upper0.len() > 0 {
                    T::lemma_total(lower0.last(), upper0.last());
                }
            }
            match lower.pop() {
                Some(item) => {
                    taken.push(item);
                    proof {
                        tail = seq![item] + tail;
                        assert(taken@ =~= tail.reverse());
                        assert(lower@ =~= lower0.drop_last());
                        lemma_order_step(lower0, upper0, tail0);
                        lemma_move_last(lower0, tail0);
                        assert(lower@.to_multiset().add(upper@.to_multiset()).add(
                            tail.to_multiset(),
                        ) =~= lower0.to_multiset().add(upper0.to_multiset()).add(
                            tail0.to_multiset(),
                        ));
                        assert forall|x: T|
                            #![trigger rank_class(tail, rank_order(), x)]
                            rank_class(lower@, rank_order(), x) + rank_class(
                                upper@,
                                rank_order(),
                                x,
                            ) + rank_class(tail, rank_order(), x) == rank_class(
                                left@,
                                rank_order(),
                                x,
                            ) + rank_class(right@, rank_order(), x) by {
                            lemma_take_left(lower0, upper0, tail0, x);
                            let _ = rank_class(tail0, rank_order(), x);
                        }
                    }
                },
                None => {},
            }
        }
    }
    let out = reversed(taken);
    proof {
        assert(out@ =~= tail);
        lemma_no_elements(lower@);
        lemma_no_elements(upper@);
        assert(lower@.to_multiset().add(upper@.to_multiset()).add(tail.to_multiset())
            =~= tail.to_multiset());
        assert forall|x: T| #[trigger]
            rank_class(out@, rank_order(), x) == rank_class(left@, rank_order(), x) + rank_class(
                right@,
                rank_order(),
                x,
            ) by {
            reveal(Seq::filter);
            assert(rank_class(lower@, rank_order(), x) =~= Seq::<T>::empty());
            assert(rank_class(upper@, rank_order(), x) =~= Seq::<T>::empty());
            assert(Seq::<T>::empty() + Seq::<T>::empty() + rank_class(tail, rank_order(), x)
                =~= rank_class(tail, rank_order(), x));
        }
    }
    out
}

/// Sorts by rank; elements of the same rank keep their order.
pub fn merge_sort<T: Ranked>(items: Vec<T>) -> (out: Vec<T>)
    ensures
        stable_sort_of(out@, items@, rank_order::<T>()),
    decreases items.len(),
{
    if items.len() <= 1 {
        items
    } else {
        let mut left = items;
        let mid: usize = left.len() / 2;
        let right = left.split_off(mid);
        let ghost left0 = left@;
        let ghost right0 = right@;
        let left_sorted = merge_sort(left);
        let right_sorted = merge_sort(right);
        let out = merge(left_sorted, right_sorted);
        proof {
            assert(items@ =~= left0 + right0);
            lemma_multiset_commutative(left0, right0);
            assert forall|x: T| #[trigger]
                rank_class(out@, rank_order(), x) == rank_class(items@, rank_order(), x) by {
                let le = rank_order::<T>();
                Seq::filter_distributes_over_add(left0, right0, |y: T| le(x, y) && le(y, x));
                assert(rank_class(left_sorted@, le, x) == rank_class(left0, le, x));
                assert(rank_class(right_sorted@, le, x) == rank_class(right0, le, x));
            }
        }
        out
    }
}

/// Filtering the images is the same as taking the images of what the composed test keeps.
pub proof fn lemma_filter_map_values<A, B>(s: Seq<A>, f: spec_fn(A) -> B, pred: spec_fn(B) -> bool)
    ensures
        s.map_values(f).filter(pred) == s.filter(|a: A| pred(f(a))).map_values(f),
    decreases s.len(),
{
    reveal(Seq::filter);
    let composed = |a: A| pred(f(a));
    if s.len() > 0 {
        lemma_filter_map_values(s.drop_last(), f, pred);
        assert(s.map_values(f).drop_last() =~= s.drop_last().map_values(f));
        assert(s.map_values(f).last() == f(s.last()));
        if composed(s.last()) {
            assert(s.drop_last().filter(composed).push(s.last()).map_values(f)
                =~= s.drop_last().filter(composed).map_values(f).push(f(s.last())));
        }
    } else {
        assert(s.map_values(f).filter(pred) =~= s.filter(composed).map_values(f));
    }
}

/// Rearranged sequences have rearranged images.
pub proof fn lemma_multiset_map_values<A, B>(s: Seq<A>, t: Seq<A>, f: spec_fn(A) -> B)
    requires
        s.to_multiset() == t.to_multiset(),
    ensures
        s.map_values(f).to_multiset() == t.map_values(f).to_multiset(),
    decreases s.len(),
{
    broadcast use group_to_multiset_ensures;

    assert(s.len() == s.to_multiset().len() && t.len() == t.to_multiset().len());
    if s.len() > 0 {
        let x = s.last();
        assert(s.contains(x));
        assert(t.to_multiset().count(x) > 0);
        assert(t.contains(x));
        let i = choose|i: int| 0 <= i < t.len() && t[i] == x;
        assert(s.drop_last().push(x) =~= s);
        assert(s.drop_last().to_multiset() =~= s.to_multiset().remove(x));
        lemma_multiset_map_values(s.drop_last(), t.remove(i), f);
        assert(s.map_values(f) =~= s.drop_last().map_values(f).push(f(x)));
        assert(t.map_values(f).remove(i) =~= t.remove(i).map_values(f));
        t.map_values(f).to_multiset_ensures();
        assert(t.map_values(f)[i] == f(x));
        assert(t.map_values(f).contains(f(x)));
        assert(t.map_values(f).to_multiset() =~= t.remove(i).map_values(f).to_multiset().insert(
            f(x),
        ));
    } else {
        assert(s =~= t);
    }
}

/// A stable sort of values is one of their images, where the order is that of the images.
pub proof fn lemma_stable_sort_of_images<A, B>(
    out: Seq<A>,
    s: Seq<A>,
    le: spec_fn(A, A) -> bool,
    f: spec_fn(A) -> B,
    image_le: spec_fn(B, B) -> bool,
)
    requires
        stable_sort_of(out, s, le),
        forall|a: A, b: A| #[trigger] le(a, b) == image_le(f(a), f(b)),
        forall|a: B, b: B, c: B| #[trigger]
            image_le(a, b) && #[trigger] image_le(b, c) ==> image_le(a, c),
    ensures
        stable_sort_of(out.map_values(f), s.map_values(f), image_le),
{
    broadcast use group_to_multiset_ensures;

    let fo = out.map_values(f);
    let fs = s.map_values(f);
    lemma_multiset_map_values(out, s, f);
    assert forall|i: int, j: int| 0 <= i < j < fo.len() implies image_le(
        #[trigger] fo[i],
        #[trigger] fo[j],
    ) by {
        assert(le(out[i], out[j]));
    }
    assert forall|x: B| #[trigger] rank_class(fo, image_le, x) == rank_class(fs, image_le, x) by {
        let pred = |y: B| image_le(x, y) && image_le(y, x);
        let composed = |a: A| pred(f(a));
        lemma_filter_map_values(out, f, pred);
        lemma_filter_map_values(s, f, pred);
        if exists|i: int| 0 <= i < s.len() && composed(#[trigger] s[i]) {
            let i = choose|i: int| 0 <= i < s.len() && composed(#[trigger] s[i]);
            let y = s[i];
            let near = |z: A| le(y, z) && le(z, y);
            assert forall|z: A| #[trigger] composed(z) == near(z) by {
                assert(le(y, z) == image_le(f(y), f(z)));
                assert(le(z, y) == image_le(f(z), f(y)));
                if composed(z) {
                    assert(image_le(f(y), x) && image_le(x, f(z)));
                    assert(image_le(f(z), x) && image_le(x, f(y)));
                }
                if near(z) {
                    assert(image_le(x, f(y)) && image_le(f(y), f(z)));
                    assert(image_le(f(z), f(y)) && image_le(f(y), x));
                }
            }
            assert(composed =~= near);
            assert(rank_class(out, le, y) == rank_class(s, le, y));
        } else {
            assert forall|i: int| 0 <= i < out.len() implies !composed(#[trigger] out[i]) by {
                assert(out.contains(out[i]));
                assert(s.to_multiset().count(out[i]) > 0);
                assert(s.contains(out[i]));
                let j = choose|j: int| 0 <= j < s.len() && s[j] == out[i];
                assert(!composed(s[j]));
            }
            lemma_filter_none(out, composed);
            lemma_filter_none(s, composed);
        }
    }
}

} // verus!
