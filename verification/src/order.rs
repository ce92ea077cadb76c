//! Lexicographic order on sequences.

use vstd::prelude::*;
use vstd::relations::*;

verus! {

/// `s` equals `t`, is a prefix of it, or has the lesser element where they first differ.
pub open spec fn lex_le<A>(s: Seq<A>, t: Seq<A>, le: spec_fn(A, A) -> bool) -> bool
    decreases s.len(),
{
    if s.len() == 0 {
        true
    } else if t.len() == 0 {
        false
    } else if s[0] == t[0] {
        lex_le(s.drop_first(), t.drop_first(), le)
    } else {
        le(s[0], t[0])
    }
}

/// A lexicographic order over a total order is total.
pub proof fn lemma_lex_total<A>(s: Seq<A>, t: Seq<A>, le: spec_fn(A, A) -> bool)
    requires
        total_ordering(le),
    ensures
        lex_le(s, t, le) || lex_le(t, s, le),
    decreases s.len(),
{
    if s.len() > 0 && t.len() > 0 {
        if s[0] == t[0] {
            lemma_lex_total(s.drop_first(), t.drop_first(), le);
        } else {
            assert(le(s[0], t[0]) || le(t[0], s[0]));
        }
    }
}

pub proof fn lemma_lex_transitive<A>(s: Seq<A>, t: Seq<A>, u: Seq<A>, le: spec_fn(A, A) -> bool)
    requires
        total_ordering(le),
        lex_le(s, t, le),
        lex_le(t, u, le),
    ensures
        lex_le(s, u, le),
    decreases s.len(),
{
    if s.len() > 0 {
        if s[0] == t[0] && t[0] == u[0] {
            lemma_lex_transitive(s.drop_first(), t.drop_first(), u.drop_first(), le);
        } else if s[0] == u[0] {
            assert(le(s[0], t[0]) && le(t[0], s[0]));
        } else {
            assert(le(s[0], t[0]) && le(t[0], u[0]) ==> le(s[0], u[0]));
        }
    }
}

/// Two sequences of which each stands at most as high as the other are the same.
pub proof fn lemma_lex_antisymmetric<A>(s: Seq<A>, t: Seq<A>, le: spec_fn(A, A) -> bool)
    requires
        total_ordering(le),
        lex_le(s, t, le),
        lex_le(t, s, le),
    ensures
        s == t,
    decreases s.len(),
{
    if s.len() > 0 && t.len() > 0 {
        if s[0] == t[0] {
            lemma_lex_antisymmetric(s.drop_first(), t.drop_first(), le);
            assert(s =~= seq![s[0]] + s.drop_first());
            assert(t =~= seq![t[0]] + t.drop_first());
        } else {
            assert(le(s[0], t[0]) && le(t[0], s[0]));
        }
    } else {
        assert(s =~= t);
    }
}

/// After an equal prefix of length `i` the order is that of the rest.
pub proof fn lemma_lex_skip<A>(s: Seq<A>, t: Seq<A>, i: int, le: spec_fn(A, A) -> bool)
    requires
        0 <= i <= s.len(),
        i <= t.len(),
        s.take(i) == t.take(i),
    ensures
        lex_le(s, t, le) == lex_le(s.skip(i), t.skip(i), le),
    decreases i,
{
    if i == 0 {
        assert(s.skip(0) =~= s);
        assert(t.skip(0) =~= t);
    } else {
        assert(s[0] == s.take(i)[0] && t[0] == t.take(i)[0]);
        assert(s.drop_first().take(i - 1) =~= s.take(i).drop_first());
        assert(t.drop_first().take(i - 1) =~= t.take(i).drop_first());
        lemma_lex_skip(s.drop_first(), t.drop_first(), i - 1, le);
        assert(s.drop_first().skip(i - 1) =~= s.skip(i));
        assert(t.drop_first().skip(i - 1) =~= t.skip(i));
    }
}

/// The order of bytes by value.
pub open spec fn byte_order() -> spec_fn(u8, u8) -> bool {
    |a: u8, b: u8| a <= b
}

/// Bytes compared from the front.
pub open spec fn bytes_le(s: Seq<u8>, t: Seq<u8>) -> bool {
    lex_le(s, t, byte_order())
}

/// Whether the two hold the same bytes.
pub fn same_bytes(a: &[u8], b: &[u8]) -> (same: bool)
    ensures
        same == (a@ == b@),
{
    if a.len() != b.len() {
        return false;
    }
    let mut i: usize = 0;
    while i < a.len()
        invariant
            i <= a@.len(),
            a@.len() == b@.len(),
            forall|j: int| 0 <= j < i ==> a@[j] == b@[j],
        decreases a.len() - i,
    {
        if a[i] != b[i] {
            return false;
        }
        i += 1;
    }
    assert(a@ =~= b@);
    true
}

/// Whether `a` stands at most as high as `b` in the order of bytes.
pub fn bytes_at_most(a: &[u8], b: &[u8]) -> (at_most: bool)
    ensures
        at_most == bytes_le(a@, b@),
{
    let mut i: usize = 0;
    while i < a.len() && i < b.len()
        invariant
            i <= a@.len(),
            i <= b@.len(),
            a@.take(i as int) == b@.take(i as int),
        decreases a.len() - i,
    {
        if a[i] != b[i] {
            proof {
                lemma_lex_skip(a@, b@, i as int, byte_order());
            }
            return a[i] <= b[i];
        }
        assert(a@.take(i + 1) =~= a@.take(i as int).push(a@[i as int]));
        assert(b@.take(i + 1) =~= b@.take(i as int).push(b@[i as int]));
        i += 1;
    }
    proof {
        lemma_lex_skip(a@, b@, i as int, byte_order());
    }
    i == a.len()
}

/// Where two sequences first differ, the elements there decide.
pub proof fn law_first_difference_decides<A>(
    s: Seq<A>,
    t: Seq<A>,
    k: int,
    le: spec_fn(A, A) -> bool,
)
    requires
        0 <= k < s.len(),
        k < t.len(),
        forall|i: int| 0 <= i < k ==> s[i] == t[i],
        s[k] != t[k],
    ensures
        lex_le(s, t, le) == le(s[k], t[k]),
    decreases k,
{
    if k > 0 {
        assert(s[0] == t[0]);
        assert forall|i: int| 0 <= i < k - 1 implies s.drop_first()[i] == t.drop_first()[i] by {
            assert(s[i + 1] == t[i + 1]);
        }
        law_first_difference_decides(s.drop_first(), t.drop_first(), k - 1, le);
    }
}

/// A sequence stands before those that it is a start of, and no longer one before it.
pub proof fn law_start_comes_first<A>(s: Seq<A>, t: Seq<A>, le: spec_fn(A, A) -> bool)
    requires
        s.len() <= t.len(),
        forall|i: int| 0 <= i < s.len() ==> s[i] == t[i],
    ensures
        lex_le(s, t, le),
        lex_le(t, s, le) <==> s.len() == t.len(),
    decreases s.len(),
{
    if s.len() > 0 {
        assert(s[0] == t[0]);
        assert forall|i: int| 0 <= i < s.drop_first().len() implies s.drop_first()[i]
            == t.drop_first()[i] by {
            assert(s[i + 1] == t[i + 1]);
        }
        law_start_comes_first(s.drop_first(), t.drop_first(), le);
    }
}

} // verus!
