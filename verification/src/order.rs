use vstd::prelude::*;
use vstd::seq_lib::*;
use vstd::string::StrSliceExecFns;
use core::cmp::Ordering;

verus! {

/// `a` is at or before `b` in the lexicographic order on character sequences:
/// ordered by code point at the first difference, a prefix before its
/// extensions.
pub open spec fn lex_le(a: Seq<char>, b: Seq<char>) -> bool
    decreases a.len(),
{
    if a.len() == 0 {
        true
    } else if b.len() == 0 {
        false
    } else if a[0] == b[0] {
        lex_le(a.skip(1), b.skip(1))
    } else {
        (a[0] as u32) < (b[0] as u32)
    }
}

/// `a` is strictly before `b` in the lexicographic order.
pub open spec fn lex_lt(a: Seq<char>, b: Seq<char>) -> bool {
    lex_le(a, b) && a != b
}

pub proof fn lemma_lex_le_reflexive(a: Seq<char>)
    ensures
        lex_le(a, a),
    decreases a.len(),
{
    if a.len() > 0 {
        lemma_lex_le_reflexive(a.skip(1));
    }
}

pub proof fn lemma_lex_le_total(a: Seq<char>, b: Seq<char>)
    ensures
        lex_le(a, b) || lex_le(b, a),
    decreases a.len(),
{
    broadcast use vstd::utf8::char_u32_cast;

    if a.len() == 0 {
        assert(lex_le(a, b));
    } else if b.len() == 0 {
        assert(lex_le(b, a));
    } else if a[0] == b[0] {
        lemma_lex_le_total(a.skip(1), b.skip(1));
    } else if (a[0] as u32) < (b[0] as u32) {
        assert(lex_le(a, b));
    } else {
        if (a[0] as u32) == (b[0] as u32) {
            vstd::utf8::char_u32_cast(a[0], (a[0] as u32));
            vstd::utf8::char_u32_cast(b[0], (b[0] as u32));
        }
        assert((b[0] as u32) < (a[0] as u32));
        assert(lex_le(b, a));
    }
}

pub proof fn lemma_lex_le_antisymmetric(a: Seq<char>, b: Seq<char>)
    requires
        lex_le(a, b),
        lex_le(b, a),
    ensures
        a == b,
    decreases a.len(),
{
    if a.len() == 0 {
        assert(a =~= b);
    } else {
        assert(a[0] == b[0]);
        lemma_lex_le_antisymmetric(a.skip(1), b.skip(1));
        assert forall|k: int| 0 <= k < a.len() implies a[k] == b[k] by {
            if k > 0 {
                assert(a[k] == a.skip(1)[k - 1]);
                assert(b[k] == b.skip(1)[k - 1]);
            }
        }
        assert(a =~= b);
    }
}

pub proof fn lemma_lex_le_transitive(a: Seq<char>, b: Seq<char>, c: Seq<char>)
    requires
        lex_le(a, b),
        lex_le(b, c),
    ensures
        lex_le(a, c),
    decreases a.len(),
{
    if a.len() > 0 && b.len() > 0 && c.len() > 0 && a[0] == b[0] && b[0] == c[0] {
        lemma_lex_le_transitive(a.skip(1), b.skip(1), c.skip(1));
    }
}

/// Comparing two sequences that agree on their first `i` characters is
/// comparing what remains of each.
proof fn lemma_lex_le_skip(a: Seq<char>, b: Seq<char>, i: int)
    requires
        0 <= i <= a.len(),
        i <= b.len(),
        forall|j: int| 0 <= j < i ==> a[j] == b[j],
    ensures
        lex_le(a, b) == lex_le(a.skip(i), b.skip(i)),
    decreases i,
{
    if i > 0 {
        assert(a[0] == b[0]);
        assert forall|j: int| 0 <= j < i - 1 implies a.skip(1)[j] == b.skip(1)[j] by {
            assert(a.skip(1)[j] == a[j + 1]);
            assert(b.skip(1)[j] == b[j + 1]);
        }
        lemma_lex_le_skip(a.skip(1), b.skip(1), i - 1);
        assert(a.skip(1).skip(i - 1) =~= a.skip(i));
        assert(b.skip(1).skip(i - 1) =~= b.skip(i));
    } else {
        assert(a.skip(0) =~= a);
        assert(b.skip(0) =~= b);
    }
}

/// Three-way lexicographic comparison of two strings by code point.
pub fn lex_cmp(a: &str, b: &str) -> (r: Ordering)
    ensures
        r == Ordering::Equal <==> a@ == b@,
        r == Ordering::Less <==> lex_lt(a@, b@),
        r == Ordering::Greater <==> lex_lt(b@, a@),
{
    let alen = a.unicode_len();
    let blen = b.unicode_len();
    let mut i: usize = 0;
    while i < alen && i < blen
        invariant
            alen == a@.len(),
            blen == b@.len(),
            i <= alen,
            i <= blen,
            forall|j: int| 0 <= j < i ==> a@[j] == b@[j],
        decreases alen - i,
    {
        let ca = a.get_char(i);
        let cb = b.get_char(i);
        if ca != cb {
            proof {
                lemma_lex_le_skip(a@, b@, i as int);
                lemma_lex_le_skip(b@, a@, i as int);
                assert(a@.skip(i as int)[0] == a@[i as int]);
                assert(b@.skip(i as int)[0] == b@[i as int]);
            }
            if (ca as u32) < (cb as u32) {
                return Ordering::Less;
            } else {
                return Ordering::Greater;
            }
        }
        i += 1;
    }
    proof {
        lemma_lex_le_skip(a@, b@, i as int);
        lemma_lex_le_skip(b@, a@, i as int);
    }
    if alen == blen {
        proof {
            assert(a@ =~= b@);
        }
        Ordering::Equal
    } else if alen < blen {
        Ordering::Less
    } else {
        Ordering::Greater
    }
}

// A small theory of stable sorting by a comparator, used by the ordering
// policies over the animal collection.

/// `s` is ordered by `le`: every pair of positions is in order.
pub open spec fn ordered_by<T>(s: Seq<T>, le: spec_fn(T, T) -> bool) -> bool {
    forall|i: int, j: int| 0 <= i < j < s.len() ==> #[trigger] le(s[i], s[j])
}

/// `le` relates every pair one way or the other and is transitive: what a
/// sorting pass needs of a comparator.
pub open spec fn total_preorder<T>(le: spec_fn(T, T) -> bool) -> bool {
    &&& forall|a: T, b: T| #[trigger] le(a, b) || le(b, a)
    &&& forall|a: T, b: T, c: T| #![trigger le(a, b), le(b, c)] le(a, b) && le(b, c) ==> le(a, c)
}

/// Insert `x` into `s` from the right: after every element at or below it,
/// before every element strictly above it. On an ordered `s` this is one step
/// of a stable insertion sort.
pub open spec fn insert_ordered<T>(s: Seq<T>, x: T, le: spec_fn(T, T) -> bool) -> Seq<T>
    decreases s.len(),
{
    if s.len() == 0 {
        seq![x]
    } else if le(s.last(), x) {
        s.push(x)
    } else {
        insert_ordered(s.drop_last(), x, le).push(s.last())
    }
}

/// Stable sort by `le`: insert the elements one by one, each after its equals.
pub open spec fn sort_ordered<T>(s: Seq<T>, le: spec_fn(T, T) -> bool) -> Seq<T>
    decreases s.len(),
{
    if s.len() == 0 {
        Seq::<T>::empty()
    } else {
        insert_ordered(sort_ordered(s.drop_last(), le), s.last(), le)
    }
}

/// Inserting adds one element and otherwise keeps the collection.
pub proof fn lemma_insert_ordered_multiset<T>(s: Seq<T>, x: T, le: spec_fn(T, T) -> bool)
    ensures
        insert_ordered(s, x, le).len() == s.len() + 1,
        insert_ordered(s, x, le).to_multiset() == s.to_multiset().insert(x),
    decreases s.len(),
{
    broadcast use vstd::seq_lib::group_to_multiset_ensures;
    broadcast use vstd::multiset::group_multiset_axioms;

    if s.len() == 0 {
        assert(seq![x] =~= Seq::<T>::empty().push(x));
        assert(s =~= Seq::<T>::empty());
    } else if le(s.last(), x) {
    } else {
        lemma_insert_ordered_multiset(s.drop_last(), x, le);
        assert(s.drop_last().push(s.last()) =~= s);
        assert(s.drop_last().to_multiset().insert(x).insert(s.last()) =~= s.drop_last()
            .to_multiset()
            .insert(s.last())
            .insert(x));
    }
}

/// Inserting into an ordered sequence keeps it ordered.
pub proof fn lemma_insert_ordered_sorted<T>(s: Seq<T>, x: T, le: spec_fn(T, T) -> bool)
    requires
        total_preorder(le),
        ordered_by(s, le),
    ensures
        ordered_by(insert_ordered(s, x, le), le),
    decreases s.len(),
{
    broadcast use vstd::seq_lib::group_to_multiset_ensures;
    broadcast use vstd::multiset::group_multiset_axioms;

    if s.len() == 0 {
    } else if le(s.last(), x) {
        let t = s.push(x);
        assert forall|i: int, j: int| 0 <= i < j < t.len() implies #[trigger] le(t[i], t[j]) by {
            if j == t.len() - 1 {
                if i < s.len() - 1 {
                    assert(le(s[i], s[s.len() - 1]));
                }
            } else {
                assert(le(s[i], s[j]));
            }
        }
    } else {
        assert forall|i: int, j: int|
            0 <= i < j < s.drop_last().len() implies #[trigger] le(
            s.drop_last()[i],
            s.drop_last()[j],
        ) by {
            assert(le(s[i], s[j]));
        }
        lemma_insert_ordered_sorted(s.drop_last(), x, le);
        lemma_insert_ordered_multiset(s.drop_last(), x, le);
        let t0 = insert_ordered(s.drop_last(), x, le);
        let t = t0.push(s.last());
        assert forall|i: int| 0 <= i < t0.len() implies le(t0[i], s.last()) by {
            assert(t0.contains(t0[i]));
            if t0[i] == x {
                assert(le(x, s.last()));
            } else {
                assert(t0.to_multiset().count(t0[i]) > 0);
                assert(s.drop_last().to_multiset().count(t0[i]) > 0);
                assert(s.drop_last().contains(t0[i]));
                let k = choose|k: int|
                    0 <= k < s.drop_last().len() && s.drop_last()[k] == t0[i];
                assert(le(s[k], s[s.len() - 1]));
            }
        }
        assert forall|i: int, j: int| 0 <= i < j < t.len() implies #[trigger] le(t[i], t[j]) by {
            if j < t.len() - 1 {
                assert(le(t0[i], t0[j]));
            }
        }
    }
}

/// Where `insert_ordered` puts `x`: at index `j`, when everything from `j` on
/// is strictly above `x` and the element before `j` (if any) is not.
pub proof fn lemma_insert_ordered_position<T>(s: Seq<T>, x: T, le: spec_fn(T, T) -> bool, j: int)
    requires
        0 <= j <= s.len(),
        forall|k: int| j <= k < s.len() ==> !le(#[trigger] s[k], x),
        j > 0 ==> le(s[j - 1], x),
    ensures
        insert_ordered(s, x, le) == s.take(j) + seq![x] + s.skip(j),
    decreases s.len(),
{
    if j == s.len() {
        if s.len() == 0 {
            assert(seq![x] =~= s.take(j) + seq![x] + s.skip(j));
        } else {
            assert(le(s.last(), x));
            assert(s.push(x) =~= s.take(j) + seq![x] + s.skip(j));
        }
    } else {
        assert(!le(s[s.len() - 1], x));
        assert forall|k: int| j <= k < s.drop_last().len() implies !le(
            #[trigger] s.drop_last()[k],
            x,
        ) by {
            assert(s.drop_last()[k] == s[k]);
        }
        lemma_insert_ordered_position(s.drop_last(), x, le, j);
        assert(insert_ordered(s.drop_last(), x, le).push(s.last()) =~= s.take(j) + seq![x]
            + s.skip(j));
    }
}

/// Filtering past a pushed element keeps it exactly when it satisfies the
/// predicate.
pub proof fn lemma_filter_push<T>(s: Seq<T>, x: T, p: spec_fn(T) -> bool)
    ensures
        s.push(x).filter(p) == if p(x) {
            s.filter(p).push(x)
        } else {
            s.filter(p)
        },
{
    reveal(Seq::filter);
    assert(s.push(x).drop_last() =~= s);
    assert(s.push(x).last() == x);
}

/// A sequence whose elements all satisfy the predicate filters to itself.
pub proof fn lemma_filter_all<T>(s: Seq<T>, p: spec_fn(T) -> bool)
    requires
        forall|i: int| 0 <= i < s.len() ==> p(#[trigger] s[i]),
    ensures
        s.filter(p) == s,
    decreases s.len(),
{
    reveal(Seq::filter);
    if s.len() == 0 {
        assert(s =~= Seq::<T>::empty());
    } else {
        assert forall|i: int| 0 <= i < s.drop_last().len() implies p(
            #[trigger] s.drop_last()[i],
        ) by {
            assert(s.drop_last()[i] == s[i]);
        }
        lemma_filter_all(s.drop_last(), p);
        lemma_filter_push(s.drop_last(), s.last(), p);
        assert(s.drop_last().push(s.last()) =~= s);
    }
}

/// Inserting an element that satisfies `p`, when nothing strictly above it
/// does, appends it to the filtered view.
pub proof fn lemma_insert_ordered_filter_in<T>(
    s: Seq<T>,
    x: T,
    le: spec_fn(T, T) -> bool,
    p: spec_fn(T) -> bool,
)
    requires
        p(x),
        forall|y: T| !le(y, x) ==> !(#[trigger] p(y)),
    ensures
        insert_ordered(s, x, le).filter(p) == s.filter(p).push(x),
    decreases s.len(),
{
    reveal(Seq::filter);
    if s.len() == 0 {
        assert(seq![x] =~= Seq::<T>::empty().push(x));
        lemma_filter_push(Seq::<T>::empty(), x, p);
        assert(s =~= Seq::<T>::empty());
    } else if le(s.last(), x) {
        lemma_filter_push(s, x, p);
    } else {
        assert(!p(s.last()));
        lemma_insert_ordered_filter_in(s.drop_last(), x, le, p);
        lemma_filter_push(insert_ordered(s.drop_last(), x, le), s.last(), p);
        lemma_filter_push(s.drop_last(), s.last(), p);
        assert(s.drop_last().push(s.last()) =~= s);
    }
}

/// Inserting an element that fails `p` leaves the filtered view unchanged.
pub proof fn lemma_insert_ordered_filter_out<T>(
    s: Seq<T>,
    x: T,
    le: spec_fn(T, T) -> bool,
    p: spec_fn(T) -> bool,
)
    requires
        !p(x),
    ensures
        insert_ordered(s, x, le).filter(p) == s.filter(p),
    decreases s.len(),
{
    reveal(Seq::filter);
    if s.len() == 0 {
        assert(seq![x] =~= Seq::<T>::empty().push(x));
        lemma_filter_push(Seq::<T>::empty(), x, p);
        assert(s =~= Seq::<T>::empty());
    } else if le(s.last(), x) {
        lemma_filter_push(s, x, p);
    } else {
        lemma_insert_ordered_filter_out(s.drop_last(), x, le, p);
        lemma_filter_push(insert_ordered(s.drop_last(), x, le), s.last(), p);
        lemma_filter_push(s.drop_last(), s.last(), p);
        assert(s.drop_last().push(s.last()) =~= s);
    }
}

/// The sort is ordered.
pub proof fn lemma_sort_ordered_sorted<T>(s: Seq<T>, le: spec_fn(T, T) -> bool)
    requires
        total_preorder(le),
    ensures
        ordered_by(sort_ordered(s, le), le),
    decreases s.len(),
{
    if s.len() > 0 {
        lemma_sort_ordered_sorted(s.drop_last(), le);
        lemma_insert_ordered_sorted(sort_ordered(s.drop_last(), le), s.last(), le);
    }
}

/// The sort keeps the length and the collection of elements.
pub proof fn lemma_sort_ordered_multiset<T>(s: Seq<T>, le: spec_fn(T, T) -> bool)
    ensures
        sort_ordered(s, le).len() == s.len(),
        sort_ordered(s, le).to_multiset() == s.to_multiset(),
    decreases s.len(),
{
    broadcast use vstd::seq_lib::group_to_multiset_ensures;
    broadcast use vstd::multiset::group_multiset_axioms;

    if s.len() > 0 {
        lemma_sort_ordered_multiset(s.drop_last(), le);
        lemma_insert_ordered_multiset(sort_ordered(s.drop_last(), le), s.last(), le);
        assert(s.drop_last().push(s.last()) =~= s);
    }
}

/// Stability: elements that `p` picks out — any class of mutually equivalent
/// elements — stand in the sort exactly as they stood in the input.
pub proof fn lemma_sort_ordered_stable<T>(
    s: Seq<T>,
    le: spec_fn(T, T) -> bool,
    p: spec_fn(T) -> bool,
)
    requires
        total_preorder(le),
        forall|y: T, z: T| #![trigger p(y), p(z)] p(y) && p(z) ==> le(y, z),
    ensures
        sort_ordered(s, le).filter(p) == s.filter(p),
    decreases s.len(),
{
    if s.len() == 0 {
        assert(sort_ordered(s, le) == Seq::<T>::empty());
        assert(s =~= Seq::<T>::empty());
    } else {
        lemma_sort_ordered_stable(s.drop_last(), le, p);
        let t = sort_ordered(s.drop_last(), le);
        if p(s.last()) {
            assert forall|y: T| !le(y, s.last()) implies !(#[trigger] p(y)) by {
                if p(y) {
                    assert(le(y, s.last()));
                }
            }
            lemma_insert_ordered_filter_in(t, s.last(), le, p);
        } else {
            lemma_insert_ordered_filter_out(t, s.last(), le, p);
        }
        lemma_filter_push(s.drop_last(), s.last(), p);
        assert(s.drop_last().push(s.last()) =~= s);
    }
}

} // verus!
