use vstd::prelude::*;
use vstd::seq_lib::*;
use core::cmp::Ordering;
use crate::model::{
    AnimalDAO, AnimalKind, HasColor, HasWeight, RecordView, animal_dao_to_animal,
    animal_to_dao, animal_views, known_fn, lemma_animal_tag_known, lemma_animal_views_insert,
    lemma_animal_views_push, lemma_animal_views_remove, lemma_animal_views_reverse,
    lemma_record_views_push, record_views,
};
use crate::order::{
    insert_ordered, lemma_filter_all, lemma_filter_push, lemma_insert_ordered_position,
    lemma_lex_le_antisymmetric, lemma_lex_le_reflexive, lemma_lex_le_total,
    lemma_lex_le_transitive, lemma_sort_ordered_multiset, lemma_sort_ordered_sorted,
    lemma_sort_ordered_stable, lex_cmp, lex_le, lex_lt, ordered_by, sort_ordered, total_preorder,
};

verus! {

// The two ordering policies over the collection, as comparator values on
// record views.

/// Color order: lexicographic on the color.
pub open spec fn color_le_fn() -> spec_fn(RecordView, RecordView) -> bool {
    |a: RecordView, b: RecordView| lex_le(a.color, b.color)
}

/// Weight order: numeric on the weight.
pub open spec fn weight_le_fn() -> spec_fn(RecordView, RecordView) -> bool {
    |a: RecordView, b: RecordView| a.weight <= b.weight
}

/// The comparator a sorting pass uses: color order when `by_color` is set,
/// weight order otherwise.
pub open spec fn key_le(by_color: bool) -> spec_fn(RecordView, RecordView) -> bool {
    if by_color {
        color_le_fn()
    } else {
        weight_le_fn()
    }
}

/// Both comparators relate every pair and are transitive.
pub proof fn lemma_key_le_total_preorder(by_color: bool)
    ensures
        total_preorder(key_le(by_color)),
{
    let le = key_le(by_color);
    assert forall|a: RecordView, b: RecordView| #[trigger] le(a, b) || le(b, a) by {
        if by_color {
            lemma_lex_le_total(a.color, b.color);
        }
    }
    assert forall|a: RecordView, b: RecordView, c: RecordView|
        #![trigger le(a, b), le(b, c)]
        le(a, b) && le(b, c) implies le(a, c) by {
        if by_color {
            lemma_lex_le_transitive(a.color, b.color, c.color);
        }
    }
}

/// Compare two animals by color, lexicographically; the ordering policy of a
/// color sort.
pub fn sort_by_color(a: &AnimalKind, b: &AnimalKind) -> (r: Ordering)
    ensures
        r == Ordering::Equal <==> a@.color == b@.color,
        r == Ordering::Less <==> lex_lt(a@.color, b@.color),
        r == Ordering::Greater <==> lex_lt(b@.color, a@.color),
{
    lex_cmp(a.color(), b.color())
}

/// Compare two animals by weight; the ordering policy of a weight sort.
pub fn sort_by_weight(a: &AnimalKind, b: &AnimalKind) -> (r: Ordering)
    ensures
        r == Ordering::Equal <==> a@.weight == b@.weight,
        r == Ordering::Less <==> a@.weight < b@.weight,
        r == Ordering::Greater <==> a@.weight > b@.weight,
{
    let wa = a.weight();
    let wb = b.weight();
    if wa < wb {
        Ordering::Less
    } else if wa == wb {
        Ordering::Equal
    } else {
        Ordering::Greater
    }
}

/// Whether `a` stands at or below `b` under the selected key.
fn animal_le(a: &AnimalKind, b: &AnimalKind, by_color: bool) -> (r: bool)
    ensures
        r == key_le(by_color)(a@, b@),
{
    if by_color {
        let c = sort_by_color(a, b);
        let r = match c {
            Ordering::Greater => false,
            _ => true,
        };
        proof {
            lemma_lex_le_total(a@.color, b@.color);
            lemma_lex_le_reflexive(a@.color);
            if lex_le(a@.color, b@.color) && lex_le(b@.color, a@.color) {
                lemma_lex_le_antisymmetric(a@.color, b@.color);
            }
        }
        r
    } else {
        a.weight() <= b.weight()
    }
}

/// Bulk resolution: the animals of the records whose tags are registered, in
/// input order; records with unknown tags are silently dropped, not reported.
pub fn convert_animals_to_types(animals: &[AnimalDAO]) -> (out: Vec<AnimalKind>)
    ensures
        animal_views(out@) == record_views(animals@).filter(known_fn()),
{
    let ghost rv = record_views(animals@);
    let mut out: Vec<AnimalKind> = Vec::new();
    let n = animals.len();
    let mut i: usize = 0;
    proof {
        lemma_filter_all(Seq::<RecordView>::empty(), known_fn());
        assert(animal_views(out@) =~= Seq::<RecordView>::empty());
        assert(rv.take(0) =~= Seq::<RecordView>::empty());
    }
    while i < n
        invariant
            n == animals@.len(),
            i <= n,
            rv == record_views(animals@),
            animal_views(out@) == rv.take(i as int).filter(known_fn()),
        decreases n - i,
    {
        match animal_dao_to_animal(&animals[i]) {
            Some(a) => {
                proof {
                    lemma_animal_views_push(out@, a);
                }
                out.push(a);
            },
            None => {},
        }
        proof {
            assert(rv.take(i + 1) =~= rv.take(i as int).push(rv[i as int]));
            lemma_filter_push(rv.take(i as int), rv[i as int], known_fn());
        }
        i += 1;
    }
    proof {
        assert(rv.take(n as int) =~= rv);
    }
    out
}

/// Serialize the collection: each animal back to a record carrying its tag,
/// weight and color, order preserved, nothing dropped.
pub fn animals_to_daos(animals: &Vec<AnimalKind>) -> (out: Vec<AnimalDAO>)
    ensures
        record_views(out@) == animal_views(animals@),
{
    let ghost av = animal_views(animals@);
    let mut out: Vec<AnimalDAO> = Vec::new();
    let n = animals.len();
    let mut i: usize = 0;
    proof {
        assert(record_views(out@) =~= av.take(0));
    }
    while i < n
        invariant
            n == animals@.len(),
            i <= n,
            av == animal_views(animals@),
            record_views(out@) == av.take(i as int),
        decreases n - i,
    {
        let d = animal_to_dao(&animals[i]);
        proof {
            lemma_record_views_push(out@, d);
            assert(av.take(i + 1) =~= av.take(i as int).push(av[i as int]));
        }
        out.push(d);
        i += 1;
    }
    proof {
        assert(av.take(n as int) =~= av);
    }
    out
}

/// Stable insertion sort of the collection in place: by color when `by_color`
/// is set, by weight otherwise. Ties keep their relative order.
pub fn sort_animals(v: &mut Vec<AnimalKind>, by_color: bool)
    ensures
        animal_views(final(v)@) == sort_ordered(animal_views(old(v)@), key_le(by_color)),
{
    let ghost le = key_le(by_color);
    let ghost orig = animal_views(old(v)@);
    proof {
        lemma_key_le_total_preorder(by_color);
    }
    let n = v.len();
    let mut i: usize = 0;
    proof {
        assert(orig.take(0) =~= Seq::<RecordView>::empty());
        assert(orig.skip(0) =~= orig);
        assert(animal_views(v@) =~= sort_ordered(orig.take(0), le) + orig.skip(0));
    }
    while i < n
        invariant
            n == v@.len(),
            i <= n,
            le == key_le(by_color),
            total_preorder(le),
            orig == animal_views(old(v)@),
            orig.len() == n,
            animal_views(v@) == sort_ordered(orig.take(i as int), le) + orig.skip(i as int),
        decreases n - i,
    {
        let ghost p = sort_ordered(orig.take(i as int), le);
        let ghost xv = orig[i as int];
        proof {
            lemma_sort_ordered_multiset(orig.take(i as int), le);
            lemma_sort_ordered_sorted(orig.take(i as int), le);
            assert(orig.skip(i as int) =~= seq![xv] + orig.skip(i + 1));
            assert(p.take(i as int) =~= p);
            assert(p.skip(i as int) =~= Seq::<RecordView>::empty());
            assert(animal_views(v@) =~= p.take(i as int) + seq![xv] + p.skip(i as int) + orig.skip(
                i + 1,
            ));
        }
        let mut j: usize = i;
        let mut placed = false;
        while j > 0 && !placed
            invariant
                n == v@.len(),
                i < n,
                j <= i,
                le == key_le(by_color),
                total_preorder(le),
                orig.len() == n,
                p == sort_ordered(orig.take(i as int), le),
                p.len() == i,
                xv == orig[i as int],
                ordered_by(p, le),
                animal_views(v@) == p.take(j as int) + seq![xv] + p.skip(j as int) + orig.skip(
                    i + 1,
                ),
                forall|k: int| j <= k < i ==> !le(#[trigger] p[k], xv),
                placed ==> j > 0 && le(p[j - 1], xv),
            decreases j, (if placed { 0int } else { 1int }),
        {
            let ghost vs = animal_views(v@);
            proof {
                assert(vs[j - 1] == p[j - 1]);
                assert(vs[j as int] == xv);
                assert(v@[j - 1]@ == vs[j - 1]);
                assert(v@[j as int]@ == vs[j as int]);
            }
            let stop = animal_le(&v[j - 1], &v[j], by_color);
            if stop {
                placed = true;
            } else {
                let ghost before = v@;
                let x = v.remove(j);
                let ghost removed = v@;
                v.insert(j - 1, x);
                proof {
                    lemma_animal_views_remove(before, j as int);
                    lemma_animal_views_insert(removed, j - 1, x);
                    assert(x@ == xv);
                    assert(animal_views(v@) =~= p.take(j - 1) + seq![xv] + p.skip(j - 1)
                        + orig.skip(i + 1));
                }
                j -= 1;
            }
        }
        proof {
            lemma_insert_ordered_position(p, xv, le, j as int);
            assert(animal_views(v@) =~= insert_ordered(p, xv, le) + orig.skip(i + 1));
            assert(orig.take(i + 1).drop_last() =~= orig.take(i as int));
            assert(orig.take(i + 1).last() == xv);
            assert(sort_ordered(orig.take(i + 1), le) == insert_ordered(p, xv, le));
        }
        i += 1;
    }
    proof {
        assert(orig.take(n as int) =~= orig);
        assert(orig.skip(n as int) =~= Seq::<RecordView>::empty());
        assert(sort_ordered(orig, le) + Seq::<RecordView>::empty() =~= sort_ordered(orig, le));
    }
}

/// Reverse the collection in place.
pub fn reverse_animals(v: &mut Vec<AnimalKind>)
    ensures
        final(v)@ == old(v)@.reverse(),
{
    let mut out: Vec<AnimalKind> = Vec::new();
    proof {
        assert(v@ =~= old(v)@.take(v@.len() as int));
        assert(out@ =~= old(v)@.skip(v@.len() as int).reverse());
    }
    while v.len() > 0
        invariant
            v@.len() <= old(v)@.len(),
            v@ == old(v)@.take(v@.len() as int),
            out@ == old(v)@.skip(v@.len() as int).reverse(),
        decreases v@.len(),
    {
        let ghost k = v@.len() as int;
        let x = v.pop().unwrap();
        out.push(x);
        proof {
            assert(v@ =~= old(v)@.take(k - 1));
            assert(x == old(v)@[k - 1]);
            assert(old(v)@.skip(k - 1).reverse() =~= old(v)@.skip(k).reverse().push(
                old(v)@[k - 1],
            ));
        }
    }
    proof {
        assert(old(v)@.skip(0).reverse() =~= old(v)@.reverse());
    }
    *v = out;
}

/// What the whole pipeline returns, over record views: keep exactly the
/// records whose tags are registered, in input order; sort by color if asked;
/// sort by weight if asked (a weight sort applied after a color sort is the
/// one whose order remains observable); reverse at the end if asked.
pub open spec fn spec_process(
    s: Seq<RecordView>,
    by_color: bool,
    by_weight: bool,
    rev: bool,
) -> Seq<RecordView> {
    let resolved = s.filter(known_fn());
    let c = if by_color {
        sort_ordered(resolved, color_le_fn())
    } else {
        resolved
    };
    let w = if by_weight {
        sort_ordered(c, weight_le_fn())
    } else {
        c
    };
    if rev {
        w.reverse()
    } else {
        w
    }
}

/// Run the pipeline: resolve the records, apply the requested sorts and the
/// reversal, and serialize the animals back into records.
pub fn process_records(
    records: &Vec<AnimalDAO>,
    by_color: bool,
    by_weight: bool,
    rev: bool,
) -> (out: Vec<AnimalDAO>)
    ensures
        record_views(out@) == spec_process(record_views(records@), by_color, by_weight, rev),
{
    let mut animals = convert_animals_to_types(records.as_slice());
    if by_color {
        sort_animals(&mut animals, true);
    }
    if by_weight {
        sort_animals(&mut animals, false);
    }
    if rev {
        let ghost pre = animals@;
        reverse_animals(&mut animals);
        proof {
            lemma_animal_views_reverse(pre);
        }
    }
    animals_to_daos(&animals)
}

// The laws of the pipeline.

/// With no flags set, the pipeline is exactly the tag filter: the records
/// with registered tags, in input order, with their fields untouched.
pub proof fn lemma_process_no_flags(s: Seq<RecordView>)
    ensures
        spec_process(s, false, false, false) == s.filter(known_fn()),
{
}

/// The reverse flag exactly reverses what the rest of the pipeline produced:
/// the resolved sequence when no sort was asked, the sorted one otherwise.
pub proof fn lemma_process_reverse(s: Seq<RecordView>, by_color: bool, by_weight: bool)
    ensures
        spec_process(s, by_color, by_weight, true) == spec_process(
            s,
            by_color,
            by_weight,
            false,
        ).reverse(),
{
}

/// The records whose color is exactly `c`, as a predicate value.
pub open spec fn color_is(c: Seq<char>) -> spec_fn(RecordView) -> bool {
    |y: RecordView| y.color == c
}

/// The records whose weight is exactly `w`, as a predicate value.
pub open spec fn weight_is(w: i32) -> spec_fn(RecordView) -> bool {
    |y: RecordView| y.weight == w
}

/// A color sort leaves the colors lexicographically non-decreasing.
pub proof fn lemma_color_sort_sorted(s: Seq<RecordView>)
    ensures
        ordered_by(sort_ordered(s, color_le_fn()), color_le_fn()),
{
    lemma_key_le_total_preorder(true);
    lemma_sort_ordered_sorted(s, color_le_fn());
}

/// A weight sort leaves the weights non-decreasing.
pub proof fn lemma_weight_sort_sorted(s: Seq<RecordView>)
    ensures
        ordered_by(sort_ordered(s, weight_le_fn()), weight_le_fn()),
{
    lemma_key_le_total_preorder(false);
    lemma_sort_ordered_sorted(s, weight_le_fn());
}

/// A color sort is stable: the records of any one color stand in the result
/// exactly as they stood in the input.
pub proof fn lemma_color_sort_stable(s: Seq<RecordView>, c: Seq<char>)
    ensures
        sort_ordered(s, color_le_fn()).filter(color_is(c)) == s.filter(color_is(c)),
{
    lemma_key_le_total_preorder(true);
    assert forall|y: RecordView, z: RecordView|
        #![trigger color_is(c)(y), color_is(c)(z)]
        color_is(c)(y) && color_is(c)(z) implies color_le_fn()(y, z) by {
        lemma_lex_le_reflexive(c);
    }
    lemma_sort_ordered_stable(s, color_le_fn(), color_is(c));
}

/// A weight sort is stable: the records of any one weight stand in the result
/// exactly as they stood in the input.
pub proof fn lemma_weight_sort_stable(s: Seq<RecordView>, w: i32)
    ensures
        sort_ordered(s, weight_le_fn()).filter(weight_is(w)) == s.filter(weight_is(w)),
{
    lemma_key_le_total_preorder(false);
    lemma_sort_ordered_stable(s, weight_le_fn(), weight_is(w));
}

/// A sort only rearranges: same length, same collection of records.
pub proof fn lemma_sort_permutes(s: Seq<RecordView>, by_color: bool)
    ensures
        sort_ordered(s, key_le(by_color)).len() == s.len(),
        sort_ordered(s, key_le(by_color)).to_multiset() == s.to_multiset(),
{
    lemma_sort_ordered_multiset(s, key_le(by_color));
}

/// Round trip: every animal serializes to a record with a registered tag, so
/// re-resolving a serialized collection keeps every (tag, weight, color)
/// triple — nothing is dropped and nothing changes.
pub proof fn lemma_round_trip(animals: Seq<AnimalKind>)
    ensures
        animal_views(animals).filter(known_fn()) == animal_views(animals),
{
    let av = animal_views(animals);
    assert forall|i: int| 0 <= i < av.len() implies known_fn()(#[trigger] av[i]) by {
        lemma_animal_tag_known(animals[i]);
    }
    lemma_filter_all(av, known_fn());
}

} // verus!
