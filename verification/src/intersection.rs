//! An intersection occurs when a ray hits an object.
//!
//! The ray parameter is carried as an order key: the caller encodes its
//! scalar parameters through any strictly increasing map that sends
//! non-negative parameters to non-negative keys (and only those), so that
//! comparing keys decides exactly what comparing the parameters would.
//! The object is the index of the hit shape in the caller's scene.

use vstd::prelude::*;
use vstd::multiset::Multiset;
use vstd::pervasive::unreached;

verus! {

/// A ray/shape hit: the ray parameter's order key `t` (may be negative,
/// meaning "behind the ray origin") and the index of the hit object.
#[derive(Copy, Clone, Debug, PartialEq, Eq, Structural)]
pub struct Intersection {
    /// Order key of the ray parameter at which the hit occurs.
    pub t: i64,
    /// Index of the hit object in the caller's scene.
    pub object: usize,
}

/// Whether some intersection lies on the forward part of the ray.
pub open spec fn has_hit(xs: Seq<Intersection>) -> bool {
    exists|i: int| 0 <= i < xs.len() && xs[i].t >= 0
}

/// `h` lies on the forward part of the ray and no intersection in `xs`
/// lies closer to its origin.
pub open spec fn is_min_nonneg(xs: Seq<Intersection>, h: Intersection) -> bool {
    &&& h.t >= 0
    &&& forall|j: int| 0 <= j < xs.len() && (#[trigger] xs[j]).t >= 0 ==> h.t <= xs[j].t
}

/// `h` stands at position `i` of `xs` and every earlier entry is either
/// behind the ray origin or strictly farther away.
pub open spec fn is_first_min_nonneg_at(xs: Seq<Intersection>, h: Intersection, i: int) -> bool {
    &&& 0 <= i < xs.len()
    &&& xs[i] == h
    &&& is_min_nonneg(xs, h)
    &&& forall|j: int| 0 <= j < i ==> (#[trigger] xs[j]).t < 0 || xs[j].t > h.t
}

/// `h` stands at position `i` of `xs` and every later entry is either
/// behind the ray origin or strictly farther away.
pub open spec fn is_last_min_nonneg_at(xs: Seq<Intersection>, h: Intersection, i: int) -> bool {
    &&& 0 <= i < xs.len()
    &&& xs[i] == h
    &&& is_min_nonneg(xs, h)
    &&& forall|j: int| i < j < xs.len() ==> (#[trigger] xs[j]).t < 0 || xs[j].t > h.t
}

/// Ascending by `t`, as hit selection and the refraction walk expect.
pub open spec fn is_sorted_by_t(xs: Seq<Intersection>) -> bool {
    forall|i: int, j: int| 0 <= i < j < xs.len() ==> (#[trigger] xs[i]).t <= (#[trigger] xs[j]).t
}

/// The position of the first intersection with minimal `t`.
pub open spec fn first_min_index(xs: Seq<Intersection>) -> int
    decreases xs.len(),
{
    if xs.len() <= 1 {
        0
    } else {
        let rest = 1 + first_min_index(xs.drop_first());
        if xs[0].t <= xs[rest].t {
            0
        } else {
            rest
        }
    }
}

proof fn lemma_first_min_index_props(xs: Seq<Intersection>)
    requires
        xs.len() > 0,
    ensures
        0 <= first_min_index(xs) < xs.len(),
        forall|j: int| 0 <= j < xs.len() ==> xs[first_min_index(xs)].t <= (#[trigger] xs[j]).t,
        forall|j: int| 0 <= j < first_min_index(xs) ==> (#[trigger] xs[j]).t > xs[first_min_index(xs)].t,
    decreases xs.len(),
{
    if xs.len() > 1 {
        lemma_first_min_index_props(xs.drop_first());
        assert forall|j: int| 0 <= j < xs.len() implies xs[first_min_index(xs)].t <= (#[trigger] xs[j]).t by {
            if j > 0 {
                assert(xs.drop_first()[j - 1] == xs[j]);
                assert(xs.drop_first()[first_min_index(xs.drop_first())].t <= xs.drop_first()[j - 1].t);
            }
        }
        assert forall|j: int| 0 <= j < first_min_index(xs) implies (#[trigger] xs[j]).t
            > xs[first_min_index(xs)].t by {
            if j > 0 {
                assert(xs.drop_first()[j - 1] == xs[j]);
            }
        }
    }
}

/// The one sorted arrangement this library uses: repeatedly the first
/// remaining intersection with minimal `t`.  Among intersections with
/// equal `t` the incoming order is kept, so the arrangement is a
/// function of the list alone.
pub open spec fn sel_sort(xs: Seq<Intersection>) -> Seq<Intersection>
    decreases xs.len(),
    via sel_sort_decreases
{
    if xs.len() == 0 {
        xs
    } else {
        let m = first_min_index(xs);
        seq![xs[m]] + sel_sort(xs.remove(m))
    }
}

#[via_fn]
proof fn sel_sort_decreases(xs: Seq<Intersection>) {
    if xs.len() > 0 {
        lemma_first_min_index_props(xs);
    }
}

/// `sel_sort` only rearranges: the same intersections come out.
pub proof fn lemma_sel_sort_multiset(xs: Seq<Intersection>)
    ensures
        sel_sort(xs).to_multiset() == xs.to_multiset(),
    decreases xs.len(),
{
    broadcast use vstd::seq_lib::group_to_multiset_ensures;
    broadcast use vstd::multiset::group_multiset_axioms;

    if xs.len() > 0 {
        let m = first_min_index(xs);
        lemma_first_min_index_props(xs);
        lemma_sel_sort_multiset(xs.remove(m));
        vstd::seq_lib::lemma_multiset_commutative(seq![xs[m]], sel_sort(xs.remove(m)));
        assert(seq![xs[m]] =~= Seq::<Intersection>::empty().push(xs[m]));
        assert(Seq::<Intersection>::empty().push(xs[m]).to_multiset() =~= Seq::<
            Intersection,
        >::empty().to_multiset().insert(xs[m]));
        assert(Seq::<Intersection>::empty().to_multiset() =~= Multiset::<Intersection>::empty());
        assert(xs.remove(m).to_multiset() =~= xs.to_multiset().remove(xs[m]));
        assert(xs.contains(xs[m]));
        assert(sel_sort(xs).to_multiset() =~= xs.to_multiset());
    }
}

/// Whether a list holds a forward hit depends only on which
/// intersections it holds, not on their order.
pub proof fn lemma_has_hit_multiset(a: Seq<Intersection>, b: Seq<Intersection>)
    requires
        a.to_multiset() == b.to_multiset(),
    ensures
        has_hit(a) == has_hit(b),
{
    broadcast use vstd::seq_lib::group_to_multiset_ensures;

    if has_hit(a) {
        let i = choose|i: int| 0 <= i < a.len() && a[i].t >= 0;
        assert(a.contains(a[i]));
        assert(b.to_multiset().count(a[i]) > 0);
        assert(b.contains(a[i]));
        let j = choose|j: int| 0 <= j < b.len() && b[j] == a[i];
        assert(b[j].t >= 0);
    }
    if has_hit(b) {
        let i = choose|i: int| 0 <= i < b.len() && b[i].t >= 0;
        assert(b.contains(b[i]));
        assert(a.to_multiset().count(b[i]) > 0);
        assert(a.contains(b[i]));
        let j = choose|j: int| 0 <= j < a.len() && a[j] == b[i];
        assert(a[j].t >= 0);
    }
}

/// Sorts an intersection list ascending by `t`, keeping exactly the same
/// intersections: the result is the [`sel_sort`] arrangement, where
/// intersections with equal `t` keep their relative order.
pub fn sort_by_t(intersections: &mut Vec<Intersection>)
    ensures
        final(intersections)@ == sel_sort(old(intersections)@),
        is_sorted_by_t(final(intersections)@),
        final(intersections)@.to_multiset() == old(intersections)@.to_multiset(),
{
    broadcast use vstd::seq_lib::group_to_multiset_ensures;
    broadcast use vstd::multiset::group_multiset_axioms;

    let ghost whole = old(intersections)@;
    let ghost total = old(intersections)@.to_multiset();
    let mut out: Vec<Intersection> = Vec::new();
    while intersections.len() > 0
        invariant
            is_sorted_by_t(out@),
            forall|i: int, j: int|
                0 <= i < out@.len() && 0 <= j < intersections@.len() ==> (#[trigger] out@[i]).t
                    <= (#[trigger] intersections@[j]).t,
            out@.to_multiset().add(intersections@.to_multiset()) == total,
            sel_sort(whole) == out@ + sel_sort(intersections@),
        decreases intersections@.len(),
    {
        let mut m: usize = 0;
        let mut k: usize = 1;
        while k < intersections.len()
            invariant
                m < k <= intersections@.len(),
                forall|j: int|
                    0 <= j < k ==> intersections@[m as int].t <= (#[trigger] intersections@[j]).t,
                forall|j: int|
                    0 <= j < m ==> (#[trigger] intersections@[j]).t > intersections@[m as int].t,
            decreases intersections@.len() - k,
        {
            if intersections[k].t < intersections[m].t {
                m = k;
            }
            k += 1;
        }
        let ghost xs0 = intersections@;
        let ghost out0 = out@;
        proof {
            lemma_first_min_index_props(xs0);
            let fm = first_min_index(xs0);
            if fm < m {
                assert(xs0[fm].t > xs0[m as int].t);
                assert(xs0[fm].t <= xs0[m as int].t);
            }
            if m < fm {
                assert(xs0[m as int].t > xs0[fm].t);
                assert(xs0[m as int].t <= xs0[fm].t);
            }
            assert(m as int == fm);
            assert(sel_sort(xs0) == seq![xs0[m as int]] + sel_sort(xs0.remove(m as int)));
        }
        let x = intersections.remove(m);
        out.push(x);
        proof {
            assert(out@ + sel_sort(intersections@) =~= out0 + (seq![x] + sel_sort(
                intersections@,
            )));
            assert forall|j: int| 0 <= j < intersections@.len() implies x.t
                <= (#[trigger] intersections@[j]).t by {
                if j < m {
                    assert(intersections@[j] == xs0[j]);
                } else {
                    assert(intersections@[j] == xs0[j + 1]);
                }
            }
            out0.to_multiset_ensures();
            xs0.to_multiset_ensures();
            assert(out@ == out0.push(x));
            assert(out0.push(x).to_multiset() =~= out0.to_multiset().insert(x));
            assert(intersections@ == xs0.remove(m as int));
            assert(xs0.remove(m as int).to_multiset() =~= xs0.to_multiset().remove(xs0[m as int]));
            assert(xs0.to_multiset().contains(x));
            assert(out@.to_multiset().add(intersections@.to_multiset()) =~= total);
        }
    }
    *intersections = out;
}

/// Both ways of selecting the hit agree on how far away it is: a
/// first-on-tie choice and a last-on-tie choice out of the same
/// intersections stand at the same `t`.  Only which of several equally
/// close intersections is reported may differ.
pub proof fn lemma_hit_choices_agree_on_t(
    xs: Seq<Intersection>,
    h1: Intersection,
    i1: int,
    h2: Intersection,
    i2: int,
)
    requires
        is_first_min_nonneg_at(xs, h1, i1),
        is_last_min_nonneg_at(xs, h2, i2),
    ensures
        h1.t == h2.t,
{
    assert(h1.t <= xs[i2].t);
    assert(h2.t <= xs[i1].t);
}

/// Reordering an intersection list — sorting it, in particular — cannot
/// change how far away the hit is: lists holding the same intersections
/// yield hits at the same `t`.
pub proof fn lemma_hit_t_depends_on_contents_alone(
    xs1: Seq<Intersection>,
    xs2: Seq<Intersection>,
    h1: Intersection,
    i1: int,
    h2: Intersection,
    i2: int,
)
    requires
        xs1.to_multiset() == xs2.to_multiset(),
        is_first_min_nonneg_at(xs1, h1, i1),
        is_first_min_nonneg_at(xs2, h2, i2),
    ensures
        h1.t == h2.t,
{
    broadcast use vstd::seq_lib::group_to_multiset_ensures;

    assert(xs1.contains(h1));
    assert(xs2.contains(h2));
    assert(xs2.to_multiset().count(h1) > 0);
    assert(xs2.contains(h1));
    assert(xs1.to_multiset().count(h2) > 0);
    assert(xs1.contains(h2));
    let j1 = choose|j: int| 0 <= j < xs2.len() && xs2[j] == h1;
    let j2 = choose|j: int| 0 <= j < xs1.len() && xs1[j] == h2;
    assert(h2.t <= xs2[j1].t);
    assert(h1.t <= xs1[j2].t);
}

/// A list determines its first-on-tie hit completely: two
/// intersections both standing as the earliest minimal forward hit are
/// the same intersection at the same position.
pub proof fn lemma_first_min_nonneg_unique(
    xs: Seq<Intersection>,
    h1: Intersection,
    i1: int,
    h2: Intersection,
    i2: int,
)
    requires
        is_first_min_nonneg_at(xs, h1, i1),
        is_first_min_nonneg_at(xs, h2, i2),
    ensures
        h1 == h2,
        i1 == i2,
{
    if i1 < i2 {
        assert(xs[i1].t < 0 || xs[i1].t > h2.t);
        assert(h1.t <= xs[i2].t);
    }
    if i2 < i1 {
        assert(xs[i2].t < 0 || xs[i2].t > h1.t);
        assert(h2.t <= xs[i1].t);
    }
}

/// A list determines the first occurrence of a value completely.
pub proof fn lemma_first_occurrence_unique(xs: Seq<Intersection>, x: Intersection, k1: int, k2: int)
    requires
        is_first_occurrence(xs, x, k1),
        is_first_occurrence(xs, x, k2),
    ensures
        k1 == k2,
{
    if k1 < k2 {
        assert(xs[k1] != x);
    }
    if k2 < k1 {
        assert(xs[k2] != x);
    }
}

/// On a list sorted ascending by `t` the hit is simply the first entry
/// on the forward part of the ray: everything before it lies behind
/// the origin.
pub proof fn lemma_hit_on_sorted_is_first_nonneg(xs: Seq<Intersection>, h: Intersection, i: int)
    requires
        is_sorted_by_t(xs),
        is_first_min_nonneg_at(xs, h, i),
    ensures
        forall|j: int| 0 <= j < i ==> (#[trigger] xs[j]).t < 0,
        forall|j: int| i < j < xs.len() ==> (#[trigger] xs[j]).t >= h.t,
{
    assert forall|j: int| 0 <= j < i implies (#[trigger] xs[j]).t < 0 by {
        if xs[j].t >= 0 {
            assert(xs[j].t <= xs[i].t);
            assert(h.t <= xs[j].t);
        }
    }
}

/// The container stack with every occurrence of `obj` removed.
pub open spec fn without(containers: Seq<usize>, obj: usize) -> Seq<usize> {
    containers.filter(|o: usize| o != obj)
}

/// One surface crossing toggles whether the ray is inside that object:
/// an object already on the stack is being exited and leaves it, any
/// other is being entered and is pushed on top.
pub open spec fn toggle(containers: Seq<usize>, obj: usize) -> Seq<usize> {
    if containers.contains(obj) {
        without(containers, obj)
    } else {
        containers.push(obj)
    }
}

/// The stack of objects the ray is inside of after crossing the first
/// `k` intersections of `xs`, in the order they were entered.
pub open spec fn containers_after(xs: Seq<Intersection>, k: int) -> Seq<usize>
    decreases k,
{
    if k <= 0 {
        Seq::empty()
    } else {
        toggle(containers_after(xs, k - 1), xs[k - 1].object)
    }
}

/// The object whose medium surrounds the ray at this depth of the
/// container stack: the innermost entered object still on the stack, or
/// `None` for the enclosing vacuum.
pub open spec fn top_container(containers: Seq<usize>) -> Option<usize> {
    if containers.len() == 0 {
        None
    } else {
        Some(containers.last())
    }
}

/// `x` stands at position `k` of `xs` and at no earlier position.
pub open spec fn is_first_occurrence(xs: Seq<Intersection>, x: Intersection, k: int) -> bool {
    &&& 0 <= k < xs.len()
    &&& xs[k] == x
    &&& forall|j: int| 0 <= j < k ==> xs[j] != x
}

/// The pair holds the objects whose refractive media the ray leaves and
/// enters when it crosses intersection `k` of `xs`: the stack top just
/// before that crossing and just after it.
pub open spec fn is_n1_n2_at(
    xs: Seq<Intersection>,
    k: int,
    r: (Option<usize>, Option<usize>),
) -> bool {
    &&& r.0 == top_container(containers_after(xs, k))
    &&& r.1 == top_container(containers_after(xs, k + 1))
}

/// Crossing by crossing, the media chain up: the medium a ray enters
/// at one crossing is exactly the medium it leaves at the next crossing
/// of the same list.  This is what produces the documented `(n1, n2)`
/// sequences across nested transparent volumes.
pub proof fn lemma_media_chain(
    xs: Seq<Intersection>,
    k: int,
    r: (Option<usize>, Option<usize>),
    r_next: (Option<usize>, Option<usize>),
)
    requires
        is_n1_n2_at(xs, k, r),
        is_n1_n2_at(xs, k + 1, r_next),
    ensures
        r.1 == r_next.0,
{
}

proof fn lemma_without_keeps_no_duplicates(c: Seq<usize>, obj: usize)
    requires
        c.no_duplicates(),
    ensures
        without(c, obj).no_duplicates(),
        forall|x: usize| #[trigger] without(c, obj).contains(x) ==> c.contains(x),
    decreases c.len(),
{
    reveal_with_fuel(Seq::filter, 2);
    if c.len() == 0 {
        assert(without(c, obj) =~= c);
    } else {
        let rest = c.drop_last();
        let last = c.last();
        assert(rest.no_duplicates());
        lemma_without_keeps_no_duplicates(rest, obj);
        assert forall|x: usize| #[trigger] without(c, obj).contains(x) implies c.contains(x) by {
            let i = choose|i: int| 0 <= i < without(c, obj).len() && without(c, obj)[i] == x;
            if without(c, obj) == without(rest, obj) {
                assert(rest.contains(x));
                let j = choose|j: int| 0 <= j < rest.len() && rest[j] == x;
                assert(c[j] == x);
            } else {
                assert(without(c, obj) == without(rest, obj).push(last));
                if i < without(rest, obj).len() {
                    assert(without(rest, obj).contains(x));
                    assert(rest.contains(x));
                    let j = choose|j: int| 0 <= j < rest.len() && rest[j] == x;
                    assert(c[j] == x);
                } else {
                    assert(x == last);
                    assert(c[c.len() - 1] == x);
                }
            }
        }
        if last != obj {
            assert(without(c, obj) == without(rest, obj).push(last));
            assert(!rest.contains(last));
            assert(!without(rest, obj).contains(last));
        } else {
            assert(without(c, obj) == without(rest, obj));
        }
    }
}

proof fn lemma_toggle_keeps_no_duplicates(c: Seq<usize>, obj: usize)
    requires
        c.no_duplicates(),
    ensures
        toggle(c, obj).no_duplicates(),
    decreases c.len(),
{
    if c.contains(obj) {
        lemma_without_keeps_no_duplicates(c, obj);
    } else {
        assert forall|i: int, j: int|
            0 <= i < j < c.push(obj).len() implies c.push(obj)[i] != c.push(obj)[j] by {
            if j == c.len() {
                assert(c.push(obj)[i] == c[i]);
                assert(c.contains(c[i]));
            }
        }
    }
}

/// An object is never on the container stack twice: entering pushes it
/// only when it is absent, and exiting removes it entirely.  So the
/// "stack" really is the set of volumes the ray is currently inside
/// of, ordered by entry.
pub proof fn lemma_containers_no_duplicates(xs: Seq<Intersection>, k: int)
    ensures
        containers_after(xs, k).no_duplicates(),
    decreases k,
{
    if k <= 0 {
    } else {
        lemma_containers_no_duplicates(xs, k - 1);
        lemma_toggle_keeps_no_duplicates(containers_after(xs, k - 1), xs[k - 1].object);
    }
}

/// The container stack never invents objects: everything on it was hit
/// by one of the first `k` crossings.  In particular the media that
/// `compute_n1_n2` names are always objects of the intersection list
/// itself.
pub proof fn lemma_containers_are_crossed_objects(xs: Seq<Intersection>, k: int)
    requires
        k <= xs.len(),
    ensures
        forall|o: usize| #[trigger]
            containers_after(xs, k).contains(o) ==> exists|j: int|
                0 <= j < k && xs[j].object == o,
    decreases k,
{
    if k <= 0 {
    } else {
        lemma_containers_are_crossed_objects(xs, k - 1);
        let prev = containers_after(xs, k - 1);
        let obj = xs[k - 1].object;
        assert forall|o: usize| #[trigger] containers_after(xs, k).contains(o) implies exists|
            j: int,
        | 0 <= j < k && xs[j].object == o by {
            if prev.contains(obj) {
                lemma_without_keeps_contains(prev, obj);
                assert(prev.contains(o));
            } else {
                let i = choose|i: int| 0 <= i < prev.push(obj).len() && prev.push(obj)[i] == o;
                if i < prev.len() {
                    assert(prev.contains(o));
                } else {
                    assert(xs[k - 1].object == o);
                }
            }
        }
    }
}

proof fn lemma_without_keeps_contains(c: Seq<usize>, obj: usize)
    ensures
        forall|x: usize| #[trigger] without(c, obj).contains(x) ==> c.contains(x),
    decreases c.len(),
{
    reveal_with_fuel(Seq::filter, 2);
    if c.len() == 0 {
        assert(without(c, obj) =~= c);
    } else {
        let rest = c.drop_last();
        let last = c.last();
        lemma_without_keeps_contains(rest, obj);
        assert(without(c, obj) == if last != obj {
            without(rest, obj).push(last)
        } else {
            without(rest, obj)
        });
        assert forall|x: usize| #[trigger] without(c, obj).contains(x) implies c.contains(x) by {
            let i = choose|i: int| 0 <= i < without(c, obj).len() && without(c, obj)[i] == x;
            if i < without(rest, obj).len() {
                assert(without(rest, obj).contains(x));
                assert(rest.contains(x));
                let j = choose|j: int| 0 <= j < rest.len() && rest[j] == x;
                assert(c[j] == x);
            } else {
                assert(x == last);
                assert(c[c.len() - 1] == x);
            }
        }
    }
}

fn contains_object(containers: &Vec<usize>, obj: usize) -> (r: bool)
    ensures
        r == containers@.contains(obj),
{
    let mut k: usize = 0;
    while k < containers.len()
        invariant
            k <= containers@.len(),
            forall|j: int| 0 <= j < k ==> containers@[j] != obj,
        decreases containers@.len() - k,
    {
        if containers[k] == obj {
            assert(containers@[k as int] == obj);
            return true;
        }
        k += 1;
    }
    false
}

fn toggle_containers(containers: &mut Vec<usize>, obj: usize)
    ensures
        final(containers)@ == toggle(old(containers)@, obj),
{
    if contains_object(containers, obj) {
        let mut kept: Vec<usize> = Vec::new();
        let mut k: usize = 0;
        while k < containers.len()
            invariant
                k <= containers@.len(),
                kept@ == without(containers@.subrange(0, k as int), obj),
            decreases containers@.len() - k,
        {
            let ghost pre = containers@.subrange(0, k as int);
            let ghost post = containers@.subrange(0, k as int + 1);
            let c = containers[k];
            proof {
                reveal_with_fuel(Seq::filter, 2);
                assert(post.drop_last() =~= pre);
                assert(post.last() == c);
            }
            if c != obj {
                kept.push(c);
                assert(without(post, obj) == without(pre, obj).push(c));
            } else {
                assert(without(post, obj) == without(pre, obj));
            }
            k += 1;
        }
        proof {
            assert(containers@.subrange(0, containers@.len() as int) =~= containers@);
        }
        *containers = kept;
    } else {
        containers.push(obj);
    }
}

fn last_container(containers: &Vec<usize>) -> (r: Option<usize>)
    ensures
        r == top_container(containers@),
{
    if containers.len() == 0 {
        None
    } else {
        Some(containers[containers.len() - 1])
    }
}

impl Intersection {
    /// Creates an intersection from the ray parameter's order key and the
    /// index of the hit object.
    pub fn new(t: i64, object: usize) -> (r: Intersection)
        ensures
            r.t == t,
            r.object == object,
    {
        Intersection { t, object }
    }

    /// Computes the ingress and egress refraction containers for this
    /// intersection: the objects whose refractive indices are `n1` and
    /// `n2` of the crossing, `None` standing for the enclosing vacuum.
    ///
    /// `intersections` is the full, sorted intersection list of the ray
    /// this intersection came from.  The walk crosses the listed surfaces
    /// in order, toggling stack membership of each hit object, and reads
    /// the stack top just before and just after the first entry equal to
    /// `self`.
    pub fn compute_n1_n2(&self, intersections: &Vec<Intersection>) -> (r: (
        Option<usize>,
        Option<usize>,
    ))
        requires
            intersections@.contains(*self),
        ensures
            exists|k: int|
                #[trigger] is_first_occurrence(intersections@, *self, k) && is_n1_n2_at(
                    intersections@,
                    k,
                    r,
                ),
    {
        let mut containers: Vec<usize> = Vec::new();
        let n = intersections.len();
        let mut k: usize = 0;
        while k < n
            invariant
                k <= n,
                n == intersections@.len(),
                intersections@.contains(*self),
                containers@ == containers_after(intersections@, k as int),
                forall|j: int| 0 <= j < k ==> intersections@[j] != *self,
            decreases n - k,
        {
            let intersection = intersections[k];
            if intersection == *self {
                let n1 = last_container(&containers);
                toggle_containers(&mut containers, intersection.object);
                let n2 = last_container(&containers);
                proof {
                    assert(containers@ == containers_after(intersections@, k as int + 1));
                    assert(is_first_occurrence(intersections@, *self, k as int));
                    assert(is_n1_n2_at(intersections@, k as int, (n1, n2)));
                }
                return (n1, n2);
            }
            toggle_containers(&mut containers, intersection.object);
            k += 1;
        }
        proof {
            let j = choose|j: int| 0 <= j < intersections@.len() && intersections@[j] == *self;
            assert(false);
        }
        unreached()
    }
}

/// Computes the first (from the viewpoint of the origin of a ray) hit of
/// the ray out of several intersections: the intersection with the lowest
/// non-negative `t`, the earliest listed on an exact tie.
/// Use this to determine the object a camera actually sees.
pub fn hit(intersections: &Vec<Intersection>) -> (r: Option<Intersection>)
    ensures
        r is Some <==> has_hit(intersections@),
        r matches Some(h) ==> exists|i: int|
            #[trigger] is_first_min_nonneg_at(intersections@, h, i),
{
    let mut lowest_non_neg_opt: Option<Intersection> = None;
    let ghost mut wi: int = 0;
    let n = intersections.len();

    let mut k: usize = 0;
    while k < n
        invariant
            k <= n,
            n == intersections@.len(),
            lowest_non_neg_opt is None ==> forall|j: int|
                0 <= j < k ==> (#[trigger] intersections@[j]).t < 0,
            lowest_non_neg_opt matches Some(b) ==> {
                &&& 0 <= wi < k
                &&& intersections@[wi] == b
                &&& b.t >= 0
                &&& forall|j: int|
                    0 <= j < k && (#[trigger] intersections@[j]).t >= 0 ==> b.t
                        <= intersections@[j].t
                &&& forall|j: int|
                    0 <= j < wi ==> (#[trigger] intersections@[j]).t < 0 || intersections@[j].t
                        > b.t
            },
        decreases n - k,
    {
        let intersection = intersections[k];
        if intersection.t >= 0 {
            match &lowest_non_neg_opt {
                None => {
                    lowest_non_neg_opt = Some(intersection);
                    proof {
                        wi = k as int;
                    }
                },
                Some(lowest_non_neg) => {
                    if intersection.t < lowest_non_neg.t {
                        lowest_non_neg_opt = Some(intersection);
                        proof {
                            wi = k as int;
                        }
                    }
                },
            }
        }
        k += 1;
    }
    proof {
        match lowest_non_neg_opt {
            Some(b) => {
                assert(is_first_min_nonneg_at(intersections@, b, wi));
            },
            None => {},
        }
    }
    lowest_non_neg_opt
}

/// Computes the first (from the viewpoint of the origin of a ray) hit of
/// the ray out of several intersections: the intersection with the lowest
/// non-negative `t`, the latest listed on an exact tie.
///
/// This function consumes the contents of the "intersections" vector.
/// You can, however, re-use it later, which reduces the number of vector
/// allocations for intersections.
pub fn consuming_hit(intersections: &mut Vec<Intersection>) -> (r: Option<Intersection>)
    ensures
        final(intersections)@.len() == 0,
        r is Some <==> has_hit(old(intersections)@),
        r matches Some(h) ==> exists|i: int|
            #[trigger] is_last_min_nonneg_at(old(intersections)@, h, i),
{
    let mut lowest_non_neg_opt: Option<Intersection> = None;
    let ghost mut wi: int = 0;
    let ghost all = old(intersections)@;

    while intersections.len() > 0
        invariant
            intersections@.len() <= all.len(),
            intersections@ == all.subrange(0, intersections@.len() as int),
            lowest_non_neg_opt is None ==> forall|j: int|
                intersections@.len() <= j < all.len() ==> (#[trigger] all[j]).t < 0,
            lowest_non_neg_opt matches Some(b) ==> {
                &&& intersections@.len() <= wi < all.len()
                &&& all[wi] == b
                &&& b.t >= 0
                &&& forall|j: int|
                    intersections@.len() <= j < all.len() && (#[trigger] all[j]).t >= 0 ==> b.t
                        <= all[j].t
                &&& forall|j: int|
                    wi < j < all.len() ==> (#[trigger] all[j]).t < 0 || all[j].t > b.t
            },
        decreases intersections@.len(),
    {
        let ghost m = intersections@.len() as int;
        let intersection = intersections.pop().unwrap();
        proof {
            assert(intersections@ =~= all.subrange(0, m - 1));
            assert(intersection == all[m - 1]);
        }
        if intersection.t < 0 {
            continue ;
        }
        match &mut lowest_non_neg_opt {
            None => {
                lowest_non_neg_opt = Some(intersection);
                proof {
                    wi = m - 1;
                }
            },
            Some(lowest_non_neg) => {
                if intersection.t < lowest_non_neg.t {
                    lowest_non_neg_opt = Some(intersection);
                    proof {
                        wi = m - 1;
                    }
                }
            },
        }
    }
    proof {
        match lowest_non_neg_opt {
            Some(b) => {
                assert(is_last_min_nonneg_at(all, b, wi));
            },
            None => {},
        }
    }
    lowest_non_neg_opt
}

} // verus!
