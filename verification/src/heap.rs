use vstd::prelude::*;
use crate::value::{Value, ObjHandle};
use crate::object::{Object, child_values, refers_to, size_estimate, obj_wf};

verus! {

broadcast use vstd::std_specs::vec::group_vec_axioms;

/// A heap slot: free (and linked into the free list) or holding an object
/// with its mark bit.
pub enum ObjectEntry {
    Free { next_free: Option<usize> },
    Allocated { object: Object, marked: bool },
}

/// A heap of objects addressed by slot index, with a free list of slots to
/// reuse and a mark-and-sweep collector.
pub struct Heap {
    objects: Vec<ObjectEntry>,
    free_head: Option<usize>,
    gray_stack: Vec<usize>,
    bytes_allocated: usize,
    next_gc: usize,
    /// The free slots in the order the free list links them.
    free_list: Ghost<Seq<usize>>,
}

// ---------------------------------------------------------------------------
// The model: the live objects, the mark set, the gray stack, the free list.
// ---------------------------------------------------------------------------

pub open spec fn entry_is_live(e: ObjectEntry) -> bool {
    e is Allocated
}

pub open spec fn entry_is_marked(e: ObjectEntry) -> bool {
    e matches ObjectEntry::Allocated { marked: true, .. }
}

pub open spec fn entries_live(objs: Seq<ObjectEntry>) -> Map<int, Object> {
    Map::new(|i: int| 0 <= i < objs.len() && entry_is_live(objs[i]), |i: int| objs[i]->object)
}

pub open spec fn entries_marked(objs: Seq<ObjectEntry>) -> Set<int> {
    Set::new(|i: int| 0 <= i < objs.len() && entry_is_marked(objs[i]))
}

pub open spec fn free_list_ok(objs: Seq<ObjectEntry>, fl: Seq<usize>, head: Option<usize>) -> bool {
    &&& head == (if fl.len() == 0 { None::<usize> } else { Some(fl[0]) })
    &&& forall|i: int| 0 <= i < fl.len() ==> (#[trigger] fl[i]) < objs.len()
    &&& forall|i: int| 0 <= i < fl.len() ==> objs[#[trigger] fl[i] as int] == (ObjectEntry::Free {
        next_free: if i + 1 < fl.len() { Some(fl[i + 1]) } else { None },
    })
    &&& forall|i: int, j: int| 0 <= i < fl.len() && 0 <= j < fl.len() && i != j ==> #[trigger] fl[i] != #[trigger] fl[j]
    &&& forall|k: int| 0 <= k < objs.len() && objs[k] is Free ==> #[trigger] fl.contains(k as usize)
}

/// Every marked object still on the gray stack may have unmarked children;
/// every other marked object has all its live children marked.
pub open spec fn tricolor(live: Map<int, Object>, marked: Set<int>, gray: Seq<usize>) -> bool {
    forall|x: int, c: usize| #![trigger marked.contains(x), refers_to(live[x], c)]
        marked.contains(x) && !gray.contains(x as usize) && live.dom().contains(x) && refers_to(live[x], c)
            && live.dom().contains(c as int) ==> marked.contains(c as int)
}

/// `p` is a path of live objects, each referring to the next.
pub open spec fn is_path(live: Map<int, Object>, p: Seq<int>) -> bool {
    &&& p.len() > 0
    &&& forall|i: int| 0 <= i < p.len() ==> live.dom().contains(#[trigger] p[i])
    &&& forall|i: int| 0 <= i < p.len() - 1 ==> refers_to(live[#[trigger] p[i]], p[i + 1] as usize)
}

/// `x` can be reached from `roots` through live objects.
pub open spec fn reachable(live: Map<int, Object>, roots: Set<int>, x: int) -> bool {
    exists|p: Seq<int>| is_path(live, p) && roots.contains(p[0]) && #[trigger] p.last() == x
}

/// The set of objects reachable from `roots`.
pub open spec fn reachable_set(live: Map<int, Object>, roots: Set<int>) -> Set<int> {
    Set::new(|x: int| reachable(live, roots, x))
}

pub open spec fn sat_sub(a: usize, b: usize) -> usize {
    if a >= b { (a - b) as usize } else { 0 }
}

/// The byte count after sweeping the first `n` slots: each unmarked live
/// object subtracts its estimate, stopping at zero.
pub open spec fn swept_bytes(live: Map<int, Object>, marked: Set<int>, n: nat, b: usize) -> usize
    decreases n,
{
    if n == 0 {
        b
    } else {
        let b1 = swept_bytes(live, marked, (n - 1) as nat, b);
        if live.dom().contains(n - 1) && !marked.contains(n - 1) {
            sat_sub(b1, size_estimate(live[n - 1], 16))
        } else {
            b1
        }
    }
}

/// The slots that sweeping the first `n` slots frees, latest first (the
/// order in which they head the free list).
pub open spec fn swept_slots(live: Map<int, Object>, marked: Set<int>, n: nat) -> Seq<usize>
    decreases n,
{
    if n == 0 {
        Seq::empty()
    } else {
        let s = swept_slots(live, marked, (n - 1) as nat);
        if live.dom().contains(n - 1) && !marked.contains(n - 1) {
            seq![(n - 1) as usize] + s
        } else {
            s
        }
    }
}

/// A child that is a live object is marked.
pub open spec fn child_marked(v: Value, live: Map<int, Object>, marked: Set<int>) -> bool {
    match v {
        Value::Obj(h) => live.dom().contains(h.0 as int) ==> marked.contains(h.0 as int),
        _ => true,
    }
}

/// The slots on a gray stack, as a set.
pub open spec fn gray_set(g: Seq<usize>) -> Set<int> {
    Set::new(|x: int| exists|i: int| 0 <= i < g.len() && g[i] as int == x)
}

/// The slots a sweep of the first `n` slots frees are below `n`.
pub proof fn lemma_swept_slots_bound(live: Map<int, Object>, marked: Set<int>, n: nat)
    ensures
        forall|k: int| 0 <= k < swept_slots(live, marked, n).len() ==> (#[trigger] swept_slots(live, marked, n)[k]) < n,
    decreases n,
{
    if n > 0 {
        lemma_swept_slots_bound(live, marked, (n - 1) as nat);
        let s = swept_slots(live, marked, (n - 1) as nat);
        if live.dom().contains(n - 1) && !marked.contains(n - 1) {
            assert forall|k: int| 0 <= k < swept_slots(live, marked, n).len() implies (#[trigger] swept_slots(live, marked, n)[k]) < n by {
                if k > 0 {
                    assert(swept_slots(live, marked, n)[k] == s[k - 1]);
                }
            }
        }
    }
}

/// The objects that survive a sweep: the marked ones.
pub open spec fn survivors(live: Map<int, Object>, marked: Set<int>) -> Map<int, Object> {
    live.restrict(marked)
}

/// Like `tricolor`, with the object `ex` exempt.
#[verifier::opaque]
pub open spec fn tricolor_except(live: Map<int, Object>, marked: Set<int>, gray: Seq<usize>, ex: int) -> bool {
    forall|x: int, c: usize| #![trigger marked.contains(x), refers_to(live[x], c)]
        marked.contains(x) && !gray.contains(x as usize) && x != ex && live.dom().contains(x)
            && refers_to(live[x], c) && live.dom().contains(c as int) ==> marked.contains(c as int)
}

/// What marking keeps true: the marks only grow, each new mark is reachable
/// from the first gray slots, and so is each gray slot.
#[verifier::opaque]
pub open spec fn trace_sound(live0: Map<int, Object>, g0: Set<int>, m0: Set<int>, marked: Set<int>, gray: Seq<usize>) -> bool {
    &&& m0.subset_of(marked)
    &&& forall|x: int| #[trigger] marked.contains(x) ==> m0.contains(x) || reachable(live0, g0, x)
    &&& forall|i: int| 0 <= i < gray.len() ==> reachable(live0, g0, #[trigger] gray[i] as int)
}

/// No slot below `i` that is live and unmarked.
pub open spec fn garbage_below(live: Map<int, Object>, marked: Set<int>, i: int) -> Set<int> {
    Set::new(|x: int| 0 <= x < i && live.dom().contains(x) && !marked.contains(x))
}

/// The state of a sweep that has handled the slots below `i`.
#[verifier::opaque]
pub open spec fn sweep_progress(objs0: Seq<ObjectEntry>, objs: Seq<ObjectEntry>, m0: Set<int>, i: int) -> bool {
    &&& objs.len() == objs0.len()
    &&& forall|k: int| i <= k < objs.len() ==> #[trigger] objs[k] == objs0[k]
    &&& forall|k: int| 0 <= k < i ==> (#[trigger] objs[k] is Allocated <==> m0.contains(k))
    &&& forall|k: int| 0 <= k < i && m0.contains(k) ==> #[trigger] objs[k] == (ObjectEntry::Allocated {
        object: objs0[k]->object,
        marked: false,
    })
}

pub proof fn lemma_tricolor_except_of(live: Map<int, Object>, marked: Set<int>, gray: Seq<usize>)
    requires
        forall|x: int| #[trigger] live.dom().contains(x) ==> x >= 0,
    ensures
        tricolor(live, marked, gray) <==> tricolor_except(live, marked, gray, -1),
{
    reveal(tricolor_except);
}

pub proof fn lemma_trace_start(live0: Map<int, Object>, m0: Set<int>, gray: Seq<usize>)
    requires
        forall|i: int| 0 <= i < gray.len() ==> live0.dom().contains(#[trigger] gray[i] as int),
    ensures
        trace_sound(live0, gray_set(gray), m0, m0, gray),
{
    reveal(trace_sound);
    assert forall|i: int| 0 <= i < gray.len() implies reachable(live0, gray_set(gray), #[trigger] gray[i] as int) by {
        let x = gray[i] as int;
        let p = seq![x];
        assert(is_path(live0, p));
        assert(gray_set(gray).contains(p[0]));
        assert(p.last() == x);
    }
}

pub proof fn lemma_refers_at(o: Object, j: int, h: ObjHandle)
    requires
        0 <= j < child_values(o).len(),
        child_values(o)[j] == Value::Obj(h),
    ensures
        refers_to(o, h.0),
{
    assert(child_values(o)[j] == Value::Obj(ObjHandle(h.0)));
}

pub proof fn lemma_mark_step(
    live0: Map<int, Object>,
    g0: Set<int>,
    m0: Set<int>,
    mk: Set<int>,
    gk: Seq<usize>,
    m2: Set<int>,
    g2: Seq<usize>,
    h: usize,
    parent: usize,
)
    requires
        tricolor_except(live0, mk, gk, parent as int),
        trace_sound(live0, g0, m0, mk, gk),
        mk.finite(),
        mk.contains(parent as int),
        live0.dom().contains(parent as int),
        !gk.contains(parent),
                reachable(live0, g0, parent as int),
        refers_to(live0[parent as int], h),
        if live0.dom().contains(h as int) && !mk.contains(h as int) {
            m2 == mk.insert(h as int) && g2 == gk.push(h)
        } else {
            m2 == mk && g2 == gk
        },
    ensures
        tricolor_except(live0, m2, g2, parent as int),
        trace_sound(live0, g0, m0, m2, g2),
        child_marked(Value::Obj(ObjHandle(h)), live0, m2),
        m2.contains(parent as int),
        !g2.contains(parent),
        m2.finite(),
        m2.len() + gk.len() == mk.len() + g2.len(),
{
    let parent_i = parent as int;
    reveal(tricolor_except);
    reveal(trace_sound);
    if live0.dom().contains(h as int) && !mk.contains(h as int) {
        let p = choose|p: Seq<int>| is_path(live0, p) && g0.contains(p[0]) && #[trigger] p.last() == parent_i;
        let q = p.push(h as int);
        assert forall|i: int| 0 <= i < q.len() - 1 implies refers_to(live0[#[trigger] q[i]], q[i + 1] as usize) by {
            if i < p.len() - 1 {
                assert(q[i] == p[i]);
                assert(q[i + 1] == p[i + 1]);
            } else {
                assert(q[i] == parent_i);
            }
        }
        assert forall|i: int| 0 <= i < q.len() implies live0.dom().contains(#[trigger] q[i]) by {
            if i < p.len() {
                assert(q[i] == p[i]);
            }
        }
        assert(is_path(live0, q));
        assert(q.last() == h as int);
        assert(q[0] == p[0]);
        assert(reachable(live0, g0, h as int));
        assert forall|i: int| 0 <= i < g2.len() implies reachable(live0, g0, #[trigger] g2[i] as int) by {
            if i < gk.len() {
                assert(g2[i] == gk[i]);
            }
        }
        assert forall|x: int, c: usize| #![trigger m2.contains(x), refers_to(live0[x], c)]
            m2.contains(x) && !g2.contains(x as usize) && x != parent_i && live0.dom().contains(x)
                && refers_to(live0[x], c) && live0.dom().contains(c as int) implies m2.contains(c as int) by {
            if x == h as int {
                assert(g2[g2.len() - 1] == h);
            } else {
                assert(mk.contains(x));
                assert(!gk.contains(x as usize)) by {
                    if gk.contains(x as usize) {
                        let k = choose|k: int| 0 <= k < gk.len() && gk[k] == x as usize;
                        assert(g2[k] == gk[k]);
                    }
                }
            }
        }
        assert(!g2.contains(parent)) by {
            if g2.contains(parent) {
                let k = choose|k: int| 0 <= k < g2.len() && g2[k] == parent;
                if k < gk.len() {
                    assert(gk[k] == parent);
                } else {
                    assert(g2[k] == h);
                }
            }
        }
    }
}

pub proof fn lemma_close_parent(live0: Map<int, Object>, marked: Set<int>, gray: Seq<usize>, idx: int, children: Seq<Value>)
    requires
        tricolor_except(live0, marked, gray, idx),
        children == child_values(live0[idx]),
        forall|k: int| 0 <= k < children.len() ==> child_marked(#[trigger] children[k], live0, marked),
    ensures
        tricolor_except(live0, marked, gray, -1),
{
    reveal(tricolor_except);
    assert forall|x: int, c: usize| #![trigger marked.contains(x), refers_to(live0[x], c)]
        marked.contains(x) && !gray.contains(x as usize) && x != -1 && live0.dom().contains(x)
            && refers_to(live0[x], c) && live0.dom().contains(c as int) implies marked.contains(c as int) by {
        if x == idx {
            let k = choose|k: int| 0 <= k < child_values(live0[x]).len() && #[trigger] child_values(live0[x])[k] == Value::Obj(ObjHandle(c));
            assert(child_marked(children[k], live0, marked));
        }
    }
}

pub proof fn lemma_garbage_step(live: Map<int, Object>, marked: Set<int>, i: int)
    requires
        garbage_below(live, marked, i).finite(),
        i >= 0,
    ensures
        garbage_below(live, marked, i + 1) == (if live.dom().contains(i) && !marked.contains(i) {
            garbage_below(live, marked, i).insert(i)
        } else {
            garbage_below(live, marked, i)
        }),
        garbage_below(live, marked, i + 1).finite(),
        !garbage_below(live, marked, i).contains(i),
        live.dom().contains(i) && !marked.contains(i) ==> garbage_below(live, marked, i + 1).len() == garbage_below(live, marked, i).len() + 1,
        !(live.dom().contains(i) && !marked.contains(i)) ==> garbage_below(live, marked, i + 1).len() == garbage_below(live, marked, i).len(),
{
    if live.dom().contains(i) && !marked.contains(i) {
        assert(garbage_below(live, marked, i + 1) =~= garbage_below(live, marked, i).insert(i));
    } else {
        assert(garbage_below(live, marked, i + 1) =~= garbage_below(live, marked, i));
    }
}

pub proof fn lemma_free_push(objs_i: Seq<ObjectEntry>, objs: Seq<ObjectEntry>, fl_i: Seq<usize>, head: Option<usize>, i: usize)
    requires
        free_list_ok(objs_i, fl_i, head),
        0 <= i < objs_i.len(),
        objs_i[i as int] is Allocated,
        objs == objs_i.update(i as int, ObjectEntry::Free { next_free: head }),
    ensures
        free_list_ok(objs, seq![i] + fl_i, Some(i)),
{
    let fl = seq![i] + fl_i;
    assert(!fl_i.contains(i)) by {
        if fl_i.contains(i) {
            let k = choose|k: int| 0 <= k < fl_i.len() && fl_i[k] == i;
            assert(objs_i[fl_i[k] as int] is Free);
        }
    }
    assert forall|k: int| 0 <= k < fl.len() implies objs[#[trigger] fl[k] as int] == (ObjectEntry::Free {
        next_free: if k + 1 < fl.len() { Some(fl[k + 1]) } else { None },
    }) by {
        if k > 0 {
            assert(fl[k] == fl_i[k - 1]);
            assert(fl_i[k - 1] != i);
        } else {
            if fl_i.len() > 0 {
                assert(fl[1] == fl_i[0]);
            }
        }
    }
    assert forall|a: int, b: int| 0 <= a < fl.len() && 0 <= b < fl.len() && a != b implies #[trigger] fl[a] != #[trigger] fl[b] by {
        if a > 0 && b > 0 {
            assert(fl[a] == fl_i[a - 1]);
            assert(fl[b] == fl_i[b - 1]);
        } else if a == 0 {
            assert(fl[b] == fl_i[b - 1]);
        } else {
            assert(fl[a] == fl_i[a - 1]);
        }
    }
    assert forall|k: int| 0 <= k < fl.len() implies (#[trigger] fl[k]) < objs.len() by {
        if k > 0 {
            assert(fl[k] == fl_i[k - 1]);
        }
    }
    assert forall|k: int| 0 <= k < objs.len() && objs[k] is Free implies #[trigger] fl.contains(k as usize) by {
        if k != i as int {
            assert(objs_i[k] is Free);
            assert(fl_i.contains(k as usize));
            let a = choose|a: int| 0 <= a < fl_i.len() && fl_i[a] == k as usize;
            assert(fl[a + 1] == k as usize);
        } else {
            assert(fl[0] == i);
        }
    }
}

pub proof fn lemma_free_keep(objs_i: Seq<ObjectEntry>, objs: Seq<ObjectEntry>, fl: Seq<usize>, head: Option<usize>, i: int)
    requires
        free_list_ok(objs_i, fl, head),
        0 <= i < objs_i.len(),
        objs.len() == objs_i.len(),
        forall|k: int| 0 <= k < objs.len() && k != i ==> objs[k] == objs_i[k],
        objs[i] == objs_i[i] || (objs_i[i] is Allocated && objs[i] is Allocated),
    ensures
        free_list_ok(objs, fl, head),
{
    assert forall|k: int| 0 <= k < fl.len() implies objs[#[trigger] fl[k] as int] == (ObjectEntry::Free {
        next_free: if k + 1 < fl.len() { Some(fl[k + 1]) } else { None },
    }) by {
        assert(objs_i[fl[k] as int] is Free);
    }
    assert forall|k: int| 0 <= k < objs.len() && objs[k] is Free implies #[trigger] fl.contains(k as usize) by {
        assert(objs_i[k] is Free);
    }
}

pub proof fn lemma_sweep_progress_free(objs0: Seq<ObjectEntry>, objs_i: Seq<ObjectEntry>, objs: Seq<ObjectEntry>, m0: Set<int>, i: int)
    requires
        sweep_progress(objs0, objs_i, m0, i),
        0 <= i < objs0.len(),
        !m0.contains(i),
        objs.len() == objs_i.len(),
        objs[i] is Free,
        forall|k: int| 0 <= k < objs.len() && k != i ==> objs[k] == objs_i[k],
    ensures
        sweep_progress(objs0, objs, m0, i + 1),
{
    reveal(sweep_progress);
}

pub proof fn lemma_sweep_progress_keep(objs0: Seq<ObjectEntry>, objs_i: Seq<ObjectEntry>, objs: Seq<ObjectEntry>, m0: Set<int>, i: int)
    requires
        sweep_progress(objs0, objs_i, m0, i),
        0 <= i < objs0.len(),
        m0 == entries_marked(objs0),
        !(objs0[i] is Allocated && !m0.contains(i)),
        objs.len() == objs_i.len(),
        objs0[i] is Allocated ==> objs[i] == (ObjectEntry::Allocated { object: objs0[i]->object, marked: false }),
        objs0[i] is Free ==> objs[i] == objs0[i],
        forall|k: int| 0 <= k < objs.len() && k != i ==> objs[k] == objs_i[k],
    ensures
        sweep_progress(objs0, objs, m0, i + 1),
{
    reveal(sweep_progress);
}

pub proof fn lemma_pop_gray(
    live0: Map<int, Object>,
    g0: Set<int>,
    m0: Set<int>,
    marked: Set<int>,
    gray_before: Seq<usize>,
    g: Seq<usize>,
    idx: usize,
)
    requires
        g == gray_before.drop_last(),
        gray_before.len() > 0,
        idx == gray_before.last(),
        gray_before.no_duplicates(),
        tricolor_except(live0, marked, gray_before, -1),
        trace_sound(live0, g0, m0, marked, gray_before),
        forall|i: int| 0 <= i < gray_before.len() ==> marked.contains(#[trigger] gray_before[i] as int),
        marked.subset_of(live0.dom()),
        forall|x: int| #[trigger] live0.dom().contains(x) ==> 0 <= x <= usize::MAX,
    ensures
        marked.contains(idx as int),
        live0.dom().contains(idx as int),
        !g.contains(idx),
        reachable(live0, g0, idx as int),
        tricolor_except(live0, marked, g, idx as int),
        trace_sound(live0, g0, m0, marked, g),
        g.no_duplicates(),
        forall|i: int| 0 <= i < g.len() ==> marked.contains(#[trigger] g[i] as int),
{
    reveal(tricolor_except);
    reveal(trace_sound);
    assert(gray_before[gray_before.len() - 1] == idx);
    assert(!g.contains(idx)) by {
        if g.contains(idx) {
            let k = choose|k: int| 0 <= k < g.len() && g[k] == idx;
            assert(gray_before[k] == gray_before[gray_before.len() - 1]);
        }
    }
    assert forall|i: int| 0 <= i < g.len() implies marked.contains(#[trigger] g[i] as int) by {
        assert(g[i] == gray_before[i]);
    }
    assert forall|i: int| 0 <= i < g.len() implies reachable(live0, g0, #[trigger] g[i] as int) by {
        assert(g[i] == gray_before[i]);
    }
    assert(reachable(live0, g0, gray_before[gray_before.len() - 1] as int));
    assert forall|x: int, c: usize| #![trigger marked.contains(x), refers_to(live0[x], c)]
        marked.contains(x) && !g.contains(x as usize) && x != idx as int
            && live0.dom().contains(x) && refers_to(live0[x], c) && live0.dom().contains(c as int)
            implies marked.contains(c as int) by {
        if gray_before.contains(x as usize) {
            let k = choose|k: int| 0 <= k < gray_before.len() && gray_before[k] == x as usize;
            if k < g.len() {
                assert(g[k] == x as usize);
            }
        }
    }
}

pub proof fn lemma_sweep_progress_at(objs0: Seq<ObjectEntry>, objs: Seq<ObjectEntry>, m0: Set<int>, i: int)
    requires
        sweep_progress(objs0, objs, m0, i),
        0 <= i < objs0.len(),
    ensures
        objs[i] == objs0[i],
        objs.len() == objs0.len(),
{
    reveal(sweep_progress);
}

pub proof fn lemma_sweep_done(objs0: Seq<ObjectEntry>, objs: Seq<ObjectEntry>, m0: Set<int>, live0: Map<int, Object>)
    requires
        sweep_progress(objs0, objs, m0, objs0.len() as int),
        live0 == entries_live(objs0),
        m0 == entries_marked(objs0),
    ensures
        entries_live(objs) == survivors(live0, m0),
        entries_marked(objs) == Set::<int>::empty(),
        garbage_below(live0, m0, objs0.len() as int) == live0.dom().difference(m0),
{
    reveal(sweep_progress);
    assert(entries_live(objs) =~= survivors(live0, m0));
    assert(entries_marked(objs) =~= Set::<int>::empty());
    assert(garbage_below(live0, m0, objs0.len() as int) =~= live0.dom().difference(m0));
}

impl Heap {
    /// The live objects, by slot.
    pub closed spec fn live(&self) -> Map<int, Object> {
        entries_live(self.objects@)
    }

    /// The marked slots.
    pub closed spec fn marked(&self) -> Set<int> {
        entries_marked(self.objects@)
    }

    /// The gray stack of the collector's marking phase.
    pub closed spec fn gray(&self) -> Seq<usize> {
        self.gray_stack@
    }

    /// The number of slots, free or not.
    pub closed spec fn slots(&self) -> nat {
        self.objects@.len()
    }

    /// The free slots, in the order in which allocation reuses them.
    pub closed spec fn free_slots(&self) -> Seq<usize> {
        self.free_list@
    }

    pub closed spec fn bytes(&self) -> usize {
        self.bytes_allocated
    }

    pub closed spec fn gc_threshold(&self) -> usize {
        self.next_gc
    }

    pub closed spec fn wf(&self) -> bool {
        &&& free_list_ok(self.objects@, self.free_list@, self.free_head)
        &&& forall|i: int| 0 <= i < self.gray_stack@.len() ==> entries_marked(self.objects@).contains(
            #[trigger] self.gray_stack@[i] as int,
        )
        &&& self.gray_stack@.no_duplicates()
        &&& forall|i: int| #[trigger] entries_live(self.objects@).dom().contains(i) ==> obj_wf(entries_live(self.objects@)[i])
    }

    /// No marks and nothing gray: the state outside a collection.
    pub open spec fn idle(&self) -> bool {
        &&& self.marked() == Set::<int>::empty()
        &&& self.gray().len() == 0
    }

    /// Facts of every well-formed heap: marks are on live slots, the gray
    /// stack holds marked slots, the free slots are the dead ones.
    pub proof fn lemma_wf(&self)
        requires
            self.wf(),
        ensures
            self.marked().subset_of(self.live().dom()),
            forall|i: int| 0 <= i < self.gray().len() ==> self.marked().contains(#[trigger] self.gray()[i] as int),
            forall|i: int| #![trigger self.live().dom().contains(i)] self.live().dom().contains(i) ==> 0 <= i < self.slots(),
            forall|i: int| 0 <= i < self.free_slots().len() ==> !self.live().dom().contains(#[trigger] self.free_slots()[i] as int)
                && self.free_slots()[i] < self.slots(),
            forall|i: int| 0 <= i < self.slots() && !self.live().dom().contains(i) ==> #[trigger] self.free_slots().contains(i as usize),
            self.marked().finite(),
            self.marked().len() <= self.slots(),
            self.idle() ==> tricolor(self.live(), self.marked(), self.gray()),
            self.gray().no_duplicates(),
            self.slots() <= usize::MAX,
            forall|x: int| #[trigger] self.live().dom().contains(x) ==> 0 <= x <= usize::MAX,
            forall|x: int| #[trigger] self.live().dom().contains(x) ==> obj_wf(self.live()[x]),
    {
        let objs = self.objects@;
        let fl = self.free_list@;
        assert(self.objects.len() as int == self.objects@.len());
        assert forall|i: int| 0 <= i < fl.len() implies !self.live().dom().contains(#[trigger] fl[i] as int) && fl[i] < self.slots() by {
            assert(objs[fl[i] as int] is Free);
        }
        assert forall|i: int| 0 <= i < self.slots() && !self.live().dom().contains(i) implies #[trigger] fl.contains(i as usize) by {
            assert(objs[i] is Free);
        }
        vstd::set_lib::lemma_int_range(0, objs.len() as int);
        assert(self.marked().subset_of(vstd::set_lib::set_int_range(0, objs.len() as int)));
        vstd::set_lib::lemma_len_subset(self.marked(), vstd::set_lib::set_int_range(0, objs.len() as int));
    }

    pub fn new() -> (h: Heap)
        ensures
            h.wf(),
            h.idle(),
            h.live() == Map::<int, Object>::empty(),
            h.slots() == 0,
            h.free_slots().len() == 0,
            h.bytes() == 0,
            h.gc_threshold() == 1024 * 1024,
    {
        let h = Heap {
            objects: Vec::with_capacity(1024),
            free_head: None,
            gray_stack: Vec::new(),
            bytes_allocated: 0,
            next_gc: 1024 * 1024,
            free_list: Ghost(Seq::empty()),
        };
        assert(h.live() =~= Map::<int, Object>::empty());
        assert(h.marked() =~= Set::<int>::empty());
        h
    }

    /// Stores `object` in a free slot, the head of the free list if there is
    /// one and a new slot at the end otherwise, unmarked. The byte count
    /// grows by the object's estimate, stopping at `usize::MAX`.
    pub fn allocate(&mut self, object: Object) -> (h: ObjHandle)
        requires
            old(self).wf(),
            obj_wf(object),
        ensures
            final(self).wf(),
            h.0 == (if old(self).free_slots().len() > 0 { old(self).free_slots()[0] as int } else { old(self).slots() as int }),
            !old(self).live().dom().contains(h.0 as int),
            final(self).live() == old(self).live().insert(h.0 as int, object),
            final(self).marked() == old(self).marked(),
            final(self).gray() == old(self).gray(),
            final(self).slots() == (if old(self).free_slots().len() > 0 { old(self).slots() } else { old(self).slots() + 1 }),
            final(self).free_slots() == (if old(self).free_slots().len() > 0 { old(self).free_slots().drop_first() } else { old(self).free_slots() }),
            final(self).bytes() as int == if old(self).bytes() + size_estimate(object, 16) <= usize::MAX {
                old(self).bytes() + size_estimate(object, 16)
            } else {
                usize::MAX as int
            },
            final(self).gc_threshold() == old(self).gc_threshold(),
    {
        let size = object.estimate_size(16);
        let ghost objs0 = self.objects@;
        let ghost fl = self.free_list@;
        proof { self.lemma_wf(); }
        match self.free_head {
            Some(idx) => {
                assert(fl[0] == idx);
                let next = match &self.objects[idx] {
                    ObjectEntry::Free { next_free } => *next_free,
                    ObjectEntry::Allocated { .. } => None,
                };
                self.free_head = next;
                self.objects.set(idx, ObjectEntry::Allocated { object, marked: false });
                self.bytes_allocated = self.bytes_allocated.saturating_add(size);
                self.free_list = Ghost(fl.drop_first());
                proof {
                    let objs = self.objects@;
                    let nfl = self.free_list@;
                    assert forall|i: int| 0 <= i < nfl.len() implies objs[#[trigger] nfl[i] as int] == (ObjectEntry::Free {
                        next_free: if i + 1 < nfl.len() { Some(nfl[i + 1]) } else { None },
                    }) by {
                        assert(nfl[i] == fl[i + 1]);
                        assert(fl[i + 1] != fl[0]);
                    }
                    assert forall|k: int| 0 <= k < objs.len() && objs[k] is Free implies #[trigger] nfl.contains(k as usize) by {
                        assert(k != idx as int);
                        assert(objs0[k] is Free);
                        assert(fl.contains(k as usize));
                        let j = choose|j: int| 0 <= j < fl.len() && fl[j] == k as usize;
                        assert(fl[j] == k as usize);
                        assert(fl[0] == idx);
                        assert(self.objects@.len() == self.objects.len());
                        assert((k as usize) as int == k);
                        assert(j != 0);
                        assert(nfl[j - 1] == k as usize);
                    }
                    assert forall|i: int, j: int| 0 <= i < nfl.len() && 0 <= j < nfl.len() && i != j implies #[trigger] nfl[i] != #[trigger] nfl[j] by {
                        assert(nfl[i] == fl[i + 1]);
                        assert(nfl[j] == fl[j + 1]);
                    }
                    assert(self.live() =~= old(self).live().insert(idx as int, object));
                    assert(self.marked() =~= old(self).marked());
                    assert forall|i: int| 0 <= i < self.gray_stack@.len() implies entries_marked(self.objects@).contains(#[trigger] self.gray_stack@[i] as int) by {
                        assert(entries_marked(objs0).contains(self.gray_stack@[i] as int));
                    }
                }
                ObjHandle(idx)
            },
            None => {
                let idx = self.objects.len();
                self.objects.push(ObjectEntry::Allocated { object, marked: false });
                self.bytes_allocated = self.bytes_allocated.saturating_add(size);
                proof {
                    let objs = self.objects@;
                    assert forall|i: int| 0 <= i < fl.len() implies objs[#[trigger] fl[i] as int] == (ObjectEntry::Free {
                        next_free: if i + 1 < fl.len() { Some(fl[i + 1]) } else { None },
                    }) by {
                        assert(objs[fl[i] as int] == objs0[fl[i] as int]);
                    }
                    assert forall|k: int| 0 <= k < objs.len() && objs[k] is Free implies #[trigger] fl.contains(k as usize) by {
                        assert(objs[k] == objs0[k]);
                    }
                    assert(self.live() =~= old(self).live().insert(idx as int, object));
                    assert(self.marked() =~= old(self).marked());
                    assert forall|i: int| 0 <= i < self.gray_stack@.len() implies entries_marked(self.objects@).contains(#[trigger] self.gray_stack@[i] as int) by {
                        assert(entries_marked(objs0).contains(self.gray_stack@[i] as int));
                    }
                }
                ObjHandle(idx)
            },
        }
    }

    /// The object in slot `handle`, if that slot is live.
    pub fn get(&self, handle: ObjHandle) -> (r: Option<&Object>)
        requires
            self.wf(),
        ensures
            match r {
                Some(o) => self.live().dom().contains(handle.0 as int) && *o == self.live()[handle.0 as int],
                None => !self.live().dom().contains(handle.0 as int),
            },
    {
        if handle.0 < self.objects.len() {
            match &self.objects[handle.0] {
                ObjectEntry::Allocated { object, .. } => Some(object),
                _ => None,
            }
        } else {
            None
        }
    }

    /// The heap's own name for `get`.
    pub fn get_object(&self, handle: ObjHandle) -> (r: Option<&Object>)
        requires
            self.wf(),
        ensures
            match r {
                Some(o) => self.live().dom().contains(handle.0 as int) && *o == self.live()[handle.0 as int],
                None => !self.live().dom().contains(handle.0 as int),
            },
    {
        self.get(handle)
    }

    /// The heap's own name for `allocate`.
    pub fn alloc_object(&mut self, object: Object) -> (h: ObjHandle)
        requires
            old(self).wf(),
            obj_wf(object),
        ensures
            final(self).wf(),
            !old(self).live().dom().contains(h.0 as int),
            final(self).live() == old(self).live().insert(h.0 as int, object),
            final(self).marked() == old(self).marked(),
            final(self).gray() == old(self).gray(),
            h.0 == (if old(self).free_slots().len() > 0 { old(self).free_slots()[0] as int } else { old(self).slots() as int }),
    {
        self.allocate(object)
    }

    /// Puts `object` in the live slot `handle` in place of the object there,
    /// which it returns; the mark bit stays. A dead slot is left alone and
    /// the call gives back `object` as `Err`.
    pub fn replace(&mut self, handle: ObjHandle, object: Object) -> (r: Result<Object, Object>)
        requires
            old(self).wf(),
            obj_wf(object),
        ensures
            final(self).wf(),
            final(self).marked() == old(self).marked(),
            final(self).gray() == old(self).gray(),
            final(self).slots() == old(self).slots(),
            final(self).free_slots() == old(self).free_slots(),
            final(self).bytes() == old(self).bytes(),
            final(self).gc_threshold() == old(self).gc_threshold(),
            match r {
                Ok(prev) => old(self).live().dom().contains(handle.0 as int)
                    && prev == old(self).live()[handle.0 as int]
                    && final(self).live() == old(self).live().insert(handle.0 as int, object),
                Err(back) => !old(self).live().dom().contains(handle.0 as int)
                    && back == object
                    && final(self).live() == old(self).live(),
            },
    {
        if handle.0 >= self.objects.len() {
            return Err(object);
        }
        let marked = match &self.objects[handle.0] {
            ObjectEntry::Allocated { marked, .. } => *marked,
            ObjectEntry::Free { .. } => {
                return Err(object);
            },
        };
        let ghost objs0 = self.objects@;
        let mut entry = ObjectEntry::Allocated { object, marked };
        self.objects.set_and_swap(handle.0, &mut entry);
        proof {
            let objs = self.objects@;
            let fl = self.free_list@;
            assert forall|i: int| 0 <= i < fl.len() implies objs[#[trigger] fl[i] as int] == (ObjectEntry::Free {
                next_free: if i + 1 < fl.len() { Some(fl[i + 1]) } else { None },
            }) by {
                assert(objs0[fl[i] as int] is Free);
            }
            assert forall|k: int| 0 <= k < objs.len() && objs[k] is Free implies #[trigger] fl.contains(k as usize) by {
                assert(objs[k] == objs0[k]);
            }
            assert(self.live() =~= old(self).live().insert(handle.0 as int, object));
            assert(self.marked() =~= old(self).marked());
        }
        match entry {
            ObjectEntry::Allocated { object: prev, .. } => Ok(prev),
            ObjectEntry::Free { .. } => {
                proof { assert(false); }
                Err(ObjectEntry::placeholder_object())
            },
        }
    }

    // --- GC ---

    /// Marks the live slot `handle` and pushes it on the gray stack, unless it
    /// is already marked; a dead or out-of-range slot is ignored.
    pub fn mark_object(&mut self, handle: ObjHandle)
        requires
            old(self).wf(),
        ensures
            final(self).wf(),
            final(self).live() == old(self).live(),
            final(self).slots() == old(self).slots(),
            final(self).free_slots() == old(self).free_slots(),
            final(self).bytes() == old(self).bytes(),
            final(self).gc_threshold() == old(self).gc_threshold(),
            if old(self).live().dom().contains(handle.0 as int) && !old(self).marked().contains(handle.0 as int) {
                &&& final(self).marked() == old(self).marked().insert(handle.0 as int)
                &&& final(self).gray() == old(self).gray().push(handle.0)
            } else {
                &&& final(self).marked() == old(self).marked()
                &&& final(self).gray() == old(self).gray()
            },
            tricolor(old(self).live(), old(self).marked(), old(self).gray()) ==> tricolor(
                final(self).live(),
                final(self).marked(),
                final(self).gray(),
            ),
    {
        let idx = handle.0;
        if idx >= self.objects.len() {
            return;
        }
        let is_unmarked = match &self.objects[idx] {
            ObjectEntry::Allocated { marked, .. } => !*marked,
            ObjectEntry::Free { .. } => false,
        };
        if !is_unmarked {
            return;
        }
        let ghost objs0 = self.objects@;
        let mut entry = ObjectEntry::Free { next_free: None };
        self.objects.set_and_swap(idx, &mut entry);
        match entry {
            ObjectEntry::Allocated { object, .. } => {
                self.objects.set(idx, ObjectEntry::Allocated { object, marked: true });
            },
            ObjectEntry::Free { .. } => {
                proof { assert(false); }
            },
        }
        self.gray_stack.push(idx);
        proof {
            let objs = self.objects@;
            let fl = self.free_list@;
            assert(objs =~= objs0.update(idx as int, ObjectEntry::Allocated { object: objs0[idx as int]->object, marked: true }));
            assert forall|i: int| 0 <= i < fl.len() implies objs[#[trigger] fl[i] as int] == (ObjectEntry::Free {
                next_free: if i + 1 < fl.len() { Some(fl[i + 1]) } else { None },
            }) by {
                assert(objs0[fl[i] as int] is Free);
            }
            assert forall|k: int| 0 <= k < objs.len() && objs[k] is Free implies #[trigger] fl.contains(k as usize) by {
                assert(objs[k] == objs0[k]);
            }
            assert(self.live() =~= old(self).live());
            assert(self.marked() =~= old(self).marked().insert(idx as int));
            assert forall|i: int| 0 <= i < self.gray_stack@.len() implies entries_marked(self.objects@).contains(#[trigger] self.gray_stack@[i] as int) by {
                if i < old(self).gray_stack@.len() {
                    assert(entries_marked(objs0).contains(self.gray_stack@[i] as int));
                }
            }
            assert(!old(self).gray().contains(idx)) by {
                if old(self).gray().contains(idx) {
                    let k = choose|k: int| 0 <= k < old(self).gray().len() && old(self).gray()[k] == idx;
                    assert(entries_marked(objs0).contains(old(self).gray_stack@[k] as int));
                }
            }
            let live = self.live();
            let m = self.marked();
            let g = self.gray();
            if tricolor(old(self).live(), old(self).marked(), old(self).gray()) {
                assert forall|x: int, c: usize| #![trigger m.contains(x), refers_to(live[x], c)]
                    m.contains(x) && !g.contains(x as usize) && live.dom().contains(x) && refers_to(live[x], c)
                        && live.dom().contains(c as int) implies m.contains(c as int) by {
                    assert(x != idx as int) by {
                        if x == idx as int {
                            assert(g[g.len() - 1] == idx);
                        }
                    }
                    assert(old(self).marked().contains(x));
                    assert(!old(self).gray().contains(x as usize)) by {
                        if old(self).gray().contains(x as usize) {
                            let k = choose|k: int| 0 <= k < old(self).gray().len() && old(self).gray()[k] == x as usize;
                            assert(g[k] == x as usize);
                        }
                    }
                }
            }
        }
    }

    /// Marking phase: pops gray slots and marks their live children until the
    /// gray stack is empty. Afterwards every marked object has all its live
    /// children marked, and each newly marked object is reachable from the
    /// slots that were gray.
    #[verifier::rlimit(40)]
    #[verifier::spinoff_prover]
    pub fn trace(&mut self)
        requires
            old(self).wf(),
            tricolor(old(self).live(), old(self).marked(), old(self).gray()),
        ensures
            final(self).wf(),
            final(self).live() == old(self).live(),
            final(self).slots() == old(self).slots(),
            final(self).free_slots() == old(self).free_slots(),
            final(self).bytes() == old(self).bytes(),
            final(self).gc_threshold() == old(self).gc_threshold(),
            final(self).gray().len() == 0,
            old(self).marked().subset_of(final(self).marked()),
            tricolor(final(self).live(), final(self).marked(), final(self).gray()),
            forall|x: int| #[trigger] final(self).marked().contains(x) ==> old(self).marked().contains(x)
                || reachable(old(self).live(), gray_set(old(self).gray()), x),
    {
        let ghost live0 = self.live();
        let ghost m0 = self.marked();
        let ghost g0 = gray_set(self.gray());
        proof {
            self.lemma_wf();
            lemma_trace_start(live0, m0, self.gray());
            lemma_tricolor_except_of(live0, m0, self.gray());
        }
        while self.gray_stack.len() > 0
            invariant
                self.wf(),
                self.live() == live0,
                self.slots() == old(self).slots(),
                self.free_slots() == old(self).free_slots(),
                self.bytes() == old(self).bytes(),
                self.gc_threshold() == old(self).gc_threshold(),
                tricolor_except(live0, self.marked(), self.gray(), -1),
                trace_sound(live0, g0, m0, self.marked(), self.gray()),
            decreases self.slots() - self.marked().len(), self.gray().len(),
        {
            proof { self.lemma_wf(); }
            let ghost ml = self.marked().len();
            let ghost gl = self.gray().len();
            let ghost gray_before = self.gray();
            let idx = self.gray_stack.pop().unwrap();
            proof {
                lemma_pop_gray(live0, g0, m0, self.marked(), gray_before, self.gray(), idx);
                assert(self.wf());
            }
            let children = match &self.objects[idx] {
                ObjectEntry::Allocated { object, .. } => object.children(),
                ObjectEntry::Free { .. } => Vec::new(),
            };
            let mut j: usize = 0;
            while j < children.len()
                invariant
                    self.wf(),
                    self.live() == live0,
                    self.slots() == old(self).slots(),
                    self.free_slots() == old(self).free_slots(),
                    self.bytes() == old(self).bytes(),
                    self.gc_threshold() == old(self).gc_threshold(),
                    j <= children@.len(),
                    children@ == child_values(live0[idx as int]),
                    live0.dom().contains(idx as int),
                    self.marked().contains(idx as int),
                    !self.gray().contains(idx),
                    reachable(live0, g0, idx as int),
                    self.marked().finite(),
                    self.marked().len() >= ml,
                    self.gray().len() + ml == gl - 1 + self.marked().len(),
                    tricolor_except(live0, self.marked(), self.gray(), idx as int),
                    trace_sound(live0, g0, m0, self.marked(), self.gray()),
                    forall|k: int| 0 <= k < j ==> child_marked(#[trigger] children@[k], live0, self.marked()),
                decreases children@.len() - j,
            {
                let ghost mk = self.marked();
                let ghost gk = self.gray();
                proof { self.lemma_wf(); }
                match children[j] {
                    Value::Obj(h) => {
                        self.mark_object(h);
                        proof {
                            lemma_refers_at(live0[idx as int], j as int, h);
                            lemma_mark_step(live0, g0, m0, mk, gk, self.marked(), self.gray(), h.0, idx);
                        }
                    },
                    _ => {},
                }
                proof {
                    assert forall|k: int| 0 <= k < j + 1 implies child_marked(#[trigger] children@[k], live0, self.marked()) by {
                        if k < j {
                            assert(child_marked(children@[k], live0, mk));
                        }
                    }
                }
                j = j + 1;
            }
            proof {
                lemma_close_parent(live0, self.marked(), self.gray(), idx as int, children@);
                self.lemma_wf();
            }
        }
        proof {
            lemma_tricolor_except_of(live0, self.marked(), self.gray());
            reveal(trace_sound);
        }
    }

    /// Sweep phase: frees every live object that is not marked, linking its
    /// slot at the head of the free list, and unmarks the others. Slots still
    /// gray (marked but not traced) are marked, so they survive, and the gray
    /// stack is emptied. Returns the number of objects freed.
    #[verifier::rlimit(100)]
    #[verifier::spinoff_prover]
    pub fn sweep(&mut self) -> (freed: usize)
        requires
            old(self).wf(),
        ensures
            final(self).wf(),
            final(self).idle(),
            final(self).live() == survivors(old(self).live(), old(self).marked()),
            final(self).slots() == old(self).slots(),
            final(self).free_slots() == swept_slots(old(self).live(), old(self).marked(), old(self).slots()) + old(self).free_slots(),
            final(self).bytes() == swept_bytes(old(self).live(), old(self).marked(), old(self).slots(), old(self).bytes()),
            final(self).gc_threshold() == old(self).gc_threshold(),
            freed == old(self).live().dom().difference(old(self).marked()).len(),
    {
        self.gray_stack.clear();
        assert(self.gray_stack@.no_duplicates());
        let ghost live0 = self.live();
        let ghost m0 = self.marked();
        let ghost fl0 = self.free_list@;
        let ghost objs0 = self.objects@;
        let ghost b0 = self.bytes_allocated;
        let mut freed: usize = 0;
        let mut i: usize = 0;
        let n = self.objects.len();
        proof {
            self.lemma_wf();
            assert(garbage_below(live0, m0, 0) =~= Set::<int>::empty());
            reveal(sweep_progress);
        }
        while i < n
            invariant
                n == self.objects@.len(),
                n == objs0.len(),
                i <= n,
                live0 == entries_live(objs0),
                m0 == entries_marked(objs0),
                self.gray_stack@.len() == 0,
                free_list_ok(self.objects@, self.free_list@, self.free_head),
                self.free_list@ == swept_slots(live0, m0, i as nat) + fl0,
                self.bytes_allocated == swept_bytes(live0, m0, i as nat, b0),
                self.next_gc == old(self).next_gc,
                sweep_progress(objs0, self.objects@, m0, i as int),
                freed as int == garbage_below(live0, m0, i as int).len(),
                garbage_below(live0, m0, i as int).finite(),
                freed <= i,
            decreases n - i,
        {
            let ghost objs_i = self.objects@;
            let ghost fl_i = self.free_list@;
            let ghost head_i = self.free_head;
            proof {
                lemma_sweep_progress_at(objs0, objs_i, m0, i as int);
                lemma_garbage_step(live0, m0, i as int);
            }
            let is_garbage = match &self.objects[i] {
                ObjectEntry::Allocated { marked, .. } => !*marked,
                ObjectEntry::Free { .. } => false,
            };
            if is_garbage {
                let mut entry = ObjectEntry::Free { next_free: self.free_head };
                self.objects.set_and_swap(i, &mut entry);
                match &entry {
                    ObjectEntry::Allocated { object, .. } => {
                        let size = object.estimate_size(16);
                        self.bytes_allocated = if self.bytes_allocated >= size { self.bytes_allocated - size } else { 0 };
                    },
                    ObjectEntry::Free { .. } => {},
                }
                self.free_head = Some(i);
                self.free_list = Ghost(seq![i] + fl_i);
                freed = freed + 1;
                proof {
                    lemma_free_push(objs_i, self.objects@, fl_i, head_i, i);
                    assert(self.free_list@ =~= swept_slots(live0, m0, (i + 1) as nat) + fl0);
                    lemma_sweep_progress_free(objs0, objs_i, self.objects@, m0, i as int);
                }
            } else {
                let mut entry = ObjectEntry::Free { next_free: None };
                self.objects.set_and_swap(i, &mut entry);
                match entry {
                    ObjectEntry::Allocated { object, .. } => {
                        self.objects.set(i, ObjectEntry::Allocated { object, marked: false });
                    },
                    ObjectEntry::Free { next_free } => {
                        self.objects.set(i, ObjectEntry::Free { next_free });
                    },
                }
                proof {
                    lemma_free_keep(objs_i, self.objects@, self.free_list@, self.free_head, i as int);
                    lemma_sweep_progress_keep(objs0, objs_i, self.objects@, m0, i as int);
                }
            }
            i = i + 1;
        }
        proof {
            lemma_sweep_done(objs0, self.objects@, m0, live0);
        }
        freed
    }

    /// The number of slots, live or free.
    pub fn slot_count(&self) -> (n: usize)
        ensures
            n == self.slots(),
    {
        self.objects.len()
    }

    pub fn get_allocation_stats(&self) -> (r: (usize, usize))
        ensures
            r == (self.bytes(), self.gc_threshold()),
    {
        (self.bytes_allocated, self.next_gc)
    }

    pub fn set_next_gc(&mut self, size: usize)
        requires
            old(self).wf(),
        ensures
            final(self).wf(),
            final(self).gc_threshold() == size,
            final(self).live() == old(self).live(),
            final(self).marked() == old(self).marked(),
            final(self).gray() == old(self).gray(),
            final(self).slots() == old(self).slots(),
            final(self).free_slots() == old(self).free_slots(),
            final(self).bytes() == old(self).bytes(),
    {
        self.next_gc = size;
    }
}

impl ObjectEntry {
    /// A throwaway object for branches that cannot run.
    fn placeholder_object() -> (o: Object) {
        Object::List(Vec::new())
    }
}

} // verus!

verus! {

/// Every object on a path from a root is in a set that holds the live roots
/// and is closed under references.
pub proof fn lemma_path_in_closed(live: Map<int, Object>, roots: Set<int>, m: Set<int>, p: Seq<int>, k: int)
    requires
        is_path(live, p),
        roots.contains(p[0]),
        forall|x: int| roots.contains(x) && live.dom().contains(x) ==> #[trigger] m.contains(x),
        tricolor(live, m, Seq::<usize>::empty()),
        0 <= k < p.len(),
        forall|x: int| #[trigger] live.dom().contains(x) ==> 0 <= x <= usize::MAX,
    ensures
        m.contains(p[k]),
    decreases k,
{
    if k > 0 {
        lemma_path_in_closed(live, roots, m, p, k - 1);
        assert(live.dom().contains(p[k - 1]));
        assert(refers_to(live[p[k - 1]], p[k] as usize));
        assert(live.dom().contains(p[k]));
        assert(0 <= p[k - 1] <= usize::MAX);
        assert(0 <= p[k] <= usize::MAX);
        assert(!Seq::<usize>::empty().contains(p[k - 1] as usize));
        assert((p[k] as usize) as int == p[k]);
    }
}

/// Marking the live roots and then tracing marks exactly the objects that
/// are reachable from the roots.
pub proof fn lemma_trace_marks_reachable(live: Map<int, Object>, roots: Set<int>, m: Set<int>)
    requires
        forall|x: int| roots.contains(x) && live.dom().contains(x) ==> #[trigger] m.contains(x),
        tricolor(live, m, Seq::<usize>::empty()),
        forall|x: int| #[trigger] m.contains(x) ==> (roots.contains(x) && live.dom().contains(x)) || reachable(live, roots, x),
        forall|x: int| #[trigger] live.dom().contains(x) ==> 0 <= x <= usize::MAX,
    ensures
        m == reachable_set(live, roots),
{
    assert forall|x: int| #[trigger] reachable_set(live, roots).contains(x) implies m.contains(x) by {
        let p = choose|p: Seq<int>| is_path(live, p) && roots.contains(p[0]) && #[trigger] p.last() == x;
        lemma_path_in_closed(live, roots, m, p, p.len() - 1);
    }
    assert forall|x: int| #[trigger] m.contains(x) implies reachable_set(live, roots).contains(x) by {
        if roots.contains(x) && live.dom().contains(x) {
            let p = seq![x];
            assert(is_path(live, p));
            assert(p.last() == x);
        }
    }
    assert(m =~= reachable_set(live, roots));
}

/// Paths need live starting points, so the dead roots do not matter.
pub proof fn lemma_reachable_live_roots(live: Map<int, Object>, roots: Set<int>, x: int)
    ensures
        reachable(live, roots.intersect(live.dom()), x) <==> reachable(live, roots, x),
{
    if reachable(live, roots, x) {
        let p = choose|p: Seq<int>| is_path(live, p) && roots.contains(p[0]) && #[trigger] p.last() == x;
        assert(live.dom().contains(p[0]));
        assert(roots.intersect(live.dom()).contains(p[0]));
    }
    if reachable(live, roots.intersect(live.dom()), x) {
        let p = choose|p: Seq<int>| is_path(live, p) && roots.intersect(live.dom()).contains(p[0]) && #[trigger] p.last() == x;
        assert(roots.contains(p[0]));
    }
}

} // verus!

verus! {

/// Sweeping never raises the byte count.
pub proof fn lemma_swept_bytes_le(live: Map<int, Object>, marked: Set<int>, n: nat, b: usize)
    ensures
        swept_bytes(live, marked, n, b) <= b,
    decreases n,
{
    if n > 0 {
        lemma_swept_bytes_le(live, marked, (n - 1) as nat, b);
    }
}

} // verus!
