use vstd::prelude::*;
use crate::mesh::{PolygonMesh, Vertex, all_corners, lemma_faces_from_corners, same_shape};

verus! {

/// The distinct values of `s` in the order of their first appearance.
pub open spec fn first_order(s: Seq<usize>) -> Seq<usize>
    decreases s.len(),
{
    if s.len() == 0 {
        seq![]
    } else if first_order(s.drop_last()).contains(s.last()) {
        first_order(s.drop_last())
    } else {
        first_order(s.drop_last()).push(s.last())
    }
}

/// `new` is the index of `old` in the new numbering `order`.
pub open spec fn renumbers(order: Seq<usize>, old: usize, new: usize) -> bool {
    new < order.len() && order[new as int] == old
}

/// The first-appearance order holds each value of `s` exactly once.
pub proof fn lemma_first_order(s: Seq<usize>)
    ensures
        first_order(s).no_duplicates(),
        forall|x: usize| first_order(s).contains(x) <==> s.contains(x),
    decreases s.len(),
{
    if s.len() > 0 {
        let t = s.drop_last();
        lemma_first_order(t);
        assert forall|x: usize| s.contains(x) <==> (t.contains(x) || x == s.last()) by {
            if s.contains(x) {
                let k = choose|k: int| 0 <= k < s.len() && s[k] == x;
                if k < t.len() {
                    assert(t[k] == x);
                }
            }
            if t.contains(x) {
                let k = choose|k: int| 0 <= k < t.len() && t[k] == x;
                assert(s[k] == x);
            }
            if x == s.last() {
                assert(s[s.len() - 1] == x);
            }
        }
        let r = first_order(t);
        if !r.contains(s.last()) {
            assert forall|x: usize| r.push(s.last()).contains(x) <==> (r.contains(x) || x == s.last()) by {
                if r.push(s.last()).contains(x) {
                    let k = choose|k: int| 0 <= k < r.len() + 1 && r.push(s.last())[k] == x;
                    if k < r.len() {
                        assert(r[k] == x);
                    }
                }
                if r.contains(x) {
                    let k = choose|k: int| 0 <= k < r.len() && r[k] == x;
                    assert(r.push(s.last())[k] == x);
                }
                if x == s.last() {
                    assert(r.push(s.last())[r.len() as int] == x);
                }
            }
        }
    }
}

/// Renumbers the indices `idcs`, which all lie below `old_len`, in the order
/// of their first appearance, and returns for each new index the old one.
pub fn sub_remove_unused_attrs(idcs: &mut Vec<usize>, old_len: usize) -> (new2old: Vec<usize>)
    requires
        forall|k: int| 0 <= k < old(idcs)@.len() ==> old(idcs)@[k] < old_len,
    ensures
        new2old@ == first_order(old(idcs)@),
        final(idcs)@.len() == old(idcs)@.len(),
        forall|k: int|
            0 <= k < old(idcs)@.len() ==> renumbers(new2old@, old(idcs)@[k], #[trigger] final(idcs)@[k]),
{
    let ghost s = idcs@;
    let mut new2old: Vec<usize> = Vec::new();
    let mut old2new: Vec<Option<usize>> = Vec::new();
    let mut x: usize = 0;
    while x < old_len
        invariant
            x <= old_len,
            old2new@.len() == x,
            forall|y: int| 0 <= y < x ==> old2new@[y] is None,
        decreases old_len - x,
    {
        old2new.push(None);
        x = x + 1;
    }
    let mut k: usize = 0;
    while k < idcs.len()
        invariant
            idcs@.len() == s.len(),
            k <= s.len(),
            forall|j: int| 0 <= j < s.len() ==> s[j] < old_len,
            old2new@.len() == old_len,
            new2old@ == first_order(s.take(k as int)),
            forall|y: int|
                0 <= y < old_len ==> match #[trigger] old2new@[y] {
                    Some(m) => renumbers(new2old@, y as usize, m),
                    None => !new2old@.contains(y as usize),
                },
            forall|j: int| 0 <= j < k ==> renumbers(new2old@, s[j], #[trigger] idcs@[j]),
            forall|j: int| k <= j < s.len() ==> #[trigger] idcs@[j] == s[j],
        decreases s.len() - k,
    {
        let old_idx = idcs[k];
        assert(s.take(k + 1).drop_last() =~= s.take(k as int));
        assert(s.take(k + 1).last() == old_idx);
        let new_idx = match old2new[old_idx] {
            Some(m) => {
                assert(new2old@.contains(old_idx));
                m
            },
            None => {
                let m = new2old.len();
                new2old.push(old_idx);
                old2new.set(old_idx, Some(m));
                assert forall|y: int| 0 <= y < old_len implies match #[trigger] old2new@[y] {
                    Some(m) => renumbers(new2old@, y as usize, m),
                    None => !new2old@.contains(y as usize),
                } by {
                    if old2new@[y] is None {
                        if new2old@.contains(y as usize) {
                            let w = choose|w: int| 0 <= w < new2old@.len() && new2old@[w] == y as usize;
                            if w < m {
                                assert(old(idcs)@ == s);
                                assert(new2old@.drop_last()[w] == y);
                            }
                        }
                    }
                }
                m
            },
        };
        idcs.set(k, new_idx);
        k = k + 1;
    }
    assert(s.take(s.len() as int) =~= s);
    new2old
}


/// The present values of `s`, in order.
pub open spec fn present(s: Seq<Option<usize>>) -> Seq<usize>
    decreases s.len(),
{
    if s.len() == 0 {
        seq![]
    } else {
        match s.last() {
            Some(x) => present(s.drop_last()).push(x),
            None => present(s.drop_last()),
        }
    }
}

pub proof fn lemma_present_append(a: Seq<Option<usize>>, b: Seq<Option<usize>>)
    ensures
        present(a + b) == present(a) + present(b),
    decreases b.len(),
{
    if b.len() == 0 {
        assert(a + b =~= a);
        assert(present(a) + present(b) =~= present(a));
    } else {
        assert((a + b).drop_last() =~= a + b.drop_last());
        lemma_present_append(a, b.drop_last());
        assert(present(a + b) =~= present(a) + present(b));
    }
}

/// The position indices at the corners `vs`.
pub open spec fn pos_indices(vs: Seq<Vertex>) -> Seq<usize> {
    vs.map_values(|v: Vertex| v.pos)
}

/// The texture-coordinate indices at the corners `vs` that have one.
pub open spec fn uv_indices(vs: Seq<Vertex>) -> Seq<usize> {
    present(vs.map_values(|v: Vertex| v.uv))
}

/// The normal indices at the corners `vs` that have one.
pub open spec fn nor_indices(vs: Seq<Vertex>) -> Seq<usize> {
    present(vs.map_values(|v: Vertex| v.nor))
}

/// Every index at a corner of the mesh lies inside its attribute array.
pub open spec fn indices_in_range<P, U, N>(m: PolygonMesh<P, U, N>) -> bool {
    forall|k: int|
        0 <= k < all_corners(m.faces@).len() ==> {
            let v = #[trigger] all_corners(m.faces@)[k];
            &&& v.pos < m.positions@.len()
            &&& (v.uv matches Some(u) ==> u < m.uv_coords@.len())
            &&& (v.nor matches Some(n) ==> n < m.normals@.len())
        }
}

/// An optional index renumbered under `order`, kept absent if absent.
pub open spec fn opt_renumbers(order: Seq<usize>, old: Option<usize>, new: Option<usize>) -> bool {
    match old {
        Some(x) => new matches Some(y) && renumbers(order, x, y),
        None => new is None,
    }
}

/// The corner `new` is `old` with each index renumbered under its order.
pub open spec fn corner_renumbered(
    old: Vertex,
    new: Vertex,
    pos_order: Seq<usize>,
    uv_order: Seq<usize>,
    nor_order: Seq<usize>,
) -> bool {
    &&& renumbers(pos_order, old.pos, new.pos)
    &&& opt_renumbers(uv_order, old.uv, new.uv)
    &&& opt_renumbers(nor_order, old.nor, new.nor)
}

/// What `remove_unused_attrs` makes of `old`: the faces keep their shape,
/// every index is renumbered in the order of first appearance among the
/// corners, and each attribute array holds just the referenced entries in
/// that order.
pub open spec fn is_compaction_of<P, U, N>(new: PolygonMesh<P, U, N>, old: PolygonMesh<P, U, N>) -> bool {
    let vs = all_corners(old.faces@);
    let ws = all_corners(new.faces@);
    let po = first_order(pos_indices(vs));
    let uo = first_order(uv_indices(vs));
    let no = first_order(nor_indices(vs));
    &&& same_shape(new.faces@, old.faces@)
    &&& ws.len() == vs.len()
    &&& forall|k: int| 0 <= k < vs.len() ==> corner_renumbered(vs[k], #[trigger] ws[k], po, uo, no)
    &&& new.positions@ == po.map_values(|i: usize| old.positions@[i as int])
    &&& new.uv_coords@ == uo.map_values(|i: usize| old.uv_coords@[i as int])
    &&& new.normals@ == no.map_values(|i: usize| old.normals@[i as int])
}

fn pick<T: Copy>(attrs: &Vec<T>, order: &Vec<usize>) -> (r: Vec<T>)
    requires
        forall|j: int| 0 <= j < order@.len() ==> #[trigger] order@[j] < attrs@.len(),
    ensures
        r@ == order@.map_values(|i: usize| attrs@[i as int]),
{
    let mut r: Vec<T> = Vec::new();
    let mut j: usize = 0;
    while j < order.len()
        invariant
            j <= order@.len(),
            forall|j: int| 0 <= j < order@.len() ==> #[trigger] order@[j] < attrs@.len(),
            r@ == order@.take(j as int).map_values(|i: usize| attrs@[i as int]),
        decreases order@.len() - j,
    {
        r.push(attrs[order[j]]);
        j = j + 1;
        assert(r@ =~= order@.take(j as int).map_values(|i: usize| attrs@[i as int]));
    }
    assert(order@.take(j as int) =~= order@);
    r
}

proof fn lemma_order_in_range(s: Seq<usize>, bound: nat)
    requires
        forall|k: int| 0 <= k < s.len() ==> #[trigger] s[k] < bound,
    ensures
        forall|j: int| 0 <= j < first_order(s).len() ==> #[trigger] first_order(s)[j] < bound,
{
    lemma_first_order(s);
    assert forall|j: int| 0 <= j < first_order(s).len() implies #[trigger] first_order(s)[j] < bound by {
        let x = first_order(s)[j];
        assert(first_order(s).contains(x));
        assert(s.contains(x));
        let k = choose|k: int| 0 <= k < s.len() && s[k] == x;
        assert(s[k] < bound);
    }
}

impl<P: Copy, U: Copy, N: Copy> PolygonMesh<P, U, N> {
    /// Drops the attribute entries that no face refers to and renumbers the
    /// rest in the order in which the faces first refer to them. Positions,
    /// texture coordinates and normals are numbered independently.
    pub fn remove_unused_attrs(&mut self)
        requires
            indices_in_range(*old(self)),
        ensures
            is_compaction_of(*final(self), *old(self)),
    {
        let vs = self.faces.corners();
        let ghost v = vs@;
        let mut ps: Vec<usize> = Vec::new();
        let mut us: Vec<usize> = Vec::new();
        let mut ns: Vec<usize> = Vec::new();
        let mut k: usize = 0;
        while k < vs.len()
            invariant
                v == vs@,
                v == all_corners(self.faces@),
                indices_in_range(*self),
                k <= v.len(),
                ps@ == pos_indices(v.take(k as int)),
                us@ == uv_indices(v.take(k as int)),
                ns@ == nor_indices(v.take(k as int)),
                forall|j: int| 0 <= j < ps@.len() ==> #[trigger] ps@[j] < self.positions@.len(),
                forall|j: int| 0 <= j < us@.len() ==> #[trigger] us@[j] < self.uv_coords@.len(),
                forall|j: int| 0 <= j < ns@.len() ==> #[trigger] ns@[j] < self.normals@.len(),
            decreases v.len() - k,
        {
            let c = vs[k];
            assert(v.take(k + 1).drop_last() =~= v.take(k as int));
            assert(v.take(k + 1).map_values(|w: Vertex| w.uv).drop_last() =~= v.take(k as int).map_values(|w: Vertex| w.uv));
            assert(v.take(k + 1).map_values(|w: Vertex| w.nor).drop_last() =~= v.take(k as int).map_values(|w: Vertex| w.nor));
            assert(all_corners(self.faces@)[k as int] == c);
            ps.push(c.pos);
            assert(ps@ =~= pos_indices(v.take(k + 1)));
            match c.uv {
                Some(u) => us.push(u),
                None => {},
            }
            match c.nor {
                Some(n) => ns.push(n),
                None => {},
            }
            k = k + 1;
        }
        assert(v.take(v.len() as int) =~= v);
        let ghost ps0 = ps@;
        let ghost us0 = us@;
        let ghost ns0 = ns@;
        let pos_order = sub_remove_unused_attrs(&mut ps, self.positions.len());
        let uv_order = sub_remove_unused_attrs(&mut us, self.uv_coords.len());
        let nor_order = sub_remove_unused_attrs(&mut ns, self.normals.len());
        let ghost po = pos_order@;
        let ghost uo = uv_order@;
        let ghost no = nor_order@;
        let us_len = us.len();
        let ns_len = ns.len();
        let mut ws: Vec<Vertex> = Vec::new();
        let mut ku: usize = 0;
        let mut kn: usize = 0;
        let mut k: usize = 0;
        while k < vs.len()
            invariant
                v == vs@,
                k <= v.len(),
                ps0 == pos_indices(v),
                us0 == uv_indices(v),
                ns0 == nor_indices(v),
                ps@.len() == ps0.len(),
                us@.len() == us0.len(),
                ns@.len() == ns0.len(),
                us_len == us0.len(),
                ns_len == ns0.len(),
                forall|j: int| 0 <= j < ps0.len() ==> renumbers(po, ps0[j], #[trigger] ps@[j]),
                forall|j: int| 0 <= j < us0.len() ==> renumbers(uo, us0[j], #[trigger] us@[j]),
                forall|j: int| 0 <= j < ns0.len() ==> renumbers(no, ns0[j], #[trigger] ns@[j]),
                ku == uv_indices(v.take(k as int)).len(),
                kn == nor_indices(v.take(k as int)).len(),
                ws@.len() == k,
                forall|j: int| 0 <= j < k ==> corner_renumbered(v[j], #[trigger] ws@[j], po, uo, no),
            decreases v.len() - k,
        {
            let c = vs[k];
            proof {
                let mu = v.map_values(|w: Vertex| w.uv);
                let mn = v.map_values(|w: Vertex| w.nor);
                assert(v.take(k + 1).map_values(|w: Vertex| w.uv).drop_last() =~= v.take(k as int).map_values(|w: Vertex| w.uv));
                assert(v.take(k + 1).map_values(|w: Vertex| w.nor).drop_last() =~= v.take(k as int).map_values(|w: Vertex| w.nor));
                assert(mu =~= v.take(k + 1).map_values(|w: Vertex| w.uv) + v.skip(k + 1).map_values(|w: Vertex| w.uv));
                assert(mn =~= v.take(k + 1).map_values(|w: Vertex| w.nor) + v.skip(k + 1).map_values(|w: Vertex| w.nor));
                lemma_present_append(v.take(k + 1).map_values(|w: Vertex| w.uv), v.skip(k + 1).map_values(|w: Vertex| w.uv));
                lemma_present_append(v.take(k + 1).map_values(|w: Vertex| w.nor), v.skip(k + 1).map_values(|w: Vertex| w.nor));
                assert(ps0[k as int] == c.pos);
                assert(v.take(k + 1).map_values(|w: Vertex| w.uv).last() == c.uv);
                assert(v.take(k + 1).map_values(|w: Vertex| w.nor).last() == c.nor);
                assert(us0 == present(v.take(k + 1).map_values(|w: Vertex| w.uv)) + present(v.skip(k + 1).map_values(|w: Vertex| w.uv)));
                assert(ns0 == present(v.take(k + 1).map_values(|w: Vertex| w.nor)) + present(v.skip(k + 1).map_values(|w: Vertex| w.nor)));
            }
            let uv = match c.uv {
                Some(_) => {
                    let r = Some(us[ku]);
                    ku = ku + 1;
                    r
                },
                None => None,
            };
            let nor = match c.nor {
                Some(_) => {
                    let r = Some(ns[kn]);
                    kn = kn + 1;
                    r
                },
                None => None,
            };
            ws.push(Vertex { pos: ps[k], uv, nor });
            k = k + 1;
        }
        proof {
            lemma_order_in_range(ps0, self.positions@.len());
            lemma_order_in_range(us0, self.uv_coords@.len());
            lemma_order_in_range(ns0, self.normals@.len());
        }
        self.positions = pick(&self.positions, &pos_order);
        self.uv_coords = pick(&self.uv_coords, &uv_order);
        self.normals = pick(&self.normals, &nor_order);
        self.faces = self.faces.with_corners(&ws);
    }
}


/// The first-appearance order is as long as the set of values it orders.
pub proof fn lemma_first_order_len(s: Seq<usize>)
    ensures
        first_order(s).len() == s.to_set().len(),
{
    lemma_first_order(s);
    first_order(s).unique_seq_to_set();
    assert(first_order(s).to_set() =~= s.to_set());
}

/// The first-appearance order of indices below `bound` has at most `bound`
/// entries.
pub proof fn lemma_first_order_bounded(s: Seq<usize>, bound: nat)
    requires
        forall|k: int| 0 <= k < s.len() ==> #[trigger] s[k] < bound,
    ensures
        first_order(s).len() <= bound,
{
    lemma_order_in_range(s, bound);
    lemma_first_order(s);
    let o = first_order(s);
    let oi = o.map_values(|x: usize| x as int);
    assert forall|a: int, b: int| 0 <= a < oi.len() && 0 <= b < oi.len() && a != b implies oi[a] != oi[b] by {
        assert(o[a] != o[b]);
    }
    assert(oi.no_duplicates());
    oi.unique_seq_to_set();
    vstd::set_lib::lemma_int_range(0, bound as int);
    assert forall|x: int| oi.to_set().contains(x) implies vstd::set_lib::set_int_range(0, bound as int).contains(x) by {
        let k = choose|k: int| 0 <= k < oi.len() && oi[k] == x;
        assert(o[k] < bound);
    }
    vstd::set_lib::lemma_len_subset(oi.to_set(), vstd::set_lib::set_int_range(0, bound as int));
}

/// After compaction each attribute array holds as many entries as there are
/// distinct indices of its kind at the corners of the faces before the call.
pub proof fn lemma_compaction_counts<P, U, N>(new: PolygonMesh<P, U, N>, old: PolygonMesh<P, U, N>)
    requires
        is_compaction_of(new, old),
    ensures
        new.positions@.len() == pos_indices(all_corners(old.faces@)).to_set().len(),
        new.uv_coords@.len() == uv_indices(all_corners(old.faces@)).to_set().len(),
        new.normals@.len() == nor_indices(all_corners(old.faces@)).to_set().len(),
{
    let vs = all_corners(old.faces@);
    lemma_first_order_len(pos_indices(vs));
    lemma_first_order_len(uv_indices(vs));
    lemma_first_order_len(nor_indices(vs));
}


/// `a` is an initial part of `b`.
pub open spec fn is_prefix(a: Seq<usize>, b: Seq<usize>) -> bool {
    a.len() <= b.len() && forall|i: int| 0 <= i < a.len() ==> a[i] == b[i]
}

/// The indices `0, 1, ..., n - 1`.
pub open spec fn identity_order(n: nat) -> Seq<usize> {
    Seq::new(n, |i: int| i as usize)
}

proof fn lemma_first_order_prefix(s: Seq<usize>, n: int)
    requires
        0 <= n <= s.len(),
    ensures
        is_prefix(first_order(s.take(n)), first_order(s)),
    decreases s.len() - n,
{
    if n < s.len() {
        lemma_first_order_prefix(s, n + 1);
        assert(s.take(n + 1).drop_last() =~= s.take(n));
    } else {
        assert(s.take(n) =~= s);
    }
}

proof fn lemma_renumbered_prefix(s: Seq<usize>, t: Seq<usize>, n: int)
    requires
        t.len() == s.len(),
        0 <= n <= s.len(),
        forall|k: int| 0 <= k < s.len() ==> renumbers(first_order(s), s[k], #[trigger] t[k]),
    ensures
        first_order(t.take(n)) == identity_order(first_order(s.take(n)).len()),
    decreases n,
{
    if n == 0 {
        assert(first_order(t.take(0)) =~= identity_order(first_order(s.take(0)).len()));
    } else {
        lemma_renumbered_prefix(s, t, n - 1);
        lemma_first_order_prefix(s, n - 1);
        lemma_first_order_prefix(s, n);
        lemma_first_order(s);
        let o = first_order(s);
        let a = first_order(s.take(n - 1));
        let x = s[n - 1];
        let y = t[n - 1];
        assert(s.take(n).drop_last() =~= s.take(n - 1));
        assert(t.take(n).drop_last() =~= t.take(n - 1));
        assert(s.take(n).last() == x);
        assert(t.take(n).last() == y);
        assert(renumbers(o, x, y));
        if a.contains(x) {
            let i = choose|i: int| 0 <= i < a.len() && a[i] == x;
            assert(o[i] == x);
            assert(y == i);
            assert(identity_order(a.len())[i] == y);
        } else {
            assert(first_order(s.take(n)) == a.push(x));
            assert(o[a.len() as int] == x);
            assert(y == a.len());
            if identity_order(a.len()).contains(y) {
                let i = choose|i: int| 0 <= i < a.len() && identity_order(a.len())[i] == y;
                assert(false);
            }
            assert(identity_order(a.len()).push(y) =~= identity_order(a.len() + 1));
        }
    }
}

proof fn lemma_renumbered_order(s: Seq<usize>, t: Seq<usize>)
    requires
        t.len() == s.len(),
        forall|k: int| 0 <= k < s.len() ==> renumbers(first_order(s), s[k], #[trigger] t[k]),
    ensures
        first_order(t) == identity_order(first_order(s).len()),
{
    lemma_renumbered_prefix(s, t, s.len() as int);
    assert(s.take(s.len() as int) =~= s);
    assert(t.take(t.len() as int) =~= t);
}

proof fn lemma_present_renumbered(o: Seq<usize>, a: Seq<Option<usize>>, b: Seq<Option<usize>>)
    requires
        a.len() == b.len(),
        forall|k: int| 0 <= k < a.len() ==> opt_renumbers(o, a[k], #[trigger] b[k]),
    ensures
        present(b).len() == present(a).len(),
        forall|j: int| 0 <= j < present(a).len() ==> renumbers(o, present(a)[j], #[trigger] present(b)[j]),
    decreases a.len(),
{
    if a.len() > 0 {
        lemma_present_renumbered(o, a.drop_last(), b.drop_last());
        assert(opt_renumbers(o, a.last(), b.last()));
    }
}

/// The present values of `a` lie below `bound` where each entry of `a` does.
pub proof fn lemma_present_bounded(a: Seq<Option<usize>>, bound: nat)
    requires
        forall|k: int| 0 <= k < a.len() ==> (#[trigger] a[k] matches Some(x) ==> x < bound),
    ensures
        forall|j: int| 0 <= j < present(a).len() ==> #[trigger] present(a)[j] < bound,
    decreases a.len(),
{
    if a.len() > 0 {
        let d = a.drop_last();
        assert forall|k: int| 0 <= k < d.len() implies (#[trigger] d[k] matches Some(x) ==> x < bound) by {
            assert(d[k] == a[k]);
        }
        lemma_present_bounded(d, bound);
        assert(a[a.len() - 1] == a.last());
        assert forall|j: int| 0 <= j < present(a).len() implies #[trigger] present(a)[j] < bound by {
            if j < present(d).len() {
                assert(present(d)[j] < bound);
            }
        }
    }
}

proof fn lemma_first_order_coarser_prefix(s: Seq<usize>, t: Seq<usize>, n: int)
    requires
        t.len() == s.len(),
        0 <= n <= s.len(),
        forall|a: int, b: int| 0 <= a < s.len() && 0 <= b < s.len() && s[a] == s[b] ==> #[trigger] t[a] == #[trigger] t[b],
    ensures
        first_order(t.take(n)).len() <= first_order(s.take(n)).len(),
    decreases n,
{
    if n > 0 {
        lemma_first_order_coarser_prefix(s, t, n - 1);
        let (sp, tp) = (s.take(n - 1), t.take(n - 1));
        assert(s.take(n).drop_last() =~= sp);
        assert(t.take(n).drop_last() =~= tp);
        assert(s.take(n).last() == s[n - 1]);
        assert(t.take(n).last() == t[n - 1]);
        lemma_first_order(sp);
        lemma_first_order(tp);
        if first_order(sp).contains(s[n - 1]) {
            assert(sp.contains(s[n - 1]));
            let j = choose|j: int| 0 <= j < sp.len() && sp[j] == s[n - 1];
            assert(s[j] == s[n - 1]);
            assert(t[j] == t[n - 1]);
            assert(tp[j] == t[n - 1]);
            assert(tp.contains(t[n - 1]));
            assert(first_order(tp).contains(t[n - 1]));
        }
    }
}

/// Where equal entries of `s` sit at positions where `t` is equal too, `t`
/// has no more distinct values than `s`.
pub proof fn lemma_first_order_coarser(s: Seq<usize>, t: Seq<usize>)
    requires
        t.len() == s.len(),
        forall|a: int, b: int| 0 <= a < s.len() && 0 <= b < s.len() && s[a] == s[b] ==> #[trigger] t[a] == #[trigger] t[b],
    ensures
        first_order(t).len() <= first_order(s).len(),
{
    lemma_first_order_coarser_prefix(s, t, s.len() as int);
    assert(s.take(s.len() as int) =~= s);
    assert(t.take(t.len() as int) =~= t);
}

/// Compacting a compacted mesh changes nothing.
pub proof fn lemma_compaction_idempotent<P, U, N>(
    m0: PolygonMesh<P, U, N>,
    m1: PolygonMesh<P, U, N>,
    m2: PolygonMesh<P, U, N>,
)
    requires
        is_compaction_of(m1, m0),
        is_compaction_of(m2, m1),
    ensures
        m2.positions@ == m1.positions@,
        m2.uv_coords@ == m1.uv_coords@,
        m2.normals@ == m1.normals@,
        m2.faces@ == m1.faces@,
{
    let v = all_corners(m0.faces@);
    let w = all_corners(m1.faces@);
    let x = all_corners(m2.faces@);
    let (po, uo, no) = (first_order(pos_indices(v)), first_order(uv_indices(v)), first_order(nor_indices(v)));
    let (vu, wu) = (v.map_values(|c: Vertex| c.uv), w.map_values(|c: Vertex| c.uv));
    let (vn, wn) = (v.map_values(|c: Vertex| c.nor), w.map_values(|c: Vertex| c.nor));
    assert forall|k: int| 0 <= k < v.len() implies renumbers(po, pos_indices(v)[k], #[trigger] pos_indices(w)[k]) by {
        assert(corner_renumbered(v[k], w[k], po, uo, no));
    }
    assert forall|k: int| 0 <= k < v.len() implies opt_renumbers(uo, vu[k], #[trigger] wu[k]) by {
        assert(corner_renumbered(v[k], w[k], po, uo, no));
    }
    assert forall|k: int| 0 <= k < v.len() implies opt_renumbers(no, vn[k], #[trigger] wn[k]) by {
        assert(corner_renumbered(v[k], w[k], po, uo, no));
    }
    lemma_present_renumbered(uo, vu, wu);
    lemma_present_renumbered(no, vn, wn);
    lemma_renumbered_order(pos_indices(v), pos_indices(w));
    lemma_renumbered_order(uv_indices(v), uv_indices(w));
    lemma_renumbered_order(nor_indices(v), nor_indices(w));
    let (po1, uo1, no1) = (first_order(pos_indices(w)), first_order(uv_indices(w)), first_order(nor_indices(w)));
    assert forall|k: int| 0 <= k < x.len() implies x[k] == w[k] by {
        assert(corner_renumbered(w[k], x[k], po1, uo1, no1));
    }
    assert(x =~= w);
    lemma_first_order_bounded(pos_indices(v), usize::MAX as nat + 1);
    lemma_first_order_bounded(uv_indices(v), usize::MAX as nat + 1);
    assert(po1 == identity_order(po.len()));
    assert(uo1 == identity_order(uo.len()));
    assert(m1.positions@.len() == po.len());
    assert(m1.uv_coords@.len() == uo.len());
    assert forall|i: int| 0 <= i < po.len() implies m2.positions@[i] == m1.positions@[i] by {
        assert(po1[i] == i);
    }
    assert forall|i: int| 0 <= i < uo.len() implies m2.uv_coords@[i] == m1.uv_coords@[i] by {
        assert(uo1[i] == i);
    }
    lemma_first_order_bounded(nor_indices(v), usize::MAX as nat + 1);
    assert(no1 == identity_order(no.len()));
    assert(m1.normals@.len() == no.len());
    assert forall|i: int| 0 <= i < no.len() implies m2.normals@[i] == m1.normals@[i] by {
        assert(no1[i] == i);
    }
    assert(m2.positions@ =~= m1.positions@);
    assert(m2.uv_coords@ =~= m1.uv_coords@);
    assert(m2.normals@ =~= m1.normals@);
    lemma_faces_from_corners(m2.faces@, m1.faces@);
}

} // verus!
