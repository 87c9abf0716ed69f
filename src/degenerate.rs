use vstd::prelude::*;
use crate::mesh::{Faces, FacesView, PolygonMesh, Vertex, empty_faces, push_face, push_faces};

verus! {

/// Whether two corners of the triangle share a position index.
pub open spec fn is_degenerate_triangle(tri: Seq<Vertex>) -> bool {
    tri[0].pos == tri[1].pos || tri[1].pos == tri[2].pos || tri[2].pos == tri[0].pos
}

/// Tells whether two corners of a triangle share a position index.
pub fn degenerate_triangle(tri: &[Vertex; 3]) -> (r: bool)
    ensures
        r == is_degenerate_triangle(tri@),
{
    tri[0].pos == tri[1].pos || tri[1].pos == tri[2].pos || tri[2].pos == tri[0].pos
}


/// What becomes of a quadrangle whose corners may share position indices.
#[derive(Clone, Copy, Debug, PartialEq, Eq)]
pub enum QuadrangleType {
    NonDegenerate,
    Triangle([Vertex; 3]),
    TotallyDegenerate,
}

/// The quadrangle collapses to nothing: opposite corners coincide, or both
/// pairs of neighbouring corners on one side coincide.
pub open spec fn is_totally_degenerate_quad(q: Seq<Vertex>) -> bool {
    (q[0].pos == q[2].pos || q[1].pos == q[3].pos)
    || (q[0].pos == q[1].pos && q[2].pos == q[3].pos)
    || (q[1].pos == q[2].pos && q[3].pos == q[0].pos)
}

/// The classification of a quadrangle by the position indices of its corners.
pub open spec fn quadrangle_type(q: Seq<Vertex>) -> QuadrangleType {
    if is_totally_degenerate_quad(q) {
        QuadrangleType::TotallyDegenerate
    } else if q[0].pos == q[1].pos || q[1].pos == q[2].pos {
        QuadrangleType::Triangle([q[0], q[2], q[3]])
    } else if q[2].pos == q[3].pos || q[3].pos == q[0].pos {
        QuadrangleType::Triangle([q[0], q[1], q[2]])
    } else {
        QuadrangleType::NonDegenerate
    }
}

/// Classifies a quadrangle: dropped, collapsed to a triangle, or kept.
pub fn degenerate_quadrangle(quad: &[Vertex; 4]) -> (r: QuadrangleType)
    ensures
        r == quadrangle_type(quad@),
{
    if (quad[0].pos == quad[2].pos || quad[1].pos == quad[3].pos)
        || (quad[0].pos == quad[1].pos && quad[2].pos == quad[3].pos)
        || (quad[1].pos == quad[2].pos && quad[3].pos == quad[0].pos)
    {
        QuadrangleType::TotallyDegenerate
    } else if quad[0].pos == quad[1].pos || quad[1].pos == quad[2].pos {
        QuadrangleType::Triangle([quad[0], quad[2], quad[3]])
    } else if quad[2].pos == quad[3].pos || quad[3].pos == quad[0].pos {
        QuadrangleType::Triangle([quad[0], quad[1], quad[2]])
    } else {
        QuadrangleType::NonDegenerate
    }
}

/// Corners `i < j` of the polygon share a position index.
pub open spec fn is_repeat(p: Seq<Vertex>, i: int, j: int) -> bool {
    0 <= i < j < p.len() && p[i].pos == p[j].pos
}

/// `(i, j)` is the first repeated pair, in the order of `i` and then of `j`.
pub open spec fn is_first_repeat(p: Seq<Vertex>, i: int, j: int) -> bool {
    &&& is_repeat(p, i, j)
    &&& forall|a: int, b: int|
        #![trigger is_repeat(p, a, b)]
        (a < i || (a == i && b < j)) ==> !is_repeat(p, a, b)
}

/// No two corners of the polygon share a position index.
pub open spec fn is_simple(p: Seq<Vertex>) -> bool {
    forall|a: int, b: int| !#[trigger] is_repeat(p, a, b)
}

/// The polygon cut at its first repeated pair `(i, j)`: the loop `[i, j)`
/// and the cyclic remainder from `j` round to `i`, each cut further until no
/// piece repeats a position index.
pub open spec fn split_polygon(p: Seq<Vertex>) -> Seq<Seq<Vertex>>
    decreases p.len(),
{
    if exists|i: int, j: int| is_first_repeat(p, i, j) {
        let (i, j) = choose|i: int, j: int| is_first_repeat(p, i, j);
        split_polygon(p.subrange(i, j)) + split_polygon(p.subrange(j, p.len() as int) + p.subrange(0, i))
    } else {
        seq![p]
    }
}

/// The views of a sequence of polygons.
pub open spec fn polygons_view(ps: Seq<Vec<Vertex>>) -> Seq<Seq<Vertex>> {
    ps.map_values(|v: Vec<Vertex>| v@)
}

proof fn lemma_first_repeat_unique(p: Seq<Vertex>, i: int, j: int, a: int, b: int)
    requires
        is_first_repeat(p, i, j),
        is_first_repeat(p, a, b),
    ensures
        i == a && j == b,
{
    assert(!(a < i || (a == i && b < j)) || !is_repeat(p, a, b));
    assert(!(i < a || (i == a && j < b)) || !is_repeat(p, i, j));
}

/// Splits a polygon that touches itself into polygons that do not.
pub fn split_into_nondegenerate(poly: Vec<Vertex>) -> (r: Vec<Vec<Vertex>>)
    ensures
        polygons_view(r@) == split_polygon(poly@),
    decreases poly@.len(),
{
    let n = poly.len();
    let mut i: usize = 0;
    while i < n
        invariant
            n == poly@.len(),
            i <= n,
            forall|a: int, b: int| #![trigger is_repeat(poly@, a, b)] a < i ==> !is_repeat(poly@, a, b),
        decreases n - i,
    {
        let mut j: usize = i + 1;
        while j < n
            invariant
                n == poly@.len(),
                i < n,
                i + 1 <= j <= n,
                forall|a: int, b: int| #![trigger is_repeat(poly@, a, b)]
                    (a < i || (a == i && b < j)) ==> !is_repeat(poly@, a, b),
            decreases n - j,
        {
            if poly[i].pos == poly[j].pos {
                proof {
                    assert(is_first_repeat(poly@, i as int, j as int));
                    let (a, b) = choose|a: int, b: int| is_first_repeat(poly@, a, b);
                    lemma_first_repeat_unique(poly@, i as int, j as int, a, b);
                }
                let mut polygon0: Vec<Vertex> = Vec::new();
                let mut k: usize = i;
                while k < j
                    invariant
                        n == poly@.len(),
                        i <= k <= j < n,
                        polygon0@ == poly@.subrange(i as int, k as int),
                    decreases j - k,
                {
                    polygon0.push(poly[k]);
                    k = k + 1;
                }
                let mut polygon1: Vec<Vertex> = Vec::new();
                let mut k: usize = j;
                while k < n
                    invariant
                        n == poly@.len(),
                        i < j <= k <= n,
                        polygon1@ == poly@.subrange(j as int, k as int),
                    decreases n - k,
                {
                    polygon1.push(poly[k]);
                    k = k + 1;
                }
                let mut k: usize = 0;
                while k < i
                    invariant
                        n == poly@.len(),
                        k <= i < j < n,
                        polygon1@ == poly@.subrange(j as int, n as int) + poly@.subrange(0, k as int),
                    decreases i - k,
                {
                    polygon1.push(poly[k]);
                    k = k + 1;
                    assert(polygon1@ == poly@.subrange(j as int, n as int) + poly@.subrange(0, k as int));
                }
                let mut result = split_into_nondegenerate(polygon0);
                let mut rest = split_into_nondegenerate(polygon1);
                let ghost r0 = result@;
                let ghost r1 = rest@;
                result.append(&mut rest);
                assert(polygons_view(result@) =~= polygons_view(r0) + polygons_view(r1));
                return result;
            }
            j = j + 1;
        }
        i = i + 1;
    }
    assert(!exists|a: int, b: int| is_first_repeat(poly@, a, b));
    let ghost p = poly@;
    let r = vec![poly];
    assert(polygons_view(r@) =~= seq![p]);
    r
}


/// The triangles of `ts` that do not repeat a position index, in order.
pub open spec fn kept_triangles(ts: Seq<Seq<Vertex>>) -> Seq<Seq<Vertex>>
    decreases ts.len(),
{
    if ts.len() == 0 {
        seq![]
    } else if is_degenerate_triangle(ts.last()) {
        kept_triangles(ts.drop_last())
    } else {
        kept_triangles(ts.drop_last()).push(ts.last())
    }
}

/// What a quadrangle leaves behind: nothing, a triangle, or itself.
pub open spec fn quad_result(q: Seq<Vertex>) -> Seq<Seq<Vertex>> {
    match quadrangle_type(q) {
        QuadrangleType::TotallyDegenerate => seq![],
        QuadrangleType::Triangle(t) => seq![t@],
        QuadrangleType::NonDegenerate => seq![q],
    }
}

/// What the quadrangles `qs` leave behind, in order.
pub open spec fn quad_results(qs: Seq<Seq<Vertex>>) -> Seq<Seq<Vertex>>
    decreases qs.len(),
{
    if qs.len() == 0 {
        seq![]
    } else {
        quad_results(qs.drop_last()) + quad_result(qs.last())
    }
}

/// The simple pieces of the polygons `ps`, in order.
pub open spec fn split_polygons(ps: Seq<Seq<Vertex>>) -> Seq<Seq<Vertex>>
    decreases ps.len(),
{
    if ps.len() == 0 {
        seq![]
    } else {
        split_polygons(ps.drop_last()) + split_polygon(ps.last())
    }
}

/// The faces without degeneracies: the kept triangles, then what the
/// quadrangles leave, then the simple pieces of the other polygons, each
/// filed under its arity.
pub open spec fn nondegenerate_faces(f: FacesView) -> FacesView {
    push_faces(
        empty_faces(),
        kept_triangles(f.tri) + quad_results(f.quad) + split_polygons(f.other),
    )
}

proof fn lemma_kept_triangles_append(a: Seq<Seq<Vertex>>, b: Seq<Seq<Vertex>>)
    ensures
        kept_triangles(a + b) == kept_triangles(a) + kept_triangles(b),
    decreases b.len(),
{
    if b.len() == 0 {
        assert(a + b =~= a);
        assert(kept_triangles(a) + kept_triangles(b) =~= kept_triangles(a));
    } else {
        assert((a + b).drop_last() =~= a + b.drop_last());
        lemma_kept_triangles_append(a, b.drop_last());
        assert(kept_triangles(a + b) =~= kept_triangles(a) + kept_triangles(b));
    }
}

proof fn lemma_quad_results_append(a: Seq<Seq<Vertex>>, b: Seq<Seq<Vertex>>)
    ensures
        quad_results(a + b) == quad_results(a) + quad_results(b),
    decreases b.len(),
{
    if b.len() == 0 {
        assert(a + b =~= a);
        assert(quad_results(a) + quad_results(b) =~= quad_results(a));
    } else {
        assert((a + b).drop_last() =~= a + b.drop_last());
        lemma_quad_results_append(a, b.drop_last());
        assert(quad_results(a + b) =~= quad_results(a) + quad_results(b));
    }
}

/// A triangle with a repeated position index leaves nothing behind: the
/// filter gives the same faces whether or not it is there.
pub proof fn lemma_collapsed_triangle_dropped(f: FacesView, i: int)
    requires
        0 <= i < f.tri.len(),
        is_degenerate_triangle(f.tri[i]),
    ensures
        nondegenerate_faces(f) == nondegenerate_faces(FacesView { tri: f.tri.remove(i), ..f }),
{
    let ts = f.tri;
    let t = ts[i];
    assert(ts =~= ts.take(i) + (seq![t] + ts.skip(i + 1)));
    assert(ts.remove(i) =~= ts.take(i) + ts.skip(i + 1));
    lemma_kept_triangles_append(ts.take(i), seq![t] + ts.skip(i + 1));
    lemma_kept_triangles_append(seq![t], ts.skip(i + 1));
    lemma_kept_triangles_append(ts.take(i), ts.skip(i + 1));
    assert(seq![t].drop_last() =~= Seq::<Seq<Vertex>>::empty());
    assert(seq![t].last() == t);
    assert(kept_triangles(seq![t].drop_last()) =~= Seq::<Seq<Vertex>>::empty());
    assert(kept_triangles(seq![t]) =~= Seq::<Seq<Vertex>>::empty());
    assert(kept_triangles(ts) =~= kept_triangles(ts.remove(i)));
}

/// A quadrangle `[p, p, q, r]` with `p`, `q`, `r` distinct becomes, in its
/// place among the quadrangles' leftovers, the triangle of its corners 0, 2
/// and 3, that is `[p, q, r]`.
pub proof fn lemma_collapsed_quad_becomes_triangle(f: FacesView, i: int)
    requires
        0 <= i < f.quad.len(),
        f.quad[i].len() == 4,
        f.quad[i][0].pos == f.quad[i][1].pos,
        f.quad[i][0].pos != f.quad[i][2].pos,
        f.quad[i][0].pos != f.quad[i][3].pos,
        f.quad[i][2].pos != f.quad[i][3].pos,
    ensures
        nondegenerate_faces(f) == push_faces(
            empty_faces(),
            kept_triangles(f.tri) + quad_results(f.quad.take(i)) + seq![
                seq![f.quad[i][0], f.quad[i][2], f.quad[i][3]],
            ] + quad_results(f.quad.skip(i + 1)) + split_polygons(f.other),
        ),
{
    let qs = f.quad;
    let q = qs[i];
    let t = seq![q[0], q[2], q[3]];
    assert(qs =~= qs.take(i) + (seq![q] + qs.skip(i + 1)));
    lemma_quad_results_append(qs.take(i), seq![q] + qs.skip(i + 1));
    lemma_quad_results_append(seq![q], qs.skip(i + 1));
    assert(seq![q].drop_last() =~= Seq::<Seq<Vertex>>::empty());
    assert(seq![q].last() == q);
    assert(quad_results(seq![q].drop_last()) =~= Seq::<Seq<Vertex>>::empty());
    assert(quadrangle_type(q) == QuadrangleType::Triangle([q[0], q[2], q[3]]));
    assert([q[0], q[2], q[3]]@ =~= t);
    assert(quad_result(q) =~= seq![t]);
    assert(quad_results(seq![q]) =~= seq![t]);
    assert(kept_triangles(f.tri) + quad_results(qs) + split_polygons(f.other) =~= kept_triangles(
        f.tri,
    ) + quad_results(qs.take(i)) + seq![t] + quad_results(qs.skip(i + 1)) + split_polygons(
        f.other,
    ));
}

fn copy_polygon(p: &Vec<Vertex>) -> (r: Vec<Vertex>)
    ensures
        r@ == p@,
{
    let mut r: Vec<Vertex> = Vec::new();
    let mut k: usize = 0;
    while k < p.len()
        invariant
            k <= p@.len(),
            r@ == p@.subrange(0, k as int),
        decreases p@.len() - k,
    {
        r.push(p[k]);
        k = k + 1;
    }
    assert(r@ =~= p@);
    r
}

impl<P, U, N> PolygonMesh<P, U, N> {
    /// Drops the triangles and quadrangles that collapse, turns quadrangles
    /// with one collapsed side into triangles, and splits the other polygons
    /// at their repeated position indices. The attributes are kept as they are.
    pub fn remove_degenerate_faces(&mut self)
        ensures
            final(self).faces@ == nondegenerate_faces(old(self).faces@),
            final(self).positions@ == old(self).positions@,
            final(self).uv_coords@ == old(self).uv_coords@,
            final(self).normals@ == old(self).normals@,
    {
        let ghost f0 = self.faces@;
        let mut faces = Faces::new();
        let ghost mut em: Seq<Seq<Vertex>> = seq![];
        let mut i: usize = 0;
        while i < self.faces.tri_faces.len()
            invariant
                self.faces@ == f0,
                i <= f0.tri.len(),
                em == kept_triangles(f0.tri.take(i as int)),
                faces@ == push_faces(empty_faces(), em),
            decreases f0.tri.len() - i,
        {
            let tri = self.faces.tri_faces[i];
            assert(f0.tri.take(i + 1).drop_last() =~= f0.tri.take(i as int));
            assert(f0.tri[i as int] == tri@);
            if !degenerate_triangle(&tri) {
                let v = vec![tri[0], tri[1], tri[2]];
                assert(v@ =~= tri@);
                faces.push(v);
                proof {
                    assert(em.push(tri@).drop_last() =~= em);
                    em = em.push(tri@);
                }
            }
            i = i + 1;
        }
        assert(f0.tri.take(f0.tri.len() as int) =~= f0.tri);
        let ghost em1 = em;
        let mut i: usize = 0;
        while i < self.faces.quad_faces.len()
            invariant
                self.faces@ == f0,
                i <= f0.quad.len(),
                em == em1 + quad_results(f0.quad.take(i as int)),
                faces@ == push_faces(empty_faces(), em),
            decreases f0.quad.len() - i,
        {
            let quad = self.faces.quad_faces[i];
            assert(f0.quad.take(i + 1).drop_last() =~= f0.quad.take(i as int));
            assert(f0.quad[i as int] == quad@);
            match degenerate_quadrangle(&quad) {
                QuadrangleType::TotallyDegenerate => {
                    assert(em =~= em1 + quad_results(f0.quad.take(i + 1)));
                },
                QuadrangleType::Triangle(tri) => {
                    let v = vec![tri[0], tri[1], tri[2]];
                    assert(v@ =~= tri@);
                    faces.push(v);
                    proof {
                        assert(em.push(tri@).drop_last() =~= em);
                        em = em.push(tri@);
                        assert(em =~= em1 + quad_results(f0.quad.take(i + 1)));
                    }
                },
                QuadrangleType::NonDegenerate => {
                    let v = vec![quad[0], quad[1], quad[2], quad[3]];
                    assert(v@ =~= quad@);
                    faces.push(v);
                    proof {
                        assert(em.push(quad@).drop_last() =~= em);
                        em = em.push(quad@);
                        assert(em =~= em1 + quad_results(f0.quad.take(i + 1)));
                    }
                },
            }
            i = i + 1;
        }
        assert(f0.quad.take(f0.quad.len() as int) =~= f0.quad);
        let ghost em2 = em;
        let mut i: usize = 0;
        while i < self.faces.other_faces.len()
            invariant
                self.faces@ == f0,
                i <= f0.other.len(),
                em == em2 + split_polygons(f0.other.take(i as int)),
                faces@ == push_faces(empty_faces(), em),
            decreases f0.other.len() - i,
        {
            let poly = copy_polygon(&self.faces.other_faces[i]);
            assert(f0.other.take(i + 1).drop_last() =~= f0.other.take(i as int));
            assert(f0.other[i as int] == poly@);
            let pieces = split_into_nondegenerate(poly);
            let ghost em_i = em;
            let mut k: usize = 0;
            while k < pieces.len()
                invariant
                    k <= pieces@.len(),
                    polygons_view(pieces@) == split_polygon(f0.other[i as int]),
                    em == em_i + polygons_view(pieces@).take(k as int),
                    faces@ == push_faces(empty_faces(), em),
                decreases pieces@.len() - k,
            {
                let piece = copy_polygon(&pieces[k]);
                faces.push(piece);
                proof {
                    assert(em.push(piece@).drop_last() =~= em);
                    em = em.push(piece@);
                    assert(em =~= em_i + polygons_view(pieces@).take(k + 1));
                }
                k = k + 1;
            }
            assert(polygons_view(pieces@).take(k as int) =~= polygons_view(pieces@));
            assert(em =~= em2 + split_polygons(f0.other.take(i + 1)));
            i = i + 1;
        }
        assert(f0.other.take(f0.other.len() as int) =~= f0.other);
        assert(em =~= kept_triangles(f0.tri) + quad_results(f0.quad) + split_polygons(f0.other));
        self.faces = faces;
    }
}

} // verus!
