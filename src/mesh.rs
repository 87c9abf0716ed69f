use vstd::prelude::*;

verus! {

/// A corner of a polygon: an index into the positions, and optional indices
/// into the texture coordinates and the normals.
#[derive(Clone, Copy, Debug, PartialEq, Eq, Structural)]
pub struct Vertex {
    pub pos: usize,
    pub uv: Option<usize>,
    pub nor: Option<usize>,
}

impl Vertex {
    /// A vertex with a position index and no texture coordinate or normal.
    pub fn from_pos(pos: usize) -> (r: Vertex)
        ensures
            r == (Vertex { pos, uv: None, nor: None }),
    {
        Vertex { pos, uv: None, nor: None }
    }
}


/// The faces of a mesh, kept apart by arity.
#[derive(Clone, Debug, PartialEq, Eq)]
pub struct Faces {
    pub tri_faces: Vec<[Vertex; 3]>,
    pub quad_faces: Vec<[Vertex; 4]>,
    pub other_faces: Vec<Vec<Vertex>>,
}

/// The faces of a mesh as sequences of corners: triangles, quadrangles, and
/// the polygons of any other arity.
pub struct FacesView {
    pub tri: Seq<Seq<Vertex>>,
    pub quad: Seq<Seq<Vertex>>,
    pub other: Seq<Seq<Vertex>>,
}

pub open spec fn empty_faces() -> FacesView {
    FacesView { tri: seq![], quad: seq![], other: seq![] }
}

/// The faces after one more polygon was added under its arity.
pub open spec fn push_face(f: FacesView, p: Seq<Vertex>) -> FacesView {
    if p.len() == 3 {
        FacesView { tri: f.tri.push(p), ..f }
    } else if p.len() == 4 {
        FacesView { quad: f.quad.push(p), ..f }
    } else {
        FacesView { other: f.other.push(p), ..f }
    }
}

/// The faces after the polygons `ps` were added one by one.
pub open spec fn push_faces(f: FacesView, ps: Seq<Seq<Vertex>>) -> FacesView
    decreases ps.len(),
{
    if ps.len() == 0 {
        f
    } else {
        push_face(push_faces(f, ps.drop_last()), ps.last())
    }
}

/// The corners of the polygons `ps`, one polygon after another.
pub open spec fn flat(ps: Seq<Seq<Vertex>>) -> Seq<Vertex>
    decreases ps.len(),
{
    if ps.len() == 0 {
        seq![]
    } else {
        flat(ps.drop_last()) + ps.last()
    }
}

/// The corners of all faces: triangles, then quadrangles, then the others.
pub open spec fn all_corners(f: FacesView) -> Seq<Vertex> {
    flat(f.tri) + flat(f.quad) + flat(f.other)
}

/// Two sequences of polygons with the same arities, polygon by polygon.
pub open spec fn same_lengths(a: Seq<Seq<Vertex>>, b: Seq<Seq<Vertex>>) -> bool {
    a.len() == b.len() && forall|i: int| 0 <= i < a.len() ==> #[trigger] a[i].len() == b[i].len()
}

/// Two face sets with the same polygons up to the indices at their corners.
pub open spec fn same_shape(a: FacesView, b: FacesView) -> bool {
    same_lengths(a.tri, b.tri) && same_lengths(a.quad, b.quad) && same_lengths(a.other, b.other)
}

pub proof fn lemma_flat_append(a: Seq<Seq<Vertex>>, b: Seq<Seq<Vertex>>)
    ensures
        flat(a + b) == flat(a) + flat(b),
    decreases b.len(),
{
    if b.len() == 0 {
        assert(a + b =~= a);
        assert(flat(a) + flat(b) =~= flat(a));
    } else {
        assert((a + b).drop_last() =~= a + b.drop_last());
        lemma_flat_append(a, b.drop_last());
        assert(flat(a + b) =~= flat(a) + flat(b));
    }
}

proof fn lemma_flat_len(x: Seq<Seq<Vertex>>, y: Seq<Seq<Vertex>>)
    requires
        same_lengths(x, y),
    ensures
        flat(x).len() == flat(y).len(),
    decreases x.len(),
{
    if x.len() > 0 {
        lemma_flat_len(x.drop_last(), y.drop_last());
        assert(x.last().len() == y.last().len());
    }
}

proof fn lemma_flat_injective(x: Seq<Seq<Vertex>>, y: Seq<Seq<Vertex>>)
    requires
        same_lengths(x, y),
        flat(x) == flat(y),
    ensures
        x == y,
    decreases x.len(),
{
    if x.len() > 0 {
        let (xd, yd) = (x.drop_last(), y.drop_last());
        lemma_flat_len(xd, yd);
        assert(x.last().len() == y.last().len());
        let n = flat(xd).len() as int;
        assert(flat(xd) =~= flat(x).subrange(0, n));
        assert(flat(yd) =~= flat(y).subrange(0, n));
        assert(x.last() =~= flat(x).subrange(n, flat(x).len() as int));
        assert(y.last() =~= flat(y).subrange(n, flat(y).len() as int));
        lemma_flat_injective(xd, yd);
        assert(x =~= xd.push(x.last()));
        assert(y =~= yd.push(y.last()));
    } else {
        assert(x =~= y);
    }
}

/// Faces of the same shape with the same corners are the same faces.
pub proof fn lemma_faces_from_corners(a: FacesView, b: FacesView)
    requires
        same_shape(a, b),
        all_corners(a) == all_corners(b),
    ensures
        a == b,
{
    lemma_flat_len(a.tri, b.tri);
    lemma_flat_len(a.quad, b.quad);
    lemma_flat_len(a.other, b.other);
    let (n1, n2) = (flat(a.tri).len() as int, flat(a.quad).len() as int);
    let (ca, cb) = (all_corners(a), all_corners(b));
    assert(flat(a.tri) =~= ca.subrange(0, n1));
    assert(flat(b.tri) =~= cb.subrange(0, n1));
    assert(flat(a.quad) =~= ca.subrange(n1, n1 + n2));
    assert(flat(b.quad) =~= cb.subrange(n1, n1 + n2));
    assert(flat(a.other) =~= ca.subrange(n1 + n2, ca.len() as int));
    assert(flat(b.other) =~= cb.subrange(n1 + n2, cb.len() as int));
    lemma_flat_injective(a.tri, b.tri);
    lemma_flat_injective(a.quad, b.quad);
    lemma_flat_injective(a.other, b.other);
}

impl View for Faces {
    type V = FacesView;

    open spec fn view(&self) -> FacesView {
        FacesView {
            tri: self.tri_faces@.map_values(|t: [Vertex; 3]| t@),
            quad: self.quad_faces@.map_values(|q: [Vertex; 4]| q@),
            other: self.other_faces@.map_values(|p: Vec<Vertex>| p@),
        }
    }
}

impl Faces {
    /// No faces.
    pub fn new() -> (r: Faces)
        ensures
            r@ == empty_faces(),
    {
        let r = Faces { tri_faces: Vec::new(), quad_faces: Vec::new(), other_faces: Vec::new() };
        assert(r@.tri =~= seq![]);
        assert(r@.quad =~= seq![]);
        assert(r@.other =~= seq![]);
        r
    }

    /// Adds a polygon among the faces of its arity.
    pub fn push(&mut self, face: Vec<Vertex>)
        ensures
            final(self)@ == push_face(old(self)@, face@),
    {
        let ghost p = face@;
        if face.len() == 3 {
            let t = [face[0], face[1], face[2]];
            assert(t@ =~= p);
            self.tri_faces.push(t);
            assert(self@.tri =~= old(self)@.tri.push(p));
        } else if face.len() == 4 {
            let q = [face[0], face[1], face[2], face[3]];
            assert(q@ =~= p);
            self.quad_faces.push(q);
            assert(self@.quad =~= old(self)@.quad.push(p));
        } else {
            self.other_faces.push(face);
            assert(self@.other =~= old(self)@.other.push(p));
        }
        assert(self@.tri =~= push_face(old(self)@, p).tri);
        assert(self@.quad =~= push_face(old(self)@, p).quad);
        assert(self@.other =~= push_face(old(self)@, p).other);
    }

    /// The corners of all faces, in the order of `all_corners`.
    pub fn corners(&self) -> (r: Vec<Vertex>)
        ensures
            r@ == all_corners(self@),
    {
        let ghost f = self@;
        let mut r: Vec<Vertex> = Vec::new();
        let mut i: usize = 0;
        while i < self.tri_faces.len()
            invariant
                f == self@,
                i <= f.tri.len(),
                r@ == flat(f.tri.take(i as int)),
            decreases f.tri.len() - i,
        {
            let t = self.tri_faces[i];
            assert(f.tri.take(i + 1).drop_last() =~= f.tri.take(i as int));
            r.push(t[0]);
            r.push(t[1]);
            r.push(t[2]);
            assert(r@ =~= flat(f.tri.take(i as int)) + t@);
            i = i + 1;
        }
        assert(f.tri.take(f.tri.len() as int) =~= f.tri);
        let ghost r1 = r@;
        let mut i: usize = 0;
        while i < self.quad_faces.len()
            invariant
                f == self@,
                i <= f.quad.len(),
                r@ == r1 + flat(f.quad.take(i as int)),
            decreases f.quad.len() - i,
        {
            let q = self.quad_faces[i];
            assert(f.quad.take(i + 1).drop_last() =~= f.quad.take(i as int));
            r.push(q[0]);
            r.push(q[1]);
            r.push(q[2]);
            r.push(q[3]);
            assert(r@ =~= r1 + (flat(f.quad.take(i as int)) + q@));
            i = i + 1;
        }
        assert(f.quad.take(f.quad.len() as int) =~= f.quad);
        let ghost r2 = r@;
        let mut i: usize = 0;
        while i < self.other_faces.len()
            invariant
                f == self@,
                i <= f.other.len(),
                r@ == r2 + flat(f.other.take(i as int)),
            decreases f.other.len() - i,
        {
            assert(f.other.take(i + 1).drop_last() =~= f.other.take(i as int));
            let p = &self.other_faces[i];
            let ghost r3 = r@;
            let mut k: usize = 0;
            while k < p.len()
                invariant
                    k <= p@.len(),
                    r@ == r3 + p@.take(k as int),
                decreases p@.len() - k,
            {
                r.push(p[k]);
                assert(r@ =~= r3 + p@.take(k + 1));
                k = k + 1;
            }
            assert(p@.take(k as int) =~= p@);
            assert(r@ =~= r2 + (flat(f.other.take(i as int)) + p@));
            i = i + 1;
        }
        assert(f.other.take(f.other.len() as int) =~= f.other);
        r
    }

    /// The same faces with their corners replaced, in order, by `w`.
    pub fn with_corners(&self, w: &Vec<Vertex>) -> (r: Faces)
        requires
            w@.len() == all_corners(self@).len(),
        ensures
            same_shape(r@, self@),
            all_corners(r@) == w@,
    {
        let ghost f = self@;
        let n: usize = w.len();
        let mut off: usize = 0;
        let mut tris: Vec<[Vertex; 3]> = Vec::new();
        let mut i: usize = 0;
        while i < self.tri_faces.len()
            invariant
                f == self@,
                n == w@.len(),
                n == all_corners(f).len(),
                i <= f.tri.len(),
                tris@.len() == i,
                off == flat(f.tri.take(i as int)).len(),
                flat(tris@.map_values(|t: [Vertex; 3]| t@)) == w@.subrange(0, off as int),
            decreases f.tri.len() - i,
        {
            proof {
                assert(f.tri.take(i + 1).drop_last() =~= f.tri.take(i as int));
                assert(f.tri.take(i + 1).last() == f.tri[i as int]);
                assert(flat(f.tri.take(i + 1)) == flat(f.tri.take(i as int)) + f.tri[i as int]);
                assert(f.tri[i as int].len() == 3);
                assert(f.tri =~= f.tri.take(i + 1) + f.tri.skip(i + 1));
                lemma_flat_append(f.tri.take(i + 1), f.tri.skip(i + 1));
            }
            let t = [w[off], w[off + 1], w[off + 2]];
            let ghost old_tris = tris@;
            tris.push(t);
            assert(tris@.map_values(|t: [Vertex; 3]| t@).drop_last() =~= old_tris.map_values(|t: [Vertex; 3]| t@));
            off = off + 3;
            assert(flat(tris@.map_values(|t: [Vertex; 3]| t@)) =~= w@.subrange(0, off as int));
            i = i + 1;
        }
        assert(f.tri.take(f.tri.len() as int) =~= f.tri);
        let ghost o1 = off;
        let mut quads: Vec<[Vertex; 4]> = Vec::new();
        let mut i: usize = 0;
        while i < self.quad_faces.len()
            invariant
                f == self@,
                n == w@.len(),
                n == all_corners(f).len(),
                o1 == flat(f.tri).len(),
                i <= f.quad.len(),
                quads@.len() == i,
                off == o1 + flat(f.quad.take(i as int)).len(),
                flat(quads@.map_values(|q: [Vertex; 4]| q@)) == w@.subrange(o1 as int, off as int),
            decreases f.quad.len() - i,
        {
            proof {
                assert(f.quad.take(i + 1).drop_last() =~= f.quad.take(i as int));
                assert(f.quad.take(i + 1).last() == f.quad[i as int]);
                assert(flat(f.quad.take(i + 1)) == flat(f.quad.take(i as int)) + f.quad[i as int]);
                assert(f.quad[i as int].len() == 4);
                assert(f.quad =~= f.quad.take(i + 1) + f.quad.skip(i + 1));
                lemma_flat_append(f.quad.take(i + 1), f.quad.skip(i + 1));
            }
            let q = [w[off], w[off + 1], w[off + 2], w[off + 3]];
            let ghost old_quads = quads@;
            quads.push(q);
            assert(quads@.map_values(|q: [Vertex; 4]| q@).drop_last() =~= old_quads.map_values(|q: [Vertex; 4]| q@));
            off = off + 4;
            assert(flat(quads@.map_values(|q: [Vertex; 4]| q@)) =~= w@.subrange(o1 as int, off as int));
            i = i + 1;
        }
        assert(f.quad.take(f.quad.len() as int) =~= f.quad);
        let ghost o2 = off;
        let mut others: Vec<Vec<Vertex>> = Vec::new();
        let mut i: usize = 0;
        while i < self.other_faces.len()
            invariant
                f == self@,
                n == w@.len(),
                n == all_corners(f).len(),
                o2 == flat(f.tri).len() + flat(f.quad).len(),
                i <= f.other.len(),
                others@.len() == i,
                forall|j: int| 0 <= j < i ==> #[trigger] others@[j]@.len() == f.other[j].len(),
                off == o2 + flat(f.other.take(i as int)).len(),
                flat(others@.map_values(|p: Vec<Vertex>| p@)) == w@.subrange(o2 as int, off as int),
            decreases f.other.len() - i,
        {
            proof {
                assert(f.other.take(i + 1).drop_last() =~= f.other.take(i as int));
                assert(f.other.take(i + 1).last() == f.other[i as int]);
                assert(flat(f.other.take(i + 1)) == flat(f.other.take(i as int)) + f.other[i as int]);
                assert(f.other =~= f.other.take(i + 1) + f.other.skip(i + 1));
                lemma_flat_append(f.other.take(i + 1), f.other.skip(i + 1));
            }
            let len = self.other_faces[i].len();
            assert(len == f.other[i as int].len());
            let mut p: Vec<Vertex> = Vec::new();
            let mut k: usize = 0;
            while k < len
                invariant
                    n == w@.len(),
                    off + len <= n,
                    k <= len,
                    p@ == w@.subrange(off as int, off + k),
                decreases len - k,
            {
                p.push(w[off + k]);
                k = k + 1;
                assert(p@ =~= w@.subrange(off as int, off + k));
            }
            let ghost old_others = others@;
            let ghost pv = p@;
            others.push(p);
            assert(others@.map_values(|p: Vec<Vertex>| p@).drop_last() =~= old_others.map_values(|p: Vec<Vertex>| p@));
            assert(others@.map_values(|p: Vec<Vertex>| p@).last() == pv);
            off = off + len;
            assert(flat(others@.map_values(|p: Vec<Vertex>| p@)) =~= w@.subrange(o2 as int, off as int));
            i = i + 1;
        }
        assert(f.other.take(f.other.len() as int) =~= f.other);
        let r = Faces { tri_faces: tris, quad_faces: quads, other_faces: others };
        assert(all_corners(r@) =~= w@);
        r
    }

    /// The number of faces of every arity.
    pub fn len(&self) -> (r: usize)
        requires
            self@.tri.len() + self@.quad.len() + self@.other.len() <= usize::MAX,
        ensures
            r == self@.tri.len() + self@.quad.len() + self@.other.len(),
    {
        self.tri_faces.len() + self.quad_faces.len() + self.other_faces.len()
    }
}

/// A polygon mesh: attribute arrays and the faces that index into them.
/// The attributes are opaque to the filters of this crate, which only move
/// them and compare their indices.
#[derive(Clone, Debug)]
pub struct PolygonMesh<P, U, N> {
    pub positions: Vec<P>,
    pub uv_coords: Vec<U>,
    pub normals: Vec<N>,
    pub faces: Faces,
}

impl<P, U, N> PolygonMesh<P, U, N> {
    /// A mesh of the given attributes and faces.
    pub fn new(positions: Vec<P>, uv_coords: Vec<U>, normals: Vec<N>, faces: Faces) -> (r: Self)
        ensures
            r.positions@ == positions@,
            r.uv_coords@ == uv_coords@,
            r.normals@ == normals@,
            r.faces@ == faces@,
    {
        PolygonMesh { positions, uv_coords, normals, faces }
    }
}

} // verus!
