use vstd::prelude::*;
use crate::compact::{
    first_order, indices_in_range, is_compaction_of, lemma_first_order_bounded,
    lemma_first_order_coarser, lemma_first_order_len, lemma_present_bounded, nor_indices, pos_indices,
    present, uv_indices,
};
use crate::mesh::{PolygonMesh, Vertex, all_corners, same_shape};

verus! {

/// Grid cells, each with the first attribute index that landed in it.
#[verifier::external_body]
pub struct CellMap {
    map: rustc_hash::FxHashMap<Vec<i64>, usize>,
}

/// The cells held by a `CellMap`, with the index stored for each.
pub uninterp spec fn cells_of(m: CellMap) -> Map<Seq<i64>, usize>;

/// Relies on rustc_hash::FxHashMap, that is std's `HashMap` with `FxHasher`:
/// `default` gives an empty map.
#[verifier::external_body]
fn new_cell_map() -> (r: CellMap)
    ensures
        cells_of(r).dom() == Set::<Seq<i64>>::empty(),
{
    CellMap { map: rustc_hash::FxHashMap::default() }
}

/// Relies on `HashMap::entry` and `Entry::or_insert` of the map of rustc_hash:
/// the value under `key` if there is one, else `i`, stored under `key`.
#[verifier::external_body]
fn entry_or_insert(m: &mut CellMap, key: &[i64], i: usize) -> (r: usize)
    ensures
        cells_of(*old(m)).contains_key(key@) ==> r == cells_of(*old(m))[key@] && cells_of(*final(m))
            == cells_of(*old(m)),
        !cells_of(*old(m)).contains_key(key@) ==> r == i && cells_of(*final(m)) == cells_of(
            *old(m),
        ).insert(key@, i),
{
    *m.map.entry(key.to_vec()).or_insert(i)
}

/// `j` is the first index whose cell is the cell of `i`.
pub open spec fn is_cell_representative(cells: Seq<Seq<i64>>, i: int, j: int) -> bool {
    &&& 0 <= j <= i < cells.len()
    &&& cells[j] == cells[i]
    &&& forall|l: int| 0 <= l < j ==> cells[l] != cells[i]
}

/// The views of a sequence of cells.
pub open spec fn cells_view(cells: Seq<Vec<i64>>) -> Seq<Seq<i64>> {
    cells.map_values(|c: Vec<i64>| c@)
}

/// For each attribute index, the first index that lies in the same grid
/// cell: `cells[i]` is the integer cell of attribute `i`.
pub fn sub_put_together_same_attrs(cells: &Vec<Vec<i64>>) -> (res: Vec<usize>)
    ensures
        res@.len() == cells@.len(),
        forall|i: int| 0 <= i < cells@.len() ==> is_cell_representative(cells_view(cells@), i, #[trigger] res@[i] as int),
{
    let ghost cs = cells_view(cells@);
    let mut res: Vec<usize> = Vec::new();
    let mut map = new_cell_map();
    let mut i: usize = 0;
    while i < cells.len()
        invariant
            cs == cells_view(cells@),
            i <= cells@.len(),
            res@.len() == i,
            forall|j: int| 0 <= j < i ==> is_cell_representative(cs, j, #[trigger] res@[j] as int),
            forall|key: Seq<i64>| #[trigger] cells_of(map).contains_key(key) <==> exists|j: int| 0 <= j < i && cs[j] == key,
            forall|key: Seq<i64>| #[trigger] cells_of(map).contains_key(key) ==> {
                let j = cells_of(map)[key] as int;
                0 <= j < i && cs[j] == key && forall|l: int| 0 <= l < j ==> cs[l] != key
            },
        decreases cells@.len() - i,
    {
        let ghost before = cells_of(map);
        assert(cs[i as int] == cells[i as int]@);
        let r = entry_or_insert(&mut map, cells[i].as_slice(), i);
        proof {
            let key = cs[i as int];
            if !before.contains_key(key) {
                assert forall|l: int| 0 <= l < i implies cs[l] != key by {
                    if cs[l] == key {
                        assert(exists|j: int| 0 <= j < i && cs[j] == key);
                    }
                }
            }
            assert forall|k2: Seq<i64>| #[trigger] cells_of(map).contains_key(k2) <==> exists|j: int| 0 <= j < i + 1 && cs[j] == k2 by {
                if exists|j: int| 0 <= j < i + 1 && cs[j] == k2 {
                    let j = choose|j: int| 0 <= j < i + 1 && cs[j] == k2;
                    if j < i {
                        assert(before.contains_key(k2));
                    }
                }
                if before.contains_key(k2) {
                    let j = choose|j: int| 0 <= j < i && cs[j] == k2;
                    assert(0 <= j < i + 1 && cs[j] == k2);
                }
            }
        }
        res.push(r);
        i = i + 1;
    }
    res
}


/// An optional index sent to the representative of its cell.
pub open spec fn opt_welded(cells: Seq<Seq<i64>>, old: Option<usize>, new: Option<usize>) -> bool {
    match old {
        Some(x) => new matches Some(y) && is_cell_representative(cells, x as int, y as int),
        None => new is None,
    }
}

/// The corner `new` is `old` with each index sent to the first index in the
/// same cell.
pub open spec fn corner_welded(
    old: Vertex,
    new: Vertex,
    pos_cells: Seq<Seq<i64>>,
    uv_cells: Seq<Seq<i64>>,
    nor_cells: Seq<Seq<i64>>,
) -> bool {
    &&& is_cell_representative(pos_cells, old.pos as int, new.pos as int)
    &&& opt_welded(uv_cells, old.uv, new.uv)
    &&& opt_welded(nor_cells, old.nor, new.nor)
}

/// What `put_together_same_attrs` makes of `old` under the given cells: the
/// faces keep their shape, each corner index goes to the first index in its
/// cell, and the attribute arrays stay as they are.
pub open spec fn is_welding_of<P, U, N>(
    new: PolygonMesh<P, U, N>,
    old: PolygonMesh<P, U, N>,
    pos_cells: Seq<Seq<i64>>,
    uv_cells: Seq<Seq<i64>>,
    nor_cells: Seq<Seq<i64>>,
) -> bool {
    let vs = all_corners(old.faces@);
    let ws = all_corners(new.faces@);
    &&& same_shape(new.faces@, old.faces@)
    &&& ws.len() == vs.len()
    &&& forall|k: int| 0 <= k < vs.len() ==> corner_welded(vs[k], #[trigger] ws[k], pos_cells, uv_cells, nor_cells)
    &&& new.positions@ == old.positions@
    &&& new.uv_coords@ == old.uv_coords@
    &&& new.normals@ == old.normals@
}

impl<P, U, N> PolygonMesh<P, U, N> {
    /// Gives every attribute index the first index whose value lies in the
    /// same grid cell; `pos_cells[i]` is the cell of position `i`, and so on.
    /// Entries that no longer get referred to are kept.
    pub fn put_together_same_attrs(
        &mut self,
        pos_cells: &Vec<Vec<i64>>,
        uv_cells: &Vec<Vec<i64>>,
        nor_cells: &Vec<Vec<i64>>,
    )
        requires
            indices_in_range(*old(self)),
            pos_cells@.len() == old(self).positions@.len(),
            uv_cells@.len() == old(self).uv_coords@.len(),
            nor_cells@.len() == old(self).normals@.len(),
        ensures
            is_welding_of(
                *final(self),
                *old(self),
                cells_view(pos_cells@),
                cells_view(uv_cells@),
                cells_view(nor_cells@),
            ),
    {
        let pos_map = sub_put_together_same_attrs(pos_cells);
        let uv_map = sub_put_together_same_attrs(uv_cells);
        let nor_map = sub_put_together_same_attrs(nor_cells);
        let vs = self.faces.corners();
        let ghost v = vs@;
        let mut ws: Vec<Vertex> = Vec::new();
        let mut k: usize = 0;
        while k < vs.len()
            invariant
                v == vs@,
                v == all_corners(self.faces@),
                indices_in_range(*self),
                pos_cells@.len() == self.positions@.len(),
                uv_cells@.len() == self.uv_coords@.len(),
                nor_cells@.len() == self.normals@.len(),
                pos_map@.len() == self.positions@.len(),
                uv_map@.len() == self.uv_coords@.len(),
                nor_map@.len() == self.normals@.len(),
                forall|i: int| 0 <= i < pos_cells@.len() ==> is_cell_representative(cells_view(pos_cells@), i, #[trigger] pos_map@[i] as int),
                forall|i: int| 0 <= i < uv_cells@.len() ==> is_cell_representative(cells_view(uv_cells@), i, #[trigger] uv_map@[i] as int),
                forall|i: int| 0 <= i < nor_cells@.len() ==> is_cell_representative(cells_view(nor_cells@), i, #[trigger] nor_map@[i] as int),
                k <= v.len(),
                ws@.len() == k,
                forall|j: int| 0 <= j < k ==> corner_welded(v[j], #[trigger] ws@[j], cells_view(pos_cells@), cells_view(uv_cells@), cells_view(nor_cells@)),
            decreases v.len() - k,
        {
            let c = vs[k];
            assert(all_corners(self.faces@)[k as int] == c);
            let uv = match c.uv {
                Some(u) => Some(uv_map[u]),
                None => None,
            };
            let nor = match c.nor {
                Some(n) => Some(nor_map[n]),
                None => None,
            };
            ws.push(Vertex { pos: pos_map[c.pos], uv, nor });
            proof {
                assert(is_cell_representative(cells_view(pos_cells@), c.pos as int, pos_map@[c.pos as int] as int));
                if c.uv is Some {
                    let u = c.uv->0;
                    assert(is_cell_representative(cells_view(uv_cells@), u as int, uv_map@[u as int] as int));
                }
                if c.nor is Some {
                    let n = c.nor->0;
                    assert(is_cell_representative(cells_view(nor_cells@), n as int, nor_map@[n as int] as int));
                }
                assert(corner_welded(v[k as int], ws@[k as int], cells_view(pos_cells@), cells_view(uv_cells@), cells_view(nor_cells@)));
            }
            k = k + 1;
        }
        self.faces = self.faces.with_corners(&ws);
    }
}


/// Two corners whose positions lie in the same cell share one position index
/// after welding.
pub proof fn lemma_same_cell_same_index<P, U, N>(
    new: PolygonMesh<P, U, N>,
    old: PolygonMesh<P, U, N>,
    pos_cells: Seq<Seq<i64>>,
    uv_cells: Seq<Seq<i64>>,
    nor_cells: Seq<Seq<i64>>,
    k1: int,
    k2: int,
)
    requires
        is_welding_of(new, old, pos_cells, uv_cells, nor_cells),
        0 <= k1 < all_corners(old.faces@).len(),
        0 <= k2 < all_corners(old.faces@).len(),
        pos_cells[all_corners(old.faces@)[k1].pos as int] == pos_cells[all_corners(old.faces@)[k2].pos as int],
    ensures
        all_corners(new.faces@)[k1].pos == all_corners(new.faces@)[k2].pos,
{
    let (vs, ws) = (all_corners(old.faces@), all_corners(new.faces@));
    assert(corner_welded(vs[k1], ws[k1], pos_cells, uv_cells, nor_cells));
    assert(corner_welded(vs[k2], ws[k2], pos_cells, uv_cells, nor_cells));
    let (j1, j2) = (ws[k1].pos as int, ws[k2].pos as int);
    if j1 < j2 {
        assert(pos_cells[j1] == pos_cells[vs[k2].pos as int]);
    } else if j2 < j1 {
        assert(pos_cells[j2] == pos_cells[vs[k1].pos as int]);
    }
}

proof fn lemma_representative_unique(cells: Seq<Seq<i64>>, i: int, j1: int, j2: int)
    requires
        is_cell_representative(cells, i, j1),
        is_cell_representative(cells, i, j2),
    ensures
        j1 == j2,
{
    if j1 < j2 {
        assert(cells[j1] == cells[i]);
    } else if j2 < j1 {
        assert(cells[j2] == cells[i]);
    }
}

proof fn lemma_present_welded(cells: Seq<Seq<i64>>, a: Seq<Option<usize>>, b: Seq<Option<usize>>)
    requires
        a.len() == b.len(),
        forall|k: int| 0 <= k < a.len() ==> opt_welded(cells, a[k], #[trigger] b[k]),
    ensures
        present(b).len() == present(a).len(),
        forall|j: int|
            0 <= j < present(a).len() ==> is_cell_representative(cells, present(a)[j] as int, #[trigger] present(b)[j] as int),
    decreases a.len(),
{
    if a.len() > 0 {
        let (ad, bd) = (a.drop_last(), b.drop_last());
        assert forall|k: int| 0 <= k < ad.len() implies opt_welded(cells, ad[k], #[trigger] bd[k]) by {
            assert(opt_welded(cells, a[k], b[k]));
        }
        lemma_present_welded(cells, ad, bd);
        assert(opt_welded(cells, a[a.len() - 1], b[b.len() - 1]));
    }
}

proof fn lemma_welded_coarser(cells: Seq<Seq<i64>>, s: Seq<usize>, t: Seq<usize>)
    requires
        t.len() == s.len(),
        forall|k: int| 0 <= k < s.len() ==> is_cell_representative(cells, s[k] as int, #[trigger] t[k] as int),
    ensures
        first_order(t).len() <= first_order(s).len(),
{
    assert forall|a: int, b: int| 0 <= a < s.len() && 0 <= b < s.len() && s[a] == s[b] implies #[trigger] t[a] == #[trigger] t[b] by {
        assert(is_cell_representative(cells, s[a] as int, t[a] as int));
        assert(is_cell_representative(cells, s[b] as int, t[b] as int));
        lemma_representative_unique(cells, s[a] as int, t[a] as int, t[b] as int);
    }
    lemma_first_order_coarser(s, t);
}

/// Welding and then compacting leaves no attribute array longer than the
/// number of distinct indices of its kind at the corners before welding,
/// nor longer than it was.
pub proof fn lemma_weld_then_compact_no_growth<P, U, N>(
    m0: PolygonMesh<P, U, N>,
    m1: PolygonMesh<P, U, N>,
    m2: PolygonMesh<P, U, N>,
    pos_cells: Seq<Seq<i64>>,
    uv_cells: Seq<Seq<i64>>,
    nor_cells: Seq<Seq<i64>>,
)
    requires
        indices_in_range(m0),
        is_welding_of(m1, m0, pos_cells, uv_cells, nor_cells),
        is_compaction_of(m2, m1),
    ensures
        m2.positions@.len() <= pos_indices(all_corners(m0.faces@)).to_set().len(),
        m2.uv_coords@.len() <= uv_indices(all_corners(m0.faces@)).to_set().len(),
        m2.normals@.len() <= nor_indices(all_corners(m0.faces@)).to_set().len(),
        m2.positions@.len() <= m0.positions@.len(),
        m2.uv_coords@.len() <= m0.uv_coords@.len(),
        m2.normals@.len() <= m0.normals@.len(),
{
    let (vs, ws) = (all_corners(m0.faces@), all_corners(m1.faces@));
    let vu = vs.map_values(|c: Vertex| c.uv);
    let vn = vs.map_values(|c: Vertex| c.nor);
    let wu = ws.map_values(|c: Vertex| c.uv);
    let wn = ws.map_values(|c: Vertex| c.nor);
    assert forall|k: int| 0 <= k < vs.len() implies {
        &&& is_cell_representative(pos_cells, pos_indices(vs)[k] as int, #[trigger] pos_indices(ws)[k] as int)
        &&& opt_welded(uv_cells, vu[k], wu[k])
        &&& opt_welded(nor_cells, vn[k], wn[k])
    } by {
        assert(corner_welded(vs[k], ws[k], pos_cells, uv_cells, nor_cells));
    }
    assert forall|k: int| 0 <= k < vu.len() implies opt_welded(uv_cells, vu[k], #[trigger] wu[k]) by {
        assert(is_cell_representative(pos_cells, pos_indices(vs)[k] as int, pos_indices(ws)[k] as int));
    }
    assert forall|k: int| 0 <= k < vn.len() implies opt_welded(nor_cells, vn[k], #[trigger] wn[k]) by {
        assert(is_cell_representative(pos_cells, pos_indices(vs)[k] as int, pos_indices(ws)[k] as int));
    }
    lemma_present_welded(uv_cells, vu, wu);
    lemma_present_welded(nor_cells, vn, wn);
    lemma_welded_coarser(pos_cells, pos_indices(vs), pos_indices(ws));
    lemma_welded_coarser(uv_cells, uv_indices(vs), uv_indices(ws));
    lemma_welded_coarser(nor_cells, nor_indices(vs), nor_indices(ws));
    lemma_first_order_len(pos_indices(vs));
    lemma_first_order_len(uv_indices(vs));
    lemma_first_order_len(nor_indices(vs));
    assert forall|k: int| 0 <= k < ws.len() implies {
        &&& #[trigger] pos_indices(ws)[k] < m0.positions@.len()
        &&& (wu[k] matches Some(x) ==> x < m0.uv_coords@.len())
        &&& (wn[k] matches Some(x) ==> x < m0.normals@.len())
    } by {
        assert(corner_welded(vs[k], ws[k], pos_cells, uv_cells, nor_cells));
        assert(vs[k] == all_corners(m0.faces@)[k]);
    }
    assert forall|k: int| 0 <= k < wu.len() implies (#[trigger] wu[k] matches Some(x) ==> x < m0.uv_coords@.len()) by {
        assert(pos_indices(ws)[k] < m0.positions@.len());
    }
    assert forall|k: int| 0 <= k < wn.len() implies (#[trigger] wn[k] matches Some(x) ==> x < m0.normals@.len()) by {
        assert(pos_indices(ws)[k] < m0.positions@.len());
    }
    lemma_present_bounded(wu, m0.uv_coords@.len());
    lemma_present_bounded(wn, m0.normals@.len());
    lemma_first_order_bounded(pos_indices(ws), m0.positions@.len());
    lemma_first_order_bounded(uv_indices(ws), m0.uv_coords@.len());
    lemma_first_order_bounded(nor_indices(ws), m0.normals@.len());
}

} // verus!
