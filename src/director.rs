use vstd::prelude::*;
use std::collections::HashMap;
use std::collections::hash_map::Entry;

verus! {

broadcast use vstd::std_specs::hash::group_hash_axioms;

/// The kinds of topological element, each with a store of its own.
#[derive(Clone, Copy, Debug, PartialEq, Eq, Structural)]
pub enum ElementKind {
    Vertex,
    Edge,
    Face,
}

/// A topological element known by its kind and a numeric identifier.
/// Elements of different kinds may share an identifier.
pub trait TopologicalElement {
    /// The kind of the element, which picks the store its geometry lives in.
    spec fn spec_kind(&self) -> ElementKind;

    /// The identifier of the element within its kind.
    spec fn spec_id(&self) -> u64;

    fn kind(&self) -> (r: ElementKind)
        ensures
            r == self.spec_kind(),
    ;

    fn id(&self) -> (r: u64)
        ensures
            r == self.spec_id(),
    ;
}

/// Whether the geometry of an element is in place.
#[derive(Clone, Copy, Debug, PartialEq, Eq, Structural)]
pub enum TopoGeomIntegrity {
    Integrate,
    NonPositionalVertex,
    NonCurvedEdge,
    NonSurfacedFace,
}

/// The store that attaches a geometry of type `G` to topological elements,
/// one map per element kind.
pub struct Director<G> {
    vertices: HashMap<u64, G>,
    edges: HashMap<u64, G>,
    faces: HashMap<u64, G>,
}

/// The key of an element in a `Director`: its kind and its identifier.
pub open spec fn key_of<T: TopologicalElement>(topo: &T) -> (ElementKind, u64) {
    (topo.spec_kind(), topo.spec_id())
}

impl<G> Director<G> {
    /// The geometries of one kind of element.
    pub closed spec fn kind_map(&self, kind: ElementKind) -> Map<u64, G> {
        match kind {
            ElementKind::Vertex => self.vertices@,
            ElementKind::Edge => self.edges@,
            ElementKind::Face => self.faces@,
        }
    }
}

impl<G> View for Director<G> {
    type V = Map<(ElementKind, u64), G>;

    open spec fn view(&self) -> Map<(ElementKind, u64), G> {
        Map::new(
            |k: (ElementKind, u64)| self.kind_map(k.0).contains_key(k.1),
            |k: (ElementKind, u64)| self.kind_map(k.0)[k.1],
        )
    }
}

/// An element that can tell whether its geometry is in place.
pub trait Integrity<G> {
    /// What the check gives for the element in `director`.
    spec fn spec_integrity(&self, director: &Director<G>) -> TopoGeomIntegrity;

    fn check_integrity(&self, director: &Director<G>) -> (r: TopoGeomIntegrity)
        ensures
            r == self.spec_integrity(director),
    ;
}

impl<G> Director<G> {
    /// A store with no geometry attached.
    pub fn new() -> (r: Director<G>)
        ensures
            r@.dom() == Set::<(ElementKind, u64)>::empty(),
    {
        let r = Director { vertices: HashMap::new(), edges: HashMap::new(), faces: HashMap::new() };
        assert(r@.dom() =~= Set::<(ElementKind, u64)>::empty());
        r
    }

    /// Attaches `geom` to `topo`, and returns the geometry it had before.
    /// Elements of other kinds, and of the same kind with other identifiers,
    /// keep their geometry.
    pub fn attach<T: TopologicalElement>(&mut self, topo: &T, geom: G) -> (r: Option<G>)
        ensures
            final(self)@ == old(self)@.insert(key_of(topo), geom),
            r == (if old(self)@.contains_key(key_of(topo)) {
                Some(old(self)@[key_of(topo)])
            } else {
                None
            }),
    {
        let id = topo.id();
        let r = match topo.kind() {
            ElementKind::Vertex => self.vertices.insert(id, geom),
            ElementKind::Edge => self.edges.insert(id, geom),
            ElementKind::Face => self.faces.insert(id, geom),
        };
        assert(self@ =~= old(self)@.insert(key_of(topo), geom));
        r
    }

    /// The geometry attached to `topo`, if any.
    pub fn get_geometry<T: TopologicalElement>(&self, topo: &T) -> (r: Option<&G>)
        ensures
            r == (if self@.contains_key(key_of(topo)) {
                Some(&self@[key_of(topo)])
            } else {
                None
            }),
    {
        let id = topo.id();
        match topo.kind() {
            ElementKind::Vertex => self.vertices.get(&id),
            ElementKind::Edge => self.edges.get(&id),
            ElementKind::Face => self.faces.get(&id),
        }
    }

    /// The geometry attached to `topo`, if any, to be changed in place.
    pub fn get_mut_geometry<T: TopologicalElement>(&mut self, topo: &T) -> (r: Option<&mut G>)
        ensures
            match r {
                Some(g) => old(self)@.contains_key(key_of(topo)) && *g == old(self)@[key_of(topo)]
                    && final(self)@ == old(self)@.insert(key_of(topo), *final(g)),
                None => !old(self)@.contains_key(key_of(topo)) && final(self)@ == old(self)@,
            },
    {
        let id = topo.id();
        let kind = topo.kind();
        let map = match kind {
            ElementKind::Vertex => &mut self.vertices,
            ElementKind::Edge => &mut self.edges,
            ElementKind::Face => &mut self.faces,
        };
        match map.entry(id) {
            Entry::Occupied(o) => Some(o.into_mut()),
            Entry::Vacant(_) => None,
        }
    }

    /// Detaches the geometry of `topo`, and returns it. Every other element
    /// keeps its geometry.
    pub fn remove<T: TopologicalElement>(&mut self, topo: &T) -> (r: Option<G>)
        ensures
            final(self)@ == old(self)@.remove(key_of(topo)),
            r == (if old(self)@.contains_key(key_of(topo)) {
                Some(old(self)@[key_of(topo)])
            } else {
                None
            }),
    {
        let id = topo.id();
        let r = match topo.kind() {
            ElementKind::Vertex => self.vertices.remove(&id),
            ElementKind::Edge => self.edges.remove(&id),
            ElementKind::Face => self.faces.remove(&id),
        };
        assert(self@ =~= old(self)@.remove(key_of(topo)));
        r
    }

    /// Hands the check to the element itself.
    pub fn check_integrity<T: Integrity<G>>(&self, topo: &T) -> (r: TopoGeomIntegrity)
        ensures
            r == topo.spec_integrity(self),
    {
        topo.check_integrity(self)
    }

    /// Whether an element of the given kind and identifier has a geometry.
    pub fn contains(&self, kind: ElementKind, id: u64) -> (r: bool)
        ensures
            r == self@.contains_key((kind, id)),
    {
        match kind {
            ElementKind::Vertex => self.vertices.contains_key(&id),
            ElementKind::Edge => self.edges.contains_key(&id),
            ElementKind::Face => self.faces.contains_key(&id),
        }
    }
}

/// A vertex known by its identifier.
#[derive(Clone, Copy, Debug, PartialEq, Eq, Structural)]
pub struct VertexId {
    pub id: u64,
}

/// An edge known by its identifier.
#[derive(Clone, Copy, Debug, PartialEq, Eq, Structural)]
pub struct EdgeId {
    pub id: u64,
}

/// A face known by its identifier.
#[derive(Clone, Copy, Debug, PartialEq, Eq, Structural)]
pub struct FaceId {
    pub id: u64,
}

impl TopologicalElement for VertexId {
    open spec fn spec_kind(&self) -> ElementKind {
        ElementKind::Vertex
    }

    open spec fn spec_id(&self) -> u64 {
        self.id
    }

    fn kind(&self) -> (r: ElementKind) {
        ElementKind::Vertex
    }

    fn id(&self) -> (r: u64) {
        self.id
    }
}

impl TopologicalElement for EdgeId {
    open spec fn spec_kind(&self) -> ElementKind {
        ElementKind::Edge
    }

    open spec fn spec_id(&self) -> u64 {
        self.id
    }

    fn kind(&self) -> (r: ElementKind) {
        ElementKind::Edge
    }

    fn id(&self) -> (r: u64) {
        self.id
    }
}

impl TopologicalElement for FaceId {
    open spec fn spec_kind(&self) -> ElementKind {
        ElementKind::Face
    }

    open spec fn spec_id(&self) -> u64 {
        self.id
    }

    fn kind(&self) -> (r: ElementKind) {
        ElementKind::Face
    }

    fn id(&self) -> (r: u64) {
        self.id
    }
}

impl<G> Integrity<G> for VertexId {
    open spec fn spec_integrity(&self, director: &Director<G>) -> TopoGeomIntegrity {
        if director@.contains_key(key_of(self)) {
            TopoGeomIntegrity::Integrate
        } else {
            TopoGeomIntegrity::NonPositionalVertex
        }
    }

    fn check_integrity(&self, director: &Director<G>) -> (r: TopoGeomIntegrity) {
        if director.contains(ElementKind::Vertex, self.id) {
            TopoGeomIntegrity::Integrate
        } else {
            TopoGeomIntegrity::NonPositionalVertex
        }
    }
}

impl<G> Integrity<G> for EdgeId {
    open spec fn spec_integrity(&self, director: &Director<G>) -> TopoGeomIntegrity {
        if director@.contains_key(key_of(self)) {
            TopoGeomIntegrity::Integrate
        } else {
            TopoGeomIntegrity::NonCurvedEdge
        }
    }

    fn check_integrity(&self, director: &Director<G>) -> (r: TopoGeomIntegrity) {
        if director.contains(ElementKind::Edge, self.id) {
            TopoGeomIntegrity::Integrate
        } else {
            TopoGeomIntegrity::NonCurvedEdge
        }
    }
}

impl<G> Integrity<G> for FaceId {
    open spec fn spec_integrity(&self, director: &Director<G>) -> TopoGeomIntegrity {
        if director@.contains_key(key_of(self)) {
            TopoGeomIntegrity::Integrate
        } else {
            TopoGeomIntegrity::NonSurfacedFace
        }
    }

    fn check_integrity(&self, director: &Director<G>) -> (r: TopoGeomIntegrity) {
        if director.contains(ElementKind::Face, self.id) {
            TopoGeomIntegrity::Integrate
        } else {
            TopoGeomIntegrity::NonSurfacedFace
        }
    }
}

} // verus!
