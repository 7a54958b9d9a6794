//! The mesh that a document describes.

use crate::number::{check_float_literal, is_float_literal, lemma_single_digit};
use crate::text::string_of;
use vstd::prelude::*;

verus! {

/// A coordinate, kept as the floating-point literal that the document gives
/// for it. No value of this type holds anything but such a literal.
#[derive(Debug, PartialEq, Eq)]
pub struct Numeral {
    text: String,
}

impl View for Numeral {
    type V = Seq<char>;

    closed spec fn view(&self) -> Seq<char> {
        self.text@
    }
}

impl Numeral {
    #[verifier::type_invariant]
    spec fn is_literal(&self) -> bool {
        is_float_literal(self.text@)
    }

    /// Reads a token as a coordinate: succeeds on the floating-point
    /// literals, and keeps the token as it is.
    pub fn parse(token: &[char]) -> (r: Option<Numeral>)
        ensures
            r is Some <==> is_float_literal(token@),
            r matches Some(n) ==> n@ == token@,
    {
        if check_float_literal(token) {
            Some(Numeral { text: string_of(token) })
        } else {
            None
        }
    }

    /// The coordinate `0`.
    pub fn zero() -> (n: Numeral)
        ensures
            n@ == seq!['0'],
    {
        let digit: [char; 1] = ['0'];
        proof {
            assert(digit@ =~= seq!['0']);
            lemma_single_digit('0');
        }
        Numeral { text: string_of(digit.as_slice()) }
    }

    /// The coordinate `1`.
    pub fn one() -> (n: Numeral)
        ensures
            n@ == seq!['1'],
    {
        let digit: [char; 1] = ['1'];
        proof {
            assert(digit@ =~= seq!['1']);
            lemma_single_digit('1');
        }
        Numeral { text: string_of(digit.as_slice()) }
    }

    /// The literal, which is a floating-point literal.
    pub fn as_str(&self) -> (s: &str)
        ensures
            s@ == self@,
            is_float_literal(s@),
    {
        proof {
            use_type_invariant(self);
        }
        self.text.as_str()
    }
}

impl Clone for Numeral {
    fn clone(&self) -> (n: Numeral)
        ensures
            n@ == self@,
    {
        proof {
            use_type_invariant(self);
        }
        Numeral { text: self.text.clone() }
    }
}

/// A vertex: a position and an auxiliary vector, three coordinates each.
#[derive(Debug, PartialEq, Eq)]
pub struct Vertex {
    /// The position: `x`, `y` and `z`.
    pub pos: [Numeral; 3],
    /// The auxiliary vector: `u`, `v` and `w`.
    pub uvw: [Numeral; 3],
}

/// What a [`Vertex`] stands for in specifications: the literals of its
/// coordinates.
pub struct VertexSpec {
    pub pos: Seq<Seq<char>>,
    pub uvw: Seq<Seq<char>>,
}

/// A mesh: vertices in the order of their declaration, and one flat list of
/// indices into them, counted from zero. An `l` statement adds a run of two
/// indices, an `f` statement a run of three for each triangle.
#[derive(Debug, PartialEq, Eq)]
pub struct Mesh {
    pub vertices: Vec<Vertex>,
    pub indices: Vec<u32>,
}

/// What a [`Mesh`] stands for in specifications.
pub struct MeshSpec {
    pub vertices: Seq<VertexSpec>,
    pub indices: Seq<u32>,
}

/// The literals of a sequence of coordinates.
pub open spec fn literals(coordinates: Seq<Numeral>) -> Seq<Seq<char>> {
    Seq::new(coordinates.len(), |k: int| coordinates[k]@)
}

impl View for Vertex {
    type V = VertexSpec;

    open spec fn view(&self) -> VertexSpec {
        VertexSpec { pos: literals(self.pos@), uvw: literals(self.uvw@) }
    }
}

impl View for Mesh {
    type V = MeshSpec;

    open spec fn view(&self) -> MeshSpec {
        MeshSpec {
            vertices: Seq::new(self.vertices@.len(), |k: int| self.vertices@[k]@),
            indices: self.indices@,
        }
    }
}

impl VertexSpec {
    /// Whether the vertex has three coordinates in each of its two vectors,
    /// every one of them a floating-point literal.
    pub open spec fn is_numeric(self) -> bool {
        &&& self.pos.len() == 3
        &&& self.uvw.len() == 3
        &&& forall|k: int| 0 <= k < 3 ==> is_float_literal(#[trigger] self.pos[k])
        &&& forall|k: int| 0 <= k < 3 ==> is_float_literal(#[trigger] self.uvw[k])
    }
}

impl MeshSpec {
    /// The mesh without vertices and indices.
    pub open spec fn empty() -> MeshSpec {
        MeshSpec { vertices: Seq::empty(), indices: Seq::empty() }
    }

    /// Whether every index refers to a vertex of the mesh.
    pub open spec fn is_closed(self) -> bool {
        forall|k: int| 0 <= k < self.indices.len() ==> (#[trigger] self.indices[k])
            < self.vertices.len()
    }

    /// Whether every vertex is numeric and every index refers to a vertex.
    pub open spec fn is_sound(self) -> bool {
        &&& self.is_closed()
        &&& forall|k: int|
            0 <= k < self.vertices.len() ==> (#[trigger] self.vertices[k]).is_numeric()
    }

    /// Whether the mesh holds `earlier` and, after it, possibly more: what
    /// `earlier` holds is still there, in the same places.
    pub open spec fn extends(self, earlier: MeshSpec) -> bool {
        &&& earlier.vertices.is_prefix_of(self.vertices)
        &&& earlier.indices.is_prefix_of(self.indices)
    }

    /// The mesh with one more vertex at the end.
    pub open spec fn with_vertex(self, vertex: VertexSpec) -> MeshSpec {
        MeshSpec { vertices: self.vertices.push(vertex), indices: self.indices }
    }

    /// The mesh with more indices at the end.
    pub open spec fn with_indices(self, more: Seq<u32>) -> MeshSpec {
        MeshSpec { vertices: self.vertices, indices: self.indices + more }
    }
}

impl Mesh {
    /// The mesh without vertices and indices.
    pub fn new() -> (mesh: Mesh)
        ensures
            mesh@ == MeshSpec::empty(),
    {
        let mesh = Mesh { vertices: Vec::new(), indices: Vec::new() };
        assert(mesh@.vertices =~= Seq::empty());
        mesh
    }
}

} // verus!
