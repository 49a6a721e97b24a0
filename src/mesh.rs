use vstd::prelude::*;

use crate::colour::Colour;

verus! {

#[verifier::external_type_specification]
#[verifier::external_body]
pub struct ExVec3(glam::Vec3);

/// Why a vertex list, index list and colour list do not make a mesh.
#[derive(Clone, Copy, Debug, PartialEq, Eq, Structural)]
pub enum MeshError {
    /// The colour list is not as long as the vertex list.
    ColourCountMismatch,
    /// The index list does not split into triples.
    IndexCountNotTriples,
    /// The index at this position names no vertex.
    IndexOutOfRange(usize),
    /// The projected points are not one per vertex.
    ProjectedCountMismatch,
}

/// An indexed triangle list in world space with one colour per vertex.
pub struct Mesh {
    vertices: Vec<glam::Vec3>,
    indices: Vec<usize>,
    colours: Vec<Colour>,
}

/// The position of the first index that names no vertex, if any.
pub open spec fn first_bad_index(indices: Seq<usize>, n: nat) -> Option<int> {
    if exists|i: int| 0 <= i < indices.len() && indices[i] >= n {
        Some(
            choose|i: int|
                0 <= i < indices.len() && indices[i] >= n && forall|j: int|
                    0 <= j < i ==> indices[j] < n,
        )
    } else {
        None
    }
}

/// Every index names one of `n` vertices and the indices split into triples.
pub open spec fn valid_indices(indices: Seq<usize>, n: nat) -> bool {
    &&& indices.len() % 3 == 0
    &&& forall|i: int| 0 <= i < indices.len() ==> indices[i] < n
}

/// What building a mesh from these lists gives: the first problem found, in
/// the order colours, index count, indices; or success.
pub open spec fn mesh_check(n_vertices: nat, indices: Seq<usize>, n_colours: nat) -> Result<
    (),
    MeshError,
> {
    if n_colours != n_vertices {
        Err(MeshError::ColourCountMismatch)
    } else if indices.len() % 3 != 0 {
        Err(MeshError::IndexCountNotTriples)
    } else if let Some(i) = first_bad_index(indices, n_vertices) {
        Err(MeshError::IndexOutOfRange(i as usize))
    } else {
        Ok(())
    }
}

impl Mesh {
    pub closed spec fn spec_vertices(&self) -> Seq<glam::Vec3> {
        self.vertices@
    }

    pub closed spec fn spec_indices(&self) -> Seq<usize> {
        self.indices@
    }

    pub closed spec fn spec_colours(&self) -> Seq<Colour> {
        self.colours@
    }

    /// One colour per vertex, and every triple of indices names three vertices.
    pub open spec fn wf(&self) -> bool {
        &&& self.spec_colours().len() == self.spec_vertices().len()
        &&& valid_indices(self.spec_indices(), self.spec_vertices().len())
    }

    /// Builds a mesh, refusing lists that do not describe one.
    pub fn new(vertices: Vec<glam::Vec3>, indices: Vec<usize>, colours: Vec<Colour>) -> (r: Result<
        Mesh,
        MeshError,
    >)
        ensures
            mesh_check(vertices@.len(), indices@, colours@.len()) is Ok <==> r is Ok,
            r matches Err(e) ==> mesh_check(vertices@.len(), indices@, colours@.len()) == Err::<(), MeshError>(e),
            r matches Ok(m) ==> m.wf() && m.spec_vertices() == vertices@ && m.spec_indices()
                == indices@ && m.spec_colours() == colours@,
    {
        let n = vertices.len();
        if colours.len() != n {
            return Err(MeshError::ColourCountMismatch);
        }
        if indices.len() % 3 != 0 {
            return Err(MeshError::IndexCountNotTriples);
        }
        let mut i: usize = 0;
        while i < indices.len()
            invariant
                0 <= i <= indices@.len(),
                n == vertices@.len(),
                colours@.len() == n,
                indices@.len() % 3 == 0,
                forall|j: int| 0 <= j < i ==> indices@[j] < n,
            decreases indices@.len() - i,
        {
            if indices[i] >= n {
                proof {
                    let ii = i as int;
                    let nv = vertices@.len();
                    assert(0 <= ii < indices@.len() && indices@[ii] >= nv && forall|j: int|
                        0 <= j < ii ==> indices@[j] < nv);
                    let k = choose|k: int|
                        0 <= k < indices@.len() && indices@[k] >= nv && forall|j: int|
                            0 <= j < k ==> indices@[j] < nv;
                    assert(k == i);
                    assert(first_bad_index(indices@, vertices@.len()) == Some(ii));
                    assert(mesh_check(vertices@.len(), indices@, colours@.len()) == Err::<(), MeshError>(MeshError::IndexOutOfRange(i)));
                }
                return Err(MeshError::IndexOutOfRange(i));
            }
            i = i + 1;
        }
        Ok(Mesh { vertices, indices, colours })
    }

    pub fn vertices(&self) -> (v: &Vec<glam::Vec3>)
        ensures
            v@ == self.spec_vertices(),
    {
        &self.vertices
    }

    pub fn indices(&self) -> (v: &Vec<usize>)
        ensures
            v@ == self.spec_indices(),
    {
        &self.indices
    }

    pub fn colours(&self) -> (v: &Vec<Colour>)
        ensures
            v@ == self.spec_colours(),
    {
        &self.colours
    }
}

} // verus!
