//! Triangles and meshes, described by vertex indices.

use vstd::prelude::*;

verus! {

/// A triangle given by three vertex indices into the vertex array of the
/// mesh whose index it carries.
#[derive(Debug, Clone, Copy)]
pub struct Triangle {
    pub v0: u32,
    pub v1: u32,
    pub v2: u32,
    mesh_id: u32,
}

impl View for Triangle {
    /// The three vertex indices and the mesh index.
    type V = (u32, u32, u32, u32);

    closed spec fn view(&self) -> (u32, u32, u32, u32) {
        (self.v0, self.v1, self.v2, self.mesh_id)
    }
}

impl Triangle {

    pub fn new(v0: u32, v1: u32, v2: u32, mesh_id: u32) -> (t: Self)
        ensures
            t@ == (v0, v1, v2, mesh_id),
    {
        Self { v0, v1, v2, mesh_id }
    }

    /// The index of the mesh that owns this triangle's vertices.
    pub fn mesh_id(&self) -> (r: u32)
        ensures
            r == self@.3,
    {
        self.mesh_id
    }
}

/// A named list of triangles.
pub struct Mesh {
    pub name: String,
    pub triangles: Vec<Triangle>,
}

impl Mesh {
    pub fn new(name: String, triangles: Vec<Triangle>) -> (m: Self)
        ensures
            m.name == name,
            m.triangles == triangles,
    {
        Mesh { name, triangles }
    }
}

/// The triangles of `meshes`, mesh after mesh, each mesh's triangles in order.
pub open spec fn all_triangles(meshes: Seq<Mesh>) -> Seq<Triangle> {
    meshes.map_values(|m: Mesh| m.triangles@).flatten()
}

/// Gathers the triangles of all meshes into one list, mesh after mesh.
pub fn collect_primitives(meshes: &Vec<Mesh>) -> (prims: Vec<Triangle>)
    ensures
        prims@ == all_triangles(meshes@),
{
    let mut prims: Vec<Triangle> = Vec::new();
    let mut i: usize = 0;
    while i < meshes.len()
        invariant
            i <= meshes.len(),
            prims@ == all_triangles(meshes@.take(i as int)),
        decreases meshes.len() - i,
    {
        let tris = &meshes[i].triangles;
        let ghost before = prims@;
        let mut j: usize = 0;
        while j < tris.len()
            invariant
                j <= tris.len(),
                tris == meshes@[i as int].triangles,
                prims@ == before + tris@.take(j as int),
            decreases tris.len() - j,
        {
            prims.push(tris[j]);
            j += 1;
            proof {
                assert(tris@.take(j as int) == tris@.take(j - 1).push(tris@[j - 1]));
            }
        }
        proof {
            let m = meshes@.take(i as int).map_values(|m: Mesh| m.triangles@);
            assert(meshes@.take(i + 1).map_values(|m: Mesh| m.triangles@) == m.push(tris@));
            m.lemma_flatten_push(tris@);
            assert(tris@.take(j as int) == tris@);
        }
        i += 1;
    }
    proof {
        assert(meshes@.take(i as int) == meshes@);
    }
    prims
}

} // verus!
