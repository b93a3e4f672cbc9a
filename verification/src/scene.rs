//! Turning the models read from an OBJ file into the meshes and triangle
//! list of a scene.

use vstd::prelude::*;

use crate::geometry::Triangle;

verus! {

/// One model as an OBJ reader returns it: vertex positions and normals as
/// flat lists of three numbers per vertex, three vertex indices per
/// triangle, and the index of its material among the file's materials.
pub struct ObjModel<T> {
    pub name: String,
    pub positions: Vec<T>,
    pub normals: Vec<T>,
    pub indices: Vec<u32>,
    pub material_id: Option<usize>,
}

/// A mesh of a scene: its vertices and per-vertex normals, and the index of
/// its material among the scene's materials.
pub struct TriangleMesh<V> {
    pub name: String,
    pub id: u32,
    pub vertices: Vec<V>,
    pub normals: Vec<V>,
    pub material_id: Option<usize>,
}

/// A flat list read three items at a time.
pub open spec fn triples<T>(s: Seq<T>) -> Seq<(T, T, T)> {
    Seq::new(s.len() / 3, |k: int| (s[3 * k], s[3 * k + 1], s[3 * k + 2]))
}

/// The triangles of an index list, three indices per triangle, as
/// `(v0, v1, v2, mesh_id)`.
pub open spec fn triangle_views(indices: Seq<u32>, mesh_id: u32) -> Seq<(u32, u32, u32, u32)> {
    Seq::new(
        indices.len() / 3,
        |k: int| (indices[3 * k], indices[3 * k + 1], indices[3 * k + 2], mesh_id),
    )
}

/// The id that model `m` gets when `first_id` meshes are already loaded.
pub open spec fn mesh_id_of(m: int, first_id: int) -> u32 {
    (m + first_id) as u32
}

/// The material of a model, counted among the scene's materials when
/// `first_material` of them were there before.
pub open spec fn scene_material(material_id: Option<usize>, first_material: int) -> Option<usize> {
    match material_id {
        Some(id) => Some((id + first_material) as usize),
        None => None,
    }
}

/// The triangles of all models, model after model.
pub open spec fn model_triangles<T>(models: Seq<ObjModel<T>>, first_id: int) -> Seq<
    (u32, u32, u32, u32),
> {
    Seq::new(
        models.len(),
        |m: int| triangle_views(models[m].indices@, mesh_id_of(m, first_id)),
    ).flatten()
}

/// How many triangles the models before model `m` have: where model `m`'s
/// triangles start in the scene's triangle list.
pub open spec fn triangles_before<T>(models: Seq<ObjModel<T>>, m: int) -> int
    decreases m,
{
    if m <= 0 {
        0
    } else {
        triangles_before(models, m - 1) + models[m - 1].indices@.len() / 3
    }
}

/// Where triangle `k` of model `m` stands in the scene's triangle list.
pub open spec fn triangle_position<T>(models: Seq<ObjModel<T>>, m: int, k: int) -> int {
    triangles_before(models, m) + k
}

/// The added-up lengths of the first `m` sequences of `ss`.
spec fn lengths_before<A>(ss: Seq<Seq<A>>, m: int) -> int
    decreases m,
{
    if m <= 0 {
        0
    } else {
        lengths_before(ss, m - 1) + ss[m - 1].len()
    }
}

proof fn lemma_flatten_take_len<A>(ss: Seq<Seq<A>>, m: int)
    requires
        0 <= m <= ss.len(),
    ensures
        ss.take(m).flatten().len() == lengths_before(ss, m),
    decreases m,
{
    if m == 0 {
        assert(ss.take(0) =~= Seq::<Seq<A>>::empty());
    } else {
        lemma_flatten_take_len(ss, m - 1);
        assert(ss.take(m) =~= ss.take(m - 1).push(ss[m - 1]));
        ss.take(m - 1).lemma_flatten_push(ss[m - 1]);
    }
}

/// Item `k` of the `m`-th sequence sits in the flattening after the items
/// of the sequences before it.
proof fn lemma_flatten_index<A>(ss: Seq<Seq<A>>, m: int, k: int)
    requires
        0 <= m < ss.len(),
        0 <= k < ss[m].len(),
    ensures
        0 <= lengths_before(ss, m) + k < ss.flatten().len(),
        ss.flatten()[lengths_before(ss, m) + k] == ss[m][k],
{
    lemma_flatten_take_len(ss, m);
    assert(ss =~= ss.take(m + 1) + ss.skip(m + 1));
    vstd::seq_lib::lemma_flatten_concat(ss.take(m + 1), ss.skip(m + 1));
    assert(ss.take(m + 1) =~= ss.take(m).push(ss[m]));
    ss.take(m).lemma_flatten_push(ss[m]);
}

proof fn lemma_lengths_before_models<T>(models: Seq<ObjModel<T>>, first_id: int, m: int)
    requires
        0 <= m <= models.len(),
    ensures
        lengths_before(
            Seq::new(models.len(), |j: int| triangle_views(models[j].indices@, mesh_id_of(j, first_id))),
            m,
        ) == triangles_before(models, m),
    decreases m,
{
    if m > 0 {
        lemma_lengths_before_models(models, first_id, m - 1);
    }
}

/// The scene's triangle list holds, model after model, each model's index
/// list read three at a time: triangle `k` of model `m` stands after the
/// triangles of the models before it, has vertex indices `3 k`, `3 k + 1`
/// and `3 k + 2` of the model's list, and refers to the model's mesh; the
/// list holds nothing else.
pub proof fn lemma_model_triangles_in_threes<T>(models: Seq<ObjModel<T>>, first_id: int, m: int, k: int)
    requires
        0 <= m < models.len(),
        0 <= k < models[m].indices@.len() / 3,
    ensures
        0 <= triangle_position(models, m, k) < model_triangles(models, first_id).len(),
        model_triangles(models, first_id)[triangle_position(models, m, k)] == (
            models[m].indices@[3 * k],
            models[m].indices@[3 * k + 1],
            models[m].indices@[3 * k + 2],
            (m + first_id) as u32,
        ),
{
    let ss = Seq::new(
        models.len(),
        |j: int| triangle_views(models[j].indices@, mesh_id_of(j, first_id)),
    );
    assert(model_triangles(models, first_id) == ss.flatten());
    lemma_flatten_index(ss, m, k);
    lemma_lengths_before_models(models, first_id, m);
}

/// The scene's triangle list holds one triangle per three indices of each
/// model, and nothing else.
pub proof fn lemma_model_triangles_len<T>(models: Seq<ObjModel<T>>, first_id: int)
    ensures
        model_triangles(models, first_id).len() == triangles_before(models, models.len() as int),
{
    let ss = Seq::new(
        models.len(),
        |j: int| triangle_views(models[j].indices@, mesh_id_of(j, first_id)),
    );
    lemma_flatten_take_len(ss, ss.len() as int);
    assert(ss.take(ss.len() as int) =~= ss);
    lemma_lengths_before_models(models, first_id, models.len() as int);
}

/// Reads a flat list three items at a time.
pub fn group_triples<T: Copy>(flat: &Vec<T>) -> (out: Vec<(T, T, T)>)
    requires
        flat@.len() % 3 == 0,
    ensures
        out@ == triples(flat@),
        out@.len() == flat@.len() / 3,
        forall|k: int|
            0 <= k < out@.len() ==> #[trigger] out@[k] == (flat@[3 * k], flat@[3 * k + 1], flat@[3 * k + 2]),
{
    let n = flat.len() / 3;
    let mut out: Vec<(T, T, T)> = Vec::new();
    let mut k: usize = 0;
    while k < n
        invariant
            n == flat@.len() / 3,
            flat@.len() <= usize::MAX,
            flat@.len() % 3 == 0,
            k <= n,
            out@.len() == k,
            forall|q: int|
                0 <= q < k ==> #[trigger] out@[q] == (
                    flat@[3 * q],
                    flat@[3 * q + 1],
                    flat@[3 * q + 2],
                ),
        decreases n - k,
    {
        proof {
            lemma_triple_in_range(flat@.len() as int, k as int);
        }
        let i = 3 * k;
        out.push((flat[i], flat[i + 1], flat[i + 2]));
        k += 1;
    }
    proof {
        assert(out@ =~= triples(flat@));
    }
    out
}

/// Item `3 * k + 2` exists when `k` is below a third of the length.
proof fn lemma_triple_in_range(len: int, k: int)
    requires
        len >= 0,
        0 <= k < len / 3,
    ensures
        3 * k + 2 < len,
{
    assert(3 * k + 2 < len) by (nonlinear_arith)
        requires
            0 <= k < len / 3,
            len >= 0,
    {
        vstd::arithmetic::div_mod::lemma_fundamental_div_mod(len, 3);
        vstd::arithmetic::div_mod::lemma_mod_bound(len, 3);
    }
}

/// The triangles of an index list, three indices per triangle, all of mesh
/// `mesh_id`.
pub fn triangles_from_indices(indices: &Vec<u32>, mesh_id: u32) -> (tris: Vec<Triangle>)
    requires
        indices@.len() % 3 == 0,
    ensures
        tris@.map_values(|t: Triangle| t@) == triangle_views(indices@, mesh_id),
        tris@.len() == indices@.len() / 3,
        forall|k: int|
            0 <= k < tris@.len() ==> (#[trigger] tris@[k])@ == (
                indices@[3 * k],
                indices@[3 * k + 1],
                indices@[3 * k + 2],
                mesh_id,
            ),
{
    let n = indices.len() / 3;
    let mut tris: Vec<Triangle> = Vec::new();
    let mut k: usize = 0;
    while k < n
        invariant
            n == indices@.len() / 3,
            indices@.len() <= usize::MAX,
            k <= n,
            tris@.len() == k,
            forall|q: int|
                0 <= q < k ==> #[trigger] tris@[q]@ == (
                    indices@[3 * q],
                    indices@[3 * q + 1],
                    indices@[3 * q + 2],
                    mesh_id,
                ),
        decreases n - k,
    {
        proof {
            lemma_triple_in_range(indices@.len() as int, k as int);
        }
        let i = 3 * k;
        tris.push(Triangle::new(indices[i], indices[i + 1], indices[i + 2], mesh_id));
        k += 1;
    }
    proof {
        assert(tris@.map_values(|t: Triangle| t@) =~= triangle_views(indices@, mesh_id));
    }
    tris
}

/// Builds the meshes and the triangle list of `models` for a scene that
/// already holds `first_id` meshes and `first_material` materials: model `m`
/// becomes mesh `first_id + m`, its material index is shifted past the
/// scene's materials, and its triangles refer to it by that id.
pub fn import_models<T: Copy>(
    models: &Vec<ObjModel<T>>,
    first_id: usize,
    first_material: usize,
) -> (out: (Vec<TriangleMesh<(T, T, T)>>, Vec<Triangle>))
    requires
        first_id + models@.len() <= usize::MAX + 1,
        forall|m: int|
            0 <= m < models@.len() ==> {
                &&& #[trigger] models@[m].positions@.len() % 3 == 0
                &&& models@[m].normals@.len() % 3 == 0
                &&& models@[m].indices@.len() % 3 == 0
                &&& models@[m].material_id matches Some(id) ==> id + first_material <= usize::MAX
            },
    ensures
        out.0@.len() == models@.len(),
        forall|m: int|
            0 <= m < models@.len() ==> {
                let mesh = #[trigger] out.0@[m];
                &&& mesh.name@ == models@[m].name@
                &&& mesh.id == mesh_id_of(m, first_id as int)
                &&& mesh.vertices@ == triples(models@[m].positions@)
                &&& mesh.normals@ == triples(models@[m].normals@)
                &&& mesh.material_id == scene_material(models@[m].material_id, first_material as int)
                &&& mesh.vertices@.len() == models@[m].positions@.len() / 3
                &&& mesh.normals@.len() == models@[m].normals@.len() / 3
                &&& forall|k: int|
                    0 <= k < mesh.vertices@.len() ==> #[trigger] mesh.vertices@[k] == (
                        models@[m].positions@[3 * k],
                        models@[m].positions@[3 * k + 1],
                        models@[m].positions@[3 * k + 2],
                    )
                &&& forall|k: int|
                    0 <= k < mesh.normals@.len() ==> #[trigger] mesh.normals@[k] == (
                        models@[m].normals@[3 * k],
                        models@[m].normals@[3 * k + 1],
                        models@[m].normals@[3 * k + 2],
                    )
            },
        out.1@.map_values(|t: Triangle| t@) == model_triangles(models@, first_id as int),
        out.1@.len() == triangles_before(models@, models@.len() as int),
        forall|m: int, k: int|
            0 <= m < models@.len() && 0 <= k < models@[m].indices@.len() / 3 ==> (#[trigger] out.1@[triangle_position(models@, m, k)])@ == (
                models@[m].indices@[3 * k],
                models@[m].indices@[3 * k + 1],
                models@[m].indices@[3 * k + 2],
                (m + first_id) as u32,
            ),
{
    let mut meshes: Vec<TriangleMesh<(T, T, T)>> = Vec::new();
    let mut tris: Vec<Triangle> = Vec::new();
    let ghost per_model = Seq::new(
        models@.len(),
        |m: int| triangle_views(models@[m].indices@, mesh_id_of(m, first_id as int)),
    );
    let mut m: usize = 0;
    while m < models.len()
        invariant
            m <= models@.len(),
            first_id + models@.len() <= usize::MAX + 1,
            forall|k: int|
                0 <= k < models@.len() ==> {
                    &&& #[trigger] models@[k].positions@.len() % 3 == 0
                    &&& models@[k].normals@.len() % 3 == 0
                    &&& models@[k].indices@.len() % 3 == 0
                    &&& models@[k].material_id matches Some(id) ==> id + first_material
                        <= usize::MAX
                },
            per_model == Seq::new(
                models@.len(),
                |k: int| triangle_views(models@[k].indices@, mesh_id_of(k, first_id as int)),
            ),
            meshes@.len() == m,
            forall|k: int|
                0 <= k < m ==> {
                    let mesh = #[trigger] meshes@[k];
                    &&& mesh.name@ == models@[k].name@
                    &&& mesh.id == mesh_id_of(k, first_id as int)
                    &&& mesh.vertices@ == triples(models@[k].positions@)
                    &&& mesh.normals@ == triples(models@[k].normals@)
                    &&& mesh.material_id == scene_material(
                        models@[k].material_id,
                        first_material as int,
                    )
                },
            tris@.map_values(|t: Triangle| t@) == per_model.take(m as int).flatten(),
        decreases models@.len() - m,
    {
        let model = &models[m];
        let id = #[verifier::truncate] ((m + first_id) as u32);
        let vertices = group_triples(&model.positions);
        let normals = group_triples(&model.normals);
        let material_id = match model.material_id {
            Some(mat) => Some(mat + first_material),
            None => None,
        };
        let new_tris = triangles_from_indices(&model.indices, id);
        let ghost before = tris@;
        let mut j: usize = 0;
        while j < new_tris.len()
            invariant
                j <= new_tris@.len(),
                tris@ == before + new_tris@.take(j as int),
            decreases new_tris@.len() - j,
        {
            tris.push(new_tris[j]);
            j += 1;
            proof {
                assert(new_tris@.take(j as int) == new_tris@.take(j - 1).push(new_tris@[j - 1]));
            }
        }
        meshes.push(
            TriangleMesh { name: model.name.clone(), id, vertices, normals, material_id },
        );
        proof {
            assert(new_tris@.take(j as int) == new_tris@);
            assert(tris@.map_values(|t: Triangle| t@) =~= before.map_values(|t: Triangle| t@)
                + new_tris@.map_values(|t: Triangle| t@));
            assert(per_model.take(m + 1) == per_model.take(m as int).push(per_model[m as int]));
            per_model.take(m as int).lemma_flatten_push(per_model[m as int]);
        }
        m += 1;
    }
    proof {
        assert(per_model.take(m as int) == per_model);
        let views = tris@.map_values(|t: Triangle| t@);
        lemma_lengths_before_models(models@, first_id as int, models@.len() as int);
        assert forall|m: int, k: int|
            0 <= m < models@.len() && 0 <= k < models@[m].indices@.len() / 3 implies (#[trigger] tris@[triangle_position(models@, m, k)])@ == (
                models@[m].indices@[3 * k],
                models@[m].indices@[3 * k + 1],
                models@[m].indices@[3 * k + 2],
                (m + first_id) as u32,
            ) by {
            lemma_model_triangles_in_threes(models@, first_id as int, m, k);
            assert(views[triangle_position(models@, m, k)] == tris@[triangle_position(models@, m, k)]@);
        }
        lemma_model_triangles_len(models@, first_id as int);
    }
    (meshes, tris)
}

} // verus!
