use vstd::prelude::*;

verus! {

/// The index data of one triangulated OBJ model: its vertex indices, three per
/// triangle, and the index of its material, if it has one.
pub struct ObjMesh {
    pub indices: Vec<u32>,
    pub material_id: Option<usize>,
}

/// The material index of each triangle of `mesh`, as a byte: one entry per
/// whole triple of vertex indices when the model has a material (the index
/// truncated to a byte), none when it has not.
pub open spec fn mesh_triangle_materials(mesh: ObjMesh) -> Seq<u8> {
    match mesh.material_id {
        Some(m) => Seq::new(mesh.indices@.len() / 3, |_j: int| m as u8),
        None => Seq::empty(),
    }
}

/// The material index of each triangle of the models, model after model.
pub open spec fn triangle_materials(meshes: Seq<ObjMesh>) -> Seq<u8>
    decreases meshes.len(),
{
    if meshes.len() == 0 {
        Seq::empty()
    } else {
        triangle_materials(meshes.drop_last()) + mesh_triangle_materials(meshes.last())
    }
}

/// Lists the material index of every triangle of the models, in the order in
/// which the triangles occur.
pub fn triangle_material_indices(meshes: &[ObjMesh]) -> (res: Vec<u8>)
    ensures
        res@ == triangle_materials(meshes@),
        res@.len() == material_triangle_count(meshes@),
{
    proof {
        lemma_materials_of_material_models(meshes@);
    }
    let mut res: Vec<u8> = Vec::new();
    let mut k: usize = 0;
    while k < meshes.len()
        invariant
            k <= meshes@.len(),
            res@ == triangle_materials(meshes@.take(k as int)),
        decreases meshes@.len() - k,
    {
        let mesh = &meshes[k];
        let ghost before = res@;
        match mesh.material_id {
            Some(m) => {
                let count = mesh.indices.len() / 3;
                let byte = m as u8;
                let mut j: usize = 0;
                while j < count
                    invariant
                        j <= count,
                        count == meshes@[k as int].indices@.len() / 3,
                        byte == m as u8,
                        res@ == before + Seq::new(j as nat, |_i: int| byte),
                    decreases count - j,
                {
                    res.push(byte);
                    j = j + 1;
                    assert(res@ =~= before + Seq::new(j as nat, |_i: int| byte));
                }
                assert(Seq::new(count as nat, |_i: int| byte) =~= mesh_triangle_materials(
                    meshes@[k as int],
                ));
            },
            None => {
                assert(mesh_triangle_materials(meshes@[k as int]) =~= Seq::<u8>::empty());
                assert(res@ =~= before + mesh_triangle_materials(meshes@[k as int]));
            },
        }
        proof {
            let t = meshes@.take(k + 1);
            assert(t.drop_last() =~= meshes@.take(k as int));
            assert(t.last() == meshes@[k as int]);
        }
        k = k + 1;
    }
    assert(meshes@.take(meshes@.len() as int) =~= meshes@);
    res
}

/// Whether every primitive names a triangle of `material_indices` whose
/// material index is below `material_count`.
pub open spec fn slots_in_range(primitives: Seq<u32>, material_indices: Seq<u8>, material_count: int) -> bool {
    forall|k: int|
        0 <= k < primitives.len() ==> #[trigger] primitives[k] < material_indices.len()
            && material_indices[primitives[k] as int] < material_count
}

/// Looks up, for each primitive of the acceleration structure (given as the
/// index of the original triangle), the material index of that triangle.
/// `None` when a primitive or a material index is out of range.
pub fn material_slots_by_primitive(
    primitives: &[u32],
    material_indices: &[u8],
    material_count: usize,
) -> (res: Option<Vec<usize>>)
    ensures
        res is Some <==> slots_in_range(primitives@, material_indices@, material_count as int),
        res matches Some(slots) ==> slots@.len() == primitives@.len() && forall|k: int|
            0 <= k < primitives@.len() ==> #[trigger] slots@[k] == material_indices@[primitives@[k] as int],
{
    let mut slots: Vec<usize> = Vec::new();
    let mut k: usize = 0;
    while k < primitives.len()
        invariant
            k <= primitives@.len(),
            slots@.len() == k,
            slots_in_range(primitives@.take(k as int), material_indices@, material_count as int),
            forall|j: int| 0 <= j < k ==> #[trigger] slots@[j] == material_indices@[primitives@[j] as int],
        decreases primitives@.len() - k,
    {
        let p = primitives[k] as usize;
        if p >= material_indices.len() {
            assert(!(primitives@[k as int] < material_indices@.len()));
            return None;
        }
        let m = material_indices[p] as usize;
        if m >= material_count {
            assert(!(material_indices@[primitives@[k as int] as int] < material_count));
            return None;
        }
        slots.push(m);
        proof {
            let t = primitives@.take(k + 1);
            assert forall|j: int| 0 <= j < t.len() implies #[trigger] t[j] < material_indices@.len()
                && material_indices@[t[j] as int] < material_count by {
                if j < k {
                    assert(t[j] == primitives@.take(k as int)[j]);
                }
            }
        }
        k = k + 1;
    }
    assert(primitives@.take(primitives@.len() as int) =~= primitives@);
    Some(slots)
}


/// Whether every vertex index of a whole triangle of `indices` has its three
/// coordinates at offsets `3 * index .. 3 * index + 2` that fit in a `usize`.
pub open spec fn offsets_fit(indices: Seq<u32>) -> bool {
    forall|j: int| 0 <= j < 3 * (indices.len() / 3) ==> 3 * #[trigger] indices[j] + 2 <= usize::MAX
}

/// For each whole triple of vertex indices, the offsets of the three vertices'
/// first coordinates in the flat `x, y, z` position list: three times each
/// index. A trailing incomplete triple is ignored. `None` when an offset (or
/// the offset of a vertex's last coordinate) does not fit in a `usize`.
pub fn triangle_position_offsets(indices: &[u32]) -> (res: Option<Vec<[usize; 3]>>)
    ensures
        res is Some <==> offsets_fit(indices@),
        res matches Some(offsets) ==> offsets@.len() == indices@.len() / 3 && forall|t: int, c: int|
            0 <= t < offsets@.len() && 0 <= c < 3 ==> #[trigger] offsets@[t][c] == 3 * indices@[3 * t + c],
{
    let n = indices.len();
    let count = n / 3;
    let mut offsets: Vec<[usize; 3]> = Vec::new();
    let mut t: usize = 0;
    while t < count
        invariant
            n == indices@.len(),
            count == indices@.len() / 3,
            t <= count,
            offsets@.len() == t,
            forall|j: int| 0 <= j < 3 * t ==> 3 * #[trigger] indices@[j] + 2 <= usize::MAX,
            forall|u: int, c: int|
                0 <= u < t && 0 <= c < 3 ==> #[trigger] offsets@[u][c] == 3 * indices@[3 * u + c],
        decreases count - t,
    {
        assert(3 * t + 3 <= indices@.len()) by (nonlinear_arith)
            requires
                t < count,
                count == indices@.len() / 3,
        ;
        let base = 3 * t;
        let a = indices[base] as usize;
        let b = indices[base + 1] as usize;
        let c = indices[base + 2] as usize;
        if a > (usize::MAX - 2) / 3 {
            assert(3 * indices@[3 * t as int] + 2 > usize::MAX);
            return None;
        }
        if b > (usize::MAX - 2) / 3 {
            assert(3 * indices@[3 * t + 1] + 2 > usize::MAX);
            return None;
        }
        if c > (usize::MAX - 2) / 3 {
            assert(3 * indices@[3 * t + 2] + 2 > usize::MAX);
            return None;
        }
        let triple = [3 * a, 3 * b, 3 * c];
        offsets.push(triple);
        proof {
            assert forall|j: int| 0 <= j < 3 * (t + 1) implies 3 * #[trigger] indices@[j] + 2
                <= usize::MAX by {
                if j >= 3 * t {
                    assert(j == 3 * t || j == 3 * t + 1 || j == 3 * t + 2);
                }
            }
        }
        t = t + 1;
    }
    Some(offsets)
}


/// The number of whole triangles in the models.
pub open spec fn triangle_count(meshes: Seq<ObjMesh>) -> nat
    decreases meshes.len(),
{
    if meshes.len() == 0 {
        0
    } else {
        triangle_count(meshes.drop_last()) + meshes.last().indices@.len() / 3
    }
}

/// Whether every model has a material.
pub open spec fn all_have_materials(meshes: Seq<ObjMesh>) -> bool {
    forall|k: int| 0 <= k < meshes.len() ==> (#[trigger] meshes[k]).material_id is Some
}

/// When every model has a material, the material list has one entry per
/// triangle, in triangle order: triangle `j` of model `k` comes after the
/// triangles of the models before `k`, and the entry at that position is the
/// material of model `k` (as a byte).
pub proof fn lemma_one_material_per_triangle(meshes: Seq<ObjMesh>)
    requires
        all_have_materials(meshes),
    ensures
        triangle_materials(meshes).len() == triangle_count(meshes),
        forall|k: int, j: int|
            0 <= k < meshes.len() && 0 <= j < meshes[k].indices@.len() / 3 ==> #[trigger] triangle_materials(
                meshes,
            )[triangle_count(meshes.take(k)) + j] == #[trigger] (meshes[k].material_id->Some_0 as u8),
    decreases meshes.len(),
{
    if meshes.len() > 0 {
        let n = meshes.len() - 1;
        let init = meshes.drop_last();
        assert(all_have_materials(init)) by {
            assert forall|k: int| 0 <= k < init.len() implies (#[trigger] init[k]).material_id is Some by {
                assert(init[k] == meshes[k]);
            }
        }
        lemma_one_material_per_triangle(init);
        assert(meshes[n].material_id is Some);
        let all = triangle_materials(meshes);
        let head = triangle_materials(init);
        let tail = mesh_triangle_materials(meshes.last());
        assert(all == head + tail);
        assert(meshes.take(n) =~= init);
        assert forall|k: int, j: int|
            0 <= k < meshes.len() && 0 <= j < meshes[k].indices@.len() / 3 implies #[trigger] all[triangle_count(meshes.take(k)) + j]
                == #[trigger] (meshes[k].material_id->Some_0 as u8) by {
            if k < n {
                assert(meshes.take(k) =~= init.take(k));
                assert(init[k] == meshes[k]);
                lemma_triangle_count_prefix(init, k);
                assert(triangle_count(init.take(k)) + j < head.len());
                assert(all[triangle_count(meshes.take(k)) + j] == head[triangle_count(init.take(k)) + j]);
            } else {
                assert(all[triangle_count(meshes.take(k)) + j] == tail[j]);
            }
        }
    }
}

proof fn lemma_triangle_count_prefix(meshes: Seq<ObjMesh>, k: int)
    requires
        0 <= k < meshes.len(),
    ensures
        triangle_count(meshes.take(k)) + meshes[k].indices@.len() / 3 <= triangle_count(meshes),
    decreases meshes.len(),
{
    let n = meshes.len() - 1;
    let init = meshes.drop_last();
    if k == n {
        assert(meshes.take(k) =~= init);
    } else {
        assert(meshes.take(k) =~= init.take(k));
        assert(init[k] == meshes[k]);
        lemma_triangle_count_prefix(init, k);
    }
}


/// Appending a model without a material leaves the material list unchanged.
pub proof fn lemma_model_without_material_adds_nothing(meshes: Seq<ObjMesh>, mesh: ObjMesh)
    requires
        mesh.material_id is None,
    ensures
        triangle_materials(meshes.push(mesh)) == triangle_materials(meshes),
{
    assert(meshes.push(mesh).drop_last() =~= meshes);
    assert(triangle_materials(meshes.push(mesh)) =~= triangle_materials(meshes));
}

/// Appending a model with material `m` extends the material list by one entry
/// per whole triangle of the model, each `m` as a byte, and keeps the entries
/// before it.
pub proof fn lemma_model_with_material_adds_its_triangles(meshes: Seq<ObjMesh>, mesh: ObjMesh, m: usize)
    requires
        mesh.material_id == Some(m),
    ensures
        triangle_materials(meshes.push(mesh)).len() == triangle_materials(meshes).len()
            + mesh.indices@.len() / 3,
        triangle_materials(meshes.push(mesh)).subrange(0, triangle_materials(meshes).len() as int)
            == triangle_materials(meshes),
        forall|j: int|
            triangle_materials(meshes).len() <= j < triangle_materials(meshes.push(mesh)).len()
                ==> #[trigger] triangle_materials(meshes.push(mesh))[j] == m as u8,
{
    assert(meshes.push(mesh).drop_last() =~= meshes);
    assert(meshes.push(mesh).last() == mesh);
    let before = triangle_materials(meshes);
    let after = triangle_materials(meshes.push(mesh));
    assert(after.subrange(0, before.len() as int) =~= before);
}

/// The number of whole triangles of the models that have a material.
pub open spec fn material_triangle_count(meshes: Seq<ObjMesh>) -> nat
    decreases meshes.len(),
{
    if meshes.len() == 0 {
        0
    } else if meshes.last().material_id is Some {
        material_triangle_count(meshes.drop_last()) + meshes.last().indices@.len() / 3
    } else {
        material_triangle_count(meshes.drop_last())
    }
}

/// For any mix of models with and without materials, the material list has
/// exactly one entry per whole triangle of the models that have a material,
/// in model order: triangle `j` of a model `k` with material `m` is preceded by
/// the triangles of the earlier models that have a material, and its entry is
/// `m` as a byte. Models without a material contribute nothing.
pub proof fn lemma_materials_of_material_models(meshes: Seq<ObjMesh>)
    ensures
        triangle_materials(meshes).len() == material_triangle_count(meshes),
        forall|k: int, j: int|
            0 <= k < meshes.len() && meshes[k].material_id is Some && 0 <= j < meshes[k].indices@.len()
                / 3 ==> #[trigger] triangle_materials(meshes)[material_triangle_count(meshes.take(k)) + j]
                == #[trigger] (meshes[k].material_id->Some_0 as u8),
    decreases meshes.len(),
{
    if meshes.len() > 0 {
        let n = meshes.len() - 1;
        let init = meshes.drop_last();
        lemma_materials_of_material_models(init);
        let all = triangle_materials(meshes);
        let head = triangle_materials(init);
        let tail = mesh_triangle_materials(meshes.last());
        assert(all == head + tail);
        assert(meshes.take(n) =~= init);
        assert forall|k: int, j: int|
            0 <= k < meshes.len() && meshes[k].material_id is Some && 0 <= j < meshes[k].indices@.len()
                / 3 implies #[trigger] all[material_triangle_count(meshes.take(k)) + j]
                == #[trigger] (meshes[k].material_id->Some_0 as u8) by {
            if k < n {
                assert(meshes.take(k) =~= init.take(k));
                assert(init[k] == meshes[k]);
                lemma_material_count_prefix(init, k);
                assert(all[material_triangle_count(meshes.take(k)) + j] == head[material_triangle_count(
                    init.take(k),
                ) + j]);
            } else {
                assert(all[material_triangle_count(meshes.take(k)) + j] == tail[j]);
            }
        }
    }
}

proof fn lemma_material_count_prefix(meshes: Seq<ObjMesh>, k: int)
    requires
        0 <= k < meshes.len(),
        meshes[k].material_id is Some,
    ensures
        material_triangle_count(meshes.take(k)) + meshes[k].indices@.len() / 3 <= material_triangle_count(
            meshes,
        ),
    decreases meshes.len(),
{
    let n = meshes.len() - 1;
    let init = meshes.drop_last();
    if k == n {
        assert(meshes.take(k) =~= init);
    } else {
        assert(meshes.take(k) =~= init.take(k));
        assert(init[k] == meshes[k]);
        lemma_material_count_prefix(init, k);
    }
}

} // verus!
