//! Cube geometry builder: turns one chunk's voxel grid and its neighbor
//! visibility into vertex and index arrays, emitting only faces that are not
//! occluded by an adjacent solid voxel or an occluding neighbor chunk.
//!
//! The builder is a pure function of its inputs: its whole output is pinned
//! to [`spec_build`], so repeated builds of the same chunk content and mask
//! yield identical buffers, in a fixed traversal order (bottom layer to top
//! layer, each layer scanned row by row).

use vstd::prelude::*;
use vstd::arithmetic::div_mod::lemma_fundamental_div_mod_converse;
use crate::world::{VoxelChunk, NeighborMask, Side};
use crate::shader::{CubeVert, TextureWord};

verus! {

/// The fixed order in which a voxel's six faces are considered.
pub open spec fn side_of(k: int) -> Side {
    if k == 0 {
        Side::Top
    } else if k == 1 {
        Side::Bottom
    } else if k == 2 {
        Side::Left
    } else if k == 3 {
        Side::Right
    } else if k == 4 {
        Side::Front
    } else {
        Side::Back
    }
}

fn side_from(k: usize) -> (s: Side)
    requires
        k < 6,
    ensures
        s == side_of(k as int),
{
    if k == 0 {
        Side::Top
    } else if k == 1 {
        Side::Bottom
    } else if k == 2 {
        Side::Left
    } else if k == 3 {
        Side::Right
    } else if k == 4 {
        Side::Front
    } else {
        Side::Back
    }
}

/// Cell coordinates of the `n`-th voxel in traversal order: `x` varies
/// fastest, then `z`, then `y` (bottom-to-top last).
pub open spec fn cell_x(s: int, n: int) -> int {
    n % s
}

pub open spec fn cell_z(s: int, n: int) -> int {
    (n / s) % s
}

pub open spec fn cell_y(s: int, n: int) -> int {
    (n / s) / s
}

/// Whether the face of voxel `(x, y, z)` toward `side` is visible: inside
/// the chunk it is hidden exactly by a solid adjacent voxel; on the chunk
/// boundary it is hidden exactly when the neighbor mask occludes that side.
pub open spec fn spec_face_visible(
    c: VoxelChunk,
    mask: NeighborMask,
    x: int,
    y: int,
    z: int,
    side: Side,
) -> bool {
    let s = c.size as int;
    match side {
        Side::Top => if y + 1 < s {
            !c.spec_block_at(x, y + 1, z).spec_solid()
        } else {
            !mask.top
        },
        Side::Bottom => if y >= 1 {
            !c.spec_block_at(x, y - 1, z).spec_solid()
        } else {
            !mask.bottom
        },
        Side::Left => if x >= 1 {
            !c.spec_block_at(x - 1, y, z).spec_solid()
        } else {
            !mask.left
        },
        Side::Right => if x + 1 < s {
            !c.spec_block_at(x + 1, y, z).spec_solid()
        } else {
            !mask.right
        },
        Side::Front => if z + 1 < s {
            !c.spec_block_at(x, y, z + 1).spec_solid()
        } else {
            !mask.front
        },
        Side::Back => if z >= 1 {
            !c.spec_block_at(x, y, z - 1).spec_solid()
        } else {
            !mask.back
        },
    }
}

fn face_visible(c: &VoxelChunk, mask: &NeighborMask, x: usize, y: usize, z: usize, side: Side) -> (r:
    bool)
    requires
        c.wf(),
        x < c.size,
        y < c.size,
        z < c.size,
    ensures
        r == spec_face_visible(*c, *mask, x as int, y as int, z as int, side),
{
    match side {
        Side::Top => if y + 1 < c.size {
            !c.block_at(x, y + 1, z).solid()
        } else {
            !mask.top
        },
        Side::Bottom => if y >= 1 {
            !c.block_at(x, y - 1, z).solid()
        } else {
            !mask.bottom
        },
        Side::Left => if x >= 1 {
            !c.block_at(x - 1, y, z).solid()
        } else {
            !mask.left
        },
        Side::Right => if x + 1 < c.size {
            !c.block_at(x + 1, y, z).solid()
        } else {
            !mask.right
        },
        Side::Front => if z + 1 < c.size {
            !c.block_at(x, y, z + 1).solid()
        } else {
            !mask.front
        },
        Side::Back => if z >= 1 {
            !c.block_at(x, y, z - 1).solid()
        } else {
            !mask.back
        },
    }
}

/// Lattice offset of corner `k` of the face toward `side`, relative to the
/// voxel's minimum corner.
pub open spec fn spec_corner(side: Side, k: int) -> (int, int, int) {
    match side {
        Side::Top => if k == 0 {
            (0, 1, 0)
        } else if k == 1 {
            (1, 1, 0)
        } else if k == 2 {
            (1, 1, 1)
        } else {
            (0, 1, 1)
        },
        Side::Bottom => if k == 0 {
            (0, 0, 0)
        } else if k == 1 {
            (1, 0, 0)
        } else if k == 2 {
            (1, 0, 1)
        } else {
            (0, 0, 1)
        },
        Side::Left => if k == 0 {
            (0, 0, 0)
        } else if k == 1 {
            (0, 1, 0)
        } else if k == 2 {
            (0, 1, 1)
        } else {
            (0, 0, 1)
        },
        Side::Right => if k == 0 {
            (1, 0, 0)
        } else if k == 1 {
            (1, 1, 0)
        } else if k == 2 {
            (1, 1, 1)
        } else {
            (1, 0, 1)
        },
        Side::Front => if k == 0 {
            (0, 0, 1)
        } else if k == 1 {
            (1, 0, 1)
        } else if k == 2 {
            (1, 1, 1)
        } else {
            (0, 1, 1)
        },
        Side::Back => if k == 0 {
            (0, 0, 0)
        } else if k == 1 {
            (1, 0, 0)
        } else if k == 2 {
            (1, 1, 0)
        } else {
            (0, 1, 0)
        },
    }
}

fn corner_offset(side: Side, k: usize) -> (r: (u32, u32, u32))
    requires
        k < 4,
    ensures
        (r.0 as int, r.1 as int, r.2 as int) == spec_corner(side, k as int),
{
    match side {
        Side::Top => if k == 0 {
            (0, 1, 0)
        } else if k == 1 {
            (1, 1, 0)
        } else if k == 2 {
            (1, 1, 1)
        } else {
            (0, 1, 1)
        },
        Side::Bottom => if k == 0 {
            (0, 0, 0)
        } else if k == 1 {
            (1, 0, 0)
        } else if k == 2 {
            (1, 0, 1)
        } else {
            (0, 0, 1)
        },
        Side::Left => if k == 0 {
            (0, 0, 0)
        } else if k == 1 {
            (0, 1, 0)
        } else if k == 2 {
            (0, 1, 1)
        } else {
            (0, 0, 1)
        },
        Side::Right => if k == 0 {
            (1, 0, 0)
        } else if k == 1 {
            (1, 1, 0)
        } else if k == 2 {
            (1, 1, 1)
        } else {
            (1, 0, 1)
        },
        Side::Front => if k == 0 {
            (0, 0, 1)
        } else if k == 1 {
            (1, 0, 1)
        } else if k == 2 {
            (1, 1, 1)
        } else {
            (0, 1, 1)
        },
        Side::Back => if k == 0 {
            (0, 0, 0)
        } else if k == 1 {
            (1, 0, 0)
        } else if k == 2 {
            (1, 1, 0)
        } else {
            (0, 1, 0)
        },
    }
}

/// Vertex `k` of one face: its lattice corner position and the packed
/// texture word carrying slot, lighting and corner.
pub open spec fn face_vert(slot: u32, light: u8, x: int, y: int, z: int, side: Side, k: int)
    -> CubeVert {
    let (dx, dy, dz) = spec_corner(side, k);
    CubeVert {
        pos_x: (x + dx) as u32,
        pos_y: (y + dy) as u32,
        pos_z: (z + dz) as u32,
        txtr: (TextureWord { slot, light, corner: k as u8 }).spec_pack(),
    }
}

/// Geometry of one visible face: four vertices and six indices (two
/// triangles) referring to them, starting at vertex position `base`.
pub open spec fn spec_face(slot: u32, light: u8, x: int, y: int, z: int, side: Side, base: int)
    -> (Seq<CubeVert>, Seq<u32>) {
    (
        Seq::new(4, |k: int| face_vert(slot, light, x, y, z, side, k)),
        seq![
            base as u32,
            (base + 1) as u32,
            (base + 2) as u32,
            base as u32,
            (base + 2) as u32,
            (base + 3) as u32,
        ],
    )
}

/// Geometry the voxel at `(x, y, z)` contributes for its faces from `k`
/// onward, with vertex indices starting at `base`.
pub open spec fn spec_sides(
    c: VoxelChunk,
    mask: NeighborMask,
    x: int,
    y: int,
    z: int,
    k: int,
    base: int,
) -> (Seq<CubeVert>, Seq<u32>)
    decreases 6 - k,
{
    if k < 0 || k >= 6 {
        (Seq::empty(), Seq::empty())
    } else {
        let b = c.spec_block_at(x, y, z);
        let cur = if spec_face_visible(c, mask, x, y, z, side_of(k)) {
            spec_face(b.mesh.spec_texture_for(side_of(k)).slot, b.light, x, y, z, side_of(k), base)
        } else {
            (Seq::empty(), Seq::empty())
        };
        let rest = spec_sides(c, mask, x, y, z, k + 1, base + cur.0.len());
        (cur.0 + rest.0, cur.1 + rest.1)
    }
}

/// Geometry the `n`-th voxel in traversal order contributes, starting at
/// vertex position `base`: all of its visible faces if it is solid, nothing
/// otherwise.
pub open spec fn spec_cell(c: VoxelChunk, mask: NeighborMask, n: int, base: int)
    -> (Seq<CubeVert>, Seq<u32>) {
    let s = c.size as int;
    let x = cell_x(s, n);
    let z = cell_z(s, n);
    let y = cell_y(s, n);
    if c.spec_block_at(x, y, z).spec_solid() {
        spec_sides(c, mask, x, y, z, 0, base)
    } else {
        (Seq::empty(), Seq::empty())
    }
}

/// Geometry of the first `n` voxels in traversal order.
pub open spec fn spec_geom(c: VoxelChunk, mask: NeighborMask, n: int) -> (Seq<CubeVert>, Seq<u32>)
    decreases n,
{
    if n <= 0 {
        (Seq::empty(), Seq::empty())
    } else {
        let prev = spec_geom(c, mask, n - 1);
        let cur = spec_cell(c, mask, n - 1, prev.0.len() as int);
        (prev.0 + cur.0, prev.1 + cur.1)
    }
}

/// The builder's whole output for one chunk: the geometry of every voxel,
/// in the fixed traversal order.
pub open spec fn spec_build(c: VoxelChunk, mask: NeighborMask) -> (Seq<CubeVert>, Seq<u32>) {
    spec_geom(c, mask, c.blocks@.len() as int)
}

/// Emits one face's four vertices and six indices.
fn emit_face(
    verts: &mut Vec<CubeVert>,
    inds: &mut Vec<u32>,
    x: usize,
    y: usize,
    z: usize,
    side: Side,
    slot: u32,
    light: u8,
)
    requires
        x < 64,
        y < 64,
        z < 64,
        slot < 0x20000,
        light < 16,
        old(verts)@.len() + 4 <= 0x0100_0000,
    ensures
        final(verts)@ == old(verts)@ + spec_face(
            slot,
            light,
            x as int,
            y as int,
            z as int,
            side,
            old(verts)@.len() as int,
        ).0,
        final(inds)@ == old(inds)@ + spec_face(
            slot,
            light,
            x as int,
            y as int,
            z as int,
            side,
            old(verts)@.len() as int,
        ).1,
{
    let ghost face = spec_face(slot, light, x as int, y as int, z as int, side, verts@.len() as int);
    let vb: u32 = verts.len() as u32;
    let mut k: usize = 0;
    while k < 4
        invariant
            k <= 4,
            x < 64,
            y < 64,
            z < 64,
            slot < 0x20000,
            light < 16,
            verts@ == old(verts)@ + face.0.take(k as int),
            inds@ == old(inds)@,
            face == spec_face(
                slot,
                light,
                x as int,
                y as int,
                z as int,
                side,
                old(verts)@.len() as int,
            ),
        decreases 4 - k,
    {
        let (dx, dy, dz) = corner_offset(side, k);
        let w = (TextureWord { slot, light, corner: k as u8 }).pack();
        verts.push(
            CubeVert {
                pos_x: x as u32 + dx,
                pos_y: y as u32 + dy,
                pos_z: z as u32 + dz,
                txtr: w,
            },
        );
        proof {
            assert(verts@.last() == face_vert(
                slot,
                light,
                x as int,
                y as int,
                z as int,
                side,
                k as int,
            ));
            assert(face.0.take(k as int + 1) =~= face.0.take(k as int).push(face.0[k as int]));
            assert(verts@ =~= old(verts)@ + face.0.take(k as int + 1));
        }
        k += 1;
    }
    proof {
        assert(face.0.take(4) =~= face.0);
        assert(verts@ =~= old(verts)@ + face.0);
    }
    inds.push(vb);
    inds.push(vb + 1);
    inds.push(vb + 2);
    inds.push(vb);
    inds.push(vb + 2);
    inds.push(vb + 3);
    proof {
        assert(inds@ =~= old(inds)@ + face.1);
    }
}

/// Builds the whole cube geometry of one chunk against its neighbor
/// visibility. Pure and deterministic: the result is exactly
/// [`spec_build`]`(*chunk, neighbor_visibility)`, so identical chunk content
/// and mask always produce identical vertex and index sequences.
pub fn build(chunk: &VoxelChunk, neighbor_visibility: NeighborMask) -> (r: (Vec<CubeVert>, Vec<
    u32,
>))
    requires
        chunk.wf(),
    ensures
        r.0@ == spec_build(*chunk, neighbor_visibility).0,
        r.1@ == spec_build(*chunk, neighbor_visibility).1,
{
    let s = chunk.size;
    let total = chunk.blocks.len();
    proof {
        assert((s as int) * (s as int) <= 64 * 64 && (s as int) * (s as int) * (s as int) <= 64 * 64
            * 64) by (nonlinear_arith)
            requires
                1 <= s <= 64,
        ;
    }
    let mut verts: Vec<CubeVert> = Vec::new();
    let mut inds: Vec<u32> = Vec::new();
    let mut n: usize = 0;
    let mut x: usize = 0;
    let mut z: usize = 0;
    let mut y: usize = 0;
    while n < total
        invariant
            chunk.wf(),
            s == chunk.size,
            total == chunk.blocks@.len(),
            total <= 64 * 64 * 64,
            n <= total,
            x < s,
            z < s,
            y * (s as int) * (s as int) + z * (s as int) + x == n as int,
            verts@ == spec_geom(*chunk, neighbor_visibility, n as int).0,
            inds@ == spec_geom(*chunk, neighbor_visibility, n as int).1,
            verts@.len() <= 24 * n,
        decreases total - n,
    {
        proof {
            let si = s as int;
            assert(0 <= (y as int) * si + (z as int) < si * si && ((y as int) * si + (z as int))
                * si == (y as int) * si * si + (z as int) * si) by (nonlinear_arith)
                requires
                    1 <= si,
                    0 <= z < si,
                    0 <= y,
                    (y as int) * si * si + (z as int) * si + (x as int) < si * si * si,
                    0 <= x,
            ;
            lemma_fundamental_div_mod_converse(
                n as int,
                si,
                (y as int) * si + (z as int),
                x as int,
            );
            lemma_fundamental_div_mod_converse((y as int) * si + (z as int), si, y as int, z as int);
            assert(cell_x(si, n as int) == x as int);
            assert(cell_z(si, n as int) == z as int);
            assert(cell_y(si, n as int) == y as int);
            assert(y < s) by (nonlinear_arith)
                requires
                    1 <= si,
                    s == si,
                    0 <= x,
                    0 <= z,
                    0 <= y,
                    (y as int) * si * si + (z as int) * si + (x as int) < si * si * si,
            ;
        }
        let b = chunk.block_at(x, y, z);
        let solid = b.solid();
        let light = b.light;
        let mesh = b.mesh;
        let ghost entry_verts = verts@;
        let ghost entry_inds = inds@;
        if solid {
            let mut k: usize = 0;
            while k < 6
                invariant
                    chunk.wf(),
                    s == chunk.size,
                    total == chunk.blocks@.len(),
                    total <= 64 * 64 * 64,
                    n < total,
                    x < s,
                    z < s,
                    y < s,
                    k <= 6,
                    mesh == chunk.spec_block_at(x as int, y as int, z as int).mesh,
                    light == chunk.spec_block_at(x as int, y as int, z as int).light,
                    mesh.wf(),
                    light < 16,
                    chunk.spec_block_at(x as int, y as int, z as int).spec_solid(),
                    cell_x(s as int, n as int) == x as int,
                    cell_z(s as int, n as int) == z as int,
                    cell_y(s as int, n as int) == y as int,
                    entry_verts == spec_geom(*chunk, neighbor_visibility, n as int).0,
                    entry_inds == spec_geom(*chunk, neighbor_visibility, n as int).1,
                    spec_geom(*chunk, neighbor_visibility, n as int + 1).0 == verts@ + spec_sides(
                        *chunk,
                        neighbor_visibility,
                        x as int,
                        y as int,
                        z as int,
                        k as int,
                        verts@.len() as int,
                    ).0,
                    spec_geom(*chunk, neighbor_visibility, n as int + 1).1 == inds@ + spec_sides(
                        *chunk,
                        neighbor_visibility,
                        x as int,
                        y as int,
                        z as int,
                        k as int,
                        verts@.len() as int,
                    ).1,
                    verts@.len() <= 24 * n + 4 * k,
                decreases 6 - k,
            {
                let side = side_from(k);
                let ghost pre_verts = verts@;
                let ghost pre_inds = inds@;
                let ghost cur = if spec_face_visible(
                    *chunk,
                    neighbor_visibility,
                    x as int,
                    y as int,
                    z as int,
                    side,
                ) {
                    spec_face(
                        mesh.spec_texture_for(side).slot,
                        light,
                        x as int,
                        y as int,
                        z as int,
                        side,
                        verts@.len() as int,
                    )
                } else {
                    (Seq::<CubeVert>::empty(), Seq::<u32>::empty())
                };
                proof {
                    assert(spec_sides(
                        *chunk,
                        neighbor_visibility,
                        x as int,
                        y as int,
                        z as int,
                        k as int,
                        pre_verts.len() as int,
                    ) == (
                        cur.0 + spec_sides(
                            *chunk,
                            neighbor_visibility,
                            x as int,
                            y as int,
                            z as int,
                            k as int + 1,
                            pre_verts.len() + cur.0.len() as int,
                        ).0,
                        cur.1 + spec_sides(
                            *chunk,
                            neighbor_visibility,
                            x as int,
                            y as int,
                            z as int,
                            k as int + 1,
                            pre_verts.len() + cur.0.len() as int,
                        ).1,
                    ));
                }
                if face_visible(chunk, &neighbor_visibility, x, y, z, side) {
                    let t = mesh.texture_for(side);
                    emit_face(&mut verts, &mut inds, x, y, z, side, t.slot, light);
                }
                proof {
                    let rest = spec_sides(
                        *chunk,
                        neighbor_visibility,
                        x as int,
                        y as int,
                        z as int,
                        k as int + 1,
                        pre_verts.len() + cur.0.len() as int,
                    );
                    assert(verts@ == pre_verts + cur.0);
                    assert(inds@ == pre_inds + cur.1);
                    assert(spec_geom(*chunk, neighbor_visibility, n as int + 1).0 == (pre_verts
                        + cur.0) + rest.0) by {
                        assert(pre_verts + (cur.0 + rest.0) =~= (pre_verts + cur.0) + rest.0);
                    }
                    assert(spec_geom(*chunk, neighbor_visibility, n as int + 1).1 == (pre_inds
                        + cur.1) + rest.1) by {
                        assert(pre_inds + (cur.1 + rest.1) =~= (pre_inds + cur.1) + rest.1);
                    }
                }
                k += 1;
            }
            proof {
                assert(spec_sides(
                    *chunk,
                    neighbor_visibility,
                    x as int,
                    y as int,
                    z as int,
                    6,
                    verts@.len() as int,
                ).0 =~= Seq::<CubeVert>::empty());
                assert(verts@ + Seq::<CubeVert>::empty() =~= verts@);
                assert(inds@ + Seq::<u32>::empty() =~= inds@);
            }
        } else {
            proof {
                assert(spec_cell(*chunk, neighbor_visibility, n as int, verts@.len() as int)
                    == (Seq::<CubeVert>::empty(), Seq::<u32>::empty()));
                assert(verts@ + Seq::<CubeVert>::empty() =~= verts@);
                assert(inds@ + Seq::<u32>::empty() =~= inds@);
            }
        }
        proof {
            assert(verts@ == spec_geom(*chunk, neighbor_visibility, n as int + 1).0);
            assert(inds@ == spec_geom(*chunk, neighbor_visibility, n as int + 1).1);
        }
        n += 1;
        x += 1;
        if x == s {
            x = 0;
            z += 1;
            if z == s {
                z = 0;
                y += 1;
                proof {
                    let si = s as int;
                    assert((y as int) * si * si == ((y as int) - 1) * si * si + (si - 1) * si + (si
                        - 1) + 1) by (nonlinear_arith)
                        requires
                            1 <= si,
                            1 <= y,
                    ;
                }
            } else {
                proof {
                    let si = s as int;
                    assert((y as int) * si * si + (z as int) * si == (y as int) * si * si + ((
                    z as int) - 1) * si + (si - 1) + 1) by (nonlinear_arith)
                        requires
                            1 <= si,
                            1 <= z,
                    ;
                }
            }
        }
    }
    proof {
        assert(verts@ == spec_build(*chunk, neighbor_visibility).0);
        assert(inds@ == spec_build(*chunk, neighbor_visibility).1);
    }
    (verts, inds)
}

/// Determinism of the builder: equal chunk content and equal neighbor masks
/// give byte-identical vertex and index sequences, whichever call produced
/// them.
pub proof fn lemma_build_deterministic(
    c1: VoxelChunk,
    c2: VoxelChunk,
    m1: NeighborMask,
    m2: NeighborMask,
)
    requires
        c1 == c2,
        m1 == m2,
    ensures
        spec_build(c1, m1) == spec_build(c2, m2),
{
}

} // verus!
