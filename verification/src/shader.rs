//! Vertex layout for the cube mesh family, with the packed 32-bit texture
//! attribute word each vertex carries.

use vstd::prelude::*;

verus! {

/// Marker for vertex layouts a mesh family may use.
pub trait VertexType {}

/// Marker for index types a mesh family may use.
pub trait IndexType {}

impl IndexType for u32 {}

/// The unpacked form of the 32-bit per-vertex texture attribute.
/// Packed bit layout, high to low:
/// texture atlas slot (bits 31..15), reserved (bits 14..6),
/// 4-bit lighting (bits 5..2), texture corner (bits 1..0).
#[derive(Clone, Copy, Debug, PartialEq, Eq, Structural)]
pub struct TextureWord {
    pub slot: u32,
    pub light: u8,
    pub corner: u8,
}

impl TextureWord {
    /// Field ranges the packed layout can hold.
    pub open spec fn wf(self) -> bool {
        &&& self.slot < 0x20000
        &&& self.light < 16
        &&& self.corner < 4
    }

    /// The packed 32-bit word: slot in bits 31..15, lighting in bits 5..2,
    /// corner in bits 1..0, reserved bits zero.
    pub open spec fn spec_pack(self) -> u32
        recommends
            self.wf(),
    {
        (self.slot * 0x8000 + self.light * 4 + self.corner) as u32
    }

    pub fn pack(&self) -> (w: u32)
        requires
            self.wf(),
        ensures
            w == self.spec_pack(),
    {
        self.slot * 0x8000 + (self.light as u32) * 4 + (self.corner as u32)
    }

    /// Recovers the fields of a packed word whose reserved bits are zero.
    pub fn unpack(w: u32) -> (t: TextureWord)
        ensures
            t.slot == w / 0x8000,
            t.light == (w / 4) % 16,
            t.corner == w % 4,
    {
        TextureWord {
            slot: w / 0x8000,
            light: ((w / 4) % 16) as u8,
            corner: (w % 4) as u8,
        }
    }
}

/// Packing then unpacking returns the fields unchanged: the word determines
/// slot, lighting and corner exactly.
pub proof fn lemma_texture_word_roundtrip(t: TextureWord)
    requires
        t.wf(),
    ensures
        t.spec_pack() / 0x8000 == t.slot,
        (t.spec_pack() / 4) % 16 == t.light,
        t.spec_pack() % 4 == t.corner,
{
    let w = t.spec_pack() as int;
    let s = t.slot as int;
    let l = t.light as int;
    let c = t.corner as int;
    assert(w == s * 0x8000 + l * 4 + c);
    assert(w / 0x8000 == s && (w / 4) % 16 == l && w % 4 == c) by (nonlinear_arith)
        requires
            w == s * 0x8000 + l * 4 + c,
            0 <= s < 0x20000,
            0 <= l < 16,
            0 <= c < 4,
    ;
}

/// One vertex of the cube mesh family: a lattice position inside the chunk
/// (cube corners sit on whole-voxel coordinates) and the packed texture word.
#[derive(Clone, Copy, Debug, PartialEq, Eq, Structural)]
pub struct CubeVert {
    pub pos_x: u32,
    pub pos_y: u32,
    pub pos_z: u32,
    pub txtr: u32,
}

impl VertexType for CubeVert {}

} // verus!
