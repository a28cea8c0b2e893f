//! Texture index: maps semantic texture names to texture-atlas slot indices.
//! A pure lookup table, consumed when blocks are given their mesh types.

use vstd::prelude::*;

verus! {

/// A resolved texture-atlas slot. The slot fits the 17-bit field of the
/// packed vertex attribute word.
#[derive(Clone, Copy, Debug, PartialEq, Eq, Structural, Hash)]
pub struct TextureID {
    pub slot: u32,
}

impl TextureID {
    pub open spec fn wf(self) -> bool {
        self.slot < 0x20000
    }
}

/// The lookup table from texture names to atlas slots: name `names[i]`
/// resolves to slot `i`. Holds at most as many names as slots exist.
pub struct TextureIndex {
    names: Vec<String>,
}

impl TextureIndex {
    pub closed spec fn view(self) -> Seq<Seq<char>> {
        self.names@.map_values(|n: String| n@)
    }

    pub closed spec fn wf(self) -> bool {
        self.names@.len() <= 0x20000
    }

    /// An empty index.
    pub fn new() -> (t: TextureIndex)
        ensures
            t@ == Seq::<Seq<char>>::empty(),
            t.wf(),
    {
        TextureIndex { names: Vec::new() }
    }

    /// Registers `name` at the next free slot and returns that slot.
    /// Fails only when the atlas is full.
    pub fn register(&mut self, name: String) -> (r: Option<TextureID>)
        ensures
            match r {
                Some(t) => {
                    &&& old(self)@.len() < 0x20000
                    &&& t.slot == old(self)@.len()
                    &&& t.wf()
                    &&& final(self)@ == old(self)@.push(name@)
                },
                None => {
                    &&& old(self)@.len() >= 0x20000
                    &&& final(self)@ == old(self)@
                },
            },
            old(self).wf() ==> final(self).wf(),
    {
        if self.names.len() < 0x20000 {
            let slot = self.names.len() as u32;
            self.names.push(name);
            assert(self@ =~= old(self)@.push(self.names@.last()@));
            Some(TextureID { slot })
        } else {
            None
        }
    }

    /// Resolves a texture name to its atlas slot: `Some` exactly when the
    /// name is registered, and then the slot of its first registration.
    pub fn resolve(&self, name: &String) -> (r: Option<TextureID>)
        requires
            self.wf(),
        ensures
            match r {
                Some(t) => {
                    &&& 0 <= t.slot < self@.len()
                    &&& self@[t.slot as int] == name@
                    &&& forall|j: int| 0 <= j < t.slot ==> self@[j] != name@
                    &&& t.wf()
                },
                None => forall|j: int| 0 <= j < self@.len() ==> self@[j] != name@,
            },
    {
        let mut i: usize = 0;
        while i < self.names.len()
            invariant
                0 <= i <= self.names@.len(),
                self.wf(),
                forall|j: int| 0 <= j < i ==> self@[j] != name@,
            decreases self.names@.len() - i,
        {
            if self.names[i].eq(name) {
                assert(self@[i as int] == name@);
                return Some(TextureID { slot: i as u32 });
            }
            i += 1;
        }
        None
    }
}

} // verus!
