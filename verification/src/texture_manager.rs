//! A cache of loaded textures by name.  Decoding image files happens with
//! the caller; the cache itself — one texture per name, first load wins —
//! is kept exact here.

use vstd::prelude::*;
use crate::resource_parser::str_eq;
use crate::texture::Texture;

verus! {

/// Caches one texture per name.
pub struct TextureManager {
    pub textures: Vec<(String, Texture)>,
}

impl TextureManager {
    /// No name appears twice.
    pub open spec fn wf(self) -> bool {
        forall|i: int, j: int|
            0 <= i < j < self.textures@.len() ==> (#[trigger] self.textures@[i]).0@ != (
            #[trigger] self.textures@[j]).0@
    }

    pub fn new() -> (m: TextureManager)
        ensures
            m.textures@.len() == 0,
            m.wf(),
    {
        TextureManager { textures: Vec::new() }
    }

    /// The texture cached under `name`, if any.
    pub fn get_texture(&self, name: &str) -> (r: Option<&Texture>)
        ensures
            r matches Some(t) ==> exists|i: int|
                0 <= i < self.textures@.len() && (#[trigger] self.textures@[i]).0@ == name@ && *t
                    == self.textures@[i].1,
            r is None ==> forall|i: int|
                0 <= i < self.textures@.len() ==> (#[trigger] self.textures@[i]).0@ != name@,
    {
        let n = self.textures.len();
        let mut i: usize = 0;
        while i < n
            invariant
                n == self.textures@.len(),
                i <= n,
                forall|j: int| 0 <= j < i ==> (#[trigger] self.textures@[j]).0@ != name@,
            decreases n - i,
        {
            if str_eq(self.textures[i].0.as_str(), name) {
                return Some(&self.textures[i].1);
            }
            i += 1;
        }
        None
    }

    /// Cache `texture` under `name`.  A name already cached keeps its
    /// first texture.
    pub fn add_texture(&mut self, name: String, texture: Texture)
        requires
            old(self).wf(),
        ensures
            final(self).wf(),
            (exists|i: int|
                0 <= i < old(self).textures@.len() && (#[trigger] old(self).textures@[i]).0@
                    == name@) ==> *final(self) == *old(self),
            !(exists|i: int|
                0 <= i < old(self).textures@.len() && (#[trigger] old(self).textures@[i]).0@
                    == name@) ==> final(self).textures@ == old(self).textures@.push(
                (name, texture),
            ),
    {
        match self.get_texture(name.as_str()) {
            Option::Some(_) => {},
            Option::None => {
                self.textures.push((name, texture));
            },
        }
    }
}

} // verus!
