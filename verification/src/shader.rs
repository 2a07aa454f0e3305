//! Records of shader objects and programs.  Compiling and linking happen
//! with the caller, which hands the resulting object ids in; the verified
//! side keeps the program's uniform-location cache exact.

use vstd::prelude::*;

verus! {

/// One compiled shader object.
#[derive(Debug)]
pub struct Shader {
    pub id: u32,
}

impl Shader {
    /// Wrap a compiled shader object id.
    pub fn new(id: u32) -> (s: Shader)
        ensures
            s == (Shader { id }),
    {
        Shader { id }
    }

    pub fn id(&self) -> (r: u32)
        ensures
            r == self.id,
    {
        self.id
    }
}

/// A linked shader program with its cache of uniform locations, one entry
/// per distinct uniform name.
#[derive(Debug)]
pub struct ShaderProgram {
    pub id: u32,
    pub uniform_locations: Vec<(String, i32)>,
}

impl ShaderProgram {
    /// Each uniform name is cached at most once.
    pub open spec fn wf(self) -> bool {
        forall|i: int, j: int|
            0 <= i < j < self.uniform_locations@.len() ==> (
            #[trigger] self.uniform_locations@[i]).0@ != (
            #[trigger] self.uniform_locations@[j]).0@
    }

    /// Wrap a linked program id with an empty cache.
    pub fn new(id: u32) -> (p: ShaderProgram)
        ensures
            p.id == id,
            p.uniform_locations@.len() == 0,
            p.wf(),
    {
        ShaderProgram { id, uniform_locations: Vec::new() }
    }

    /// The cached location of `name`, if the cache holds one.
    pub fn cached_location(&self, name: &String) -> (r: Option<i32>)
        ensures
            r matches Some(loc) ==> exists|i: int|
                0 <= i < self.uniform_locations@.len() && (
                #[trigger] self.uniform_locations@[i]).0@ == name@
                    && self.uniform_locations@[i].1 == loc,
            r is None ==> forall|i: int|
                0 <= i < self.uniform_locations@.len() ==> (
                #[trigger] self.uniform_locations@[i]).0@ != name@,
    {
        let n = self.uniform_locations.len();
        let mut i: usize = 0;
        while i < n
            invariant
                n == self.uniform_locations@.len(),
                i <= n,
                forall|j: int|
                    0 <= j < i ==> (#[trigger] self.uniform_locations@[j]).0@ != name@,
            decreases n - i,
        {
            if self.uniform_locations[i].0.eq(name) {
                return Some(self.uniform_locations[i].1);
            }
            i += 1;
        }
        None
    }

    /// Cache the location the driver reported for `name`.  A name already
    /// cached keeps its entry.
    pub fn store_location(&mut self, name: String, loc: i32)
        requires
            old(self).wf(),
        ensures
            final(self).wf(),
            final(self).id == old(self).id,
            (exists|i: int|
                0 <= i < old(self).uniform_locations@.len() && (
                #[trigger] old(self).uniform_locations@[i]).0@ == name@) ==> *final(self) == *old(self),
            !(exists|i: int|
                0 <= i < old(self).uniform_locations@.len() && (
                #[trigger] old(self).uniform_locations@[i]).0@ == name@)
                ==> final(self).uniform_locations@ == old(self).uniform_locations@.push(
                (name, loc),
            ),
    {
        match self.cached_location(&name) {
            Option::Some(_) => {},
            Option::None => {
                self.uniform_locations.push((name, loc));
            },
        }
    }
}

/// Collects the shader objects a program will link.
#[derive(Debug)]
pub struct ShaderProgramBuilder {
    pub shaders: Vec<u32>,
}

impl ShaderProgramBuilder {
    pub fn new() -> (b: ShaderProgramBuilder)
        ensures
            b.shaders@.len() == 0,
    {
        ShaderProgramBuilder { shaders: Vec::new() }
    }

    /// Add one compiled shader object to the set to link.
    pub fn add_shader(self, shader: &Shader) -> (r: ShaderProgramBuilder)
        ensures
            r.shaders@ == self.shaders@.push(shader.id),
    {
        let mut b = self;
        b.shaders.push(shader.id);
        b
    }

    pub fn shader_ids(&self) -> (r: &Vec<u32>)
        ensures
            r == &self.shaders,
    {
        &self.shaders
    }
}

} // verus!
