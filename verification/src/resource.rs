//! A resource root: the directory that model, texture or shader files are
//! named relative to.  Reading the files themselves is the caller's
//! concern; the path arithmetic is exact here.

use vstd::prelude::*;
use vstd::string::*;

verus! {

/// A directory that resources are loaded from.
#[derive(Debug)]
pub struct Resource {
    pub path: String,
}

impl Resource {
    pub fn new(path: String) -> (r: Resource)
        ensures
            r.path == path,
    {
        Resource { path }
    }

    /// The path of the resource called `name` under this root.
    pub fn resource_path(&self, name: &str) -> (r: String)
        ensures
            r@ == self.path@ + "/"@ + name@,
    {
        let mut r = self.path.clone();
        r.append("/");
        r.append(name);
        r
    }

    pub fn path(&self) -> (r: &String)
        ensures
            r == &self.path,
    {
        &self.path
    }
}

} // verus!
