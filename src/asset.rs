//! Locating the game's assets under a base directory.
use vstd::prelude::*;

verus! {

/// Finds assets under a base directory. Reading them is left to the caller.
pub struct AssetLoader {
    base_path: String,
}

impl View for AssetLoader {
    type V = Seq<char>;

    closed spec fn view(&self) -> Seq<char> {
        self.base_path@
    }
}

impl AssetLoader {
    pub fn new(base_path: String) -> (r: AssetLoader)
        ensures
            r@ == base_path@,
    {
        AssetLoader { base_path }
    }

    /// The base directory.
    pub fn base_path(&self) -> (r: &String)
        ensures
            r@ == self@,
    {
        &self.base_path
    }

    /// The path of the compiled shader module `name`, as components to join in
    /// order: the base directory, `compiled_shaders`, then `name`.
    pub fn shader_path(&self, name: &str) -> (r: Vec<String>)
        ensures
            r@.len() == 3,
            r@[0]@ == self@,
            r@[1]@ == "compiled_shaders"@,
            r@[2]@ == name@,
    {
        let mut r: Vec<String> = Vec::new();
        r.push(self.base_path.clone());
        r.push("compiled_shaders".to_owned());
        r.push(name.to_owned());
        r
    }

    /// The path of the asset `name` (a path relative to the base, such as
    /// `world/map.ron`), as components to join in order: the base directory,
    /// then `name`.
    pub fn asset_path(&self, name: &str) -> (r: Vec<String>)
        ensures
            r@.len() == 2,
            r@[0]@ == self@,
            r@[1]@ == name@,
    {
        let mut r: Vec<String> = Vec::new();
        r.push(self.base_path.clone());
        r.push(name.to_owned());
        r
    }
}

} // verus!
