//! The asset manifest: which textures and sounds the game wants loaded,
//! and where they live relative to the asset root.  Actually reading the
//! files and handing them to an engine is I/O and happens outside the
//! library.

use vstd::prelude::*;

verus! {

/// The pieces of an asset's load path: the fixed asset-directory prefix
/// and the asset's relative path.  The caller joins them (with the
/// manifest directory) into a full filesystem path.
pub fn base_path<'a>(path: &'a str) -> (r: (&'static str, &'a str))
    ensures
        r.0@ == "assets/"@,
        r.1 == path,
{
    ("assets/", path)
}

/// Names and relative paths of every texture and sound the game loads:
/// one ball texture and one hit sound.
pub fn load_assets() -> (r: (Vec<(&'static str, &'static str)>, Vec<(&'static str, &'static str)>))
    ensures
        r.0@.len() == 1,
        r.0@[0].0 == "ball1",
        r.0@[0].1 == "img/ball1.png",
        r.1@.len() == 1,
        r.1@[0].0 == "ball-hit",
        r.1@[0].1 == "sfx/ball-hit.oga",
{
    let mut textures: Vec<(&'static str, &'static str)> = Vec::new();
    textures.push(("ball1", "img/ball1.png"));
    let mut sounds: Vec<(&'static str, &'static str)> = Vec::new();
    sounds.push(("ball-hit", "sfx/ball-hit.oga"));
    (textures, sounds)
}

} // verus!
