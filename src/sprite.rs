//! Sprite sheets and the tiles cut from them.
use vstd::prelude::*;

verus! {

/// An image file of sprites, and the name it is known by.
#[derive(Debug)]
pub struct SpriteSheet {
    pub path: String,
    pub name: String,
}

impl Clone for SpriteSheet {
    fn clone(&self) -> (r: SpriteSheet)
        ensures
            r.path@ == self.path@,
            r.name@ == self.name@,
    {
        SpriteSheet { path: self.path.clone(), name: self.name.clone() }
    }
}

/// A rectangle of a named sprite sheet: where it starts and its size, in pixels.
#[derive(Debug)]
pub struct SpriteTile {
    pub sheet: String,
    pub coords: (usize, usize),
    pub size: (usize, usize),
}

impl Clone for SpriteTile {
    fn clone(&self) -> (r: SpriteTile)
        ensures
            r.sheet@ == self.sheet@,
            r.coords == self.coords,
            r.size == self.size,
    {
        SpriteTile { sheet: self.sheet.clone(), coords: self.coords, size: self.size }
    }
}

impl SpriteTile {
    /// An empty tile of no sheet.
    pub fn stub() -> (r: SpriteTile)
        ensures
            r.sheet@ == Seq::<char>::empty(),
            r.coords == (0usize, 0usize),
            r.size == (0usize, 0usize),
    {
        SpriteTile { sheet: String::new(), coords: (0, 0), size: (0, 0) }
    }
}

} // verus!
