//! Components that can be attached to an entity.

use vstd::prelude::*;

verus! {

/// Whether a renderable entity is drawn from a single image (static) or from
/// several images shown in turn (animated).
#[derive(Clone, Copy, Debug, PartialEq, Eq, Structural)]
pub enum RenderableKind {
    Static,
    Animated,
}

/// A renderable entity can be drawn on to the game screen.
#[derive(Debug)]
pub struct Renderable {
    paths: Vec<String>,
}

impl View for Renderable {
    type V = Seq<Seq<char>>;

    /// The image paths, in the order in which they are shown.
    closed spec fn view(&self) -> Seq<Seq<char>> {
        Seq::new(self.paths@.len(), |i: int| self.paths@[i]@)
    }
}

impl Renderable {
    /// A renderable with exactly one image.
    pub fn new_static(path: String) -> (r: Self)
        ensures
            r@ == seq![path@],
    {
        let mut paths: Vec<String> = Vec::new();
        paths.push(path);
        let r = Self { paths };
        assert(r@ =~= seq![path@]);
        r
    }

    /// A renderable that cycles through `paths`.
    pub fn new_animated(paths: Vec<String>) -> (r: Self)
        ensures
            r@ == Seq::new(paths@.len(), |i: int| paths@[i]@),
    {
        Self { paths }
    }

    /// Number of images.
    pub fn len(&self) -> (n: usize)
        ensures
            n == self@.len(),
    {
        self.paths.len()
    }

    /// Static for one image, animated for more. A renderable without any
    /// image has no kind.
    pub fn kind(&self) -> (k: RenderableKind)
        requires
            self@.len() > 0,
        ensures
            k == (if self@.len() == 1 {
                RenderableKind::Static
            } else {
                RenderableKind::Animated
            }),
    {
        if self.paths.len() == 1 {
            RenderableKind::Static
        } else {
            RenderableKind::Animated
        }
    }

    /// The image to show for frame `idx`; frames wrap around.
    pub fn path(&self, idx: usize) -> (p: &str)
        requires
            self@.len() > 0,
        ensures
            p@ == self@[idx as int % self@.len() as int],
    {
        self.paths[idx % self.paths.len()].as_str()
    }
}

/// Position of an entity on the grid. The z-axis only decides whether an
/// entity is drawn onto or below another one.
#[derive(Clone, Copy, Debug, PartialEq, Eq, Structural)]
pub struct Position {
    pub x: u8,
    pub y: u8,
    pub z: u8,
}

/// The color of a box or of a box spot.
#[derive(Clone, Copy, Debug, PartialEq, Eq, Structural)]
pub enum BoxColor {
    Blue,
    Red,
}

/// Marker for a box.
#[derive(Clone, Copy, Debug, PartialEq, Eq, Structural)]
pub struct Box {
    pub color: BoxColor,
}

/// Marker for a box destination.
#[derive(Clone, Copy, Debug, PartialEq, Eq, Structural)]
pub struct BoxSpot {
    pub color: BoxColor,
}

/// Marker for the player.
#[derive(Clone, Copy, Debug, Default, PartialEq, Eq, Structural)]
pub struct Player;

/// Marker for a wall.
#[derive(Clone, Copy, Debug, Default, PartialEq, Eq, Structural)]
pub struct Wall;

/// A movable entity can be pushed by the player.
#[derive(Clone, Copy, Debug, Default, PartialEq, Eq, Structural)]
pub struct Movable;

/// An immovable entity blocks whatever is pushed against it.
#[derive(Clone, Copy, Debug, Default, PartialEq, Eq, Structural)]
pub struct Immovable;

} // verus!
