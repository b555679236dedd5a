use vstd::prelude::*;

verus! {

/// Something that can be prepared for drawing.
pub trait Drawable {
    type Data;

    fn prepare(&self) -> Self::Data;
}

/// A sink that draws items.
pub trait Draw<Item> where Item: Drawable {
    fn draw(&mut self, items: &[Item]);
}

} // verus!
