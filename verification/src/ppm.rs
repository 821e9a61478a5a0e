use vstd::prelude::*;
use vstd::string::StringExecFns;
use crate::progress::{decimal, push_decimal};

verus! {

/// A rendered picture, ready to be written out as a binary pixmap.
pub struct PPMFile<C> {
    pub height: usize,
    pub width: usize,
    pub spp: usize,
    pub buf: Vec<C>,
}

/// The header of a binary pixmap of the given size, with 255 as the largest
/// value of a channel.
pub open spec fn spec_header(width: nat, height: nat) -> Seq<char> {
    "P6\n"@ + decimal(width) + " "@ + decimal(height) + "\n255\n"@
}

impl<C> PPMFile<C> {
    /// A picture of the given size, whose pixels are sums of `spp`
    /// estimates each.
    pub fn create(height: usize, width: usize, spp: usize, buf: Vec<C>) -> (r: PPMFile<C>)
        ensures
            r.height == height,
            r.width == width,
            r.spp == spp,
            r.buf == buf,
    {
        PPMFile { height, width, spp, buf }
    }

    /// The number of rows.
    pub fn height(&self) -> (r: usize)
        ensures
            r == self.height,
    {
        self.height
    }

    /// The number of columns.
    pub fn width(&self) -> (r: usize)
        ensures
            r == self.width,
    {
        self.width
    }

    /// The text that stands before the pixels in the file.
    pub fn header(&self) -> (r: String)
        ensures
            r@ == spec_header(self.width as nat, self.height as nat),
    {
        let mut text = String::new();
        text.append("P6\n");
        push_decimal(&mut text, self.width as u128);
        text.append(" ");
        push_decimal(&mut text, self.height as u128);
        text.append("\n255\n");
        text
    }
}

} // verus!
