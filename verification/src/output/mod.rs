//! Renderings of a walked tree, and what they share: the report
//! totals and the line-drawing glyphs.

pub mod text;
pub mod json;
pub mod html;
pub mod encoding_laws;
pub mod listing_laws;
pub mod json_laws;
pub mod listing;

use vstd::prelude::*;

verus! {

/// Directory and file counts (and the --du size) of a listing.
pub struct Totals {
    pub dirs: u64,
    pub files: u64,
    pub size: i64,
}

impl Totals {
    /// No directories, no files, size 0.
    pub fn zero() -> (t: Totals)
        ensures
            t.dirs == 0,
            t.files == 0,
            t.size == 0,
    {
        Totals { dirs: 0, files: 0, size: 0 }
    }

    /// Adds `other`'s counts and size to these.
    pub fn add(&mut self, other: &Totals)
        requires
            old(self).dirs + other.dirs <= u64::MAX,
            old(self).files + other.files <= u64::MAX,
            i64::MIN <= old(self).size + other.size <= i64::MAX,
        ensures
            final(self).dirs == old(self).dirs + other.dirs,
            final(self).files == old(self).files + other.files,
            final(self).size == old(self).size + other.size,
    {
        self.dirs = self.dirs + other.dirs;
        self.files = self.files + other.files;
        self.size = self.size + other.size;
    }
}

/// The line-drawing glyphs of a charset: the vertical bar, tee and
/// corner of the tree lines (each three columns wide), the copyright
/// sign, and the five pieces that frame --info comment lines.
pub struct LineDraw {
    pub vert: Vec<u8>,
    pub tee: Vec<u8>,
    pub corner: Vec<u8>,
    pub copy: Vec<u8>,
    pub ctop: Vec<u8>,
    pub cbot: Vec<u8>,
    pub cmid: Vec<u8>,
    pub cext: Vec<u8>,
    pub csingle: Vec<u8>,
}

} // verus!
