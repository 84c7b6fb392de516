//! Output building blocks: metadata columns, colors, line-drawing glyphs
//! and the XML backend.
pub mod meta;
pub mod color;
pub mod linedraw;
pub mod xml;

use vstd::prelude::*;

verus! {

/// The counts of the report.
#[derive(Debug, Clone, Copy)]
pub struct Totals {
    pub dirs: u64,
    pub files: u64,
    /// --du bytes (accumulated directory sizes).
    pub size: i64,
}

impl Totals {
    /// Add another set of counts to these.
    pub fn add(&mut self, other: &Totals)
        requires
            old(self).dirs + other.dirs <= u64::MAX,
            old(self).files + other.files <= u64::MAX,
            i64::MIN <= old(self).size + other.size <= i64::MAX,
        ensures
            final(self).dirs == old(self).dirs + other.dirs,
            final(self).files == old(self).files + other.files,
            final(self).size == old(self).size + other.size,
    {
        self.dirs = self.dirs + other.dirs;
        self.files = self.files + other.files;
        self.size = self.size + other.size;
    }
}

impl Default for Totals {
    fn default() -> (r: Totals)
        ensures
            r.dirs == 0 && r.files == 0 && r.size == 0,
    {
        Totals { dirs: 0, files: 0, size: 0 }
    }
}

} // verus!
