//! What a walk of the file system produces: each entry's metadata,
//! name, link target, error and, for directories, children.
use vstd::prelude::*;

verus! {

/// What the walk recorded of an entry's inode.
#[derive(Clone, Copy)]
pub struct Meta {
    pub ino: u64,
    pub dev: u64,
    /// The inode and device numbers the XML output reports.
    pub fino: u64,
    pub fdev: u64,
    pub mode: u32,
    pub uid: u32,
    pub gid: u32,
    pub size: i64,
    pub mtime: i64,
    pub ctime: i64,
}

/// One entry of the tree.
pub struct Node {
    pub name: Vec<u8>,
    pub meta: Meta,
    /// The --info comment lines for this entry.
    pub comment: Option<Vec<Vec<u8>>>,
    /// The target of a symbolic link.
    pub link: Option<Vec<u8>>,
    /// Why the entry was not descended into, when it was not.
    pub err: Option<String>,
    /// The entries of a directory that was opened.
    pub children: Option<Vec<Node>>,
}

/// What became of a root path.
pub enum RootKind {
    Missing,
    Unreadable,
    /// More entries than --filelimit allows.
    OverLimit(u64),
    Opened(Vec<Node>),
}

/// A path named on the command line.
pub struct Root {
    pub name: Vec<u8>,
    pub meta: Option<Meta>,
    pub kind: RootKind,
}

} // verus!
