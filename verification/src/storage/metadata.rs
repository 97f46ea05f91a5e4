//! What a file system says about one of its files or directories.
use vstd::prelude::*;
use vstd::utf8::encode_utf8;

verus! {

#[derive(Debug, Clone, Copy, PartialEq, Eq, Structural)]
pub enum FileType {
    File,
    Directory,
}

/// A file's or a directory's name, kind, length in bytes and link count.
pub struct Metadata {
    pub name: String,
    pub entry_type: FileType,
    pub len: usize,
    pub links: usize,
}

/// The spec view of a `Metadata`: the name as UTF-8 bytes.
pub struct MetaView {
    pub name: Seq<u8>,
    pub entry_type: FileType,
    pub len: int,
    pub links: int,
}

impl View for Metadata {
    type V = MetaView;

    open spec fn view(&self) -> MetaView {
        MetaView {
            name: encode_utf8(self.name@),
            entry_type: self.entry_type,
            len: self.len as int,
            links: self.links as int,
        }
    }
}

/// The views of a sequence of metadata.
pub open spec fn views(v: Seq<Metadata>) -> Seq<MetaView> {
    v.map_values(|m: Metadata| m@)
}

impl Metadata {
    /// Metadata with one link.
    pub fn new(name: String, entry_type: FileType, len: usize) -> (r: Self)
        ensures
            r.name@ == name@,
            r.entry_type == entry_type,
            r.len == len,
            r.links == 1,
    {
        Metadata { name, entry_type, len, links: 1 }
    }

    pub fn is_dir(&self) -> (r: bool)
        ensures
            r == (self.entry_type == FileType::Directory),
    {
        match self.entry_type {
            FileType::Directory => true,
            FileType::File => false,
        }
    }
}

} // verus!
