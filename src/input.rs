//! The typed inputs from which a package archive is built.
use vstd::prelude::*;
use crate::blob::{same_source, Source};

verus! {

/// A directory to add to the archive.
#[derive(Clone, Debug, PartialEq, Eq)]
pub struct TargetDirectory(pub String);

/// A built package to add to the archive.
#[derive(Clone, Debug, PartialEq, Eq)]
pub struct TargetPackage(pub String);

/// A path on the host, and the place it takes in the archive.
#[derive(Clone, Debug, PartialEq, Eq)]
pub struct MappedPath {
    /// Source path.
    pub from: String,
    /// Destination path.
    pub to: String,
}

/// One input used to construct a package.
#[derive(Clone, Debug, PartialEq, Eq)]
pub enum BuildInput {
    /// A small file whose contents are held in memory.
    AddInMemoryFile { dst_path: String, contents: String },
    /// A directory of the archive; it need not exist on the host.
    AddDirectory(TargetDirectory),
    /// A file copied from the host; `len` helps tell changed files apart.
    AddFile { mapped_path: MappedPath, len: u64 },
    /// A file that may first have to be downloaded.
    AddBlob { path: MappedPath, blob: Source },
    /// A built zone image whose contents are copied in.
    AddPackage(TargetPackage),
}

/// Two inputs agree.
pub open spec fn same_input(a: BuildInput, b: BuildInput) -> bool {
    match (a, b) {
        (
            BuildInput::AddInMemoryFile { dst_path: d1, contents: c1 },
            BuildInput::AddInMemoryFile { dst_path: d2, contents: c2 },
        ) => d1@ == d2@ && c1@ == c2@,
        (BuildInput::AddDirectory(d1), BuildInput::AddDirectory(d2)) => d1.0@ == d2.0@,
        (
            BuildInput::AddFile { mapped_path: m1, len: l1 },
            BuildInput::AddFile { mapped_path: m2, len: l2 },
        ) => m1.from@ == m2.from@ && m1.to@ == m2.to@ && l1 == l2,
        (BuildInput::AddBlob { path: m1, blob: b1 }, BuildInput::AddBlob { path: m2, blob: b2 }) =>
            m1.from@ == m2.from@ && m1.to@ == m2.to@ && same_source(b1, b2),
        (BuildInput::AddPackage(p1), BuildInput::AddPackage(p2)) => p1.0@ == p2.0@,
        _ => false,
    }
}

/// The path on the host that an input reads, if any.
pub open spec fn input_path_of(i: BuildInput) -> Option<Seq<char>> {
    match i {
        BuildInput::AddInMemoryFile { .. } => None,
        BuildInput::AddDirectory(_) => None,
        BuildInput::AddFile { mapped_path, .. } => Some(mapped_path.from@),
        BuildInput::AddBlob { path, .. } => Some(path.from@),
        BuildInput::AddPackage(p) => Some(p.0@),
    }
}

/// The place in the archive that an input takes, for those that name one.
pub open spec fn destination_of(i: BuildInput) -> Option<Seq<char>> {
    match i {
        BuildInput::AddInMemoryFile { dst_path, .. } => Some(dst_path@),
        BuildInput::AddDirectory(d) => Some(d.0@),
        BuildInput::AddFile { mapped_path, .. } => Some(mapped_path.to@),
        BuildInput::AddBlob { path, .. } => Some(path.to@),
        BuildInput::AddPackage(_) => None,
    }
}

impl BuildInput {
    /// The path on the host that the input reads, if any.
    pub fn input_path(&self) -> (r: Option<&String>)
        ensures
            r matches Some(p) ==> input_path_of(*self) == Some(p@),
            r is None <==> input_path_of(*self) is None,
    {
        match self {
            BuildInput::AddInMemoryFile { .. } => None,
            BuildInput::AddDirectory(_) => None,
            BuildInput::AddFile { mapped_path, .. } => Some(&mapped_path.from),
            BuildInput::AddBlob { path, .. } => Some(&path.from),
            BuildInput::AddPackage(p) => Some(&p.0),
        }
    }

    /// A file copied from the host, whose length on disk is `len`.
    pub fn add_file(mapped_path: MappedPath, len: u64) -> (r: BuildInput)
        ensures
            r == (BuildInput::AddFile { mapped_path, len }),
    {
        BuildInput::AddFile { mapped_path, len }
    }

    /// A copy of the input.
    pub fn clone_input(&self) -> (r: BuildInput)
        ensures
            r == *self,
    {
        match self {
            BuildInput::AddInMemoryFile { dst_path, contents } => BuildInput::AddInMemoryFile {
                dst_path: dst_path.clone(),
                contents: contents.clone(),
            },
            BuildInput::AddDirectory(d) => BuildInput::AddDirectory(TargetDirectory(d.0.clone())),
            BuildInput::AddFile { mapped_path, len } => BuildInput::AddFile {
                mapped_path: MappedPath { from: mapped_path.from.clone(), to: mapped_path.to.clone() },
                len: *len,
            },
            BuildInput::AddBlob { path, blob } => BuildInput::AddBlob {
                path: MappedPath { from: path.from.clone(), to: path.to.clone() },
                blob: blob.clone_source(),
            },
            BuildInput::AddPackage(p) => BuildInput::AddPackage(TargetPackage(p.0.clone())),
        }
    }

    pub fn same(&self, o: &BuildInput) -> (r: bool)
        ensures
            r == same_input(*self, *o),
    {
        match (self, o) {
            (
                BuildInput::AddInMemoryFile { dst_path: d1, contents: c1 },
                BuildInput::AddInMemoryFile { dst_path: d2, contents: c2 },
            ) => *d1 == *d2 && *c1 == *c2,
            (BuildInput::AddDirectory(d1), BuildInput::AddDirectory(d2)) => d1.0 == d2.0,
            (
                BuildInput::AddFile { mapped_path: m1, len: l1 },
                BuildInput::AddFile { mapped_path: m2, len: l2 },
            ) => m1.from == m2.from && m1.to == m2.to && *l1 == *l2,
            (
                BuildInput::AddBlob { path: m1, blob: b1 },
                BuildInput::AddBlob { path: m2, blob: b2 },
            ) => m1.from == m2.from && m1.to == m2.to && b1.same(b2),
            (BuildInput::AddPackage(p1), BuildInput::AddPackage(p2)) => p1.0 == p2.0,
            _ => false,
        }
    }
}

/// An ordered collection of build inputs.
#[derive(Clone, Debug)]
pub struct BuildInputs(pub Vec<BuildInput>);

impl BuildInputs {
    /// No inputs.
    pub fn new() -> (r: BuildInputs)
        ensures
            r.0@.len() == 0,
    {
        BuildInputs(Vec::new())
    }
}

} // verus!
