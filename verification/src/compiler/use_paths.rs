//! Which file a `use` path names: the choices made from what exists on disk.

use vstd::prelude::*;
use crate::text::str_eq;

verus! {

/// Where the segments of a `use` path are looked up from.
#[derive(Clone, Copy, PartialEq, Eq, Structural, Debug)]
pub enum PathBase {
    /// The `src` directory of the crate (`crate::...` or a plain path).
    SrcRoot,
    /// The directory of the source file (`self::...`).
    FileDir,
    /// The parent of that directory (`super::...`).
    ParentDir,
}

/// The base of a `use` path and the index of its first segment to resolve.
pub open spec fn path_base_of(first: Option<Seq<char>>) -> (PathBase, usize) {
    match first {
        Some(f) => if f == "crate"@ {
            (PathBase::SrcRoot, 1)
        } else if f == "self"@ {
            (PathBase::FileDir, 1)
        } else if f == "super"@ {
            (PathBase::ParentDir, 1)
        } else {
            (PathBase::SrcRoot, 0)
        },
        None => (PathBase::SrcRoot, 0),
    }
}

/// Reads the leading `crate`, `self` or `super` of a `use` path.
pub fn path_base(segments: &[String]) -> (r: (PathBase, usize))
    ensures
        r == path_base_of(if segments@.len() > 0 { Some(segments@[0]@) } else { None }),
{
    if segments.len() == 0 {
        return (PathBase::SrcRoot, 0);
    }
    let first = segments[0].as_str();
    proof {
        reveal_strlit("crate");
        reveal_strlit("self");
        reveal_strlit("super");
    }
    if str_eq(first, "crate") {
        (PathBase::SrcRoot, 1)
    } else if str_eq(first, "self") {
        (PathBase::FileDir, 1)
    } else if str_eq(first, "super") {
        (PathBase::ParentDir, 1)
    } else {
        (PathBase::SrcRoot, 0)
    }
}

/// What one segment of a module path resolves to, inside a directory.
#[derive(Clone, Copy, PartialEq, Eq, Structural, Debug)]
pub enum SegmentFile {
    /// `segment.volki`
    Volki,
    /// `segment.rs`
    Rs,
    /// `segment/mod.rs`
    DirModRs,
    /// `segment/mod.volki`
    DirModVolki,
    /// the directory `segment` itself
    Dir,
}

/// The file a segment names, given which candidates exist: `.volki` before
/// `.rs`, then a directory's `mod.rs`, its `mod.volki`, or the directory itself.
pub open spec fn segment_file_of(volki: bool, rs: bool, dir: bool, dir_mod_rs: bool, dir_mod_volki: bool) -> Option<SegmentFile> {
    if volki {
        Some(SegmentFile::Volki)
    } else if rs {
        Some(SegmentFile::Rs)
    } else if dir {
        if dir_mod_rs {
            Some(SegmentFile::DirModRs)
        } else if dir_mod_volki {
            Some(SegmentFile::DirModVolki)
        } else {
            Some(SegmentFile::Dir)
        }
    } else {
        None
    }
}

/// Chooses what a segment resolves to from the candidates that exist.
pub fn segment_file(volki: bool, rs: bool, dir: bool, dir_mod_rs: bool, dir_mod_volki: bool) -> (r: Option<SegmentFile>)
    ensures
        r == segment_file_of(volki, rs, dir, dir_mod_rs, dir_mod_volki),
{
    if volki {
        Some(SegmentFile::Volki)
    } else if rs {
        Some(SegmentFile::Rs)
    } else if dir {
        if dir_mod_rs {
            Some(SegmentFile::DirModRs)
        } else if dir_mod_volki {
            Some(SegmentFile::DirModVolki)
        } else {
            Some(SegmentFile::Dir)
        }
    } else {
        None
    }
}

/// What the end of a resolved module path names.
#[derive(Clone, Copy, PartialEq, Eq, Structural, Debug)]
pub enum ModuleFile {
    /// the path itself, a file
    Itself,
    /// its `mod.rs`
    ModRs,
    /// its `mod.volki`
    ModVolki,
}

/// The module file at the end of a path: the path when it is a file, else its
/// `mod.rs`, else its `mod.volki`; none when there is none of them.
pub open spec fn module_file_of(is_file: bool, mod_rs: bool, mod_volki: bool) -> Option<ModuleFile> {
    if is_file {
        Some(ModuleFile::Itself)
    } else if mod_rs {
        Some(ModuleFile::ModRs)
    } else if mod_volki {
        Some(ModuleFile::ModVolki)
    } else {
        None
    }
}

/// Chooses the module file at the end of a path.
pub fn module_file(is_file: bool, mod_rs: bool, mod_volki: bool) -> (r: Option<ModuleFile>)
    ensures
        r == module_file_of(is_file, mod_rs, mod_volki),
{
    if is_file {
        Some(ModuleFile::Itself)
    } else if mod_rs {
        Some(ModuleFile::ModRs)
    } else if mod_volki {
        Some(ModuleFile::ModVolki)
    } else {
        None
    }
}

} // verus!
