//! The kind of item that a tracked path holds.

use crate::errors::Error;
use vstd::prelude::*;

verus! {

/// What a tracked path is. It is fixed when the path is first backed up.
#[derive(Clone, Copy, Debug, PartialEq, Eq, Structural)]
pub enum Filetype {
    File,
    Directory,
}

/// The type that a probe of a path stands for.
pub open spec fn filetype_of(is_dir: bool, is_file: bool) -> Option<Filetype> {
    if is_dir {
        Some(Filetype::Directory)
    } else if is_file {
        Some(Filetype::File)
    } else {
        None
    }
}

/// Classifies a path from what a probe of it found: a directory, a regular
/// file, or something that cannot be backed up.
pub fn get_filetype(is_dir: bool, is_file: bool) -> (result: Result<Filetype, Error>)
    ensures
        match filetype_of(is_dir, is_file) {
            Some(kind) => result == Ok::<Filetype, Error>(kind),
            None => result == Err::<Filetype, Error>(Error::Unsupported),
        },
{
    if is_dir {
        Ok(Filetype::Directory)
    } else if is_file {
        Ok(Filetype::File)
    } else {
        Err(Error::Unsupported)
    }
}

} // verus!
