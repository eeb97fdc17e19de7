//! What the result of opening a directory means.
//!
//! The library makes no system call. The caller opens the path with
//! `OPEN_FLAGS` and hands the raw return value to `opendir`, which tells a
//! descriptor from an error.

use vstd::prelude::*;

verus! {

/// Open for reading only.
pub const O_RDONLY: usize = 0;

/// Fail unless the path names a directory.
pub const O_DIRECTORY: usize = 0x10000;

/// Fail where the last component of the path is a symbolic link.
pub const O_NOFOLLOW: usize = 0x20000;

/// The flags a directory is opened with: read-only, directories only, and
/// without following a symbolic link.
pub const OPEN_FLAGS: usize = O_DIRECTORY | O_NOFOLLOW | O_RDONLY;

/// Operation not permitted.
pub const EPERM: i32 = 1;

/// No such file or directory.
pub const ENOENT: i32 = 2;

/// Permission denied.
pub const EACCES: i32 = 13;

/// Not a directory.
pub const ENOTDIR: i32 = 20;

/// Too many open files in the system.
pub const ENFILE: i32 = 23;

/// Too many open files in the process.
pub const EMFILE: i32 = 24;

/// Too many levels of symbolic links; also what an open that does not
/// follow symbolic links answers when it meets one.
pub const ELOOP: i32 = 40;

/// Why a directory could not be opened.
#[derive(Clone, Copy, Debug, PartialEq, Eq)]
pub enum OpenError {
    NotFound,
    NotADirectory,
    PermissionDenied,
    TooManyOpenDescriptors,
    Other,
}

/// An open directory, held by its descriptor.
#[derive(Debug)]
pub struct Directory(pub i32);

/// The error that the error number `errno` stands for. A symbolic link met
/// where none is followed counts as not a directory.
pub open spec fn error_of(errno: int) -> OpenError {
    if errno == ENOENT {
        OpenError::NotFound
    } else if errno == ENOTDIR || errno == ELOOP {
        OpenError::NotADirectory
    } else if errno == EACCES || errno == EPERM {
        OpenError::PermissionDenied
    } else if errno == EMFILE || errno == ENFILE {
        OpenError::TooManyOpenDescriptors
    } else {
        OpenError::Other
    }
}

/// What the return value `status` of an open means: a descriptor where it
/// is not negative and fits one, else the error that its negation stands for.
pub open spec fn open_outcome(status: int) -> Result<Directory, OpenError> {
    if status < 0 {
        Err(error_of(-status))
    } else if status <= i32::MAX {
        Ok(Directory(status as i32))
    } else {
        Err(OpenError::Other)
    }
}

/// The error that the error number `errno` stands for.
pub fn classify(errno: i32) -> (e: OpenError)
    ensures
        e == error_of(errno as int),
{
    if errno == ENOENT {
        OpenError::NotFound
    } else if errno == ENOTDIR || errno == ELOOP {
        OpenError::NotADirectory
    } else if errno == EACCES || errno == EPERM {
        OpenError::PermissionDenied
    } else if errno == EMFILE || errno == ENFILE {
        OpenError::TooManyOpenDescriptors
    } else {
        OpenError::Other
    }
}

/// Reads the return value of opening a directory.
pub fn opendir(status: isize) -> (r: Result<Directory, OpenError>)
    ensures
        r == open_outcome(status as int),
{
    if status < 0 {
        if status >= -0x7fff_ffff {
            Err(classify((-status) as i32))
        } else {
            Err(OpenError::Other)
        }
    } else if status <= 0x7fff_ffff {
        Ok(Directory(status as i32))
    } else {
        Err(OpenError::Other)
    }
}

/// A directory is opened without following a symbolic link, and only if it
/// is a directory; an open that met a symbolic link, or something that is
/// no directory, reads as `NotADirectory`.
pub proof fn lemma_links_are_refused()
    ensures
        OPEN_FLAGS & O_NOFOLLOW == O_NOFOLLOW,
        OPEN_FLAGS & O_DIRECTORY == O_DIRECTORY,
        open_outcome(-ELOOP) == Err::<Directory, OpenError>(OpenError::NotADirectory),
        open_outcome(-ENOTDIR) == Err::<Directory, OpenError>(OpenError::NotADirectory),
{
    assert((0x10000usize | 0x20000usize | 0usize) & 0x20000usize == 0x20000usize) by (bit_vector);
    assert((0x10000usize | 0x20000usize | 0usize) & 0x10000usize == 0x10000usize) by (bit_vector);
}

} // verus!
