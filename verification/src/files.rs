//! Which files and directories are private enough, and what is swept away at the start.

use vstd::prelude::*;

use crate::text::{starts_with, text_has_prefix, trim, trim_text};
use crate::text_laws::law_beginnings_can_be_continued;

verus! {

broadcast use vstd::string::group_string_axioms;

/// The mode of a private directory.
pub const PRIVATE_DIRECTORY_MODE: u32 = 0o700;

/// The mode of a private file or socket.
pub const PRIVATE_FILE_MODE: u32 = 0o600;

/// True when group or others have any access.
pub open spec fn is_exposed(mode: u32) -> bool {
    mode & 0o077 != 0
}

/// A private mode exposes nothing.
pub proof fn law_private_modes_are_not_exposed()
    ensures
        !is_exposed(PRIVATE_DIRECTORY_MODE),
        !is_exposed(PRIVATE_FILE_MODE),
{
    assert(0o700u32 & 0o077 == 0) by (bit_vector);
    assert(0o600u32 & 0o077 == 0) by (bit_vector);
}

// ---------------------------------------------------------------------------
// Directories
// ---------------------------------------------------------------------------

/// Why a directory was refused.
#[derive(Clone, Copy, Debug, PartialEq, Eq, Structural)]
pub enum DirectoryError {
    /// The path does not name a directory.
    NotDirectory,
    /// Group or others have access.
    Exposed,
}

/// What is to be done with a directory that must be private, given whether it existed before:
/// one that is new gets its mode set (`Ok(true)`); one that existed stays as it is, if it is
/// private already.
pub open spec fn directory_verdict(existed: bool, is_directory: bool, mode: u32) -> Result<
    bool,
    DirectoryError,
> {
    if !is_directory {
        Err(DirectoryError::NotDirectory)
    } else if existed && is_exposed(mode) {
        Err(DirectoryError::Exposed)
    } else {
        Ok(!existed)
    }
}

/// What is to be done with a directory that must be private.
pub fn judge_directory(existed: bool, is_directory: bool, mode: u32) -> (r: Result<
    bool,
    DirectoryError,
>)
    ensures
        r == directory_verdict(existed, is_directory, mode),
{
    if !is_directory {
        return Err(DirectoryError::NotDirectory);
    }
    if existed && mode & 0o077 != 0 {
        return Err(DirectoryError::Exposed);
    }
    Ok(!existed)
}

/// A directory that passes is private afterwards: it was so before, or gets the private mode.
pub proof fn law_passed_directory_is_private(existed: bool, is_directory: bool, mode: u32)
    requires
        directory_verdict(existed, is_directory, mode) is Ok,
    ensures
        !is_exposed(
            if directory_verdict(existed, is_directory, mode)->Ok_0 {
                PRIVATE_DIRECTORY_MODE
            } else {
                mode
            },
        ),
{
    law_private_modes_are_not_exposed();
}

// ---------------------------------------------------------------------------
// Secrets
// ---------------------------------------------------------------------------

/// Why a secret was refused.
#[derive(Clone, Copy, Debug, PartialEq, Eq, Structural)]
pub enum SecretError {
    /// The file is not a regular file that only its owner can access.
    NotPrivate,
    /// The file is blank.
    Empty,
}

/// True for a file that may hold a secret: a regular file that only its owner can access.
pub open spec fn is_secret_file(is_file: bool, mode: u32) -> bool {
    is_file && !is_exposed(mode)
}

/// True for a file that may hold a secret. It is asked before the file is read.
pub fn may_hold_secret(is_file: bool, mode: u32) -> (r: bool)
    ensures
        r == is_secret_file(is_file, mode),
{
    is_file && mode & 0o077 == 0
}

/// The secret in a file: its trimmed content.
pub fn secret_of(is_file: bool, mode: u32, content: &str) -> (r: Result<String, SecretError>)
    ensures
        match r {
            Ok(secret) => is_secret_file(is_file, mode) && secret@ == trim(content@)
                && secret@.len() > 0,
            Err(SecretError::NotPrivate) => !is_secret_file(is_file, mode),
            Err(SecretError::Empty) => is_secret_file(is_file, mode) && trim(content@).len() == 0,
        },
{
    if !may_hold_secret(is_file, mode) {
        return Err(SecretError::NotPrivate);
    }
    let secret = trim_text(content);
    if secret.as_str().is_empty() {
        return Err(SecretError::Empty);
    }
    Ok(secret)
}

// ---------------------------------------------------------------------------
// Left-over media
// ---------------------------------------------------------------------------

/// What an entry of a directory is.
#[derive(Clone, Copy, Debug, PartialEq, Eq, Structural)]
pub enum EntryKind {
    Directory,
    File,
    Symlink,
    Other,
}

/// What is to be done with an entry of the media directory.
#[derive(Clone, Copy, Debug, PartialEq, Eq, Structural)]
pub enum Sweep {
    Keep,
    RemoveTree,
    RemoveFile,
}

/// The beginning of the names of private media directories.
pub fn media_prefix() -> (r: &'static str)
    ensures
        r@ == "matrix-media-"@,
{
    "matrix-media-"
}

/// What is to be done with an entry: only what has the name of a media directory is removed, a
/// link without what it points to.
pub open spec fn sweep(name: Seq<char>, kind: EntryKind) -> Sweep {
    if !starts_with(name, "matrix-media-"@) {
        Sweep::Keep
    } else {
        match kind {
            EntryKind::Directory => Sweep::RemoveTree,
            EntryKind::File | EntryKind::Symlink => Sweep::RemoveFile,
            EntryKind::Other => Sweep::Keep,
        }
    }
}

/// What is to be done with an entry of the media directory.
pub fn sweep_entry(name: &str, kind: EntryKind) -> (r: Sweep)
    ensures
        r == sweep(name@, kind),
{
    if !text_has_prefix(name, media_prefix()) {
        return Sweep::Keep;
    }
    match kind {
        EntryKind::Directory => Sweep::RemoveTree,
        EntryKind::File | EntryKind::Symlink => Sweep::RemoveFile,
        EntryKind::Other => Sweep::Keep,
    }
}

// ---------------------------------------------------------------------------
// What holds of every verdict
// ---------------------------------------------------------------------------

/// A mode is exposed when it lets group or others read, write or execute.
pub proof fn law_exposed_modes_let_others_in(mode: u32)
    ensures
        is_exposed(mode) <==> mode & 32 != 0 || mode & 16 != 0 || mode & 8 != 0 || mode & 4 != 0
            || mode & 2 != 0 || mode & 1 != 0,
{
    assert(mode & 0o077 != 0 <==> mode & 32 != 0 || mode & 16 != 0 || mode & 8 != 0 || mode & 4
        != 0 || mode & 2 != 0 || mode & 1 != 0) by (bit_vector);
}

/// A directory is refused when it is none, or when it was there and is exposed; its mode is set
/// when it is new, and only then.
pub proof fn law_directories_are_judged_by_mode(existed: bool, is_directory: bool, mode: u32)
    ensures
        directory_verdict(existed, is_directory, mode) == Err::<bool, DirectoryError>(
            DirectoryError::NotDirectory,
        ) <==> !is_directory,
        directory_verdict(existed, is_directory, mode) == Err::<bool, DirectoryError>(
            DirectoryError::Exposed,
        ) <==> is_directory && existed && is_exposed(mode),
        directory_verdict(existed, is_directory, mode) == Ok::<bool, DirectoryError>(true)
            <==> is_directory && !existed,
        directory_verdict(existed, is_directory, mode) == Ok::<bool, DirectoryError>(false)
            <==> is_directory && existed && !is_exposed(mode),
{
}

/// A secret is read just from a regular file that is not exposed.
pub proof fn law_secrets_stand_in_private_files(mode: u32)
    ensures
        is_secret_file(true, mode) <==> !is_exposed(mode),
        !is_secret_file(false, mode),
{
}

/// Just directories, files and links with the name of a media directory are swept away, directories
/// with what they hold.
pub proof fn law_only_media_is_swept_away(name: Seq<char>, rest: Seq<char>, kind: EntryKind)
    ensures
        sweep(name, kind) != Sweep::Keep ==> exists|tail: Seq<char>| name == #[trigger] (
        "matrix-media-"@ + tail),
        sweep("matrix-media-"@ + rest, EntryKind::Directory) == Sweep::RemoveTree,
        sweep("matrix-media-"@ + rest, EntryKind::File) == Sweep::RemoveFile,
        sweep("matrix-media-"@ + rest, EntryKind::Symlink) == Sweep::RemoveFile,
        sweep("matrix-media-"@ + rest, EntryKind::Other) == Sweep::Keep,
        sweep(name, kind) == Sweep::RemoveTree ==> kind == EntryKind::Directory,
{
    law_beginnings_can_be_continued(name, "matrix-media-"@);
    law_beginnings_can_be_continued("matrix-media-"@ + rest, "matrix-media-"@);
}

} // verus!
