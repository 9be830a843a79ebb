//! Which files and directories are safe to use.

use vstd::prelude::*;

use crate::ids::{id_text, uuid_text};
use crate::text::{append, decimal_text, format_u64};

verus! {

/// Why a file or directory is refused.
#[derive(Clone, Copy, Debug, PartialEq, Eq, Structural)]
pub enum FileError {
    /// It is not a regular file within bounds.
    NotBoundedFile,
    /// Others may access it.
    NotPrivate,
    /// The root of a store must be a real directory.
    RootNotDirectory,
    /// A database must be a singly linked regular file.
    DatabaseNotRegular,
    /// A configuration that was named does not exist.
    ConfigMissing,
}

/// What the system says of a path, without following a link.
#[derive(Clone, Copy, Debug, PartialEq, Eq, Structural)]
pub struct FileFacts {
    /// Whether it is a link.
    pub is_symlink: bool,
    /// Whether it is a regular file.
    pub is_file: bool,
    /// Whether it is a directory.
    pub is_dir: bool,
    /// Its size in bytes.
    pub length: u64,
    /// Its permission bits.
    pub mode: u32,
    /// How many names it has.
    pub links: u64,
}

/// Whether permission bits let others in: the lowest six belong to group and others.
pub open spec fn lets_others_in(mode: u32) -> bool {
    mode % 64 != 0
}

fn opens_to_others(mode: u32) -> (opens: bool)
    ensures
        opens == lets_others_in(mode),
{
    assert((mode & 0x3f != 0) == (mode % 64 != 0)) by (bit_vector);
    mode & 0x3f != 0
}

/// Checks a file before it is read.
pub fn check_bounded_file(facts: &FileFacts, max_len: u64, require_private: bool) -> (result:
    Result<(), FileError>)
    ensures
        result == if !facts.is_file || facts.length > max_len {
            Err::<(), FileError>(FileError::NotBoundedFile)
        } else if require_private && lets_others_in(facts.mode) {
            Err::<(), FileError>(FileError::NotPrivate)
        } else {
            Ok::<(), FileError>(())
        },
{
    if !facts.is_file || facts.length > max_len {
        return Err(FileError::NotBoundedFile);
    }
    if require_private && opens_to_others(facts.mode) {
        return Err(FileError::NotPrivate);
    }
    Ok(())
}

/// Checks the database file of a store. One that is not there yet is in order.
pub fn validate_existing_database(facts: &Option<FileFacts>) -> (result: Result<(), FileError>)
    ensures
        result == match *facts {
            None => Ok::<(), FileError>(()),
            Some(facts) => if facts.is_symlink || !facts.is_file || facts.links != 1 {
                Err::<(), FileError>(FileError::DatabaseNotRegular)
            } else if lets_others_in(facts.mode) {
                Err::<(), FileError>(FileError::NotPrivate)
            } else {
                Ok::<(), FileError>(())
            },
        },
{
    match facts {
        None => Ok(()),
        Some(facts) => {
            if facts.is_symlink || !facts.is_file || facts.links != 1 {
                return Err(FileError::DatabaseNotRegular);
            }
            if opens_to_others(facts.mode) {
                return Err(FileError::NotPrivate);
            }
            Ok(())
        },
    }
}

/// What becomes of the root of a store before it is opened.
#[derive(Clone, Copy, Debug, PartialEq, Eq, Structural)]
pub enum RootPlan {
    /// It is opened as it is, or made.
    Open,
    /// It holds a store of the first version and is put aside, untouched.
    Quarantine,
}

/// Decides what becomes of the root of a store. A store of the first version has a
/// directory of streams and no database.
pub fn prepare_native_root(
    facts: &Option<FileFacts>,
    has_streams: bool,
    has_database: bool,
    is_empty: bool,
) -> (result: Result<RootPlan, FileError>)
    ensures
        result == match *facts {
            None => Ok::<RootPlan, FileError>(RootPlan::Open),
            Some(facts) => if facts.is_symlink || !facts.is_dir {
                Err::<RootPlan, FileError>(FileError::RootNotDirectory)
            } else if has_streams && !has_database && !is_empty {
                Ok::<RootPlan, FileError>(RootPlan::Quarantine)
            } else {
                Ok::<RootPlan, FileError>(RootPlan::Open)
            },
        },
{
    match facts {
        None => Ok(RootPlan::Open),
        Some(facts) => {
            if facts.is_symlink || !facts.is_dir {
                return Err(FileError::RootNotDirectory);
            }
            if has_streams && !has_database && !is_empty {
                Ok(RootPlan::Quarantine)
            } else {
                Ok(RootPlan::Open)
            }
        },
    }
}

/// The name under which an old store is put aside.
pub fn quarantine_name(file_name: &str, now_ms: u64, id: u128) -> (name: String)
    ensures
        name@ == file_name@ + ".v1-quarantine-"@ + decimal_text(now_ms as nat) + "-"@ + id_text(id),
{
    let shown = uuid_text(id);
    let mut name = String::new();
    append(&mut name, file_name);
    append(&mut name, ".v1-quarantine-");
    append(&mut name, format_u64(now_ms).as_str());
    append(&mut name, "-");
    append(&mut name, shown.as_str());
    assert(name@ =~= file_name@ + ".v1-quarantine-"@ + decimal_text(now_ms as nat) + "-"@
        + shown@);
    name
}

/// Where a configuration comes from.
#[derive(Clone, Copy, Debug, PartialEq, Eq, Structural)]
pub enum ConfigPlan {
    /// From the built-in defaults.
    Defaults,
    /// From the file.
    Read,
}

/// Decides where a configuration comes from. One that was named must exist.
pub fn plan_config(has_path: bool, must_exist: bool, present: bool) -> (result: Result<
    ConfigPlan,
    FileError,
>)
    ensures
        result == if !has_path {
            Ok::<ConfigPlan, FileError>(ConfigPlan::Defaults)
        } else if present {
            Ok::<ConfigPlan, FileError>(ConfigPlan::Read)
        } else if must_exist {
            Err::<ConfigPlan, FileError>(FileError::ConfigMissing)
        } else {
            Ok::<ConfigPlan, FileError>(ConfigPlan::Defaults)
        },
{
    if !has_path {
        return Ok(ConfigPlan::Defaults);
    }
    if present {
        return Ok(ConfigPlan::Read);
    }
    if must_exist {
        return Err(FileError::ConfigMissing);
    }
    Ok(ConfigPlan::Defaults)
}

} // verus!
