use vstd::prelude::*;

use crate::text::append_chars;
use crate::text::chars_of;

verus! {

/// Everything that can go wrong. Paths are held as strings; an underlying I/O failure
/// is held as its message.
#[derive(Debug, Clone, PartialEq, Eq)]
pub enum AstralError {
    PathNotFound { path: String },
    NotDirectory { path: String },
    RepositoryRootNotFound { path: String },
    RepositoryNotRegistered { name: String },
    InvalidRepositoryName { name: String },
    RepositoryNameConflict { name: String },
    RepositoryRootConflict { path: String },
    PathAccess { path: String, source: String },
    Canonicalize { path: String, source: String },
    InvalidConfiguration { message: String },
    Logging { message: String },
    Database { message: String },
    Indexing { message: String },
}

/// The text shown for an error.
pub open spec fn spec_error_message(e: AstralError) -> Seq<char> {
    match e {
        AstralError::PathNotFound { path } => "path does not exist: "@ + path@,
        AstralError::NotDirectory { path } => "path is not a directory: "@ + path@,
        AstralError::RepositoryRootNotFound { path } => "repository root not found from path: "@ + path@,
        AstralError::RepositoryNotRegistered { name } => "repository not registered: "@ + name@,
        AstralError::InvalidRepositoryName { name } => "invalid repository name: "@ + name@,
        AstralError::RepositoryNameConflict { name } => "repository name is already registered to another root: "@ + name@,
        AstralError::RepositoryRootConflict { path } => "repository root is already registered under another name: "@ + path@,
        AstralError::PathAccess { path, source } => "failed to access path '"@ + path@ + "': "@ + source@,
        AstralError::Canonicalize { path, source } => "failed to canonicalize path '"@ + path@ + "': "@ + source@,
        AstralError::InvalidConfiguration { message } => "invalid configuration: "@ + message@,
        AstralError::Logging { message } => "failed to initialize logging: "@ + message@,
        AstralError::Database { message } => "database operation failed: "@ + message@,
        AstralError::Indexing { message } => "indexing failed: "@ + message@,
    }
}


/// The error's kind, as the operation log records it.
pub open spec fn spec_error_kind(e: AstralError) -> Seq<char> {
    match e {
        AstralError::PathNotFound { .. } => "path_not_found"@,
        AstralError::NotDirectory { .. } => "not_directory"@,
        AstralError::RepositoryRootNotFound { .. } => "repository_root_not_found"@,
        AstralError::RepositoryNotRegistered { .. } => "repository_not_registered"@,
        AstralError::InvalidRepositoryName { .. } => "invalid_repository_name"@,
        AstralError::RepositoryNameConflict { .. } => "repository_name_conflict"@,
        AstralError::RepositoryRootConflict { .. } => "repository_root_conflict"@,
        AstralError::PathAccess { .. } => "path_access"@,
        AstralError::Canonicalize { .. } => "canonicalize"@,
        AstralError::InvalidConfiguration { .. } => "invalid_configuration"@,
        AstralError::Logging { .. } => "logging"@,
        AstralError::Database { .. } => "database"@,
        AstralError::Indexing { .. } => "indexing"@,
    }
}

fn prefixed(prefix: &str, value: &String) -> (r: String)
    ensures
        r@ == prefix@ + value@,
{
    let mut r = prefix.to_owned();
    let v = chars_of(value.as_str());
    append_chars(&mut r, v.as_slice());
    r
}

fn quoted(prefix: &str, path: &String, middle: &str, source: &String) -> (r: String)
    ensures
        r@ == prefix@ + path@ + middle@ + source@,
{
    let mut r = prefix.to_owned();
    let p = chars_of(path.as_str());
    append_chars(&mut r, p.as_slice());
    let m = chars_of(middle);
    append_chars(&mut r, m.as_slice());
    let s = chars_of(source.as_str());
    append_chars(&mut r, s.as_slice());
    r
}

impl AstralError {
    /// The text shown for this error.
    pub fn message(&self) -> (r: String)
        ensures
            r@ == spec_error_message(*self),
    {
        match self {
            AstralError::PathNotFound { path } => prefixed("path does not exist: ", path),
            AstralError::NotDirectory { path } => prefixed("path is not a directory: ", path),
            AstralError::RepositoryRootNotFound { path } => prefixed("repository root not found from path: ", path),
            AstralError::RepositoryNotRegistered { name } => prefixed("repository not registered: ", name),
            AstralError::InvalidRepositoryName { name } => prefixed("invalid repository name: ", name),
            AstralError::RepositoryNameConflict { name } => prefixed(
                "repository name is already registered to another root: ",
                name,
            ),
            AstralError::RepositoryRootConflict { path } => prefixed(
                "repository root is already registered under another name: ",
                path,
            ),
            AstralError::PathAccess { path, source } => quoted("failed to access path '", path, "': ", source),
            AstralError::Canonicalize { path, source } => quoted("failed to canonicalize path '", path, "': ", source),
            AstralError::InvalidConfiguration { message } => prefixed("invalid configuration: ", message),
            AstralError::Logging { message } => prefixed("failed to initialize logging: ", message),
            AstralError::Database { message } => prefixed("database operation failed: ", message),
            AstralError::Indexing { message } => prefixed("indexing failed: ", message),
        }
    }

    /// The error's kind, as the operation log records it.
    pub fn kind(&self) -> (r: &'static str)
        ensures
            r@ == spec_error_kind(*self),
    {
        match self {
            AstralError::PathNotFound { .. } => "path_not_found",
            AstralError::NotDirectory { .. } => "not_directory",
            AstralError::RepositoryRootNotFound { .. } => "repository_root_not_found",
            AstralError::RepositoryNotRegistered { .. } => "repository_not_registered",
            AstralError::InvalidRepositoryName { .. } => "invalid_repository_name",
            AstralError::RepositoryNameConflict { .. } => "repository_name_conflict",
            AstralError::RepositoryRootConflict { .. } => "repository_root_conflict",
            AstralError::PathAccess { .. } => "path_access",
            AstralError::Canonicalize { .. } => "canonicalize",
            AstralError::InvalidConfiguration { .. } => "invalid_configuration",
            AstralError::Logging { .. } => "logging",
            AstralError::Database { .. } => "database",
            AstralError::Indexing { .. } => "indexing",
        }
    }
}

} // verus!
