//! Where the task file lives: a local path or a document on a WebDAV
//! server. The settings are a plain value that the caller owns and hands to
//! each operation, so that an operation sees what was set when it began.

use std::path::PathBuf;
use vstd::prelude::*;

verus! {

/// `std::path::PathBuf`, carried through as it is.
#[verifier::external_type_specification]
#[verifier::external_body]
pub struct ExPathBuf(PathBuf);

/// `PathBuf::clone`: the copy is the same path.
pub assume_specification[ <PathBuf as Clone>::clone ](path: &PathBuf) -> (r: PathBuf)
    ensures
        r == *path,
;

/// The place that holds the task file.
#[derive(Debug)]
pub enum BackendConfig {
    /// A file on this machine.
    Local(PathBuf),
    /// A document on a WebDAV server, read and written over HTTP, with the
    /// credentials for basic authentication where both are given.
    WebDav { url: String, username: Option<String>, password: Option<String> },
}

/// A copy of `value`.
pub fn copy_of_optional(value: &Option<String>) -> (r: Option<String>)
    ensures
        r == *value,
{
    match value {
        Some(s) => Some(s.clone()),
        None => None,
    }
}

impl Clone for BackendConfig {
    fn clone(&self) -> (r: Self)
        ensures
            r == *self,
    {
        match self {
            BackendConfig::Local(path) => BackendConfig::Local(path.clone()),
            BackendConfig::WebDav { url, username, password } => BackendConfig::WebDav {
                url: url.clone(),
                username: copy_of_optional(username),
                password: copy_of_optional(password),
            },
        }
    }
}

/// The path of the local task file and the backend in use. The two are set
/// apart: a change of the backend leaves the path as it was.
#[derive(Debug)]
pub struct Settings {
    pub todo_path: PathBuf,
    pub backend: BackendConfig,
}

impl Settings {
    /// Settings for the local file at `path`.
    pub fn new(path: PathBuf) -> (r: Settings)
        ensures
            r.todo_path == path,
            r.backend == BackendConfig::Local(path),
    {
        let backend = BackendConfig::Local(path.clone());
        Settings { todo_path: path, backend }
    }
}

/// Makes `config` the backend of all operations that begin after this call.
pub fn set_backend_config(settings: &mut Settings, config: BackendConfig)
    ensures
        final(settings).backend == config,
        final(settings).todo_path == old(settings).todo_path,
{
    settings.backend = config;
}

/// The backend in use.
pub fn get_backend_config(settings: &Settings) -> (r: BackendConfig)
    ensures
        r == settings.backend,
{
    settings.backend.clone()
}

/// The path of the local task file.
pub fn todo_path(settings: &Settings) -> (r: PathBuf)
    ensures
        r == settings.todo_path,
{
    settings.todo_path.clone()
}

/// Makes `new_path` the path of the local task file, and the local file
/// there the backend.
pub fn set_todo_path(settings: &mut Settings, new_path: PathBuf)
    ensures
        final(settings).todo_path == new_path,
        final(settings).backend == BackendConfig::Local(new_path),
{
    settings.todo_path = new_path.clone();
    set_backend_config(settings, BackendConfig::Local(new_path));
}

} // verus!
