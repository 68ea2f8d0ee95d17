//! What the gateway is started with.

use crate::path::{join_path, join_path_spec, RootContext};
use crate::lexical::is_normal;
use vstd::prelude::*;
use vstd::string::StringExecFns;

verus! {

/// The port that the gateway listens on where none is given.
pub const DEFAULT_PORT: u16 = 3000;

/// Where the gateway listens, and which directory it serves.
#[derive(Clone, Debug, PartialEq, Eq)]
pub struct AppConfig {
    pub host: String,
    pub port: u16,
    pub root_dirpath: String,
}

impl AppConfig {
    /// The directory to serve: the one asked for, taken from the current
    /// directory unless it is absolute, and the current directory where
    /// none is asked for.
    pub open spec fn root_spec(root: Option<String>, current_dir: Seq<char>) -> Seq<char> {
        match root {
            Some(root) => join_path_spec(current_dir, root@),
            None => current_dir,
        }
    }

    /// The configuration for the port and root directory that were asked
    /// for, in a process whose current directory is `current_dir`. The
    /// gateway listens on every address.
    pub fn new(port: Option<u16>, root: Option<String>, current_dir: String) -> (config: AppConfig)
        ensures
            config.host@ == "0.0.0.0"@,
            config.port == match port {
                Some(port) => port,
                None => DEFAULT_PORT,
            },
            config.root_dirpath@ == AppConfig::root_spec(root, current_dir@),
    {
        AppConfig {
            host: String::from_str("0.0.0.0"),
            port: match port {
                Some(port) => port,
                None => DEFAULT_PORT,
            },
            root_dirpath: match root {
                Some(root) => join_path(current_dir.as_str(), root.as_str()),
                None => current_dir,
            },
        }
    }

    /// The context for the configured root directory, if that is absolute
    /// and in normal form.
    pub fn root_context(&self) -> (context: Option<RootContext>)
        ensures
            context is Some == is_normal(self.root_dirpath@),
            context is Some ==> context->0.root_spec() == self.root_dirpath@,
    {
        RootContext::new(self.root_dirpath.as_str())
    }
}

} // verus!
