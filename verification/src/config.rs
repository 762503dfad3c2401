//! What a command runs against: the resolved checklist file path and
//! the positional arguments that follow the command word. Resolving
//! the path and touching the file happen outside the library; the
//! configuration only carries the results.

use vstd::prelude::*;

verus! {

/// The spec-level value of a configuration.
pub struct ConfigView {
    pub file_path: Seq<char>,
    pub args: Seq<Seq<char>>,
}

/// One invocation's resolved inputs.
pub struct Config {
    file_path: String,
    args: Vec<String>,
}

impl View for Config {
    type V = ConfigView;

    closed spec fn view(&self) -> ConfigView {
        ConfigView { file_path: self.file_path@, args: self.args.deep_view() }
    }
}

impl Config {
    /// Packs an already-resolved file path with a command's argument
    /// list.
    pub fn build(file_path: String, args: Vec<String>) -> (res: Config)
        ensures
            res@.file_path == file_path@,
            res@.args == args.deep_view(),
    {
        Config { file_path, args }
    }

    pub fn file_path(&self) -> (res: &String)
        ensures
            res@ == self@.file_path,
    {
        &self.file_path
    }

    pub fn args(&self) -> (res: &Vec<String>)
        ensures
            res.deep_view() == self@.args,
    {
        &self.args
    }
}

} // verus!
