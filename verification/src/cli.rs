use vstd::prelude::*;

verus! {

/// The command-line surface of the tool. The shell-facing parser lives
/// outside the library and converts into these plain values.
pub struct CliArguments {
    pub command: Command,
}

pub enum Command {
    Init,
    CatFile { pretty_print: bool, object_hash: String },
    HashObject { write: bool, file_path: String },
    LsTree { name_only: bool, tree_hash: String },
    WriteTree,
    CommitTree { message: String, parent_hash: Option<String>, tree_hash: String },
}

} // verus!
