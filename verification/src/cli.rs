//! The command surface of the surrounding shell, as plain data. The
//! shell parses arguments into these values and hands them in; all file
//! reading, writing and printing stays outside the library.
use vstd::prelude::*;

verus! {

/// One invocation: a command and the path of the PNG file it targets.
#[derive(Debug)]
pub struct Cli {
    /// What to do.
    pub command: Command,
    /// Path to the target PNG file.
    pub png: String,
}

/// The operations the shell can ask of a PNG file.
#[derive(Debug)]
pub enum Command {
    /// Add a message chunk of the given type, writing in place or to
    /// the given output path.
    Encode { chunk_type: String, message: String, output: Option<String> },
    /// Look up a chunk by type and print its content as text.
    Decode { chunk_type: String },
    /// Remove the first chunk of the given type and rewrite the file.
    Remove { chunk_type: String },
    /// Print the raw bytes of the file.
    Print,
}

} // verus!
