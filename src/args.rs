use vstd::prelude::*;

verus! {

/// The command given to the program, with its arguments.
#[derive(Debug)]
pub struct Cli {
    pub command: Commands,
}

/// The four operations on a PNG file.
#[derive(Debug)]
pub enum Commands {
    /// Hide a message in a new chunk.
    Encode(EncodeArgs),
    /// Read a hidden message back.
    Decode(DecodeArgs),
    /// Remove a chunk.
    Remove(RemoveArgs),
    /// Show the file's chunks.
    Print(PrintArgs),
}

/// Where to hide which message, under which chunk type.
#[derive(Debug)]
pub struct EncodeArgs {
    pub file_path: String,
    pub chunk_type: String,
    pub message: String,
    pub output_file: Option<String>,
}

/// Which file to read a message from, and the chunk type that holds it.
#[derive(Debug)]
pub struct DecodeArgs {
    pub file_path: String,
    pub chunk_type: String,
}

/// Which file to remove a chunk from, and the chunk's type.
#[derive(Debug)]
pub struct RemoveArgs {
    pub file_path: String,
    pub chunk_type: String,
}

/// Which file to show.
#[derive(Debug)]
pub struct PrintArgs {
    pub file_path: String,
}

impl EncodeArgs {
    /// The file that receives the new stream: the output file when one is
    /// given, else the input file itself.
    pub fn output_path(&self) -> (r: &String)
        ensures
            r@ == match self.output_file {
                Some(o) => o@,
                None => self.file_path@,
            },
    {
        match &self.output_file {
            Some(o) => o,
            None => &self.file_path,
        }
    }
}

} // verus!
