use vstd::prelude::*;

verus! {

/// The options of one compiler run: the source file, whether to comment the assembly, whether
/// to print the syntax tree and the tokens, and the output file.
pub struct Args {
    pub input_file: String,
    pub comment: bool,
    pub ast: bool,
    pub tokens: bool,
    pub output: String,
}

} // verus!
