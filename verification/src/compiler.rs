//! What a build is started with.

use vstd::prelude::*;

verus! {

/// Where a build reads the scene from and where it writes the artifacts to.
#[derive(Clone, Debug)]
pub struct CompilerOptions {
    pub output_folder: String,
    pub input_folder: String,
}

/// The context that every resource of one build is compiled in.
#[derive(Debug)]
pub struct AsyncCompiler {
    pub options: CompilerOptions,
}

impl AsyncCompiler {
    pub fn new(options: CompilerOptions) -> (compiler: AsyncCompiler)
        ensures
            compiler.options == options,
    {
        AsyncCompiler { options }
    }
}

} // verus!
