use vstd::prelude::*;

verus! {

/// Why a configuration cannot be run.
#[derive(Debug, Clone, Copy, PartialEq, Eq, Structural)]
pub enum ConfigurationError {
    /// The input path has no extension.
    MissingExtension,
    /// The input path's extension is neither `fasta` nor `fa`.
    UnsupportedExtension,
    /// An inversion map output was asked for without a primary output.
    MapWithoutOutput,
}

/// The extensions accepted for input files: `fasta` and `fa`.
pub open spec fn is_supported_extension(extension: Seq<u8>) -> bool {
    extension == seq![102u8, 97u8, 115u8, 116u8, 97u8] || extension == seq![102u8, 97u8]
}

/// Whether `extension` (the bytes after the last dot) names a FASTA file.
pub fn is_supported_input_extension(extension: &[u8]) -> (supported: bool)
    ensures
        supported == is_supported_extension(extension@),
{
    let e = extension;
    if e.len() == 5 && e[0] == 102 && e[1] == 97 && e[2] == 115 && e[3] == 116 && e[4] == 97 {
        assert(e@ =~= seq![102u8, 97u8, 115u8, 116u8, 97u8]);
        true
    } else if e.len() == 2 && e[0] == 102 && e[1] == 97 {
        assert(e@ =~= seq![102u8, 97u8]);
        true
    } else {
        false
    }
}

/// Check a configuration before any work starts: the input must carry a
/// supported extension, and an inversion map output needs a primary output.
/// The extension is checked first.
pub fn check_configuration(input_extension: Option<&[u8]>, has_output: bool, has_map_output: bool)
    -> (result: Result<(), ConfigurationError>)
    ensures
        input_extension is None ==> result == Err::<(), _>(ConfigurationError::MissingExtension),
        input_extension matches Some(e) ==> {
            if !is_supported_extension(e@) {
                result == Err::<(), _>(ConfigurationError::UnsupportedExtension)
            } else if has_map_output && !has_output {
                result == Err::<(), _>(ConfigurationError::MapWithoutOutput)
            } else {
                result is Ok
            }
        },
{
    match input_extension {
        None => Err(ConfigurationError::MissingExtension),
        Some(e) => {
            if !is_supported_input_extension(e) {
                Err(ConfigurationError::UnsupportedExtension)
            } else if has_map_output && !has_output {
                Err(ConfigurationError::MapWithoutOutput)
            } else {
                Ok(())
            }
        },
    }
}

} // verus!
