//! Decisions that are taken before a run: where the compiled program lies
//! and where the arguments of its entry point come from.

use vstd::prelude::*;

verus! {

/// Where the arguments of the entry point come from.
#[derive(Clone, Copy, Debug, PartialEq, Eq, Structural)]
pub enum ArgsSource {
    /// The JSON arguments go to the preprocessing service, and its answer is
    /// read against the input schema.
    Preprocessed,
    /// Preprocessing was asked for, but there are no JSON arguments to send.
    MissingJson,
    /// The JSON arguments are read against the input schema.
    Json,
    /// The arguments were given in plain form and are taken as they are.
    Given,
    /// No arguments were given: the entry point is called with none.
    Empty,
}

/// The source of the arguments for the given options.
pub open spec fn args_source_of(preprocess: bool, has_args_json: bool, has_args: bool) -> ArgsSource {
    if preprocess {
        if has_args_json {
            ArgsSource::Preprocessed
        } else {
            ArgsSource::MissingJson
        }
    } else if has_args_json {
        ArgsSource::Json
    } else if has_args {
        ArgsSource::Given
    } else {
        ArgsSource::Empty
    }
}

/// Chooses the source of the arguments: preprocessing comes first and needs
/// JSON arguments, JSON arguments come before plain ones.
pub fn args_source(preprocess: bool, has_args_json: bool, has_args: bool) -> (source: ArgsSource)
    ensures
        source == args_source_of(preprocess, has_args_json, has_args),
{
    if preprocess {
        if has_args_json {
            ArgsSource::Preprocessed
        } else {
            ArgsSource::MissingJson
        }
    } else if has_args_json {
        ArgsSource::Json
    } else if has_args {
        ArgsSource::Given
    } else {
        ArgsSource::Empty
    }
}

/// The name of the file that holds the compiled program of a package.
pub fn sierra_file_name(package: &str) -> (name: String)
    ensures
        name@ == package@ + ".sierra.json"@,
{
    let mut name = String::from_str(package);
    name.append(".sierra.json");
    name
}

} // verus!
