//! The outcome of parsing.
//!
//! The Noir front end turns source text into a tree and a list of the
//! errors it met; it hands back a tree even for a text with errors. What an
//! analysis makes of that is decided here: a tree that came with errors is
//! not analyzed, and the errors are passed on as they were reported. The
//! caller runs the front end, and reads the file where there is one, and
//! brings what came out of it.

use crate::ast::analyzer::{AnalyzerError, ParserError};
use crate::ast::tree::ParsedModule;
use vstd::prelude::*;
use vstd::string::StringExecFns;

verus! {

/// Decides what parsed source is fit for analysis.
pub struct Parser {}

impl Parser {
    /// The outcome of parsing source text that is held in memory:
    /// `ast_root` and `errors` are what the front end produced for it. The
    /// tree is returned if the front end reported no error; else the
    /// outcome is a `ParsingError` that holds the errors, in the order
    /// reported.
    pub fn parse_program_with_dummy_file(ast_root: ParsedModule, errors: Vec<ParserError>) -> (outcome:
        Result<ParsedModule, AnalyzerError>)
        ensures
            errors@.len() == 0 ==> outcome == Ok::<ParsedModule, AnalyzerError>(ast_root),
            errors@.len() > 0 ==> outcome == Err::<ParsedModule, AnalyzerError>(
                AnalyzerError::ParsingError(errors),
            ),
    {
        if errors.len() > 0 {
            return Err(AnalyzerError::ParsingError(errors));
        }
        Ok(ast_root)
    }

    /// The outcome of parsing the file at `file_path`: `parsed` holds what
    /// the front end produced for the text of the file, or, where the file
    /// could not be read, the message of the failure. A failure to read
    /// gives a `FileReadError` with the path and the message; a text that
    /// was read is judged as source text held in memory is.
    pub fn parse_file(
        file_path: &str,
        parsed: Result<(ParsedModule, Vec<ParserError>), String>,
    ) -> (outcome: Result<ParsedModule, AnalyzerError>)
        ensures
            match parsed {
                Ok((ast_root, errors)) => {
                    &&& errors@.len() == 0 ==> outcome == Ok::<ParsedModule, AnalyzerError>(ast_root)
                    &&& errors@.len() > 0 ==> outcome == Err::<ParsedModule, AnalyzerError>(
                        AnalyzerError::ParsingError(errors),
                    )
                },
                Err(message) => outcome matches Err(AnalyzerError::FileReadError(path, reason))
                    && path@ == file_path@ && reason == message,
            },
    {
        match parsed {
            Ok((ast_root, errors)) => Parser::parse_program_with_dummy_file(ast_root, errors),
            Err(message) => Err(AnalyzerError::FileReadError(String::from_str(file_path), message)),
        }
    }
}

} // verus!
