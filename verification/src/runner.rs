use vstd::prelude::*;
use vstd::string::*;
use crate::config::Config;
use crate::error::GrepError;
use crate::search::search_with;
use crate::text::{keeps_order, line_matches, lines, matching_lines};

verus! {

/// Carries out the search that `config` describes, given the outcome of
/// reading its file: the text of the file, or the cause for which it could
/// not be read. Returns the lines to report, in the order of the file. A
/// search without a match succeeds with no lines.
pub fn run(config: Config, contents: Result<String, String>) -> (outcome: Result<
    Vec<String>,
    GrepError,
>)
    ensures
        match contents {
            Ok(text) => outcome matches Ok(found) && {
                &&& found.deep_view() == matching_lines(
                    config@.query,
                    text@,
                    config@.case_insensitive,
                )
                &&& forall|i: int|
                    0 <= i < found.len() ==> line_matches(
                        #[trigger] found[i]@,
                        config@.query,
                        config@.case_insensitive,
                    )
                &&& keeps_order(found.deep_view(), lines(text@))
                &&& found.len() <= lines(text@).len()
            },
            Err(cause) => outcome == Err::<Vec<String>, GrepError>(
                GrepError::FileReadError { cause },
            ),
        },
{
    match contents {
        Ok(text) => Ok(search_with(config.query, text.as_str(), config.case_insensitive())),
        Err(cause) => Err(GrepError::FileReadError { cause }),
    }
}

} // verus!
