//! The query service: from the outcome of the database read to the response.

use vstd::prelude::*;
use crate::agent::AgentSession;
use crate::select::{recent_selection, select_recent};
use crate::json::{rendered_array, render_array};

verus! {

/// What the surrounding application saw when it went to read the database:
/// no file at the expected path, rows read out of the `agent` table, or a
/// database-engine failure with its message.
pub enum QueryOutcome {
    MissingDb,
    Rows(Vec<AgentSession>),
    Failure(String),
}

/// The response owed for each outcome: the literal `[]` when the database
/// file is absent, the rendered selection when rows were read, and the
/// engine's message, unchanged, when the read failed.
pub open spec fn expected_response(outcome: QueryOutcome, cutoff: Seq<char>) -> Result<
    Seq<char>,
    Seq<char>,
> {
    match outcome {
        QueryOutcome::MissingDb => Ok("[]"@),
        QueryOutcome::Rows(rows) => Ok(rendered_array(recent_selection(rows@, cutoff))),
        QueryOutcome::Failure(e) => Err(e@),
    }
}

/// Builds the JSON response for the recent agent sessions.
///
/// `outcome` is what reading the database yielded; `cutoff` is the query time
/// minus the trailing window, in the database-native `datetime` text form.
pub fn get_recent_agents(outcome: QueryOutcome, cutoff: &str) -> (r: Result<String, String>)
    ensures
        r is Ok <==> expected_response(outcome, cutoff@) is Ok,
        r is Ok ==> r->Ok_0@ == expected_response(outcome, cutoff@)->Ok_0,
        r is Err ==> r->Err_0@ == expected_response(outcome, cutoff@)->Err_0,
{
    match outcome {
        QueryOutcome::MissingDb => Ok(String::from_str("[]")),
        QueryOutcome::Rows(rows) => {
            let selected = select_recent(rows, cutoff);
            Ok(render_array(&selected))
        },
        QueryOutcome::Failure(e) => Err(e),
    }
}

} // verus!
