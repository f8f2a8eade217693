//! What follows a selection: the focus command, and what is reported.

use crate::decimal::{format_i64, push_i64};
use crate::error::TabError;
use vstd::prelude::*;
use vstd::string::*;

verus! {

/// What the window manager says of one part of a command.
pub struct CommandOutcome {
    /// Whether the part was carried out.
    pub success: bool,
    /// Why it was not, where the window manager says so.
    pub error: Option<String>,
}

/// What is to be done once the filter tool has been asked.
pub enum Action {
    /// Send this command to the window manager.
    Focus(String),
    /// Tell the user this, and end normally.
    Report(String),
    /// End abnormally, with this as the reason.
    Abort(String),
}

/// The command that gives the focus to the element `id`, and to no other.
pub open spec fn focus_text(id: i64) -> Seq<char> {
    "[con_id="@ + format_i64(id) + "] focus"@
}

/// The line that reports one failure of the window manager.
pub open spec fn report_text(detail: Seq<char>) -> Seq<char> {
    "Error: "@ + detail
}

/// The lines that report the failed parts among `outcomes`, in their order:
/// one for each part that was not carried out and says why.
pub open spec fn failure_report_texts(outcomes: Seq<CommandOutcome>) -> Seq<Seq<char>>
    decreases outcomes.len(),
{
    if outcomes.len() == 0 {
        Seq::empty()
    } else {
        let earlier = failure_report_texts(outcomes.drop_last());
        let outcome = outcomes.last();
        if !outcome.success && outcome.error is Some {
            earlier.push(report_text(outcome.error->0@))
        } else {
            earlier
        }
    }
}

/// What a list of texts holds, each taken as its characters.
pub open spec fn texts_view(texts: Seq<String>) -> Seq<Seq<char>> {
    Seq::new(texts.len(), |i: int| texts[i]@)
}

/// Whether `action` is the one that the outcome of asking the filter tool
/// calls for: the focus command for a selection, a report for an error that
/// is left behind, and an end for a fatal one.
pub open spec fn is_action_for(action: Action, result: Result<(i64, String), TabError>) -> bool {
    match result {
        Ok(selection) => action matches Action::Focus(text) && text@ == focus_text(selection.0),
        Err(error) => if error.is_fatal() {
            action matches Action::Abort(text) && text@ == error.message_spec()
        } else {
            action matches Action::Report(text) && text@ == error.message_spec()
        },
    }
}

/// The command that gives the focus to the element `id`.
pub fn focus_command(id: i64) -> (command: String)
    ensures
        command@ == focus_text(id),
{
    let mut command = String::from_str("[con_id=");
    push_i64(&mut command, id);
    command.append("] focus");
    command
}

/// The lines that report the failed parts among `outcomes`.
pub fn failure_reports(outcomes: &Vec<CommandOutcome>) -> (reports: Vec<String>)
    ensures
        texts_view(reports@) == failure_report_texts(outcomes@),
{
    let mut reports: Vec<String> = Vec::new();
    let mut i: usize = 0;
    assert(texts_view(reports@) =~= failure_report_texts(outcomes@.take(0)));
    while i < outcomes.len()
        invariant
            i <= outcomes@.len(),
            texts_view(reports@) == failure_report_texts(outcomes@.take(i as int)),
        decreases outcomes@.len() - i,
    {
        let ghost head = outcomes@.take(i as int + 1);
        assert(head.drop_last() == outcomes@.take(i as int));
        assert(head.last() == outcomes@[i as int]);
        let outcome = &outcomes[i];
        if !outcome.success {
            if let Some(detail) = &outcome.error {
                let mut report = String::from_str("Error: ");
                report.append(detail.as_str());
                let ghost earlier = reports@;
                reports.push(report);
                assert(texts_view(reports@) =~= texts_view(earlier).push(report_text(detail@)));
            }
        }
        i += 1;
    }
    assert(outcomes@.take(i as int) == outcomes@);
    reports
}

/// Decides what is to be done with what the filter tool gave.
pub fn next_action(result: &Result<(i64, String), TabError>) -> (action: Action)
    ensures
        is_action_for(action, *result),
{
    match result {
        Ok(selection) => Action::Focus(focus_command(selection.0)),
        Err(error) => {
            if error.fatal() {
                Action::Abort(error.message())
            } else {
                Action::Report(error.message())
            }
        },
    }
}

} // verus!
