//! The module's decisions around its queue and its services: which queue elements it
//! handles, what it does with a saved individual, how the full-text search is retried, and
//! the settings it derives.
use vstd::prelude::*;
use crate::individual::{Individual, IndividualV};
use crate::text::{str_eq, str_to_string, concat3, is_empty_text, join_spec};
use crate::json::decimal_text;
use crate::extractors::nonempty_cells;

verus! {

// ---- queue elements ----
/// The command of a queue element, as far as the module tells them apart.
#[derive(PartialEq, Eq, Structural, Clone, Copy, Debug)]
pub enum Command {
    Remove,
    NoCommand,
    Other,
}

/// What the module does with a queue element.
#[derive(PartialEq, Eq, Structural, Clone, Copy, Debug)]
pub enum QueueRoute {
    /// Nothing: the element was written by this module, or removes or changes nothing.
    Skip,
    /// Reads the individual's new state from the element.
    ReadNewState,
}

/// The element was written by this module (source `BPA`).
pub open spec fn own_element(element: IndividualV) -> bool {
    element.first_literal("src"@) == Some("BPA"@)
}

pub fn queue_route(element: &Individual, command: Command) -> (r: QueueRoute)
    ensures
        r == (if own_element(element@) || command == Command::Remove || command == Command::NoCommand {
            QueueRoute::Skip
        } else {
            QueueRoute::ReadNewState
        }),
{
    let own = match element.get_first_literal("src") {
        Some(s) => str_eq(s.as_str(), "BPA"),
        None => false,
    };
    if own || command == Command::Remove || command == Command::NoCommand {
        QueueRoute::Skip
    } else {
        QueueRoute::ReadNewState
    }
}

/// What the module does with an individual's new state.
#[derive(PartialEq, Eq, Structural, Clone, Copy, Debug)]
pub enum StateAction {
    /// A business process: analyse how its documents justify it.
    AnalyzeJustification,
    /// A clustering attempt: run its next step.
    ClusteringStep,
    /// Anything else.
    Ignore,
}

pub open spec fn has_type(s: IndividualV, t: Seq<char>) -> bool {
    s.any_exists("rdf:type"@, seq![t])
}

pub fn state_action(new_state: &Individual) -> (r: StateAction)
    ensures
        r == (if has_type(new_state@, "v-bpa:BusinessProcess"@) {
            StateAction::AnalyzeJustification
        } else if has_type(new_state@, "v-bpa:ClusterizationAttempt"@) {
            StateAction::ClusteringStep
        } else {
            StateAction::Ignore
        }),
{
    let bp: [&str; 1] = ["v-bpa:BusinessProcess"];
    let ca: [&str; 1] = ["v-bpa:ClusterizationAttempt"];
    assert(bp@.map_values(|t: &str| t@) =~= seq!["v-bpa:BusinessProcess"@]);
    assert(ca@.map_values(|t: &str| t@) =~= seq!["v-bpa:ClusterizationAttempt"@]);
    if new_state.any_exists("rdf:type", &bp) {
        StateAction::AnalyzeJustification
    } else if new_state.any_exists("rdf:type", &ca) {
        StateAction::ClusteringStep
    } else {
        StateAction::Ignore
    }
}

// ---- full-text search ----
/// The query for the individuals of a type.
pub fn type_query(type_uri: &str) -> (r: String)
    ensures
        r@ == "'rdf:type' === '"@ + type_uri@ + "'"@,
{
    concat3("'rdf:type' === '", type_uri, "'")
}

/// The outcome of one search, as far as the retry loop tells them apart.
#[derive(PartialEq, Eq, Structural, Clone, Copy, Debug)]
pub enum SearchStatus {
    Found,
    NotReady,
    DatabaseModified,
    InternalServerError,
    Other,
}

/// The searches tried before the loop gives up.
pub const MAX_SEARCH_RETRIES: u32 = 3;

/// What the search loop does after a search.
#[derive(Debug)]
pub enum SearchStep {
    /// Return what the search found.
    Results,
    /// Fail with this message.
    Failed(String),
    /// Wait three seconds; then search again if `again`, else return what the last search
    /// found.
    Wait { again: bool },
}

pub open spec fn failed_with(r: SearchStep, message: Seq<char>) -> bool {
    r matches SearchStep::Failed(m) && m@ == message
}

/// The step after a search with `status`, when `retries` searches have been retried.
pub fn search_step(status: SearchStatus, retries: u32) -> (r: SearchStep)
    ensures
        status == SearchStatus::Found ==> r is Results,
        status == SearchStatus::InternalServerError ==> failed_with(r, "Search failed with error: InternalServerError"@),
        status != SearchStatus::Found && status != SearchStatus::InternalServerError ==> (if retries
            >= MAX_SEARCH_RETRIES {
            failed_with(r, "Failed to search after 3 attempts"@)
        } else {
            r == (SearchStep::Wait {
                again: status == SearchStatus::NotReady || status == SearchStatus::DatabaseModified,
            })
        }),
        r is Wait ==> retries < MAX_SEARCH_RETRIES,
{
    match status {
        SearchStatus::Found => SearchStep::Results,
        SearchStatus::InternalServerError => SearchStep::Failed(
            String::from_str("Search failed with error: InternalServerError"),
        ),
        _ => {
            if retries >= MAX_SEARCH_RETRIES {
                SearchStep::Failed(String::from_str("Failed to search after 3 attempts"))
            } else {
                SearchStep::Wait {
                    again: status == SearchStatus::NotReady || status == SearchStatus::DatabaseModified,
                }
            }
        },
    }
}

// ---- settings ----
/// The base URL of an AI provider: the configured one, else OpenAI's.
pub fn client_base_url(configured: &str) -> (r: String)
    ensures
        configured@.len() > 0 ==> r@ == configured@,
        configured@.len() == 0 ==> r@ == "https://api.openai.com/v1"@,
{
    if !is_empty_text(configured) {
        str_to_string(configured)
    } else {
        String::from_str("https://api.openai.com/v1")
    }
}

/// A count with its unit, as humantime writes it: nothing for none, else the number, the
/// unit, and for the units that take one an `s` where there are several.
pub open spec fn unit_text(value: nat, unit: Seq<char>, plural: bool) -> Seq<char> {
    if value == 0 {
        Seq::empty()
    } else {
        decimal_text(value) + unit + if plural && value > 1 {
            "s"@
        } else {
            Seq::<char>::empty()
        }
    }
}

/// What humantime's `format_duration` prints for a duration of whole seconds: `0s` for none;
/// else the years (of 365.25 days), months (of 30.44 days), days, hours, minutes and seconds
/// that are not zero, largest first, separated by spaces.
pub open spec fn humantime_text(seconds: u64) -> Seq<char> {
    if seconds == 0 {
        "0s"@
    } else {
        let secs = seconds as nat;
        let years = secs / 31_557_600;
        let ydays = secs % 31_557_600;
        let months = ydays / 2_630_016;
        let mdays = ydays % 2_630_016;
        let days = mdays / 86400;
        let day_secs = mdays % 86400;
        join_spec(
            nonempty_cells(
                seq![
                    unit_text(years, "year"@, true),
                    unit_text(months, "month"@, true),
                    unit_text(days, "day"@, true),
                    unit_text(day_secs / 3600, "h"@, false),
                    unit_text(day_secs % 3600 / 60, "m"@, false),
                    unit_text(day_secs % 60, "s"@, false),
                ],
            ),
            " "@,
        )
    }
}

/// `humantime::format_duration` of `Duration::from_secs`, as text (its `Display`, humantime
/// duration.rs:427-466, for a duration without fractions of a second).
#[verifier::external_body]
fn format_seconds(seconds: u64) -> (r: String)
    ensures
        r@ == humantime_text(seconds),
{
    humantime::format_duration(std::time::Duration::from_secs(seconds)).to_string()
}

pub open spec fn abs_seconds(seconds: i64) -> u64 {
    if seconds < 0 {
        (-(seconds as int)) as u64
    } else {
        seconds as u64
    }
}

/// A number of seconds, whatever its sign, as humantime writes a duration.
pub fn format_time(seconds: i64) -> (r: String)
    ensures
        r@ == humantime_text(abs_seconds(seconds)),
{
    let a: u64 = if seconds < 0 {
        if seconds == i64::MIN {
            9223372036854775808u64
        } else {
            (-seconds) as u64
        }
    } else {
        seconds as u64
    };
    format_seconds(a)
}

} // verus!
