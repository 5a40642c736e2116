use bpa_analysis::individual::Individual;
use bpa_analysis::queue::{
    client_base_url, format_time, queue_route, search_step, state_action, type_query, Command, QueueRoute,
    SearchStatus, SearchStep, StateAction,
};

#[test]
fn own_and_empty_elements_are_skipped() {
    let mut own = Individual::with_id("q1");
    own.set_string("src", "BPA", bpa_analysis::individual::Lang::NoLang);
    assert_eq!(queue_route(&own, Command::Other), QueueRoute::Skip);
    let other = Individual::with_id("q2");
    assert_eq!(queue_route(&other, Command::Other), QueueRoute::ReadNewState);
    assert_eq!(queue_route(&other, Command::Remove), QueueRoute::Skip);
    assert_eq!(queue_route(&other, Command::NoCommand), QueueRoute::Skip);
    let mut foreign = Individual::with_id("q3");
    foreign.set_string("src", "UI", bpa_analysis::individual::Lang::NoLang);
    assert_eq!(queue_route(&foreign, Command::Other), QueueRoute::ReadNewState);
}

#[test]
fn saved_individuals_are_dispatched_by_type() {
    let mut bp = Individual::with_id("d:bp");
    bp.add_uri("rdf:type", "v-bpa:BusinessProcess");
    assert_eq!(state_action(&bp), StateAction::AnalyzeJustification);
    let mut ca = Individual::with_id("d:ca");
    ca.add_uri("rdf:type", "v-bpa:ClusterizationAttempt");
    assert_eq!(state_action(&ca), StateAction::ClusteringStep);
    let mut both = Individual::with_id("d:both");
    both.add_uri("rdf:type", "v-bpa:ClusterizationAttempt");
    both.add_uri("rdf:type", "v-bpa:BusinessProcess");
    assert_eq!(state_action(&both), StateAction::AnalyzeJustification);
    assert_eq!(state_action(&Individual::with_id("d:x")), StateAction::Ignore);
}

#[test]
fn search_is_retried_at_most_three_times() {
    assert!(matches!(search_step(SearchStatus::Found, 0), SearchStep::Results));
    assert!(matches!(search_step(SearchStatus::NotReady, 0), SearchStep::Wait { again: true }));
    assert!(matches!(search_step(SearchStatus::DatabaseModified, 2), SearchStep::Wait { again: true }));
    assert!(matches!(search_step(SearchStatus::Other, 1), SearchStep::Wait { again: false }));
    match search_step(SearchStatus::NotReady, 3) {
        SearchStep::Failed(m) => assert_eq!(m, "Failed to search after 3 attempts"),
        _ => panic!("the fourth failure ends the search"),
    }
    match search_step(SearchStatus::InternalServerError, 0) {
        SearchStep::Failed(m) => assert_eq!(m, "Search failed with error: InternalServerError"),
        _ => panic!("an internal error ends the search"),
    }
}

#[test]
fn search_loop_ends_within_four_searches() {
    let mut retries = 0u32;
    let mut searches = 0;
    loop {
        searches += 1;
        match search_step(SearchStatus::NotReady, retries) {
            SearchStep::Wait { again: true } => retries += 1,
            _ => break,
        }
    }
    assert_eq!(searches, 4);
}

#[test]
fn type_query_text() {
    assert_eq!(type_query("v-bpa:BusinessProcess"), "'rdf:type' === 'v-bpa:BusinessProcess'");
}

#[test]
fn base_url_defaults_to_openai() {
    assert_eq!(client_base_url(""), "https://api.openai.com/v1");
    assert_eq!(client_base_url("http://localhost:8080/v1"), "http://localhost:8080/v1");
}

#[test]
fn time_is_written_by_humantime() {
    assert_eq!(format_time(3661), "1h 1m 1s");
    assert_eq!(format_time(-90), "1m 30s");
    assert_eq!(format_time(0), "0s");
}

#[test]
fn long_times_count_days_months_and_years() {
    assert_eq!(format_time(86400 + 7200), "1day 2h");
    assert_eq!(format_time(2 * 86400), "2days");
    assert_eq!(format_time(31_557_600 + 2_630_016 + 5), "1year 1month 5s");
}
