use bpa_analysis::clustering::{
    build_graph, check_control_action, cluster_groups, cluster_individual, clustering_counts, clustering_stage,
    comparison_state_from, complete_clustering, failure_message, find_connected_components, finish_comparisons,
    handle_error, initialize_clustering, new_cluster, pair_index_text, pair_to_compare, paused_step,
    record_comparison, remaining_time, set_clustering_metrics, should_start, stored_similar_pairs, ClusterStage,
    ComparisonState, PausedOutcome,
};
use bpa_analysis::individual::{Individual, Lang};

fn sorted(mut groups: Vec<Vec<String>>) -> Vec<Vec<String>> {
    for g in groups.iter_mut() {
        g.sort();
    }
    groups.sort();
    groups
}

fn names(v: &[&str]) -> Vec<String> {
    v.iter().map(|s| s.to_string()).collect()
}

#[test]
fn counts_of_compared_pairs() {
    assert_eq!(clustering_counts(&ComparisonState { x: 0, y: 1 }, 4), (0, 6));
    assert_eq!(clustering_counts(&ComparisonState { x: 0, y: 3 }, 4), (2, 6));
    assert_eq!(clustering_counts(&ComparisonState { x: 1, y: 2 }, 4), (3, 6));
    assert_eq!(clustering_counts(&ComparisonState { x: 3, y: 4 }, 4), (6, 6));
    assert_eq!(remaining_time(2, 6), 20);
    assert_eq!(remaining_time(6, 6), 0);
}

#[test]
fn each_step_of_the_walk_counts_one_pair() {
    let n = 5;
    let mut state = ComparisonState { x: 0, y: 1 };
    let mut a = Individual::with_id("d:a");
    let mut steps = 0;
    while state.x < n - 1 {
        let before = clustering_counts(&state, n).0;
        record_comparison(&mut a, "p", "q", &mut state, n, false);
        steps += 1;
        assert_eq!(clustering_counts(&state, n).0, before + 1);
    }
    assert_eq!(steps, 10);
    assert_eq!(state, ComparisonState { x: 4, y: 5 });
}

#[test]
fn similar_pairs_are_recorded_and_saving_is_asked() {
    let mut a = Individual::with_id("d:a");
    let mut state = ComparisonState { x: 0, y: 1 };
    assert!(record_comparison(&mut a, "d:p1", "d:p2", &mut state, 3, true));
    assert_eq!(state, ComparisonState { x: 0, y: 2 });
    assert!(record_comparison(&mut a, "d:p1", "d:p3", &mut state, 3, false));
    assert_eq!(state, ComparisonState { x: 1, y: 2 });
    assert_eq!(stored_similar_pairs(&a), names(&["d:p1,d:p2"]));
    assert_eq!(pair_index_text(&state), "1,2");
    set_clustering_metrics(&mut a, &state, 66, 5);
    assert_eq!(a.get_first_literal("v-bpa:currentPairIndex"), Some("1,2".to_string()));
    assert_eq!(a.get_first_integer("v-bpa:clusterizationProgress"), Some(66));
    assert_eq!(comparison_state_from(&a), Ok(ComparisonState { x: 1, y: 2 }));
}

#[test]
fn stored_pair_index_is_read_back() {
    let mut a = Individual::with_id("d:a");
    assert_eq!(comparison_state_from(&a), Err("No current pair index found".to_string()));
    a.set_string("v-bpa:currentPairIndex", "x,1", Lang::NoLang);
    assert_eq!(comparison_state_from(&a), Err("invalid pair index".to_string()));
    a.set_string("v-bpa:currentPairIndex", "2,7", Lang::NoLang);
    assert_eq!(comparison_state_from(&a), Ok(ComparisonState { x: 2, y: 7 }));
}

#[test]
fn initialization_and_pairs_to_compare() {
    let mut a = Individual::with_id("d:a");
    assert_eq!(initialize_clustering(&mut a, &vec![]), Err("No business processes found for clustering".to_string()));
    let procs = names(&["d:p1", "d:p2", "d:p3"]);
    assert_eq!(initialize_clustering(&mut a, &procs), Ok(()));
    assert_eq!(a.get_literals("v-bpa:processesToAnalyze"), Some(procs.clone()));
    assert_eq!(a.get_first_literal("v-bpa:currentPairIndex"), Some("0,1".to_string()));
    assert_eq!(a.get_first_integer("v-bpa:estimatedTime"), Some(15));
    assert_eq!(clustering_stage(&a), ClusterStage::ComparingPairs);
    assert_eq!(
        pair_to_compare(&a, &ComparisonState { x: 1, y: 2 }),
        Ok(Some(("d:p2".to_string(), "d:p3".to_string())))
    );
    assert_eq!(pair_to_compare(&a, &ComparisonState { x: 2, y: 3 }), Ok(None));
}

#[test]
fn stages_and_commands() {
    let mut a = Individual::with_id("d:a");
    assert_eq!(clustering_stage(&a), ClusterStage::New);
    assert!(!should_start(&a));
    a.set_uri("v-bpa:controlAction", "v-bpa:StartExecution");
    assert!(should_start(&a));
    a.set_uri("v-bpa:hasClusterizationStatus", "v-bpa:Paused");
    assert_eq!(clustering_stage(&a), ClusterStage::Paused);
    a.set_uri("v-bpa:hasClusterizationStatus", "v-bpa:Whatever");
    assert_eq!(clustering_stage(&a), ClusterStage::Unknown);

    let mut p = Individual::with_id("d:p");
    assert_eq!(paused_step(&mut p, 10), PausedOutcome::Waiting);
    p.set_uri("v-bpa:controlAction", "v-bpa:ResumeExecution");
    assert_eq!(paused_step(&mut p, 10), PausedOutcome::Resumed);
    assert_eq!(p.get_first_literal("v-bpa:controlAction"), Some("v-bpa:NoActionExecution".to_string()));
    assert_eq!(clustering_stage(&p), ClusterStage::ComparingPairs);

    let mut run = Individual::with_id("d:r");
    let mut current = Individual::with_id("d:r");
    assert!(check_control_action(&mut run, &current, 5));
    current.set_uri("v-bpa:controlAction", "v-bpa:StopExecution");
    assert!(!check_control_action(&mut run, &current, 5));
    assert_eq!(clustering_stage(&run), ClusterStage::Paused);
}

#[test]
fn endings_of_an_attempt() {
    let mut a = Individual::with_id("d:a");
    finish_comparisons(&mut a, 100);
    assert_eq!(clustering_stage(&a), ClusterStage::PairsCompared);
    complete_clustering(&mut a, 200);
    assert_eq!(clustering_stage(&a), ClusterStage::Completed);
    assert_eq!(a.get_first_literal("v-bpa:controlAction"), Some("v-bpa:NoActionExecution".to_string()));
    let mut b = Individual::with_id("d:b");
    handle_error(&mut b, "AI unavailable", 300);
    assert_eq!(clustering_stage(&b), ClusterStage::Failed);
    assert_eq!(b.get_first_literal("v-bpa:lastError"), Some("AI unavailable".to_string()));
    assert_eq!(failure_message(&b), "AI unavailable");
    assert_eq!(failure_message(&Individual::with_id("x")), "Unknown error");
}

#[test]
fn connected_components_of_similar_pairs() {
    let pairs = names(&["a,b", "c,d", "b,e", "f,f", "broken", "x,y,z"]);
    let graph = build_graph(&pairs);
    assert_eq!(graph.nodes, names(&["a", "b", "c", "d", "e", "f"]));
    let groups = find_connected_components(&graph);
    assert_eq!(sorted(groups), vec![names(&["a", "b", "e"]), names(&["c", "d"]), names(&["f"])]);
    let big = cluster_groups(&pairs);
    assert_eq!(sorted(big), vec![names(&["a", "b", "e"]), names(&["c", "d"])]);
    assert!(cluster_groups(&vec![]).is_empty());
}

#[test]
fn cluster_individuals() {
    let procs = names(&["d:p1", "d:p2"]);
    let c = cluster_individual("d:c1", &procs);
    assert_eq!(c.get_id(), "d:c1");
    assert_eq!(c.get_first_literal("rdf:type"), Some("v-bpa:ProcessCluster".to_string()));
    assert_eq!(c.get_literals("v-bpa:hasProcess"), Some(procs.clone()));
    let n = new_cluster(&procs);
    assert!(n.get_id().starts_with("d:bpa_cluster_"));
    assert_eq!(n.get_id().len(), "d:bpa_cluster_".len() + 36);
    assert_eq!(n.get_literals("v-bpa:hasProcess"), Some(procs));
}

#[test]
fn one_more_pair_merges_two_groups_or_changes_nothing() {
    let before = names(&["a,b", "c,d", "e,e"]);
    let groups = sorted(find_connected_components(&build_graph(&before)));
    assert_eq!(groups, vec![names(&["a", "b"]), names(&["c", "d"]), names(&["e"])]);
    let mut merged = before.clone();
    merged.push("b,c".to_string());
    let groups = sorted(find_connected_components(&build_graph(&merged)));
    assert_eq!(groups, vec![names(&["a", "b", "c", "d"]), names(&["e"])]);
    let mut same = before.clone();
    same.push("b,a".to_string());
    let groups = sorted(find_connected_components(&build_graph(&same)));
    assert_eq!(groups, vec![names(&["a", "b"]), names(&["c", "d"]), names(&["e"])]);
}

#[test]
fn counts_go_on_past_the_last_process() {
    assert_eq!(clustering_counts(&ComparisonState { x: 0, y: 4 }, 3), (3, 3));
    assert_eq!(clustering_counts(&ComparisonState { x: 3, y: 4 }, 3), (3, 3));
}
