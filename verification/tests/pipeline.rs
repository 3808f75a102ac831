use conversations::author_set::AuthorSet;
use conversations::components::{group_by_component, ComponentRow};
use conversations::conv_id::conversation_id;
use conversations::dedup::dedup_messages;
use conversations::pipeline::select_conversations;

fn messages(ids: &[&str]) -> Vec<String> {
    ids.iter().map(|id| id.to_string()).collect()
}

fn authorship(ids: &[&str]) -> AuthorSet {
    let mut set = AuthorSet::new();
    for id in ids {
        set.insert(id.to_string());
    }
    set
}

fn rows(pairs: &[(i64, &str)]) -> Vec<ComponentRow> {
    pairs
        .iter()
        .map(|(component, message)| ComponentRow {
            component: *component,
            message: message.to_string(),
        })
        .collect()
}

#[test]
fn dedup_keeps_first_occurrence() {
    // A repeated identifier at positions i < j keeps only the occurrence at
    // position i.
    let cluster = messages(&["m1", "m2", "m1", "m3", "m2"]);
    assert_eq!(dedup_messages(&cluster), messages(&["m1", "m2", "m3"]));
}

#[test]
fn dedup_leaves_distinct_clusters_alone() {
    let cluster = messages(&["m1", "m2", "m3"]);
    assert_eq!(dedup_messages(&cluster), cluster);
    let empty: Vec<String> = Vec::new();
    assert_eq!(dedup_messages(&empty), empty);
}

#[test]
fn grouping_follows_first_appearance_of_components() {
    let streamed = rows(&[(7, "m1"), (3, "m2"), (7, "m3"), (5, "m4"), (3, "m5")]);
    let clusters = group_by_component(&streamed);
    assert_eq!(
        clusters,
        vec![
            messages(&["m1", "m3"]),
            messages(&["m2", "m5"]),
            messages(&["m4"]),
        ]
    );
}

#[test]
fn grouping_of_empty_stream_is_empty() {
    let streamed: Vec<ComponentRow> = Vec::new();
    let clusters = group_by_component(&streamed);
    assert_eq!(clusters, Vec::<Vec<String>>::new());
}

#[test]
fn selection_keeps_accepted_clusters_in_order() {
    let clusters = vec![
        messages(&["a1", "a2", "x1", "a3", "x2", "a4"]),
        messages(&["a1", "a2", "a3"]),
        messages(&["x1", "a1", "x2"]),
    ];
    let authored = authorship(&["a1", "a2", "a3", "a4"]);
    let selected = select_conversations(&clusters, &authored);
    assert_eq!(
        selected,
        vec![messages(&["x1", "a3", "x2"]), messages(&["x1", "a1", "x2"])]
    );
}

#[test]
fn selection_deduplicates_before_filtering() {
    // The repeated external message is collapsed to its first occurrence
    // before the filter runs.
    let clusters = vec![messages(&["x1", "a1", "x1", "x2"])];
    let authored = authorship(&["a1"]);
    let selected = select_conversations(&clusters, &authored);
    assert_eq!(selected, vec![messages(&["x1", "a1", "x2"])]);
}

#[test]
fn account_run_pipeline_end_to_end() {
    // One account run: streamed component rows are grouped into clusters,
    // each cluster is deduplicated and filtered, and every accepted
    // conversation is named under its own counter value.
    let streamed = rows(&[
        (1, "x1"),
        (2, "a4"),
        (1, "a1"),
        (2, "a5"),
        (1, "x1"),
        (1, "x2"),
    ]);
    let clusters = group_by_component(&streamed);
    assert_eq!(
        clusters,
        vec![messages(&["x1", "a1", "x1", "x2"]), messages(&["a4", "a5"])]
    );
    let authored = authorship(&["a1", "a4", "a5"]);
    let selected = select_conversations(&clusters, &authored);
    assert_eq!(selected, vec![messages(&["x1", "a1", "x2"])]);
    let mut counter: u64 = 1;
    let mut ids: Vec<String> = Vec::new();
    for _ in &selected {
        ids.push(conversation_id("56377143", counter));
        counter += 1;
    }
    assert_eq!(ids, vec!["56377143_1".to_string()]);
}

#[test]
fn selection_of_no_clusters_is_empty() {
    let clusters: Vec<Vec<String>> = Vec::new();
    let authored = authorship(&["a1"]);
    assert_eq!(
        select_conversations(&clusters, &authored),
        Vec::<Vec<String>>::new()
    );
}
