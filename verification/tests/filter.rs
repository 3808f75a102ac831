use conversations::author_set::AuthorSet;
use conversations::filter::valid_conversation;

fn messages(ids: &[&str]) -> Vec<String> {
    ids.iter().map(|id| id.to_string()).collect()
}

fn authorship(ids: &[&str]) -> AuthorSet {
    let mut set = AuthorSet::new();
    for id in ids {
        set.insert(id.to_string());
    }
    set
}

#[test]
fn boundary_runs_are_stripped() {
    // Account-authored boundary messages without external context on both
    // sides are removed; the protected middle survives.
    let cluster = messages(&["a1", "a2", "x1", "a3", "x2", "a4"]);
    let authored = authorship(&["a1", "a2", "a3", "a4"]);
    let result = valid_conversation(&cluster, &authored);
    assert_eq!(result, Some(messages(&["x1", "a3", "x2"])));
}

#[test]
fn all_account_cluster_is_rejected() {
    // A cluster of account messages only converges to the empty sequence
    // and yields no conversation.
    let cluster = messages(&["a1", "a2", "a3"]);
    let authored = authorship(&["a1", "a2", "a3"]);
    let result = valid_conversation(&cluster, &authored);
    assert_eq!(result, None);
}

#[test]
fn already_valid_cluster_is_unchanged() {
    let cluster = messages(&["x1", "a1", "x2"]);
    let authored = authorship(&["a1"]);
    let result = valid_conversation(&cluster, &authored);
    assert_eq!(result, Some(messages(&["x1", "a1", "x2"])));
}

#[test]
fn disjoint_authorship_is_rejected() {
    // No message of the cluster is account-authored: nothing is removed,
    // but the remainder holds no account message, so it is rejected.
    let cluster = messages(&["x1", "x2", "x3"]);
    let authored = authorship(&["a1", "a2"]);
    let result = valid_conversation(&cluster, &authored);
    assert_eq!(result, None);
}

#[test]
fn empty_cluster_is_rejected() {
    let cluster: Vec<String> = Vec::new();
    let authored = authorship(&["a1"]);
    let result = valid_conversation(&cluster, &authored);
    assert_eq!(result, None);
}

#[test]
fn empty_authorship_is_rejected() {
    let cluster = messages(&["x1", "x2"]);
    let authored = AuthorSet::new();
    let result = valid_conversation(&cluster, &authored);
    assert_eq!(result, None);
}

#[test]
fn filter_is_idempotent_on_its_output() {
    // Running the filter on an already-converged sequence changes nothing.
    let cluster = messages(&["a1", "a2", "x1", "a3", "x2", "a4"]);
    let authored = authorship(&["a1", "a2", "a3", "a4"]);
    let first = valid_conversation(&cluster, &authored).unwrap();
    let second = valid_conversation(&first, &authored);
    assert_eq!(second, Some(first));
}

#[test]
fn distant_external_messages_protect() {
    // The context check scans the whole sequence, not just the neighbours:
    // a single external message on each side protects every account message
    // between them.
    let cluster = messages(&["x1", "a1", "a2", "a3", "x2"]);
    let authored = authorship(&["a1", "a2", "a3"]);
    let result = valid_conversation(&cluster, &authored);
    assert_eq!(result, Some(messages(&["x1", "a1", "a2", "a3", "x2"])));
}

#[test]
fn removal_can_cascade_to_rejection() {
    // With externals only before (or only after), every account message
    // eventually lacks two-sided context and the cluster is rejected.
    let cluster = messages(&["x1", "x2", "a1", "a2"]);
    let authored = authorship(&["a1", "a2"]);
    let result = valid_conversation(&cluster, &authored);
    assert_eq!(result, None);
}

#[test]
fn authorship_membership_is_exact() {
    let authored = authorship(&["a1", "a2"]);
    assert!(authored.contains(&"a1".to_string()));
    assert!(authored.contains(&"a2".to_string()));
    assert!(!authored.contains(&"x1".to_string()));
    let empty = AuthorSet::new();
    assert!(!empty.contains(&"a1".to_string()));
}
