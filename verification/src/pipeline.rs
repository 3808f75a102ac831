//! Per-account selection: deduplicate and filter every cluster of one
//! account run, keeping the accepted conversations.

use vstd::prelude::*;

use crate::author_set::AuthorSet;
use crate::dedup::{dedup_first, dedup_messages};
use crate::filter::{contains_authored, prune_fixed_point, valid_conversation};

verus! {

/// The conversation one cluster yields, if any: the fixed point of the
/// pruning rounds over the deduplicated cluster, unless that fixed point
/// holds no account-authored message.
pub open spec fn accepted_conversation(cluster: Seq<Seq<char>>, authored: Set<Seq<char>>) -> Option<
    Seq<Seq<char>>,
> {
    let converged = prune_fixed_point(dedup_first(cluster), authored);
    if contains_authored(converged, authored) {
        Some(converged)
    } else {
        None
    }
}

/// The conversations accepted among `clusters` from position `i` on, in
/// cluster order.
pub open spec fn selected_from(
    clusters: Seq<Seq<Seq<char>>>,
    authored: Set<Seq<char>>,
    i: int,
) -> Seq<Seq<Seq<char>>>
    decreases clusters.len() - i,
{
    if i < 0 || i >= clusters.len() {
        Seq::empty()
    } else {
        match accepted_conversation(clusters[i], authored) {
            Some(c) => seq![c] + selected_from(clusters, authored, i + 1),
            None => selected_from(clusters, authored, i + 1),
        }
    }
}

/// The conversations accepted among `clusters`, in cluster order.
pub open spec fn selected(clusters: Seq<Seq<Seq<char>>>, authored: Set<Seq<char>>) -> Seq<
    Seq<Seq<char>>,
> {
    selected_from(clusters, authored, 0)
}

proof fn lemma_selected_from_authored(
    clusters: Seq<Seq<Seq<char>>>,
    authored: Set<Seq<char>>,
    i: int,
)
    requires
        0 <= i <= clusters.len(),
    ensures
        forall|m: int|
            0 <= m < selected_from(clusters, authored, i).len() ==> #[trigger] contains_authored(
                selected_from(clusters, authored, i)[m],
                authored,
            ),
    decreases clusters.len() - i,
{
    if i < clusters.len() {
        lemma_selected_from_authored(clusters, authored, i + 1);
        let rest = selected_from(clusters, authored, i + 1);
        match accepted_conversation(clusters[i], authored) {
            Some(c) => {
                let d = seq![c] + rest;
                assert forall|m: int| 0 <= m < d.len() implies #[trigger] contains_authored(
                    d[m],
                    authored,
                ) by {
                    if m == 0 {
                        assert(d[0] == c);
                    } else {
                        assert(d[m] == rest[m - 1]);
                    }
                }
            },
            None => {},
        }
    }
}

/// Law (data-model invariant): every conversation an account run selects
/// holds at least one account-authored message; a cluster without one is
/// never persisted.
pub proof fn lemma_selected_conversations_authored(
    clusters: Seq<Seq<Seq<char>>>,
    authored: Set<Seq<char>>,
)
    ensures
        forall|m: int|
            0 <= m < selected(clusters, authored).len() ==> #[trigger] contains_authored(
                selected(clusters, authored)[m],
                authored,
            ),
{
    lemma_selected_from_authored(clusters, authored, 0);
}

/// Deduplicate and filter every cluster of one account run, keeping the
/// accepted conversations in cluster order.
pub fn select_conversations(clusters: &Vec<Vec<String>>, authored: &AuthorSet) -> (r: Vec<
    Vec<String>,
>)
    ensures
        r.deep_view() == selected(clusters.deep_view(), authored@),
{
    let ghost cv = clusters.deep_view();
    let mut out: Vec<Vec<String>> = Vec::new();
    let mut i: usize = 0;
    proof {
        assert(out.deep_view() =~= Seq::<Seq<Seq<char>>>::empty());
        assert(Seq::<Seq<Seq<char>>>::empty() + selected_from(cv, authored@, 0) =~= selected(
            cv,
            authored@,
        ));
    }
    while i < clusters.len()
        invariant
            i <= clusters.len(),
            cv == clusters.deep_view(),
            selected(cv, authored@) == out.deep_view() + selected_from(cv, authored@, i as int),
        decreases clusters.len() - i,
    {
        let ghost out_before = out.deep_view();
        proof {
            assert(cv[i as int] == clusters@[i as int].deep_view());
        }
        let deduplicated = dedup_messages(&clusters[i]);
        match valid_conversation(&deduplicated, authored) {
            Some(conversation) => {
                let ghost c = conversation.deep_view();
                out.push(conversation);
                proof {
                    assert(out.deep_view() =~= out_before.push(c));
                    assert(out_before.push(c) + selected_from(cv, authored@, i + 1) =~= out_before
                        + (seq![c] + selected_from(cv, authored@, i + 1)));
                }
            },
            None => {},
        }
        i += 1;
    }
    proof {
        assert(out.deep_view() + selected_from(cv, authored@, clusters.len() as int)
            =~= out.deep_view());
    }
    out
}

} // verus!
