//! Grouping of the streamed weakly-connected-components rows into clusters.
//!
//! The component computation streams one row per message: the component the
//! message was assigned to and the message identifier. Rows of one component
//! are gathered into one cluster; clusters stand in the order in which their
//! component first appeared in the stream, and each cluster keeps its rows'
//! order.

use vstd::prelude::*;

use crate::dedup::{dedup_first, dedup_from};

verus! {

/// One streamed row of the component computation.
pub struct ComponentRow {
    /// The component the message was assigned to.
    pub component: i64,
    /// The message identifier.
    pub message: String,
}

impl View for ComponentRow {
    type V = (i64, Seq<char>);

    open spec fn view(&self) -> (i64, Seq<char>) {
        (self.component, self.message@)
    }
}

impl DeepView for ComponentRow {
    type V = (i64, Seq<char>);

    open spec fn deep_view(&self) -> (i64, Seq<char>) {
        self.view()
    }
}

/// The component identifiers of `rows`, in order of first appearance.
pub open spec fn component_keys(rows: Seq<(i64, Seq<char>)>) -> Seq<i64> {
    dedup_first(rows.map_values(|r: (i64, Seq<char>)| r.0))
}

/// The messages of `rows` assigned to component `k`, from row `i` on, in
/// row order.
pub open spec fn messages_of_from(rows: Seq<(i64, Seq<char>)>, k: i64, i: int) -> Seq<Seq<char>>
    decreases rows.len() - i,
{
    if i < 0 || i >= rows.len() {
        Seq::empty()
    } else if rows[i].0 == k {
        seq![rows[i].1] + messages_of_from(rows, k, i + 1)
    } else {
        messages_of_from(rows, k, i + 1)
    }
}

/// The messages of `rows` assigned to component `k`, in row order.
pub open spec fn messages_of(rows: Seq<(i64, Seq<char>)>, k: i64) -> Seq<Seq<char>> {
    messages_of_from(rows, k, 0)
}

/// Whether `keys` holds `k`.
fn contains_key(keys: &Vec<i64>, k: i64) -> (b: bool)
    ensures
        b == keys@.contains(k),
{
    let mut i: usize = 0;
    while i < keys.len()
        invariant
            i <= keys.len(),
            forall|j: int| 0 <= j < i ==> keys@[j] != k,
        decreases keys.len() - i,
    {
        if keys[i] == k {
            return true;
        }
        i += 1;
    }
    false
}

/// The messages of `rows` assigned to component `k`, as executable code.
fn collect_messages(rows: &Vec<ComponentRow>, k: i64) -> (r: Vec<String>)
    ensures
        r.deep_view() == messages_of(rows.deep_view(), k),
{
    let ghost rv = rows.deep_view();
    let mut out: Vec<String> = Vec::new();
    let mut i: usize = 0;
    proof {
        assert(out.deep_view() =~= Seq::<Seq<char>>::empty());
        assert(Seq::<Seq<char>>::empty() + messages_of_from(rv, k, 0) =~= messages_of(rv, k));
    }
    while i < rows.len()
        invariant
            i <= rows.len(),
            rv == rows.deep_view(),
            messages_of(rv, k) == out.deep_view() + messages_of_from(rv, k, i as int),
        decreases rows.len() - i,
    {
        let ghost out_before = out.deep_view();
        proof {
            assert(rv[i as int] == rows@[i as int].deep_view());
        }
        if rows[i].component == k {
            out.push(rows[i].message.clone());
            proof {
                assert(out.deep_view() =~= out_before.push(rv[i as int].1));
                assert(out_before.push(rv[i as int].1) + messages_of_from(rv, k, i + 1)
                    =~= out_before + (seq![rv[i as int].1] + messages_of_from(rv, k, i + 1)));
            }
        }
        i += 1;
    }
    proof {
        assert(out.deep_view() + messages_of_from(rv, k, rows.len() as int) =~= out.deep_view());
    }
    out
}

/// Gather the streamed rows of one account run into clusters, one per
/// component, ordered by the first appearance of each component; each
/// cluster keeps the row order of its messages.
pub fn group_by_component(rows: &Vec<ComponentRow>) -> (r: Vec<Vec<String>>)
    ensures
        r.deep_view().len() == component_keys(rows.deep_view()).len(),
        forall|i: int|
            0 <= i < r.deep_view().len() ==> #[trigger] r.deep_view()[i] == messages_of(
                rows.deep_view(),
                component_keys(rows.deep_view())[i],
            ),
{
    let ghost rv = rows.deep_view();
    let ghost keycol = rv.map_values(|t: (i64, Seq<char>)| t.0);
    let mut keys: Vec<i64> = Vec::new();
    let mut i: usize = 0;
    proof {
        assert(keys@ =~= Seq::<i64>::empty());
        assert(Seq::<i64>::empty() + dedup_from(keycol, 0) =~= dedup_first(keycol));
        assert(keycol.subrange(0, 0) =~= Seq::<i64>::empty());
    }
    while i < rows.len()
        invariant
            i <= rows.len(),
            rv == rows.deep_view(),
            keycol == rv.map_values(|t: (i64, Seq<char>)| t.0),
            dedup_first(keycol) == keys@ + dedup_from(keycol, i as int),
            forall|x: i64| #[trigger] keys@.contains(x) <==> keycol.subrange(0, i as int).contains(x),
        decreases rows.len() - i,
    {
        let ghost keys_before = keys@;
        proof {
            assert(rv[i as int] == rows@[i as int].deep_view());
            assert(keycol[i as int] == rv[i as int].0);
            assert(keycol.subrange(0, i + 1) =~= keycol.subrange(0, i as int).push(
                keycol[i as int],
            ));
        }
        let seen = contains_key(&keys, rows[i].component);
        if !seen {
            keys.push(rows[i].component);
            proof {
                assert(keys_before.push(keycol[i as int]) + dedup_from(keycol, i + 1)
                    =~= keys_before + (seq![keycol[i as int]] + dedup_from(keycol, i + 1)));
                assert forall|x: i64| #[trigger]
                    keys@.contains(x) <==> keycol.subrange(0, i + 1).contains(x) by {
                    if keys@.contains(x) {
                        let j = choose|j: int| 0 <= j < keys@.len() && #[trigger] keys@[j] == x;
                        if j < keys_before.len() {
                            assert(keys_before.contains(x));
                        } else {
                            assert(x == keycol[i as int]);
                            assert(keycol.subrange(0, i + 1)[i as int] == keycol[i as int]);
                        }
                        assert(keycol.subrange(0, i + 1).contains(x));
                    }
                    if keycol.subrange(0, i + 1).contains(x) {
                        let j = choose|j: int|
                            0 <= j < i + 1 && #[trigger] keycol.subrange(0, i + 1)[j] == x;
                        if j < i {
                            assert(keycol.subrange(0, i as int).contains(x));
                            assert(keys_before.contains(x));
                            let m = choose|m: int|
                                0 <= m < keys_before.len() && #[trigger] keys_before[m] == x;
                            assert(keys@[m] == x);
                        } else {
                            assert(keys@[keys_before.len() as int] == x);
                        }
                        assert(keys@.contains(x));
                    }
                }
            }
        } else {
            proof {
                assert(keycol.subrange(0, i as int).contains(keycol[i as int]));
                assert forall|x: i64| #[trigger]
                    keys@.contains(x) <==> keycol.subrange(0, i + 1).contains(x) by {
                    if keycol.subrange(0, i + 1).contains(x) {
                        let j = choose|j: int|
                            0 <= j < i + 1 && #[trigger] keycol.subrange(0, i + 1)[j] == x;
                        if j < i {
                            assert(keycol.subrange(0, i as int).contains(x));
                        } else {
                            assert(x == keycol[i as int]);
                        }
                    }
                    if keycol.subrange(0, i as int).contains(x) {
                        let j = choose|j: int|
                            0 <= j < i && #[trigger] keycol.subrange(0, i as int)[j] == x;
                        assert(keycol.subrange(0, i + 1)[j] == x);
                    }
                }
            }
        }
        i += 1;
    }
    proof {
        assert(keys@ + dedup_from(keycol, rows.len() as int) =~= keys@);
        assert(keys@ == component_keys(rv));
    }
    let mut groups: Vec<Vec<String>> = Vec::new();
    let mut j: usize = 0;
    while j < keys.len()
        invariant
            j <= keys.len(),
            rv == rows.deep_view(),
            keys@ == component_keys(rv),
            groups.deep_view().len() == j,
            forall|m: int|
                0 <= m < j ==> #[trigger] groups.deep_view()[m] == messages_of(rv, keys@[m]),
        decreases keys.len() - j,
    {
        let ghost groups_before = groups.deep_view();
        let g = collect_messages(rows, keys[j]);
        groups.push(g);
        proof {
            assert(groups.deep_view() =~= groups_before.push(messages_of(rv, keys@[j as int])));
        }
        j += 1;
    }
    groups
}

} // verus!
