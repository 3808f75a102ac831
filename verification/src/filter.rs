//! The conversation-validity filter.
//!
//! Given one cluster of message identifiers (a weakly-connected component of
//! the reply graph, already deduplicated) and the account's authorship set,
//! the filter strips account-authored messages that lack a non-account
//! message both somewhere before and somewhere after them, repeats the round
//! to a fixed point, and rejects the cluster when the converged remainder
//! holds no account-authored message at all.

use vstd::prelude::*;

use crate::author_set::AuthorSet;

verus! {

/// Some non-account message stands strictly before position `i` of `s`.
pub open spec fn has_external_before(s: Seq<Seq<char>>, authored: Set<Seq<char>>, i: int) -> bool {
    exists|j: int| 0 <= j < i && !authored.contains(s[j])
}

/// Some non-account message stands strictly after position `i` of `s`.
pub open spec fn has_external_after(s: Seq<Seq<char>>, authored: Set<Seq<char>>, i: int) -> bool {
    exists|j: int| i < j < s.len() && !authored.contains(s[j])
}

/// A message survives one pruning round when it is not account-authored, or
/// when it has conversational context on both sides: some non-account
/// message somewhere before it and some non-account message somewhere after
/// it in the current sequence.
pub open spec fn survives(s: Seq<Seq<char>>, authored: Set<Seq<char>>, i: int) -> bool {
    !authored.contains(s[i]) || (has_external_before(s, authored, i) && has_external_after(
        s,
        authored,
        i,
    ))
}

/// The survivors of one pruning round, from position `i` on. Every survival
/// check reads the whole current sequence, so the checks of one round are
/// independent of one another and of the order they are made in.
pub open spec fn prune_round_from(
    s: Seq<Seq<char>>,
    authored: Set<Seq<char>>,
    i: int,
) -> Seq<Seq<char>>
    decreases s.len() - i,
{
    if i < 0 || i >= s.len() {
        Seq::empty()
    } else if survives(s, authored, i) {
        seq![s[i]] + prune_round_from(s, authored, i + 1)
    } else {
        prune_round_from(s, authored, i + 1)
    }
}

/// One full pruning round.
pub open spec fn prune_round(s: Seq<Seq<char>>, authored: Set<Seq<char>>) -> Seq<Seq<char>> {
    prune_round_from(s, authored, 0)
}

/// The sequence holds at least one account-authored message.
pub open spec fn contains_authored(s: Seq<Seq<char>>, authored: Set<Seq<char>>) -> bool {
    exists|i: int| 0 <= i < s.len() && authored.contains(s[i])
}

/// The fixed point of the pruning rounds: rounds are repeated until one of
/// them removes nothing. Removing a boundary message can expose a previously
/// protected message, so the survival checks are re-evaluated against each
/// new sequence.
pub open spec fn prune_fixed_point(s: Seq<Seq<char>>, authored: Set<Seq<char>>) -> Seq<Seq<char>>
    decreases s.len(),
    via prune_fixed_point_decreases
{
    let r = prune_round(s, authored);
    if r.len() == s.len() {
        s
    } else {
        prune_fixed_point(r, authored)
    }
}

#[via_fn]
proof fn prune_fixed_point_decreases(s: Seq<Seq<char>>, authored: Set<Seq<char>>) {
    lemma_prune_round_from_len(s, authored, 0);
}

/// A round keeps at most the positions it examines.
proof fn lemma_prune_round_from_len(s: Seq<Seq<char>>, authored: Set<Seq<char>>, i: int)
    requires
        0 <= i <= s.len(),
    ensures
        prune_round_from(s, authored, i).len() <= s.len() - i,
    decreases s.len() - i,
{
    if i < s.len() {
        lemma_prune_round_from_len(s, authored, i + 1);
    }
}

/// A round that removes nothing leaves the examined suffix exactly as it was.
proof fn lemma_prune_round_from_full(s: Seq<Seq<char>>, authored: Set<Seq<char>>, i: int)
    requires
        0 <= i <= s.len(),
        prune_round_from(s, authored, i).len() == s.len() - i,
    ensures
        prune_round_from(s, authored, i) == s.skip(i),
    decreases s.len() - i,
{
    if i >= s.len() {
        assert(prune_round_from(s, authored, i) =~= s.skip(i));
    } else {
        lemma_prune_round_from_len(s, authored, i + 1);
        if survives(s, authored, i) {
            lemma_prune_round_from_full(s, authored, i + 1);
            assert(seq![s[i]] + s.skip(i + 1) =~= s.skip(i));
        }
    }
}

/// `x` can be obtained from `y` by deleting elements while keeping the
/// relative order of the rest.
pub open spec fn is_subsequence_of<T>(x: Seq<T>, y: Seq<T>) -> bool
    decreases x.len() + y.len(),
{
    if x.len() == 0 {
        true
    } else if y.len() == 0 {
        false
    } else {
        (x[0] == y[0] && is_subsequence_of(x.skip(1), y.skip(1))) || is_subsequence_of(
            x,
            y.skip(1),
        )
    }
}

proof fn lemma_subsequence_refl<T>(s: Seq<T>)
    ensures
        is_subsequence_of(s, s),
    decreases s.len(),
{
    if s.len() > 0 {
        lemma_subsequence_refl(s.skip(1));
    }
}

proof fn lemma_subsequence_trans<T>(x: Seq<T>, y: Seq<T>, z: Seq<T>)
    requires
        is_subsequence_of(x, y),
        is_subsequence_of(y, z),
    ensures
        is_subsequence_of(x, z),
    decreases x.len() + y.len() + z.len(),
{
    if x.len() == 0 {
    } else {
        if y[0] == z[0] && is_subsequence_of(y.skip(1), z.skip(1)) {
            if x[0] == y[0] && is_subsequence_of(x.skip(1), y.skip(1)) {
                lemma_subsequence_trans(x.skip(1), y.skip(1), z.skip(1));
            } else {
                lemma_subsequence_trans(x, y.skip(1), z.skip(1));
            }
        } else {
            lemma_subsequence_trans(x, y, z.skip(1));
        }
    }
}

/// The survivors of a round, from position `i` on, form a subsequence of the
/// positions from `i` on.
proof fn lemma_prune_round_from_subsequence(s: Seq<Seq<char>>, authored: Set<Seq<char>>, i: int)
    requires
        0 <= i <= s.len(),
    ensures
        is_subsequence_of(prune_round_from(s, authored, i), s.skip(i)),
    decreases s.len() - i,
{
    if i < s.len() {
        lemma_prune_round_from_subsequence(s, authored, i + 1);
        let tail = prune_round_from(s, authored, i + 1);
        assert(s.skip(i).skip(1) =~= s.skip(i + 1));
        if survives(s, authored, i) {
            let x = seq![s[i]] + tail;
            assert(x[0] == s.skip(i)[0]);
            assert(x.skip(1) =~= tail);
        }
    }
}

/// Law: the filter's output, when it is produced, is an order-preserving
/// subsequence of the (deduplicated) cluster it was given.
pub proof fn lemma_fixed_point_subsequence(s: Seq<Seq<char>>, authored: Set<Seq<char>>)
    ensures
        is_subsequence_of(prune_fixed_point(s, authored), s),
    decreases s.len(),
{
    let r = prune_round(s, authored);
    lemma_prune_round_from_len(s, authored, 0);
    lemma_prune_round_from_subsequence(s, authored, 0);
    assert(s.skip(0) =~= s);
    if r.len() == s.len() {
        lemma_subsequence_refl(s);
    } else {
        lemma_fixed_point_subsequence(r, authored);
        lemma_subsequence_trans(prune_fixed_point(r, authored), r, s);
    }
}

/// The converged sequence really is a fixed point: one more round removes
/// nothing from it.
proof fn lemma_round_of_fixed_point(s: Seq<Seq<char>>, authored: Set<Seq<char>>)
    ensures
        prune_round(prune_fixed_point(s, authored), authored) == prune_fixed_point(s, authored),
    decreases s.len(),
{
    let r = prune_round(s, authored);
    lemma_prune_round_from_len(s, authored, 0);
    if r.len() == s.len() {
        lemma_prune_round_from_full(s, authored, 0);
        assert(s.skip(0) =~= s);
    } else {
        lemma_round_of_fixed_point(r, authored);
    }
}

/// Law: the filter is idempotent at its fixed point — pruning an already
/// converged sequence to a fixed point again changes nothing.
pub proof fn lemma_fixed_point_idempotent(s: Seq<Seq<char>>, authored: Set<Seq<char>>)
    ensures
        prune_fixed_point(prune_fixed_point(s, authored), authored) == prune_fixed_point(
            s,
            authored,
        ),
{
    lemma_round_of_fixed_point(s, authored);
}

/// A round over a sequence whose examined suffix survives entirely keeps
/// that suffix as it is.
proof fn lemma_prune_round_from_all_survive(s: Seq<Seq<char>>, authored: Set<Seq<char>>, i: int)
    requires
        0 <= i <= s.len(),
        forall|j: int| i <= j < s.len() ==> survives(s, authored, j),
    ensures
        prune_round_from(s, authored, i) == s.skip(i),
    decreases s.len() - i,
{
    if i >= s.len() {
        assert(prune_round_from(s, authored, i) =~= s.skip(i));
    } else {
        lemma_prune_round_from_all_survive(s, authored, i + 1);
        assert(seq![s[i]] + s.skip(i + 1) =~= s.skip(i));
    }
}

/// Law: a cluster disjoint from the authorship set converges unchanged, and
/// is rejected, because its converged remainder holds no account-authored
/// message.
pub proof fn lemma_disjoint_cluster_rejected(s: Seq<Seq<char>>, authored: Set<Seq<char>>)
    requires
        forall|i: int| 0 <= i < s.len() ==> !authored.contains(s[i]),
    ensures
        prune_fixed_point(s, authored) == s,
        !contains_authored(prune_fixed_point(s, authored), authored),
{
    lemma_prune_round_from_all_survive(s, authored, 0);
    assert(s.skip(0) =~= s);
}

/// Whether any message at a position in `lo <= j < hi` is not authored by
/// the account.
fn has_external_in(v: &Vec<String>, authored: &AuthorSet, lo: usize, hi: usize) -> (b: bool)
    requires
        lo <= hi <= v.len(),
    ensures
        b == exists|j: int| lo <= j < hi && !authored@.contains(v.deep_view()[j]),
{
    let ghost s = v.deep_view();
    let mut j: usize = lo;
    while j < hi
        invariant
            lo <= j <= hi <= v.len(),
            s == v.deep_view(),
            forall|k: int| lo <= k < j ==> authored@.contains(s[k]),
        decreases hi - j,
    {
        let authored_here = authored.contains(&v[j]);
        proof {
            assert(s[j as int] == v@[j as int]@);
        }
        if !authored_here {
            return true;
        }
        j += 1;
    }
    false
}

/// One pruning round, as executable code: the survivors of `v`, in order.
fn one_round(v: &Vec<String>, authored: &AuthorSet) -> (out: Vec<String>)
    ensures
        out.deep_view() == prune_round(v.deep_view(), authored@),
{
    let ghost s = v.deep_view();
    let mut out: Vec<String> = Vec::new();
    let mut i: usize = 0;
    proof {
        assert(Seq::<Seq<char>>::empty() + prune_round_from(s, authored@, 0) =~= prune_round(
            s,
            authored@,
        ));
        assert(out.deep_view() =~= Seq::<Seq<char>>::empty());
    }
    while i < v.len()
        invariant
            i <= v.len(),
            s == v.deep_view(),
            prune_round(s, authored@) == out.deep_view() + prune_round_from(s, authored@, i as int),
        decreases v.len() - i,
    {
        let ghost out_before = out.deep_view();
        let mi: &String = &v[i];
        proof {
            assert(s[i as int] == v@[i as int]@);
        }
        let keep: bool = if authored.contains(mi) {
            let before = has_external_in(v, authored, 0, i);
            let after = has_external_in(v, authored, i + 1, v.len());
            before && after
        } else {
            true
        };
        proof {
            assert(keep == survives(s, authored@, i as int));
        }
        if keep {
            out.push(mi.clone());
            proof {
                assert(out.deep_view() =~= out_before.push(s[i as int]));
                assert(out_before.push(s[i as int]) + prune_round_from(s, authored@, i + 1)
                    =~= out_before + (seq![s[i as int]] + prune_round_from(s, authored@, i + 1)));
            }
        }
        i += 1;
    }
    proof {
        assert(out.deep_view() + prune_round_from(s, authored@, v.len() as int) =~= out.deep_view());
    }
    out
}

/// Whether any message of `v` is account-authored.
fn contains_any_authored(v: &Vec<String>, authored: &AuthorSet) -> (b: bool)
    ensures
        b == contains_authored(v.deep_view(), authored@),
{
    let ghost s = v.deep_view();
    let mut i: usize = 0;
    while i < v.len()
        invariant
            i <= v.len(),
            s == v.deep_view(),
            forall|j: int| 0 <= j < i ==> !authored@.contains(s[j]),
        decreases v.len() - i,
    {
        let authored_here = authored.contains(&v[i]);
        proof {
            assert(s[i as int] == v@[i as int]@);
        }
        if authored_here {
            return true;
        }
        i += 1;
    }
    false
}

/// Filter one deduplicated cluster down to its valid conversation.
///
/// Pruning rounds are run to their fixed point; the converged sequence is
/// returned unless it holds no account-authored message at all, in which
/// case the cluster contains no valid conversation and `None` is returned.
/// An empty cluster yields `None` immediately.
pub fn valid_conversation(conversation: &Vec<String>, authored: &AuthorSet) -> (r: Option<
    Vec<String>,
>)
    ensures
        match r {
            Some(v) => contains_authored(
                prune_fixed_point(conversation.deep_view(), authored@),
                authored@,
            ) && v.deep_view() == prune_fixed_point(conversation.deep_view(), authored@),
            None => !contains_authored(
                prune_fixed_point(conversation.deep_view(), authored@),
                authored@,
            ),
        },
{
    let ghost orig = conversation.deep_view();
    let mut cur: Vec<String> = one_round(conversation, authored);
    proof {
        lemma_prune_round_from_len(orig, authored@, 0);
        assert(cur.deep_view().len() == cur.len());
        assert(orig.len() == conversation.len());
        if cur.len() == conversation.len() {
            lemma_prune_round_from_full(orig, authored@, 0);
            assert(orig.skip(0) =~= orig);
        }
        assert(prune_fixed_point(orig, authored@) == prune_fixed_point(cur.deep_view(), authored@));
    }
    let mut done = false;
    while !done
        invariant
            prune_fixed_point(orig, authored@) == prune_fixed_point(cur.deep_view(), authored@),
            done ==> prune_round(cur.deep_view(), authored@).len() == cur.deep_view().len(),
        decreases cur.len() + (if done {
            0int
        } else {
            1int
        }),
    {
        let next = one_round(&cur, authored);
        proof {
            lemma_prune_round_from_len(cur.deep_view(), authored@, 0);
            assert(next.deep_view().len() == next.len());
            assert(cur.deep_view().len() == cur.len());
        }
        if next.len() == cur.len() {
            done = true;
        } else {
            cur = next;
        }
    }
    proof {
        assert(prune_fixed_point(cur.deep_view(), authored@) == cur.deep_view());
        assert(cur.deep_view() == prune_fixed_point(orig, authored@));
    }
    if contains_any_authored(&cur, authored) {
        Some(cur)
    } else {
        None
    }
}

} // verus!
