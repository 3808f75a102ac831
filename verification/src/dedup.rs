//! First-occurrence deduplication of a cluster.
//!
//! The component-discovery step can hand the same message identifier to a
//! cluster more than once; before filtering, repeats are removed while the
//! insertion order of first appearances is preserved. The ordered-set
//! behaviour is spelled out here as an explicit abstraction: an append-only
//! output sequence plus a membership test against what was already kept.

use vstd::prelude::*;

verus! {

/// The elements of `s` from position `i` on whose value has not already
/// appeared at any earlier position of `s`.
pub open spec fn dedup_from<T>(s: Seq<T>, i: int) -> Seq<T>
    decreases s.len() - i,
{
    if i < 0 || i >= s.len() {
        Seq::empty()
    } else if s.subrange(0, i).contains(s[i]) {
        dedup_from(s, i + 1)
    } else {
        seq![s[i]] + dedup_from(s, i + 1)
    }
}

/// `s` with every repeated element removed: the first occurrence of each
/// value is kept, at the order of first occurrences.
pub open spec fn dedup_first<T>(s: Seq<T>) -> Seq<T> {
    dedup_from(s, 0)
}

/// An element of the deduplicated suffix from `i` on occurs in `s` at or
/// after position `i`, and nowhere before position `i`.
proof fn lemma_dedup_from_membership<T>(s: Seq<T>, i: int)
    requires
        0 <= i <= s.len(),
    ensures
        forall|x: T| #[trigger]
            dedup_from(s, i).contains(x) <==> ((exists|j: int| i <= j < s.len() && s[j] == x)
                && !s.subrange(0, i).contains(x)),
    decreases s.len() - i,
{
    if i >= s.len() {
    } else {
        lemma_dedup_from_membership(s, i + 1);
        assert(s.subrange(0, i + 1) =~= s.subrange(0, i).push(s[i]));
        let d = dedup_from(s, i);
        let t = dedup_from(s, i + 1);
        assert forall|x: T| #[trigger]
            d.contains(x) <==> ((exists|j: int| i <= j < s.len() && s[j] == x) && !s.subrange(
                0,
                i,
            ).contains(x)) by {
            if s.subrange(0, i).contains(s[i]) {
                assert(d == t);
                if x == s[i] {
                    assert(s.subrange(0, i + 1).contains(x));
                    assert(!t.contains(x));
                } else {
                    if t.contains(x) {
                        assert(!s.subrange(0, i + 1).contains(x));
                        assert forall|j: int| 0 <= j < i implies #[trigger] s.subrange(0, i)[j] != x by {
                            assert(s.subrange(0, i + 1)[j] == s.subrange(0, i)[j]);
                        }
                    }
                    if (exists|j: int| i <= j < s.len() && s[j] == x) && !s.subrange(0, i).contains(
                        x,
                    ) {
                        let j = choose|j: int| i <= j < s.len() && s[j] == x;
                        assert(i + 1 <= j);
                        assert forall|m: int| 0 <= m < i + 1 implies #[trigger] s.subrange(0, i + 1)[m]
                            != x by {
                            if m < i {
                                assert(s.subrange(0, i)[m] == s.subrange(0, i + 1)[m]);
                            }
                        }
                        assert(t.contains(x));
                    }
                }
            } else {
                assert(d == seq![s[i]] + t);
                if x == s[i] {
                    assert(d[0] == x);
                    assert(d.contains(x));
                } else {
                    if d.contains(x) {
                        let m = choose|m: int| 0 <= m < d.len() && #[trigger] d[m] == x;
                        assert(m >= 1);
                        assert(t[m - 1] == x);
                        assert(t.contains(x));
                    }
                    if t.contains(x) {
                        let m = choose|m: int| 0 <= m < t.len() && #[trigger] t[m] == x;
                        assert(d[m + 1] == x);
                        assert(d.contains(x));
                    }
                    if t.contains(x) {
                        assert(!s.subrange(0, i + 1).contains(x));
                        assert forall|j: int| 0 <= j < i implies #[trigger] s.subrange(0, i)[j] != x by {
                            assert(s.subrange(0, i + 1)[j] == s.subrange(0, i)[j]);
                        }
                    }
                    if (exists|j: int| i <= j < s.len() && s[j] == x) && !s.subrange(0, i).contains(
                        x,
                    ) {
                        let j = choose|j: int| i <= j < s.len() && s[j] == x;
                        assert(i + 1 <= j);
                        assert forall|m: int| 0 <= m < i + 1 implies #[trigger] s.subrange(0, i + 1)[m]
                            != x by {
                            if m < i {
                                assert(s.subrange(0, i)[m] == s.subrange(0, i + 1)[m]);
                            }
                        }
                        assert(t.contains(x));
                    }
                }
            }
        }
    }
}

proof fn lemma_dedup_from_no_duplicates<T>(s: Seq<T>, i: int)
    requires
        0 <= i <= s.len(),
    ensures
        dedup_from(s, i).no_duplicates(),
    decreases s.len() - i,
{
    if i < s.len() {
        lemma_dedup_from_no_duplicates(s, i + 1);
        let t = dedup_from(s, i + 1);
        if !s.subrange(0, i).contains(s[i]) {
            lemma_dedup_from_membership(s, i + 1);
            assert(!t.contains(s[i])) by {
                assert(s.subrange(0, i + 1)[i] == s[i]);
            }
            let d = seq![s[i]] + t;
            assert forall|m1: int, m2: int|
                0 <= m1 < d.len() && 0 <= m2 < d.len() && m1 != m2 implies d[m1] != d[m2] by {
                if m1 == 0 && d[m2] == s[i] {
                    assert(t[m2 - 1] == s[i]);
                    assert(t.contains(s[i]));
                } else if m2 == 0 && d[m1] == s[i] {
                    assert(t[m1 - 1] == s[i]);
                    assert(t.contains(s[i]));
                } else if m1 >= 1 && m2 >= 1 {
                    assert(d[m1] == t[m1 - 1]);
                    assert(d[m2] == t[m2 - 1]);
                }
            }
        }
    }
}

/// Law (data-model invariant): after deduplication every identifier of a
/// cluster is unique, and exactly the identifiers of the cluster remain.
pub proof fn lemma_dedup_first_unique<T>(s: Seq<T>)
    ensures
        dedup_first(s).no_duplicates(),
        forall|x: T| #[trigger] dedup_first(s).contains(x) <==> s.contains(x),
{
    lemma_dedup_from_no_duplicates(s, 0);
    lemma_dedup_from_membership(s, 0);
    assert(s.subrange(0, 0) =~= Seq::<T>::empty());
    assert forall|x: T| #[trigger] dedup_first(s).contains(x) <==> s.contains(x) by {
        assert(!s.subrange(0, 0).contains(x));
    }
}

/// Whether `v` holds a message identifier equal to `m`.
fn contains_message(v: &Vec<String>, m: &String) -> (b: bool)
    ensures
        b == v.deep_view().contains(m@),
{
    let ghost dv = v.deep_view();
    let mut i: usize = 0;
    while i < v.len()
        invariant
            i <= v.len(),
            dv == v.deep_view(),
            forall|j: int| 0 <= j < i ==> dv[j] != m@,
        decreases v.len() - i,
    {
        let x: &String = &v[i];
        proof {
            assert(dv[i as int] == v@[i as int]@);
        }
        if x.eq(m) {
            proof {
                assert(dv.contains(m@));
            }
            return true;
        }
        i += 1;
    }
    false
}

/// Remove repeated message identifiers from a cluster, keeping the first
/// occurrence of each and the insertion order of the first occurrences.
pub fn dedup_messages(cluster: &Vec<String>) -> (r: Vec<String>)
    ensures
        r.deep_view() == dedup_first(cluster.deep_view()),
{
    let ghost s = cluster.deep_view();
    let mut out: Vec<String> = Vec::new();
    let mut i: usize = 0;
    proof {
        assert(out.deep_view() =~= Seq::<Seq<char>>::empty());
        assert(Seq::<Seq<char>>::empty() + dedup_from(s, 0) =~= dedup_first(s));
        assert(s.subrange(0, 0) =~= Seq::<Seq<char>>::empty());
    }
    while i < cluster.len()
        invariant
            i <= cluster.len(),
            s == cluster.deep_view(),
            dedup_first(s) == out.deep_view() + dedup_from(s, i as int),
            forall|x: Seq<char>|
                #[trigger] out.deep_view().contains(x) <==> s.subrange(0, i as int).contains(x),
        decreases cluster.len() - i,
    {
        let ghost out_before = out.deep_view();
        let mi: &String = &cluster[i];
        proof {
            assert(s[i as int] == cluster@[i as int]@);
            assert(s.subrange(0, i + 1) =~= s.subrange(0, i as int).push(s[i as int]));
        }
        let seen = contains_message(&out, mi);
        if !seen {
            out.push(mi.clone());
            proof {
                assert(out.deep_view() =~= out_before.push(s[i as int]));
                assert(out_before.push(s[i as int]) + dedup_from(s, i + 1) =~= out_before + (seq![
                    s[i as int],
                ] + dedup_from(s, i + 1)));
                assert forall|x: Seq<char>| #[trigger]
                    out.deep_view().contains(x) <==> s.subrange(0, i + 1).contains(x) by {
                    assert(out.deep_view() == out_before.push(s[i as int]));
                    if out.deep_view().contains(x) {
                        let j = choose|j: int|
                            0 <= j < out.deep_view().len() && #[trigger] out.deep_view()[j] == x;
                        if j < out_before.len() {
                            assert(out_before.contains(x));
                        } else {
                            assert(x == s[i as int]);
                            assert(s.subrange(0, i + 1)[i as int] == s[i as int]);
                        }
                        assert(s.subrange(0, i + 1).contains(x));
                    }
                    if s.subrange(0, i + 1).contains(x) {
                        let j = choose|j: int| 0 <= j < i + 1 && #[trigger] s.subrange(0, i + 1)[j] == x;
                        if j < i {
                            assert(s.subrange(0, i as int).contains(x));
                            assert(out_before.contains(x));
                            let k = choose|k: int|
                                0 <= k < out_before.len() && #[trigger] out_before[k] == x;
                            assert(out.deep_view()[k] == x);
                        } else {
                            assert(out.deep_view()[out_before.len() as int] == x);
                        }
                        assert(out.deep_view().contains(x));
                    }
                }
            }
        } else {
            proof {
                assert(s.subrange(0, i as int).contains(s[i as int]));
                assert forall|x: Seq<char>| #[trigger]
                    out.deep_view().contains(x) <==> s.subrange(0, i + 1).contains(x) by {
                    if s.subrange(0, i + 1).contains(x) {
                        let j = choose|j: int| 0 <= j < i + 1 && #[trigger] s.subrange(0, i + 1)[j] == x;
                        if j < i {
                            assert(s.subrange(0, i as int).contains(x));
                        } else {
                            assert(x == s[i as int]);
                        }
                    }
                    if s.subrange(0, i as int).contains(x) {
                        let j = choose|j: int| 0 <= j < i && #[trigger] s.subrange(0, i as int)[j] == x;
                        assert(s.subrange(0, i + 1)[j] == x);
                    }
                }
            }
        }
        i += 1;
    }
    proof {
        assert(out.deep_view() + dedup_from(s, cluster.len() as int) =~= out.deep_view());
    }
    out
}

} // verus!
