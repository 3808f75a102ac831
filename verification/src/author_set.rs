//! The set of message identifiers authored by the account under
//! consideration, used for membership tests by the conversation filter.

use vstd::prelude::*;

verus! {

/// Authorship set of one account run: the message identifiers the account
/// itself posted. Viewed as a `Set` of character sequences.
pub struct AuthorSet {
    items: Vec<String>,
}

impl View for AuthorSet {
    type V = Set<Seq<char>>;

    closed spec fn view(&self) -> Set<Seq<char>> {
        self.items.deep_view().to_set()
    }
}

impl AuthorSet {
    /// An empty authorship set.
    pub fn new() -> (s: Self)
        ensures
            s@ == Set::<Seq<char>>::empty(),
    {
        let s = AuthorSet { items: Vec::new() };
        proof {
            assert(s@ =~= Set::<Seq<char>>::empty());
        }
        s
    }

    /// Add one authored message identifier.
    pub fn insert(&mut self, m: String)
        ensures
            final(self)@ == old(self)@.insert(m@),
    {
        let ghost before = self.items.deep_view();
        self.items.push(m);
        proof {
            assert(self.items.deep_view() =~= before.push(m@));
            before.lemma_push_to_set_commute(m@);
        }
    }

    /// Whether the account authored the given message.
    pub fn contains(&self, m: &String) -> (b: bool)
        ensures
            b == self@.contains(m@),
    {
        let ghost dv = self.items.deep_view();
        let mut i: usize = 0;
        while i < self.items.len()
            invariant
                i <= self.items.len(),
                dv == self.items.deep_view(),
                forall|j: int| 0 <= j < i ==> dv[j] != m@,
            decreases self.items.len() - i,
        {
            let x: &String = &self.items[i];
            if x.eq(m) {
                proof {
                    assert(dv[i as int] == m@);
                    assert(dv.contains(m@));
                }
                return true;
            }
            i += 1;
        }
        proof {
            assert(!dv.contains(m@));
        }
        false
    }
}

} // verus!
