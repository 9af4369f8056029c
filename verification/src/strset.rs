//! A set of strings, kept in ascending order.
use vstd::prelude::*;
use crate::text;

verus! {

/// Strings in strictly ascending order.
pub open spec fn ascending(s: Seq<Seq<char>>) -> bool {
    forall|i: int, j: int| 0 <= i < j < s.len() ==> text::text_less(#[trigger] s[i], #[trigger] s[j])
}

/// A set of strings. Its view is the list of its members in ascending order.
#[derive(Debug, PartialEq, Eq)]
pub struct StrSet {
    items: Vec<String>,
}

impl View for StrSet {
    type V = Seq<Seq<char>>;

    closed spec fn view(&self) -> Seq<Seq<char>> {
        text::texts(self.items@)
    }
}

impl StrSet {
    #[verifier::type_invariant]
    spec fn wf(self) -> bool {
        ascending(text::texts(self.items@))
    }

    pub fn new() -> (r: StrSet)
        ensures
            r@ == Seq::<Seq<char>>::empty(),
    {
        let r = StrSet { items: Vec::new() };
        assert(r@ =~= Seq::<Seq<char>>::empty());
        r
    }

    pub fn len(&self) -> (r: usize)
        ensures
            r == self@.len(),
    {
        self.items.len()
    }

    pub fn is_empty(&self) -> (r: bool)
        ensures
            r == (self@.len() == 0),
    {
        self.items.len() == 0
    }

    /// The members in ascending order.
    pub fn items(&self) -> (r: &Vec<String>)
        ensures
            text::texts(r@) == self@,
            ascending(self@),
    {
        proof {
            use_type_invariant(self);
        }
        &self.items
    }

    pub fn contains(&self, s: &str) -> (r: bool)
        ensures
            r == self@.contains(s@),
    {
        let mut i: usize = 0;
        while i < self.items.len()
            invariant
                i <= self.items.len(),
                forall|k: int| 0 <= k < i ==> #[trigger] self@[k] != s@,
            decreases self.items.len() - i,
        {
            if text::same(self.items[i].as_str(), s) {
                assert(self@[i as int] == s@);
                return true;
            }
            i = i + 1;
        }
        false
    }

    /// Adds a member; one that is there already stays as it is.
    pub fn insert(&mut self, s: String)
        ensures
            ascending(final(self)@),
            final(self)@.to_set() == old(self)@.to_set().insert(s@),
    {
        proof {
            use_type_invariant(&*self);
        }
        let ghost before = text::texts(self.items@);
        let n = self.items.len();
        let mut i: usize = 0;
        while i < n && text::less(self.items[i].as_str(), s.as_str())
            invariant
                n == self.items.len(),
                i <= n,
                before == text::texts(self.items@),
                forall|k: int| 0 <= k < i ==> text::text_less(#[trigger] before[k], s@),
            decreases n - i,
        {
            assert(before[i as int] == self.items@[i as int]@);
            i = i + 1;
        }
        if i < n && text::same(self.items[i].as_str(), s.as_str()) {
            proof {
                assert(before[i as int] == s@);
                assert(before.to_set() =~= before.to_set().insert(s@));
            }
            return;
        }
        let mut items: Vec<String> = Vec::new();
        std::mem::swap(&mut items, &mut self.items);
        let ghost x = s@;
        items.insert(i, s);
        proof {
            let after = text::texts(items@);
            assert(after =~= before.insert(i as int, x));
            if i < n {
                assert(before[i as int] == before[i as int]);
                text::lemma_text_less_total(before[i as int], x);
                assert(text::text_less(x, before[i as int]));
            }
            assert forall|a: int, b: int| 0 <= a < b < after.len() implies text::text_less(
                #[trigger] after[a],
                #[trigger] after[b],
            ) by {
                if b < i {
                    assert(after[a] == before[a] && after[b] == before[b]);
                } else if b == i {
                    assert(after[a] == before[a] && after[b] == x);
                } else if a < i {
                    assert(after[a] == before[a] && after[b] == before[b - 1]);
                } else if a == i {
                    assert(after[a] == x && after[b] == before[b - 1]);
                    if b - 1 > i {
                        assert(text::text_less(before[i as int], before[b - 1]));
                        text::lemma_text_less_transitive(x, before[i as int], before[b - 1]);
                    }
                } else {
                    assert(after[a] == before[a - 1] && after[b] == before[b - 1]);
                }
            }
            assert(after.to_set() =~= before.to_set().insert(x)) by {
                assert forall|y: Seq<char>| #[trigger] after.to_set().contains(y)
                    == before.to_set().insert(x).contains(y) by {
                    if before.contains(y) {
                        let k = choose|k: int| 0 <= k < before.len() && before[k] == y;
                        assert(after[if k < i { k } else { k + 1 }] == y);
                    }
                    if y == x {
                        assert(after[i as int] == y);
                    }
                    if after.contains(y) {
                        let k = choose|k: int| 0 <= k < after.len() && after[k] == y;
                        if k < i {
                            assert(before[k] == y);
                        } else if k > i {
                            assert(before[k - 1] == y);
                        }
                    }
                }
            }
        }
        self.items = items;
    }
}

} // verus!
