//! Entry metadata: named JSON values kept in the byte order of their names,
//! each name once, as an ordered map keeps them.

use vstd::prelude::*;

use crate::rollout::json::{json_view, JsonData, JsonValue};
use crate::text::{lemma_text_lt_order, str_eq, str_lt, text_lt};

verus! {

/// Whether the names of `s` are strictly increasing in byte order.
pub open spec fn names_sorted(s: Seq<(String, JsonValue)>) -> bool {
    forall|i: int, j: int| 0 <= i < j < s.len() ==> text_lt(#[trigger] s[i].0@, #[trigger] s[j].0@)
}

/// Whether no name of `s` occurs twice.
pub open spec fn names_distinct(s: Seq<(String, JsonValue)>) -> bool {
    forall|i: int, j: int| 0 <= i < s.len() && 0 <= j < s.len() && i != j ==> #[trigger] s[i].0@ != #[trigger] s[j].0@
}

/// Whether `s` holds the name `k`.
pub open spec fn holds_name(s: Seq<(String, JsonValue)>, k: Seq<char>) -> bool {
    exists|i: int| 0 <= i < s.len() && #[trigger] s[i].0@ == k
}

/// The map from names to values that `s` holds.
pub open spec fn pairs_map(s: Seq<(String, JsonValue)>) -> Map<Seq<char>, JsonData> {
    Map::new(
        |k: Seq<char>| holds_name(s, k),
        |k: Seq<char>| json_view(s[choose|i: int| 0 <= i < s.len() && #[trigger] s[i].0@ == k].1),
    )
}

/// With distinct names, the map gives each held name the value stored with it.
pub proof fn lemma_pairs_map_at(s: Seq<(String, JsonValue)>, i: int)
    requires
        names_distinct(s),
        0 <= i < s.len(),
    ensures
        pairs_map(s).dom().contains(s[i].0@),
        pairs_map(s)[s[i].0@] == json_view(s[i].1),
{
    let k = s[i].0@;
    assert(holds_name(s, k));
    let j = choose|j: int| 0 <= j < s.len() && #[trigger] s[j].0@ == k;
    assert(j == i);
}

/// Sorted names are distinct.
pub proof fn lemma_sorted_distinct(s: Seq<(String, JsonValue)>)
    requires
        names_sorted(s),
    ensures
        names_distinct(s),
{
    assert forall|i: int, j: int| 0 <= i < s.len() && 0 <= j < s.len() && i != j implies #[trigger] s[i].0@
        != #[trigger] s[j].0@ by {
        if i < j {
            lemma_text_lt_order(s[i].0@, s[j].0@, s[j].0@);
        } else {
            lemma_text_lt_order(s[j].0@, s[i].0@, s[i].0@);
        }
    }
}

/// Entry metadata, its names in byte order.
#[derive(Debug)]
pub struct Metadata {
    pub pairs: Vec<(String, JsonValue)>,
}

impl View for Metadata {
    type V = Map<Seq<char>, JsonData>;

    open spec fn view(&self) -> Map<Seq<char>, JsonData> {
        pairs_map(self.pairs@)
    }
}

/// Pairs with the same names and values, position by position, hold the
/// same map.
pub proof fn lemma_pairs_map_same(a: Seq<(String, JsonValue)>, b: Seq<(String, JsonValue)>)
    requires
        a.len() == b.len(),
        names_distinct(a),
        forall|i: int| 0 <= i < a.len() ==> (#[trigger] a[i]).0@ == b[i].0@ && json_view(a[i].1) == json_view(b[i].1),
    ensures
        pairs_map(a) == pairs_map(b),
        names_distinct(b),
{
    assert forall|i: int, j: int| 0 <= i < b.len() && 0 <= j < b.len() && i != j implies #[trigger] b[i].0@
        != #[trigger] b[j].0@ by {
        assert(a[i].0@ == b[i].0@ && a[j].0@ == b[j].0@);
    }
    assert forall|k: Seq<char>| #[trigger] holds_name(a, k) == holds_name(b, k) by {
        if holds_name(a, k) {
            let i = choose|i: int| 0 <= i < a.len() && #[trigger] a[i].0@ == k;
            assert(b[i].0@ == k);
        }
        if holds_name(b, k) {
            let i = choose|i: int| 0 <= i < b.len() && #[trigger] b[i].0@ == k;
            assert(a[i].0@ == k);
        }
    }
    assert forall|k: Seq<char>| #[trigger] pairs_map(a).dom().contains(k) implies pairs_map(a)[k] == pairs_map(b)[k] by {
        let i = choose|i: int| 0 <= i < a.len() && #[trigger] a[i].0@ == k;
        lemma_pairs_map_at(a, i);
        assert(b[i].0@ == k);
        lemma_pairs_map_at(b, i);
    }
    assert(pairs_map(a) =~= pairs_map(b));
}

impl Metadata {
    /// A copy of the metadata.
    pub fn duplicate(&self) -> (r: Metadata)
        requires
            self.wf(),
        ensures
            r@ == self@,
            r.wf(),
            r.pairs@.len() == self.pairs@.len(),
    {
        let mut pairs: Vec<(String, JsonValue)> = Vec::new();
        let mut i: usize = 0;
        while i < self.pairs.len()
            invariant
                i <= self.pairs@.len(),
                pairs@.len() == i,
                forall|j: int| 0 <= j < i ==> (#[trigger] pairs@[j]).0@ == self.pairs@[j].0@ && json_view(pairs@[j].1)
                    == json_view(self.pairs@[j].1),
            decreases self.pairs@.len() - i,
        {
            let v = self.pairs[i].1.duplicate();
            pairs.push((self.pairs[i].0.clone(), v));
            i = i + 1;
        }
        let r = Metadata { pairs };
        proof {
            {
                lemma_sorted_distinct(self.pairs@);
                lemma_pairs_map_same(self.pairs@, r.pairs@);
                assert forall|i: int, j: int| 0 <= i < j < r.pairs@.len() implies text_lt(
                    #[trigger] r.pairs@[i].0@,
                    #[trigger] r.pairs@[j].0@,
                ) by {
                    assert(self.pairs@[i].0@ == r.pairs@[i].0@ && self.pairs@[j].0@ == r.pairs@[j].0@);
                }
            }
        }
        r
    }

    /// Names strictly increasing, so each occurs once.
    pub open spec fn wf(&self) -> bool {
        names_sorted(self.pairs@)
    }

    /// Metadata with nothing in it.
    pub fn new() -> (r: Metadata)
        ensures
            r.wf(),
            r@ == Map::<Seq<char>, JsonData>::empty(),
            r.pairs@.len() == 0,
    {
        let r = Metadata { pairs: Vec::new() };
        assert(r@ =~= Map::<Seq<char>, JsonData>::empty());
        r
    }

    /// The value named `key`.
    pub fn get(&self, key: &str) -> (r: Option<&JsonValue>)
        requires
            self.wf(),
        ensures
            match r {
                Some(v) => self@.dom().contains(key@) && self@[key@] == json_view(*v),
                None => !self@.dom().contains(key@),
            },
    {
        proof {
            lemma_sorted_distinct(self.pairs@);
        }
        let mut i: usize = 0;
        while i < self.pairs.len()
            invariant
                i <= self.pairs@.len(),
                names_distinct(self.pairs@),
                forall|j: int| 0 <= j < i ==> #[trigger] self.pairs@[j].0@ != key@,
            decreases self.pairs@.len() - i,
        {
            if str_eq(self.pairs[i].0.as_str(), key) {
                proof {
                    lemma_pairs_map_at(self.pairs@, i as int);
                }
                return Some(&self.pairs[i].1);
            }
            i = i + 1;
        }
        None
    }

    /// Sets the value named `key`, replacing one that was there.
    pub fn insert(&mut self, key: &str, value: JsonValue)
        requires
            old(self).wf(),
        ensures
            final(self).wf(),
            final(self)@ == old(self)@.insert(key@, json_view(value)),
    {
        let ghost s = self.pairs@;
        proof {
            lemma_sorted_distinct(s);
        }
        let mut p: usize = 0;
        while p < self.pairs.len() && str_lt(self.pairs[p].0.as_str(), key)
            invariant
                p <= s.len(),
                self.pairs@ == s,
                forall|j: int| 0 <= j < p ==> text_lt(#[trigger] s[j].0@, key@),
            decreases s.len() - p,
        {
            p = p + 1;
        }
        let ghost old_map = pairs_map(s);
        if p < self.pairs.len() && str_eq(self.pairs[p].0.as_str(), key) {
            let k = self.pairs[p].0.clone();
            self.pairs.set(p, (k, value));
            let ghost t = self.pairs@;
            proof {
                assert forall|i: int, j: int| 0 <= i < j < t.len() implies text_lt(#[trigger] t[i].0@,
                    #[trigger] t[j].0@) by {
                    assert(t[i].0@ == s[i].0@);
                    assert(t[j].0@ == s[j].0@);
                }
                lemma_sorted_distinct(t);
                assert forall|x: Seq<char>| #[trigger] holds_name(t, x) == old_map.insert(key@, json_view(value)).dom().contains(x) by {
                    if holds_name(t, x) {
                        let i = choose|i: int| 0 <= i < t.len() && #[trigger] t[i].0@ == x;
                        assert(s[i].0@ == x);
                    }
                    if old_map.dom().contains(x) {
                        let i = choose|i: int| 0 <= i < s.len() && #[trigger] s[i].0@ == x;
                        assert(t[i].0@ == x);
                    }
                    if x == key@ {
                        assert(t[p as int].0@ == x);
                    }
                }
                assert forall|x: Seq<char>| #[trigger] pairs_map(t).dom().contains(x) implies pairs_map(t)[x]
                    == old_map.insert(key@, json_view(value))[x] by {
                    let i = choose|i: int| 0 <= i < t.len() && #[trigger] t[i].0@ == x;
                    lemma_pairs_map_at(t, i);
                    if i != p {
                        assert(s[i] == t[i]);
                        lemma_pairs_map_at(s, i);
                    }
                }
                assert(pairs_map(t) =~= old_map.insert(key@, json_view(value)));
            }
        } else {
            proof {
                if p < s.len() {
                    lemma_text_lt_order(s[p as int].0@, key@, key@);
                    lemma_text_lt_order(key@, s[p as int].0@, s[p as int].0@);
                }
            }
            self.pairs.insert(p, (key.to_string(), value));
            let ghost t = self.pairs@;
            proof {
                assert(t[p as int].0@ == key@);
                assert forall|i: int, j: int| 0 <= i < j < t.len() implies text_lt(#[trigger] t[i].0@,
                    #[trigger] t[j].0@) by {
                    if j < p {
                        assert(t[i] == s[i] && t[j] == s[j]);
                    } else if j == p {
                        assert(t[i] == s[i]);
                    } else if i == p {
                        assert(t[j] == s[j - 1]);
                        if j - 1 > p {
                            lemma_text_lt_order(key@, s[p as int].0@, s[j - 1].0@);
                        }
                    } else if i < p {
                        assert(t[i] == s[i] && t[j] == s[j - 1]);
                        lemma_text_lt_order(s[i].0@, key@, s[j - 1].0@);
                        if j - 1 > p {
                            lemma_text_lt_order(key@, s[p as int].0@, s[j - 1].0@);
                            lemma_text_lt_order(s[i].0@, key@, s[j - 1].0@);
                        }
                    } else {
                        assert(t[i] == s[i - 1] && t[j] == s[j - 1]);
                    }
                }
                lemma_sorted_distinct(t);
                assert forall|x: Seq<char>| #[trigger] holds_name(t, x) == old_map.insert(key@, json_view(value)).dom().contains(x) by {
                    if holds_name(t, x) {
                        let i = choose|i: int| 0 <= i < t.len() && #[trigger] t[i].0@ == x;
                        if i < p {
                            assert(s[i].0@ == x);
                        } else if i > p {
                            assert(s[i - 1].0@ == x);
                        }
                    }
                    if old_map.dom().contains(x) {
                        let i = choose|i: int| 0 <= i < s.len() && #[trigger] s[i].0@ == x;
                        if i < p {
                            assert(t[i].0@ == x);
                        } else {
                            assert(t[i + 1].0@ == x);
                        }
                    }
                }
                assert forall|x: Seq<char>| #[trigger] pairs_map(t).dom().contains(x) implies pairs_map(t)[x]
                    == old_map.insert(key@, json_view(value))[x] by {
                    let i = choose|i: int| 0 <= i < t.len() && #[trigger] t[i].0@ == x;
                    lemma_pairs_map_at(t, i);
                    if i < p {
                        assert(s[i] == t[i]);
                        lemma_pairs_map_at(s, i);
                    } else if i > p {
                        assert(s[i - 1] == t[i]);
                        lemma_pairs_map_at(s, i - 1);
                    }
                }
                assert(pairs_map(t) =~= old_map.insert(key@, json_view(value)));
            }
        }
    }
}

} // verus!
