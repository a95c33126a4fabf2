//! Label sets: maps from label names to label values, kept as a vector of
//! pairs whose names are distinct.
use vstd::prelude::*;
use crate::model::labels::name_label;
use crate::query::parser::ast::strings_view;
use crate::model::order::{lemma_signature_of, signature_of, sort_by_name, sorted_names};

verus! {

/// The pairs of a vector of string pairs, as character sequences.
pub open spec fn pairs_view(v: Seq<(String, String)>) -> Seq<(Seq<char>, Seq<char>)> {
    v.map_values(|p: (String, String)| (p.0@, p.1@))
}

/// No name occurs twice.
pub open spec fn names_distinct(s: Seq<(Seq<char>, Seq<char>)>) -> bool {
    forall|i: int, j: int| 0 <= i < j < s.len() ==> s[i].0 != s[j].0
}

/// Whether `k` is the name of some pair of `s`.
pub open spec fn has_name(s: Seq<(Seq<char>, Seq<char>)>, k: Seq<char>) -> bool {
    exists|i: int| 0 <= i < s.len() && s[i].0 == k
}

/// The map that the pairs of `s` stand for (with distinct names, each name maps
/// to the value of its pair).
pub open spec fn pairs_map(s: Seq<(Seq<char>, Seq<char>)>) -> Map<Seq<char>, Seq<char>> {
    Map::new(
        |k: Seq<char>| has_name(s, k),
        |k: Seq<char>| s[choose|i: int| 0 <= i < s.len() && s[i].0 == k].1,
    )
}

/// The map of pairs inserted one after the other into `m` (a later pair wins).
pub open spec fn insert_all(m: Map<Seq<char>, Seq<char>>, s: Seq<(Seq<char>, Seq<char>)>) -> Map<Seq<char>, Seq<char>>
    decreases s.len(),
{
    if s.len() == 0 {
        m
    } else {
        insert_all(m, s.drop_last()).insert(s.last().0, s.last().1)
    }
}

/// Which names a label selection keeps: with `listed`, those in `names`;
/// without it, those not in `names`, the metric name excepted.
pub open spec fn keeps(names: Set<Seq<char>>, listed: bool, k: Seq<char>) -> bool {
    if listed {
        names.contains(k)
    } else {
        !names.contains(k) && k != name_label()
    }
}

/// The labels that a selection keeps.
pub open spec fn select(m: Map<Seq<char>, Seq<char>>, names: Set<Seq<char>>, listed: bool) -> Map<Seq<char>, Seq<char>> {
    m.restrict(Set::new(|k: Seq<char>| keeps(names, listed, k)))
}

/// In a sequence with distinct names, the map sends the name of each pair to
/// its value.
pub proof fn lemma_pairs_map_at(s: Seq<(Seq<char>, Seq<char>)>, i: int)
    requires
        names_distinct(s),
        0 <= i < s.len(),
    ensures
        pairs_map(s).contains_key(s[i].0),
        pairs_map(s)[s[i].0] == s[i].1,
{
    let k = s[i].0;
    assert(has_name(s, k));
    let j = choose|j: int| 0 <= j < s.len() && s[j].0 == k;
    if j != i {
        if j < i {
            assert(s[j].0 != s[i].0);
        } else {
            assert(s[i].0 != s[j].0);
        }
    }
}

/// A set of labels: a map from names to values.
#[derive(Debug)]
pub struct Labels {
    entries: Vec<(String, String)>,
}

impl View for Labels {
    type V = Map<Seq<char>, Seq<char>>;

    closed spec fn view(&self) -> Map<Seq<char>, Seq<char>> {
        pairs_map(pairs_view(self.entries@))
    }
}

/// Whether `k` is one of `names`.
fn contains_name(names: &Vec<String>, k: &String) -> (b: bool)
    ensures
        b == strings_view(names@).contains(k@),
{
    let mut i: usize = 0;
    while i < names.len()
        invariant
            i <= names@.len(),
            forall|j: int| 0 <= j < i ==> names@[j]@ != k@,
        decreases names@.len() - i,
    {
        if names[i] == *k {
            assert(strings_view(names@)[i as int] == k@);
            return true;
        }
        i = i + 1;
    }
    proof {
        if strings_view(names@).contains(k@) {
            let j = choose|j: int| 0 <= j < strings_view(names@).len() && strings_view(names@)[j] == k@;
            assert(names@[j]@ == k@);
        }
    }
    false
}

fn is_name_label(k: &String) -> (b: bool)
    ensures
        b == (k@ == name_label()),
{
    *k == "__name__".to_owned()
}

impl Labels {
    #[verifier::type_invariant]
    closed spec fn inv(self) -> bool {
        names_distinct(pairs_view(self.entries@))
    }

    /// The pairs, in their order.
    pub closed spec fn pairs(&self) -> Seq<(Seq<char>, Seq<char>)> {
        pairs_view(self.entries@)
    }

    /// The empty set.
    pub fn new() -> (l: Labels)
        ensures
            l@ == Map::<Seq<char>, Seq<char>>::empty(),
    {
        let l = Labels { entries: Vec::new() };
        assert(l@ =~= Map::<Seq<char>, Seq<char>>::empty());
        l
    }

    /// The index of the pair named `k`, if any.
    fn find(&self, k: &String) -> (r: Option<usize>)
        ensures
            match r {
                Some(i) => i < self.entries@.len() && self.entries@[i as int].0@ == k@,
                None => !has_name(self.pairs(), k@),
            },
    {
        let mut i: usize = 0;
        while i < self.entries.len()
            invariant
                i <= self.entries@.len(),
                forall|j: int| 0 <= j < i ==> self.entries@[j].0@ != k@,
            decreases self.entries@.len() - i,
        {
            if self.entries[i].0 == *k {
                return Some(i);
            }
            i = i + 1;
        }
        proof {
            if has_name(self.pairs(), k@) {
                let j = choose|j: int| 0 <= j < self.pairs().len() && self.pairs()[j].0 == k@;
                assert(self.entries@[j].0@ == k@);
            }
        }
        None
    }

    /// The value of the label named `name`.
    pub fn get(&self, name: &String) -> (r: Option<&String>)
        ensures
            match r {
                Some(v) => self@.contains_key(name@) && self@[name@] == v@,
                None => !self@.contains_key(name@),
            },
    {
        proof { use_type_invariant(self); }
        match self.find(name) {
            Some(i) => {
                proof { lemma_pairs_map_at(self.pairs(), i as int); }
                Some(&self.entries[i].1)
            },
            None => None,
        }
    }

    /// A copy of the set, pair for pair.
    pub fn copied(&self) -> (r: Labels)
        ensures
            r@ == self@,
            r.pairs() == self.pairs(),
    {
        proof { use_type_invariant(self); }
        let mut e: Vec<(String, String)> = Vec::new();
        let mut i: usize = 0;
        while i < self.entries.len()
            invariant
                i <= self.entries@.len(),
                e@.len() == i,
                pairs_view(e@) == self.pairs().take(i as int),
            decreases self.entries@.len() - i,
        {
            let n = self.entries[i].0.clone();
            let v = self.entries[i].1.clone();
            assert(n@ == self.entries@[i as int].0@ && v@ == self.entries@[i as int].1@);
            let ghost before = e@;
            e.push((n, v));
            assert(e@ == before.push((n, v)));
            assert(pairs_view(e@)[i as int] == self.pairs()[i as int]);
            assert forall|j: int| 0 <= j < i implies pairs_view(e@)[j] == self.pairs()[j] by {
                assert(pairs_view(before)[j] == self.pairs().take(i as int)[j]);
                assert(e@[j] == before[j]);
            }
            i = i + 1;
            assert(pairs_view(e@) =~= self.pairs().take(i as int));
        }
        assert(self.pairs().take(i as int) =~= self.pairs());
        Labels { entries: e }
    }

    /// The labels whose names `keeps` selects.
    fn selected(&self, names: &Vec<String>, listed: bool) -> (r: Labels)
        ensures
            r@ == select(self@, strings_view(names@).to_set(), listed),
    {
        proof { use_type_invariant(self); }
        let ghost ns = strings_view(names@).to_set();
        let ghost sv = self.pairs();
        let mut e: Vec<(String, String)> = Vec::new();
        let mut i: usize = 0;
        while i < self.entries.len()
            invariant
                i <= self.entries@.len(),
                sv == self.pairs(),
                names_distinct(sv),
                ns == strings_view(names@).to_set(),
                names_distinct(pairs_view(e@)),
                forall|j: int| #![trigger pairs_view(e@)[j]] 0 <= j < e@.len() ==>
                    keeps(ns, listed, pairs_view(e@)[j].0)
                    && exists|a: int| 0 <= a < i && sv[a] == pairs_view(e@)[j],
                forall|a: int| #![trigger sv[a]] 0 <= a < i && keeps(ns, listed, sv[a].0) ==> has_name(pairs_view(e@), sv[a].0),
            decreases self.entries@.len() - i,
        {
            let listed_here = contains_name(names, &self.entries[i].0);
            let keep = if listed { listed_here } else { !listed_here && !is_name_label(&self.entries[i].0) };
            assert(keep == keeps(ns, listed, sv[i as int].0));
            if keep {
                let ghost before = pairs_view(e@);
                let n = self.entries[i].0.clone();
                let v = self.entries[i].1.clone();
                e.push((n, v));
                let ghost after = pairs_view(e@);
                assert(after =~= before.push(sv[i as int]));
                assert(names_distinct(after)) by {
                    assert forall|a: int, b: int| 0 <= a < b < after.len() implies after[a].0 != after[b].0 by {
                        if b == before.len() {
                            let w = choose|w: int| 0 <= w < i && sv[w] == before[a];
                            assert(sv[w].0 != sv[i as int].0);
                        }
                    }
                }
                assert(after[before.len() as int] == sv[i as int]);
                assert forall|a: int| #![trigger sv[a]] 0 <= a < i + 1 && keeps(ns, listed, sv[a].0) implies has_name(after, sv[a].0) by {
                    if a == i {
                        assert(after[before.len() as int].0 == sv[a].0);
                    } else {
                        let j = choose|j: int| 0 <= j < before.len() && before[j].0 == sv[a].0;
                        assert(after[j].0 == sv[a].0);
                    }
                }
                assert forall|j: int| #![trigger after[j]] 0 <= j < after.len() implies
                    keeps(ns, listed, after[j].0) && exists|a: int| 0 <= a < i + 1 && sv[a] == after[j] by {
                    if j == before.len() {
                        assert(sv[i as int] == after[j]);
                    } else {
                        assert(before[j] == after[j]);
                        let w = choose|w: int| 0 <= w < i && sv[w] == before[j];
                        assert(sv[w] == after[j]);
                    }
                }
            }
            i = i + 1;
        }
        let r = Labels { entries: e };
        proof {
            let ev = pairs_view(e@);
            let target = select(self@, ns, listed);
            assert forall|x: Seq<char>| #![auto] r@.contains_key(x) == target.contains_key(x) by {
                if has_name(ev, x) {
                    let j = choose|j: int| 0 <= j < ev.len() && ev[j].0 == x;
                    assert(ev[j] == ev[j]);
                    let w = choose|w: int| 0 <= w < i && sv[w] == ev[j];
                    assert(sv[w].0 == x);
                    assert(has_name(sv, x));
                }
                if has_name(sv, x) && keeps(ns, listed, x) {
                    let w = choose|w: int| 0 <= w < sv.len() && sv[w].0 == x;
                    assert(sv[w] == sv[w]);
                }
            }
            assert forall|x: Seq<char>| r@.contains_key(x) implies r@[x] == target[x] by {
                let j = choose|j: int| 0 <= j < ev.len() && ev[j].0 == x;
                assert(ev[j] == ev[j]);
                let w = choose|w: int| 0 <= w < i && sv[w] == ev[j];
                lemma_pairs_map_at(ev, j);
                lemma_pairs_map_at(sv, w);
            }
            assert(r@ =~= target);
        }
        r
    }

    /// The labels named in `names` (PromQL `on`/`by`).
    pub fn with(&self, names: &Vec<String>) -> (r: Labels)
        ensures
            r@ == select(self@, strings_view(names@).to_set(), true),
    {
        self.selected(names, true)
    }

    /// The labels not named in `names`, and never the metric name (PromQL
    /// `ignoring`/`without`).
    pub fn without(&self, names: &Vec<String>) -> (r: Labels)
        ensures
            r@ == select(self@, strings_view(names@).to_set(), false),
    {
        self.selected(names, false)
    }

    /// The metric name, if set.
    pub fn name(&self) -> (r: Option<&String>)
        ensures
            match r {
                Some(v) => self@.contains_key(name_label()) && self@[name_label()] == v@,
                None => !self@.contains_key(name_label()),
            },
    {
        let k = "__name__".to_owned();
        self.get(&k)
    }

    /// Sets the metric name.
    pub fn set_name(&mut self, name: String)
        ensures
            final(self)@ == old(self)@.insert(name_label(), name@),
    {
        self.insert("__name__".to_owned(), name);
    }

    /// Removes the metric name.
    pub fn drop_name(&mut self)
        ensures
            final(self)@ == old(self)@.remove(name_label()),
    {
        let none: Vec<String> = Vec::new();
        let r = self.without(&none);
        proof {
            assert(strings_view(none@).to_set() =~= Set::<Seq<char>>::empty());
            assert(r@ =~= old(self)@.remove(name_label()));
        }
        *self = r;
    }

    /// The pairs, in their order; their names are distinct and they stand for
    /// the set.
    pub fn entries(&self) -> (r: &Vec<(String, String)>)
        ensures
            pairs_view(r@) == self.pairs(),
            names_distinct(self.pairs()),
            pairs_map(self.pairs()) == self@,
    {
        proof { use_type_invariant(self); }
        &self.entries
    }

    /// The set of the given pairs, inserted in order (a later pair with the
    /// same name wins).
    pub fn from_pairs(v: Vec<(String, String)>) -> (r: Labels)
        ensures
            r@ == insert_all(Map::empty(), pairs_view(v@)),
    {
        let mut r = Labels::new();
        let ghost all = pairs_view(v@);
        let mut i: usize = 0;
        let n = v.len();
        while i < n
            invariant
                n == v@.len(),
                all == pairs_view(v@),
                i <= n,
                r@ == insert_all(Map::empty(), all.take(i as int)),
            decreases n - i,
        {
            let name = v[i].0.clone();
            let value = v[i].1.clone();
            assert(name@ == all[i as int].0 && value@ == all[i as int].1);
            r.insert(name, value);
            assert(all.take(i + 1).drop_last() =~= all.take(i as int));
            i = i + 1;
        }
        assert(all.take(n as int) =~= all);
        r
    }

    /// Whether the two sets hold the same labels with the same values.
    pub fn same(&self, other: &Labels) -> (b: bool)
        ensures
            b == (self@ == other@),
    {
        proof { use_type_invariant(self); use_type_invariant(other); }
        let mut i: usize = 0;
        while i < self.entries.len()
            invariant
                i <= self.entries@.len(),
                names_distinct(self.pairs()),
                names_distinct(other.pairs()),
                forall|j: int| 0 <= j < i ==> other@.contains_key(#[trigger] self.pairs()[j].0) && other@[self.pairs()[j].0] == self.pairs()[j].1,
            decreases self.entries@.len() - i,
        {
            proof { lemma_pairs_map_at(self.pairs(), i as int); }
            match other.get(&self.entries[i].0) {
                Some(v) => {
                    if !(*v == self.entries[i].1) {
                        return false;
                    }
                },
                None => {
                    return false;
                },
            }
            i = i + 1;
        }
        let mut k: usize = 0;
        while k < other.entries.len()
            invariant
                k <= other.entries@.len(),
                names_distinct(other.pairs()),
                forall|j: int| 0 <= j < k ==> self@.contains_key(#[trigger] other.pairs()[j].0),
            decreases other.entries@.len() - k,
        {
            match self.get(&other.entries[k].0) {
                Some(_) => {},
                None => {
                    proof { lemma_pairs_map_at(other.pairs(), k as int); }
                    return false;
                },
            }
            k = k + 1;
        }
        proof {
            assert forall|x: Seq<char>| #![auto] self@.contains_key(x) == other@.contains_key(x) by {
                if self@.contains_key(x) {
                    let j = choose|j: int| 0 <= j < self.pairs().len() && self.pairs()[j].0 == x;
                    assert(self.pairs()[j].0 == x);
                }
                if other@.contains_key(x) {
                    let j = choose|j: int| 0 <= j < other.pairs().len() && other.pairs()[j].0 == x;
                    assert(other.pairs()[j].0 == x);
                }
            }
            assert forall|x: Seq<char>| self@.contains_key(x) implies self@[x] == other@[x] by {
                let j = choose|j: int| 0 <= j < self.pairs().len() && self.pairs()[j].0 == x;
                assert(self.pairs()[j].0 == x);
                lemma_pairs_map_at(self.pairs(), j);
            }
            assert(self@ =~= other@);
        }
        true
    }

    /// The signature of the set: its pairs sorted by name.
    pub fn to_vec(&self) -> (r: Vec<(String, String)>)
        ensures
            pairs_view(r@) == signature_of(self@),
            sorted_names(pairs_view(r@)),
            pairs_map(pairs_view(r@)) == self@,
    {
        proof { use_type_invariant(self); }
        let r = sort_by_name(&self.entries);
        proof { lemma_signature_of(pairs_view(r@)); }
        r
    }

    /// Sets the label `name` to `value`.
    pub fn insert(&mut self, name: String, value: String)
        ensures
            final(self)@ == old(self)@.insert(name@, value@),
    {
        proof { use_type_invariant(&*self); }
        let ghost old_pairs = self.pairs();
        let ghost k = name@;
        let ghost v = value@;
        let found = self.find(&name);
        let mut e: Vec<(String, String)> = Vec::new();
        std::mem::swap(&mut e, &mut self.entries);
        assert(pairs_view(e@) == old_pairs);
        match found {
            Some(i) => {
                let ghost np = old_pairs.update(i as int, (k, v));
                assert(names_distinct(np)) by {
                    assert forall|a: int, b: int| 0 <= a < b < np.len() implies np[a].0 != np[b].0 by {
                        assert(old_pairs[a].0 != old_pairs[b].0);
                    }
                }
                e.set(i, (name, value));
                assert(pairs_view(e@) =~= np);
                proof {
                    assert(np[i as int].0 == k);
                    assert forall|x: Seq<char>| #![auto] pairs_map(np).contains_key(x) == old_pairs_map_insert(old_pairs, k, v).contains_key(x) by {
                        if x == k {
                            assert(np[i as int].0 == x);
                            assert(has_name(np, x));
                        } else {
                            if has_name(np, x) {
                                let j = choose|j: int| 0 <= j < np.len() && np[j].0 == x;
                                assert(j != i);
                                assert(old_pairs[j].0 == x);
                                assert(has_name(old_pairs, x));
                            }
                            if has_name(old_pairs, x) {
                                let j = choose|j: int| 0 <= j < old_pairs.len() && old_pairs[j].0 == x;
                                assert(j != i);
                                assert(np[j].0 == x);
                                assert(has_name(np, x));
                            }
                        }
                    }
                    assert forall|x: Seq<char>| pairs_map(np).contains_key(x) implies pairs_map(np)[x] == old_pairs_map_insert(old_pairs, k, v)[x] by {
                        if x == k {
                            lemma_pairs_map_at(np, i as int);
                        } else {
                            let j = choose|j: int| 0 <= j < np.len() && np[j].0 == x;
                            assert(j != i);
                            lemma_pairs_map_at(np, j);
                            lemma_pairs_map_at(old_pairs, j);
                        }
                    }
                    assert(pairs_map(np) =~= old_pairs_map_insert(old_pairs, k, v));
                }
                self.entries = e;
            },
            None => {
                assert(names_distinct(old_pairs.push((k, v)))) by {
                    if exists|a: int| 0 <= a < old_pairs.len() && old_pairs[a].0 == k {
                        assert(has_name(old_pairs, k));
                    }
                }
                e.push((name, value));
                let ghost np = pairs_view(e@);
                assert(np =~= old_pairs.push((k, v)));
                proof {
                    assert forall|x: Seq<char>| #![auto] pairs_map(np).contains_key(x) == old_pairs_map_insert(old_pairs, k, v).contains_key(x) by {
                        if has_name(np, x) {
                            let j = choose|j: int| 0 <= j < np.len() && np[j].0 == x;
                            if j < old_pairs.len() { assert(has_name(old_pairs, x)); }
                        }
                        if has_name(old_pairs, x) {
                            let j = choose|j: int| 0 <= j < old_pairs.len() && old_pairs[j].0 == x;
                            assert(np[j].0 == x);
                        }
                        if x == k {
                            assert(np[old_pairs.len() as int].0 == x);
                        }
                    }
                    assert forall|x: Seq<char>| pairs_map(np).contains_key(x) implies pairs_map(np)[x] == old_pairs_map_insert(old_pairs, k, v)[x] by {
                        let j = choose|j: int| 0 <= j < np.len() && np[j].0 == x;
                        lemma_pairs_map_at(np, j);
                        if j < old_pairs.len() {
                            lemma_pairs_map_at(old_pairs, j);
                        }
                    }
                    assert(pairs_map(np) =~= old_pairs_map_insert(old_pairs, k, v));
                }
                self.entries = e;
            },
        }
    }
}

spec fn old_pairs_map_insert(s: Seq<(Seq<char>, Seq<char>)>, k: Seq<char>, v: Seq<char>) -> Map<Seq<char>, Seq<char>> {
    pairs_map(s).insert(k, v)
}


/// `without` never keeps the metric name; `with` keeps it only when it is listed.
pub proof fn law_selection_and_name(m: Map<Seq<char>, Seq<char>>, names: Set<Seq<char>>)
    ensures
        !select(m, names, false).contains_key(name_label()),
        select(m, names, true).contains_key(name_label()) <==> (m.contains_key(name_label()) && names.contains(name_label())),
{
}


/// `with` (listed) keeps exactly the listed labels of a set, with their
/// values; `without` keeps exactly the labels that are not listed, and never
/// the metric name, with their values.
pub proof fn law_selection(m: Map<Seq<char>, Seq<char>>, names: Set<Seq<char>>, k: Seq<char>)
    ensures
        select(m, names, true).contains_key(k) <==> (m.contains_key(k) && names.contains(k)),
        select(m, names, false).contains_key(k) <==> (m.contains_key(k) && !names.contains(k) && k != name_label()),
        select(m, names, true).contains_key(k) ==> select(m, names, true)[k] == m[k],
        select(m, names, false).contains_key(k) ==> select(m, names, false)[k] == m[k],
{
}

} // verus!
