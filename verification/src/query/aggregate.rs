//! Aggregation: the samples of an instant vector are grouped by the labels
//! that `by` keeps (or `without` leaves), and the groups come in the order of
//! their signatures (their label pairs sorted by name, compared pair by pair).
use vstd::prelude::*;
use crate::error::Error;
use crate::model::label_set::{Labels, pairs_view, select};
use crate::model::order::{
    compare_entries, entries_lt, lemma_entries_lt_irrefl, lemma_entries_lt_total,
    lemma_entries_lt_trans, signature_of, Cmp,
};
use crate::query::parser::ast::{AggregateArgument, AggregateModifier, AggregateModifierV, AggregateOp, opt_view};
use crate::query::value::{InstantVector, LabelMap, samples_view};

verus! {

/// The labels that identify the group of a sample.
pub open spec fn group_of(m: LabelMap, modifier: Option<AggregateModifierV>) -> LabelMap {
    match modifier {
        Some(AggregateModifierV::By(names)) => select(m, names, true),
        Some(AggregateModifierV::Without(names)) => select(m, names, false),
        None => select(m, Set::empty(), true),
    }
}

/// Whether a sample belongs to group `g`.
pub open spec fn in_group<V>(modifier: Option<AggregateModifierV>, g: LabelMap) -> spec_fn((LabelMap, V)) -> bool {
    |x: (LabelMap, V)| group_of(x.0, modifier) == g
}

/// The samples of group `g`, in their order.
pub open spec fn members<V>(s: Seq<(LabelMap, V)>, modifier: Option<AggregateModifierV>, g: LabelMap) -> Seq<(LabelMap, V)> {
    s.filter(in_group(modifier, g))
}

/// Sample `i` of `s` has a group in `out`.
pub open spec fn has_group<V>(s: Seq<(LabelMap, V)>, modifier: Option<AggregateModifierV>, out: Seq<(LabelMap, Seq<(LabelMap, V)>)>, i: int) -> bool {
    exists|j: int| #![trigger out[j]] 0 <= j < out.len() && out[j].0 == group_of(s[i].0, modifier)
}

/// `out` is the grouping of `s`: each group holds exactly the samples of its
/// labels, in their order; every sample has a group; the groups come in
/// strictly increasing order of their signatures.
pub open spec fn is_grouping<V>(s: Seq<(LabelMap, V)>, modifier: Option<AggregateModifierV>, out: Seq<(LabelMap, Seq<(LabelMap, V)>)>) -> bool {
    &&& forall|j: int| #![trigger out[j]] 0 <= j < out.len() ==>
        out[j].1 == members(s, modifier, out[j].0) && out[j].1.len() > 0
    &&& forall|i: int| #![trigger s[i]] #![trigger has_group(s, modifier, out, i)] 0 <= i < s.len() ==>
        has_group(s, modifier, out, i)
    &&& forall|j: int, k: int| #![trigger out[j], out[k]] 0 <= j < k < out.len() ==>
        entries_lt(signature_of(out[j].0), signature_of(out[k].0))
}

pub open spec fn groups_view<V>(g: Seq<(Labels, Vec<(Labels, V)>)>) -> Seq<(LabelMap, Seq<(LabelMap, V)>)> {
    g.map_values(|x: (Labels, Vec<(Labels, V)>)| (x.0@, samples_view(x.1@)))
}

/// A group while it is built: its labels, its signature and its samples.
struct Group<V> {
    labels: Labels,
    key: Vec<(String, String)>,
    samples: Vec<(Labels, V)>,
}

spec fn building_view<V>(g: Seq<Group<V>>) -> Seq<(LabelMap, Seq<(LabelMap, V)>)> {
    g.map_values(|x: Group<V>| (x.labels@, samples_view(x.samples@)))
}

spec fn keys_ok<V>(g: Seq<Group<V>>) -> bool {
    forall|j: int| 0 <= j < g.len() ==> pairs_view((#[trigger] g[j]).key@) == signature_of(g[j].labels@)
        && crate::model::label_set::pairs_map(pairs_view(g[j].key@)) == g[j].labels@
}

proof fn lemma_filter_push<A>(s: Seq<A>, x: A, p: spec_fn(A) -> bool)
    ensures
        s.push(x).filter(p) == (if p(x) { s.filter(p).push(x) } else { s.filter(p) }),
{
    reveal_with_fuel(Seq::filter, 1);
    assert(s.push(x).drop_last() =~= s);
}

proof fn lemma_filter_none<A>(s: Seq<A>, p: spec_fn(A) -> bool)
    requires
        forall|i: int| 0 <= i < s.len() ==> !p(#[trigger] s[i]),
    ensures
        s.filter(p) == Seq::<A>::empty(),
    decreases s.len(),
{
    reveal_with_fuel(Seq::filter, 1);
    if s.len() > 0 {
        assert forall|i: int| 0 <= i < s.drop_last().len() implies !p(#[trigger] s.drop_last()[i]) by {
            assert(s.drop_last()[i] == s[i]);
        }
        lemma_filter_none(s.drop_last(), p);
        assert(!p(s.last()));
    }
}


/// Where the group with signature `key` is, or would be inserted.
fn find_group<V>(gs: &Vec<Group<V>>, key: &Vec<(String, String)>) -> (r: (usize, bool))
    ensures
        r.0 <= gs@.len(),
        forall|a: int| 0 <= a < r.0 ==> entries_lt(pairs_view((#[trigger] gs@[a]).key@), pairs_view(key@)),
        r.1 ==> r.0 < gs@.len() && pairs_view(gs@[r.0 as int].key@) == pairs_view(key@),
        !r.1 ==> r.0 == gs@.len() || entries_lt(pairs_view(key@), pairs_view(gs@[r.0 as int].key@)),
{
    let mut j: usize = 0;
    while j < gs.len()
        invariant
            j <= gs@.len(),
            forall|a: int| 0 <= a < j ==> entries_lt(pairs_view((#[trigger] gs@[a]).key@), pairs_view(key@)),
        decreases gs@.len() - j,
    {
        let c = compare_entries(&gs[j].key, key);
        if c == Cmp::Equal {
            return (j, true);
        } else if c == Cmp::Greater {
            return (j, false);
        }
        j = j + 1;
    }
    (j, false)
}


/// The values of some samples.
pub open spec fn values_of<V>(m: Seq<(LabelMap, V)>) -> Seq<V> {
    m.map_values(|p: (LabelMap, V)| p.1)
}

/// `outs` are the running values of a fold of `vals` by `step`: the first
/// value, then `step` of the running value and the next value.
pub open spec fn folds<V, F: Fn(V, V) -> V>(step: F, vals: Seq<V>, outs: Seq<V>) -> bool {
    &&& vals.len() > 0
    &&& outs.len() == vals.len()
    &&& outs[0] == vals[0]
    &&& forall|k: int| 1 <= k < vals.len() ==> call_ensures(step, (outs[k - 1], vals[k]), #[trigger] outs[k])
}

/// The fold of `vals` by `step` may end with `x`.
pub open spec fn folded_to<V, F: Fn(V, V) -> V>(step: F, vals: Seq<V>, x: V) -> bool {
    exists|outs: Seq<V>| #[trigger] folds(step, vals, outs) && x == outs.last()
}

/// The mean by `div` of the sum by `add` of `vals` may be `x`.
pub open spec fn averaged_to<V, F: Fn(V, V) -> V, D: Fn(V, usize) -> V>(add: F, div: D, vals: Seq<V>, x: V) -> bool {
    exists|sum: V| #[trigger] folded_to(add, vals, sum) && call_ensures(div, (sum, vals.len() as usize), x)
}

/// One sample per group: the group's labels and the fold of its values.
pub open spec fn simple_result<V, F: Fn(V, V) -> V>(step: F, out: Seq<(LabelMap, Seq<(LabelMap, V)>)>, res: Seq<(LabelMap, V)>) -> bool {
    &&& res.len() == out.len()
    &&& forall|j: int| 0 <= j < out.len() ==> (#[trigger] res[j]).0 == out[j].0 && folded_to(step, values_of(out[j].1), res[j].1)
}

/// One sample per group: the group's labels and the mean of its values.
pub open spec fn avg_result<V, F: Fn(V, V) -> V, D: Fn(V, usize) -> V>(add: F, div: D, out: Seq<(LabelMap, Seq<(LabelMap, V)>)>, res: Seq<(LabelMap, V)>) -> bool {
    &&& res.len() == out.len()
    &&& forall|j: int| 0 <= j < out.len() ==> (#[trigger] res[j]).0 == out[j].0 && averaged_to(add, div, values_of(out[j].1), res[j].1)
}

/// The fold of the values of a group's samples by `step`.
fn fold_values<V: Copy>(members: &Vec<(Labels, V)>, step: &impl Fn(V, V) -> V) -> (x: V)
    requires
        members@.len() > 0,
        forall|a: V, b: V| call_requires(*step, (a, b)),
    ensures
        folded_to(*step, values_of(samples_view(members@)), x),
{
    let ghost vals = values_of(samples_view(members@));
    let mut acc = members[0].1;
    let ghost mut outs: Seq<V> = seq![acc];
    let mut k: usize = 1;
    while k < members.len()
        invariant
            1 <= k <= members@.len(),
            vals == values_of(samples_view(members@)),
            forall|a: V, b: V| call_requires(*step, (a, b)),
            outs.len() == k,
            outs[0] == vals[0],
            outs.last() == acc,
            forall|i: int| 1 <= i < k ==> call_ensures(*step, (outs[i - 1], vals[i]), #[trigger] outs[i]),
        decreases members@.len() - k,
    {
        let cur = members[k].1;
        assert(cur == vals[k as int]);
        let next = step(acc, cur);
        proof {
            let old_outs = outs;
            outs = outs.push(next);
            assert forall|i: int| 1 <= i < k + 1 implies call_ensures(*step, (outs[i - 1], vals[i]), #[trigger] outs[i]) by {
                if i < k {
                    assert(outs[i] == old_outs[i] && outs[i - 1] == old_outs[i - 1]);
                }
            }
        }
        acc = next;
        k = k + 1;
    }
    assert(folds(*step, vals, outs));
    acc
}

/// `worse` may answer that `a` ranks below `b`.
pub open spec fn ranks_below<V, F: Fn(V, V) -> bool>(worse: F, a: V, b: V) -> bool {
    call_ensures(worse, (a, b), true)
}

/// `worse` may answer that `a` does not rank below `b`.
pub open spec fn not_below<V, F: Fn(V, V) -> bool>(worse: F, a: V, b: V) -> bool {
    call_ensures(worse, (a, b), false)
}

/// On the values `vals`, `worse` is a strict ranking: when `a` ranks below
/// `b`, `b` does not rank below `a`, and "does not rank below" is transitive.
pub open spec fn ranking_consistent<V, F: Fn(V, V) -> bool>(worse: F, vals: Seq<V>) -> bool {
    &&& forall|a: V, b: V| #![trigger ranks_below(worse, a, b)]
        vals.contains(a) && vals.contains(b) && ranks_below(worse, a, b) ==> not_below(worse, b, a)
    &&& forall|a: V, b: V, c: V| #![trigger not_below(worse, a, b), not_below(worse, b, c)]
        vals.contains(a) && vals.contains(b) && vals.contains(c) && not_below(worse, a, b) && not_below(worse, b, c)
            ==> not_below(worse, a, c)
}

/// How many samples of a group `topk`/`bottomk` keeps: `k`, but at least one.
pub open spec fn top_cap(k: nat) -> nat {
    if k == 0 { 1 } else { k }
}

/// `sel` is what `topk`/`bottomk` keeps of `members` by `worse`: as many
/// members as there are, up to the cap, taken from the members; and where
/// `worse` ranks the values consistently, no member that is left out ranks
/// above a kept one.
pub open spec fn top_selection<V, F: Fn(V, V) -> bool>(worse: F, members: Seq<(LabelMap, V)>, k: nat, sel: Seq<(LabelMap, V)>) -> bool {
    &&& sel.len() == if members.len() < top_cap(k) { members.len() } else { top_cap(k) }
    &&& exists|dropped: Seq<(LabelMap, V)>| #[trigger] sel.to_multiset().add(dropped.to_multiset()) == members.to_multiset()
        && (ranking_consistent(worse, values_of(members)) ==>
            forall|a: int, b: int| 0 <= a < sel.len() && 0 <= b < dropped.len() ==> not_below(worse, #[trigger] sel[a].1, #[trigger] dropped[b].1))
}

/// The index of a sample of `buf` that no other ranks below, where `worse`
/// ranks the values of `buf` consistently.
fn worst_index<V: Copy>(buf: &Vec<(Labels, V)>, worse: &impl Fn(V, V) -> bool, Ghost(vals): Ghost<Seq<V>>) -> (w: usize)
    requires
        buf@.len() > 0,
        forall|a: V, b: V| call_requires(*worse, (a, b)),
        forall|t: int| 0 <= t < buf@.len() ==> vals.contains(#[trigger] buf@[t].1),
    ensures
        w < buf@.len(),
        ranking_consistent(*worse, vals) ==>
            forall|t: int| 0 <= t < buf@.len() && t != w ==> not_below(*worse, #[trigger] buf@[t].1, buf@[w as int].1),
{
    let mut w: usize = 0;
    let mut j: usize = 1;
    while j < buf.len()
        invariant
            w < j <= buf@.len(),
            forall|a: V, b: V| call_requires(*worse, (a, b)),
            forall|t: int| 0 <= t < buf@.len() ==> vals.contains(#[trigger] buf@[t].1),
            ranking_consistent(*worse, vals) ==>
                forall|t: int| 0 <= t < j && t != w ==> not_below(*worse, #[trigger] buf@[t].1, buf@[w as int].1),
        decreases buf@.len() - j,
    {
        let below = worse(buf[j].1, buf[w].1);
        if below {
            proof {
                if ranking_consistent(*worse, vals) {
                    let bj = buf@[j as int].1;
                    let bw = buf@[w as int].1;
                    assert(vals.contains(bj) && vals.contains(bw));
                    assert(ranks_below(*worse, bj, bw));
                    assert(not_below(*worse, bw, bj));
                    assert forall|t: int| 0 <= t < j + 1 && t != j implies not_below(*worse, #[trigger] buf@[t].1, bj) by {
                        if t != w {
                            assert(vals.contains(buf@[t].1));
                            assert(not_below(*worse, buf@[t].1, bw));
                        }
                    }
                }
            }
            w = j;
        } else {
            assert(not_below(*worse, buf@[j as int].1, buf@[w as int].1));
        }
        j = j + 1;
    }
    w
}

/// What `topk`/`bottomk` keeps of one group: the members in their order, the
/// buffer capped at `k` (at least one) by dropping a sample that no other
/// ranks below.
fn select_top<V: Copy>(members: &Vec<(Labels, V)>, k: usize, worse: &impl Fn(V, V) -> bool) -> (sel: Vec<(Labels, V)>)
    requires
        forall|a: V, b: V| call_requires(*worse, (a, b)),
    ensures
        top_selection(*worse, samples_view(members@), k as nat, samples_view(sel@)),
{
    let ghost ms = samples_view(members@);
    let ghost vals = values_of(ms);
    let cap: usize = if k == 0 { 1 } else { k };
    let mut buf: Vec<(Labels, V)> = Vec::new();
    let ghost mut dropped: Seq<(LabelMap, V)> = Seq::empty();
    let mut i: usize = 0;
    proof {
        assert(ms.take(0).to_multiset() =~= samples_view(buf@).to_multiset().add(dropped.to_multiset())) by {
            broadcast use vstd::seq_lib::group_to_multiset_ensures;
            assert(ms.take(0) =~= Seq::<(LabelMap, V)>::empty());
            assert(samples_view(buf@) =~= Seq::<(LabelMap, V)>::empty());
        }
    }
    while i < members.len()
        invariant
            i <= members@.len(),
            ms == samples_view(members@),
            vals == values_of(ms),
            cap == top_cap(k as nat),
            forall|a: V, b: V| call_requires(*worse, (a, b)),
            samples_view(buf@).len() == if i < cap { i as nat } else { cap as nat },
            ms.take(i as int).to_multiset() == samples_view(buf@).to_multiset().add(dropped.to_multiset()),
            forall|t: int| 0 <= t < buf@.len() ==> vals.contains(#[trigger] buf@[t].1),
            forall|b: int| 0 <= b < dropped.len() ==> vals.contains(#[trigger] dropped[b].1),
            ranking_consistent(*worse, vals) ==>
                forall|a: int, b: int| 0 <= a < buf@.len() && 0 <= b < dropped.len() ==> not_below(*worse, #[trigger] buf@[a].1, #[trigger] dropped[b].1),
        decreases members@.len() - i,
    {
        let ghost bv0 = samples_view(buf@);
        let ghost b0 = buf@;
        let m = (members[i].0.copied(), members[i].1);
        assert((m.0@, m.1) == ms[i as int]);
        assert(vals[i as int] == m.1);
        buf.push(m);
        proof {
            broadcast use vstd::seq_lib::group_to_multiset_ensures;
            assert(ms.take(i + 1) =~= ms.take(i as int).push(ms[i as int]));
            assert(samples_view(buf@) =~= bv0.push(ms[i as int]));
            assert forall|t: int| 0 <= t < buf@.len() implies vals.contains(#[trigger] buf@[t].1) by {
                if t < b0.len() {
                    assert(buf@[t] == b0[t]);
                }
            }
        }
        if buf.len() > cap {
            let ghost b1 = buf@;
            let w = worst_index(&buf, worse, Ghost(vals));
            let x = buf.remove(w);
            proof {
                broadcast use vstd::seq_lib::group_to_multiset_ensures;
                let xv = (x.0@, x.1);
                let d0 = dropped;
                dropped = dropped.push(xv);
                assert(b1[w as int] == x);
                assert(samples_view(buf@) =~= samples_view(b1).remove(w as int));
                assert(samples_view(b1)[w as int] == xv);
                assert(ms.take(i + 1).to_multiset() =~= samples_view(buf@).to_multiset().add(dropped.to_multiset()));
                assert forall|t: int| 0 <= t < buf@.len() implies vals.contains(#[trigger] buf@[t].1) by {
                    if t < w {
                        assert(buf@[t] == b1[t]);
                    } else {
                        assert(buf@[t] == b1[t + 1]);
                    }
                }
                assert forall|b: int| 0 <= b < dropped.len() implies vals.contains(#[trigger] dropped[b].1) by {
                    if b < d0.len() {
                        assert(dropped[b] == d0[b]);
                    } else {
                        assert(vals.contains(b1[w as int].1));
                    }
                }
                if ranking_consistent(*worse, vals) {
                    assert forall|a: int, b: int| 0 <= a < buf@.len() && 0 <= b < dropped.len()
                        implies not_below(*worse, #[trigger] buf@[a].1, #[trigger] dropped[b].1) by {
                        let t = if a < w { a } else { a + 1 };
                        assert(buf@[a] == b1[t]);
                        assert(t != w);
                        assert(not_below(*worse, b1[t].1, b1[w as int].1));
                        if b == d0.len() {
                            assert(dropped[b].1 == b1[w as int].1);
                        } else {
                            assert(dropped[b] == d0[b]);
                            assert(vals.contains(d0[b].1));
                            if t < b0.len() {
                                assert(b1[t] == b0[t]);
                                assert(not_below(*worse, b0[t].1, d0[b].1));
                            } else {
                                assert(w < b0.len());
                                assert(b1[w as int] == b0[w as int]);
                                assert(not_below(*worse, b0[w as int].1, d0[b].1));
                                assert(vals.contains(b1[t].1));
                                assert(vals.contains(b1[w as int].1));
                            }
                        }
                    }
                }
            }
        } else {
            proof {
                assert(dropped.len() == 0) by {
                    broadcast use vstd::seq_lib::group_to_multiset_ensures;
                    assert(ms.take(i as int).len() == i);
                    assert(ms.take(i as int).to_multiset().len() == bv0.to_multiset().len() + dropped.to_multiset().len());
                }
            }
        }
        i = i + 1;
    }
    assert(ms.take(i as int) =~= ms);
    assert(samples_view(buf@).to_multiset().add(dropped.to_multiset()) == ms.to_multiset());
    buf
}

/// How an aggregation computes the value of a group.
#[derive(Clone, Copy, Debug, PartialEq, Eq, Structural)]
pub enum AggregationKind {
    /// `count`, `group`, `max`, `min`, `sum`: a fold of the values.
    Fold,
    /// `avg`: the mean of the values.
    Average,
    /// `topk`, `bottomk`: a selection of the samples.
    Selection,
    /// The other operators are not evaluated.
    Unsupported,
}

pub open spec fn spec_aggregation_kind(op: AggregateOp) -> AggregationKind {
    match op {
        AggregateOp::Avg => AggregationKind::Average,
        AggregateOp::Count | AggregateOp::Group | AggregateOp::Max | AggregateOp::Min | AggregateOp::Sum => AggregationKind::Fold,
        AggregateOp::TopK | AggregateOp::BottomK => AggregationKind::Selection,
        _ => AggregationKind::Unsupported,
    }
}

/// An aggregation of an instant-vector expression.
pub struct AggregateEvaluator {
    op: AggregateOp,
    modifier: Option<AggregateModifier>,
    argument: Option<AggregateArgument>,
}

impl AggregateEvaluator {
    pub closed spec fn op_spec(&self) -> AggregateOp {
        self.op
    }

    pub closed spec fn modifier_spec(&self) -> Option<AggregateModifierV> {
        opt_view(self.modifier)
    }

    pub closed spec fn argument_spec(&self) -> Option<AggregateArgument> {
        self.argument
    }

    pub fn new(op: AggregateOp, modifier: Option<AggregateModifier>, argument: Option<AggregateArgument>) -> (e: AggregateEvaluator)
        ensures
            e.op_spec() == op,
            e.modifier_spec() == opt_view(modifier),
            e.argument_spec() == argument,
    {
        AggregateEvaluator { op, modifier, argument }
    }

    pub fn op(&self) -> (o: AggregateOp)
        ensures
            o == self.op_spec(),
    {
        self.op
    }

    pub fn argument(&self) -> (a: &Option<AggregateArgument>)
        ensures
            *a == self.argument_spec(),
    {
        &self.argument
    }

    /// How the aggregation computes the value of a group.
    pub fn kind(&self) -> (k: AggregationKind)
        ensures
            k == spec_aggregation_kind(self.op_spec()),
    {
        match self.op {
            AggregateOp::Avg => AggregationKind::Average,
            AggregateOp::Count | AggregateOp::Group | AggregateOp::Max | AggregateOp::Min | AggregateOp::Sum => AggregationKind::Fold,
            AggregateOp::TopK | AggregateOp::BottomK => AggregationKind::Selection,
            _ => AggregationKind::Unsupported,
        }
    }

    /// The labels that identify the group of a sample with `labels`.
    pub fn group_labels(&self, labels: &Labels) -> (g: Labels)
        ensures
            g@ == group_of(labels@, self.modifier_spec()),
    {
        match &self.modifier {
            Some(AggregateModifier::By(names)) => labels.with(names),
            Some(AggregateModifier::Without(names)) => labels.without(names),
            None => {
                let none: Vec<String> = Vec::new();
                let g = labels.with(&none);
                assert(crate::query::parser::ast::strings_view(none@).to_set() =~= Set::<Seq<char>>::empty());
                g
            },
        }
    }

    /// `count`, `group`, `max`, `min`, `sum`: one sample per group, with the
    /// group's labels and the fold by `step` of its values in their order,
    /// starting from the first value.
    pub fn next_simple<V: Copy>(&self, v: &InstantVector<V>, step: impl Fn(V, V) -> V) -> (r: InstantVector<V>)
        requires
            forall|a: V, b: V| call_requires(step, (a, b)),
        ensures
            r@.instant == v@.instant,
            exists|out: Seq<(LabelMap, Seq<(LabelMap, V)>)>| #[trigger] is_grouping(v@.samples, self.modifier_spec(), out)
                && simple_result(step, out, r@.samples),
    {
        let groups = self.groups(v);
        let ghost out = groups_view(groups@);
        let mut res: Vec<(Labels, V)> = Vec::new();
        let mut j: usize = 0;
        while j < groups.len()
            invariant
                j <= groups@.len(),
                out == groups_view(groups@),
                is_grouping(v@.samples, self.modifier_spec(), out),
                forall|a: V, b: V| call_requires(step, (a, b)),
                simple_result(step, out.take(j as int), samples_view(res@)),
            decreases groups@.len() - j,
        {
            assert(out[j as int] == out[j as int]);
            let members = &groups[j].1;
            assert(samples_view(members@) == out[j as int].1);
            let x = fold_values(members, &step);
            let labels = groups[j].0.copied();
            let ghost before = samples_view(res@);
            res.push((labels, x));
            proof {
                let t = out.take(j + 1);
                assert(samples_view(res@) =~= before.push((out[j as int].0, x)));
                assert forall|k: int| 0 <= k < t.len() implies (#[trigger] samples_view(res@)[k]).0 == t[k].0
                    && folded_to(step, values_of(t[k].1), samples_view(res@)[k].1) by {
                    if k < j {
                        assert(out.take(j as int)[k] == t[k]);
                        assert(samples_view(res@)[k] == before[k]);
                    }
                }
            }
            j = j + 1;
        }
        assert(out.take(j as int) =~= out);
        InstantVector::new(v.timestamp(), res)
    }

    /// `avg`: one sample per group, with the group's labels and `div` of the
    /// sum by `add` of its values (in their order) and their number.
    pub fn next_avg<V: Copy>(&self, v: &InstantVector<V>, add: impl Fn(V, V) -> V, div: impl Fn(V, usize) -> V) -> (r: InstantVector<V>)
        requires
            forall|a: V, b: V| call_requires(add, (a, b)),
            forall|a: V, n: usize| call_requires(div, (a, n)),
        ensures
            r@.instant == v@.instant,
            exists|out: Seq<(LabelMap, Seq<(LabelMap, V)>)>| #[trigger] is_grouping(v@.samples, self.modifier_spec(), out)
                && avg_result(add, div, out, r@.samples),
    {
        let groups = self.groups(v);
        let ghost out = groups_view(groups@);
        let mut res: Vec<(Labels, V)> = Vec::new();
        let mut j: usize = 0;
        while j < groups.len()
            invariant
                j <= groups@.len(),
                out == groups_view(groups@),
                is_grouping(v@.samples, self.modifier_spec(), out),
                forall|a: V, b: V| call_requires(add, (a, b)),
                forall|a: V, n: usize| call_requires(div, (a, n)),
                avg_result(add, div, out.take(j as int), samples_view(res@)),
            decreases groups@.len() - j,
        {
            assert(out[j as int] == out[j as int]);
            let members = &groups[j].1;
            assert(samples_view(members@) == out[j as int].1);
            let sum = fold_values(members, &add);
            let n = members.len();
            assert(n == values_of(out[j as int].1).len());
            let x = div(sum, n);
            assert(averaged_to(add, div, values_of(out[j as int].1), x));
            let labels = groups[j].0.copied();
            let ghost before = samples_view(res@);
            res.push((labels, x));
            proof {
                let t = out.take(j + 1);
                assert(samples_view(res@) =~= before.push((out[j as int].0, x)));
                assert forall|k: int| 0 <= k < t.len() implies (#[trigger] samples_view(res@)[k]).0 == t[k].0
                    && averaged_to(add, div, values_of(t[k].1), samples_view(res@)[k].1) by {
                    if k < j {
                        assert(out.take(j as int)[k] == t[k]);
                        assert(samples_view(res@)[k] == before[k]);
                    }
                }
            }
            j = j + 1;
        }
        assert(out.take(j as int) =~= out);
        InstantVector::new(v.timestamp(), res)
    }

    /// `topk`, `bottomk`: of each group, in the order of the groups, the `k`
    /// samples (at least one) that `worse` ranks highest, the others dropped
    /// one at a time as the group's samples come.
    pub fn next_top_bottom_k<V: Copy>(&self, v: &InstantVector<V>, k: usize, worse: impl Fn(V, V) -> bool) -> (r: InstantVector<V>)
        requires
            forall|a: V, b: V| call_requires(worse, (a, b)),
        ensures
            r@.instant == v@.instant,
            exists|out: Seq<(LabelMap, Seq<(LabelMap, V)>)>, sels: Seq<Seq<(LabelMap, V)>>|
                #![trigger is_grouping(v@.samples, self.modifier_spec(), out), sels.flatten()]
                is_grouping(v@.samples, self.modifier_spec(), out)
                && sels.len() == out.len()
                && (forall|j: int| 0 <= j < out.len() ==> top_selection(worse, out[j].1, k as nat, #[trigger] sels[j]))
                && r@.samples == sels.flatten(),
    {
        let groups = self.groups(v);
        let ghost out = groups_view(groups@);
        let ghost mut sels: Seq<Seq<(LabelMap, V)>> = Seq::empty();
        let mut res: Vec<(Labels, V)> = Vec::new();
        let mut j: usize = 0;
        while j < groups.len()
            invariant
                j <= groups@.len(),
                out == groups_view(groups@),
                is_grouping(v@.samples, self.modifier_spec(), out),
                forall|a: V, b: V| call_requires(worse, (a, b)),
                sels.len() == j,
                forall|g: int| 0 <= g < j ==> top_selection(worse, out[g].1, k as nat, #[trigger] sels[g]),
                samples_view(res@) == sels.flatten(),
            decreases groups@.len() - j,
        {
            assert(out[j as int] == out[j as int]);
            let members = &groups[j].1;
            assert(samples_view(members@) == out[j as int].1);
            let mut sel = select_top(members, k, &worse);
            let ghost before = samples_view(res@);
            let ghost sv = samples_view(sel@);
            res.append(&mut sel);
            proof {
                let s0 = sels;
                sels = sels.push(sv);
                s0.lemma_flatten_push(sv);
                assert(samples_view(res@) =~= before + sv);
                assert forall|g: int| 0 <= g < j + 1 implies top_selection(worse, out[g].1, k as nat, #[trigger] sels[g]) by {
                    if g < j {
                        assert(sels[g] == s0[g]);
                    }
                }
            }
            j = j + 1;
        }
        InstantVector::new(v.timestamp(), res)
    }

    /// The groups of the samples of `v`, in the order of their signatures,
    /// each with its labels and its samples in their order.
    pub fn groups<V: Copy>(&self, v: &InstantVector<V>) -> (r: Vec<(Labels, Vec<(Labels, V)>)>)
        ensures
            is_grouping(v@.samples, self.modifier_spec(), groups_view(r@)),
    {
        let ghost s = v@.samples;
        let ghost md = self.modifier_spec();
        let samples = v.samples();
        let mut gs: Vec<Group<V>> = Vec::new();
        let mut i: usize = 0;
        proof {
            assert(building_view(gs@) =~= Seq::<(LabelMap, Seq<(LabelMap, V)>)>::empty());
        }
        while i < samples.len()
            invariant
                i <= samples@.len(),
                s == samples_view(samples@),
                md == self.modifier_spec(),
                keys_ok(gs@),
                is_grouping(s.take(i as int), md, building_view(gs@)),
            decreases samples@.len() - i,
        {
            let ghost before = gs@;
            let ghost og = building_view(gs@);
            let ghost t = s.take(i as int);
            let ghost x = s[i as int];
            let g = self.group_labels(&samples[i].0);
            let key = g.to_vec();
            let ghost gm = g@;
            assert(gm == group_of(x.0, md));
            let (j, found) = find_group(&gs, &key);
            let member = (samples[i].0.copied(), samples[i].1);
            assert((member.0@, member.1) == x);
            proof {
                assert(t.push(x) =~= s.take(i + 1));
            }
            if found {
                proof {
                    assert(before[j as int].labels@ == gm);
                }
                let mut grp = gs.remove(j);
                grp.samples.push(member);
                gs.insert(j, grp);
                proof {
                    assert(gs@ =~= before.update(j as int, grp));
                    assert(samples_view(grp.samples@) =~= og[j as int].1.push(x));
                    assert(building_view(gs@) =~= og.update(j as int, (og[j as int].0, og[j as int].1.push(x))));
                    lemma_group_step_found(t, x, md, og, j as int);
                }
            } else {
                proof {
                    assert forall|a: int| 0 <= a < j implies entries_lt(signature_of(#[trigger] og[a].0), signature_of(gm)) by {
                        assert(og[a].0 == before[a].labels@);
                    }
                    if j < og.len() {
                        assert(og[j as int].0 == before[j as int].labels@);
                    }
                }
                let mut ms: Vec<(Labels, V)> = Vec::new();
                ms.push(member);
                let grp = Group { labels: g, key, samples: ms };
                gs.insert(j, grp);
                proof {
                    assert(samples_view(grp.samples@) =~= seq![x]);
                    assert(building_view(gs@) =~= og.insert(j as int, (gm, seq![x])));
                    lemma_group_step_new(t, x, md, og, j as int);
                }
            }
            i = i + 1;
        }
        assert(s.take(i as int) =~= s);
        let mut out: Vec<(Labels, Vec<(Labels, V)>)> = Vec::new();
        let ghost bv = building_view(gs@);
        let mut k: usize = 0;
        let n = gs.len();
        while k < n
            invariant
                n == bv.len(),
                gs@.len() == n - k,
                forall|a: int| 0 <= a < gs@.len() ==> (#[trigger] gs@[a]).labels@ == bv[a + k].0
                    && samples_view(gs@[a].samples@) == bv[a + k].1,
                groups_view(out@) == bv.take(k as int),
                k <= n,
            decreases n - k,
        {
            let ghost before = gs@;
            let grp = gs.remove(0);
            assert(grp == before[0]);
            let ghost o = out@;
            out.push((grp.labels, grp.samples));
            proof {
                assert(groups_view(out@) =~= groups_view(o).push(bv[k as int]));
                assert(bv.take(k + 1) =~= bv.take(k as int).push(bv[k as int]));
                assert forall|a: int| 0 <= a < gs@.len() implies (#[trigger] gs@[a]).labels@ == bv[a + k + 1].0
                    && samples_view(gs@[a].samples@) == bv[a + k + 1].1 by {
                    assert(gs@[a] == before[a + 1]);
                }
            }
            k = k + 1;
        }
        assert(bv.take(k as int) =~= bv);
        out
    }
}

/// Adding a sample to its existing group `j` keeps a grouping.
#[verifier::spinoff_prover]
#[verifier::rlimit(40)]
proof fn lemma_group_step_found<V>(t: Seq<(LabelMap, V)>, x: (LabelMap, V), md: Option<AggregateModifierV>, og: Seq<(LabelMap, Seq<(LabelMap, V)>)>, g: int)
    requires
        is_grouping(t, md, og),
        0 <= g < og.len(),
        og[g].0 == group_of(x.0, md),
    ensures
        is_grouping(t.push(x), md, og.update(g, (og[g].0, og[g].1.push(x)))),
{
    let ng = og.update(g, (og[g].0, og[g].1.push(x)));
    let tx = t.push(x);
    assert forall|k: int| #![trigger ng[k]] 0 <= k < ng.len() implies
        ng[k].1 == members(tx, md, ng[k].0) && ng[k].1.len() > 0 by {
        assert(og[k] == og[k]);
        lemma_filter_push(t, x, in_group::<V>(md, og[k].0));
        if k != g {
            assert(og[g] == og[g]);
            if og[k].0 == og[g].0 {
                let (a, b) = if k < g { (k, g) } else { (g, k) };
                assert(og[a] == og[a] && og[b] == og[b]);
                lemma_entries_lt_irrefl(signature_of(og[k].0));
            }
        }
    }
    assert forall|i: int| 0 <= i < tx.len() implies #[trigger] has_group(tx, md, ng, i) by {
        if i < t.len() {
            assert(tx[i] == t[i]);
            assert(has_group(t, md, og, i));
            let k = choose|k: int| 0 <= k < og.len() && og[k].0 == group_of(t[i].0, md);
            assert(ng[k].0 == og[k].0);
        } else {
            assert(tx[i] == x);
            assert(ng[g].0 == og[g].0);
        }
    }
    assert forall|a: int, b: int| #![trigger ng[a], ng[b]] 0 <= a < b < ng.len() implies
        entries_lt(signature_of(ng[a].0), signature_of(ng[b].0)) by {
        assert(og[a] == og[a] && og[b] == og[b]);
    }
    assert(is_grouping(tx, md, ng));
}

/// Inserting a new group for a sample, at the place of its signature, keeps a
/// grouping.
#[verifier::spinoff_prover]
proof fn lemma_group_step_new<V>(t: Seq<(LabelMap, V)>, x: (LabelMap, V), md: Option<AggregateModifierV>, og: Seq<(LabelMap, Seq<(LabelMap, V)>)>, j: int)
    requires
        is_grouping(t, md, og),
        0 <= j <= og.len(),
        forall|a: int| 0 <= a < j ==> entries_lt(signature_of(#[trigger] og[a].0), signature_of(group_of(x.0, md))),
        j < og.len() ==> entries_lt(signature_of(group_of(x.0, md)), signature_of(og[j].0)),
    ensures
        is_grouping(t.push(x), md, og.insert(j, (group_of(x.0, md), seq![x]))),
{
    let gm = group_of(x.0, md);
    let ng = og.insert(j, (gm, seq![x]));
    let tx = t.push(x);
    assert forall|a: int| 0 <= a < ng.len() implies #[trigger] ng[a] == (if a < j { og[a] } else if a == j { (gm, seq![x]) } else { og[a - 1] }) by {}
    // No earlier group has the new labels.
    assert forall|k: int| 0 <= k < og.len() implies (#[trigger] og[k]).0 != gm by {
        if k < j {
            if og[k].0 == gm { lemma_entries_lt_irrefl(signature_of(gm)); }
        } else {
            if k > j {
                assert(og[j] == og[j]);
                lemma_entries_lt_trans(signature_of(gm), signature_of(og[j].0), signature_of(og[k].0));
            }
            if og[k].0 == gm { lemma_entries_lt_irrefl(signature_of(gm)); }
        }
    }
    assert forall|k: int| #![trigger ng[k]] 0 <= k < ng.len() implies
        ng[k].1 == members(tx, md, ng[k].0) && ng[k].1.len() > 0 by {
        lemma_filter_push(t, x, in_group::<V>(md, ng[k].0));
        if k == j {
            assert forall|i: int| 0 <= i < t.len() implies !(in_group::<V>(md, gm))(#[trigger] t[i]) by {
                let c = choose|c: int| 0 <= c < og.len() && og[c].0 == group_of(t[i].0, md);
                assert(og[c].0 != gm);
            }
            lemma_filter_none(t, in_group::<V>(md, gm));
            assert(seq![x] =~= Seq::<(LabelMap, V)>::empty().push(x));
        } else {
            let k1 = if k < j { k } else { k - 1 };
            assert(og[k1] == og[k1]);
            assert(og[k1].0 != gm);
        }
    }
    assert forall|i: int| 0 <= i < tx.len() implies #[trigger] has_group(tx, md, ng, i) by {
        if i < t.len() {
            assert(tx[i] == t[i]);
            assert(has_group(t, md, og, i));
            let k = choose|k: int| 0 <= k < og.len() && og[k].0 == group_of(t[i].0, md);
            if k < j { assert(ng[k].0 == og[k].0); } else { assert(ng[k + 1].0 == og[k].0); }
        } else {
            assert(tx[i] == x);
            assert(ng[j].0 == gm);
        }
    }
    assert forall|a: int, b: int| #![trigger ng[a], ng[b]] 0 <= a < b < ng.len() implies
        entries_lt(signature_of(ng[a].0), signature_of(ng[b].0)) by {
        if b < j {
            assert(og[a] == og[a] && og[b] == og[b]);
        } else if b == j {
            assert(og[a] == og[a]);
        } else if a == j {
            assert(og[b - 1] == og[b - 1]);
            if b - 1 > j {
                assert(og[j] == og[j]);
                lemma_entries_lt_trans(signature_of(gm), signature_of(og[j].0), signature_of(og[b - 1].0));
            }
        } else if a < j {
            assert(og[a] == og[a] && og[b - 1] == og[b - 1]);
            assert(og[j] == og[j]);
            lemma_entries_lt_trans(signature_of(og[a].0), signature_of(gm), signature_of(og[j].0));
            if b - 1 > j {
                lemma_entries_lt_trans(signature_of(og[a].0), signature_of(og[j].0), signature_of(og[b - 1].0));
            }
        } else {
            assert(og[a - 1] == og[a - 1] && og[b - 1] == og[b - 1]);
        }
    }
}


/// The labels of the groups, in order.
pub open spec fn group_labels_of<V>(out: Seq<(LabelMap, Seq<(LabelMap, V)>)>) -> Seq<LabelMap> {
    out.map_values(|g: (LabelMap, Seq<(LabelMap, V)>)| g.0)
}

spec fn sorted_by_signature(x: Seq<LabelMap>) -> bool {
    forall|i: int, j: int| 0 <= i < j < x.len() ==> entries_lt(signature_of(#[trigger] x[i]), signature_of(#[trigger] x[j]))
}

spec fn within(x: Seq<LabelMap>, y: Seq<LabelMap>) -> bool {
    forall|i: int| 0 <= i < x.len() ==> y.contains(#[trigger] x[i])
}

proof fn lemma_sorted_tail(x: Seq<LabelMap>)
    requires
        sorted_by_signature(x),
        x.len() > 0,
    ensures
        sorted_by_signature(x.drop_first()),
        forall|i: int| 0 < i < x.len() ==> #[trigger] x[i] != x[0],
{
    let xr = x.drop_first();
    assert forall|i: int, j: int| 0 <= i < j < xr.len() implies entries_lt(signature_of(#[trigger] xr[i]), signature_of(#[trigger] xr[j])) by {
        assert(xr[i] == x[i + 1] && xr[j] == x[j + 1]);
    }
    assert forall|i: int| 0 < i < x.len() implies #[trigger] x[i] != x[0] by {
        assert(x[0] == x[0]);
        if x[i] == x[0] {
            lemma_entries_lt_irrefl(signature_of(x[0]));
        }
    }
}

proof fn lemma_within_tail(x: Seq<LabelMap>, y: Seq<LabelMap>)
    requires
        within(x, y),
        x.len() > 0,
        y.len() > 0,
        x[0] == y[0],
        forall|i: int| 0 < i < x.len() ==> #[trigger] x[i] != x[0],
    ensures
        within(x.drop_first(), y.drop_first()),
{
    let xr = x.drop_first();
    let yr = y.drop_first();
    assert forall|i: int| 0 <= i < xr.len() implies yr.contains(#[trigger] xr[i]) by {
        assert(xr[i] == x[i + 1]);
        assert(x[i + 1] != x[0]);
        assert(y.contains(x[i + 1]));
        let j = choose|j: int| 0 <= j < y.len() && y[j] == x[i + 1];
        assert(j != 0);
        assert(yr[j - 1] == y[j]);
    }
}

/// Two lists sorted by signature with the same elements are equal.
proof fn lemma_sorted_same(x: Seq<LabelMap>, y: Seq<LabelMap>)
    requires
        sorted_by_signature(x),
        sorted_by_signature(y),
        within(x, y),
        within(y, x),
    ensures
        x == y,
    decreases x.len(),
{
    if x.len() == 0 {
        if y.len() > 0 {
            assert(x.contains(y[0]));
        }
        assert(x =~= y);
    } else {
        assert(y.contains(x[0]));
        let k = choose|j: int| 0 <= j < y.len() && y[j] == x[0];
        assert(x.contains(y[0]));
        let m = choose|j: int| 0 <= j < x.len() && x[j] == y[0];
        if k > 0 {
            assert(entries_lt(signature_of(y[0]), signature_of(y[k])));
            if m > 0 {
                assert(entries_lt(signature_of(x[0]), signature_of(x[m])));
                lemma_entries_lt_trans(signature_of(x[0]), signature_of(x[m]), signature_of(x[0]));
            }
            lemma_entries_lt_irrefl(signature_of(x[0]));
        }
        assert(x[0] == y[0]);
        lemma_sorted_tail(x);
        lemma_sorted_tail(y);
        lemma_within_tail(x, y);
        lemma_within_tail(y, x);
        lemma_sorted_same(x.drop_first(), y.drop_first());
        assert(x =~= seq![x[0]] + x.drop_first());
        assert(y =~= seq![y[0]] + y.drop_first());
    }
}


/// The labels of group `i` of one grouping are those of a group of another.
proof fn lemma_group_found<V>(s: Seq<(LabelMap, V)>, md: Option<AggregateModifierV>, a: Seq<(LabelMap, Seq<(LabelMap, V)>)>, b: Seq<(LabelMap, Seq<(LabelMap, V)>)>, i: int) -> (j: int)
    requires
        is_grouping(s, md, a),
        is_grouping(s, md, b),
        0 <= i < a.len(),
    ensures
        0 <= j < b.len() && b[j].0 == a[i].0,
{
    broadcast use vstd::seq_lib::group_filter_ensures;
    assert(a[i] == a[i]);
    let m = a[i].1;
    let p = in_group::<V>(md, a[i].0);
    assert(m == s.filter(p));
    assert(m[0] == m[0]);
    assert(m.contains(m[0]));
    s.lemma_filter_contains_rev(p, m[0]);
    assert(p(m[0]));
    let c = choose|c: int| 0 <= c < s.len() && s[c] == m[0];
    assert(s[c] == s[c]);
    let j = choose|j: int| 0 <= j < b.len() && b[j].0 == group_of(s[c].0, md);
    j
}

/// The grouping of a vector is unique: the groups, their order and their
/// samples are fully determined by the samples and the modifier.
pub proof fn law_grouping_unique<V>(s: Seq<(LabelMap, V)>, md: Option<AggregateModifierV>, a: Seq<(LabelMap, Seq<(LabelMap, V)>)>, b: Seq<(LabelMap, Seq<(LabelMap, V)>)>)
    requires
        is_grouping(s, md, a),
        is_grouping(s, md, b),
    ensures
        a == b,
{
    let x = group_labels_of(a);
    let y = group_labels_of(b);
    assert(sorted_by_signature(x)) by {
        assert forall|i: int, j: int| 0 <= i < j < x.len() implies entries_lt(signature_of(#[trigger] x[i]), signature_of(#[trigger] x[j])) by {
            assert(a[i] == a[i] && a[j] == a[j]);
        }
    }
    assert(sorted_by_signature(y)) by {
        assert forall|i: int, j: int| 0 <= i < j < y.len() implies entries_lt(signature_of(#[trigger] y[i]), signature_of(#[trigger] y[j])) by {
            assert(b[i] == b[i] && b[j] == b[j]);
        }
    }
    // Every group's labels are those of one of its samples, which has a group in the other list.
    assert(within(x, y)) by {
        assert forall|i: int| 0 <= i < x.len() implies y.contains(#[trigger] x[i]) by {
            let j = lemma_group_found(s, md, a, b, i);
            assert(y[j] == b[j].0);
        }
    }
    assert(within(y, x)) by {
        assert forall|i: int| 0 <= i < y.len() implies x.contains(#[trigger] y[i]) by {
            let j = lemma_group_found(s, md, b, a, i);
            assert(x[j] == a[j].0);
        }
    }
    lemma_sorted_same(x, y);
    assert forall|j: int| 0 <= j < a.len() implies a[j] == b[j] by {
        assert(x[j] == y[j]);
        assert(a[j] == a[j] && b[j] == b[j]);
    }
    assert(a =~= b);
}

/// In a grouping, each sample belongs to exactly one group.
pub proof fn law_one_group_per_sample<V>(s: Seq<(LabelMap, V)>, md: Option<AggregateModifierV>, out: Seq<(LabelMap, Seq<(LabelMap, V)>)>, i: int)
    requires
        is_grouping(s, md, out),
        0 <= i < s.len(),
    ensures
        exists|j: int| 0 <= j < out.len() && out[j].0 == group_of(s[i].0, md)
            && forall|k: int| 0 <= k < out.len() && out[k].0 == group_of(s[i].0, md) ==> k == j,
{
    assert(s[i] == s[i]);
    let j = choose|j: int| 0 <= j < out.len() && out[j].0 == group_of(s[i].0, md);
    assert forall|k: int| 0 <= k < out.len() && out[k].0 == group_of(s[i].0, md) implies k == j by {
        if k != j {
            let (p, q) = if k < j { (k, j) } else { (j, k) };
            assert(out[p] == out[p] && out[q] == out[q]);
            lemma_entries_lt_irrefl(signature_of(out[k].0));
        }
    }
}


/// How each aggregation operator computes a group's value: `avg` is the
/// mean; `count`, `group`, `max`, `min` and `sum` fold the values; `topk` and
/// `bottomk` select samples (by their leading argument); the others are not
/// evaluated.
pub proof fn law_aggregation_kinds(op: AggregateOp)
    ensures
        (spec_aggregation_kind(op) == AggregationKind::Average) <==> op == AggregateOp::Avg,
        (spec_aggregation_kind(op) == AggregationKind::Fold) <==> (op == AggregateOp::Count || op == AggregateOp::Group
            || op == AggregateOp::Max || op == AggregateOp::Min || op == AggregateOp::Sum),
        (spec_aggregation_kind(op) == AggregationKind::Selection) <==> (op == AggregateOp::TopK || op == AggregateOp::BottomK),
        (spec_aggregation_kind(op) == AggregationKind::Unsupported) <==> (op == AggregateOp::CountValues
            || op == AggregateOp::Quantile || op == AggregateOp::StdDev || op == AggregateOp::StdVar),
        spec_aggregation_kind(op) == AggregationKind::Selection ==> op.needs_argument(),
{
}


/// `topk`/`bottomk` keep `k` samples of a group, and at least one.
pub proof fn law_top_cap(k: nat)
    ensures
        top_cap(k) >= 1,
        k > 0 ==> top_cap(k) == k,
        k == 0 ==> top_cap(k) == 1,
{
}

} // verus!
