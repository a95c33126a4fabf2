//! Values of a query: instant vectors, range vectors and scalars, generic over
//! the sample value, and the label-matching rules of operations on them.
use vstd::prelude::*;
use crate::error::Error;
use crate::model::label_set::{Labels, select};
use crate::model::labels::name_label;
use crate::query::parser::ast::{GroupModifier, LabelMatching, LabelMatchingV};

verus! {

/// A label set as a map from names to values.
pub type LabelMap = Map<Seq<char>, Seq<char>>;

/// Milliseconds since the UNIX epoch.
pub type Timestamp = i64;

/// The samples of a vector as maps and values.
pub open spec fn samples_view<V>(s: Seq<(Labels, V)>) -> Seq<(LabelMap, V)> {
    s.map_values(|p: (Labels, V)| (p.0@, p.1))
}

/// The samples whose outcome is `Some`, each relabelled and given its outcome,
/// in their order.
pub open spec fn kept<V>(s: Seq<(LabelMap, V)>, outs: Seq<Option<V>>, relabel: spec_fn(LabelMap) -> LabelMap) -> Seq<(LabelMap, V)>
    decreases s.len(),
{
    if s.len() == 0 || outs.len() != s.len() {
        Seq::empty()
    } else {
        let prev = kept(s.drop_last(), outs.drop_last(), relabel);
        match outs.last() {
            Some(v) => prev.push((relabel(s.last().0), v)),
            None => prev,
        }
    }
}

/// The labels a scalar operation leaves: all, or all but the metric name.
pub open spec fn scalar_relabel(keep_name: bool) -> spec_fn(LabelMap) -> LabelMap {
    |m: LabelMap| if keep_name { m } else { m.remove(name_label()) }
}

/// Whether each outcome is one that `op` may give for the value of its sample.
pub open spec fn scalar_outcomes<V, F: Fn(V) -> Option<V>>(op: F, s: Seq<(LabelMap, V)>, outs: Seq<Option<V>>) -> bool {
    outs.len() == s.len() && forall|i: int| 0 <= i < s.len() ==> call_ensures(op, (s[i].1,), #[trigger] outs[i])
}

/// The labels by which two samples are matched: those listed by `on`, those
/// not listed by `ignoring`; without a clause, all; the metric name is
/// dropped unless `on` lists it.
pub open spec fn signature(m: LabelMap, lm: Option<LabelMatchingV>) -> LabelMap {
    match lm {
        Some(LabelMatchingV::On(names)) => select(m, names, true),
        Some(LabelMatchingV::Ignoring(names)) => select(m, names, false),
        None => select(m, Set::empty(), false),
    }
}

pub open spec fn lm_view(lm: Option<&LabelMatching>) -> Option<LabelMatchingV> {
    match lm {
        Some(l) => Some(l@),
        None => None,
    }
}


/// The labels of a result sample of a one-to-one vector operation: the
/// signature, with the metric name of the left sample when it is kept.
pub open spec fn vector_relabel(lm: Option<LabelMatchingV>, keep_name: bool) -> spec_fn(LabelMap) -> LabelMap {
    |m: LabelMap| if keep_name && m.contains_key(name_label()) {
        signature(m, lm).insert(name_label(), m[name_label()])
    } else {
        signature(m, lm)
    }
}

/// The sample `k` of `rhs` has the signature `sig`.
pub open spec fn matches_sig<V>(rhs: Seq<(LabelMap, V)>, lm: Option<LabelMatchingV>, k: int, sig: LabelMap) -> bool {
    0 <= k < rhs.len() && signature(rhs[k].0, lm) == sig
}

/// No two samples share a signature.
pub open spec fn signatures_distinct<V>(s: Seq<(LabelMap, V)>, lm: Option<LabelMatchingV>) -> bool {
    forall|i: int, j: int| 0 <= i < j < s.len() ==> signature(#[trigger] s[i].0, lm) != signature(#[trigger] s[j].0, lm)
}

/// What a left sample gives: the outcome of `op` on its value and the value of
/// the right sample with its signature, or nothing when there is none.
pub open spec fn vector_outcome<V, F: Fn(V, V) -> Option<V>>(op: F, l: (LabelMap, V), rhs: Seq<(LabelMap, V)>, lm: Option<LabelMatchingV>, out: Option<V>) -> bool {
    let sig = signature(l.0, lm);
    if exists|k: int| matches_sig(rhs, lm, k, sig) {
        call_ensures(op, (l.1, rhs[choose|k: int| matches_sig(rhs, lm, k, sig)].1), out)
    } else {
        out is None
    }
}

pub open spec fn vector_outcomes<V, F: Fn(V, V) -> Option<V>>(op: F, lhs: Seq<(LabelMap, V)>, rhs: Seq<(LabelMap, V)>, lm: Option<LabelMatchingV>, outs: Seq<Option<V>>) -> bool {
    outs.len() == lhs.len() && forall|i: int| 0 <= i < lhs.len() ==> vector_outcome(op, lhs[i], rhs, lm, #[trigger] outs[i])
}

/// No two left samples with one signature can both give a value with the
/// right sample of that signature (else the matching would be many-to-one).
pub open spec fn one_to_one_ok<V, F: Fn(V, V) -> Option<V>>(op: F, lhs: Seq<(LabelMap, V)>, rhs: Seq<(LabelMap, V)>, lm: Option<LabelMatchingV>) -> bool {
    forall|i: int, j: int, k: int, a: Option<V>, b: Option<V>|
        #![trigger call_ensures(op, (lhs[i].1, rhs[k].1), a), call_ensures(op, (lhs[j].1, rhs[k].1), b)]
        0 <= i < j < lhs.len() && 0 <= k < rhs.len()
        && signature(lhs[i].0, lm) == signature(lhs[j].0, lm)
        && signature(rhs[k].0, lm) == signature(lhs[i].0, lm)
        && call_ensures(op, (lhs[i].1, rhs[k].1), a) && call_ensures(op, (lhs[j].1, rhs[k].1), b)
        ==> a is None || b is None
}

/// No two left samples with one signature both gave a value.
pub open spec fn distinct_outcomes<V>(lhs: Seq<(LabelMap, V)>, lm: Option<LabelMatchingV>, outs: Seq<Option<V>>) -> bool {
    forall|i: int, j: int| 0 <= i < j < outs.len() && (#[trigger] outs[i]) is Some && (#[trigger] outs[j]) is Some
        ==> signature(lhs[i].0, lm) != signature(lhs[j].0, lm)
}

pub open spec fn instant_msg() -> Seq<char> {
    "assertion failed: self.instant == other.instant"@
}

pub open spec fn collision_msg() -> Seq<char> {
    "found series collision for matching labels"@
}

pub open spec fn unsupported_msg() -> Seq<char> {
    "not implemented"@
}

pub open spec fn many_to_one_msg() -> Seq<char> {
    "Many-to-one matching detected! If it's desired, use explicit group_left/group_right modifier"@
}

/// The matching signature of a label set.
fn signature_of(labels: &Labels, lm: Option<&LabelMatching>) -> (r: Labels)
    ensures
        r@ == signature(labels@, lm_view(lm)),
{
    match lm {
        Some(LabelMatching::On(names)) => labels.with(names),
        Some(LabelMatching::Ignoring(names)) => labels.without(names),
        None => {
            let none: Vec<String> = Vec::new();
            let r = labels.without(&none);
            assert(crate::query::parser::ast::strings_view(none@).to_set() =~= Set::<Seq<char>>::empty());
            r
        },
    }
}

/// The index of the first sample of `v` whose labels are `sig`.
fn find_labels<V>(v: &Vec<(Labels, V)>, sig: &Labels) -> (r: Option<usize>)
    ensures
        match r {
            Some(k) => k < v@.len() && v@[k as int].0@ == sig@,
            None => forall|k: int| 0 <= k < v@.len() ==> v@[k].0@ != sig@,
        },
{
    let mut k: usize = 0;
    while k < v.len()
        invariant
            k <= v@.len(),
            forall|j: int| 0 <= j < k ==> v@[j].0@ != sig@,
        decreases v@.len() - k,
    {
        if v[k].0.same(sig) {
            return Some(k);
        }
        k = k + 1;
    }
    None
}

/// Whether `sig` is one of `v`.
fn contains_labels(v: &Vec<Labels>, sig: &Labels) -> (b: bool)
    ensures
        b == exists|k: int| 0 <= k < v@.len() && v@[k]@ == sig@,
{
    let mut k: usize = 0;
    while k < v.len()
        invariant
            k <= v@.len(),
            forall|j: int| 0 <= j < k ==> v@[j]@ != sig@,
        decreases v@.len() - k,
    {
        if v[k].same(sig) {
            return true;
        }
        k = k + 1;
    }
    false
}


pub open spec fn labels_view(v: Seq<Labels>) -> Seq<LabelMap> {
    v.map_values(|l: Labels| l@)
}

/// `x` is the signature of one of the first `i` left samples that gave a value.
spec fn has_source<V>(ls: Seq<(LabelMap, V)>, lm: Option<LabelMatchingV>, outs: Seq<Option<V>>, i: int, x: LabelMap) -> bool {
    exists|a: int| #![trigger outs[a]] 0 <= a < i && outs[a] is Some && x == signature(ls[a].0, lm)
}

/// `mv` holds exactly the signatures of the first `i` left samples that gave a value.
#[verifier::opaque]
spec fn matched_inv<V>(ls: Seq<(LabelMap, V)>, lm: Option<LabelMatchingV>, outs: Seq<Option<V>>, mv: Seq<LabelMap>, i: int) -> bool {
    &&& forall|a: int| #![trigger outs[a]] 0 <= a < i && outs[a] is Some ==> mv.contains(signature(ls[a].0, lm))
    &&& forall|m: int| #![trigger mv[m]] 0 <= m < mv.len() ==> has_source(ls, lm, outs, i, mv[m])
}

proof fn lemma_matched_start<V>(ls: Seq<(LabelMap, V)>, lm: Option<LabelMatchingV>)
    ensures
        matched_inv(ls, lm, Seq::<Option<V>>::empty(), Seq::empty(), 0),
{
    reveal(matched_inv);
}

proof fn lemma_matched_find<V>(ls: Seq<(LabelMap, V)>, lm: Option<LabelMatchingV>, outs: Seq<Option<V>>, mv: Seq<LabelMap>, i: int, m: int) -> (a: int)
    requires
        matched_inv(ls, lm, outs, mv, i),
        0 <= m < mv.len(),
    ensures
        0 <= a < i && outs[a] is Some && mv[m] == signature(ls[a].0, lm),
{
    reveal(matched_inv);
    assert(has_source(ls, lm, outs, i, mv[m]));
    choose|a: int| #![trigger outs[a]] 0 <= a < i && outs[a] is Some && mv[m] == signature(ls[a].0, lm)
}

proof fn lemma_matched_contains<V>(ls: Seq<(LabelMap, V)>, lm: Option<LabelMatchingV>, outs: Seq<Option<V>>, mv: Seq<LabelMap>, i: int, a: int)
    requires
        matched_inv(ls, lm, outs, mv, i),
        0 <= a < i,
        outs[a] is Some,
    ensures
        mv.contains(signature(ls[a].0, lm)),
{
    reveal(matched_inv);
}

proof fn lemma_matched_step<V>(ls: Seq<(LabelMap, V)>, lm: Option<LabelMatchingV>, outs: Seq<Option<V>>, mv: Seq<LabelMap>, i: int, o: Option<V>, mv2: Seq<LabelMap>)
    requires
        matched_inv(ls, lm, outs, mv, i),
        outs.len() == i,
        0 <= i < ls.len(),
        mv2 == (if o is Some { mv.push(signature(ls[i].0, lm)) } else { mv }),
    ensures
        matched_inv(ls, lm, outs.push(o), mv2, i + 1),
{
    reveal(matched_inv);
    let outs2 = outs.push(o);
    assert forall|a: int| #![trigger outs2[a]] 0 <= a < i + 1 && outs2[a] is Some implies mv2.contains(signature(ls[a].0, lm)) by {
        if a < i {
            assert(outs[a] == outs2[a]);
            assert(mv.contains(signature(ls[a].0, lm)));
            let m = choose|m: int| 0 <= m < mv.len() && mv[m] == signature(ls[a].0, lm);
            assert(mv2[m] == mv[m]);
        } else {
            assert(mv2[mv2.len() - 1] == signature(ls[a].0, lm));
        }
    }
    assert forall|m: int| #![trigger mv2[m]] 0 <= m < mv2.len() implies has_source(ls, lm, outs2, i + 1, mv2[m]) by {
        if o is Some && m == mv.len() {
            assert(outs2[i] is Some);
        } else {
            assert(mv2[m] == mv[m]);
            assert(has_source(ls, lm, outs, i, mv[m]));
            let a = choose|a: int| #![trigger outs[a]] 0 <= a < i && outs[a] is Some && mv[m] == signature(ls[a].0, lm);
            assert(outs2[a] == outs[a]);
        }
    }
}

proof fn lemma_outcomes_step<V, F: Fn(V, V) -> Option<V>>(op: F, ls: Seq<(LabelMap, V)>, rs: Seq<(LabelMap, V)>, lm: Option<LabelMatchingV>, outs: Seq<Option<V>>, i: int, o: Option<V>, relabel: spec_fn(LabelMap) -> LabelMap)
    requires
        vector_outcomes(op, ls.take(i), rs, lm, outs),
        vector_outcome(op, ls[i], rs, lm, o),
        0 <= i < ls.len(),
    ensures
        vector_outcomes(op, ls.take(i + 1), rs, lm, outs.push(o)),
        kept(ls.take(i + 1), outs.push(o), relabel) == match o {
            Some(v) => kept(ls.take(i), outs, relabel).push((relabel(ls[i].0), v)),
            None => kept(ls.take(i), outs, relabel),
        },
{
    let t = ls.take(i + 1);
    let outs2 = outs.push(o);
    assert(t.drop_last() =~= ls.take(i));
    assert(outs2.drop_last() =~= outs);
    assert(t.last() == ls[i]);
    assert forall|j: int| 0 <= j < t.len() implies vector_outcome(op, t[j], rs, lm, #[trigger] outs2[j]) by {
        if j < i {
            assert(ls.take(i)[j] == t[j]);
            assert(outs[j] == outs2[j]);
        }
    }
}

/// The right sample with the signature of a left sample, found at `j`, is the
/// one that `vector_outcome` picks.
proof fn lemma_pick<V>(rs: Seq<(LabelMap, V)>, lm: Option<LabelMatchingV>, sig: LabelMap, j: int)
    requires
        signatures_distinct(rs, lm),
        matches_sig(rs, lm, j, sig),
    ensures
        (choose|c: int| matches_sig(rs, lm, c, sig)) == j,
{
    let c = choose|c: int| matches_sig(rs, lm, c, sig);
    if c != j {
        if c < j {
            assert(signature(rs[c].0, lm) != signature(rs[j].0, lm));
        } else {
            assert(signature(rs[j].0, lm) != signature(rs[c].0, lm));
        }
    }
}

/// What one-to-one matching of `lhs` with `rhs` gives: when they are at one
/// instant and the right signatures are distinct, the left samples, each
/// combined with the right sample of its signature, kept where `op` gives a
/// value (no two of one signature); else the error that says which condition
/// fails.
pub open spec fn one_to_one_result<V, F: Fn(V, V) -> Option<V>>(
    lhs: InstantVectorV<V>,
    rhs: InstantVectorV<V>,
    op: F,
    lm: Option<LabelMatchingV>,
    keep_name: bool,
    r: Result<InstantVectorV<V>, Seq<char>>,
) -> bool {
    match r {
        Ok(v) => {
            &&& lhs.instant == rhs.instant
            &&& signatures_distinct(rhs.samples, lm)
            &&& v.instant == lhs.instant
            &&& exists|outs: Seq<Option<V>>| #[trigger] vector_outcomes(op, lhs.samples, rhs.samples, lm, outs)
                && distinct_outcomes(lhs.samples, lm, outs)
                && v.samples == kept(lhs.samples, outs, vector_relabel(lm, keep_name))
        },
        Err(m) => {
            ||| lhs.instant != rhs.instant && m == instant_msg()
            ||| lhs.instant == rhs.instant && !signatures_distinct(rhs.samples, lm) && m == collision_msg()
            ||| lhs.instant == rhs.instant && signatures_distinct(rhs.samples, lm)
                && !one_to_one_ok(op, lhs.samples, rhs.samples, lm) && m == many_to_one_msg()
        },
    }
}

pub open spec fn result_view<V>(r: Result<InstantVector<V>, Error>) -> Result<InstantVectorV<V>, Seq<char>> {
    match r {
        Ok(v) => Ok(v@),
        Err(e) => Err(e.message_spec()),
    }
}

/// An instant vector as a mathematical value.
pub struct InstantVectorV<V> {
    pub instant: Timestamp,
    pub samples: Seq<(LabelMap, V)>,
}

/// The samples of all series at one instant.
#[derive(Debug)]
pub struct InstantVector<V> {
    instant: Timestamp,
    samples: Vec<(Labels, V)>,
}

impl<V> View for InstantVector<V> {
    type V = InstantVectorV<V>;

    closed spec fn view(&self) -> InstantVectorV<V> {
        InstantVectorV { instant: self.instant, samples: samples_view(self.samples@) }
    }
}

impl<V: Copy> InstantVector<V> {
    pub fn new(instant: Timestamp, samples: Vec<(Labels, V)>) -> (r: InstantVector<V>)
        ensures
            r@.instant == instant,
            r@.samples == samples_view(samples@),
    {
        InstantVector { instant, samples }
    }

    pub fn timestamp(&self) -> (t: Timestamp)
        ensures
            t == self@.instant,
    {
        self.instant
    }

    pub fn samples(&self) -> (s: &[(Labels, V)])
        ensures
            samples_view(s@) == self@.samples,
    {
        self.samples.as_slice()
    }

    /// Applies `op` to the value of each sample, keeps the samples for which
    /// it gives a value, with that value, and drops their metric name unless
    /// `keep_name`.
    pub fn apply_scalar_op(&mut self, op: impl Fn(V) -> Option<V>, keep_name: bool) -> (r: InstantVector<V>)
        requires
            forall|v: V| call_requires(op, (v,)),
        ensures
            final(self)@ == old(self)@,
            r@.instant == old(self)@.instant,
            exists|outs: Seq<Option<V>>| #[trigger] scalar_outcomes(op, old(self)@.samples, outs)
                && r@.samples == kept(old(self)@.samples, outs, scalar_relabel(keep_name)),
    {
        let ghost s = self@.samples;
        let ghost mut outs: Seq<Option<V>> = Seq::empty();
        let mut out: Vec<(Labels, V)> = Vec::new();
        let mut i: usize = 0;
        while i < self.samples.len()
            invariant
                i <= self.samples@.len(),
                s == samples_view(self.samples@),
                forall|v: V| call_requires(op, (v,)),
                scalar_outcomes(op, s.take(i as int), outs),
                samples_view(out@) == kept(s.take(i as int), outs, scalar_relabel(keep_name)),
            decreases self.samples@.len() - i,
        {
            let o = op(self.samples[i].1);
            let ghost before = out@;
            match o {
                Some(v) => {
                    let mut labels = self.samples[i].0.copied();
                    if !keep_name {
                        labels.drop_name();
                    }
                    out.push((labels, v));
                    assert(samples_view(out@) =~= samples_view(before).push((scalar_relabel(keep_name)(s[i as int].0), v)));
                },
                None => {},
            }
            proof {
                let old_outs = outs;
                let t = s.take(i + 1);
                outs = outs.push(o);
                assert(t.drop_last() =~= s.take(i as int));
                assert(outs.drop_last() =~= old_outs);
                assert(t.last() == s[i as int]);
                assert(scalar_outcomes(op, t, outs)) by {
                    assert forall|j: int| 0 <= j < t.len() implies call_ensures(op, (t[j].1,), #[trigger] outs[j]) by {
                        if j < i {
                            assert(s.take(i as int)[j] == t[j]);
                            assert(old_outs[j] == outs[j]);
                        }
                    }
                }
            }
            i = i + 1;
        }
        assert(s.take(i as int) =~= s);
        InstantVector { instant: self.instant, samples: out }
    }

    /// Matches the samples of the two vectors one to one by their signatures
    /// and applies `op` to each matched pair of values, keeping the pairs for
    /// which it gives a value; a result sample carries the signature (and the
    /// left metric name if `keep_name`). Fails when the vectors are at
    /// different instants, when two right samples share a signature, or when
    /// two left samples with one signature both give a value.
    #[verifier::rlimit(60)]
    pub fn try_apply_vector_op_one_to_one(
        &self,
        op: impl Fn(V, V) -> Option<V>,
        other: &InstantVector<V>,
        label_matching: Option<&LabelMatching>,
        keep_name: bool,
    ) -> (r: Result<InstantVector<V>, Error>)
        requires
            forall|a: V, b: V| call_requires(op, (a, b)),
        ensures
            one_to_one_result(self@, other@, op, lm_view(label_matching), keep_name, result_view(r)),
    {
        if self.instant != other.instant {
            return Err(Error::new("assertion failed: self.instant == other.instant"));
        }
        let ghost lm = lm_view(label_matching);
        let ghost ls = self@.samples;
        let ghost rs = other@.samples;
        // The right samples by signature.
        let mut rhs: Vec<(Labels, V)> = Vec::new();
        let mut k: usize = 0;
        while k < other.samples.len()
            invariant
                k <= other.samples@.len(),
                self@.instant == other@.instant,
                rs == samples_view(other.samples@),
                lm == lm_view(label_matching),
                rhs@.len() == k,
                forall|j: int| #![trigger rhs@[j]] 0 <= j < k ==> rhs@[j].0@ == signature(rs[j].0, lm) && rhs@[j].1 == rs[j].1,
                signatures_distinct(rs.take(k as int), lm),
            decreases other.samples@.len() - k,
        {
            let sig = signature_of(&other.samples[k].0, label_matching);
            match find_labels(&rhs, &sig) {
                Some(j) => {
                    proof {
                        assert(rs[k as int].0 == other.samples@[k as int].0@);
                        assert(sig@ == signature(rs[k as int].0, lm));
                        assert(rhs@[j as int].0@ == signature(rs[j as int].0, lm));
                        assert(!signatures_distinct(rs, lm)) by {
                            assert(signature(rs[j as int].0, lm) == signature(rs[k as int].0, lm));
                        }
                    }
                    return Err(Error::new("found series collision for matching labels"));
                },
                None => {},
            }
            rhs.push((sig, other.samples[k].1));
            proof {
                let t = rs.take(k + 1);
                assert forall|a: int, b: int| 0 <= a < b < t.len() implies signature(#[trigger] t[a].0, lm) != signature(#[trigger] t[b].0, lm) by {
                    if b == k {
                        assert(rhs@[a].0@ == signature(rs[a].0, lm));
                    } else {
                        assert(rs.take(k as int)[a] == t[a] && rs.take(k as int)[b] == t[b]);
                    }
                }
            }
            k = k + 1;
        }
        assert(rs.take(k as int) =~= rs);
        // The left samples, in order.
        let ghost mut outs: Seq<Option<V>> = Seq::empty();
        let mut matched: Vec<Labels> = Vec::new();
        let mut out: Vec<(Labels, V)> = Vec::new();
        let mut i: usize = 0;
        proof {
            lemma_matched_start(ls, lm);
            assert(labels_view(matched@) =~= Seq::<LabelMap>::empty());
        }
        while i < self.samples.len()
            invariant
                i <= self.samples@.len(),
                self@.instant == other@.instant,
                ls == samples_view(self.samples@),
                rs == samples_view(other.samples@),
                lm == lm_view(label_matching),
                forall|a: V, b: V| call_requires(op, (a, b)),
                rhs@.len() == rs.len(),
                forall|j: int| #![trigger rhs@[j]] 0 <= j < rs.len() ==> rhs@[j].0@ == signature(rs[j].0, lm) && rhs@[j].1 == rs[j].1,
                signatures_distinct(rs, lm),
                vector_outcomes(op, ls.take(i as int), rs, lm, outs),
                samples_view(out@) == kept(ls.take(i as int), outs, vector_relabel(lm, keep_name)),
                matched_inv(ls, lm, outs, labels_view(matched@), i as int),
                outs.len() == i,
                distinct_outcomes(ls, lm, outs),
            decreases self.samples@.len() - i,
        {
            let labels = &self.samples[i].0;
            let sig = signature_of(labels, label_matching);
            assert(sig@ == signature(ls[i as int].0, lm));
            let found = find_labels(&rhs, &sig);
            let o: Option<V> = match found {
                Some(j) => {
                    proof {
                        assert(rhs@[j as int].0@ == signature(rs[j as int].0, lm));
                        lemma_pick(rs, lm, sig@, j as int);
                    }
                    let lv = self.samples[i].1;
                    let rv = rhs[j].1;
                    assert(lv == ls[i as int].1);
                    assert(rv == rs[j as int].1);
                    let o = op(lv, rv);
                    proof {
                        let sg = signature(ls[i as int].0, lm);
                        assert(sg == sig@);
                        assert(matches_sig(rs, lm, j as int, sg));
                        assert(exists|k: int| matches_sig(rs, lm, k, sg));
                        assert((choose|c: int| matches_sig(rs, lm, c, sg)) == j as int);
                        assert(call_ensures(op, (lv, rv), o));
                        assert(call_ensures(op, (ls[i as int].1, rs[j as int].1), o));
                    }
                    assert(vector_outcome(op, ls[i as int], rs, lm, o));
                    o
                },
                None => {
                    proof {
                        if exists|c: int| matches_sig(rs, lm, c, sig@) {
                            let c = choose|c: int| matches_sig(rs, lm, c, sig@);
                            assert(rhs@[c].0@ == sig@);
                        }
                    }
                    None
                },
            };
            assert(vector_outcome(op, ls[i as int], rs, lm, o));
            let ghost mv = labels_view(matched@);
            match o {
                Some(v) => {
                    if contains_labels(&matched, &sig) {
                        proof {
                            let m = choose|m: int| 0 <= m < matched@.len() && matched@[m]@ == sig@;
                            assert(mv[m] == sig@);
                            let a = lemma_matched_find(ls, lm, outs, mv, i as int, m);
                            let j = found->0 as int;
                            assert(ls.take(i as int)[a] == ls[a]);
                            assert(vector_outcome(op, ls.take(i as int)[a], rs, lm, outs[a]));
                            lemma_pick(rs, lm, sig@, j);
                            assert(call_ensures(op, (ls[a].1, rs[j].1), outs[a]));
                            assert(call_ensures(op, (ls[i as int].1, rs[j].1), o));
                            assert(!one_to_one_ok(op, ls, rs, lm));
                        }
                        return Err(Error::new("Many-to-one matching detected! If it's desired, use explicit group_left/group_right modifier"));
                    }
                    proof {
                        assert forall|a: int| 0 <= a < i && (#[trigger] outs[a]) is Some
                            implies signature(ls[a].0, lm) != signature(ls[i as int].0, lm) by {
                            lemma_matched_contains(ls, lm, outs, mv, i as int, a);
                            if signature(ls[a].0, lm) == signature(ls[i as int].0, lm) {
                                let m = choose|m: int| 0 <= m < mv.len() && mv[m] == signature(ls[a].0, lm);
                                assert(matched@[m]@ == sig@);
                            }
                        }
                    }
                    let mut result_labels = sig.copied();
                    if keep_name {
                        match labels.name() {
                            Some(name) => {
                                result_labels.set_name(name.clone());
                            },
                            None => {},
                        }
                    }
                    assert(result_labels@ == vector_relabel(lm, keep_name)(ls[i as int].0));
                    let ghost before = out@;
                    out.push((result_labels, v));
                    matched.push(sig);
                    assert(samples_view(out@) =~= samples_view(before).push((vector_relabel(lm, keep_name)(ls[i as int].0), v)));
                    assert(labels_view(matched@) =~= mv.push(signature(ls[i as int].0, lm)));
                },
                None => {},
            }
            proof {
                lemma_outcomes_step(op, ls, rs, lm, outs, i as int, o, vector_relabel(lm, keep_name));
                lemma_matched_step(ls, lm, outs, mv, i as int, o, labels_view(matched@));
                let outs0 = outs;
                outs = outs.push(o);
                assert forall|a: int, b: int| 0 <= a < b < outs.len() && (#[trigger] outs[a]) is Some && (#[trigger] outs[b]) is Some
                    implies signature(ls[a].0, lm) != signature(ls[b].0, lm) by {
                    assert(outs[a] == outs0[a]);
                    if b < i {
                        assert(outs[b] == outs0[b]);
                    }
                }
            }
            i = i + 1;
        }
        assert(ls.take(i as int) =~= ls);
        Ok(InstantVector { instant: self.instant, samples: out })
    }

    /// As `try_apply_vector_op_one_to_one`, for vectors at one instant whose
    /// right samples have distinct signatures and where no two left samples
    /// with one signature can both give a value.
    pub fn apply_vector_op_one_to_one(
        &self,
        op: impl Fn(V, V) -> Option<V>,
        other: &InstantVector<V>,
        label_matching: Option<&LabelMatching>,
        keep_name: bool,
    ) -> (r: InstantVector<V>)
        requires
            forall|a: V, b: V| call_requires(op, (a, b)),
            self@.instant == other@.instant,
            signatures_distinct(other@.samples, lm_view(label_matching)),
            one_to_one_ok(op, self@.samples, other@.samples, lm_view(label_matching)),
        ensures
            r@.instant == self@.instant,
            exists|outs: Seq<Option<V>>| #[trigger] vector_outcomes(op, self@.samples, other@.samples, lm_view(label_matching), outs)
                && distinct_outcomes(self@.samples, lm_view(label_matching), outs)
                && r@.samples == kept(self@.samples, outs, vector_relabel(lm_view(label_matching), keep_name)),
    {
        match self.try_apply_vector_op_one_to_one(op, other, label_matching, keep_name) {
            Ok(v) => v,
            Err(_) => {
                proof { assert(false); }
                InstantVector { instant: self.instant, samples: Vec::new() }
            },
        }
    }

    /// Many-to-one and one-to-many matching (`group_left`, `group_right`) is
    /// not supported: vectors at different instants are refused as by
    /// `try_apply_vector_op_one_to_one`, and any other input is refused as
    /// unsupported.
    pub fn apply_vector_op_one_to_many(
        &self,
        op: impl Fn(V, V) -> Option<V>,
        other: &InstantVector<V>,
        label_matching: Option<&LabelMatching>,
        include_labels: &Vec<String>,
    ) -> (r: Result<InstantVector<V>, Error>)
        ensures
            r is Err,
            r matches Err(e) && (if self@.instant != other@.instant {
                e.message_spec() == instant_msg()
            } else {
                e.message_spec() == unsupported_msg()
            }),
    {
        if self.instant != other.instant {
            return Err(Error::new("assertion failed: self.instant == other.instant"));
        }
        Err(Error::new("not implemented"))
    }

    /// The same operation with the operands' roles swapped (see
    /// `apply_vector_op_one_to_many`).
    pub fn apply_vector_op_many_to_one(
        &self,
        op: impl Fn(V, V) -> Option<V>,
        other: &InstantVector<V>,
        label_matching: Option<&LabelMatching>,
        include_labels: &Vec<String>,
    ) -> (r: Result<InstantVector<V>, Error>)
        ensures
            r is Err,
            r matches Err(e) && (if self@.instant != other@.instant {
                e.message_spec() == instant_msg()
            } else {
                e.message_spec() == unsupported_msg()
            }),
    {
        if other.instant != self.instant {
            return Err(Error::new("assertion failed: self.instant == other.instant"));
        }
        Err(Error::new("not implemented"))
    }

    /// A vector-vector operation by its group modifier: without one, the
    /// one-to-one matching; `group_left` many-to-one and `group_right`
    /// one-to-many, which are refused.
    pub fn try_apply_vector_op(
        &self,
        op: impl Fn(V, V) -> Option<V>,
        other: &InstantVector<V>,
        label_matching: Option<&LabelMatching>,
        group_modifier: Option<&GroupModifier>,
        keep_name: bool,
    ) -> (r: Result<InstantVector<V>, Error>)
        requires
            forall|a: V, b: V| call_requires(op, (a, b)),
        ensures
            match group_modifier {
                None => one_to_one_result(self@, other@, op, lm_view(label_matching), keep_name, result_view(r)),
                Some(_) => r matches Err(e) && e.message_spec() == if self@.instant != other@.instant {
                    instant_msg()
                } else {
                    unsupported_msg()
                },
            },
    {
        match group_modifier {
            None => self.try_apply_vector_op_one_to_one(op, other, label_matching, keep_name),
            Some(GroupModifier::Left(names)) => self.apply_vector_op_many_to_one(op, other, label_matching, names),
            Some(GroupModifier::Right(names)) => self.apply_vector_op_one_to_many(op, other, label_matching, names),
        }
    }
}

/// The samples of a range vector as maps and value series.
pub open spec fn range_samples_view<V>(s: Seq<(Labels, Vec<(V, Timestamp)>)>) -> Seq<(LabelMap, Seq<(V, Timestamp)>)> {
    s.map_values(|p: (Labels, Vec<(V, Timestamp)>)| (p.0@, p.1@))
}

/// A range vector as a mathematical value.
pub struct RangeVectorV<V> {
    pub instant: Timestamp,
    pub samples: Seq<(LabelMap, Seq<(V, Timestamp)>)>,
}

/// The samples of all series over a range ending at one instant.
#[derive(Debug)]
pub struct RangeVector<V> {
    instant: Timestamp,
    samples: Vec<(Labels, Vec<(V, Timestamp)>)>,
}

impl<V> View for RangeVector<V> {
    type V = RangeVectorV<V>;

    closed spec fn view(&self) -> RangeVectorV<V> {
        RangeVectorV { instant: self.instant, samples: range_samples_view(self.samples@) }
    }
}

impl<V: Copy> RangeVector<V> {
    pub fn new(instant: Timestamp, samples: Vec<(Labels, Vec<(V, Timestamp)>)>) -> (r: RangeVector<V>)
        ensures
            r@.instant == instant,
            r@.samples == range_samples_view(samples@),
    {
        RangeVector { instant, samples }
    }

    pub fn timestamp(&self) -> (t: Timestamp)
        ensures
            t == self@.instant,
    {
        self.instant
    }

    /// The values of series `i`.
    pub closed spec fn series(&self, i: int) -> Vec<(V, Timestamp)> {
        self.samples@[i].1
    }

    pub fn samples(&self) -> (s: &[(Labels, Vec<(V, Timestamp)>)])
        ensures
            range_samples_view(s@) == self@.samples,
    {
        self.samples.as_slice()
    }

    /// One sample per series: its labels without the metric name, and what
    /// `f` gives for its values (the aggregations over time).
    pub fn apply_over_time(&self, f: impl Fn(&Vec<(V, Timestamp)>) -> V) -> (r: InstantVector<V>)
        requires
            forall|s: &Vec<(V, Timestamp)>| call_requires(f, (s,)),
        ensures
            r@.instant == self@.instant,
            r@.samples.len() == self@.samples.len(),
            forall|i: int| 0 <= i < self@.samples.len() ==>
                (#[trigger] r@.samples[i]).0 == self@.samples[i].0.remove(name_label())
                && self.series(i)@ == self@.samples[i].1
                && call_ensures(f, (&self.series(i),), r@.samples[i].1),
    {
        let mut out: Vec<(Labels, V)> = Vec::new();
        let mut i: usize = 0;
        while i < self.samples.len()
            invariant
                i <= self.samples@.len(),
                out@.len() == i,
                forall|s: &Vec<(V, Timestamp)>| call_requires(f, (s,)),
                forall|k: int| 0 <= k < i ==>
                    (#[trigger] samples_view(out@)[k]).0 == self@.samples[k].0.remove(name_label())
                    && call_ensures(f, (&self.series(k),), samples_view(out@)[k].1),
            decreases self.samples@.len() - i,
        {
            let none: Vec<String> = Vec::new();
            let labels = self.samples[i].0.without(&none);
            assert(crate::query::parser::ast::strings_view(none@).to_set() =~= Set::<Seq<char>>::empty());
            assert(labels@ =~= self@.samples[i as int].0.remove(name_label()));
            let series = &self.samples[i].1;
            let v = f(series);
            let ghost before = out@;
            out.push((labels, v));
            proof {
                assert(series@ == self@.samples[i as int].1);
                assert(*series == self.series(i as int));
                assert forall|k: int| 0 <= k < i + 1 implies
                    (#[trigger] samples_view(out@)[k]).0 == self@.samples[k].0.remove(name_label())
                    && call_ensures(f, (&self.series(k),), samples_view(out@)[k].1) by {
                    if k < i {
                        assert(samples_view(out@)[k] == samples_view(before)[k]);
                    } else {
                        assert(samples_view(out@)[k] == (labels@, v));
                    }
                }
            }
            i = i + 1;
        }
        let r = InstantVector { instant: self.instant, samples: out };
        r
    }
}

/// What a query expression evaluates to, at each step.
#[derive(Debug)]
pub enum QueryValue<V> {
    InstantVector(InstantVector<V>),
    RangeVector(RangeVector<V>),
    Scalar(V),
}

/// The kind of a query value.
#[derive(Clone, Copy, Debug, PartialEq, Eq, Structural)]
pub enum QueryValueKind {
    InstantVector,
    RangeVector,
    Scalar,
}

impl<V> QueryValue<V> {
    pub open spec fn spec_kind(&self) -> QueryValueKind {
        match self {
            QueryValue::InstantVector(_) => QueryValueKind::InstantVector,
            QueryValue::RangeVector(_) => QueryValueKind::RangeVector,
            QueryValue::Scalar(_) => QueryValueKind::Scalar,
        }
    }

    pub fn kind(&self) -> (k: QueryValueKind)
        ensures
            k == self.spec_kind(),
    {
        match self {
            QueryValue::InstantVector(_) => QueryValueKind::InstantVector,
            QueryValue::RangeVector(_) => QueryValueKind::RangeVector,
            QueryValue::Scalar(_) => QueryValueKind::Scalar,
        }
    }
}


/// A scalar operation keeps every label of a sample, but drops the metric
/// name unless asked to keep it; it adds no label.
pub proof fn law_scalar_relabel(m: LabelMap, keep_name: bool, k: Seq<char>)
    ensures
        keep_name ==> scalar_relabel(keep_name)(m) == m,
        scalar_relabel(keep_name)(m).contains_key(k) <==> (m.contains_key(k) && (keep_name || k != name_label())),
        scalar_relabel(keep_name)(m).contains_key(k) ==> scalar_relabel(keep_name)(m)[k] == m[k],
{
}

} // verus!
