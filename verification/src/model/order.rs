//! The order of strings (character by character, as Rust orders `String`s) and
//! of lists of label pairs (lexicographically, pair by pair), and the sorted
//! list of the pairs of a label set: its signature.
use vstd::prelude::*;
use crate::model::label_set::{pairs_map, names_distinct, has_name, lemma_pairs_map_at};

verus! {

/// `a` comes before `b`: at the first position where they differ `a` has the
/// smaller character, or `a` is a proper prefix of `b`.
pub open spec fn str_lt(a: Seq<char>, b: Seq<char>) -> bool
    decreases a.len(),
{
    if b.len() == 0 {
        false
    } else if a.len() == 0 {
        true
    } else if a[0] != b[0] {
        a[0] < b[0]
    } else {
        str_lt(a.drop_first(), b.drop_first())
    }
}

pub proof fn lemma_str_lt_irrefl(a: Seq<char>)
    ensures
        !str_lt(a, a),
    decreases a.len(),
{
    if a.len() > 0 {
        lemma_str_lt_irrefl(a.drop_first());
    }
}

pub proof fn lemma_str_lt_total(a: Seq<char>, b: Seq<char>)
    ensures
        a == b || str_lt(a, b) || str_lt(b, a),
    decreases a.len(),
{
    if a.len() > 0 && b.len() > 0 && a[0] == b[0] {
        lemma_str_lt_total(a.drop_first(), b.drop_first());
        if a.drop_first() == b.drop_first() {
            assert(a =~= seq![a[0]] + a.drop_first());
            assert(b =~= seq![b[0]] + b.drop_first());
        }
    } else if a.len() == 0 && b.len() == 0 {
        assert(a =~= b);
    } else if a.len() > 0 && b.len() > 0 {
    }
}

pub proof fn lemma_str_lt_asym(a: Seq<char>, b: Seq<char>)
    ensures
        str_lt(a, b) ==> !str_lt(b, a),
    decreases a.len(),
{
    if a.len() > 0 && b.len() > 0 && a[0] == b[0] {
        lemma_str_lt_asym(a.drop_first(), b.drop_first());
    }
}

pub proof fn lemma_str_lt_trans(a: Seq<char>, b: Seq<char>, c: Seq<char>)
    requires
        str_lt(a, b),
        str_lt(b, c),
    ensures
        str_lt(a, c),
    decreases a.len(),
{
    if a.len() > 0 && b.len() > 0 && c.len() > 0 && a[0] == b[0] && b[0] == c[0] {
        lemma_str_lt_trans(a.drop_first(), b.drop_first(), c.drop_first());
    }
}

/// The order of label pairs: by name, then by value.
pub open spec fn pair_lt(a: (Seq<char>, Seq<char>), b: (Seq<char>, Seq<char>)) -> bool {
    str_lt(a.0, b.0) || (a.0 == b.0 && str_lt(a.1, b.1))
}

/// The lexicographic order of lists of label pairs.
pub open spec fn entries_lt(a: Seq<(Seq<char>, Seq<char>)>, b: Seq<(Seq<char>, Seq<char>)>) -> bool
    decreases a.len(),
{
    if b.len() == 0 {
        false
    } else if a.len() == 0 {
        true
    } else if a[0] != b[0] {
        pair_lt(a[0], b[0])
    } else {
        entries_lt(a.drop_first(), b.drop_first())
    }
}

pub proof fn lemma_pair_lt_facts(a: (Seq<char>, Seq<char>), b: (Seq<char>, Seq<char>), c: (Seq<char>, Seq<char>))
    ensures
        !pair_lt(a, a),
        a == b || pair_lt(a, b) || pair_lt(b, a),
        pair_lt(a, b) ==> !pair_lt(b, a),
        pair_lt(a, b) && pair_lt(b, c) ==> pair_lt(a, c),
{
    lemma_str_lt_irrefl(a.0);
    lemma_str_lt_irrefl(a.1);
    lemma_str_lt_total(a.0, b.0);
    lemma_str_lt_total(a.1, b.1);
    lemma_str_lt_asym(a.0, b.0);
    lemma_str_lt_asym(a.1, b.1);
    if pair_lt(a, b) && pair_lt(b, c) {
        if str_lt(a.0, b.0) && str_lt(b.0, c.0) {
            lemma_str_lt_trans(a.0, b.0, c.0);
        }
        if a.0 == b.0 && b.0 == c.0 && str_lt(a.1, b.1) && str_lt(b.1, c.1) {
            lemma_str_lt_trans(a.1, b.1, c.1);
        }
    }
}

pub proof fn lemma_entries_lt_irrefl(a: Seq<(Seq<char>, Seq<char>)>)
    ensures
        !entries_lt(a, a),
    decreases a.len(),
{
    if a.len() > 0 {
        lemma_entries_lt_irrefl(a.drop_first());
    }
}

pub proof fn lemma_entries_lt_total(a: Seq<(Seq<char>, Seq<char>)>, b: Seq<(Seq<char>, Seq<char>)>)
    ensures
        a == b || entries_lt(a, b) || entries_lt(b, a),
    decreases a.len(),
{
    if a.len() > 0 && b.len() > 0 {
        if a[0] == b[0] {
            lemma_entries_lt_total(a.drop_first(), b.drop_first());
            if a.drop_first() == b.drop_first() {
                assert(a =~= seq![a[0]] + a.drop_first());
                assert(b =~= seq![b[0]] + b.drop_first());
            }
        } else {
            lemma_pair_lt_facts(a[0], b[0], b[0]);
        }
    } else if a.len() == 0 && b.len() == 0 {
        assert(a =~= b);
    }
}

pub proof fn lemma_entries_lt_trans(a: Seq<(Seq<char>, Seq<char>)>, b: Seq<(Seq<char>, Seq<char>)>, c: Seq<(Seq<char>, Seq<char>)>)
    requires
        entries_lt(a, b),
        entries_lt(b, c),
    ensures
        entries_lt(a, c),
    decreases a.len(),
{
    if a.len() > 0 && b.len() > 0 && c.len() > 0 {
        lemma_pair_lt_facts(a[0], b[0], c[0]);
        lemma_pair_lt_facts(b[0], c[0], a[0]);
        lemma_pair_lt_facts(a[0], c[0], b[0]);
        if a[0] == b[0] && b[0] == c[0] {
            lemma_entries_lt_trans(a.drop_first(), b.drop_first(), c.drop_first());
        }
    }
}

/// The names of `s` strictly increase.
pub open spec fn sorted_names(s: Seq<(Seq<char>, Seq<char>)>) -> bool {
    forall|i: int, j: int| 0 <= i < j < s.len() ==> str_lt(#[trigger] s[i].0, #[trigger] s[j].0)
}

pub proof fn lemma_sorted_distinct(s: Seq<(Seq<char>, Seq<char>)>)
    requires
        sorted_names(s),
    ensures
        names_distinct(s),
{
    assert forall|i: int, j: int| 0 <= i < j < s.len() implies s[i].0 != s[j].0 by {
        lemma_str_lt_irrefl(s[i].0);
    }
}

/// The signature of a label set: its pairs sorted by name.
pub open spec fn signature_of(m: Map<Seq<char>, Seq<char>>) -> Seq<(Seq<char>, Seq<char>)> {
    choose|s: Seq<(Seq<char>, Seq<char>)>| sorted_names(s) && pairs_map(s) == m
}

/// Two lists sorted by name that stand for the same map are equal.
pub proof fn lemma_sorted_unique(p: Seq<(Seq<char>, Seq<char>)>, q: Seq<(Seq<char>, Seq<char>)>)
    requires
        sorted_names(p),
        sorted_names(q),
        pairs_map(p) == pairs_map(q),
    ensures
        p == q,
    decreases p.len(),
{
    lemma_sorted_distinct(p);
    lemma_sorted_distinct(q);
    if p.len() == 0 {
        if q.len() > 0 {
            lemma_pairs_map_at(q, 0);
        }
        assert(p =~= q);
    } else if q.len() == 0 {
        lemma_pairs_map_at(p, 0);
    } else {
        lemma_pairs_map_at(p, 0);
        lemma_pairs_map_at(q, 0);
        let x = p[0].0;
        let y = q[0].0;
        // The first names are the least names of the map.
        assert(pairs_map(q).contains_key(x));
        let j = choose|j: int| 0 <= j < q.len() && q[j].0 == x;
        assert(pairs_map(p).contains_key(y));
        let i = choose|i: int| 0 <= i < p.len() && p[i].0 == y;
        if j > 0 {
            assert(str_lt(q[0].0, q[j].0));
            if i > 0 {
                assert(str_lt(p[0].0, p[i].0));
                lemma_str_lt_asym(x, y);
            } else {
                lemma_str_lt_irrefl(x);
            }
        }
        assert(j == 0);
        lemma_pairs_map_at(p, 0);
        lemma_pairs_map_at(q, 0);
        assert(p[0] == q[0]);
        let pr = p.drop_first();
        let qr = q.drop_first();
        assert(sorted_names(pr)) by {
            assert forall|a: int, b: int| 0 <= a < b < pr.len() implies str_lt(#[trigger] pr[a].0, #[trigger] pr[b].0) by {
                assert(pr[a] == p[a + 1] && pr[b] == p[b + 1]);
            }
        }
        assert(sorted_names(qr)) by {
            assert forall|a: int, b: int| 0 <= a < b < qr.len() implies str_lt(#[trigger] qr[a].0, #[trigger] qr[b].0) by {
                assert(qr[a] == q[a + 1] && qr[b] == q[b + 1]);
            }
        }
        lemma_map_drop_first(p);
        lemma_map_drop_first(q);
        lemma_sorted_unique(pr, qr);
        assert(p =~= seq![p[0]] + pr);
        assert(q =~= seq![q[0]] + qr);
    }
}

/// Dropping the first pair of a list with distinct names drops its name from the map.
pub proof fn lemma_map_drop_first(p: Seq<(Seq<char>, Seq<char>)>)
    requires
        names_distinct(p),
        p.len() > 0,
    ensures
        pairs_map(p.drop_first()) == pairs_map(p).remove(p[0].0),
        names_distinct(p.drop_first()),
{
    let r = p.drop_first();
    assert(names_distinct(r)) by {
        assert forall|a: int, b: int| 0 <= a < b < r.len() implies r[a].0 != r[b].0 by {
            assert(r[a] == p[a + 1] && r[b] == p[b + 1]);
        }
    }
    assert forall|k: Seq<char>| #![auto] pairs_map(r).contains_key(k) == pairs_map(p).remove(p[0].0).contains_key(k) by {
        if has_name(r, k) {
            let a = choose|a: int| 0 <= a < r.len() && r[a].0 == k;
            assert(p[a + 1].0 == k);
            assert(p[0].0 != p[a + 1].0);
            assert(has_name(p, k));
        }
        if has_name(p, k) && k != p[0].0 {
            let a = choose|a: int| 0 <= a < p.len() && p[a].0 == k;
            assert(a != 0);
            assert(r[a - 1].0 == k);
        }
    }
    assert forall|k: Seq<char>| pairs_map(r).contains_key(k) implies pairs_map(r)[k] == pairs_map(p).remove(p[0].0)[k] by {
        let a = choose|a: int| 0 <= a < r.len() && r[a].0 == k;
        lemma_pairs_map_at(r, a);
        assert(r[a] == p[a + 1]);
        lemma_pairs_map_at(p, a + 1);
    }
    assert(pairs_map(r) =~= pairs_map(p).remove(p[0].0));
}

/// A list sorted by name is the signature of its map.
pub proof fn lemma_signature_of(p: Seq<(Seq<char>, Seq<char>)>)
    requires
        sorted_names(p),
    ensures
        signature_of(pairs_map(p)) == p,
{
    let q = signature_of(pairs_map(p));
    assert(sorted_names(p) && pairs_map(p) == pairs_map(p));
    lemma_sorted_unique(q, p);
}

/// How two values compare.
#[derive(Clone, Copy, Debug, PartialEq, Eq, Structural)]
pub enum Cmp {
    Less,
    Equal,
    Greater,
}

/// Compares two strings character by character.
pub fn compare_str(a: &String, b: &String) -> (r: Cmp)
    ensures
        r == Cmp::Less <==> str_lt(a@, b@),
        r == Cmp::Equal <==> a@ == b@,
        r == Cmp::Greater <==> str_lt(b@, a@),
{
    let x = crate::text::to_chars(a.as_str());
    let y = crate::text::to_chars(b.as_str());
    let mut i: usize = 0;
    while i < x.len() && i < y.len()
        invariant
            x@ == a@,
            y@ == b@,
            i <= x@.len(),
            i <= y@.len(),
            x@.take(i as int) == y@.take(i as int),
        decreases x@.len() - i,
    {
        if x[i] != y[i] {
            proof { lemma_str_lt_at(x@, y@, i as int); lemma_str_lt_at(y@, x@, i as int); }
            if x[i] < y[i] {
                return Cmp::Less;
            } else {
                return Cmp::Greater;
            }
        }
        assert(x@.take(i + 1) =~= x@.take(i as int).push(x@[i as int]));
        assert(y@.take(i + 1) =~= y@.take(i as int).push(y@[i as int]));
        i = i + 1;
    }
    proof {
        lemma_str_lt_prefix(x@, y@, i as int);
        lemma_str_lt_prefix(y@, x@, i as int);
        if x@.len() == y@.len() {
            assert(x@ =~= x@.take(i as int));
            assert(y@ =~= y@.take(i as int));
        }
        lemma_str_lt_irrefl(x@);
        lemma_str_lt_asym(x@, y@);
    }
    if x.len() < y.len() {
        Cmp::Less
    } else if x.len() == y.len() {
        Cmp::Equal
    } else {
        Cmp::Greater
    }
}

/// With a common prefix of length `i` and different characters at `i`, the
/// order is that of those characters.
proof fn lemma_str_lt_at(a: Seq<char>, b: Seq<char>, i: int)
    requires
        0 <= i < a.len(),
        i < b.len(),
        a.take(i) == b.take(i),
        a[i] != b[i],
    ensures
        str_lt(a, b) == (a[i] < b[i]),
    decreases i,
{
    if i > 0 {
        assert(a[0] == a.take(i)[0]);
        assert(b[0] == b.take(i)[0]);
        assert(a.drop_first().take(i - 1) =~= a.take(i).drop_first());
        assert(b.drop_first().take(i - 1) =~= b.take(i).drop_first());
        lemma_str_lt_at(a.drop_first(), b.drop_first(), i - 1);
    }
}

/// With a common prefix as long as the shorter one, the shorter comes first.
proof fn lemma_str_lt_prefix(a: Seq<char>, b: Seq<char>, i: int)
    requires
        0 <= i <= a.len(),
        i <= b.len(),
        i == a.len() || i == b.len(),
        a.take(i) == b.take(i),
    ensures
        str_lt(a, b) == (a.len() < b.len()),
    decreases i,
{
    if i > 0 {
        assert(a[0] == a.take(i)[0]);
        assert(b[0] == b.take(i)[0]);
        assert(a.drop_first().take(i - 1) =~= a.take(i).drop_first());
        assert(b.drop_first().take(i - 1) =~= b.take(i).drop_first());
        lemma_str_lt_prefix(a.drop_first(), b.drop_first(), i - 1);
    }
}


/// Inserting a pair whose name is new adds it to the map.
pub proof fn lemma_map_insert_at(s: Seq<(Seq<char>, Seq<char>)>, j: int, p: (Seq<char>, Seq<char>))
    requires
        names_distinct(s),
        !has_name(s, p.0),
        0 <= j <= s.len(),
    ensures
        names_distinct(s.insert(j, p)),
        pairs_map(s.insert(j, p)) == pairs_map(s).insert(p.0, p.1),
{
    let t = s.insert(j, p);
    assert forall|a: int| 0 <= a < t.len() implies #[trigger] t[a] == (if a < j { s[a] } else if a == j { p } else { s[a - 1] }) by {}
    assert(names_distinct(t)) by {
        assert forall|a: int, b: int| 0 <= a < b < t.len() implies t[a].0 != t[b].0 by {
            if a != j && b != j {
                let a1 = if a < j { a } else { a - 1 };
                let b1 = if b < j { b } else { b - 1 };
                assert(s[a1].0 != s[b1].0);
            } else if a == j {
                let b1 = b - 1;
                assert(s[b1].0 != p.0 || has_name(s, p.0));
            } else {
                assert(s[a].0 != p.0 || has_name(s, p.0));
            }
        }
    }
    assert forall|k: Seq<char>| #![auto] pairs_map(t).contains_key(k) == pairs_map(s).insert(p.0, p.1).contains_key(k) by {
        if has_name(t, k) {
            let a = choose|a: int| 0 <= a < t.len() && t[a].0 == k;
            if a < j { assert(s[a].0 == k); assert(has_name(s, k)); }
            else if a > j { assert(s[a - 1].0 == k); assert(has_name(s, k)); }
        }
        if has_name(s, k) {
            let a = choose|a: int| 0 <= a < s.len() && s[a].0 == k;
            if a < j { assert(t[a].0 == k); } else { assert(t[a + 1].0 == k); }
        }
        if k == p.0 {
            assert(t[j].0 == k);
        }
    }
    assert forall|k: Seq<char>| pairs_map(t).contains_key(k) implies pairs_map(t)[k] == pairs_map(s).insert(p.0, p.1)[k] by {
        let a = choose|a: int| 0 <= a < t.len() && t[a].0 == k;
        lemma_pairs_map_at(t, a);
        if a < j {
            lemma_pairs_map_at(s, a);
            assert(k != p.0 || has_name(s, p.0));
        } else if a > j {
            lemma_pairs_map_at(s, a - 1);
            assert(k != p.0 || has_name(s, p.0));
        }
    }
    assert(pairs_map(t) =~= pairs_map(s).insert(p.0, p.1));
}

/// The pairs of `v`, sorted by name; the names of `v` must be distinct.
pub fn sort_by_name(v: &Vec<(String, String)>) -> (r: Vec<(String, String)>)
    requires
        names_distinct(crate::model::label_set::pairs_view(v@)),
    ensures
        sorted_names(crate::model::label_set::pairs_view(r@)),
        pairs_map(crate::model::label_set::pairs_view(r@)) == pairs_map(crate::model::label_set::pairs_view(v@)),
{
    let ghost src = crate::model::label_set::pairs_view(v@);
    let mut out: Vec<(String, String)> = Vec::new();
    let mut i: usize = 0;
    assert(pairs_map(crate::model::label_set::pairs_view(out@)) =~= pairs_map(src.take(0)));
    while i < v.len()
        invariant
            i <= v@.len(),
            src == crate::model::label_set::pairs_view(v@),
            names_distinct(src),
            sorted_names(crate::model::label_set::pairs_view(out@)),
            names_distinct(crate::model::label_set::pairs_view(out@)),
            pairs_map(crate::model::label_set::pairs_view(out@)) == pairs_map(src.take(i as int)),
        decreases v@.len() - i,
    {
        let ghost ov = crate::model::label_set::pairs_view(out@);
        let ghost p = src[i as int];
        assert(!has_name(src.take(i as int), p.0)) by {
            if has_name(src.take(i as int), p.0) {
                let a = choose|a: int| 0 <= a < src.take(i as int).len() && src.take(i as int)[a].0 == p.0;
                assert(src[a].0 == src[i as int].0);
            }
        }
        let mut j: usize = 0;
        while j < out.len() && compare_str(&out[j].0, &v[i].0) == Cmp::Less
            invariant
                j <= out@.len(),
                ov == crate::model::label_set::pairs_view(out@),
                p == src[i as int],
                i < v@.len(),
                src == crate::model::label_set::pairs_view(v@),
                forall|a: int| 0 <= a < j ==> str_lt(#[trigger] ov[a].0, p.0),
            decreases out@.len() - j,
        {
            j = j + 1;
        }
        let n = v[i].0.clone();
        let x = v[i].1.clone();
        out.insert(j, (n, x));
        proof {
            let nv = crate::model::label_set::pairs_view(out@);
            assert(nv =~= ov.insert(j as int, p));
            assert(pairs_map(ov).contains_key(p.0) == has_name(ov, p.0));
            assert(pairs_map(src.take(i as int)).contains_key(p.0) == has_name(src.take(i as int), p.0));
            assert(!has_name(ov, p.0));
            if j < ov.len() {
                lemma_str_lt_total(ov[j as int].0, p.0);
                assert(ov[j as int].0 != p.0);
                assert(str_lt(p.0, ov[j as int].0));
            }
            assert(sorted_names(nv)) by {
                assert forall|a: int, b: int| 0 <= a < b < nv.len() implies str_lt(#[trigger] nv[a].0, #[trigger] nv[b].0) by {
                    if b < j {
                        assert(nv[a] == ov[a] && nv[b] == ov[b]);
                    } else if b == j {
                        assert(nv[a] == ov[a]);
                    } else if a == j {
                        assert(nv[b] == ov[b - 1]);
                        if b - 1 > j {
                            assert(str_lt(ov[j as int].0, ov[b - 1].0));
                            lemma_str_lt_trans(p.0, ov[j as int].0, ov[b - 1].0);
                        }
                    } else if a < j {
                        assert(nv[a] == ov[a] && nv[b] == ov[b - 1]);
                        if b - 1 >= j {
                            if j < ov.len() {
                                lemma_str_lt_trans(ov[a].0, p.0, ov[j as int].0);
                                if b - 1 > j {
                                    lemma_str_lt_trans(ov[a].0, ov[j as int].0, ov[b - 1].0);
                                }
                            }
                        }
                    } else {
                        assert(nv[a] == ov[a - 1] && nv[b] == ov[b - 1]);
                    }
                }
            }
            lemma_map_insert_at(ov, j as int, p);
            let t = src.take(i + 1);
            assert(t =~= src.take(i as int).push(p));
            assert(src.take(i as int).push(p) == src.take(i as int).insert(i as int, p));
            lemma_sorted_distinct(nv);
            assert(names_distinct(src.take(i as int))) by {
                assert forall|a: int, b: int| 0 <= a < b < src.take(i as int).len() implies src.take(i as int)[a].0 != src.take(i as int)[b].0 by {
                    assert(src.take(i as int)[a] == src[a] && src.take(i as int)[b] == src[b]);
                }
            }
            lemma_map_insert_at(src.take(i as int), i as int, p);
        }
        i = i + 1;
    }
    assert(src.take(i as int) =~= src);
    out
}

/// Compares two lists of label pairs lexicographically.
pub fn compare_entries(a: &Vec<(String, String)>, b: &Vec<(String, String)>) -> (r: Cmp)
    ensures
        r == Cmp::Less <==> entries_lt(crate::model::label_set::pairs_view(a@), crate::model::label_set::pairs_view(b@)),
        r == Cmp::Equal <==> crate::model::label_set::pairs_view(a@) == crate::model::label_set::pairs_view(b@),
        r == Cmp::Greater <==> entries_lt(crate::model::label_set::pairs_view(b@), crate::model::label_set::pairs_view(a@)),
{
    let ghost x = crate::model::label_set::pairs_view(a@);
    let ghost y = crate::model::label_set::pairs_view(b@);
    let mut i: usize = 0;
    while i < a.len() && i < b.len()
        invariant
            x == crate::model::label_set::pairs_view(a@),
            y == crate::model::label_set::pairs_view(b@),
            i <= a@.len(),
            i <= b@.len(),
            x.take(i as int) == y.take(i as int),
        decreases a@.len() - i,
    {
        let c1 = compare_str(&a[i].0, &b[i].0);
        let c = if c1 == Cmp::Equal { compare_str(&a[i].1, &b[i].1) } else { c1 };
        if c != Cmp::Equal {
            proof {
                assert(x[i as int] != y[i as int]);
                lemma_entries_lt_at(x, y, i as int);
                lemma_entries_lt_at(y, x, i as int);
                lemma_pair_lt_facts(x[i as int], y[i as int], y[i as int]);
            }
            return c;
        }
        assert(x[i as int] == y[i as int]);
        assert(x.take(i + 1) =~= x.take(i as int).push(x[i as int]));
        assert(y.take(i + 1) =~= y.take(i as int).push(y[i as int]));
        i = i + 1;
    }
    proof {
        lemma_entries_lt_prefix(x, y, i as int);
        lemma_entries_lt_prefix(y, x, i as int);
        if x.len() == y.len() {
            assert(x =~= x.take(i as int));
            assert(y =~= y.take(i as int));
        }
        lemma_entries_lt_irrefl(x);
    }
    if a.len() < b.len() {
        Cmp::Less
    } else if a.len() == b.len() {
        Cmp::Equal
    } else {
        Cmp::Greater
    }
}

proof fn lemma_entries_lt_at(a: Seq<(Seq<char>, Seq<char>)>, b: Seq<(Seq<char>, Seq<char>)>, i: int)
    requires
        0 <= i < a.len(),
        i < b.len(),
        a.take(i) == b.take(i),
        a[i] != b[i],
    ensures
        entries_lt(a, b) == pair_lt(a[i], b[i]),
    decreases i,
{
    if i > 0 {
        assert(a[0] == a.take(i)[0]);
        assert(b[0] == b.take(i)[0]);
        assert(a.drop_first().take(i - 1) =~= a.take(i).drop_first());
        assert(b.drop_first().take(i - 1) =~= b.take(i).drop_first());
        lemma_entries_lt_at(a.drop_first(), b.drop_first(), i - 1);
    }
}

proof fn lemma_entries_lt_prefix(a: Seq<(Seq<char>, Seq<char>)>, b: Seq<(Seq<char>, Seq<char>)>, i: int)
    requires
        0 <= i <= a.len(),
        i <= b.len(),
        i == a.len() || i == b.len(),
        a.take(i) == b.take(i),
    ensures
        entries_lt(a, b) == (a.len() < b.len()),
    decreases i,
{
    if i > 0 {
        assert(a[0] == a.take(i)[0]);
        assert(b[0] == b.take(i)[0]);
        assert(a.drop_first().take(i - 1) =~= a.take(i).drop_first());
        assert(b.drop_first().take(i - 1) =~= b.take(i).drop_first());
        lemma_entries_lt_prefix(a.drop_first(), b.drop_first(), i - 1);
    }
}

} // verus!
