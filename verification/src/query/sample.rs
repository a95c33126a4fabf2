//! Samples of the input and their distribution to the readers (cursors) of a
//! query: each cursor receives every sample pushed after it was made, in order.
use vstd::prelude::*;
use crate::model::label_set::Labels;
use crate::model::labels::name_label;
use crate::query::value::{LabelMap, Timestamp};

verus! {

/// A sample as a mathematical value.
pub struct SampleV<V> {
    pub value: V,
    pub timestamp: Timestamp,
    pub labels: LabelMap,
}

/// One value of one series at one instant.
#[derive(Debug)]
pub struct Sample<V> {
    value: V,
    timestamp: Timestamp,
    labels: Labels,
}

impl<V> View for Sample<V> {
    type V = SampleV<V>;

    closed spec fn view(&self) -> SampleV<V> {
        SampleV { value: self.value, timestamp: self.timestamp, labels: self.labels@ }
    }
}

impl<V: Copy> Sample<V> {
    /// A sample of the metric `name`: the name is stored as the label `__name__`.
    pub fn new(name: String, value: V, timestamp: Timestamp, labels: Labels) -> (s: Sample<V>)
        ensures
            s@ == (SampleV { value, timestamp, labels: labels@.insert(name_label(), name@) }),
    {
        let mut labels = labels;
        labels.insert("__name__".to_owned(), name);
        Sample { value, timestamp, labels }
    }

    pub fn value(&self) -> (v: V)
        ensures
            v == self@.value,
    {
        self.value
    }

    pub fn timestamp(&self) -> (t: Timestamp)
        ensures
            t == self@.timestamp,
    {
        self.timestamp
    }

    pub fn labels(&self) -> (l: &Labels)
        ensures
            l@ == self@.labels,
    {
        &self.labels
    }

    /// The value of the label `name`.
    pub fn label(&self, name: &String) -> (r: Option<&String>)
        ensures
            match r {
                Some(v) => self@.labels.contains_key(name@) && self@.labels[name@] == v@,
                None => !self@.labels.contains_key(name@),
            },
    {
        self.labels.get(name)
    }

    /// A copy of the sample.
    pub fn copied(&self) -> (s: Sample<V>)
        ensures
            s@ == self@,
    {
        Sample { value: self.value, timestamp: self.timestamp, labels: self.labels.copied() }
    }
}

/// A record of the input: where it was read, its timestamp if it has one, its
/// labels and its named values (no two with one name).
pub struct Record<V> {
    line_no: usize,
    timestamp: Option<Timestamp>,
    labels: Labels,
    values: Vec<(String, V)>,
}

/// No two values have one name.
pub open spec fn value_names_distinct<V>(v: Seq<(Seq<char>, V)>) -> bool {
    forall|i: int, j: int| 0 <= i < j < v.len() ==> (#[trigger] v[i]).0 != (#[trigger] v[j]).0
}

/// The values `v` with `name` set to `x`: in its place where the name is
/// there, else last.
pub open spec fn set_value<V>(v: Seq<(Seq<char>, V)>, name: Seq<char>, x: V) -> Seq<(Seq<char>, V)> {
    if exists|k: int| 0 <= k < v.len() && (#[trigger] v[k]).0 == name {
        v.update(choose|k: int| 0 <= k < v.len() && (#[trigger] v[k]).0 == name, (name, x))
    } else {
        v.push((name, x))
    }
}

impl<V> Record<V> {
    #[verifier::type_invariant]
    closed spec fn inv(self) -> bool {
        value_names_distinct(values_view(self.values@))
    }

    pub closed spec fn line_no_spec(&self) -> usize {
        self.line_no
    }

    pub closed spec fn timestamp_spec(&self) -> Option<Timestamp> {
        self.timestamp
    }

    pub closed spec fn labels_spec(&self) -> LabelMap {
        self.labels@
    }

    pub closed spec fn values_spec(&self) -> Seq<(Seq<char>, V)> {
        values_view(self.values@)
    }

    /// A record without values.
    pub fn new(line_no: usize, timestamp: Option<Timestamp>, labels: Labels) -> (r: Record<V>)
        ensures
            r.line_no_spec() == line_no,
            r.timestamp_spec() == timestamp,
            r.labels_spec() == labels@,
            r.values_spec() == Seq::<(Seq<char>, V)>::empty(),
    {
        let r = Record { line_no, timestamp, labels, values: Vec::new() };
        assert(values_view(r.values@) =~= Seq::<(Seq<char>, V)>::empty());
        r
    }

    /// Sets the value named `name` to `x`.
    pub fn set(&mut self, name: String, x: V)
        ensures
            final(self).values_spec() == set_value(old(self).values_spec(), name@, x),
            final(self).line_no_spec() == old(self).line_no_spec(),
            final(self).timestamp_spec() == old(self).timestamp_spec(),
            final(self).labels_spec() == old(self).labels_spec(),
    {
        proof {
            use_type_invariant(&*self);
        }
        let ghost v0 = values_view(self.values@);
        let ghost l0 = self.line_no;
        let ghost t0 = self.timestamp;
        let ghost m0 = self.labels@;
        assert(value_names_distinct(v0));
        let mut k: usize = 0;
        while k < self.values.len()
            invariant
                k <= self.values@.len(),
                v0 == values_view(self.values@),
                value_names_distinct(v0),
                self.line_no == l0 && self.timestamp == t0 && self.labels@ == m0,
                l0 == old(self).line_no_spec() && t0 == old(self).timestamp_spec() && m0 == old(self).labels_spec(),
                v0 == old(self).values_spec(),
                forall|j: int| 0 <= j < k ==> (#[trigger] v0[j]).0 != name@,
            decreases self.values@.len() - k,
        {
            if self.values[k].0 == name {
                let mut vals: Vec<(String, V)> = Vec::new();
                std::mem::swap(&mut vals, &mut self.values);
                proof {
                    assert(v0[k as int].0 == name@);
                    let c = choose|c: int| 0 <= c < v0.len() && (#[trigger] v0[c]).0 == name@;
                    if c != k as int {
                        if c < k {
                            assert(v0[c].0 != name@);
                        } else {
                            assert(v0[k as int].0 != v0[c].0);
                        }
                    }
                }
                vals.set(k, (name, x));
                proof {
                    assert(values_view(vals@) =~= v0.update(k as int, (name@, x)));
                    assert forall|i: int, j: int| 0 <= i < j < values_view(vals@).len()
                        implies (#[trigger] values_view(vals@)[i]).0 != (#[trigger] values_view(vals@)[j]).0 by {
                        if i != k && j != k {
                            assert(values_view(vals@)[i] == v0[i] && values_view(vals@)[j] == v0[j]);
                        } else if i == k {
                            assert(values_view(vals@)[j] == v0[j]);
                            assert(v0[k as int].0 != v0[j].0);
                        } else {
                            assert(values_view(vals@)[i] == v0[i]);
                            assert(v0[i].0 != v0[k as int].0);
                        }
                    }
                }
                self.values = vals;
                return;
            }
            k = k + 1;
        }
        let mut vals: Vec<(String, V)> = Vec::new();
        std::mem::swap(&mut vals, &mut self.values);
        vals.push((name, x));
        proof {
            assert(values_view(vals@) =~= v0.push((name@, x)));
            assert forall|i: int, j: int| 0 <= i < j < values_view(vals@).len()
                implies (#[trigger] values_view(vals@)[i]).0 != (#[trigger] values_view(vals@)[j]).0 by {
                assert(values_view(vals@)[i] == v0[i]);
                if j < v0.len() {
                    assert(values_view(vals@)[j] == v0[j]);
                }
            }
        }
        self.values = vals;
    }

    pub fn line_no(&self) -> (n: usize)
        ensures
            n == self.line_no_spec(),
    {
        self.line_no
    }

    pub fn timestamp(&self) -> (t: Option<Timestamp>)
        ensures
            t == self.timestamp_spec(),
    {
        self.timestamp
    }

    pub fn labels(&self) -> (l: &Labels)
        ensures
            l@ == self.labels_spec(),
    {
        &self.labels
    }

    /// The named values, no two with one name.
    pub fn values(&self) -> (v: &Vec<(String, V)>)
        ensures
            values_view(v@) == self.values_spec(),
            value_names_distinct(self.values_spec()),
    {
        proof {
            use_type_invariant(self);
        }
        &self.values
    }
}

pub open spec fn line_label() -> Seq<char> {
    "__line__"@
}

/// The named values of a record as character sequences.
pub open spec fn values_view<V>(v: Seq<(String, V)>) -> Seq<(Seq<char>, V)> {
    v.map_values(|p: (String, V)| (p.0@, p.1))
}

/// The values of a record with `__line__` set to `line`: any earlier
/// `__line__` value is dropped and the new one comes last.
pub open spec fn with_line<V>(values: Seq<(Seq<char>, V)>, line: V) -> Seq<(Seq<char>, V)> {
    values.filter(|p: (Seq<char>, V)| p.0 != line_label()).push((line_label(), line))
}

/// The samples of a record at `timestamp`: one per named value, in order.
pub open spec fn record_samples<V>(values: Seq<(Seq<char>, V)>, timestamp: Timestamp, labels: LabelMap) -> Seq<SampleV<V>> {
    values.map_values(|p: (Seq<char>, V)| SampleV { value: p.1, timestamp, labels: labels.insert(name_label(), p.0) })
}

/// One read of a cursor whose queue is `q`: its first sample, if any, and
/// what is left.
pub open spec fn read_step<V>(q: Seq<SampleV<V>>) -> (Option<SampleV<V>>, Seq<SampleV<V>>) {
    if q.len() > 0 {
        (Some(q[0]), q.drop_first())
    } else {
        (None, q)
    }
}

/// What `n` reads of a cursor whose queue is `q` give.
pub open spec fn reads<V>(q: Seq<SampleV<V>>, n: nat) -> Seq<Option<SampleV<V>>>
    decreases n,
{
    if n == 0 {
        Seq::empty()
    } else {
        seq![read_step(q).0] + reads(read_step(q).1, (n - 1) as nat)
    }
}

pub open spec fn sample_opt_view<V>(r: Option<Sample<V>>) -> Option<SampleV<V>> {
    match r {
        Some(s) => Some(s@),
        None => None,
    }
}

/// A reader's handle.
#[derive(Clone, Copy, Debug, PartialEq, Eq, Structural)]
pub struct Cursor {
    id: usize,
}

impl Cursor {
    pub closed spec fn id(&self) -> nat {
        self.id as nat
    }

    /// The next sample of this cursor, if one is waiting; `None` means that
    /// the reader needs another record (see `SampleReader::refill`).
    pub fn read<V: Copy>(&self, reader: &mut SampleReader<V>) -> (r: Option<Sample<V>>)
        requires
            self.id() < old(reader)@.len(),
        ensures
            final(reader)@.len() == old(reader)@.len(),
            match r {
                Some(s) => {
                    &&& old(reader)@[self.id() as int].len() > 0
                    &&& s@ == old(reader)@[self.id() as int][0]
                    &&& final(reader)@ == old(reader)@.update(self.id() as int, old(reader)@[self.id() as int].drop_first())
                },
                None => old(reader)@[self.id() as int].len() == 0 && final(reader)@ == old(reader)@,
            },
            (sample_opt_view(r), final(reader)@[self.id() as int]) == read_step(old(reader)@[self.id() as int]),
    {
        reader.pop(self.id)
    }
}

/// The samples waiting for each cursor, as sequences.
pub open spec fn buffers_view<V>(b: Seq<std::collections::VecDeque<Sample<V>>>) -> Seq<Seq<SampleV<V>>> {
    b.map_values(|q: std::collections::VecDeque<Sample<V>>| q@.map_values(|s: Sample<V>| s@))
}

/// Distributes the samples of the input to its cursors. Each cursor has a
/// queue of the samples it has yet to read.
pub struct SampleReader<V> {
    buffers: Vec<std::collections::VecDeque<Sample<V>>>,
}

impl<V> View for SampleReader<V> {
    type V = Seq<Seq<SampleV<V>>>;

    closed spec fn view(&self) -> Seq<Seq<SampleV<V>>> {
        buffers_view(self.buffers@)
    }
}

impl<V: Copy> SampleReader<V> {
    /// A reader without cursors.
    pub fn new() -> (r: SampleReader<V>)
        ensures
            r@ == Seq::<Seq<SampleV<V>>>::empty(),
    {
        let r = SampleReader { buffers: Vec::new() };
        assert(r@ =~= Seq::<Seq<SampleV<V>>>::empty());
        r
    }

    /// A new cursor, which receives the samples pushed from now on.
    pub fn cursor(&mut self) -> (c: Cursor)
        ensures
            c.id() == old(self)@.len(),
            final(self)@ == old(self)@.push(Seq::empty()),
    {
        let id = self.buffers.len();
        let ghost before = self.buffers@;
        self.buffers.push(std::collections::VecDeque::new());
        assert(self.buffers@[id as int]@.map_values(|s: Sample<V>| s@) =~= Seq::<SampleV<V>>::empty());
        assert(self@ =~= buffers_view(before).push(Seq::empty()));
        Cursor { id }
    }

    fn pop(&mut self, id: usize) -> (r: Option<Sample<V>>)
        requires
            id < old(self)@.len(),
        ensures
            final(self)@.len() == old(self)@.len(),
            match r {
                Some(s) => {
                    &&& old(self)@[id as int].len() > 0
                    &&& s@ == old(self)@[id as int][0]
                    &&& final(self)@ == old(self)@.update(id as int, old(self)@[id as int].drop_first())
                },
                None => old(self)@[id as int].len() == 0 && final(self)@ == old(self)@,
            },
    {
        let ghost before = self.buffers@;
        let mut q = self.buffers.remove(id);
        let r = q.pop_front();
        self.buffers.insert(id, q);
        let ghost after = self.buffers@;
        assert(after == before.update(id as int, q));
        proof {
            match r {
                Some(_) => {
                    assert(q@.map_values(|s: Sample<V>| s@) =~= before[id as int]@.map_values(|s: Sample<V>| s@).drop_first());
                    assert(self@ =~= buffers_view(before).update(id as int, buffers_view(before)[id as int].drop_first()));
                },
                None => {
                    assert(self@ =~= buffers_view(before));
                },
            }
        }
        r
    }

    /// Appends `s` to the queue of every cursor.
    fn push_all(&mut self, s: &Sample<V>)
        ensures
            final(self)@.len() == old(self)@.len(),
            forall|c: int| 0 <= c < old(self)@.len() ==> #[trigger] final(self)@[c] == old(self)@[c].push(s@),
    {
        let ghost start = self@;
        let mut c: usize = 0;
        while c < self.buffers.len()
            invariant
                c <= self@.len(),
                self@.len() == start.len(),
                forall|j: int| 0 <= j < c ==> #[trigger] self@[j] == start[j].push(s@),
                forall|j: int| c <= j < start.len() ==> #[trigger] self@[j] == start[j],
            decreases self@.len() - c,
        {
            let ghost before = self.buffers@;
            let ghost oldv = self@;
            let mut q = self.buffers.remove(c);
            q.push_back(s.copied());
            self.buffers.insert(c, q);
            proof {
                assert(self.buffers@ == before.update(c as int, q));
                assert(oldv[c as int] == start[c as int]);
                assert(oldv[c as int] == before[c as int]@.map_values(|x: Sample<V>| x@));
                assert(q@.map_values(|x: Sample<V>| x@) =~= before[c as int]@.map_values(|x: Sample<V>| x@).push(s@));
                assert forall|j: int| 0 <= j < start.len() implies #[trigger] self@[j] == (if j <= c { start[j].push(s@) } else { start[j] }) by {
                    if j != c {
                        assert(self.buffers@[j] == before[j]);
                        assert(self@[j] == oldv[j]);
                    } else {
                        assert(self@[j] == q@.map_values(|x: Sample<V>| x@));
                    }
                }
            }
            c = c + 1;
        }
    }

    /// Takes a record of the input. A record without a timestamp is skipped
    /// (`false`); otherwise each of its values, with `__line__` set to `line`,
    /// becomes a sample that every cursor receives, in the order of the values
    /// (`true`).
    pub fn refill(&mut self, record: &Record<V>, line: V) -> (taken: bool)
        ensures
            taken == record.timestamp_spec() is Some,
            final(self)@.len() == old(self)@.len(),
            forall|c: int| 0 <= c < old(self)@.len() ==> #[trigger] final(self)@[c] == match record.timestamp_spec() {
                Some(t) => old(self)@[c] + record_samples(with_line(record.values_spec(), line), t, record.labels_spec()),
                None => old(self)@[c],
            },
    {
        let ts = match record.timestamp {
            Some(t) => t,
            None => {
                assert forall|c: int| 0 <= c < old(self)@.len() implies #[trigger] self@[c] == old(self)@[c] by {}
                return false;
            },
        };
        let ghost start = self@;
        let values = lined(&record.values, line);
        let ghost all = record_samples(values_view(values@), ts, record.labels@);
        let mut i: usize = 0;
        while i < values.len()
            invariant
                i <= values@.len(),
                all == record_samples(values_view(values@), ts, record.labels@),
                self@.len() == start.len(),
                forall|c: int| 0 <= c < start.len() ==> #[trigger] self@[c] == start[c] + all.take(i as int),
            decreases values@.len() - i,
        {
            let s = Sample::new(values[i].0.clone(), values[i].1, ts, record.labels.copied());
            assert(s@ == all[i as int]);
            let ghost mid = self@;
            self.push_all(&s);
            assert forall|c: int| 0 <= c < start.len() implies #[trigger] self@[c] == start[c] + all.take(i + 1) by {
                assert(self@[c] == mid[c].push(s@));
                assert(all.take(i + 1) =~= all.take(i as int).push(all[i as int]));
                assert(start[c] + all.take(i + 1) =~= (start[c] + all.take(i as int)).push(all[i as int]));
            }
            i = i + 1;
        }
        assert(all.take(i as int) =~= all);
        true
    }
}

/// The samples that a record, read as line `line`, gives every cursor.
pub open spec fn record_feed<V>(record: Record<V>, line: V) -> Seq<SampleV<V>> {
    match record.timestamp_spec() {
        Some(t) => record_samples(with_line(record.values_spec(), line), t, record.labels_spec()),
        None => Seq::empty(),
    }
}

/// The samples that records, each with its line, give every cursor, in order.
pub open spec fn fed<V>(records: Seq<(Record<V>, V)>) -> Seq<SampleV<V>>
    decreases records.len(),
{
    if records.len() == 0 {
        Seq::empty()
    } else {
        fed(records.drop_last()) + record_feed(records.last().0, records.last().1)
    }
}

/// The queues of the cursors after `records` are taken: each gets their
/// samples behind what it held.
pub open spec fn feed_state<V>(queues: Seq<Seq<SampleV<V>>>, records: Seq<(Record<V>, V)>) -> Seq<Seq<SampleV<V>>> {
    Seq::new(queues.len(), |c: int| queues[c] + fed(records))
}

proof fn lemma_fed_append<V>(a: Seq<(Record<V>, V)>, b: Seq<(Record<V>, V)>)
    ensures
        fed(a + b) == fed(a) + fed(b),
    decreases b.len(),
{
    if b.len() == 0 {
        assert(a + b =~= a);
        assert(fed(a) + fed(b) =~= fed(a));
    } else {
        lemma_fed_append(a, b.drop_last());
        assert((a + b).drop_last() =~= a + b.drop_last());
        assert((a + b).last() == b.last());
        let x = record_feed(b.last().0, b.last().1);
        assert(fed(a) + fed(b) =~= (fed(a) + fed(b.drop_last())) + x);
    }
}

/// Records taken in two parts give every cursor what they give taken at
/// once; a cursor made between the parts receives the samples of the second
/// part only, and those in the same order as every older cursor.
pub proof fn law_cursors_receive_in_order<V>(queues: Seq<Seq<SampleV<V>>>, a: Seq<(Record<V>, V)>, b: Seq<(Record<V>, V)>)
    ensures
        ({
            let after = feed_state(feed_state(queues, a).push(Seq::empty()), b);
            &&& after.len() == queues.len() + 1
            &&& after[queues.len() as int] == fed(b)
            &&& forall|c: int| 0 <= c < queues.len() ==> #[trigger] after[c] == queues[c] + fed(a + b)
        }),
{
    lemma_fed_append(a, b);
    let mid = feed_state(queues, a).push(Seq::empty());
    let after = feed_state(mid, b);
    assert(mid[queues.len() as int] == Seq::<SampleV<V>>::empty());
    assert(after[queues.len() as int] =~= fed(b));
    assert forall|c: int| 0 <= c < queues.len() implies #[trigger] after[c] == queues[c] + fed(a + b) by {
        assert(mid[c] == queues[c] + fed(a));
        assert(after[c] =~= queues[c] + fed(a + b));
    }
}

proof fn lemma_reads<V>(q: Seq<SampleV<V>>, k: nat)
    ensures
        reads(q, q.len() + k) == q.map_values(|x: SampleV<V>| Some(x)) + Seq::new(k, |i: int| None::<SampleV<V>>),
    decreases q.len() + k,
{
    if q.len() > 0 {
        lemma_reads(q.drop_first(), k);
        assert(q.len() + k - 1 == q.drop_first().len() + k);
        assert(reads(q, q.len() + k) =~= q.map_values(|x: SampleV<V>| Some(x)) + Seq::new(k, |i: int| None::<SampleV<V>>));
    } else if k > 0 {
        lemma_reads(q, (k - 1) as nat);
        assert(reads(q, q.len() + k) =~= q.map_values(|x: SampleV<V>| Some(x)) + Seq::new(k, |i: int| None::<SampleV<V>>));
    } else {
        assert(reads(q, 0) =~= q.map_values(|x: SampleV<V>| Some(x)) + Seq::new(0, |i: int| None::<SampleV<V>>));
    }
}

/// A cursor that had nothing left to read when `records` were taken then
/// reads, record by record in their order, the samples of those with a
/// timestamp (each value, then `__line__`), and after them nothing.
pub proof fn law_cursor_reads_records<V>(queues: Seq<Seq<SampleV<V>>>, c: int, records: Seq<(Record<V>, V)>, extra: nat)
    requires
        0 <= c < queues.len(),
        queues[c].len() == 0,
    ensures
        reads(feed_state(queues, records)[c], fed(records).len() + extra)
            == fed(records).map_values(|x: SampleV<V>| Some(x)) + Seq::new(extra, |i: int| None::<SampleV<V>>),
{
    assert(feed_state(queues, records)[c] =~= fed(records));
    lemma_reads(fed(records), extra);
}

impl<V: Copy> SampleReader<V> {
    /// Takes `records` in order, each read as its line (see `refill`): every
    /// cursor receives the samples of the records with a timestamp.
    pub fn feed(&mut self, records: &Vec<(Record<V>, V)>)
        ensures
            final(self)@ == feed_state(old(self)@, records@),
    {
        let ghost start = self@;
        let mut i: usize = 0;
        while i < records.len()
            invariant
                i <= records@.len(),
                self@ == feed_state(start, records@.take(i as int)),
            decreases records@.len() - i,
        {
            let ghost mid = self@;
            let (record, line) = (&records[i].0, records[i].1);
            self.refill(record, line);
            proof {
                let t = records@.take(i + 1);
                assert(t.drop_last() =~= records@.take(i as int));
                assert(t.last() == records@[i as int]);
                assert(self@ =~= feed_state(start, t)) by {
                    assert forall|c: int| 0 <= c < start.len() implies #[trigger] self@[c] == start[c] + fed(t) by {
                        assert(mid[c] == start[c] + fed(records@.take(i as int)));
                        assert(self@[c] == mid[c] + record_feed(*record, line));
                    }
                }
            }
            i = i + 1;
        }
        assert(records@.take(i as int) =~= records@);
    }
}

/// The values with `__line__` set to `line` (see `with_line`).
fn lined<V: Copy>(values: &Vec<(String, V)>, line: V) -> (r: Vec<(String, V)>)
    ensures
        values_view(r@) == with_line(values_view(values@), line),
{
    let ghost vs = values_view(values@);
    let ghost pred = |p: (Seq<char>, V)| p.0 != line_label();
    let mut r: Vec<(String, V)> = Vec::new();
    let mut i: usize = 0;
    while i < values.len()
        invariant
            i <= values@.len(),
            vs == values_view(values@),
            pred == (|p: (Seq<char>, V)| p.0 != line_label()),
            values_view(r@) == vs.take(i as int).filter(pred),
        decreases values@.len() - i,
    {
        let ghost before = r@;
        let is_line = values[i].0 == "__line__".to_owned();
        assert(is_line == (vs[i as int].0 == line_label()));
        proof {
            let t = vs.take(i + 1);
            assert(t.drop_last() =~= vs.take(i as int));
            assert(t.last() == vs[i as int]);
            assert(t.filter(pred) == {
                let f = t.drop_last().filter(pred);
                if pred(t.last()) { f.push(t.last()) } else { f }
            }) by { reveal_with_fuel(Seq::filter, 1); }
        }
        if !is_line {
            r.push((values[i].0.clone(), values[i].1));
            assert(values_view(r@) =~= values_view(before).push(vs[i as int]));
        }
        i = i + 1;
    }
    assert(vs.take(i as int) =~= vs);
    let ghost before = r@;
    r.push(("__line__".to_owned(), line));
    assert(values_view(r@) =~= values_view(before).push((line_label(), line)));
    r
}

} // verus!
