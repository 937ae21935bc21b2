//! The table of transforms, which keeps one record for each run of paths
//! with the same transform.

use vstd::prelude::*;

use crate::mesh::{packed, GpuTransform};
use crate::scene::Transform;

verus! {

/// `ts` with every run of equal neighbours reduced to its first member.
pub open spec fn runs(ts: Seq<Transform>) -> Seq<Transform>
    decreases ts.len(),
{
    if ts.len() == 0 {
        Seq::empty()
    } else if ts.len() >= 2 && ts[ts.len() - 2] == ts.last() {
        runs(ts.drop_last())
    } else {
        runs(ts.drop_last()).push(ts.last())
    }
}

/// The records of the runs of `ts`.
pub open spec fn packed_runs(ts: Seq<Transform>) -> Seq<GpuTransform> {
    Seq::new(runs(ts).len(), |i: int| packed(runs(ts)[i]))
}

/// The places in `ts` where a run starts: the first place, and each whose
/// transform differs from the one before it.
pub open spec fn run_starts(ts: Seq<Transform>) -> Set<int> {
    Set::new(|i: int| 0 <= i < ts.len() && (i == 0 || ts[i - 1] != ts[i]))
}

/// The index, among the runs of `ts`, of the run that place `i` lies in.
pub open spec fn run_index(ts: Seq<Transform>, i: int) -> int {
    runs(ts.take(i + 1)).len() - 1
}

/// The last transform of `ts`, if it has one.
pub open spec fn last_of(ts: Seq<Transform>) -> Option<Transform> {
    if ts.len() == 0 {
        None
    } else {
        Some(ts.last())
    }
}

/// One more transform starts a run unless it equals the one before it.
pub proof fn lemma_runs_push(ts: Seq<Transform>, t: Transform)
    ensures
        runs(ts.push(t)) == if last_of(ts) == Some(t) {
            runs(ts)
        } else {
            runs(ts).push(t)
        },
{
    assert(ts.push(t).drop_last() == ts);
}

/// A sequence with a member has a run, and its last run is that of its last
/// member.
pub proof fn lemma_runs_last(ts: Seq<Transform>)
    requires
        ts.len() > 0,
    ensures
        runs(ts).len() > 0,
        runs(ts).last() == ts.last(),
        runs(ts).len() <= ts.len(),
    decreases ts.len(),
{
    if ts.len() >= 2 {
        lemma_runs_last(ts.drop_last());
    } else {
        assert(runs(ts.drop_last()).len() == 0);
    }
}

/// There are as many runs as places where one starts.
pub proof fn lemma_runs_counted(ts: Seq<Transform>)
    ensures
        run_starts(ts).finite(),
        runs(ts).len() == run_starts(ts).len(),
    decreases ts.len(),
{
    if ts.len() == 0 {
        assert(run_starts(ts) == Set::<int>::empty());
    } else {
        let init = ts.drop_last();
        let n = ts.len() - 1;
        lemma_runs_counted(init);
        if ts.len() >= 2 && ts[ts.len() - 2] == ts.last() {
            assert(run_starts(ts) == run_starts(init));
        } else {
            assert(run_starts(ts) == run_starts(init).insert(n));
        }
    }
}

/// The runs of a prefix are a prefix of the runs: a record, once made,
/// keeps its index.
pub proof fn lemma_runs_prefix(ts: Seq<Transform>, k: int)
    requires
        0 <= k <= ts.len(),
    ensures
        runs(ts.take(k)).len() <= runs(ts).len(),
        runs(ts.take(k)) == runs(ts).take(runs(ts.take(k)).len() as int),
    decreases ts.len() - k,
{
    if k == ts.len() {
        assert(ts.take(k) == ts);
        assert(runs(ts).take(runs(ts).len() as int) == runs(ts));
    } else {
        lemma_runs_prefix(ts, k + 1);
        let longer = ts.take(k + 1);
        assert(longer.drop_last() == ts.take(k));
        let shorter = runs(ts.take(k));
        assert(shorter == runs(ts).take(shorter.len() as int)) by {
            if runs(longer) != shorter {
                assert(runs(longer) == shorter.push(longer.last()));
                assert(runs(longer).take(shorter.len() as int) == shorter);
                assert(runs(ts).take(runs(longer).len() as int).take(shorter.len() as int) == runs(
                    ts,
                ).take(shorter.len() as int));
            }
        }
    }
}

/// The run of place `i` has a record, and it is the record of the
/// transform at `i`. The runs of later places have the same index or a
/// higher one.
pub proof fn lemma_run_index(ts: Seq<Transform>, i: int, j: int)
    requires
        0 <= i <= j < ts.len(),
    ensures
        0 <= run_index(ts, i) <= run_index(ts, j) < runs(ts).len(),
        runs(ts)[run_index(ts, i)] == ts[i],
        packed_runs(ts)[run_index(ts, i)] == packed(ts[i]),
{
    let upto_i = ts.take(i + 1);
    let upto_j = ts.take(j + 1);
    lemma_runs_last(upto_i);
    lemma_runs_last(upto_j);
    lemma_runs_prefix(ts, i + 1);
    lemma_runs_prefix(ts, j + 1);
    lemma_runs_prefix(upto_j, i + 1);
    assert(upto_j.take(i + 1) == upto_i);
    let k = run_index(ts, i);
    assert(runs(ts).take(k + 1)[k] == runs(upto_i)[k]);
}

/// The table of transforms. It is shown the transform of every path in
/// turn and keeps one record for each run of equal transforms.
pub struct TransformTable {
    records: Vec<GpuTransform>,
    prev: Option<Transform>,
    seen: Ghost<Seq<Transform>>,
}

impl TransformTable {
    /// The table holds the records of the runs of what it was shown, and
    /// remembers the transform shown last.
    pub closed spec fn wf(&self) -> bool {
        &&& self.records@ == packed_runs(self.seen@)
        &&& self.prev == last_of(self.seen@)
    }

    /// The transforms shown to the table so far, in order.
    pub closed spec fn seen(&self) -> Seq<Transform> {
        self.seen@
    }

    /// The records of the table, in order.
    pub closed spec fn records(&self) -> Seq<GpuTransform> {
        self.records@
    }

    /// A table that has been shown nothing.
    pub fn new() -> (table: TransformTable)
        ensures
            table.wf(),
            table.seen() == Seq::<Transform>::empty(),
            table.records() == Seq::<GpuTransform>::empty(),
    {
        let table = TransformTable { records: Vec::new(), prev: None, seen: Ghost(Seq::empty()) };
        assert(table.records@ == packed_runs(table.seen@));
        table
    }

    /// The number of records.
    pub fn len(&self) -> (n: usize)
        ensures
            n == self.records().len(),
    {
        self.records.len()
    }

    /// A well-formed table holds one record for each run of what it was
    /// shown.
    pub proof fn lemma_records(&self)
        requires
            self.wf(),
        ensures
            self.records() == packed_runs(self.seen()),
    {
    }

    /// Shows the table the transform of the next path, and returns the
    /// index of the record that stands for it: a new record, unless the
    /// transform is the very one shown before.
    pub fn visit(&mut self, t: Transform) -> (idx: u32)
        requires
            old(self).wf(),
            old(self).records().len() <= u32::MAX,
        ensures
            final(self).wf(),
            final(self).seen() == old(self).seen().push(t),
            final(self).records() == packed_runs(final(self).seen()),
            final(self).records() == if last_of(old(self).seen()) == Some(t) {
                old(self).records()
            } else {
                old(self).records().push(packed(t))
            },
            idx == final(self).records().len() - 1,
            idx == run_index(final(self).seen(), old(self).seen().len() as int),
            final(self).records()[idx as int] == packed(t),
    {
        proof {
            lemma_runs_push(self.seen@, t);
            lemma_runs_last(self.seen@.push(t));
            let now = self.seen@.push(t);
            assert(now.take(self.seen@.len() as int + 1) == now);
        }
        let same = match self.prev {
            Some(p) => p == t,
            None => false,
        };
        if !same {
            self.records.push(GpuTransform::new(t));
        }
        self.prev = Some(t);
        self.seen = Ghost(self.seen@.push(t));
        assert(self.records@ == packed_runs(self.seen@));
        (self.records.len() - 1) as u32
    }

    /// The records, for the finished mesh.
    pub fn into_records(self) -> (records: Vec<GpuTransform>)
        ensures
            records@ == self.records(),
    {
        self.records
    }
}

} // verus!
