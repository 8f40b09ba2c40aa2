//! Per-span state: instances, aggregates over freed runs, and the map of
//! span id to span data.

use vstd::prelude::*;

use crate::codec::SpanId;
use crate::metadata::{Metadata, MetadataView};
use crate::values::{ValueSet, ValueView};

verus! {

/// There is an entry with this key.
pub open spec fn assoc_has<T>(s: Seq<(u32, T)>, id: u32) -> bool {
    exists|i: int| 0 <= i < s.len() && (#[trigger] s[i]).0 == id
}

/// The index of the entry with this key (meaningful under `unique_keys`).
pub open spec fn assoc_idx<T>(s: Seq<(u32, T)>, id: u32) -> int {
    choose|i: int| 0 <= i < s.len() && (#[trigger] s[i]).0 == id
}

/// The value of the entry with this key (meaningful under `unique_keys`).
pub open spec fn assoc_get<T>(s: Seq<(u32, T)>, id: u32) -> T {
    s[assoc_idx(s, id)].1
}

/// No two entries share a key.
pub open spec fn unique_keys<T>(s: Seq<(u32, T)>) -> bool {
    forall|i: int, j: int|
        0 <= i < j < s.len() ==> (#[trigger] s[i]).0 != (#[trigger] s[j]).0
}

/// Replacing an entry by one with the same key keeps keys unique.
pub proof fn lemma_unique_update<T>(s: Seq<(u32, T)>, i: int, x: (u32, T))
    requires
        unique_keys(s),
        0 <= i < s.len(),
        s[i].0 == x.0,
    ensures
        unique_keys(s.update(i, x)),
{
    let t = s.update(i, x);
    assert forall|a: int, b: int|
        0 <= a < b < t.len() implies (#[trigger] t[a]).0 != (#[trigger] t[b]).0 by {
        assert(s[a].0 != s[b].0);
        assert(t[a].0 == s[a].0 && t[b].0 == s[b].0);
    }
}

/// Appending an entry with a fresh key keeps keys unique.
pub proof fn lemma_unique_push<T>(s: Seq<(u32, T)>, x: (u32, T))
    requires
        unique_keys(s),
        forall|j: int| 0 <= j < s.len() ==> (#[trigger] s[j]).0 != x.0,
    ensures
        unique_keys(s.push(x)),
{
    let t = s.push(x);
    assert forall|a: int, b: int|
        0 <= a < b < t.len() implies (#[trigger] t[a]).0 != (#[trigger] t[b]).0 by {
        if b < s.len() {
            assert(t[a] == s[a] && t[b] == s[b]);
        } else {
            assert(t[a] == s[a] && t[b] == x);
        }
    }
}

/// Removing an entry keeps keys unique.
pub proof fn lemma_unique_remove<T>(s: Seq<(u32, T)>, i: int)
    requires
        unique_keys(s),
        0 <= i < s.len(),
    ensures
        unique_keys(s.remove(i)),
{
    let t = s.remove(i);
    assert forall|a: int, b: int|
        0 <= a < b < t.len() implies (#[trigger] t[a]).0 != (#[trigger] t[b]).0 by {
        let sa: int = if a < i {
            a
        } else {
            a + 1
        };
        let sb: int = if b < i {
            b
        } else {
            b + 1
        };
        assert(t[a] == s[sa] && t[b] == s[sb]);
        assert(s[sa].0 != s[sb].0);
    }
}

/// Finds the position of the entry with the given key.
fn assoc_position<T>(v: &Vec<(u32, T)>, id: u32) -> (r: Option<usize>)
    ensures
        match r {
            Some(i) => i < v@.len() && v@[i as int].0 == id,
            None => !assoc_has(v@, id),
        },
        unique_keys(v@) ==> match r {
            Some(i) => assoc_has(v@, id) && assoc_idx(v@, id) == i as int,
            None => !assoc_has(v@, id),
        },
{
    let n = v.len();
    let mut i: usize = 0;
    while i < n
        invariant
            i <= n,
            n == v@.len(),
            forall|j: int| 0 <= j < i ==> (#[trigger] v@[j]).0 != id,
        decreases n - i,
    {
        if v[i].0 == id {
            proof {
                assert(assoc_has(v@, id));
                if unique_keys(v@) {
                    let w = assoc_idx(v@, id);
                    assert(0 <= w < v@.len() && v@[w].0 == id);
                    assert(w == i as int);
                }
            }
            return Some(i);
        }
        i += 1;
    }
    None
}

/// Mutable state of one span activation.
#[derive(Debug)]
pub struct SpanInstance {
    /// The message attached to this activation, if any.
    pub message: Option<String>,
    /// The ordered value set of this activation.
    pub value_set: ValueSet,
    /// Accumulated duration of this activation, in nanoseconds.
    pub duration: u64,
    /// Whether the activation is currently entered.
    pub active: bool,
}

/// The mathematical shape of a span instance.
pub ghost struct SpanInstanceView {
    pub message: Option<Seq<char>>,
    pub value_set: Seq<(Seq<char>, ValueView)>,
    pub duration: u64,
    pub active: bool,
}

impl View for SpanInstance {
    type V = SpanInstanceView;

    open spec fn view(&self) -> SpanInstanceView {
        SpanInstanceView {
            message: match self.message {
                Some(m) => Some(m@),
                None => None,
            },
            value_set: self.value_set@,
            duration: self.duration,
            active: self.active,
        }
    }
}

impl SpanInstance {
    /// A fresh, inactive instance.
    pub fn new(message: Option<String>, value_set: ValueSet) -> (r: SpanInstance)
        ensures
            r@.message == match message {
                Some(m) => Some(m@),
                None => None::<Seq<char>>,
            },
            r@.value_set == value_set@,
            r@.duration == 0,
            r@.active == false,
    {
        SpanInstance { message, value_set, duration: 0, active: false }
    }

    /// A deep copy whose view equals this one's.
    pub fn duplicate(&self) -> (r: SpanInstance)
        ensures
            r@ == self@,
    {
        SpanInstance {
            message: match &self.message {
                Some(m) => Some(m.clone()),
                None => None,
            },
            value_set: self.value_set.duplicate(),
            duration: self.duration,
            active: self.active,
        }
    }
}

/// The smallest value in a duration history, `u64::MAX` when empty.
pub open spec fn min_seq(s: Seq<u64>) -> int
    decreases s.len(),
{
    if s.len() == 0 {
        u64::MAX as int
    } else if s.last() as int <= min_seq(s.drop_last()) {
        s.last() as int
    } else {
        min_seq(s.drop_last())
    }
}

/// The largest value in a duration history, `0` when empty.
pub open spec fn max_seq(s: Seq<u64>) -> int
    decreases s.len(),
{
    if s.len() == 0 {
        0
    } else if s.last() as int >= max_seq(s.drop_last()) {
        s.last() as int
    } else {
        max_seq(s.drop_last())
    }
}

/// The sum of a duration history.
pub open spec fn sum_seq(s: Seq<u64>) -> int
    decreases s.len(),
{
    if s.len() == 0 {
        0
    } else {
        sum_seq(s.drop_last()) + s.last() as int
    }
}

/// Per-span data: metadata, live instances, and aggregates over the
/// durations of freed instances.
pub struct SpanData {
    /// The description installed by the last `SpanAlloc` for this id.
    pub metadata: Metadata,
    /// The most recently freed instance, kept for inheritance lookups.
    pub last_instance: Option<SpanInstance>,
    /// Smallest freed duration in nanoseconds; `u64::MAX` before any run.
    pub min: u64,
    /// Largest freed duration in nanoseconds; `0` before any run.
    pub max: u64,
    /// Sum of freed durations in nanoseconds.
    pub sum: u128,
    /// Number of freed instances.
    pub run_count: u64,
    /// Watermark of the last rate-limited data update, in microseconds.
    pub last_update_us: u64,
    /// The durations of the freed instances, in order.
    pub history: Ghost<Seq<u64>>,
    /// The live instances, keyed by instance id. Change it only through
    /// the methods here: they keep the keys unique.
    pub instances: Vec<(u32, SpanInstance)>,
}

/// The mathematical shape of a span's data.
pub ghost struct SpanDataView {
    pub metadata: MetadataView,
    pub last_instance: Option<SpanInstanceView>,
    pub min: u64,
    pub max: u64,
    pub sum: u128,
    pub run_count: u64,
    pub last_update_us: u64,
    pub history: Seq<u64>,
    pub instances: Seq<(u32, SpanInstanceView)>,
}

/// The view of an instance table.
pub open spec fn inst_pairs_view(s: Seq<(u32, SpanInstance)>) -> Seq<(u32, SpanInstanceView)> {
    s.map_values(|p: (u32, SpanInstance)| (p.0, p.1@))
}

impl View for SpanData {
    type V = SpanDataView;

    open spec fn view(&self) -> SpanDataView {
        SpanDataView {
            metadata: self.metadata@,
            last_instance: match self.last_instance {
                Some(i) => Some(i@),
                None => None,
            },
            min: self.min,
            max: self.max,
            sum: self.sum,
            run_count: self.run_count,
            last_update_us: self.last_update_us,
            history: self.history@,
            instances: inst_pairs_view(self.instances@),
        }
    }
}

/// Well-formedness of a span's data: instance ids are unique and the
/// aggregates are exactly the fold of the freed-duration history.
pub open spec fn span_data_wf(d: SpanDataView) -> bool {
    &&& unique_keys(d.instances)
    &&& d.min == min_seq(d.history)
    &&& d.max == max_seq(d.history)
    &&& d.sum == sum_seq(d.history)
    &&& d.run_count == d.history.len()
}

proof fn lemma_min_max_seq_bounds(s: Seq<u64>)
    ensures
        0 <= min_seq(s) <= u64::MAX as int,
        0 <= max_seq(s) <= u64::MAX as int,
        0 <= sum_seq(s) <= s.len() * (u64::MAX as int),
    decreases s.len(),
{
    if s.len() == 0 {
    } else {
        lemma_min_max_seq_bounds(s.drop_last());
        assert(sum_seq(s) == sum_seq(s.drop_last()) + s.last() as int);
        assert((s.len() - 1) * (u64::MAX as int) + u64::MAX as int == s.len() * (
        u64::MAX as int)) by (nonlinear_arith);
    }
}

impl SpanData {
    /// Fresh data for a span definition: no instances, no runs.
    pub fn new(metadata: Metadata) -> (r: SpanData)
        ensures
            r@.metadata == metadata@,
            r@.last_instance is None,
            r@.min == u64::MAX,
            r@.max == 0,
            r@.sum == 0,
            r@.run_count == 0,
            r@.last_update_us == 0,
            r@.history == Seq::<u64>::empty(),
            r@.instances == Seq::<(u32, SpanInstanceView)>::empty(),
            span_data_wf(r@),
    {
        let r = SpanData {
            metadata,
            last_instance: None,
            min: u64::MAX,
            max: 0,
            sum: 0,
            run_count: 0,
            last_update_us: 0,
            history: Ghost(Seq::empty()),
            instances: Vec::new(),
        };
        proof {
            assert(r@.instances =~= Seq::<(u32, SpanInstanceView)>::empty());
            assert(r@.history =~= Seq::<u64>::empty());
        }
        r
    }

    /// A span is dropped exactly when it has no live instances.
    pub fn is_dropped(&self) -> (r: bool)
        ensures
            r == (self@.instances.len() == 0),
    {
        self.instances.len() == 0
    }

    /// A span is active exactly when some live instance is active.
    pub fn is_active(&self) -> (r: bool)
        ensures
            r == exists|i: int|
                0 <= i < self@.instances.len() && (#[trigger] self@.instances[i]).1.active,
    {
        let n = self.instances.len();
        let mut i: usize = 0;
        while i < n
            invariant
                i <= n,
                n == self@.instances.len(),
                forall|j: int| 0 <= j < i ==> !(#[trigger] self@.instances[j]).1.active,
            decreases n - i,
        {
            if self.instances[i].1.active {
                proof {
                    assert(self@.instances[i as int].1.active);
                }
                return true;
            }
            i += 1;
        }
        false
    }

    /// Number of live instances.
    pub fn instance_count(&self) -> (r: usize)
        ensures
            r == self@.instances.len(),
    {
        self.instances.len()
    }

    /// The first live instance, if any.
    pub fn first_instance(&self) -> (r: Option<&SpanInstance>)
        ensures
            match r {
                Some(inst) => self@.instances.len() > 0 && inst@ == self@.instances[0].1,
                None => self@.instances.len() == 0,
            },
    {
        if self.instances.len() > 0 {
            Some(&self.instances[0].1)
        } else {
            None
        }
    }

    /// Installs an instance under its id; an existing instance with the
    /// same id is replaced.
    pub fn alloc_instance(&mut self, instance_id: u32, inst: SpanInstance)
        requires
            unique_keys(old(self)@.instances),
        ensures
            final(self)@ == (SpanDataView {
                instances: final(self)@.instances,
                ..old(self)@
            }),
            final(self)@.instances == if assoc_has(old(self)@.instances, instance_id) {
                old(self)@.instances.update(
                    assoc_idx(old(self)@.instances, instance_id),
                    (instance_id, inst@),
                )
            } else {
                old(self)@.instances.push((instance_id, inst@))
            },
            unique_keys(final(self)@.instances),
    {
        let ghost ginst = inst@;
        let ghost pre = self.instances@;
        let ghost prev = inst_pairs_view(pre);
        match assoc_position(&self.instances, instance_id) {
            Some(i) => {
                self.instances.set(i, (instance_id, inst));
                proof {
                    assert(inst_pairs_view(self.instances@) =~= prev.update(
                        i as int,
                        (instance_id, ginst),
                    ));
                    assert(prev[i as int].0 == pre[i as int].0);
                    assert(assoc_has(prev, instance_id));
                    let w = assoc_idx(prev, instance_id);
                    assert(0 <= w < prev.len() && prev[w].0 == instance_id);
                    assert(w == i as int);
                    lemma_unique_update(prev, i as int, (instance_id, ginst));
                }
            },
            None => {
                self.instances.push((instance_id, inst));
                proof {
                    assert(inst_pairs_view(self.instances@) =~= prev.push((instance_id, ginst)));
                    assert forall|j: int| 0 <= j < prev.len() implies (#[trigger] prev[j]).0
                        != instance_id by {
                        assert(prev[j].0 == pre[j].0);
                    }
                    assert(!assoc_has(prev, instance_id));
                    lemma_unique_push(prev, (instance_id, ginst));
                }
            },
        }
    }

    /// Marks the instance entered or exited; unknown instances are ignored.
    pub fn set_active(&mut self, instance_id: u32, active: bool) -> (r: bool)
        requires
            unique_keys(old(self)@.instances),
        ensures
            unique_keys(final(self)@.instances),
            r == assoc_has(old(self)@.instances, instance_id),
            if assoc_has(old(self)@.instances, instance_id) {
                final(self)@ == (SpanDataView {
                    instances: old(self)@.instances.update(
                        assoc_idx(old(self)@.instances, instance_id),
                        (instance_id, SpanInstanceView {
                            active,
                            ..assoc_get(old(self)@.instances, instance_id)
                        }),
                    ),
                    ..old(self)@
                })
            } else {
                final(self)@ == old(self)@
            },
    {
        let ghost pre = self.instances@;
        let ghost prev = inst_pairs_view(pre);
        match assoc_position(&self.instances, instance_id) {
            Some(i) => {
                let mut entry = self.instances.remove(i);
                entry.1.active = active;
                let ghost ge = entry.1@;
                self.instances.insert(i, entry);
                proof {
                    assert(prev[i as int].0 == pre[i as int].0);
                    assert(assoc_has(prev, instance_id));
                    let w = assoc_idx(prev, instance_id);
                    assert(0 <= w < prev.len() && prev[w].0 == instance_id);
                    assert(w == i as int);
                    assert(ge == SpanInstanceView { active, ..prev[i as int].1 });
                    assert(inst_pairs_view(self.instances@) =~= prev.update(
                        i as int,
                        (instance_id, ge),
                    ));
                    lemma_unique_update(prev, i as int, (instance_id, ge));
                }
                true
            },
            None => {
                proof {
                    if assoc_has(prev, instance_id) {
                        let w = assoc_idx(prev, instance_id);
                        assert(prev[w].0 == pre[w].0);
                    }
                }
                false
            },
        }
    }

    /// Records the duration of an exiting instance and clears its active
    /// flag; unknown instances are ignored.
    pub fn set_exit(&mut self, instance_id: u32, duration_ns: u64) -> (r: bool)
        requires
            unique_keys(old(self)@.instances),
        ensures
            unique_keys(final(self)@.instances),
            r == assoc_has(old(self)@.instances, instance_id),
            if assoc_has(old(self)@.instances, instance_id) {
                final(self)@ == (SpanDataView {
                    instances: old(self)@.instances.update(
                        assoc_idx(old(self)@.instances, instance_id),
                        (instance_id, SpanInstanceView {
                            active: false,
                            duration: duration_ns,
                            ..assoc_get(old(self)@.instances, instance_id)
                        }),
                    ),
                    ..old(self)@
                })
            } else {
                final(self)@ == old(self)@
            },
    {
        let ghost pre = self.instances@;
        let ghost prev = inst_pairs_view(pre);
        match assoc_position(&self.instances, instance_id) {
            Some(i) => {
                let mut entry = self.instances.remove(i);
                entry.1.active = false;
                entry.1.duration = duration_ns;
                let ghost ge = entry.1@;
                self.instances.insert(i, entry);
                proof {
                    assert(prev[i as int].0 == pre[i as int].0);
                    assert(assoc_has(prev, instance_id));
                    let w = assoc_idx(prev, instance_id);
                    assert(0 <= w < prev.len() && prev[w].0 == instance_id);
                    assert(w == i as int);
                    assert(ge == SpanInstanceView {
                        active: false,
                        duration: duration_ns,
                        ..prev[i as int].1
                    });
                    assert(inst_pairs_view(self.instances@) =~= prev.update(
                        i as int,
                        (instance_id, ge),
                    ));
                    lemma_unique_update(prev, i as int, (instance_id, ge));
                }
                true
            },
            None => {
                proof {
                    if assoc_has(prev, instance_id) {
                        let w = assoc_idx(prev, instance_id);
                        assert(prev[w].0 == pre[w].0);
                    }
                }
                false
            },
        }
    }

    /// Extends the instance's value set and, when a message is given,
    /// replaces its message; unknown instances are ignored.
    pub fn apply_values(
        &mut self,
        instance_id: u32,
        message: Option<String>,
        pairs: Vec<(String, crate::values::Value)>,
    ) -> (r: bool)
        requires
            unique_keys(old(self)@.instances),
        ensures
            unique_keys(final(self)@.instances),
            r == assoc_has(old(self)@.instances, instance_id),
            if assoc_has(old(self)@.instances, instance_id) {
                final(self)@ == (SpanDataView {
                    instances: old(self)@.instances.update(
                        assoc_idx(old(self)@.instances, instance_id),
                        (instance_id, SpanInstanceView {
                            message: match message {
                                Some(m) => Some(m@),
                                None => assoc_get(old(self)@.instances, instance_id).message,
                            },
                            value_set: assoc_get(old(self)@.instances, instance_id).value_set
                                + crate::values::pairs_view(pairs@),
                            ..assoc_get(old(self)@.instances, instance_id)
                        }),
                    ),
                    ..old(self)@
                })
            } else {
                final(self)@ == old(self)@
            },
    {
        let ghost pre = self.instances@;
        let ghost prev = inst_pairs_view(pre);
        match assoc_position(&self.instances, instance_id) {
            Some(i) => {
                let mut entry = self.instances.remove(i);
                match message {
                    Some(m) => {
                        entry.1.message = Some(m);
                    },
                    None => {},
                }
                entry.1.value_set.extend(pairs);
                let ghost ge = entry.1@;
                self.instances.insert(i, entry);
                proof {
                    assert(prev[i as int].0 == pre[i as int].0);
                    assert(assoc_has(prev, instance_id));
                    let w = assoc_idx(prev, instance_id);
                    assert(0 <= w < prev.len() && prev[w].0 == instance_id);
                    assert(w == i as int);
                    assert(inst_pairs_view(self.instances@) =~= prev.update(
                        i as int,
                        (instance_id, ge),
                    ));
                    lemma_unique_update(prev, i as int, (instance_id, ge));
                }
                true
            },
            None => {
                proof {
                    if assoc_has(prev, instance_id) {
                        let w = assoc_idx(prev, instance_id);
                        assert(prev[w].0 == pre[w].0);
                    }
                }
                false
            },
        }
    }

    /// Removes the instance and folds its duration into the aggregates:
    /// `min`, `max`, `sum` and `run_count`, recorded in the history.
    /// The freed instance becomes the retained `last_instance`.
    /// Once `run_count` has reached `u64::MAX` the aggregates stay as they
    /// are; the instance is still freed and returned.
    pub fn free_instance(&mut self, instance_id: u32) -> (r: Option<SpanInstance>)
        requires
            span_data_wf(old(self)@),
        ensures
            span_data_wf(final(self)@),
            match r {
                Some(inst) => {
                    &&& assoc_has(old(self)@.instances, instance_id)
                    &&& inst@ == assoc_get(old(self)@.instances, instance_id)
                    &&& final(self)@.instances == old(self)@.instances.remove(
                        assoc_idx(old(self)@.instances, instance_id),
                    )
                    &&& final(self)@.metadata == old(self)@.metadata
                    &&& final(self)@.last_update_us == old(self)@.last_update_us
                    &&& final(self)@.last_instance == Some(inst@)
                    &&& final(self)@.history == if old(self)@.run_count < u64::MAX {
                        old(self)@.history.push(inst@.duration)
                    } else {
                        old(self)@.history
                    }
                },
                None => !assoc_has(old(self)@.instances, instance_id) && final(self)@ == old(
                    self,
                )@,
            },
    {
        let ghost pre = self.instances@;
        let ghost prev = inst_pairs_view(pre);
        match assoc_position(&self.instances, instance_id) {
            Some(i) => {
                let entry = self.instances.remove(i);
                let d = entry.1.duration;
                proof {
                    assert(prev[i as int].0 == pre[i as int].0);
                    assert(assoc_has(prev, instance_id));
                    let w = assoc_idx(prev, instance_id);
                    assert(0 <= w < prev.len() && prev[w].0 == instance_id);
                    assert(w == i as int);
                    assert(inst_pairs_view(self.instances@) =~= prev.remove(i as int));
                    lemma_unique_remove(prev, i as int);
                }
                if self.run_count < u64::MAX {
                    let ghost h = self.history@;
                    proof {
                        lemma_min_max_seq_bounds(h);
                        let m = u64::MAX as int;
                        assert(h.len() * m <= (m - 1) * m) by (nonlinear_arith)
                            requires
                                h.len() <= m - 1,
                                m > 0,
                        ;
                        assert((m - 1) * m + m <= u128::MAX as int) by (nonlinear_arith)
                            requires
                                m == u64::MAX as int,
                        ;
                    }
                    if d < self.min {
                        self.min = d;
                    }
                    if d > self.max {
                        self.max = d;
                    }
                    self.sum = self.sum + d as u128;
                    self.run_count = self.run_count + 1;
                    proof {
                        self.history@ = h.push(d);
                        assert(h.push(d).drop_last() =~= h);
                        assert(h.push(d).last() == d);
                    }
                }
                self.last_instance = Some(entry.1.duplicate());
                Some(entry.1)
            },
            None => {
                proof {
                    if assoc_has(prev, instance_id) {
                        let w = assoc_idx(prev, instance_id);
                        assert(prev[w].0 == pre[w].0);
                    }
                }
                None
            },
        }
    }

    /// The live instance with this id, if any.
    pub fn get_instance(&self, instance_id: u32) -> (r: Option<&SpanInstance>)
        requires
            unique_keys(self@.instances),
        ensures
            match r {
                Some(inst) => assoc_has(self@.instances, instance_id) && inst@ == assoc_get(
                    self@.instances,
                    instance_id,
                ),
                None => !assoc_has(self@.instances, instance_id),
            },
    {
        match assoc_position(&self.instances, instance_id) {
            Some(i) => {
                proof {
                    assert(self@.instances[i as int] == (self.instances@[i as int].0,
                    self.instances@[i as int].1@));
                    assert(assoc_has(self@.instances, instance_id));
                    let w = assoc_idx(self@.instances, instance_id);
                    assert(0 <= w < self@.instances.len() && self@.instances[w].0 == instance_id);
                    assert(w == i as int);
                }
                Some(&self.instances[i].1)
            },
            None => {
                proof {
                    if assoc_has(self@.instances, instance_id) {
                        let w = assoc_idx(self@.instances, instance_id);
                        assert(0 <= w < self@.instances.len() && self@.instances[w].0
                            == instance_id);
                        assert(self.instances@[w].0 == instance_id);
                    }
                }
                None
            },
        }
    }
}

/// View of an optional exec string.
pub open spec fn opt_text(m: Option<String>) -> Option<Seq<char>> {
    match m {
        Some(s) => Some(s@),
        None => None,
    }
}

/// An instance table after installing an instance: replaced in place when
/// the id exists, appended otherwise.
pub open spec fn insts_alloc(
    insts: Seq<(u32, SpanInstanceView)>,
    iid: u32,
    inst: SpanInstanceView,
) -> Seq<(u32, SpanInstanceView)> {
    if assoc_has(insts, iid) {
        insts.update(assoc_idx(insts, iid), (iid, inst))
    } else {
        insts.push((iid, inst))
    }
}

/// An instance table after setting the active flag of one instance;
/// unchanged when the id is unknown.
pub open spec fn insts_set_active(
    insts: Seq<(u32, SpanInstanceView)>,
    iid: u32,
    active: bool,
) -> Seq<(u32, SpanInstanceView)> {
    if assoc_has(insts, iid) {
        insts.update(
            assoc_idx(insts, iid),
            (iid, SpanInstanceView { active, ..assoc_get(insts, iid) }),
        )
    } else {
        insts
    }
}

/// An instance table after an exit: the instance's duration is recorded and
/// its active flag cleared; unchanged when the id is unknown.
pub open spec fn insts_set_exit(
    insts: Seq<(u32, SpanInstanceView)>,
    iid: u32,
    duration_ns: u64,
) -> Seq<(u32, SpanInstanceView)> {
    if assoc_has(insts, iid) {
        insts.update(
            assoc_idx(insts, iid),
            (iid, SpanInstanceView {
                active: false,
                duration: duration_ns,
                ..assoc_get(insts, iid)
            }),
        )
    } else {
        insts
    }
}

/// An instance table after extending one instance's value set and possibly
/// replacing its message; unchanged when the id is unknown.
pub open spec fn insts_apply_values(
    insts: Seq<(u32, SpanInstanceView)>,
    iid: u32,
    message: Option<Seq<char>>,
    pairs: Seq<(Seq<char>, ValueView)>,
) -> Seq<(u32, SpanInstanceView)> {
    if assoc_has(insts, iid) {
        insts.update(
            assoc_idx(insts, iid),
            (iid, SpanInstanceView {
                message: match message {
                    Some(m) => Some(m),
                    None => assoc_get(insts, iid).message,
                },
                value_set: assoc_get(insts, iid).value_set + pairs,
                ..assoc_get(insts, iid)
            }),
        )
    } else {
        insts
    }
}

proof fn lemma_agg_bounds(s: Seq<u64>)
    requires
        s.len() > 0,
    ensures
        min_seq(s) * s.len() <= sum_seq(s) <= max_seq(s) * s.len(),
        min_seq(s) <= max_seq(s),
    decreases s.len(),
{
    lemma_min_max_seq_bounds(s);
    if s.len() == 1 {
        assert(s.drop_last().len() == 0);
        assert(min_seq(s.drop_last()) == u64::MAX as int);
        assert(max_seq(s.drop_last()) == 0);
        assert(sum_seq(s.drop_last()) == 0);
        assert(min_seq(s) == s.last() as int);
        assert(max_seq(s) == s.last() as int);
        assert(min_seq(s) * 1 == min_seq(s)) by (nonlinear_arith);
        assert(max_seq(s) * 1 == max_seq(s)) by (nonlinear_arith);
    } else {
        let t = s.drop_last();
        let x = s.last() as int;
        lemma_agg_bounds(t);
        lemma_min_max_seq_bounds(t);
        let n = t.len() as int;
        assert(min_seq(s) <= min_seq(t) && min_seq(s) <= x);
        assert(max_seq(s) >= max_seq(t) && max_seq(s) >= x);
        assert(min_seq(s) * (n + 1) <= sum_seq(t) + x) by (nonlinear_arith)
            requires
                min_seq(s) <= min_seq(t),
                min_seq(s) <= x,
                min_seq(t) * n <= sum_seq(t),
                n >= 1,
                0 <= min_seq(s),
        ;
        assert(sum_seq(t) + x <= max_seq(s) * (n + 1)) by (nonlinear_arith)
            requires
                max_seq(s) >= max_seq(t),
                max_seq(s) >= x,
                sum_seq(t) <= max_seq(t) * n,
                n >= 1,
                0 <= max_seq(t),
        ;
    }
}

/// For every span with at least one run, the smallest run is no longer
/// than the average and the average no longer than the largest run.
pub proof fn lemma_min_avg_max(d: SpanDataView)
    requires
        span_data_wf(d),
        d.run_count > 0,
    ensures
        d.min as int <= d.sum as int / d.run_count as int <= d.max as int,
{
    lemma_agg_bounds(d.history);
    let k = d.run_count as int;
    assert(d.min as int <= d.sum as int / k) by (nonlinear_arith)
        requires
            k > 0,
            d.min as int * k <= d.sum as int,
            d.min as int >= 0,
    ;
    assert(d.sum as int / k <= d.max as int) by (nonlinear_arith)
        requires
            k > 0,
            d.sum as int <= d.max as int * k,
            d.sum as int >= 0,
    ;
}

/// For every span freed `K` times, the aggregates are exactly the fold of
/// its `K` recorded durations, and the average written by the summary —
/// truncated to whole microseconds — multiplied by `K` differs from the
/// sum of the durations by less than one microsecond per run.
pub proof fn lemma_run_aggregates(d: SpanDataView)
    requires
        span_data_wf(d),
        d.run_count > 0,
    ensures
        d.run_count == d.history.len(),
        d.min == min_seq(d.history),
        d.max == max_seq(d.history),
        d.sum == sum_seq(d.history),
        d.min as int <= d.sum as int / d.run_count as int <= d.max as int,
        ({
            let k = d.run_count as int;
            let avg = d.sum as int / k;
            let avg_us = avg / 1000 * 1000;
            0 <= sum_seq(d.history) - avg_us * k < 1000 * k
        }),
{
    lemma_min_avg_max(d);
    let k = d.run_count as int;
    let avg = d.sum as int / k;
    let avg_us = avg / 1000 * 1000;
    assert(d.sum as int == avg * k + d.sum as int % k && 0 <= d.sum as int % k < k) by (
    nonlinear_arith)
        requires
            k > 0,
            avg == d.sum as int / k,
            d.sum as int >= 0,
    ;
    assert(0 <= avg - avg_us < 1000) by (nonlinear_arith)
        requires
            avg >= 0,
            avg_us == avg / 1000 * 1000,
    ;
    assert((avg - avg_us) * k <= 999 * k) by (nonlinear_arith)
        requires
            0 <= avg - avg_us < 1000,
            k > 0,
    ;
    assert(avg * k - avg_us * k == (avg - avg_us) * k) by (nonlinear_arith);
    assert(avg_us * k >= 0) by (nonlinear_arith)
        requires
            avg_us >= 0,
            k > 0,
    ;
}

/// Freeing an instance appends exactly its duration to the span's history
/// and counts one more run, so a span freed `K` times aggregates exactly
/// its `K` durations.
pub proof fn lemma_free_records_duration(d: SpanDataView, instance_id: u32)
    requires
        span_data_wf(d),
        assoc_has(d.instances, instance_id),
        d.run_count < u64::MAX,
    ensures
        freed_span_data(d, instance_id).history == d.history.push(
            assoc_get(d.instances, instance_id).duration,
        ),
        freed_span_data(d, instance_id).run_count == d.run_count + 1,
{
}

/// The average run duration of a well-formed span fits in a `u64`.
pub proof fn lemma_avg_fits(d: SpanDataView)
    requires
        span_data_wf(d),
        d.run_count > 0,
    ensures
        0 <= d.sum as int / d.run_count as int <= u64::MAX as int,
{
    lemma_min_max_seq_bounds(d.history);
    let m = u64::MAX as int;
    let rc = d.run_count as int;
    assert(d.sum as int <= rc * m);
    assert(d.sum as int / rc <= m) by (nonlinear_arith)
        requires
            rc > 0,
            d.sum as int <= rc * m,
            m > 0,
    ;
}

/// The span data after one instance is freed: the instance leaves the
/// table, becomes the retained `last_instance`, and (below the run-count
/// cap) its duration joins the history that the aggregates fold.
pub open spec fn freed_span_data(d: SpanDataView, instance_id: u32) -> SpanDataView {
    let inst = assoc_get(d.instances, instance_id);
    let h2 = if d.run_count < u64::MAX {
        d.history.push(inst.duration)
    } else {
        d.history
    };
    SpanDataView {
        instances: d.instances.remove(assoc_idx(d.instances, instance_id)),
        last_instance: Some(inst),
        min: min_seq(h2) as u64,
        max: max_seq(h2) as u64,
        sum: sum_seq(h2) as u128,
        run_count: h2.len() as u64,
        history: h2,
        ..d
    }
}

/// The view of a span table.
pub open spec fn span_pairs_view(s: Seq<(u32, SpanData)>) -> Seq<(u32, SpanDataView)> {
    s.map_values(|p: (u32, SpanData)| (p.0, p.1@))
}

/// Map of span id to span data.
pub struct SpanState {
    spans: Vec<(u32, SpanData)>,
}

impl View for SpanState {
    type V = Seq<(u32, SpanDataView)>;

    closed spec fn view(&self) -> Seq<(u32, SpanDataView)> {
        span_pairs_view(self.spans@)
    }
}

/// Well-formedness of the span table: span ids are unique and every span's
/// data is well formed.
pub open spec fn span_state_wf(s: Seq<(u32, SpanDataView)>) -> bool {
    &&& unique_keys(s)
    &&& forall|i: int| 0 <= i < s.len() ==> span_data_wf((#[trigger] s[i]).1)
}

impl SpanState {
    /// The empty span table.
    pub fn new() -> (r: SpanState)
        ensures
            r@ == Seq::<(u32, SpanDataView)>::empty(),
            span_state_wf(r@),
    {
        let r = SpanState { spans: Vec::new() };
        proof {
            assert(r@ =~= Seq::<(u32, SpanDataView)>::empty());
        }
        r
    }

    /// Number of known spans.
    pub fn len(&self) -> (r: usize)
        ensures
            r == self@.len(),
    {
        self.spans.len()
    }

    /// The entry at a position, for iteration in insertion order.
    pub fn entry(&self, i: usize) -> (r: (u32, &SpanData))
        requires
            i < self@.len(),
        ensures
            r.0 == self@[i as int].0,
            r.1@ == self@[i as int].1,
    {
        let e = &self.spans[i];
        (e.0, &e.1)
    }

    /// The data of a span id, if known.
    pub fn get_data(&self, id: u32) -> (r: Option<&SpanData>)
        requires
            unique_keys(self@),
        ensures
            match r {
                Some(d) => assoc_has(self@, id) && d@ == assoc_get(self@, id),
                None => !assoc_has(self@, id),
            },
    {
        let ghost pre = self.spans@;
        let ghost prev = span_pairs_view(pre);
        match assoc_position(&self.spans, id) {
            Some(i) => {
                proof {
                    assert(prev[i as int].0 == pre[i as int].0);
                    assert(assoc_has(prev, id));
                    let w = assoc_idx(prev, id);
                    assert(0 <= w < prev.len() && prev[w].0 == id);
                    assert(w == i as int);
                }
                Some(&self.spans[i].1)
            },
            None => {
                proof {
                    if assoc_has(prev, id) {
                        let w = assoc_idx(prev, id);
                        assert(prev[w].0 == pre[w].0);
                    }
                }
                None
            },
        }
    }

    /// Installs a fresh span data under this id; an earlier definition with
    /// the same id is replaced, the last metadata winning.
    pub fn alloc_span(&mut self, id: u32, metadata: Metadata)
        requires
            span_state_wf(old(self)@),
        ensures
            span_state_wf(final(self)@),
            ({
                let fresh = SpanDataView {
                    metadata: metadata@,
                    last_instance: None,
                    min: u64::MAX,
                    max: 0,
                    sum: 0,
                    run_count: 0,
                    last_update_us: 0,
                    history: Seq::<u64>::empty(),
                    instances: Seq::<(u32, SpanInstanceView)>::empty(),
                };
                final(self)@ == if assoc_has(old(self)@, id) {
                    old(self)@.update(assoc_idx(old(self)@, id), (id, fresh))
                } else {
                    old(self)@.push((id, fresh))
                }
            }),
    {
        let ghost pre = self.spans@;
        let ghost prev = span_pairs_view(pre);
        let data = SpanData::new(metadata);
        let ghost gd = data@;
        match assoc_position(&self.spans, id) {
            Some(i) => {
                self.spans.set(i, (id, data));
                proof {
                    assert(prev[i as int].0 == pre[i as int].0);
                    assert(assoc_has(prev, id));
                    let w = assoc_idx(prev, id);
                    assert(0 <= w < prev.len() && prev[w].0 == id);
                    assert(w == i as int);
                    assert(span_pairs_view(self.spans@) =~= prev.update(i as int, (id, gd)));
                    lemma_unique_update(prev, i as int, (id, gd));
                }
            },
            None => {
                self.spans.push((id, data));
                proof {
                    assert forall|j: int| 0 <= j < prev.len() implies (#[trigger] prev[j]).0
                        != id by {
                        assert(prev[j].0 == pre[j].0);
                    }
                    assert(!assoc_has(prev, id));
                    assert(span_pairs_view(self.spans@) =~= prev.push((id, gd)));
                    lemma_unique_push(prev, (id, gd));
                }
            },
        }
    }

    /// Installs an instance under its span; a no-op when the span id is
    /// unknown.
    pub fn alloc_instance(&mut self, span: &SpanId, inst: SpanInstance)
        requires
            span_state_wf(old(self)@),
        ensures
            span_state_wf(final(self)@),
            final(self)@ == if assoc_has(old(self)@, span.id) {
                old(self)@.update(assoc_idx(old(self)@, span.id), (span.id, SpanDataView {
                    instances: insts_alloc(
                        assoc_get(old(self)@, span.id).instances,
                        span.instance,
                        inst@,
                    ),
                    ..assoc_get(old(self)@, span.id)
                }))
            } else {
                old(self)@
            },
    {
        let ghost pre = self.spans@;
        let ghost prev = span_pairs_view(pre);
        let ghost ginst = inst@;
        match assoc_position(&self.spans, span.id) {
            Some(i) => {
                let mut entry = self.spans.remove(i);
                proof {
                    assert(prev[i as int].0 == pre[i as int].0);
                    assert(assoc_has(prev, span.id));
                    let w = assoc_idx(prev, span.id);
                    assert(0 <= w < prev.len() && prev[w].0 == span.id);
                    assert(w == i as int);
                    assert(span_data_wf(prev[i as int].1));
                    assert(entry.1@ == prev[i as int].1);
                }
                entry.1.alloc_instance(span.instance, inst);
                let ghost gd = entry.1@;
                self.spans.insert(i, entry);
                proof {
                    assert(span_pairs_view(self.spans@) =~= prev.update(i as int, (span.id, gd)));
                    assert(gd == (SpanDataView {
                        instances: insts_alloc(prev[i as int].1.instances, span.instance, ginst),
                        ..prev[i as int].1
                    }));
                    lemma_unique_update(prev, i as int, (span.id, gd));
                    assert(span_data_wf(gd));
                    assert forall|j: int| 0 <= j < self@.len() implies span_data_wf(
                        (#[trigger] self@[j]).1,
                    ) by {
                        if j != i as int {
                            assert(self@[j] == prev[j]);
                        }
                    }
                }
            },
            None => {
                proof {
                    if assoc_has(prev, span.id) {
                        let w = assoc_idx(prev, span.id);
                        assert(prev[w].0 == pre[w].0);
                    }
                }
            },
        }
    }

    /// Marks an instance entered or exited; a no-op when unknown.
    pub fn set_active(&mut self, span: &SpanId, active: bool)
        requires
            span_state_wf(old(self)@),
        ensures
            span_state_wf(final(self)@),
            final(self)@ == if assoc_has(old(self)@, span.id) {
                old(self)@.update(assoc_idx(old(self)@, span.id), (span.id, SpanDataView {
                    instances: insts_set_active(
                        assoc_get(old(self)@, span.id).instances,
                        span.instance,
                        active,
                    ),
                    ..assoc_get(old(self)@, span.id)
                }))
            } else {
                old(self)@
            },
    {
        let ghost pre = self.spans@;
        let ghost prev = span_pairs_view(pre);
        match assoc_position(&self.spans, span.id) {
            Some(i) => {
                let mut entry = self.spans.remove(i);
                proof {
                    assert(prev[i as int].0 == pre[i as int].0);
                    assert(assoc_has(prev, span.id));
                    let w = assoc_idx(prev, span.id);
                    assert(0 <= w < prev.len() && prev[w].0 == span.id);
                    assert(w == i as int);
                    assert(span_data_wf(prev[i as int].1));
                    assert(entry.1@ == prev[i as int].1);
                }
                entry.1.set_active(span.instance, active);
                let ghost gd = entry.1@;
                self.spans.insert(i, entry);
                proof {
                    assert(span_pairs_view(self.spans@) =~= prev.update(i as int, (span.id, gd)));
                    assert(gd == (SpanDataView {
                        instances: insts_set_active(prev[i as int].1.instances, span.instance, active),
                        ..prev[i as int].1
                    }));
                    lemma_unique_update(prev, i as int, (span.id, gd));
                    assert(span_data_wf(gd));
                    assert forall|j: int| 0 <= j < self@.len() implies span_data_wf(
                        (#[trigger] self@[j]).1,
                    ) by {
                        if j != i as int {
                            assert(self@[j] == prev[j]);
                        }
                    }
                }
            },
            None => {
                proof {
                    if assoc_has(prev, span.id) {
                        let w = assoc_idx(prev, span.id);
                        assert(prev[w].0 == pre[w].0);
                    }
                }
            },
        }
    }

    /// Records an exit: clears the active flag and sets the duration; a
    /// no-op when unknown.
    pub fn set_exit(&mut self, span: &SpanId, duration_ns: u64)
        requires
            span_state_wf(old(self)@),
        ensures
            span_state_wf(final(self)@),
            final(self)@ == if assoc_has(old(self)@, span.id) {
                old(self)@.update(assoc_idx(old(self)@, span.id), (span.id, SpanDataView {
                    instances: insts_set_exit(
                        assoc_get(old(self)@, span.id).instances,
                        span.instance,
                        duration_ns,
                    ),
                    ..assoc_get(old(self)@, span.id)
                }))
            } else {
                old(self)@
            },
    {
        let ghost pre = self.spans@;
        let ghost prev = span_pairs_view(pre);
        match assoc_position(&self.spans, span.id) {
            Some(i) => {
                let mut entry = self.spans.remove(i);
                proof {
                    assert(prev[i as int].0 == pre[i as int].0);
                    assert(assoc_has(prev, span.id));
                    let w = assoc_idx(prev, span.id);
                    assert(0 <= w < prev.len() && prev[w].0 == span.id);
                    assert(w == i as int);
                    assert(span_data_wf(prev[i as int].1));
                    assert(entry.1@ == prev[i as int].1);
                }
                entry.1.set_exit(span.instance, duration_ns);
                let ghost gd = entry.1@;
                self.spans.insert(i, entry);
                proof {
                    assert(span_pairs_view(self.spans@) =~= prev.update(i as int, (span.id, gd)));
                    assert(gd == (SpanDataView {
                        instances: insts_set_exit(
                            prev[i as int].1.instances,
                            span.instance,
                            duration_ns,
                        ),
                        ..prev[i as int].1
                    }));
                    lemma_unique_update(prev, i as int, (span.id, gd));
                    assert(span_data_wf(gd));
                    assert forall|j: int| 0 <= j < self@.len() implies span_data_wf(
                        (#[trigger] self@[j]).1,
                    ) by {
                        if j != i as int {
                            assert(self@[j] == prev[j]);
                        }
                    }
                }
            },
            None => {
                proof {
                    if assoc_has(prev, span.id) {
                        let w = assoc_idx(prev, span.id);
                        assert(prev[w].0 == pre[w].0);
                    }
                }
            },
        }
    }

    /// Extends an instance's value set and possibly replaces its message; a
    /// no-op when unknown.
    pub fn apply_values(
        &mut self,
        span: &SpanId,
        message: Option<String>,
        pairs: Vec<(String, crate::values::Value)>,
    )
        requires
            span_state_wf(old(self)@),
        ensures
            span_state_wf(final(self)@),
            final(self)@ == if assoc_has(old(self)@, span.id) {
                old(self)@.update(assoc_idx(old(self)@, span.id), (span.id, SpanDataView {
                    instances: insts_apply_values(
                        assoc_get(old(self)@, span.id).instances,
                        span.instance,
                        opt_text(message),
                        crate::values::pairs_view(pairs@),
                    ),
                    ..assoc_get(old(self)@, span.id)
                }))
            } else {
                old(self)@
            },
    {
        let ghost pre = self.spans@;
        let ghost prev = span_pairs_view(pre);
        let ghost gmsg = opt_text(message);
        let ghost gpairs = crate::values::pairs_view(pairs@);
        match assoc_position(&self.spans, span.id) {
            Some(i) => {
                let mut entry = self.spans.remove(i);
                proof {
                    assert(prev[i as int].0 == pre[i as int].0);
                    assert(assoc_has(prev, span.id));
                    let w = assoc_idx(prev, span.id);
                    assert(0 <= w < prev.len() && prev[w].0 == span.id);
                    assert(w == i as int);
                    assert(span_data_wf(prev[i as int].1));
                    assert(entry.1@ == prev[i as int].1);
                }
                entry.1.apply_values(span.instance, message, pairs);
                let ghost gd = entry.1@;
                self.spans.insert(i, entry);
                proof {
                    assert(span_pairs_view(self.spans@) =~= prev.update(i as int, (span.id, gd)));
                    assert(gd == (SpanDataView {
                        instances: insts_apply_values(
                            prev[i as int].1.instances,
                            span.instance,
                            gmsg,
                            gpairs,
                        ),
                        ..prev[i as int].1
                    }));
                    lemma_unique_update(prev, i as int, (span.id, gd));
                    assert(span_data_wf(gd));
                    assert forall|j: int| 0 <= j < self@.len() implies span_data_wf(
                        (#[trigger] self@[j]).1,
                    ) by {
                        if j != i as int {
                            assert(self@[j] == prev[j]);
                        }
                    }
                }
            },
            None => {
                proof {
                    if assoc_has(prev, span.id) {
                        let w = assoc_idx(prev, span.id);
                        assert(prev[w].0 == pre[w].0);
                    }
                }
            },
        }
    }

    /// Removes an instance and folds its duration into its span's
    /// aggregates, returning the freed instance; `None` when unknown.
    pub fn free_instance(&mut self, span: &SpanId) -> (r: Option<SpanInstance>)
        requires
            span_state_wf(old(self)@),
        ensures
            span_state_wf(final(self)@),
            match r {
                Some(inst) => {
                    &&& assoc_has(old(self)@, span.id)
                    &&& assoc_has(assoc_get(old(self)@, span.id).instances, span.instance)
                    &&& inst@ == assoc_get(
                        assoc_get(old(self)@, span.id).instances,
                        span.instance,
                    )
                    &&& final(self)@ == old(self)@.update(
                        assoc_idx(old(self)@, span.id),
                        (span.id, freed_span_data(assoc_get(old(self)@, span.id), span.instance)),
                    )
                },
                None => final(self)@ == old(self)@ && (!assoc_has(old(self)@, span.id)
                    || !assoc_has(assoc_get(old(self)@, span.id).instances, span.instance)),
            },
    {
        let ghost pre = self.spans@;
        let ghost prev = span_pairs_view(pre);
        match assoc_position(&self.spans, span.id) {
            Some(i) => {
                let mut entry = self.spans.remove(i);
                proof {
                    assert(prev[i as int].0 == pre[i as int].0);
                    assert(assoc_has(prev, span.id));
                    let w = assoc_idx(prev, span.id);
                    assert(0 <= w < prev.len() && prev[w].0 == span.id);
                    assert(w == i as int);
                    assert(span_data_wf(prev[i as int].1));
                    assert(entry.1@ == prev[i as int].1);
                }
                let r = entry.1.free_instance(span.instance);
                let ghost gd = entry.1@;
                self.spans.insert(i, entry);
                proof {
                    assert(span_pairs_view(self.spans@) =~= prev.update(i as int, (span.id, gd)));
                    lemma_unique_update(prev, i as int, (span.id, gd));
                    assert(span_data_wf(gd));
                    assert forall|j: int| 0 <= j < self@.len() implies span_data_wf(
                        (#[trigger] self@[j]).1,
                    ) by {
                        if j != i as int {
                            assert(self@[j] == prev[j]);
                        }
                    }
                    if r is Some {
                        let d = prev[i as int].1;
                        let h2 = freed_span_data(d, span.instance).history;
                        lemma_min_max_seq_bounds(h2);
                        assert(gd == freed_span_data(d, span.instance));
                    }
                }
                r
            },
            None => {
                proof {
                    if assoc_has(prev, span.id) {
                        let w = assoc_idx(prev, span.id);
                        assert(prev[w].0 == pre[w].0);
                    }
                }
                None
            },
        }
    }

    /// The live instance with this id, if any.
    pub fn get_instance(&self, span: &SpanId) -> (r: Option<&SpanInstance>)
        requires
            span_state_wf(self@),
        ensures
            match r {
                Some(inst) => {
                    &&& assoc_has(self@, span.id)
                    &&& assoc_has(assoc_get(self@, span.id).instances, span.instance)
                    &&& inst@ == assoc_get(assoc_get(self@, span.id).instances, span.instance)
                },
                None => !assoc_has(self@, span.id) || !assoc_has(
                    assoc_get(self@, span.id).instances,
                    span.instance,
                ),
            },
    {
        match self.get_data(span.id) {
            Some(d) => d.get_instance(span.instance),
            None => None,
        }
    }

    /// Any current instance of a span, or the last retained one; used for
    /// inheritance lookups.
    pub fn get_any_instance(&self, id: u32) -> (r: Option<&SpanInstance>)
        requires
            span_state_wf(self@),
        ensures
            match r {
                Some(inst) => assoc_has(self@, id) && ({
                    let d = assoc_get(self@, id);
                    if d.instances.len() > 0 {
                        inst@ == d.instances[0].1
                    } else {
                        d.last_instance == Some(inst@)
                    }
                }),
                None => !assoc_has(self@, id) || ({
                    let d = assoc_get(self@, id);
                    d.instances.len() == 0 && d.last_instance is None
                }),
            },
    {
        match self.get_data(id) {
            Some(d) => {
                match d.first_instance() {
                    Some(inst) => Some(inst),
                    None => {
                        match &d.last_instance {
                            Some(li) => Some(li),
                            None => None,
                        }
                    },
                }
            },
            None => None,
        }
    }

    /// Moves the rate-limit watermark of a span; a no-op when unknown.
    pub fn set_last_update(&mut self, id: u32, now_us: u64)
        requires
            span_state_wf(old(self)@),
        ensures
            span_state_wf(final(self)@),
            final(self)@ == if assoc_has(old(self)@, id) {
                old(self)@.update(assoc_idx(old(self)@, id), (id, SpanDataView {
                    last_update_us: now_us,
                    ..assoc_get(old(self)@, id)
                }))
            } else {
                old(self)@
            },
    {
        let ghost pre = self.spans@;
        let ghost prev = span_pairs_view(pre);
        match assoc_position(&self.spans, id) {
            Some(i) => {
                let mut entry = self.spans.remove(i);
                proof {
                    assert(prev[i as int].0 == pre[i as int].0);
                    assert(assoc_has(prev, id));
                    let w = assoc_idx(prev, id);
                    assert(0 <= w < prev.len() && prev[w].0 == id);
                    assert(w == i as int);
                    assert(span_data_wf(prev[i as int].1));
                    assert(entry.1@ == prev[i as int].1);
                }
                entry.1.last_update_us = now_us;
                let ghost gd = entry.1@;
                self.spans.insert(i, entry);
                proof {
                    assert(span_pairs_view(self.spans@) =~= prev.update(i as int, (id, gd)));
                    assert(gd == (SpanDataView {
                        last_update_us: now_us,
                        ..prev[i as int].1
                    }));
                    lemma_unique_update(prev, i as int, (id, gd));
                    assert(span_data_wf(gd));
                    assert forall|j: int| 0 <= j < self@.len() implies span_data_wf(
                        (#[trigger] self@[j]).1,
                    ) by {
                        if j != i as int {
                            assert(self@[j] == prev[j]);
                        }
                    }
                }
            },
            None => {
                proof {
                    if assoc_has(prev, id) {
                        let w = assoc_idx(prev, id);
                        assert(prev[w].0 == pre[w].0);
                    }
                }
            },
        }
    }
}

} // verus!
