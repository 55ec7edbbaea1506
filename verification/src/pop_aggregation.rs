//! Grouped aggregation.

use crate::chunk::{row_of, rows_of, Chunk, Column};
use crate::expr::{trunc_div, AggType};
use crate::includes::PartitionId;
use crate::pcode::{code_views, malformed_text, run_row, type_error_text, PCode, PInstruction};
use crate::pop::POPKey;
use crate::pop_apply::{all_valued, all_well_formed, codes_well_formed, compute_columns, computed};
use crate::row::{datum_views, datums_eq, Datum, DatumView};
use vstd::prelude::*;
use vstd::seq_lib::{to_multiset_build, to_multiset_remove};

verus! {

/// Groups the rows of its child by the values of the key programs and
/// computes one aggregate per entry of `aggs` for every group.
#[derive(Debug, PartialEq, Eq)]
pub struct Aggregation {
    /// One program per grouping key.
    pub keys: Vec<PCode>,
    /// The kind of each aggregate.
    pub kinds: Vec<AggType>,
    /// The program of each aggregate's argument, run once per input row.
    pub args: Vec<PCode>,
}

impl Aggregation {
    /// An aggregation with the given keys and aggregates.
    pub fn new(keys: Vec<PCode>, kinds: Vec<AggType>, args: Vec<PCode>) -> (agg: Aggregation)
        ensures
            agg.keys == keys,
            agg.kinds == kinds,
            agg.args == args,
    {
        Aggregation { keys, kinds, args }
    }
}

/// The mathematical value of an aggregation.
pub struct AggregationView {
    pub keys: Seq<Seq<PInstruction>>,
    pub kinds: Seq<AggType>,
    pub args: Seq<Seq<PInstruction>>,
}

impl View for Aggregation {
    type V = AggregationView;

    open spec fn view(&self) -> AggregationView {
        AggregationView { keys: code_views(self.keys@), kinds: self.kinds@, args: code_views(self.args@) }
    }
}

/// What an accumulator knows of the values it has seen: how many, their
/// sum, the least and the greatest.
pub struct AccView {
    pub count: nat,
    pub sum: int,
    pub min: Option<int>,
    pub max: Option<int>,
}

/// The lesser of a known least value and a new value.
pub open spec fn least(m: Option<int>, v: int) -> int {
    match m {
        Some(x) => if x <= v {
            x
        } else {
            v
        },
        None => v,
    }
}

/// The greater of a known greatest value and a new value.
pub open spec fn greatest(m: Option<int>, v: int) -> int {
    match m {
        Some(x) => if x >= v {
            x
        } else {
            v
        },
        None => v,
    }
}

/// The accumulator that has seen nothing.
pub open spec fn acc_empty() -> AccView {
    AccView { count: 0, sum: 0, min: None, max: None }
}

/// The accumulator after one more value.
pub open spec fn acc_step(a: AccView, v: int) -> AccView {
    AccView { count: a.count + 1, sum: a.sum + v, min: Some(least(a.min, v)), max: Some(greatest(a.max, v)) }
}

/// The accumulator that has seen the values of a sequence.
pub open spec fn acc_of(values: Seq<int>) -> AccView
    decreases values.len(),
{
    if values.len() == 0 {
        acc_empty()
    } else {
        acc_step(acc_of(values.drop_last()), values.last())
    }
}

/// The accumulator that has seen what two accumulators have seen.
pub open spec fn acc_merge(a: AccView, b: AccView) -> AccView {
    AccView {
        count: a.count + b.count,
        sum: a.sum + b.sum,
        min: match b.min {
            Some(v) => Some(least(a.min, v)),
            None => a.min,
        },
        max: match b.max {
            Some(v) => Some(greatest(a.max, v)),
            None => a.max,
        },
    }
}

/// The average that an accumulator gives: sum by count, rounded toward
/// zero.
pub open spec fn acc_avg(a: AccView) -> int {
    trunc_div(a.sum, a.count as int)
}

/// Merging partial aggregates: the accumulator of two sequences of values
/// one after the other is the merge of their accumulators, and so the
/// average over both is the sum of the partial sums by the sum of the partial
/// counts.
pub proof fn lemma_acc_merge(a: Seq<int>, b: Seq<int>)
    ensures
        acc_of(a + b) == acc_merge(acc_of(a), acc_of(b)),
        acc_avg(acc_of(a + b)) == trunc_div(acc_of(a).sum + acc_of(b).sum, (acc_of(a).count + acc_of(b).count) as int),
    decreases b.len(),
{
    if b.len() == 0 {
        assert(a + b =~= a);
    } else {
        lemma_acc_merge(a, b.drop_last());
        assert((a + b).drop_last() =~= a + b.drop_last());
        assert((a + b).last() == b.last());
        lemma_acc_shape(a);
        lemma_acc_shape(b.drop_last());
    }
}

/// An accumulator knows a least and a greatest value exactly when it has
/// seen a value.
pub proof fn lemma_acc_shape(values: Seq<int>)
    ensures
        acc_of(values).count == values.len(),
        acc_of(values).min is Some <==> values.len() > 0,
        acc_of(values).max is Some <==> values.len() > 0,
    decreases values.len(),
{
    if values.len() > 0 {
        lemma_acc_shape(values.drop_last());
    }
}

/// Taking one value out of a sequence and adding it at the end leaves the
/// accumulator as it was.
proof fn lemma_acc_move_last(values: Seq<int>, i: int)
    requires
        0 <= i < values.len(),
    ensures
        acc_of(values) == acc_step(acc_of(values.remove(i)), values[i]),
    decreases values.len(),
{
    if i == values.len() - 1 {
        assert(values.remove(i) =~= values.drop_last());
    } else {
        let front = values.drop_last();
        lemma_acc_move_last(front, i);
        assert(values.remove(i).drop_last() =~= front.remove(i));
        assert(values.remove(i).last() == values.last());
        lemma_acc_shape(front.remove(i));
    }
}

/// Commutativity of aggregation: the accumulator depends on the values
/// seen, not on their order. Two sequences with the same values, each as
/// often in one as in the other, give the same count, sum, least and
/// greatest value, and so the same average.
pub proof fn lemma_acc_permutation(a: Seq<int>, b: Seq<int>)
    requires
        a.to_multiset() == b.to_multiset(),
    ensures
        acc_of(a) == acc_of(b),
        acc_avg(acc_of(a)) == acc_avg(acc_of(b)),
    decreases a.len(),
{
    broadcast use vstd::multiset::group_multiset_axioms;

    a.to_multiset_ensures();
    b.to_multiset_ensures();
    if a.len() == 0 {
        assert(b.len() == 0);
    } else {
        let x = a.last();
        let front = a.drop_last();
        assert(a =~= front.push(x));
        to_multiset_build(front, x);
        assert(a.to_multiset().count(x) > 0);
        assert(b.to_multiset().count(x) > 0);
        assert(b.contains(x));
        let i = choose|i: int| 0 <= i < b.len() && b[i] == x;
        to_multiset_remove(b, i);
        front.to_multiset_ensures();
        assert(front.to_multiset() =~= b.remove(i).to_multiset());
        lemma_acc_permutation(front, b.remove(i));
        lemma_acc_move_last(b, i);
    }
}

/// The running state of one aggregate of one group.
#[derive(Debug, Clone, Copy, PartialEq, Eq, Structural)]
pub struct Accumulator {
    pub count: u64,
    pub sum: i128,
    pub min: i64,
    pub max: i64,
}

impl View for Accumulator {
    type V = AccView;

    open spec fn view(&self) -> AccView {
        AccView {
            count: self.count as nat,
            sum: self.sum as int,
            min: if self.count > 0 {
                Some(self.min as int)
            } else {
                None
            },
            max: if self.count > 0 {
                Some(self.max as int)
            } else {
                None
            },
        }
    }
}

impl Accumulator {
    /// The sum lies within what the count allows, so that it cannot
    /// overflow before the count does.
    pub open spec fn wf(&self) -> bool {
        -(self.count as int) * 0x8000_0000_0000_0000 <= self.sum as int <= self.count as int * 0x8000_0000_0000_0000
    }

    /// The accumulator that has seen nothing.
    pub fn new() -> (acc: Accumulator)
        ensures
            acc@ == acc_empty(),
            acc.wf(),
    {
        Accumulator { count: 0, sum: 0, min: 0, max: 0 }
    }

    /// Takes in one more value. Returns `false`, and leaves the accumulator
    /// as it was, when it cannot count any further.
    pub fn update(&mut self, v: i64) -> (ok: bool)
        requires
            old(self).wf(),
        ensures
            final(self).wf(),
            ok == (old(self).count < u64::MAX),
            ok ==> final(self)@ == acc_step(old(self)@, v as int),
            !ok ==> *final(self) == *old(self),
    {
        if self.count == u64::MAX {
            return false;
        }
        let ghost count0 = self.count as int;
        let ghost sum0 = self.sum as int;
        assert(-0x8000_0000_0000_0000_0000_0000_0000_0000 + 0x8000_0000_0000_0000 <= sum0
            <= 0x7fff_ffff_ffff_ffff_ffff_ffff_ffff_ffff - 0x8000_0000_0000_0000) by (nonlinear_arith)
            requires
                0 <= count0 < 0xffff_ffff_ffff_ffff,
                -count0 * 0x8000_0000_0000_0000 <= sum0 <= count0 * 0x8000_0000_0000_0000,
        ;
        let first = self.count == 0;
        self.sum = self.sum + (v as i128);
        if first || v < self.min {
            self.min = v;
        }
        if first || v > self.max {
            self.max = v;
        }
        self.count = self.count + 1;
        let ghost count1 = self.count as int;
        let ghost sum1 = self.sum as int;
        assert(-count1 * 0x8000_0000_0000_0000 <= sum1 <= count1 * 0x8000_0000_0000_0000) by (nonlinear_arith)
            requires
                -count0 * 0x8000_0000_0000_0000 <= sum0 <= count0 * 0x8000_0000_0000_0000,
                count1 == count0 + 1,
                sum1 == sum0 + v,
                -0x8000_0000_0000_0000 <= v < 0x8000_0000_0000_0000,
        ;
        true
    }

    /// Takes in what another accumulator has seen. Returns `false`, and
    /// leaves the accumulator as it was, when the two have seen more values
    /// than can be counted.
    pub fn merge(&mut self, other: &Accumulator) -> (ok: bool)
        requires
            old(self).wf(),
            other.wf(),
        ensures
            final(self).wf(),
            ok == (old(self).count + other.count <= u64::MAX),
            ok ==> final(self)@ == acc_merge(old(self)@, other@),
            !ok ==> *final(self) == *old(self),
    {
        if other.count > u64::MAX - self.count {
            return false;
        }
        if other.count == 0 {
            return true;
        }
        let ghost c0 = self.count as int;
        let ghost s0 = self.sum as int;
        let ghost c1 = other.count as int;
        let ghost s1 = other.sum as int;
        assert(-0x8000_0000_0000_0000_0000_0000_0000_0000 <= s0 + s1 <= 0x7fff_ffff_ffff_ffff_ffff_ffff_ffff_ffff
            && -(c0 + c1) * 0x8000_0000_0000_0000 <= s0 + s1 <= (c0 + c1) * 0x8000_0000_0000_0000) by (nonlinear_arith)
            requires
                0 <= c0,
                0 <= c1,
                c0 + c1 <= 0xffff_ffff_ffff_ffff,
                -c0 * 0x8000_0000_0000_0000 <= s0 <= c0 * 0x8000_0000_0000_0000,
                -c1 * 0x8000_0000_0000_0000 <= s1 <= c1 * 0x8000_0000_0000_0000,
        ;
        let first = self.count == 0;
        self.sum = self.sum + other.sum;
        if first || other.min < self.min {
            self.min = other.min;
        }
        if first || other.max > self.max {
            self.max = other.max;
        }
        self.count = self.count + other.count;
        true
    }

    /// The value of the aggregate of kind `kind`: the count, the sum, the
    /// least or the greatest value, or the average rounded toward zero.
    /// There is none when the accumulator has seen no value and the kind is
    /// not `COUNT`, and when the value does not fit in 64 bits.
    pub fn finalize(&self, kind: AggType) -> (res: Option<i64>)
        requires
            self.wf(),
        ensures
            res == final_value(kind, self@),
    {
        match kind {
            AggType::COUNT => {
                if self.count <= i64::MAX as u64 {
                    Some(self.count as i64)
                } else {
                    None
                }
            },
            AggType::SUM => {
                if self.count > 0 && self.sum >= i64::MIN as i128 && self.sum <= i64::MAX as i128 {
                    Some(self.sum as i64)
                } else {
                    None
                }
            },
            AggType::MIN => {
                if self.count > 0 {
                    Some(self.min)
                } else {
                    None
                }
            },
            AggType::MAX => {
                if self.count > 0 {
                    Some(self.max)
                } else {
                    None
                }
            },
            AggType::AVG => {
                if self.count > 0 {
                    let avg = match self.sum.checked_div(self.count as i128) {
                        Some(q) => q,
                        None => {
                            return None;
                        },
                    };
                    if avg >= i64::MIN as i128 && avg <= i64::MAX as i128 {
                        Some(avg as i64)
                    } else {
                        None
                    }
                } else {
                    None
                }
            },
        }
    }
}

/// The value of an aggregate given what its accumulator has seen.
pub open spec fn final_value(kind: AggType, a: AccView) -> Option<i64> {
    match kind {
        AggType::COUNT => if a.count <= i64::MAX {
            Some(a.count as i64)
        } else {
            None
        },
        AggType::SUM => if a.count > 0 && i64::MIN <= a.sum <= i64::MAX {
            Some(a.sum as i64)
        } else {
            None
        },
        AggType::MIN => match a.min {
            Some(v) => Some(v as i64),
            None => None,
        },
        AggType::MAX => match a.max {
            Some(v) => Some(v as i64),
            None => None,
        },
        AggType::AVG => if a.count > 0 && i64::MIN <= acc_avg(a) <= i64::MAX {
            Some(acc_avg(a) as i64)
        } else {
            None
        },
    }
}

/// One group: the values of its keys and one accumulator per aggregate.
#[derive(Debug, PartialEq, Eq)]
pub struct Group {
    pub key: Vec<Datum>,
    pub accs: Vec<Accumulator>,
}

/// The mathematical value of a group.
pub struct GroupView {
    pub key: Seq<DatumView>,
    pub accs: Seq<AccView>,
}

impl View for Group {
    type V = GroupView;

    open spec fn view(&self) -> GroupView {
        GroupView { key: datum_views(self.key@), accs: Seq::new(self.accs@.len(), |j: int| self.accs@[j]@) }
    }
}

/// The mathematical value of a list of groups.
pub open spec fn group_views(groups: Seq<Group>) -> Seq<GroupView> {
    Seq::new(groups.len(), |g: int| groups[g]@)
}

/// Position of the first group with the given key.
pub open spec fn group_position(groups: Seq<GroupView>, key: Seq<DatumView>) -> Option<int>
    decreases groups.len(),
{
    if groups.len() == 0 {
        None
    } else if groups[0].key == key {
        Some(0)
    } else {
        match group_position(groups.skip(1), key) {
            Some(i) => Some(i + 1),
            None => None,
        }
    }
}

/// The first group with the key is the one that the search finds.
proof fn lemma_group_position(groups: Seq<GroupView>, key: Seq<DatumView>, k: int)
    requires
        0 <= k <= groups.len(),
        forall|j: int| 0 <= j < k ==> groups[j].key != key,
        k < groups.len() ==> groups[k].key == key,
    ensures
        group_position(groups, key) == if k < groups.len() {
            Some(k)
        } else {
            None
        },
    decreases groups.len(),
{
    if groups.len() > 0 && k > 0 {
        let rest = groups.skip(1);
        assert forall|j: int| 0 <= j < k - 1 implies rest[j].key != key by {
            assert(rest[j] == groups[j + 1]);
        }
        lemma_group_position(rest, key, k - 1);
    }
}

/// The groups after one more row with the given key and the given
/// arguments of the aggregates: the accumulators of the row's group take
/// in the arguments; a key not seen before opens a group at the end.
pub open spec fn absorb(groups: Seq<GroupView>, key: Seq<DatumView>, args: Seq<int>) -> Seq<GroupView> {
    match group_position(groups, key) {
        Some(g) => groups.update(
            g,
            GroupView { key, accs: Seq::new(args.len(), |j: int| acc_step(groups[g].accs[j], args[j])) },
        ),
        None => groups.push(GroupView { key, accs: Seq::new(args.len(), |j: int| acc_step(acc_empty(), args[j])) }),
    }
}

/// The number that an aggregate of kind `kind` takes in for the value `d`
/// of its argument: the value itself if it is an integer; for a count, which
/// counts rows, any value will do.
pub open spec fn arg_value(kind: AggType, d: DatumView) -> Option<int> {
    match d {
        DatumView::Int(v) => Some(v),
        _ => if kind == AggType::COUNT {
            Some(0)
        } else {
            None
        },
    }
}

/// The numbers that the aggregates take in for a row.
pub open spec fn arg_row(agg: AggregationView, row: Seq<DatumView>) -> Seq<int> {
    Seq::new(agg.args.len(), |j: int| arg_value(agg.kinds[j], run_row(agg.args[j], row).unwrap()).unwrap())
}

/// The values of the grouping keys on a row.
pub open spec fn group_key(agg: AggregationView, row: Seq<DatumView>) -> Seq<DatumView> {
    Seq::new(agg.keys.len(), |k: int| run_row(agg.keys[k], row).unwrap())
}

/// The groups after the first `upto` rows of a batch.
pub open spec fn absorb_rows(groups: Seq<GroupView>, agg: AggregationView, columns: Seq<Seq<DatumView>>, upto: nat) -> Seq<
    GroupView,
>
    decreases upto,
{
    if upto == 0 {
        groups
    } else {
        absorb(
            absorb_rows(groups, agg, columns, (upto - 1) as nat),
            group_key(agg, row_of(columns, upto - 1)),
            arg_row(agg, row_of(columns, upto - 1)),
        )
    }
}

/// What a row gives to an aggregation: the values of its grouping keys and
/// the numbers that the aggregates take in.
pub type Entry = (Seq<DatumView>, Seq<int>);

/// The groups after a list of rows, starting from `groups`.
pub open spec fn absorb_all(groups: Seq<GroupView>, entries: Seq<Entry>) -> Seq<GroupView>
    decreases entries.len(),
{
    if entries.len() == 0 {
        groups
    } else {
        absorb(absorb_all(groups, entries.drop_last()), entries.last().0, entries.last().1)
    }
}

/// What the first `upto` rows of a batch give to an aggregation.
pub open spec fn entries_of(agg: AggregationView, columns: Seq<Seq<DatumView>>, upto: nat) -> Seq<Entry> {
    Seq::new(upto, |i: int| (group_key(agg, row_of(columns, i)), arg_row(agg, row_of(columns, i))))
}

/// The numbers that aggregate `j` takes in from the rows with the grouping
/// key `key`, in the order of the rows.
pub open spec fn values_of(entries: Seq<Entry>, key: Seq<DatumView>, j: int) -> Seq<int>
    decreases entries.len(),
{
    if entries.len() == 0 {
        Seq::empty()
    } else if entries.last().0 == key {
        values_of(entries.drop_last(), key, j).push(entries.last().1[j])
    } else {
        values_of(entries.drop_last(), key, j)
    }
}

/// Taking in the rows of a batch is taking in what each row gives.
pub proof fn lemma_absorb_rows(groups: Seq<GroupView>, agg: AggregationView, columns: Seq<Seq<DatumView>>, upto: nat)
    ensures
        absorb_rows(groups, agg, columns, upto) == absorb_all(groups, entries_of(agg, columns, upto)),
    decreases upto,
{
    if upto > 0 {
        lemma_absorb_rows(groups, agg, columns, (upto - 1) as nat);
        assert(entries_of(agg, columns, upto).drop_last() =~= entries_of(agg, columns, (upto - 1) as nat));
    }
}

/// Taking in two lists of rows one after the other is taking in the one
/// list that holds both.
pub proof fn lemma_absorb_all_concat(groups: Seq<GroupView>, a: Seq<Entry>, b: Seq<Entry>)
    ensures
        absorb_all(groups, a + b) == absorb_all(absorb_all(groups, a), b),
    decreases b.len(),
{
    if b.len() == 0 {
        assert(a + b =~= a);
    } else {
        lemma_absorb_all_concat(groups, a, b.drop_last());
        assert((a + b).drop_last() =~= a + b.drop_last());
        assert((a + b).last() == b.last());
    }
}

/// What the search for a group finds is the first group with the key.
proof fn lemma_group_position_first(groups: Seq<GroupView>, key: Seq<DatumView>)
    ensures
        match group_position(groups, key) {
            Some(g) => 0 <= g < groups.len() && groups[g].key == key && forall|i: int| 0 <= i < g ==> groups[i].key != key,
            None => forall|i: int| 0 <= i < groups.len() ==> groups[i].key != key,
        },
    decreases groups.len(),
{
    if groups.len() > 0 && groups[0].key != key {
        let rest = groups.skip(1);
        lemma_group_position_first(rest, key);
        match group_position(rest, key) {
            Some(g) => {
                assert forall|i: int| 0 <= i < g + 1 implies groups[i].key != key by {
                    if i > 0 {
                        assert(rest[i - 1] == groups[i]);
                    }
                }
            },
            None => {
                assert forall|i: int| 0 <= i < groups.len() implies groups[i].key != key by {
                    if i > 0 {
                        assert(rest[i - 1] == groups[i]);
                    }
                }
            },
        }
    }
}

/// Rows with other keys give a group nothing.
proof fn lemma_values_of_none(entries: Seq<Entry>, key: Seq<DatumView>, j: int)
    requires
        forall|e: int| 0 <= e < entries.len() ==> entries[e].0 != key,
    ensures
        values_of(entries, key, j) == Seq::<int>::empty(),
    decreases entries.len(),
{
    if entries.len() > 0 {
        lemma_values_of_none(entries.drop_last(), key, j);
    }
}

/// Every key has one group, and a group holds what its rows gave: after
/// any list of rows, each with `n` numbers for the aggregates, there is a
/// group for `key` exactly if some row has that key, and accumulator `j` of
/// the group is the accumulator of the numbers that aggregate `j` took in
/// from the rows with that key.
pub proof fn lemma_groups_hold(entries: Seq<Entry>, n: nat, key: Seq<DatumView>)
    requires
        forall|e: int| 0 <= e < entries.len() ==> (#[trigger] entries[e]).1.len() == n,
    ensures
        match group_position(absorb_all(Seq::empty(), entries), key) {
            Some(g) => {
                let groups = absorb_all(Seq::empty(), entries);
                &&& 0 <= g < groups.len()
                &&& groups[g].key == key
                &&& groups[g].accs == Seq::new(n, |j: int| acc_of(values_of(entries, key, j)))
                &&& exists|e: int| 0 <= e < entries.len() && entries[e].0 == key
            },
            None => forall|e: int| 0 <= e < entries.len() ==> entries[e].0 != key,
        },
    decreases entries.len(),
{
    let groups = absorb_all(Seq::empty(), entries);
    if entries.len() == 0 {
    } else {
        let front = entries.drop_last();
        let last = entries.last();
        let before = absorb_all(Seq::empty(), front);
        assert forall|e: int| 0 <= e < front.len() implies (#[trigger] front[e]).1.len() == n by {
            assert(front[e] == entries[e]);
        }
        lemma_groups_hold(front, n, key);
        lemma_groups_hold(front, n, last.0);
        lemma_group_position_first(before, key);
        lemma_group_position_first(before, last.0);
        assert(last.1.len() == n);
        match group_position(before, last.0) {
            Some(h) => {
                assert(groups == before.update(
                    h,
                    GroupView { key: last.0, accs: Seq::new(last.1.len(), |j: int| acc_step(before[h].accs[j], last.1[j])) },
                ));
                match group_position(before, key) {
                    Some(g) => {
                        assert forall|i: int| 0 <= i < g implies groups[i].key != key by {}
                        lemma_group_position(groups, key, g);
                        if key == last.0 {
                            assert(groups[g].accs =~= Seq::new(n, |j: int| acc_of(values_of(entries, key, j)))) by {
                                assert forall|j: int| 0 <= j < n implies groups[g].accs[j] == acc_of(
                                    values_of(entries, key, j),
                                ) by {
                                    let v = values_of(front, key, j);
                                    assert(values_of(entries, key, j) == v.push(last.1[j]));
                                    assert(v.push(last.1[j]).drop_last() =~= v);
                                }
                            }
                            assert(entries[entries.len() - 1].0 == key);
                        } else {
                            assert(groups[g] == before[g]);
                            assert(groups[g].accs =~= Seq::new(n, |j: int| acc_of(values_of(entries, key, j))));
                            let e = choose|e: int| 0 <= e < front.len() && front[e].0 == key;
                            assert(entries[e].0 == key);
                        }
                    },
                    None => {
                        assert forall|i: int| 0 <= i < groups.len() implies groups[i].key != key by {}
                        lemma_group_position(groups, key, groups.len() as int);
                        assert forall|e: int| 0 <= e < entries.len() implies entries[e].0 != key by {
                            if e < front.len() {
                                assert(front[e] == entries[e]);
                            }
                        }
                    },
                }
            },
            None => {
                let fresh = GroupView { key: last.0, accs: Seq::new(last.1.len(), |j: int| acc_step(acc_empty(), last.1[j])) };
                assert(groups == before.push(fresh));
                match group_position(before, key) {
                    Some(g) => {
                        assert forall|i: int| 0 <= i < g implies groups[i].key != key by {}
                        lemma_group_position(groups, key, g);
                        assert(groups[g] == before[g]);
                        assert(key != last.0);
                        assert(groups[g].accs =~= Seq::new(n, |j: int| acc_of(values_of(entries, key, j))));
                        let e = choose|e: int| 0 <= e < front.len() && front[e].0 == key;
                        assert(entries[e].0 == key);
                    },
                    None => {
                        if key == last.0 {
                            assert forall|i: int| 0 <= i < before.len() implies groups[i].key != key by {}
                            lemma_group_position(groups, key, before.len() as int);
                            assert(groups[before.len() as int].accs =~= Seq::new(
                                n,
                                |j: int| acc_of(values_of(entries, key, j)),
                            )) by {
                                assert forall|j: int| 0 <= j < n implies fresh.accs[j] == acc_of(
                                    values_of(entries, key, j),
                                ) by {
                                    lemma_values_of_none(front, key, j);
                                    let v = values_of(front, key, j);
                                    assert(values_of(entries, key, j) == v.push(last.1[j]));
                                    assert(v.push(last.1[j]).drop_last() =~= v);
                                    assert(acc_of(v) == acc_empty());
                                    assert(acc_of(v.push(last.1[j])) == acc_step(acc_of(v), last.1[j]));
                                }
                            }
                            assert(entries[entries.len() - 1].0 == key);
                        } else {
                            assert forall|i: int| 0 <= i < groups.len() implies groups[i].key != key by {}
                            lemma_group_position(groups, key, groups.len() as int);
                            assert forall|e: int| 0 <= e < entries.len() implies entries[e].0 != key by {
                                if e < front.len() {
                                    assert(front[e] == entries[e]);
                                }
                            }
                        }
                    },
                }
            },
        }
    }
}

/// Taking one row out of a list takes its number out of the numbers of its
/// group, and leaves the numbers of the other groups as they were.
proof fn lemma_values_remove(entries: Seq<Entry>, i: int, key: Seq<DatumView>, j: int)
    requires
        0 <= i < entries.len(),
    ensures
        values_of(entries, key, j).to_multiset() == if entries[i].0 == key {
            values_of(entries.remove(i), key, j).to_multiset().insert(entries[i].1[j])
        } else {
            values_of(entries.remove(i), key, j).to_multiset()
        },
    decreases entries.len(),
{
    broadcast use vstd::multiset::group_multiset_axioms;

    let front = entries.drop_last();
    if i == entries.len() - 1 {
        assert(entries.remove(i) =~= front);
        if entries[i].0 == key {
            to_multiset_build(values_of(front, key, j), entries[i].1[j]);
        }
    } else {
        lemma_values_remove(front, i, key, j);
        let without = entries.remove(i);
        assert(without.drop_last() =~= front.remove(i));
        assert(without.last() == entries.last());
        assert(front[i] == entries[i]);
        if entries.last().0 == key {
            to_multiset_build(values_of(front, key, j), entries.last().1[j]);
            to_multiset_build(values_of(front.remove(i), key, j), entries.last().1[j]);
            if entries[i].0 == key {
                assert(values_of(entries, key, j).to_multiset() =~= values_of(without, key, j).to_multiset().insert(
                    entries[i].1[j],
                ));
            }
        }
    }
}

/// The numbers that a group takes in are the same, each as often, whatever
/// the order of the rows.
proof fn lemma_values_permutation(a: Seq<Entry>, b: Seq<Entry>, key: Seq<DatumView>, j: int)
    requires
        a.to_multiset() == b.to_multiset(),
    ensures
        values_of(a, key, j).to_multiset() == values_of(b, key, j).to_multiset(),
    decreases a.len(),
{
    broadcast use vstd::multiset::group_multiset_axioms;

    a.to_multiset_ensures();
    b.to_multiset_ensures();
    if a.len() == 0 {
        assert(b.len() == 0);
    } else {
        let x = a.last();
        let front = a.drop_last();
        assert(a =~= front.push(x));
        to_multiset_build(front, x);
        assert(a.to_multiset().count(x) > 0);
        assert(b.to_multiset().count(x) > 0);
        assert(b.contains(x));
        let i = choose|i: int| 0 <= i < b.len() && b[i] == x;
        to_multiset_remove(b, i);
        front.to_multiset_ensures();
        assert(front.to_multiset() =~= b.remove(i).to_multiset());
        lemma_values_permutation(front, b.remove(i), key, j);
        lemma_values_remove(b, i, key, j);
        if x.0 == key {
            to_multiset_build(values_of(front, key, j), x.1[j]);
        }
    }
}

/// Commutativity of grouped aggregation: two inputs that hold the same
/// rows, each as often in one as in the other, in whatever order and
/// however they are cut into chunks, give the same groups with the same
/// counts, sums, least and greatest values, and so the same averages. Only
/// the order of the groups may differ.
pub proof fn lemma_groups_permutation(a: Seq<Entry>, b: Seq<Entry>, n: nat, key: Seq<DatumView>)
    requires
        a.to_multiset() == b.to_multiset(),
        forall|e: int| 0 <= e < a.len() ==> (#[trigger] a[e]).1.len() == n,
    ensures
        match (group_position(absorb_all(Seq::empty(), a), key), group_position(absorb_all(Seq::empty(), b), key)) {
            (Some(g), Some(h)) => absorb_all(Seq::empty(), a)[g] == absorb_all(Seq::empty(), b)[h],
            (None, None) => true,
            _ => false,
        },
{
    broadcast use vstd::multiset::group_multiset_axioms;

    a.to_multiset_ensures();
    b.to_multiset_ensures();
    assert forall|e: int| 0 <= e < b.len() implies (#[trigger] b[e]).1.len() == n by {
        assert(b.contains(b[e]));
        assert(a.to_multiset().count(b[e]) > 0);
        assert(a.contains(b[e]));
        let k = choose|k: int| 0 <= k < a.len() && a[k] == b[e];
        assert(a[k].1.len() == n);
    }
    lemma_groups_hold(a, n, key);
    lemma_groups_hold(b, n, key);
    let ga = absorb_all(Seq::empty(), a);
    let gb = absorb_all(Seq::empty(), b);
    match (group_position(ga, key), group_position(gb, key)) {
        (Some(g), Some(h)) => {
            assert(ga[g].accs =~= gb[h].accs) by {
                assert forall|j: int| 0 <= j < n implies acc_of(values_of(a, key, j)) == acc_of(values_of(b, key, j)) by {
                    lemma_values_permutation(a, b, key, j);
                    lemma_acc_permutation(values_of(a, key, j), values_of(b, key, j));
                }
            }
        },
        (Some(g), None) => {
            let e = choose|e: int| 0 <= e < a.len() && a[e].0 == key;
            assert(a.contains(a[e]));
            assert(b.to_multiset().count(a[e]) > 0);
            assert(b.contains(a[e]));
            let k = choose|k: int| 0 <= k < b.len() && b[k] == a[e];
            assert(b[k].0 == key);
        },
        (None, Some(h)) => {
            let e = choose|e: int| 0 <= e < b.len() && b[e].0 == key;
            assert(b.contains(b[e]));
            assert(a.to_multiset().count(b[e]) > 0);
            assert(a.contains(b[e]));
            let k = choose|k: int| 0 <= k < a.len() && a[k] == b[e];
            assert(a[k].0 == key);
        },
        (None, None) => {},
    }
}

/// Every aggregate can take in the value of its argument on every row.
pub open spec fn args_numeric(agg: AggregationView, columns: Seq<Seq<DatumView>>) -> bool {
    forall|j: int, i: int|
        0 <= j < agg.args.len() && 0 <= i < rows_of(columns) ==> arg_value(
            agg.kinds[j],
            #[trigger] run_row(agg.args[j], row_of(columns, i)).unwrap(),
        ) is Some
}

/// Text of the error for an aggregation whose kinds and arguments differ in
/// number.
pub open spec fn shape_text() -> Seq<char> {
    "Aggregation: kinds and arguments differ in number"@
}

/// Text of the error for more rows than can be counted.
pub open spec fn too_many_rows_text() -> Seq<char> {
    "Aggregation: too many rows"@
}

/// Text of the error for an aggregate whose value does not fit its column.
pub open spec fn result_text() -> Seq<char> {
    "Aggregation: result out of range or keys of mixed types"@
}

/// Why a batch cannot be aggregated, if it cannot.
pub open spec fn update_fault(agg: AggregationView, rows_seen: u64, columns: Seq<Seq<DatumView>>) -> Option<Seq<char>> {
    if agg.kinds.len() != agg.args.len() {
        Some(shape_text())
    } else if !all_well_formed(agg.keys) || !all_well_formed(agg.args) {
        Some(malformed_text())
    } else if !all_valued(agg.keys, columns) || !all_valued(agg.args, columns) || !args_numeric(agg, columns) {
        Some(type_error_text())
    } else if rows_seen + rows_of(columns) > u64::MAX {
        Some(too_many_rows_text())
    } else {
        None
    }
}

/// The per-task state of an aggregation: the groups met so far, in the
/// order in which they were met.
#[derive(Debug, PartialEq, Eq)]
pub struct AggregationContext {
    pub pop_key: POPKey,
    pub partition_id: PartitionId,
    pub groups: Vec<Group>,
    /// Number of rows taken in.
    pub rows_seen: u64,
    /// Whether the result has been handed on.
    pub done: bool,
}

/// The numbers that an aggregate of kind `kind` takes in for the values of
/// a column; `None` when it cannot take one of them.
fn int_values(kind: AggType, column: &Column) -> (res: Option<Vec<i64>>)
    ensures
        res is Some <==> forall|i: int| 0 <= i < column@.len() ==> arg_value(kind, #[trigger] column@[i]) is Some,
        res matches Some(v) ==> v@.len() == column@.len() && forall|i: int|
            0 <= i < column@.len() ==> arg_value(kind, column@[i]) == Some(#[trigger] v@[i] as int),
{
    match column {
        Column::Int(v) => {
            let w = v.clone();
            assert(w@ =~= v@);
            assert forall|i: int| 0 <= i < column@.len() implies arg_value(kind, #[trigger] column@[i]) is Some by {}
            Some(w)
        },
        _ => {
            let n = column.len();
            if n > 0 && !matches!(kind, AggType::COUNT) {
                assert(arg_value(kind, column@[0]) is None);
                return None;
            }
            let mut out: Vec<i64> = Vec::new();
            let mut i: usize = 0;
            while i < n
                invariant
                    i <= n,
                    out@.len() == i,
                    forall|k: int| 0 <= k < i ==> #[trigger] out@[k] == 0,
                decreases n - i,
            {
                out.push(0);
                i += 1;
            }
            assert forall|i: int| 0 <= i < column@.len() implies arg_value(kind, #[trigger] column@[i]) == Some(
                0int,
            ) by {}
            Some(out)
        },
    }
}

impl AggregationContext {
    /// Every group has `nargs` accumulators, none of which has seen more
    /// values than rows were taken in.
    pub open spec fn wf(&self, nargs: nat) -> bool {
        forall|g: int|
            0 <= g < self.groups@.len() ==> {
                &&& (#[trigger] self.groups@[g]).accs@.len() == nargs
                &&& forall|j: int|
                    0 <= j < nargs ==> (#[trigger] self.groups@[g].accs@[j]).wf() && self.groups@[g].accs@[j].count
                        <= self.rows_seen
            }
    }

    /// The state of a task that has taken in nothing.
    pub fn new(pop_key: POPKey, partition_id: PartitionId) -> (ctx: Self)
        ensures
            ctx.pop_key == pop_key,
            ctx.partition_id == partition_id,
            ctx.groups@.len() == 0,
            ctx.rows_seen == 0,
            !ctx.done,
    {
        AggregationContext { pop_key, partition_id, groups: Vec::new(), rows_seen: 0, done: false }
    }

    /// Position of the group with the given key.
    fn find(&self, key: &Vec<Datum>) -> (res: Option<usize>)
        ensures
            match res {
                Some(g) => g < self.groups@.len() && group_position(group_views(self.groups@), datum_views(key@)) == Some(
                    g as int,
                ),
                None => group_position(group_views(self.groups@), datum_views(key@)) is None,
            },
    {
        let ghost views = group_views(self.groups@);
        let mut g: usize = 0;
        while g < self.groups.len()
            invariant
                g <= self.groups@.len(),
                views == group_views(self.groups@),
                forall|j: int| 0 <= j < g ==> views[j].key != datum_views(key@),
            decreases self.groups@.len() - g,
        {
            if datums_eq(&self.groups[g].key, key) {
                proof {
                    lemma_group_position(views, datum_views(key@), g as int);
                }
                return Some(g);
            }
            g += 1;
        }
        proof {
            lemma_group_position(views, datum_views(key@), g as int);
        }
        None
    }

    /// Takes in one row.
    fn absorb(&mut self, key: Vec<Datum>, args: &Vec<i64>)
        requires
            old(self).wf(args@.len()),
            old(self).keyed(key@.len()),
            old(self).rows_seen < u64::MAX,
        ensures
            final(self).wf(args@.len()),
            final(self).keyed(key@.len()),
            final(self).rows_seen == old(self).rows_seen + 1,
            final(self).pop_key == old(self).pop_key,
            final(self).partition_id == old(self).partition_id,
            final(self).done == old(self).done,
            group_views(final(self).groups@) == absorb(
                group_views(old(self).groups@),
                datum_views(key@),
                Seq::new(args@.len(), |j: int| args@[j] as int),
            ),
    {
        let ghost before = group_views(self.groups@);
        let ghost ints = Seq::new(args@.len(), |j: int| args@[j] as int);
        let ghost kview = datum_views(key@);
        let pos = self.find(&key);
        let mut accs: Vec<Accumulator> = Vec::new();
        let mut j: usize = 0;
        while j < args.len()
            invariant
                j <= args@.len(),
                self.wf(args@.len()),
                *self == *old(self),
                self.rows_seen < u64::MAX,
                pos matches Some(g) ==> g < self.groups@.len(),
                accs@.len() == j,
                forall|k: int|
                    0 <= k < j ==> {
                        &&& (#[trigger] accs@[k]).wf()
                        &&& accs@[k].count <= self.rows_seen + 1
                        &&& accs@[k]@ == acc_step(
                            match pos {
                                Some(g) => self.groups@[g as int].accs@[k]@,
                                None => acc_empty(),
                            },
                            args@[k] as int,
                        )
                    },
            decreases args@.len() - j,
        {
            let mut acc = match pos {
                Some(g) => {
                    assert(self.groups@[g as int].accs@[j as int].wf());
                    self.groups[g].accs[j]
                },
                None => Accumulator::new(),
            };
            let ok = acc.update(args[j]);
            assert(ok);
            accs.push(acc);
            j += 1;
        }
        let group = Group { key, accs };
        assert(group@ == GroupView {
            key: kview,
            accs: Seq::new(
                ints.len(),
                |j: int|
                    acc_step(
                        match pos {
                            Some(g) => before[g as int].accs[j],
                            None => acc_empty(),
                        },
                        ints[j],
                    ),
            ),
        }) by {
            assert(group@.accs =~= Seq::new(
                ints.len(),
                |j: int|
                    acc_step(
                        match pos {
                            Some(g) => before[g as int].accs[j],
                            None => acc_empty(),
                        },
                        ints[j],
                    ),
            ));
        }
        match pos {
            Some(g) => {
                self.groups.set(g, group);
                assert(group_views(self.groups@) =~= before.update(g as int, group@));
                assert(group@.accs =~= Seq::new(ints.len(), |j: int| acc_step(before[g as int].accs[j], ints[j])));
            },
            None => {
                self.groups.push(group);
                assert(group_views(self.groups@) =~= before.push(group@));
                assert(group@.accs =~= Seq::new(ints.len(), |j: int| acc_step(acc_empty(), ints[j])));
            },
        }
        self.rows_seen = self.rows_seen + 1;
    }
}

/// The values that the groups have at key position `k`.
pub open spec fn key_column(groups: Seq<GroupView>, k: int) -> Seq<DatumView> {
    Seq::new(groups.len(), |g: int| groups[g].key[k])
}

/// The values of aggregate `j` of kind `kind` for the groups.
pub open spec fn agg_column(groups: Seq<GroupView>, kind: AggType, j: int) -> Seq<DatumView> {
    Seq::new(groups.len(), |g: int| DatumView::Int(final_value(kind, groups[g].accs[j]).unwrap() as int))
}

/// The result of an aggregation, column by column: one row per group, with
/// the values of the keys followed by the values of the aggregates.
pub open spec fn result_columns(groups: Seq<GroupView>, nkeys: nat, kinds: Seq<AggType>) -> Seq<Seq<DatumView>> {
    Seq::new(
        nkeys + kinds.len(),
        |c: int|
            if c < nkeys {
                key_column(groups, c)
            } else {
                agg_column(groups, kinds[c - nkeys], c - nkeys)
            },
    )
}

/// Whether the result can be put in typed columns: the groups agree on the
/// type of every key, and every aggregate has a value that fits.
pub open spec fn result_fits(groups: Seq<GroupView>, nkeys: nat, kinds: Seq<AggType>) -> bool {
    &&& forall|k: int|
        0 <= k < nkeys ==> groups.len() == 0 || crate::chunk::all_of_type(
            #[trigger] key_column(groups, k),
            groups[0].key[k].data_type(),
        )
    &&& forall|j: int, g: int|
        0 <= j < kinds.len() && 0 <= g < groups.len() ==> (#[trigger] final_value(kinds[j], groups[g].accs[j])) is Some
}

impl AggregationContext {
    /// Every group has `nkeys` keys.
    pub open spec fn keyed(&self, nkeys: nat) -> bool {
        forall|g: int| 0 <= g < self.groups@.len() ==> (#[trigger] self.groups@[g]).key@.len() == nkeys
    }

    /// Takes in the rows of `chunk`: evaluates the key programs and the
    /// argument programs on every row and hands each row to its group. On a
    /// fault nothing is taken in.
    pub fn update(&mut self, agg: &Aggregation, chunk: &Chunk) -> (res: Result<(), String>)
        requires
            chunk.wf(),
            old(self).wf(agg.args@.len()),
            old(self).keyed(agg.keys@.len()),
        ensures
            final(self).wf(agg.args@.len()),
            final(self).keyed(agg.keys@.len()),
            final(self).pop_key == old(self).pop_key,
            final(self).partition_id == old(self).partition_id,
            final(self).done == old(self).done,
            match res {
                Ok(_) => {
                    &&& update_fault(agg@, old(self).rows_seen, chunk@) is None
                    &&& final(self).rows_seen == old(self).rows_seen + chunk.spec_len()
                    &&& group_views(final(self).groups@) == absorb_rows(
                        group_views(old(self).groups@),
                        agg@,
                        chunk@,
                        chunk.spec_len(),
                    )
                },
                Err(e) => update_fault(agg@, old(self).rows_seen, chunk@) == Some(e@) && *final(self) == *old(self),
            },
    {
        if agg.kinds.len() != agg.args.len() {
            return Err(String::from_str("Aggregation: kinds and arguments differ in number"));
        }
        if !codes_well_formed(&agg.keys) || !codes_well_formed(&agg.args) {
            return Err(String::from_str("PCode: malformed program"));
        }
        let key_columns = match compute_columns(&agg.keys, chunk) {
            Some(c) => c,
            None => {
                return Err(String::from_str("PCode: runtime type error"));
            },
        };
        let arg_columns = match compute_columns(&agg.args, chunk) {
            Some(c) => c,
            None => {
                return Err(String::from_str("PCode: runtime type error"));
            },
        };
        let n = chunk.len();
        let ghost aview = agg@;
        // The numbers that the aggregates take in, one list per aggregate.
        let mut numbers: Vec<Vec<i64>> = Vec::new();
        let mut j: usize = 0;
        while j < arg_columns.len()
            invariant
                j <= arg_columns@.len(),
                aview == agg@,
                n == chunk.spec_len(),
                *self == *old(self),
                self.wf(agg.args@.len()),
                self.keyed(agg.keys@.len()),
                all_well_formed(aview.keys),
                all_well_formed(aview.args),
                all_valued(aview.keys, chunk@),
                all_valued(aview.args, chunk@),
                arg_columns@.len() == agg.args@.len(),
                agg.kinds@.len() == agg.args@.len(),
                forall|k: int|
                    0 <= k < arg_columns@.len() ==> (#[trigger] arg_columns@[k])@ == computed(aview.args[k], chunk@),
                numbers@.len() == j,
                forall|k: int, i: int|
                    0 <= k < j && 0 <= i < n ==> arg_value(
                        aview.kinds[k],
                        #[trigger] run_row(aview.args[k], row_of(chunk@, i)).unwrap(),
                    ) is Some,
                forall|k: int|
                    0 <= k < j ==> (#[trigger] numbers@[k])@.len() == n && forall|i: int|
                        0 <= i < n ==> arg_value(aview.kinds[k], computed(aview.args[k], chunk@)[i]) == Some(
                            #[trigger] numbers@[k]@[i] as int,
                        ),
            decreases arg_columns@.len() - j,
        {
            match int_values(agg.kinds[j], &arg_columns[j]) {
                Some(v) => {
                    proof {
                        assert forall|i: int| 0 <= i < n implies arg_value(
                            aview.kinds[j as int],
                            #[trigger] run_row(aview.args[j as int], row_of(chunk@, i)).unwrap(),
                        ) is Some by {
                            assert(arg_columns@[j as int]@[i] == computed(aview.args[j as int], chunk@)[i]);
                        }
                    }
                    numbers.push(v);
                },
                None => {
                    proof {
                        let i = choose|i: int|
                            0 <= i < arg_columns@[j as int]@.len() && !(arg_value(
                                agg.kinds@[j as int],
                                #[trigger] arg_columns@[j as int]@[i],
                            ) is Some);
                        assert(arg_columns@[j as int]@[i] == computed(aview.args[j as int], chunk@)[i]);
                        assert(arg_value(
                            aview.kinds[j as int],
                            run_row(aview.args[j as int], row_of(chunk@, i)).unwrap(),
                        ) is None);
                        assert(!args_numeric(aview, chunk@));
                    }
                    return Err(String::from_str("PCode: runtime type error"));
                },
            }
            j += 1;
        }
        assert(args_numeric(aview, chunk@));
        if n as u64 > u64::MAX - self.rows_seen {
            return Err(String::from_str("Aggregation: too many rows"));
        }
        let ghost start = group_views(self.groups@);
        let mut i: usize = 0;
        while i < n
            invariant
                i <= n,
                n == chunk.spec_len(),
                chunk.wf(),
                aview == agg@,
                self.wf(agg.args@.len()),
                self.keyed(agg.keys@.len()),
                self.pop_key == old(self).pop_key,
                self.partition_id == old(self).partition_id,
                self.done == old(self).done,
                self.rows_seen == old(self).rows_seen + i,
                old(self).rows_seen + n <= u64::MAX,
                key_columns@.len() == agg.keys@.len(),
                forall|k: int|
                    0 <= k < key_columns@.len() ==> (#[trigger] key_columns@[k])@ == computed(aview.keys[k], chunk@),
                numbers@.len() == agg.args@.len(),
                forall|k: int|
                    0 <= k < numbers@.len() ==> (#[trigger] numbers@[k])@.len() == n && forall|i: int|
                        0 <= i < n ==> arg_value(aview.kinds[k], computed(aview.args[k], chunk@)[i]) == Some(
                            #[trigger] numbers@[k]@[i] as int,
                        ),
                group_views(self.groups@) == absorb_rows(start, aview, chunk@, i as nat),
            decreases n - i,
        {
            let mut key: Vec<Datum> = Vec::new();
            let mut k: usize = 0;
            while k < key_columns.len()
                invariant
                    k <= key_columns@.len(),
                    i < n,
                    n == chunk.spec_len(),
                    forall|c: int|
                        0 <= c < key_columns@.len() ==> (#[trigger] key_columns@[c])@ == computed(aview.keys[c], chunk@),
                    key@.len() == k,
                    forall|c: int| 0 <= c < k ==> (#[trigger] key@[c])@ == computed(aview.keys[c], chunk@)[i as int],
                decreases key_columns@.len() - k,
            {
                assert(key_columns@[k as int]@.len() == n);
                key.push(key_columns[k].get(i));
                k += 1;
            }
            let mut args: Vec<i64> = Vec::new();
            let mut j: usize = 0;
            while j < numbers.len()
                invariant
                    j <= numbers@.len(),
                    i < n,
                    forall|k: int| 0 <= k < numbers@.len() ==> (#[trigger] numbers@[k])@.len() == n,
                    args@.len() == j,
                    forall|c: int| 0 <= c < j ==> #[trigger] args@[c] == numbers@[c]@[i as int],
                decreases numbers@.len() - j,
            {
                assert(numbers@[j as int]@.len() == n);
                args.push(numbers[j][i]);
                j += 1;
            }
            proof {
                assert(datum_views(key@) =~= group_key(aview, row_of(chunk@, i as int)));
                assert(Seq::new(args@.len(), |j: int| args@[j] as int) =~= arg_row(aview, row_of(chunk@, i as int))) by {
                    assert forall|j: int| 0 <= j < args@.len() implies args@[j] as int == arg_row(
                        aview,
                        row_of(chunk@, i as int),
                    )[j] by {
                        assert(numbers@[j]@.len() == n);
                        assert(arg_value(aview.kinds[j], computed(aview.args[j], chunk@)[i as int]) == Some(
                            numbers@[j]@[i as int] as int,
                        ));
                    }
                }
            }
            self.absorb(key, &args);
            i += 1;
        }
        Ok(())
    }

    /// The result: one row per group, in the order in which the groups were
    /// met, with the values of the keys followed by the values of the
    /// aggregates. Fails when the groups disagree on the type of a key or an
    /// aggregate has no value that fits in 64 bits.
    pub fn finish(&self, agg: &Aggregation) -> (res: Result<Chunk, String>)
        requires
            self.wf(agg.kinds@.len()),
            self.keyed(agg.keys@.len()),
        ensures
            match res {
                Ok(chunk) => {
                    &&& result_fits(group_views(self.groups@), agg.keys@.len(), agg.kinds@)
                    &&& chunk.wf()
                    &&& chunk@ == result_columns(group_views(self.groups@), agg.keys@.len(), agg.kinds@)
                },
                Err(e) => !result_fits(group_views(self.groups@), agg.keys@.len(), agg.kinds@) && e@ == result_text(),
            },
    {
        let ghost groups = group_views(self.groups@);
        let ghost nkeys = agg.keys@.len();
        let ngroups = self.groups.len();
        let mut arrays: Vec<Column> = Vec::new();
        let mut k: usize = 0;
        while k < agg.keys.len()
            invariant
                k <= agg.keys@.len(),
                nkeys == agg.keys@.len(),
                ngroups == self.groups@.len(),
                groups == group_views(self.groups@),
                self.keyed(nkeys),
                arrays@.len() == k,
                forall|c: int| 0 <= c < k ==> (#[trigger] arrays@[c])@ == key_column(groups, c),
                forall|c: int|
                    0 <= c < k ==> groups.len() == 0 || crate::chunk::all_of_type(
                        #[trigger] key_column(groups, c),
                        groups[0].key[c].data_type(),
                    ),
            decreases agg.keys@.len() - k,
        {
            let mut values: Vec<Datum> = Vec::new();
            let mut g: usize = 0;
            while g < ngroups
                invariant
                    g <= ngroups,
                    k < nkeys,
                    ngroups == self.groups@.len(),
                    self.keyed(nkeys),
                    values@.len() == g,
                    forall|h: int| 0 <= h < g ==> (#[trigger] values@[h])@ == self.groups@[h].key@[k as int]@,
                decreases ngroups - g,
            {
                assert(self.groups@[g as int].key@.len() == nkeys);
                values.push(self.groups[g].key[k].clone());
                g += 1;
            }
            assert(datum_views(values@) =~= key_column(groups, k as int)) by {
                assert forall|h: int| 0 <= h < ngroups implies datum_views(values@)[h] == key_column(groups, k as int)[h] by {
                    assert(groups[h] == self.groups@[h]@);
                    assert(self.groups@[h].key@.len() == nkeys);
                }
            }
            match Column::from_datums(&values) {
                Some(col) => {
                    proof {
                        if groups.len() > 0 {
                            assert(groups[0] == self.groups@[0]@);
                            assert(self.groups@[0].key@.len() == nkeys);
                            assert(values@[0]@ == groups[0].key[k as int]);
                        }
                    }
                    arrays.push(col);
                },
                None => {
                    proof {
                        assert(groups[0] == self.groups@[0]@);
                        assert(self.groups@[0].key@.len() == nkeys);
                        assert(values@[0]@ == groups[0].key[k as int]);
                        assert(!crate::chunk::all_of_type(key_column(groups, k as int), groups[0].key[k as int].data_type()));
                    }
                    return Err(String::from_str("Aggregation: result out of range or keys of mixed types"));
                },
            }
            k += 1;
        }
        let mut j: usize = 0;
        while j < agg.kinds.len()
            invariant
                j <= agg.kinds@.len(),
                nkeys == agg.keys@.len(),
                ngroups == self.groups@.len(),
                groups == group_views(self.groups@),
                self.wf(agg.kinds@.len()),
                arrays@.len() == nkeys + j,
                forall|c: int| 0 <= c < nkeys ==> (#[trigger] arrays@[c])@ == key_column(groups, c),
                forall|c: int|
                    0 <= c < nkeys ==> groups.len() == 0 || crate::chunk::all_of_type(
                        #[trigger] key_column(groups, c),
                        groups[0].key[c].data_type(),
                    ),
                forall|c: int| 0 <= c < j ==> (#[trigger] arrays@[nkeys + c])@ == agg_column(groups, agg.kinds@[c], c),
                forall|c: int, g: int|
                    0 <= c < j && 0 <= g < groups.len() ==> (#[trigger] final_value(agg.kinds@[c], groups[g].accs[c])) is Some,
            decreases agg.kinds@.len() - j,
        {
            let mut values: Vec<i64> = Vec::new();
            let mut g: usize = 0;
            while g < ngroups
                invariant
                    g <= ngroups,
                    j < agg.kinds@.len(),
                    ngroups == self.groups@.len(),
                    groups == group_views(self.groups@),
                    self.wf(agg.kinds@.len()),
                    values@.len() == g,
                    forall|h: int|
                        0 <= h < g ==> final_value(agg.kinds@[j as int], groups[h].accs[j as int]) == Some(
                            #[trigger] values@[h],
                        ),
                decreases ngroups - g,
            {
                assert(self.groups@[g as int].accs@.len() == agg.kinds@.len());
                assert(self.groups@[g as int].accs@[j as int].wf());
                assert(groups[g as int] == self.groups@[g as int]@);
                match self.groups[g].accs[j].finalize(agg.kinds[j]) {
                    Some(v) => values.push(v),
                    None => {
                        assert(final_value(agg.kinds@[j as int], groups[g as int].accs[j as int]) is None);
                        return Err(String::from_str("Aggregation: result out of range or keys of mixed types"));
                    },
                }
                g += 1;
            }
            let col = Column::Int(values);
            assert(col@ =~= agg_column(groups, agg.kinds@[j as int], j as int));
            let ghost before = arrays@;
            arrays.push(col);
            proof {
                assert forall|c: int, g: int| 0 <= c < j + 1 && 0 <= g < groups.len() implies (#[trigger] final_value(
                    agg.kinds@[c],
                    groups[g].accs[c],
                )) is Some by {
                    if c == j {
                        assert(final_value(agg.kinds@[j as int], groups[g].accs[j as int]) == Some(values@[g]));
                    }
                }
                assert forall|c: int| 0 <= c < j + 1 implies (#[trigger] arrays@[nkeys + c])@ == agg_column(
                    groups,
                    agg.kinds@[c],
                    c,
                ) by {
                    if c < j {
                        assert(arrays@[nkeys + c] == before[nkeys + c]);
                    }
                }
                assert forall|c: int| 0 <= c < nkeys implies (#[trigger] arrays@[c])@ == key_column(groups, c) by {
                    assert(arrays@[c] == before[c]);
                }
            }
            j += 1;
        }
        let chunk = Chunk { arrays };
        proof {
            assert forall|c: int| 0 <= c < chunk@.len() implies chunk@[c] == result_columns(groups, nkeys, agg.kinds@)[c] by {
                if c >= nkeys {
                    let d = c - nkeys;
                    assert(arrays@[nkeys + d]@ == agg_column(groups, agg.kinds@[d], d));
                }
            }
            assert(chunk@ =~= result_columns(groups, nkeys, agg.kinds@));
            assert forall|c: int| 0 <= c < chunk@.len() implies (#[trigger] chunk@[c]).len() == rows_of(chunk@) by {
                assert(chunk@[c].len() == groups.len());
                assert(chunk@[0].len() == groups.len());
            }
        }
        Ok(chunk)
    }
}

impl AggregationContext {
    /// What the aggregation hands on when asked, once its input is at its
    /// end: the first time the result, one row per group; every time after
    /// that the chunk without rows, the end of its stream. A fault leaves
    /// the result to be asked for again.
    pub fn emit(&mut self, agg: &Aggregation) -> (res: Result<Chunk, String>)
        requires
            old(self).wf(agg.kinds@.len()),
            old(self).keyed(agg.keys@.len()),
        ensures
            final(self).pop_key == old(self).pop_key,
            final(self).partition_id == old(self).partition_id,
            final(self).groups == old(self).groups,
            final(self).rows_seen == old(self).rows_seen,
            match res {
                Ok(chunk) => {
                    &&& final(self).done
                    &&& chunk.wf()
                    &&& if old(self).done {
                        chunk@.len() == 0
                    } else {
                        result_fits(group_views(old(self).groups@), agg.keys@.len(), agg.kinds@) && chunk@
                            == result_columns(group_views(old(self).groups@), agg.keys@.len(), agg.kinds@)
                    }
                },
                Err(e) => {
                    &&& !old(self).done
                    &&& !final(self).done
                    &&& !result_fits(group_views(old(self).groups@), agg.keys@.len(), agg.kinds@)
                    &&& e@ == result_text()
                },
            },
    {
        if self.done {
            return Ok(Chunk::empty());
        }
        let chunk = self.finish(agg)?;
        self.done = true;
        Ok(chunk)
    }
}

} // verus!
