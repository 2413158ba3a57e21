//! The trigger subsystem: per-key occurrence counters and a pending set
//! that decide when an incrementally maintained group must be
//! (re-)materialized downstream. `keys_received` counts key occurrences
//! and queues a key each time its counter reaches the configured
//! threshold (resetting the counter); `poll` hands out every pending key
//! in ascending key order, as one column per key position, and empties
//! the pending set.

use vstd::prelude::*;

use crate::column::Column;
use crate::error::Error;
use crate::scalar::{
    key_less, key_lt, key_view, lemma_key_lt_trans, lemma_key_lt_trichotomy, DataType,
    GroupByScalar, GroupByScalarView,
};
use vstd::arithmetic::div_mod::{
    lemma_div_pos_is_pos,
    lemma_fundamental_div_mod,
    lemma_fundamental_div_mod_converse,
    lemma_mod_bound,
};
use vstd::pervasive::unreached;

verus! {

/// The abstract state of a counting trigger: the per-key counter (absent
/// means zero) and the queue of keys pending emission, each at most once.
#[verifier::ext_equal]
pub struct TriggerState {
    pub counts: Map<Seq<GroupByScalarView>, nat>,
    pub pending: Seq<Seq<GroupByScalarView>>,
}

/// The state of a freshly created trigger.
pub open spec fn empty_trigger_state() -> TriggerState {
    TriggerState { counts: Map::empty(), pending: Seq::empty() }
}

/// The counter of `k`: zero until `k` has been seen.
pub open spec fn count_of(s: TriggerState, k: Seq<GroupByScalarView>) -> nat {
    if s.counts.dom().contains(k) {
        s.counts[k]
    } else {
        0
    }
}

/// The position at which `k` belongs in the ascending pending queue: the
/// first index whose key is not below `k`.
pub open spec fn insertion_point(p: Seq<Seq<GroupByScalarView>>, k: Seq<GroupByScalarView>) -> int
    decreases p.len(),
{
    if p.len() == 0 {
        0
    } else if key_lt(p.first(), k) {
        1 + insertion_point(p.drop_first(), k)
    } else {
        0
    }
}

/// The queue holds its keys in strictly ascending key order.
pub open spec fn pending_sorted(p: Seq<Seq<GroupByScalarView>>) -> bool {
    forall|i: int, j: int| 0 <= i < j < p.len() ==> key_lt(#[trigger] p[i], #[trigger] p[j])
}

/// One key received: the counter steps up, and on reaching the threshold
/// `n` it resets to zero and the key joins the pending queue at its
/// ordered position, unless it is already there.
pub open spec fn recv_one(n: nat, s: TriggerState, k: Seq<GroupByScalarView>) -> TriggerState {
    let c = count_of(s, k) + 1;
    if c == n {
        TriggerState {
            counts: s.counts.insert(k, 0),
            pending: if s.pending.contains(k) {
                s.pending
            } else {
                s.pending.insert(insertion_point(s.pending, k), k)
            },
        }
    } else {
        TriggerState { counts: s.counts.insert(k, c), pending: s.pending }
    }
}

/// Where a key is inserted: after every smaller key, before the rest.
pub proof fn lemma_insertion_point_spec(p: Seq<Seq<GroupByScalarView>>, k: Seq<GroupByScalarView>)
    ensures
        0 <= insertion_point(p, k) <= p.len(),
        forall|i: int| 0 <= i < insertion_point(p, k) ==> key_lt(#[trigger] p[i], k),
        insertion_point(p, k) < p.len() ==> !key_lt(p[insertion_point(p, k)], k),
    decreases p.len(),
{
    if p.len() > 0 && key_lt(p.first(), k) {
        lemma_insertion_point_spec(p.drop_first(), k);
        assert forall|i: int| 0 <= i < insertion_point(p, k) implies key_lt(#[trigger] p[i], k) by {
            if i > 0 {
                assert(p[i] == p.drop_first()[i - 1]);
            }
        }
        if insertion_point(p, k) < p.len() {
            assert(p[insertion_point(p, k)] == p.drop_first()[insertion_point(p.drop_first(), k)]);
        }
    }
}

proof fn lemma_insertion_point_of(
    p: Seq<Seq<GroupByScalarView>>,
    k: Seq<GroupByScalarView>,
    pos: int,
)
    requires
        0 <= pos <= p.len(),
        forall|i: int| 0 <= i < pos ==> key_lt(#[trigger] p[i], k),
        pos < p.len() ==> !key_lt(p[pos], k),
    ensures
        insertion_point(p, k) == pos,
    decreases p.len(),
{
    if pos > 0 {
        assert(key_lt(p.first(), k));
        assert forall|i: int| 0 <= i < pos - 1 implies key_lt(#[trigger] p.drop_first()[i], k) by {
            assert(p.drop_first()[i] == p[i + 1]);
        }
        if pos - 1 < p.drop_first().len() {
            assert(p.drop_first()[pos - 1] == p[pos]);
        }
        lemma_insertion_point_of(p.drop_first(), k, pos - 1);
    } else {
        if p.len() > 0 {
            assert(!key_lt(p.first(), k));
        }
    }
}

proof fn lemma_seq_insert_contains<A>(s: Seq<A>, i: int, v: A, x: A)
    requires
        0 <= i <= s.len(),
    ensures
        s.insert(i, v).contains(x) == (s.contains(x) || v == x),
{
    s.insert_ensures(i, v);
    let q = s.insert(i, v);
    if q.contains(x) {
        let w = choose|w: int| 0 <= w < q.len() && q[w] == x;
        if w < i {
            assert(s[w] == x);
        } else if w == i {
        } else {
            assert(s[w - 1] == x);
        }
    }
    if s.contains(x) {
        let w = choose|w: int| 0 <= w < s.len() && s[w] == x;
        if w < i {
            assert(q[w] == x);
        } else {
            assert(q[w + 1] == x);
        }
    }
    if v == x {
        assert(q[i] == x);
    }
}

/// Ordered insertion of an absent key keeps the queue strictly ascending.
pub proof fn lemma_insert_pending_sorted(
    p: Seq<Seq<GroupByScalarView>>,
    k: Seq<GroupByScalarView>,
)
    requires
        pending_sorted(p),
        !p.contains(k),
    ensures
        pending_sorted(p.insert(insertion_point(p, k), k)),
{
    let ip = insertion_point(p, k);
    lemma_insertion_point_spec(p, k);
    p.insert_ensures(ip, k);
    let q = p.insert(ip, k);
    if ip < p.len() {
        assert(p[ip] != k);
        lemma_key_lt_trichotomy(p[ip], k);
        assert(key_lt(k, p[ip]));
    }
    assert forall|i: int, j: int| 0 <= i < j < q.len() implies key_lt(
        #[trigger] q[i],
        #[trigger] q[j],
    ) by {
        if j < ip {
        } else if i < ip && j == ip {
            assert(q[i] == p[i]);
        } else if i < ip && j > ip {
            assert(q[i] == p[i]);
            assert(q[j] == p[j - 1]);
        } else if i == ip {
            assert(q[j] == p[j - 1]);
            if j - 1 > ip {
                lemma_key_lt_trans(k, p[ip], p[j - 1]);
            }
        } else {
            assert(q[i] == p[i - 1]);
            assert(q[j] == p[j - 1]);
        }
    }
}

/// A row of keys received, first to last.
pub open spec fn recv_keys(n: nat, s: TriggerState, ks: Seq<Seq<GroupByScalarView>>) -> TriggerState
    decreases ks.len(),
{
    if ks.len() == 0 {
        s
    } else {
        recv_one(n, recv_keys(n, s, ks.drop_last()), ks.last())
    }
}

/// What `poll` leaves behind: the counters, with nothing pending.
pub open spec fn after_poll(s: TriggerState) -> TriggerState {
    TriggerState { counts: s.counts, pending: Seq::empty() }
}

proof fn lemma_recv_keys_step(
    n: nat,
    s: TriggerState,
    ks: Seq<Seq<GroupByScalarView>>,
    r: int,
)
    requires
        0 <= r < ks.len(),
    ensures
        recv_keys(n, s, ks.take(r + 1)) == recv_one(n, recv_keys(n, s, ks.take(r)), ks[r]),
{
    assert(ks.take(r + 1).drop_last() =~= ks.take(r));
    assert(ks.take(r + 1).last() == ks[r]);
}

// ---------------------------------------------------------------------
// The trigger's history model: what any interleaving of receptions and
// polls does, and the laws that hold of it.
// ---------------------------------------------------------------------

/// One event in a trigger's life.
pub enum TrigEvent {
    Key(Seq<GroupByScalarView>),
    Poll,
}

/// One event applied to a state.
pub open spec fn trig_step(n: nat, s: TriggerState, e: TrigEvent) -> TriggerState {
    match e {
        TrigEvent::Key(k) => recv_one(n, s, k),
        TrigEvent::Poll => after_poll(s),
    }
}

/// The state after a whole history, starting from a fresh trigger.
pub open spec fn state_after(n: nat, evs: Seq<TrigEvent>) -> TriggerState
    decreases evs.len(),
{
    if evs.len() == 0 {
        empty_trigger_state()
    } else {
        trig_step(n, state_after(n, evs.drop_last()), evs.last())
    }
}

/// How often `k` was received over the history.
pub open spec fn occurrences(evs: Seq<TrigEvent>, k: Seq<GroupByScalarView>) -> nat
    decreases evs.len(),
{
    if evs.len() == 0 {
        0
    } else {
        occurrences(evs.drop_last(), k) + if evs.last() == TrigEvent::Key(k) {
            1nat
        } else {
            0nat
        }
    }
}

/// How often `k` appeared in poll outputs over the history: a poll emits
/// exactly the keys pending when it runs.
pub open spec fn emitted(n: nat, evs: Seq<TrigEvent>, k: Seq<GroupByScalarView>) -> nat
    decreases evs.len(),
{
    if evs.len() == 0 {
        0
    } else {
        emitted(n, evs.drop_last(), k) + if evs.last() == TrigEvent::Poll && state_after(
            n,
            evs.drop_last(),
        ).pending.contains(k) {
            1nat
        } else {
            0nat
        }
    }
}

/// No threshold crossing of the history hits a key that is already
/// pending. A crossing of a pending key is absorbed by the queue — the
/// pending set holds a key at most once — so only drop-free histories
/// report every crossing.
pub open spec fn drop_free(n: nat, evs: Seq<TrigEvent>) -> bool
    decreases evs.len(),
{
    if evs.len() == 0 {
        true
    } else {
        drop_free(n, evs.drop_last()) && match evs.last() {
            TrigEvent::Key(k) => !(count_of(state_after(n, evs.drop_last()), k) + 1 == n
                && state_after(n, evs.drop_last()).pending.contains(k)),
            TrigEvent::Poll => true,
        }
    }
}

/// A key's counter always equals its occurrence count modulo the
/// threshold: each crossing resets it, so it carries the remainder.
pub proof fn lemma_counter_is_remainder(n: nat, evs: Seq<TrigEvent>, k: Seq<GroupByScalarView>)
    requires
        n >= 1,
    ensures
        count_of(state_after(n, evs), k) == occurrences(evs, k) % n,
    decreases evs.len(),
{
    if evs.len() == 0 {
        assert((0int) % (n as int) == 0) by (nonlinear_arith)
            requires
                n as int >= 1,
        ;
    } else {
        let prev = evs.drop_last();
        lemma_counter_is_remainder(n, prev, k);
        let sp = state_after(n, prev);
        let occ = occurrences(prev, k);
        lemma_fundamental_div_mod(occ as int, n as int);
        lemma_mod_bound(occ as int, n as int);
        match evs.last() {
            TrigEvent::Poll => {
                assert(count_of(state_after(n, evs), k) == count_of(sp, k));
                assert(occurrences(evs, k) == occ);
            },
            TrigEvent::Key(j) => {
                if j == k {
                    let c = count_of(sp, k);
                    if c + 1 == n {
                        assert((occ as int / n as int + 1) * n as int == n as int * (occ as int
                            / n as int) + n as int) by (nonlinear_arith);
                        lemma_fundamental_div_mod_converse(
                            occ as int + 1,
                            n as int,
                            occ as int / n as int + 1,
                            0,
                        );
                    } else {
                        assert((occ as int / n as int) * n as int == n as int * (occ as int
                            / n as int)) by (nonlinear_arith);
                        lemma_fundamental_div_mod_converse(
                            occ as int + 1,
                            n as int,
                            occ as int / n as int,
                            c as int + 1,
                        );
                    }
                }
            },
        }
    }
}

/// A pending key has crossed the threshold: nothing enters the queue
/// before it has been received at least `n` times — `poll` never returns
/// a key whose counter has not reached the threshold since its previous
/// reset.
pub proof fn lemma_pending_has_crossed(n: nat, evs: Seq<TrigEvent>, k: Seq<GroupByScalarView>)
    requires
        n >= 1,
    ensures
        state_after(n, evs).pending.contains(k) ==> occurrences(evs, k) >= n,
    decreases evs.len(),
{
    if evs.len() == 0 {
    } else {
        let prev = evs.drop_last();
        lemma_pending_has_crossed(n, prev, k);
        let sp = state_after(n, prev);
        match evs.last() {
            TrigEvent::Poll => {},
            TrigEvent::Key(j) => {
                let c = count_of(sp, j);
                if c + 1 == n && !sp.pending.contains(j) {
                    lemma_insertion_point_spec(sp.pending, j);
                    lemma_seq_insert_contains(
                        sp.pending,
                        insertion_point(sp.pending, j),
                        j,
                        k,
                    );
                    if j == k {
                        lemma_counter_is_remainder(n, prev, k);
                        let occ = occurrences(prev, k);
                        lemma_fundamental_div_mod(occ as int, n as int);
                        lemma_div_pos_is_pos(occ as int, n as int);
                        assert(n as int * (occ as int / n as int) >= 0) by (nonlinear_arith)
                            requires
                                n as int >= 1,
                                occ as int / n as int >= 0,
                        ;
                    }
                }
            },
        }
    }
}

/// Conservation of crossings over a drop-free history: per key, the
/// number of poll outputs so far, plus one if the key is pending now,
/// equals the number of complete threshold crossings — the occurrence
/// count divided by the threshold, the remainder sitting in the counter.
pub proof fn lemma_emission_conservation(n: nat, evs: Seq<TrigEvent>, k: Seq<GroupByScalarView>)
    requires
        n >= 1,
        drop_free(n, evs),
    ensures
        emitted(n, evs, k) + (if state_after(n, evs).pending.contains(k) {
            1nat
        } else {
            0nat
        }) == occurrences(evs, k) / n,
        count_of(state_after(n, evs), k) == occurrences(evs, k) % n,
    decreases evs.len(),
{
    lemma_counter_is_remainder(n, evs, k);
    if evs.len() == 0 {
    } else {
        let prev = evs.drop_last();
        lemma_emission_conservation(n, prev, k);
        let sp = state_after(n, prev);
        let occ = occurrences(prev, k);
        lemma_fundamental_div_mod(occ as int, n as int);
        match evs.last() {
            TrigEvent::Poll => {},
            TrigEvent::Key(j) => {
                if j == k {
                    let c = count_of(sp, k);
                    if c + 1 == n {
                        assert((occ as int / n as int + 1) * n as int == n as int * (occ as int
                            / n as int) + n as int) by (nonlinear_arith);
                        lemma_fundamental_div_mod_converse(
                            occ as int + 1,
                            n as int,
                            occ as int / n as int + 1,
                            0,
                        );
                        lemma_insertion_point_spec(sp.pending, k);
                        lemma_seq_insert_contains(
                            sp.pending,
                            insertion_point(sp.pending, k),
                            k,
                            k,
                        );
                    } else {
                        assert((occ as int / n as int) * n as int == n as int * (occ as int
                            / n as int)) by (nonlinear_arith);
                        lemma_fundamental_div_mod_converse(
                            occ as int + 1,
                            n as int,
                            occ as int / n as int,
                            c as int + 1,
                        );
                    }
                } else {
                    let cj = count_of(sp, j);
                    if cj + 1 == n && !sp.pending.contains(j) {
                        lemma_insertion_point_spec(sp.pending, j);
                        lemma_seq_insert_contains(
                            sp.pending,
                            insertion_point(sp.pending, j),
                            j,
                            k,
                        );
                    }
                }
            },
        }
    }
}

/// Over any history at all — crossings of already-pending keys may be
/// absorbed — the number of poll outputs so far, plus one if the key is
/// pending now, never exceeds the number of complete threshold
/// crossings.
pub proof fn lemma_no_spurious_emissions(n: nat, evs: Seq<TrigEvent>, k: Seq<GroupByScalarView>)
    requires
        n >= 1,
    ensures
        emitted(n, evs, k) + (if state_after(n, evs).pending.contains(k) {
            1nat
        } else {
            0nat
        }) <= occurrences(evs, k) / n,
    decreases evs.len(),
{
    lemma_counter_is_remainder(n, evs, k);
    if evs.len() == 0 {
    } else {
        let prev = evs.drop_last();
        lemma_no_spurious_emissions(n, prev, k);
        lemma_counter_is_remainder(n, prev, k);
        let sp = state_after(n, prev);
        let occ = occurrences(prev, k);
        lemma_fundamental_div_mod(occ as int, n as int);
        match evs.last() {
            TrigEvent::Poll => {},
            TrigEvent::Key(j) => {
                if j == k {
                    let c = count_of(sp, k);
                    if c + 1 == n {
                        assert((occ as int / n as int + 1) * n as int == n as int * (occ as int
                            / n as int) + n as int) by (nonlinear_arith);
                        lemma_fundamental_div_mod_converse(
                            occ as int + 1,
                            n as int,
                            occ as int / n as int + 1,
                            0,
                        );
                        if !sp.pending.contains(k) {
                            lemma_insertion_point_spec(sp.pending, k);
                        lemma_seq_insert_contains(
                            sp.pending,
                            insertion_point(sp.pending, k),
                            k,
                            k,
                        );
                        }
                    } else {
                        assert((occ as int / n as int) * n as int == n as int * (occ as int
                            / n as int)) by (nonlinear_arith);
                        lemma_fundamental_div_mod_converse(
                            occ as int + 1,
                            n as int,
                            occ as int / n as int,
                            c as int + 1,
                        );
                    }
                } else {
                    let cj = count_of(sp, j);
                    if cj + 1 == n && !sp.pending.contains(j) {
                        lemma_insertion_point_spec(sp.pending, j);
                        lemma_seq_insert_contains(
                            sp.pending,
                            insertion_point(sp.pending, j),
                            j,
                            k,
                        );
                    }
                }
            },
        }
    }
}

/// A poll right after a poll emits nothing: the first one empties the
/// pending queue, so the second finds it empty.
pub proof fn lemma_second_poll_empty(n: nat, evs: Seq<TrigEvent>, k: Seq<GroupByScalarView>)
    ensures
        state_after(n, evs.push(TrigEvent::Poll)).pending == Seq::<Seq<GroupByScalarView>>::empty(),
        emitted(n, evs.push(TrigEvent::Poll).push(TrigEvent::Poll), k) == emitted(
            n,
            evs.push(TrigEvent::Poll),
            k,
        ),
{
    let one = evs.push(TrigEvent::Poll);
    let two = one.push(TrigEvent::Poll);
    assert(one.drop_last() =~= evs);
    assert(two.drop_last() =~= one);
}

// ---------------------------------------------------------------------
// The executable trigger.
// ---------------------------------------------------------------------

/// The key types a counting trigger can materialize in `poll`.
pub open spec fn supported_key_type(dt: DataType) -> bool {
    dt == DataType::Int64 || dt == DataType::Utf8
}

/// Whether a key component value is of the declared column type.
pub open spec fn gkv_matches(v: GroupByScalarView, dt: DataType) -> bool {
    match dt {
        DataType::Null => false,
        DataType::Boolean => v is Boolean,
        DataType::Float32 => v is Float32Bits,
        DataType::Float64 => v is Float64Bits,
        DataType::Int8 => v is Int8,
        DataType::Int16 => v is Int16,
        DataType::Int32 => v is Int32,
        DataType::Int64 => v is Int64,
        DataType::UInt8 => v is UInt8,
        DataType::UInt16 => v is UInt16,
        DataType::UInt32 => v is UInt32,
        DataType::UInt64 => v is UInt64,
        DataType::Utf8 => v is Utf8,
    }
}

/// Every row of a column is a value of the column's declared type.
pub proof fn lemma_column_value_kinds(c: Column)
    ensures
        forall|r: int| 0 <= r < c@.vals.len() ==> gkv_matches(#[trigger] c@.vals[r], c@.dt),
{
}

/// The counter map an association vector denotes: later entries win, but
/// under key uniqueness each key denotes its single entry.
pub open spec fn counts_map(keys: Seq<Vec<GroupByScalar>>, vals: Seq<u64>) -> Map<
    Seq<GroupByScalarView>,
    nat,
>
    decreases keys.len(),
{
    if keys.len() == 0 || vals.len() == 0 {
        Map::empty()
    } else {
        counts_map(keys.drop_last(), vals.drop_last()).insert(
            key_view(keys.last()@),
            vals.last() as nat,
        )
    }
}

/// The pending queue a key vector denotes.
pub open spec fn pending_view(keys: Seq<Vec<GroupByScalar>>) -> Seq<Seq<GroupByScalarView>> {
    keys.map_values(|k: Vec<GroupByScalar>| key_view(k@))
}

/// No two entries denote the same key.
pub open spec fn unique_keys(keys: Seq<Vec<GroupByScalar>>) -> bool {
    forall|i: int, j: int|
        0 <= i < j < keys.len() ==> key_view(#[trigger] keys[i]@) != key_view(#[trigger] keys[j]@)
}

proof fn lemma_counts_map_index(keys: Seq<Vec<GroupByScalar>>, vals: Seq<u64>, i: int)
    requires
        keys.len() == vals.len(),
        unique_keys(keys),
        0 <= i < keys.len(),
    ensures
        counts_map(keys, vals).dom().contains(key_view(keys[i]@)),
        counts_map(keys, vals)[key_view(keys[i]@)] == vals[i] as nat,
    decreases keys.len(),
{
    if i < keys.len() - 1 {
        lemma_counts_map_index(keys.drop_last(), vals.drop_last(), i);
    }
}

proof fn lemma_counts_map_absent(
    keys: Seq<Vec<GroupByScalar>>,
    vals: Seq<u64>,
    k: Seq<GroupByScalarView>,
)
    requires
        keys.len() == vals.len(),
        forall|i: int| 0 <= i < keys.len() ==> key_view(#[trigger] keys[i]@) != k,
    ensures
        !counts_map(keys, vals).dom().contains(k),
    decreases keys.len(),
{
    if keys.len() > 0 {
        lemma_counts_map_absent(keys.drop_last(), vals.drop_last(), k);
    }
}

proof fn lemma_counts_map_update(keys: Seq<Vec<GroupByScalar>>, vals: Seq<u64>, i: int, c: u64)
    requires
        keys.len() == vals.len(),
        unique_keys(keys),
        0 <= i < keys.len(),
    ensures
        counts_map(keys, vals.update(i, c)) == counts_map(keys, vals).insert(
            key_view(keys[i]@),
            c as nat,
        ),
    decreases keys.len(),
{
    let kv = key_view(keys[i]@);
    if i == keys.len() - 1 {
        assert(vals.update(i, c).drop_last() =~= vals.drop_last());
        assert(counts_map(keys, vals.update(i, c)) =~= counts_map(keys, vals).insert(
            kv,
            c as nat,
        ));
    } else {
        lemma_counts_map_update(keys.drop_last(), vals.drop_last(), i, c);
        assert(vals.update(i, c).drop_last() =~= vals.drop_last().update(i, c));
        assert(counts_map(keys, vals.update(i, c)) =~= counts_map(keys, vals).insert(
            kv,
            c as nat,
        ));
    }
}

/// A value-faithful copy of one key component.
fn copy_group(g: &GroupByScalar) -> (r: GroupByScalar)
    ensures
        r == *g,
{
    match g {
        GroupByScalar::Boolean(x) => GroupByScalar::Boolean(*x),
        GroupByScalar::Float32Bits(x) => GroupByScalar::Float32Bits(*x),
        GroupByScalar::Float64Bits(x) => GroupByScalar::Float64Bits(*x),
        GroupByScalar::Int8(x) => GroupByScalar::Int8(*x),
        GroupByScalar::Int16(x) => GroupByScalar::Int16(*x),
        GroupByScalar::Int32(x) => GroupByScalar::Int32(*x),
        GroupByScalar::Int64(x) => GroupByScalar::Int64(*x),
        GroupByScalar::UInt8(x) => GroupByScalar::UInt8(*x),
        GroupByScalar::UInt16(x) => GroupByScalar::UInt16(*x),
        GroupByScalar::UInt32(x) => GroupByScalar::UInt32(*x),
        GroupByScalar::UInt64(x) => GroupByScalar::UInt64(*x),
        GroupByScalar::Utf8(x) => GroupByScalar::Utf8(x.clone()),
    }
}

/// A value-faithful copy of a composite key.
fn copy_key(k: &Vec<GroupByScalar>) -> (r: Vec<GroupByScalar>)
    ensures
        r@ == k@,
{
    let mut out: Vec<GroupByScalar> = Vec::new();
    let mut i: usize = 0;
    while i < k.len()
        invariant
            i <= k@.len(),
            out@.len() == i,
            forall|j: int| 0 <= j < i ==> out@[j] == k@[j],
        decreases k@.len() - i,
    {
        out.push(copy_group(&k[i]));
        i += 1;
    }
    proof {
        assert(out@ =~= k@);
    }
    out
}

fn find_key(keys: &Vec<Vec<GroupByScalar>>, k: &Vec<GroupByScalar>) -> (r: Option<usize>)
    ensures
        match r {
            Some(i) => i < keys@.len() && key_view(keys@[i as int]@) == key_view(k@),
            None => forall|i: int|
                0 <= i < keys@.len() ==> key_view(#[trigger] keys@[i]@) != key_view(k@),
        },
{
    let mut i: usize = 0;
    while i < keys.len()
        invariant
            i <= keys@.len(),
            forall|j: int| 0 <= j < i ==> key_view(#[trigger] keys@[j]@) != key_view(k@),
        decreases keys@.len() - i,
    {
        if crate::scalar::key_eq(&keys[i], k) {
            return Some(i);
        }
        i += 1;
    }
    None
}

fn pending_contains(keys: &Vec<Vec<GroupByScalar>>, k: &Vec<GroupByScalar>) -> (r: bool)
    ensures
        r == pending_view(keys@).contains(key_view(k@)),
{
    match find_key(keys, k) {
        Some(i) => {
            proof {
                assert(pending_view(keys@)[i as int] == key_view(k@));
            }
            true
        },
        None => {
            proof {
                if pending_view(keys@).contains(key_view(k@)) {
                    let i = choose|i: int|
                        0 <= i < pending_view(keys@).len() && pending_view(keys@)[i] == key_view(
                            k@,
                        );
                    assert(key_view(keys@[i]@) == key_view(k@));
                }
            }
            false
        },
    }
}

/// A factory for triggers: the emission policy, configured once, that
/// manufactures a trigger instance per aggregation operator, bound to
/// that operator's key shape.
pub enum TriggerPrototype {
    Counting(CountingTriggerPrototype),
}

impl TriggerPrototype {
    /// The threshold the manufactured triggers will use.
    pub open spec fn spec_trigger_count(&self) -> u64 {
        match self {
            TriggerPrototype::Counting(p) => p.trigger_count,
        }
    }

    /// Manufacture a trigger bound to the given ordered key types; key
    /// types the trigger cannot materialize are rejected here, at
    /// configuration time.
    pub fn create_trigger(&self, key_data_types: Vec<DataType>) -> (r: Result<Trigger, Error>)
        requires
            self.spec_trigger_count() >= 1,
        ensures
            match r {
                Ok(t) => {
                    &&& t.wf()
                    &&& t@ == empty_trigger_state()
                    &&& t.spec_key_data_types() == key_data_types@
                    &&& t.spec_trigger_count() == self.spec_trigger_count()
                    &&& forall|i: int|
                        0 <= i < key_data_types@.len() ==> supported_key_type(
                            #[trigger] key_data_types@[i],
                        )
                },
                Err(e) => (exists|i: int|
                    0 <= i < key_data_types@.len() && !supported_key_type(
                        #[trigger] key_data_types@[i],
                    )) && e == Error::Unexpected,
            },
    {
        match self {
            TriggerPrototype::Counting(p) => match CountingTrigger::new(
                key_data_types,
                p.trigger_count,
            ) {
                Ok(t) => Ok(Trigger::Counting(t)),
                Err(e) => Err(e),
            },
        }
    }
}

/// The counting policy: emit a key after every `trigger_count`
/// occurrences.
#[derive(Debug)]
pub struct CountingTriggerPrototype {
    pub trigger_count: u64,
}

impl CountingTriggerPrototype {
    pub fn new(trigger_count: u64) -> (r: CountingTriggerPrototype)
        requires
            trigger_count >= 1,
        ensures
            r.trigger_count == trigger_count,
    {
        CountingTriggerPrototype { trigger_count }
    }
}

/// A trigger: the state machine deciding which groups must be
/// re-materialized, behind the two-operation interface every policy
/// implements.
pub enum Trigger {
    Counting(CountingTrigger),
}

impl View for Trigger {
    type V = TriggerState;

    open spec fn view(&self) -> TriggerState {
        match self {
            Trigger::Counting(t) => t@,
        }
    }
}

impl Trigger {
    pub open spec fn wf(&self) -> bool {
        match self {
            Trigger::Counting(t) => t.wf(),
        }
    }

    pub open spec fn spec_key_data_types(&self) -> Seq<DataType> {
        match self {
            Trigger::Counting(t) => t.spec_key_data_types(),
        }
    }

    pub open spec fn spec_trigger_count(&self) -> u64 {
        match self {
            Trigger::Counting(t) => t.spec_trigger_count(),
        }
    }

    /// Count one occurrence of every row's key; see
    /// `CountingTrigger::keys_received`.
    pub fn keys_received(&mut self, keys: &Vec<Column>)
        requires
            old(self).wf(),
            keys@.len() == old(self).spec_key_data_types().len(),
            keys@.len() >= 1,
            forall|i: int| 0 <= i < keys@.len() ==> (#[trigger] keys@[i]@).vals.len()
                == keys@[0]@.vals.len(),
            forall|i: int| 0 <= i < keys@.len() ==> (#[trigger] keys@[i]@).dt
                == old(self).spec_key_data_types()[i],
        ensures
            final(self).wf(),
            final(self).spec_key_data_types() == old(self).spec_key_data_types(),
            final(self).spec_trigger_count() == old(self).spec_trigger_count(),
            final(self)@ == recv_keys(
                old(self).spec_trigger_count() as nat,
                old(self)@,
                rows_of(keys@.map_values(|c: Column| c@)),
            ),
    {
        match self {
            Trigger::Counting(t) => t.keys_received(keys),
        }
    }

    /// Emit and clear the pending keys; see `CountingTrigger::poll`.
    pub fn poll(&mut self) -> (out: Vec<Column>)
        requires
            old(self).wf(),
        ensures
            final(self).wf(),
            final(self).spec_key_data_types() == old(self).spec_key_data_types(),
            final(self).spec_trigger_count() == old(self).spec_trigger_count(),
            final(self)@ == after_poll(old(self)@),
            pending_sorted(old(self)@.pending),
            out@.len() == old(self).spec_key_data_types().len(),
            forall|p: int| 0 <= p < out@.len() ==> (#[trigger] out@[p]@).dt
                == old(self).spec_key_data_types()[p],
            forall|p: int| 0 <= p < out@.len() ==> (#[trigger] out@[p]@).vals == Seq::new(
                old(self)@.pending.len(),
                |r: int| old(self)@.pending[r][p],
            ),
    {
        match self {
            Trigger::Counting(t) => t.poll(),
        }
    }
}

/// The key vectors of the rows of a set of key columns.
pub open spec fn rows_of(cols: Seq<crate::column::ColumnView>) -> Seq<Seq<GroupByScalarView>> {
    let rows = if cols.len() == 0 {
        0
    } else {
        cols[0].vals.len()
    };
    Seq::new(rows, |r: int| Seq::new(cols.len(), |i: int| cols[i].vals[r]))
}

/// The counting trigger: a persistent per-key counter and the pending
/// queue, held in ascending key order, keyed by the declared ordered key
/// types.
#[derive(Debug)]
pub struct CountingTrigger {
    key_data_types: Vec<DataType>,
    trigger_count: u64,
    count_keys: Vec<Vec<GroupByScalar>>,
    count_vals: Vec<u64>,
    to_trigger: Vec<Vec<GroupByScalar>>,
}

impl View for CountingTrigger {
    type V = TriggerState;

    closed spec fn view(&self) -> TriggerState {
        TriggerState {
            counts: counts_map(self.count_keys@, self.count_vals@),
            pending: pending_view(self.to_trigger@),
        }
    }
}

impl CountingTrigger {
    pub closed spec fn spec_key_data_types(&self) -> Seq<DataType> {
        self.key_data_types@
    }

    pub closed spec fn spec_trigger_count(&self) -> u64 {
        self.trigger_count
    }

    /// The internal invariant: a positive threshold, supported key
    /// types, counters below the threshold under unique keys, and a
    /// duplicate-free pending queue whose keys fit the declared shape.
    pub closed spec fn wf(&self) -> bool {
        &&& self.trigger_count >= 1
        &&& forall|i: int| 0 <= i < self.key_data_types@.len() ==> supported_key_type(
            #[trigger] self.key_data_types@[i],
        )
        &&& self.count_keys@.len() == self.count_vals@.len()
        &&& unique_keys(self.count_keys@)
        &&& forall|i: int| 0 <= i < self.count_vals@.len() ==> (#[trigger] self.count_vals@[i])
            < self.trigger_count
        &&& pending_sorted(pending_view(self.to_trigger@))
        &&& forall|i: int| 0 <= i < self.to_trigger@.len() ==> (#[trigger] self.to_trigger@[i]@).len()
            == self.key_data_types@.len()
        &&& forall|i: int, p: int|
            0 <= i < self.to_trigger@.len() && 0 <= p < self.key_data_types@.len()
                ==> gkv_matches(
                (#[trigger] self.to_trigger@[i]@[p])@,
                self.key_data_types@[p],
            )
    }

    /// A trigger bound to the given ordered key types, counting towards
    /// `trigger_count`. Key types `poll` cannot materialize are rejected
    /// here rather than silently coerced later.
    pub fn new(key_data_types: Vec<DataType>, trigger_count: u64) -> (r: Result<
        CountingTrigger,
        Error,
    >)
        requires
            trigger_count >= 1,
        ensures
            match r {
                Ok(t) => {
                    &&& t.wf()
                    &&& t@ == empty_trigger_state()
                    &&& t.spec_key_data_types() == key_data_types@
                    &&& t.spec_trigger_count() == trigger_count
                    &&& forall|i: int|
                        0 <= i < key_data_types@.len() ==> supported_key_type(
                            #[trigger] key_data_types@[i],
                        )
                },
                Err(e) => (exists|i: int|
                    0 <= i < key_data_types@.len() && !supported_key_type(
                        #[trigger] key_data_types@[i],
                    )) && e == Error::Unexpected,
            },
    {
        let mut i: usize = 0;
        while i < key_data_types.len()
            invariant
                i <= key_data_types@.len(),
                forall|j: int| 0 <= j < i ==> supported_key_type(#[trigger] key_data_types@[j]),
            decreases key_data_types@.len() - i,
        {
            let supported = match key_data_types[i] {
                DataType::Int64 => true,
                DataType::Utf8 => true,
                _ => false,
            };
            if !supported {
                return Err(Error::Unexpected);
            }
            i += 1;
        }
        Ok(
            CountingTrigger {
                key_data_types,
                trigger_count,
                count_keys: Vec::new(),
                count_vals: Vec::new(),
                to_trigger: Vec::new(),
            },
        )
    }

    /// For each input row, extract its key vector, step its persistent
    /// counter, and on reaching the threshold reset the counter and
    /// queue the key (once) for the next poll. The columns must fit the
    /// declared key shape, one equal-length column per key position.
    pub fn keys_received(&mut self, keys: &Vec<Column>)
        requires
            old(self).wf(),
            keys@.len() == old(self).spec_key_data_types().len(),
            keys@.len() >= 1,
            forall|i: int| 0 <= i < keys@.len() ==> (#[trigger] keys@[i]@).vals.len()
                == keys@[0]@.vals.len(),
            forall|i: int| 0 <= i < keys@.len() ==> (#[trigger] keys@[i]@).dt
                == old(self).spec_key_data_types()[i],
        ensures
            final(self).wf(),
            final(self).spec_key_data_types() == old(self).spec_key_data_types(),
            final(self).spec_trigger_count() == old(self).spec_trigger_count(),
            final(self)@ == recv_keys(
                old(self).spec_trigger_count() as nat,
                old(self)@,
                rows_of(keys@.map_values(|c: Column| c@)),
            ),
    {
        let ghost cols = keys@.map_values(|c: Column| c@);
        let ghost all_rows = rows_of(cols);
        let ghost n = old(self).trigger_count as nat;
        let num_rows = keys[0].len();
        let mut key_vec: Vec<GroupByScalar> = Vec::new();
        let mut i: usize = 0;
        while i < keys.len()
            invariant
                i <= keys@.len(),
                key_vec@.len() == i,
            decreases keys@.len() - i,
        {
            key_vec.push(GroupByScalar::Int64(0));
            i += 1;
        }
        let mut row: usize = 0;
        while row < num_rows
            invariant
                row <= num_rows,
                self.wf(),
                self.key_data_types@ == old(self).key_data_types@,
                self.trigger_count == old(self).trigger_count,
                n == self.trigger_count as nat,
                key_vec@.len() == keys@.len(),
                keys@.len() == self.key_data_types@.len(),
                keys@.len() >= 1,
                cols == keys@.map_values(|c: Column| c@),
                all_rows == rows_of(cols),
                num_rows == all_rows.len(),
                forall|j: int| 0 <= j < keys@.len() ==> (#[trigger] keys@[j]@).vals.len()
                    == num_rows,
                forall|j: int| 0 <= j < keys@.len() ==> (#[trigger] keys@[j]@).dt
                    == self.key_data_types@[j],
                self@ == recv_keys(n, old(self)@, all_rows.take(row as int)),
            decreases num_rows - row,
        {
            crate::column::create_key(keys, row, &mut key_vec);
            let ghost krow = key_view(key_vec@);
            proof {
                assert(krow =~= all_rows[row as int]);
                assert forall|pp: int| 0 <= pp < key_vec@.len() implies gkv_matches(
                    (#[trigger] key_vec@[pp])@,
                    self.key_data_types@[pp],
                ) by {
                    lemma_column_value_kinds(keys@[pp]);
                    assert(cols[pp] == keys@[pp]@);
                    assert(key_vec@[pp]@ == cols[pp].vals[row as int]);
                }
            }
            self.receive_one(&key_vec);
            proof {
                lemma_recv_keys_step(n, old(self)@, all_rows, row as int);
            }
            row += 1;
        }
        proof {
            assert(all_rows.take(num_rows as int) =~= all_rows);
        }
    }

    /// Queue a key for the next poll, at its ordered position, unless it
    /// is already pending; the counters are untouched.
    fn enqueue(&mut self, key_vec: &Vec<GroupByScalar>)
        requires
            pending_sorted(pending_view(old(self).to_trigger@)),
            forall|i: int|
                0 <= i < old(self).to_trigger@.len() ==> (#[trigger] old(self).to_trigger@[i]@).len()
                    == old(self).key_data_types@.len(),
            forall|i: int, p: int|
                0 <= i < old(self).to_trigger@.len() && 0 <= p < old(self).key_data_types@.len()
                    ==> gkv_matches(
                    (#[trigger] old(self).to_trigger@[i]@[p])@,
                    old(self).key_data_types@[p],
                ),
            key_vec@.len() == old(self).key_data_types@.len(),
            forall|p: int| 0 <= p < key_vec@.len() ==> gkv_matches(
                (#[trigger] key_vec@[p])@,
                old(self).key_data_types@[p],
            ),
        ensures
            final(self).key_data_types == old(self).key_data_types,
            final(self).trigger_count == old(self).trigger_count,
            final(self).count_keys == old(self).count_keys,
            final(self).count_vals == old(self).count_vals,
            pending_sorted(pending_view(final(self).to_trigger@)),
            forall|i: int|
                0 <= i < final(self).to_trigger@.len()
                    ==> (#[trigger] final(self).to_trigger@[i]@).len()
                    == old(self).key_data_types@.len(),
            forall|i: int, p: int|
                0 <= i < final(self).to_trigger@.len() && 0 <= p < old(self).key_data_types@.len()
                    ==> gkv_matches(
                    (#[trigger] final(self).to_trigger@[i]@[p])@,
                    old(self).key_data_types@[p],
                ),
            pending_view(final(self).to_trigger@) == ({
                let p = pending_view(old(self).to_trigger@);
                let k = key_view(key_vec@);
                if p.contains(k) {
                    p
                } else {
                    p.insert(insertion_point(p, k), k)
                }
            }),
    {
        let ghost pv = pending_view(self.to_trigger@);
        let ghost k = key_view(key_vec@);
        if pending_contains(&self.to_trigger, key_vec) {
            return ;
        }
        let mut pos: usize = 0;
        while pos < self.to_trigger.len() && key_less(&self.to_trigger[pos], key_vec)
            invariant
                pos <= pv.len(),
                self == old(self),
                pv == pending_view(self.to_trigger@),
                k == key_view(key_vec@),
                pv.len() == self.to_trigger@.len(),
                forall|i: int| 0 <= i < pos ==> key_lt(#[trigger] pv[i], k),
            decreases pv.len() - pos,
        {
            proof {
                assert(pv[pos as int] == key_view(self.to_trigger@[pos as int]@));
            }
            pos += 1;
        }
        proof {
            if (pos as int) < pv.len() {
                assert(pv[pos as int] == key_view(self.to_trigger@[pos as int]@));
            }
            lemma_insertion_point_of(pv, k, pos as int);
            lemma_insert_pending_sorted(pv, k);
        }
        let copied = copy_key(key_vec);
        self.to_trigger.insert(pos, copied);
        proof {
            let tv = old(self).to_trigger@;
            tv.insert_ensures(pos as int, copied);
            pv.insert_ensures(pos as int, k);
            assert(self.to_trigger@ == tv.insert(pos as int, copied));
            assert(pending_view(self.to_trigger@) =~= pv.insert(pos as int, k));
            assert forall|i: int| 0 <= i < self.to_trigger@.len() implies (#[trigger] self
                .to_trigger@[i]@).len() == old(self).key_data_types@.len() by {
                if i < pos {
                    assert(self.to_trigger@[i] == tv[i]);
                } else if i == pos {
                    assert(self.to_trigger@[i] == copied);
                } else {
                    assert(self.to_trigger@[i] == tv[i - 1]);
                }
            }
            assert forall|i: int, q: int|
                0 <= i < self.to_trigger@.len() && 0 <= q < old(self).key_data_types@.len() implies gkv_matches(
                (#[trigger] self.to_trigger@[i]@[q])@,
                old(self).key_data_types@[q],
            ) by {
                if i < pos {
                    assert(self.to_trigger@[i] == tv[i]);
                } else if i == pos {
                    assert(self.to_trigger@[i] == copied);
                } else {
                    assert(self.to_trigger@[i] == tv[i - 1]);
                }
            }
        }
    }

    /// Step the counter of one key; the heart of `keys_received`.
    fn receive_one(&mut self, key_vec: &Vec<GroupByScalar>)
        requires
            old(self).wf(),
            key_vec@.len() == old(self).key_data_types@.len(),
            forall|p: int| 0 <= p < key_vec@.len() ==> gkv_matches(
                (#[trigger] key_vec@[p])@,
                old(self).key_data_types@[p],
            ),
        ensures
            final(self).wf(),
            final(self).key_data_types@ == old(self).key_data_types@,
            final(self).trigger_count == old(self).trigger_count,
            final(self)@ == recv_one(
                old(self).trigger_count as nat,
                old(self)@,
                key_view(key_vec@),
            ),
    {
        let ghost n = self.trigger_count as nat;
        let ghost k = key_view(key_vec@);
        let ghost pre = self@;
        match find_key(&self.count_keys, key_vec) {
            Some(i) => {
                proof {
                    lemma_counts_map_index(self.count_keys@, self.count_vals@, i as int);
                }
                let c = self.count_vals[i] + 1;
                if c == self.trigger_count {
                    self.count_vals.set(i, 0);
                    proof {
                        lemma_counts_map_update(
                            old(self).count_keys@,
                            old(self).count_vals@,
                            i as int,
                            0,
                        );
                    }
                    self.enqueue(key_vec);
                    proof {
                        assert(self@ =~= recv_one(n, pre, k));
                    }
                } else {
                    self.count_vals.set(i, c);
                    proof {
                        lemma_counts_map_update(
                            old(self).count_keys@,
                            old(self).count_vals@,
                            i as int,
                            c,
                        );
                        assert(self@ =~= recv_one(n, pre, k));
                    }
                }
            },
            None => {
                proof {
                    lemma_counts_map_absent(self.count_keys@, self.count_vals@, k);
                }
                let copied = copy_key(key_vec);
                if self.trigger_count == 1 {
                    self.count_keys.push(copied);
                    self.count_vals.push(0);
                    proof {
                        assert(self.count_keys@.drop_last() =~= old(self).count_keys@);
                        assert(self.count_vals@.drop_last() =~= old(self).count_vals@);
                    }
                    self.enqueue(key_vec);
                    proof {
                        assert(self@ =~= recv_one(n, pre, k));
                    }
                } else {
                    self.count_keys.push(copied);
                    self.count_vals.push(1);
                    proof {
                        assert(self.count_keys@.drop_last() =~= old(self).count_keys@);
                        assert(self.count_vals@.drop_last() =~= old(self).count_vals@);
                        assert(self@ =~= recv_one(n, pre, k));
                    }
                }
            },
        }
    }

    /// Materialize every pending key as one column per key position —
    /// dispatching on the declared type of that position — then empty
    /// the pending queue atomically.
    pub fn poll(&mut self) -> (out: Vec<Column>)
        requires
            old(self).wf(),
        ensures
            final(self).wf(),
            final(self).spec_key_data_types() == old(self).spec_key_data_types(),
            final(self).spec_trigger_count() == old(self).spec_trigger_count(),
            final(self)@ == after_poll(old(self)@),
            pending_sorted(old(self)@.pending),
            out@.len() == old(self).spec_key_data_types().len(),
            forall|p: int| 0 <= p < out@.len() ==> (#[trigger] out@[p]@).dt
                == old(self).spec_key_data_types()[p],
            forall|p: int| 0 <= p < out@.len() ==> (#[trigger] out@[p]@).vals == Seq::new(
                old(self)@.pending.len(),
                |r: int| old(self)@.pending[r][p],
            ),
    {
        let ghost pend = self@.pending;
        let mut out: Vec<Column> = Vec::new();
        let mut p: usize = 0;
        while p < self.key_data_types.len()
            invariant
                p <= self.key_data_types@.len(),
                self == old(self),
                self.wf(),
                pend == self@.pending,
                out@.len() == p,
                forall|q: int| 0 <= q < p ==> (#[trigger] out@[q]@).dt == self.key_data_types@[q],
                forall|q: int| 0 <= q < p ==> (#[trigger] out@[q]@).vals == Seq::new(
                    pend.len(),
                    |r: int| pend[r][q],
                ),
            decreases self.key_data_types@.len() - p,
        {
            let column = match self.key_data_types[p] {
                DataType::Int64 => {
                    let mut v: Vec<i64> = Vec::new();
                    let mut r: usize = 0;
                    while r < self.to_trigger.len()
                        invariant
                            r <= self.to_trigger@.len(),
                            self == old(self),
                            self.wf(),
                            pend == self@.pending,
                            p < self.key_data_types@.len(),
                            self.key_data_types@[p as int] == DataType::Int64,
                            v@.len() == r,
                            forall|s: int| 0 <= s < r ==> GroupByScalarView::Int64(
                                #[trigger] v@[s],
                            ) == pend[s][p as int],
                        decreases self.to_trigger@.len() - r,
                    {
                        proof {
                            assert(gkv_matches(
                                self.to_trigger@[r as int]@[p as int]@,
                                self.key_data_types@[p as int],
                            ));
                            assert(pend[r as int][p as int] == self.to_trigger@[r as int]@[
                                p as int]@);
                        }
                        match &self.to_trigger[r][p] {
                            GroupByScalar::Int64(x) => v.push(*x),
                            _ => unreached(),
                        }
                        r += 1;
                    }
                    proof {
                        assert(Column::Int64(v)@.vals =~= Seq::new(
                            pend.len(),
                            |r: int| pend[r][p as int],
                        ));
                    }
                    Column::Int64(v)
                },
                DataType::Utf8 => {
                    let mut v: Vec<String> = Vec::new();
                    let mut r: usize = 0;
                    while r < self.to_trigger.len()
                        invariant
                            r <= self.to_trigger@.len(),
                            self == old(self),
                            self.wf(),
                            pend == self@.pending,
                            p < self.key_data_types@.len(),
                            self.key_data_types@[p as int] == DataType::Utf8,
                            v@.len() == r,
                            forall|s: int| 0 <= s < r ==> GroupByScalarView::Utf8(
                                (#[trigger] v@[s])@,
                            ) == pend[s][p as int],
                        decreases self.to_trigger@.len() - r,
                    {
                        proof {
                            assert(gkv_matches(
                                self.to_trigger@[r as int]@[p as int]@,
                                self.key_data_types@[p as int],
                            ));
                            assert(pend[r as int][p as int] == self.to_trigger@[r as int]@[
                                p as int]@);
                        }
                        match &self.to_trigger[r][p] {
                            GroupByScalar::Utf8(x) => v.push(x.clone()),
                            _ => unreached(),
                        }
                        r += 1;
                    }
                    proof {
                        assert(Column::Utf8(v)@.vals =~= Seq::new(
                            pend.len(),
                            |r: int| pend[r][p as int],
                        ));
                    }
                    Column::Utf8(v)
                },
                _ => unreached(),
            };
            out.push(column);
            p += 1;
        }
        self.to_trigger.clear();
        proof {
            assert(pending_view(self.to_trigger@) =~= Seq::<Seq<GroupByScalarView>>::empty());
            assert(self@ =~= after_poll(old(self)@));
        }
        out
    }
}

} // verus!
