//! The block builder: buffers trade events until a slot boundary, orders
//! each slot batch bundled-first, replays it against one constant-product
//! pool per asset, and accumulates the conflict count and the regret the
//! ordering imposed on later traders.

use crate::market_math::ConstantProductPool;
use crate::ordering::{sort_batch, spec_sort};
use crate::types::InternalTrade;
use vstd::prelude::*;

verus! {

/// Symmetric starting liquidity given to a pool the first time its asset
/// is observed.
pub const INITIAL_RESERVE: u64 = 1_000_000;

/// The pool an asset starts from: `INITIAL_RESERVE` on both sides.
pub open spec fn initial_pool() -> ConstantProductPool {
    ConstantProductPool {
        reserve_base: INITIAL_RESERVE,
        reserve_quote: INITIAL_RESERVE,
        k: ((INITIAL_RESERVE as u128) * (INITIAL_RESERVE as u128)) as u128,
    }
}

/// A trade suffered measurable ordering cost: executing first would have
/// paid more than it realized. `amount_in * quote / base > amount_out`,
/// stated without division.
pub open spec fn spec_conflicted(
    amount_in: u64,
    pool_before: ConstantProductPool,
    amount_out: u64,
) -> bool {
    amount_in * pool_before.reserve_quote > amount_out * pool_before.reserve_base
}

/// The integer regret of one trade: the theoretical payout at the spot
/// price the pool showed before the trade, `floor(amount_in * quote /
/// base)`, minus the realized payout; never negative.
pub open spec fn spec_regret_units(
    amount_in: u64,
    pool_before: ConstantProductPool,
    amount_out: u64,
) -> int {
    let theoretical = amount_in * pool_before.reserve_quote / (pool_before.reserve_base as int);
    if theoretical >= amount_out {
        theoretical - amount_out
    } else {
        0
    }
}

/// The consumer-owned replay state: one pool per asset identifier, and
/// the two run metrics.
pub struct ReplayModel {
    pub pools: Map<Seq<char>, ConstantProductPool>,
    pub conflicted: u64,
    pub regret_units: u128,
}

/// One trade against the replay state: the pool for its asset is looked
/// up, or created with the initial reserves; the swap executes and the
/// metrics grow if the trade was conflicted. A trade whose input would
/// push the base reserve past `u64::MAX` cannot execute and is rejected:
/// the state is left untouched.
pub open spec fn spec_apply_trade(m: ReplayModel, t: InternalTrade) -> ReplayModel {
    let key = t.token_mint_in@;
    let p = if m.pools.contains_key(key) {
        m.pools[key]
    } else {
        initial_pool()
    };
    if p.reserve_base + t.amount_in <= u64::MAX {
        let p2 = p.spec_swap(t.amount_in).0;
        let out = p.spec_swap(t.amount_in).1;
        if spec_conflicted(t.amount_in, p, out) {
            ReplayModel {
                pools: m.pools.insert(key, p2),
                conflicted: m.conflicted.saturating_add(1),
                regret_units: m.regret_units.saturating_add(
                    spec_regret_units(t.amount_in, p, out) as u128,
                ),
            }
        } else {
            ReplayModel {
                pools: m.pools.insert(key, p2),
                conflicted: m.conflicted,
                regret_units: m.regret_units,
            }
        }
    } else {
        m
    }
}

/// Replay a batch left to right.
pub open spec fn spec_replay(m: ReplayModel, batch: Seq<InternalTrade>) -> ReplayModel
    decreases batch.len(),
{
    if batch.len() == 0 {
        m
    } else {
        spec_replay(spec_apply_trade(m, batch.first()), batch.drop_first())
    }
}

/// Replaying one more trade at the end is one more application.
pub proof fn lemma_spec_replay_push(m: ReplayModel, s: Seq<InternalTrade>, x: InternalTrade)
    ensures
        spec_replay(m, s.push(x)) == spec_apply_trade(spec_replay(m, s), x),
    decreases s.len(),
{
    if s.len() == 0 {
        assert(s.push(x).len() == 1);
        assert(s.push(x).first() == x);
        assert(s.push(x).drop_first() =~= Seq::<InternalTrade>::empty());
        assert(spec_replay(m, s.push(x)) == spec_replay(
            spec_apply_trade(m, x),
            s.push(x).drop_first(),
        ));
        assert(spec_replay(spec_apply_trade(m, x), s.push(x).drop_first()) == spec_apply_trade(
            m,
            x,
        ));
        assert(spec_replay(m, s) == m);
    } else {
        assert(s.push(x).first() == s.first());
        assert(s.push(x).drop_first() =~= s.drop_first().push(x));
        assert(spec_replay(m, s.push(x)) == spec_replay(
            spec_apply_trade(m, s.first()),
            s.drop_first().push(x),
        ));
        lemma_spec_replay_push(spec_apply_trade(m, s.first()), s.drop_first(), x);
        assert(spec_replay(m, s) == spec_replay(
            spec_apply_trade(m, s.first()),
            s.drop_first(),
        ));
    }
}

/// The conflict counter and the regret total never decrease, over any
/// batch and from any starting state.
pub proof fn lemma_replay_monotone(m: ReplayModel, batch: Seq<InternalTrade>)
    ensures
        spec_replay(m, batch).conflicted >= m.conflicted,
        spec_replay(m, batch).regret_units >= m.regret_units,
    decreases batch.len(),
{
    if batch.len() > 0 {
        lemma_replay_monotone(spec_apply_trade(m, batch.first()), batch.drop_first());
    }
}

/// The conflict counter moves on one trade only when that trade executed
/// with positive regret, and then by exactly one (up to saturation).
pub proof fn lemma_conflict_counts_positive_regret(m: ReplayModel, t: InternalTrade)
    ensures
        spec_apply_trade(m, t).conflicted != m.conflicted ==> {
            &&& spec_trade_conflicted(m, t)
            &&& spec_apply_trade(m, t).conflicted == m.conflicted.saturating_add(1)
        },
{
}

/// The pool one trade meets in this replay state: the asset's current
/// pool if present, else the fresh initial pool.
pub open spec fn spec_trade_pool(m: ReplayModel, t: InternalTrade) -> ConstantProductPool {
    if m.pools.contains_key(t.token_mint_in@) {
        m.pools[t.token_mint_in@]
    } else {
        initial_pool()
    }
}

/// Whether one trade, against this replay state, executes and suffers
/// positive regret.
pub open spec fn spec_trade_conflicted(m: ReplayModel, t: InternalTrade) -> bool {
    let p = spec_trade_pool(m, t);
    &&& p.reserve_base + t.amount_in <= u64::MAX
    &&& spec_conflicted(t.amount_in, p, p.spec_swap(t.amount_in).1)
}

/// The regret one trade contributes: zero unless it executes conflicted.
pub open spec fn spec_trade_regret(m: ReplayModel, t: InternalTrade) -> int {
    if spec_trade_conflicted(m, t) {
        spec_regret_units(
            t.amount_in,
            spec_trade_pool(m, t),
            spec_trade_pool(m, t).spec_swap(t.amount_in).1,
        )
    } else {
        0
    }
}

/// How many trades of the batch, replayed in order, are conflicted.
pub open spec fn spec_batch_conflicts(m: ReplayModel, batch: Seq<InternalTrade>) -> nat
    decreases batch.len(),
{
    if batch.len() == 0 {
        0
    } else {
        (if spec_trade_conflicted(m, batch.first()) {
            1 as nat
        } else {
            0
        }) + spec_batch_conflicts(spec_apply_trade(m, batch.first()), batch.drop_first())
    }
}

/// The regret the batch contributes, summed in replay order.
pub open spec fn spec_batch_regret(m: ReplayModel, batch: Seq<InternalTrade>) -> int
    decreases batch.len(),
{
    if batch.len() == 0 {
        0
    } else {
        spec_trade_regret(m, batch.first()) + spec_batch_regret(
            spec_apply_trade(m, batch.first()),
            batch.drop_first(),
        )
    }
}

/// Every pool the replay state holds satisfies its reserve invariant.
pub open spec fn pools_wf(m: ReplayModel) -> bool {
    forall|k: Seq<char>| #[trigger] m.pools.contains_key(k) ==> m.pools[k].wf()
}

/// The fresh initial pool is well-formed.
proof fn lemma_initial_pool_wf()
    ensures
        initial_pool().wf(),
{
    vstd::arithmetic::div_mod::lemma_div_multiples_vanish(
        INITIAL_RESERVE as int,
        INITIAL_RESERVE as int,
    );
}

/// Applying one trade keeps every pool well-formed.
proof fn lemma_apply_trade_pools_wf(m: ReplayModel, t: InternalTrade)
    requires
        pools_wf(m),
    ensures
        pools_wf(spec_apply_trade(m, t)),
{
    lemma_initial_pool_wf();
    let p = spec_trade_pool(m, t);
    if p.reserve_base + t.amount_in <= u64::MAX {
        p.lemma_spec_swap_step(t.amount_in);
    }
}

/// One trade's regret is non-negative and fits the accumulator.
proof fn lemma_trade_regret_bounds(m: ReplayModel, t: InternalTrade)
    requires
        pools_wf(m),
    ensures
        0 <= spec_trade_regret(m, t) <= u128::MAX,
{
    lemma_initial_pool_wf();
    let p = spec_trade_pool(m, t);
    if spec_trade_conflicted(m, t) {
        let a = t.amount_in;
        let q = p.reserve_quote;
        let b = p.reserve_base as int;
        lemma_u64_mul_fits_u128(a, q);
        vstd::arithmetic::div_mod::lemma_div_is_ordered_by_denominator(a * q, 1, b);
        vstd::arithmetic::div_mod::lemma_div_basics(a * q);
    }
}

/// Replaying a batch moves the conflict counter by exactly the number
/// of conflicted trades and the regret total by exactly their summed
/// regret, each saturating at its type's maximum; trades without
/// positive regret change neither metric.
pub proof fn lemma_replay_batch_accounting(m: ReplayModel, batch: Seq<InternalTrade>)
    requires
        pools_wf(m),
    ensures
        spec_batch_regret(m, batch) >= 0,
        spec_replay(m, batch).conflicted == if m.conflicted + spec_batch_conflicts(m, batch)
            > u64::MAX {
            u64::MAX
        } else {
            (m.conflicted + spec_batch_conflicts(m, batch)) as u64
        },
        spec_replay(m, batch).regret_units == if m.regret_units + spec_batch_regret(m, batch)
            > u128::MAX {
            u128::MAX
        } else {
            (m.regret_units + spec_batch_regret(m, batch)) as u128
        },
    decreases batch.len(),
{
    if batch.len() > 0 {
        let t = batch.first();
        let m1 = spec_apply_trade(m, t);
        lemma_apply_trade_pools_wf(m, t);
        lemma_trade_regret_bounds(m, t);
        lemma_replay_batch_accounting(m1, batch.drop_first());
    }
}

/// The mapping from asset identifiers to pools, read off the two
/// parallel columns the builder stores.
pub open spec fn pools_as_map(
    keys: Seq<String>,
    vals: Seq<ConstantProductPool>,
) -> Map<Seq<char>, ConstantProductPool>
    recommends
        keys.len() == vals.len(),
    decreases keys.len(),
{
    if keys.len() == 0 || vals.len() == 0 {
        Map::empty()
    } else {
        pools_as_map(keys.drop_last(), vals.drop_last()).insert(keys.last()@, vals.last())
    }
}

/// The columns' keys are pairwise distinct (by character content).
pub open spec fn keys_distinct(keys: Seq<String>) -> bool {
    forall|i: int, j: int|
        0 <= i < j < keys.len() ==> (#[trigger] keys[i])@ != (#[trigger] keys[j])@
}

/// A key occurs in the map exactly when it occurs in the key column.
proof fn lemma_pools_map_domain(keys: Seq<String>, vals: Seq<ConstantProductPool>, k: Seq<char>)
    requires
        keys.len() == vals.len(),
    ensures
        pools_as_map(keys, vals).contains_key(k) <==> exists|i: int|
            0 <= i < keys.len() && (#[trigger] keys[i])@ == k,
    decreases keys.len(),
{
    if keys.len() > 0 {
        lemma_pools_map_domain(keys.drop_last(), vals.drop_last(), k);
        if pools_as_map(keys, vals).contains_key(k) {
            if k == keys.last()@ {
                assert(keys[keys.len() - 1]@ == k);
            } else {
                let i = choose|i: int|
                    0 <= i < keys.drop_last().len() && (#[trigger] keys.drop_last()[i])@ == k;
                assert(keys[i]@ == k);
            }
        }
        if exists|i: int| 0 <= i < keys.len() && (#[trigger] keys[i])@ == k {
            let i = choose|i: int| 0 <= i < keys.len() && (#[trigger] keys[i])@ == k;
            if i < keys.len() - 1 {
                assert(keys.drop_last()[i]@ == k);
            }
        }
    }
}

/// With distinct keys, the map sends each key to the pool in its row.
proof fn lemma_pools_map_index(keys: Seq<String>, vals: Seq<ConstantProductPool>, i: int)
    requires
        keys.len() == vals.len(),
        keys_distinct(keys),
        0 <= i < keys.len(),
    ensures
        pools_as_map(keys, vals).contains_key(keys[i]@),
        pools_as_map(keys, vals)[keys[i]@] == vals[i],
    decreases keys.len(),
{
    if i == keys.len() - 1 {
    } else {
        lemma_pools_map_index(keys.drop_last(), vals.drop_last(), i);
        assert(keys[i]@ != keys.last()@);
    }
}

/// Writing one row's pool updates exactly that key in the map.
proof fn lemma_pools_map_update(
    keys: Seq<String>,
    vals: Seq<ConstantProductPool>,
    i: int,
    p: ConstantProductPool,
)
    requires
        keys.len() == vals.len(),
        keys_distinct(keys),
        0 <= i < keys.len(),
    ensures
        pools_as_map(keys, vals.update(i, p)) == pools_as_map(keys, vals).insert(keys[i]@, p),
    decreases keys.len(),
{
    let t = vals.update(i, p);
    if i == keys.len() - 1 {
        assert(t.drop_last() =~= vals.drop_last());
        assert(pools_as_map(keys, t) =~= pools_as_map(keys, vals).insert(keys[i]@, p));
    } else {
        assert(t.drop_last() =~= vals.drop_last().update(i, p));
        lemma_pools_map_update(keys.drop_last(), vals.drop_last(), i, p);
        assert(keys[i]@ != keys.last()@);
        assert(pools_as_map(keys, t) =~= pools_as_map(keys, vals).insert(keys[i]@, p));
    }
}

/// Well-formed parallel columns yield a map of well-formed pools.
proof fn lemma_pools_map_wf(keys: Seq<String>, vals: Seq<ConstantProductPool>)
    requires
        keys.len() == vals.len(),
        keys_distinct(keys),
        forall|i: int| 0 <= i < vals.len() ==> (#[trigger] vals[i]).wf(),
    ensures
        forall|k: Seq<char>| #[trigger]
            pools_as_map(keys, vals).contains_key(k) ==> pools_as_map(keys, vals)[k].wf(),
{
    let m = pools_as_map(keys, vals);
    assert forall|k: Seq<char>| #[trigger] m.contains_key(k) implies m[k].wf() by {
        lemma_pools_map_domain(keys, vals, k);
        let i = choose|i: int| 0 <= i < keys.len() && (#[trigger] keys[i])@ == k;
        lemma_pools_map_index(keys, vals, i);
    }
}

/// Appending a row inserts its key.
proof fn lemma_pools_map_push(
    keys: Seq<String>,
    vals: Seq<ConstantProductPool>,
    key: String,
    p: ConstantProductPool,
)
    requires
        keys.len() == vals.len(),
    ensures
        pools_as_map(keys.push(key), vals.push(p)) == pools_as_map(keys, vals).insert(key@, p),
{
    assert(keys.push(key).drop_last() =~= keys);
    assert(vals.push(p).drop_last() =~= vals);
}

/// Products of two 64-bit values fit in 128 bits.
proof fn lemma_u64_mul_fits_u128(a: u64, b: u64)
    ensures
        a * b <= u128::MAX,
{
    assert(a * b <= u128::MAX) by (nonlinear_arith)
        requires
            a <= u64::MAX,
            b <= u64::MAX,
    ;
}

/// Buffers events of the current slot, and on each slot boundary (or an
/// explicit flush) orders the batch and replays it against the per-asset
/// pools, feeding the outcome into the run metrics.
pub struct BlockBuilder {
    current_slot: u64,
    buffer: Vec<InternalTrade>,
    pool_keys: Vec<String>,
    pool_states: Vec<ConstantProductPool>,
    regret_units: u128,
    conflicted: u64,
}

impl BlockBuilder {
    /// The events buffered for the slot being accumulated, oldest first.
    pub closed spec fn buffer_view(self) -> Seq<InternalTrade> {
        self.buffer@
    }

    /// The slot currently accumulating.
    pub closed spec fn spec_current_slot(self) -> u64 {
        self.current_slot
    }

    /// The replay state: per-asset pools plus the two metrics.
    pub closed spec fn model(self) -> ReplayModel {
        ReplayModel {
            pools: pools_as_map(self.pool_keys@, self.pool_states@),
            conflicted: self.conflicted,
            regret_units: self.regret_units,
        }
    }

    /// Well-formedness: the two pool columns are parallel, keys are
    /// distinct, and every pool satisfies its reserve invariant.
    pub closed spec fn wf(self) -> bool {
        &&& self.pool_keys@.len() == self.pool_states@.len()
        &&& keys_distinct(self.pool_keys@)
        &&& forall|i: int|
            0 <= i < self.pool_states@.len() ==> (#[trigger] self.pool_states@[i]).wf()
    }

    /// A fresh builder: empty buffer, no pools, zero metrics.
    pub fn new() -> (b: Self)
        ensures
            b.wf(),
            b.buffer_view() == Seq::<InternalTrade>::empty(),
            b.model().pools == Map::<Seq<char>, ConstantProductPool>::empty(),
            b.model().conflicted == 0,
            b.model().regret_units == 0,
            b.spec_current_slot() == 0,
            pools_wf(b.model()),
    {
        BlockBuilder {
            current_slot: 0,
            buffer: Vec::new(),
            pool_keys: Vec::new(),
            pool_states: Vec::new(),
            regret_units: 0,
            conflicted: 0,
        }
    }

    /// The row holding `key`, if the asset has been seen before.
    fn find_pool_index(&self, key: &String) -> (r: Option<usize>)
        requires
            self.wf(),
        ensures
            match r {
                Some(i) => i < self.pool_keys@.len() && self.pool_keys@[i as int]@ == key@,
                None => !self.model().pools.contains_key(key@),
            },
    {
        let mut i: usize = 0;
        while i < self.pool_keys.len()
            invariant
                i <= self.pool_keys@.len(),
                forall|j: int| 0 <= j < i ==> (#[trigger] self.pool_keys@[j])@ != key@,
            decreases self.pool_keys@.len() - i,
        {
            if self.pool_keys[i].eq(key) {
                return Some(i);
            }
            i += 1;
        }
        proof {
            lemma_pools_map_domain(self.pool_keys@, self.pool_states@, key@);
        }
        None
    }

    /// The current pool for an asset, if one has been created: reserves
    /// persist for the lifetime of the run and are never reset between
    /// slots.
    pub fn pool_snapshot(&self, key: &String) -> (r: Option<ConstantProductPool>)
        requires
            self.wf(),
        ensures
            match r {
                Some(p) => self.model().pools.contains_key(key@) && p == self.model().pools[key@],
                None => !self.model().pools.contains_key(key@),
            },
    {
        match self.find_pool_index(key) {
            Some(i) => {
                proof {
                    lemma_pools_map_index(self.pool_keys@, self.pool_states@, i as int);
                }
                Some(self.pool_states[i])
            },
            None => None,
        }
    }

    /// Order the buffered batch and replay it; the buffer empties, the
    /// pools and metrics advance by exactly the replay of the sorted
    /// batch, and the metrics never decrease.
    fn process_block(&mut self)
        requires
            old(self).wf(),
        ensures
            final(self).wf(),
            final(self).buffer_view() == Seq::<InternalTrade>::empty(),
            final(self).model() == spec_replay(
                old(self).model(),
                spec_sort(old(self).buffer_view()),
            ),
            final(self).spec_current_slot() == old(self).spec_current_slot(),
            final(self).model().conflicted >= old(self).model().conflicted,
            final(self).model().regret_units >= old(self).model().regret_units,
    {
        let ghost m0 = self.model();
        let mut batch: Vec<InternalTrade> = Vec::new();
        core::mem::swap(&mut batch, &mut self.buffer);
        let sorted = sort_batch(batch);
        let ghost sorted_view = sorted@;
        let mut i: usize = 0;
        while i < sorted.len()
            invariant
                self.wf(),
                i <= sorted@.len(),
                sorted@ == sorted_view,
                self.buffer@.len() == 0,
                self.current_slot == old(self).current_slot,
                self.model() == spec_replay(m0, sorted_view.subrange(0, i as int)),
            decreases sorted@.len() - i,
        {
            let ghost mi = self.model();
            let ghost keys_i = self.pool_keys@;
            let ghost vals_i = self.pool_states@;
            let ghost t_ghost = sorted@[i as int];
            proof {
                assert(sorted_view.subrange(0, i as int + 1) =~= sorted_view.subrange(
                    0,
                    i as int,
                ).push(t_ghost));
                lemma_spec_replay_push(m0, sorted_view.subrange(0, i as int), t_ghost);
            }
            let t = &sorted[i];
            let found = self.find_pool_index(&t.token_mint_in);
            match found {
                Some(idx) => {
                    proof {
                        lemma_pools_map_index(self.pool_keys@, self.pool_states@, idx as int);
                    }
                    let mut p = self.pool_states[idx];
                    let p_before = p;
                    let r = p.checked_swap_base_for_quote(t.amount_in);
                    match r {
                        Some(out) => {
                            self.record_trade_outcome(t.amount_in, p_before, out);
                            self.pool_states[idx] = p;
                            proof {
                                lemma_pools_map_update(keys_i, vals_i, idx as int, p);
                                assert(self.model() == spec_apply_trade(mi, t_ghost));
                            }
                        },
                        None => {},
                    }
                },
                None => {
                    let mut p = ConstantProductPool::new(INITIAL_RESERVE, INITIAL_RESERVE);
                    let p_before = p;
                    let r = p.checked_swap_base_for_quote(t.amount_in);
                    match r {
                        Some(out) => {
                            self.record_trade_outcome(t.amount_in, p_before, out);
                            let key = t.token_mint_in.clone();
                            proof {
                                lemma_pools_map_domain(keys_i, vals_i, key@);
                                lemma_pools_map_push(keys_i, vals_i, key, p);
                            }
                            self.pool_keys.push(key);
                            self.pool_states.push(p);
                            proof {
                                assert(p_before == initial_pool());
                                assert(self.model() == spec_apply_trade(mi, t_ghost));
                            }
                        },
                        None => {},
                    }
                },
            }
            i += 1;
        }
        proof {
            assert(sorted_view.subrange(0, sorted_view.len() as int) =~= sorted_view);
            lemma_replay_monotone(m0, sorted_view);
        }
    }

    /// Grow the metrics for one executed trade.
    fn record_trade_outcome(
        &mut self,
        amount_in: u64,
        pool_before: ConstantProductPool,
        amount_out: u64,
    )
        requires
            pool_before.reserve_base >= 1,
        ensures
            final(self).conflicted == if spec_conflicted(amount_in, pool_before, amount_out) {
                old(self).conflicted.saturating_add(1)
            } else {
                old(self).conflicted
            },
            final(self).regret_units == if spec_conflicted(amount_in, pool_before, amount_out) {
                old(self).regret_units.saturating_add(
                    spec_regret_units(amount_in, pool_before, amount_out) as u128,
                )
            } else {
                old(self).regret_units
            },
            final(self).buffer_view() == old(self).buffer_view(),
            final(self).pool_keys@ == old(self).pool_keys@,
            final(self).pool_states@ == old(self).pool_states@,
            final(self).spec_current_slot() == old(self).spec_current_slot(),
            final(self).wf() == old(self).wf(),
    {
        proof {
            lemma_u64_mul_fits_u128(amount_in, pool_before.reserve_quote);
            lemma_u64_mul_fits_u128(amount_out, pool_before.reserve_base);
        }
        let aq: u128 = (amount_in as u128) * (pool_before.reserve_quote as u128);
        let outb: u128 = (amount_out as u128) * (pool_before.reserve_base as u128);
        if aq > outb {
            let theoretical: u128 = aq / (pool_before.reserve_base as u128);
            let regret: u128 = if theoretical >= amount_out as u128 {
                theoretical - amount_out as u128
            } else {
                0
            };
            self.conflicted = self.conflicted.saturating_add(1);
            self.regret_units = self.regret_units.saturating_add(regret);
        }
    }

    /// Receive one event. The first event of an empty buffer opens its
    /// slot; an event for the accumulating slot joins the buffer; an
    /// event for a different slot first flushes the buffered batch and
    /// then opens the new slot with this event as its first member.
    pub fn add_trade(&mut self, trade: InternalTrade)
        requires
            old(self).wf(),
        ensures
            final(self).wf(),
            ({
                let b = *old(self);
                if b.buffer_view().len() == 0 {
                    &&& final(self).buffer_view() == seq![trade]
                    &&& final(self).spec_current_slot() == trade.slot
                    &&& final(self).model() == b.model()
                } else if trade.slot == b.spec_current_slot() {
                    &&& final(self).buffer_view() == b.buffer_view().push(trade)
                    &&& final(self).spec_current_slot() == b.spec_current_slot()
                    &&& final(self).model() == b.model()
                } else {
                    &&& final(self).buffer_view() == seq![trade]
                    &&& final(self).spec_current_slot() == trade.slot
                    &&& final(self).model() == spec_replay(
                        b.model(),
                        spec_sort(b.buffer_view()),
                    )
                }
            }),
            final(self).model().conflicted >= old(self).model().conflicted,
            final(self).model().regret_units >= old(self).model().regret_units,
            pools_wf(final(self).model()),
    {
        if self.buffer.is_empty() {
            self.current_slot = trade.slot;
        }
        if trade.slot != self.current_slot {
            self.process_block();
            self.current_slot = trade.slot;
        }
        self.buffer.push(trade);
        proof {
            assert(Seq::<InternalTrade>::empty().push(trade) =~= seq![trade]);
            lemma_pools_map_wf(self.pool_keys@, self.pool_states@);
        }
    }

    /// How many processed trades were conflicted so far (saturating at
    /// `u64::MAX`).
    pub fn conflicted_txs(&self) -> (r: u64)
        ensures
            r == self.model().conflicted,
    {
        self.conflicted
    }

    /// Total regret across the run so far, in integer quote units
    /// (saturating at `u128::MAX`).
    pub fn total_regret_units(&self) -> (r: u128)
        ensures
            r == self.model().regret_units,
    {
        self.regret_units
    }

    /// Flush the remaining buffer at stream end; a no-op on an empty
    /// buffer.
    pub fn flush(&mut self)
        requires
            old(self).wf(),
        ensures
            final(self).wf(),
            final(self).buffer_view() == Seq::<InternalTrade>::empty(),
            final(self).model() == spec_replay(
                old(self).model(),
                spec_sort(old(self).buffer_view()),
            ),
            final(self).spec_current_slot() == old(self).spec_current_slot(),
            final(self).model().conflicted >= old(self).model().conflicted,
            final(self).model().regret_units >= old(self).model().regret_units,
            pools_wf(final(self).model()),
    {
        self.process_block();
        proof {
            lemma_pools_map_wf(self.pool_keys@, self.pool_states@);
        }
    }

    /// One-shot replay: feed a whole stream of events to a fresh
    /// builder, in order, and flush. The result is pinned as a function
    /// of the input sequence alone, so two runs over identical input
    /// report identical metrics and pool states.
    pub fn replay_all(trades: Vec<InternalTrade>) -> (b: BlockBuilder)
        ensures
            b.wf(),
            b.buffer_view() == Seq::<InternalTrade>::empty(),
            b.model() == spec_run(trades@),
            pools_wf(b.model()),
    {
        let ghost all = trades@;
        let mut builder = BlockBuilder::new();
        proof {
            assert(builder.builder_model() == initial_builder());
        }
        let mut rest = trades;
        let mut fed: usize = 0;
        let n: usize = rest.len();
        proof {
            assert(all.len() == n);
        }
        while rest.len() > 0
            invariant
                builder.wf(),
                all.len() <= usize::MAX,
                fed + rest@.len() == all.len(),
                rest@ == all.subrange(fed as int, all.len() as int),
                builder.builder_model() == spec_feed(
                    initial_builder(),
                    all.subrange(0, fed as int),
                ),
            decreases rest@.len(),
        {
            let t = rest.remove(0);
            proof {
                assert(t == all[fed as int]);
                assert(rest@ =~= all.subrange(fed as int + 1, all.len() as int));
                assert(all.subrange(0, fed as int + 1) =~= all.subrange(0, fed as int).push(t));
                lemma_spec_feed_push(initial_builder(), all.subrange(0, fed as int), t);
            }
            builder.add_trade(t);
            fed = fed + 1;
        }
        proof {
            assert(all.subrange(0, all.len() as int) =~= all);
        }
        builder.flush();
        builder
    }
}

/// The whole state a builder carries, at spec level: the accumulating
/// slot, its buffered events, and the replay state behind it.
pub struct BuilderModel {
    pub current_slot: u64,
    pub buffer: Seq<InternalTrade>,
    pub replay: ReplayModel,
}

impl BlockBuilder {
    /// The builder's full spec-level state.
    pub closed spec fn builder_model(self) -> BuilderModel {
        BuilderModel {
            current_slot: self.current_slot,
            buffer: self.buffer@,
            replay: self.model(),
        }
    }
}

/// A fresh builder's state.
pub open spec fn initial_builder() -> BuilderModel {
    BuilderModel {
        current_slot: 0,
        buffer: Seq::empty(),
        replay: ReplayModel { pools: Map::empty(), conflicted: 0, regret_units: 0 },
    }
}

/// One arriving event against the builder state, mirroring `add_trade`:
/// the first event of an empty buffer opens its slot; a same-slot event
/// joins the buffer; a new slot flushes the batch and opens with this
/// event.
pub open spec fn spec_add_trade(s: BuilderModel, t: InternalTrade) -> BuilderModel {
    if s.buffer.len() == 0 {
        BuilderModel { current_slot: t.slot, buffer: seq![t], replay: s.replay }
    } else if t.slot == s.current_slot {
        BuilderModel {
            current_slot: s.current_slot,
            buffer: s.buffer.push(t),
            replay: s.replay,
        }
    } else {
        BuilderModel {
            current_slot: t.slot,
            buffer: seq![t],
            replay: spec_replay(s.replay, spec_sort(s.buffer)),
        }
    }
}

/// Feed a stream of events left to right.
pub open spec fn spec_feed(s: BuilderModel, trades: Seq<InternalTrade>) -> BuilderModel
    decreases trades.len(),
{
    if trades.len() == 0 {
        s
    } else {
        spec_feed(spec_add_trade(s, trades.first()), trades.drop_first())
    }
}

/// Feeding one more event at the end is one more application.
pub proof fn lemma_spec_feed_push(s: BuilderModel, trades: Seq<InternalTrade>, x: InternalTrade)
    ensures
        spec_feed(s, trades.push(x)) == spec_add_trade(spec_feed(s, trades), x),
    decreases trades.len(),
{
    if trades.len() == 0 {
        assert(trades.push(x).first() == x);
        assert(trades.push(x).drop_first() =~= Seq::<InternalTrade>::empty());
        assert(spec_feed(s, trades.push(x)) == spec_feed(
            spec_add_trade(s, x),
            trades.push(x).drop_first(),
        ));
    } else {
        assert(trades.push(x).first() == trades.first());
        assert(trades.push(x).drop_first() =~= trades.drop_first().push(x));
        assert(spec_feed(s, trades.push(x)) == spec_feed(
            spec_add_trade(s, trades.first()),
            trades.drop_first().push(x),
        ));
        lemma_spec_feed_push(spec_add_trade(s, trades.first()), trades.drop_first(), x);
    }
}

/// What a whole run reports: the replay state after a fresh builder
/// receives the stream in order and flushes. Every metric the library
/// reports is this function of the input events alone.
pub open spec fn spec_run(trades: Seq<InternalTrade>) -> ReplayModel {
    let s = spec_feed(initial_builder(), trades);
    spec_replay(s.replay, spec_sort(s.buffer))
}

} // verus!

