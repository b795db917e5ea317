//! Packs: the predicates and thresholds of one event type, evaluated together.
use vstd::prelude::*;
use crate::bitspec::facts::{FactMap, FactModel};
use crate::bitspec::predicate::PredicateSpec;
use crate::bitspec::row::{number_in, RowAccess, SlotRow};
use crate::bitspec::threshold::{lemma_fired_mask, passes, ThresholdSpec};
use crate::bitspec::BitMask;
use crate::num::Float64;
use crate::wire::slot::SlotValue;

verus! {

/// The predicates and thresholds of one event type and version, with the number of bits
/// that they use.
#[derive(Debug)]
pub struct BitspecPack {
    pub predicates: Vec<PredicateSpec>,
    pub thresholds: Vec<ThresholdSpec>,
    pub bit_count: u16,
}

impl BitspecPack {
    /// Whether every level of every threshold has a bit with a place in the mask.
    pub open spec fn well_formed(&self) -> bool {
        forall|i: int|
            0 <= i < self.thresholds@.len() ==> (#[trigger] self.thresholds@[i]).well_formed()
    }

    /// Whether every level of every threshold has a bit with a place in the mask.
    pub fn is_well_formed(&self) -> (r: bool)
        ensures
            r == self.well_formed(),
    {
        let mut t: usize = 0;
        while t < self.thresholds.len()
            invariant
                t <= self.thresholds@.len(),
                forall|j: int| 0 <= j < t ==> (#[trigger] self.thresholds@[j]).well_formed(),
            decreases self.thresholds@.len() - t,
        {
            if !self.thresholds[t].is_well_formed() {
                return false;
            }
            t = t + 1;
        }
        true
    }

    /// The place of the bit of the first level of threshold `t`: the bits of the predicates
    /// come first, then those of the levels of each threshold in turn.
    pub open spec fn level_base(&self, t: int) -> int
        decreases t,
    {
        if t <= 0 {
            self.predicates@.len() as int
        } else {
            self.level_base(t - 1) + self.thresholds@[t - 1].levels@.len()
        }
    }

    /// Whether the bits are assigned in declaration order from zero: predicate `i` has
    /// bit `i`, the levels follow, no two share a bit, and `bit_count` counts them all.
    pub open spec fn laid_out(&self) -> bool {
        &&& forall|i: int|
            0 <= i < self.predicates@.len() ==> (#[trigger] self.predicates@[i]).bit == 1u64 << (
            i as u64)
        &&& forall|t: int, l: int|
            0 <= t < self.thresholds@.len() && 0 <= l < self.thresholds@[t].levels@.len()
                ==> (#[trigger] self.thresholds@[t].levels@[l]).bit == self.level_base(t) + l
        &&& self.bit_count == self.level_base(self.thresholds@.len() as int)
        &&& self.bit_count <= 64
    }

    /// Whether predicate `i` fires on what the row gave for its field: the row has the
    /// field, and the test holds of its slot.
    pub open spec fn fires(&self, slots: Seq<Option<SlotValue<'_>>>, i: int) -> bool {
        slots[i] matches Some(slot) && self.predicates@[i].op.holds(slot)
    }

    /// The bits of the predicates, among the first `n`, that fire.
    pub open spec fn pred_mask(&self, slots: Seq<Option<SlotValue<'_>>>, n: nat) -> u64
        decreases n,
    {
        if n == 0 {
            0
        } else {
            let before = self.pred_mask(slots, (n - 1) as nat);
            if self.fires(slots, n - 1) {
                before | self.predicates@[n - 1].bit
            } else {
                before
            }
        }
    }

    /// The bits that the first `n` thresholds set. A threshold without a value sets none.
    pub open spec fn thresh_mask(&self, values: Seq<Option<Float64>>, n: nat) -> u64
        decreases n,
    {
        if n == 0 {
            0
        } else {
            let before = self.thresh_mask(values, (n - 1) as nat);
            match values[n - 1] {
                Some(val) => before | self.thresholds@[n - 1].mask_of(val),
                None => before,
            }
        }
    }

    /// The facts after the first `n` thresholds have recorded theirs, in order, on top of
    /// the facts `start`. A threshold without a value records none.
    pub open spec fn thresh_facts(
        &self,
        values: Seq<Option<Float64>>,
        start: Map<Seq<char>, FactModel>,
        n: nat,
    ) -> Map<Seq<char>, FactModel>
        decreases n,
    {
        if n == 0 {
            start
        } else {
            let before = self.thresh_facts(values, start, (n - 1) as nat);
            match values[n - 1] {
                Some(val) => self.thresholds@[n - 1].facts_of(val, before),
                None => before,
            }
        }
    }

    /// The mask of a row, from what the row gave for each predicate's field and for each
    /// threshold's field.
    pub open spec fn mask_of(
        &self,
        slots: Seq<Option<SlotValue<'_>>>,
        values: Seq<Option<Float64>>,
    ) -> u64 {
        self.pred_mask(slots, self.predicates@.len()) | self.thresh_mask(
            values,
            self.thresholds@.len(),
        )
    }

    /// The facts of a row, from what the row gave for each threshold's field.
    pub open spec fn facts_of(&self, values: Seq<Option<Float64>>) -> Map<Seq<char>, FactModel> {
        self.thresh_facts(values, Map::empty(), self.thresholds@.len())
    }

    /// Sets the bit of each predicate that fires on the slot of its field.
    pub fn eval_preds(&self, slots: &[Option<SlotValue<'_>>], mask: &mut BitMask)
        requires
            slots@.len() == self.predicates@.len(),
        ensures
            *final(mask) == *old(mask) | self.pred_mask(slots@, self.predicates@.len()),
    {
        proof {
            let m = *mask;
            assert(m == m | 0u64) by (bit_vector);
        }
        let mut i: usize = 0;
        while i < self.predicates.len()
            invariant
                i <= self.predicates@.len(),
                slots@.len() == self.predicates@.len(),
                *mask == *old(mask) | self.pred_mask(slots@, i as nat),
            decreases self.predicates@.len() - i,
        {
            let pred = &self.predicates[i];
            if let Some(slot) = &slots[i] {
                if pred.op.eval(slot) {
                    proof {
                        let a = *old(mask);
                        let b = self.pred_mask(slots@, i as nat);
                        let c = pred.bit;
                        assert((a | b) | c == a | (b | c)) by (bit_vector);
                    }
                    *mask = *mask | pred.bit;
                }
            }
            i = i + 1;
        }
    }

    /// Evaluates each threshold on the value of its field, in order.
    pub fn eval_thresh(&self, values: &[Option<Float64>], mask: &mut BitMask, facts: &mut FactMap)
        requires
            self.well_formed(),
            values@.len() == self.thresholds@.len(),
        ensures
            *final(mask) == *old(mask) | self.thresh_mask(values@, self.thresholds@.len()),
            final(facts)@ == self.thresh_facts(
                values@,
                old(facts)@,
                self.thresholds@.len(),
            ),
    {
        proof {
            let m = *mask;
            assert(m == m | 0u64) by (bit_vector);
        }
        let mut i: usize = 0;
        while i < self.thresholds.len()
            invariant
                i <= self.thresholds@.len(),
                self.well_formed(),
                values@.len() == self.thresholds@.len(),
                *mask == *old(mask) | self.thresh_mask(values@, i as nat),
                facts@ == self.thresh_facts(values@, old(facts)@, i as nat),
            decreases self.thresholds@.len() - i,
        {
            if let Some(val) = values[i] {
                proof {
                    let a = *old(mask);
                    let b = self.thresh_mask(values@, i as nat);
                    let c = self.thresholds@[i as int].mask_of(val);
                    assert((a | b) | c == a | (b | c)) by (bit_vector);
                }
                self.thresholds[i].eval_value(val, mask, facts);
            }
            i = i + 1;
        }
    }

    /// Evaluates the pack on what a row gave: for each predicate the slot of its field, for
    /// each threshold the number of its field, `None` where the row has none.
    pub fn eval_lookups(&self, slots: &[Option<SlotValue<'_>>], values: &[Option<Float64>]) -> (r: (
        BitMask,
        FactMap,
    ))
        requires
            self.well_formed(),
            slots@.len() == self.predicates@.len(),
            values@.len() == self.thresholds@.len(),
        ensures
            r.0 == self.mask_of(slots@, values@),
            r.1@ == self.facts_of(values@),
    {
        let mut mask: BitMask = 0;
        let mut facts = FactMap::new();
        self.eval_preds(slots, &mut mask);
        self.eval_thresh(values, &mut mask, &mut facts);
        proof {
            let p = self.pred_mask(slots@, self.predicates@.len());
            let t = self.thresh_mask(values@, self.thresholds@.len());
            assert((0u64 | p) | t == p | t) by (bit_vector);
        }
        (mask, facts)
    }

    /// What a named row gives for the field of each predicate.
    pub open spec fn slot_lookups<'a>(&self, row: &SlotRow<'a>) -> Seq<Option<SlotValue<'a>>> {
        Seq::new(self.predicates@.len(), |i: int| row.slot_of(self.predicates@[i].field_id@))
    }

    /// What a named row gives for the field of each threshold: the field's number, and
    /// nothing where the row lacks the field or the field holds no binary64 number.
    pub open spec fn value_lookups(&self, row: &SlotRow<'_>) -> Seq<Option<Float64>> {
        Seq::new(self.thresholds@.len(), |j: int| row.number_of(self.thresholds@[j].field_id@))
    }

    /// Evaluates the pack against a named row.
    pub fn eval_row(&self, row: &SlotRow<'_>) -> (r: (BitMask, FactMap))
        requires
            self.well_formed(),
        ensures
            r.0 == self.mask_of(self.slot_lookups(row), self.value_lookups(row)),
            r.1@ == self.facts_of(self.value_lookups(row)),
    {
        let mut slots: Vec<Option<SlotValue<'_>>> = Vec::new();
        let mut i: usize = 0;
        while i < self.predicates.len()
            invariant
                i <= self.predicates@.len(),
                slots@.len() == i,
                forall|k: int|
                    0 <= k < i ==> #[trigger] slots@[k] == row.slot_of(
                        self.predicates@[k].field_id@,
                    ),
            decreases self.predicates@.len() - i,
        {
            let slot = match row.find(self.predicates[i].field_id) {
                Some(at) => Some(row.slots[at]),
                None => None,
            };
            slots.push(slot);
            i = i + 1;
        }
        let mut values: Vec<Option<Float64>> = Vec::new();
        let mut j: usize = 0;
        while j < self.thresholds.len()
            invariant
                j <= self.thresholds@.len(),
                values@.len() == j,
                forall|k: int|
                    0 <= k < j ==> #[trigger] values@[k] == row.number_of(
                        self.thresholds@[k].field_id@,
                    ),
            decreases self.thresholds@.len() - j,
        {
            let value = match row.find(self.thresholds[j].field_id) {
                Some(at) => match row.slots[at] {
                    SlotValue::F64(x) => Some(x),
                    _ => None,
                },
                None => None,
            };
            values.push(value);
            j = j + 1;
        }
        proof {
            assert(slots@ =~= self.slot_lookups(row));
            assert(values@ =~= self.value_lookups(row));
        }
        self.eval_lookups(slots.as_slice(), values.as_slice())
    }

    /// What a row's model holds for the field of each predicate.
    pub open spec fn row_slots<'a, R: RowAccess + ?Sized>(&self, row: &'a R) -> Seq<
        Option<SlotValue<'a>>,
    > {
        Seq::new(self.predicates@.len(), |i: int| row.slot_model(self.predicates@[i].field_id@))
    }

    /// What a row's model holds for the field of each threshold: the field's number, and
    /// nothing where the row lacks the field or the field holds no binary64 number.
    pub open spec fn row_values<R: RowAccess + ?Sized>(&self, row: &R) -> Seq<Option<Float64>> {
        Seq::new(
            self.thresholds@.len(),
            |j: int| number_in(row.slot_model(self.thresholds@[j].field_id@)),
        )
    }

    /// Evaluates the pack against a row: asks the row for the field of each predicate and
    /// of each threshold, in declaration order, and evaluates what the row gave.
    ///
    /// Of a row that answers from its model, the mask and the facts are those of what the
    /// model holds for the declared fields.
    pub fn eval<R: RowAccess + ?Sized>(&self, row: &R) -> (r: (BitMask, FactMap))
        requires
            self.well_formed(),
        ensures
            R::obeys_row_spec() ==> r.0 == self.mask_of(self.row_slots(row), self.row_values(row))
                && r.1@ == self.facts_of(self.row_values(row)),
            exists|slots: Seq<Option<SlotValue<'_>>>, values: Seq<Option<Float64>>|
                slots.len() == self.predicates@.len() && values.len() == self.thresholds@.len()
                    && r.0 == #[trigger] self.mask_of(slots, values) && r.1@ == self.facts_of(
                    values,
                ),
    {
        let mut slots: Vec<Option<SlotValue<'_>>> = Vec::new();
        let mut i: usize = 0;
        while i < self.predicates.len()
            invariant
                i <= self.predicates@.len(),
                slots@.len() == i,
                R::obeys_row_spec() ==> forall|k: int|
                    0 <= k < i ==> #[trigger] slots@[k] == row.slot_model(
                        self.predicates@[k].field_id@,
                    ),
            decreases self.predicates@.len() - i,
        {
            match row.get_slot(self.predicates[i].field_id) {
                Some(slot) => slots.push(Some(*slot)),
                None => slots.push(None),
            }
            i = i + 1;
        }
        let mut values: Vec<Option<Float64>> = Vec::new();
        let mut j: usize = 0;
        while j < self.thresholds.len()
            invariant
                j <= self.thresholds@.len(),
                values@.len() == j,
                R::obeys_row_spec() ==> forall|k: int|
                    0 <= k < j ==> #[trigger] values@[k] == number_in(
                        row.slot_model(self.thresholds@[k].field_id@),
                    ),
            decreases self.thresholds@.len() - j,
        {
            values.push(row.get_f64(self.thresholds[j].field_id));
            j = j + 1;
        }
        proof {
            if R::obeys_row_spec() {
                assert(slots@ =~= self.row_slots(row));
                assert(values@ =~= self.row_values(row));
            }
        }
        self.eval_lookups(slots.as_slice(), values.as_slice())
    }
}

/// A row without any of the fields sets no bit and records no fact.
pub proof fn lemma_all_missing<'a>(
    pack: &BitspecPack,
    slots: Seq<Option<SlotValue<'a>>>,
    values: Seq<Option<Float64>>,
)
    requires
        slots.len() == pack.predicates@.len(),
        values.len() == pack.thresholds@.len(),
        forall|i: int| 0 <= i < slots.len() ==> slots[i] is None,
        forall|i: int| 0 <= i < values.len() ==> values[i] is None,
    ensures
        pack.mask_of(slots, values) == 0,
        pack.facts_of(values) == Map::<Seq<char>, FactModel>::empty(),
{
    lemma_missing_prefix(pack, slots, values, slots.len(), values.len());
    assert(0u64 | 0u64 == 0u64) by (bit_vector);
}

proof fn lemma_missing_prefix<'a>(
    pack: &BitspecPack,
    slots: Seq<Option<SlotValue<'a>>>,
    values: Seq<Option<Float64>>,
    n: nat,
    m: nat,
)
    requires
        n <= slots.len() == pack.predicates@.len(),
        m <= values.len() == pack.thresholds@.len(),
        forall|i: int| 0 <= i < slots.len() ==> slots[i] is None,
        forall|i: int| 0 <= i < values.len() ==> values[i] is None,
    ensures
        pack.pred_mask(slots, n) == 0,
        pack.thresh_mask(values, m) == 0,
        pack.thresh_facts(values, Map::empty(), m) == Map::<Seq<char>, FactModel>::empty(),
    decreases n + m,
{
    if n > 0 {
        lemma_missing_prefix(pack, slots, values, (n - 1) as nat, m);
    } else if m > 0 {
        lemma_missing_prefix(pack, slots, values, n, (m - 1) as nat);
    }
}

/// A threshold whose field the row does not have leaves the mask and the facts as the
/// thresholds before it left them.
pub proof fn lemma_missing_threshold_skipped(
    pack: &BitspecPack,
    values: Seq<Option<Float64>>,
    t: int,
)
    requires
        0 <= t < pack.thresholds@.len(),
        values.len() == pack.thresholds@.len(),
        values[t] is None,
    ensures
        pack.thresh_mask(values, (t + 1) as nat) == pack.thresh_mask(values, t as nat),
        forall|start: Map<Seq<char>, FactModel>|
            #[trigger] pack.thresh_facts(values, start, (t + 1) as nat) == pack.thresh_facts(
                values,
                start,
                t as nat,
            ),
{
}

/// A bit that the predicates set is a bit of a predicate that fires.
pub proof fn lemma_pred_mask_bit<'a>(
    pack: &BitspecPack,
    slots: Seq<Option<SlotValue<'a>>>,
    n: nat,
    bit: u64,
)
    requires
        n <= pack.predicates@.len(),
        bit < 64,
        pack.pred_mask(slots, n) & (1u64 << bit) != 0,
    ensures
        exists|k: int|
            0 <= k < n && #[trigger] pack.fires(slots, k) && pack.predicates@[k].bit & (1u64 << bit)
                != 0,
    decreases n,
{
    if n == 0 {
        assert(0u64 & (1u64 << bit) == 0) by (bit_vector);
    } else {
        let before = pack.pred_mask(slots, (n - 1) as nat);
        if pack.fires(slots, n - 1) {
            let c = pack.predicates@[n - 1].bit;
            assert((before | c) & (1u64 << bit) != 0 ==> (before & (1u64 << bit) != 0 || c & (1u64
                << bit) != 0)) by (bit_vector);
            if before & (1u64 << bit) != 0 {
                lemma_pred_mask_bit(pack, slots, (n - 1) as nat, bit);
            }
        } else {
            lemma_pred_mask_bit(pack, slots, (n - 1) as nat, bit);
        }
    }
}

/// A bit that the thresholds set is the bit of a level that fires on the value of its
/// threshold.
pub proof fn lemma_thresh_mask_bit(
    pack: &BitspecPack,
    values: Seq<Option<Float64>>,
    n: nat,
    bit: u16,
)
    requires
        n <= pack.thresholds@.len(),
        pack.well_formed(),
        bit < 64,
        pack.thresh_mask(values, n) & (1u64 << bit) != 0,
    ensures
        exists|t: int, l: int|
            0 <= t < n && 0 <= l < pack.thresholds@[t].levels@.len() && values[t] is Some
                && (#[trigger] pack.thresholds@[t].levels@[l]).bit == bit,
    decreases n,
{
    if n == 0 {
        assert(0u64 & (1u64 << bit) == 0) by (bit_vector);
    } else {
        let before = pack.thresh_mask(values, (n - 1) as nat);
        match values[n - 1] {
            Some(val) => {
                let th = pack.thresholds@[n - 1];
                let c = th.mask_of(val);
                assert((before | c) & (1u64 << bit) != 0 ==> (before & (1u64 << bit) != 0 || c & (
                1u64 << bit) != 0)) by (bit_vector);
                if before & (1u64 << bit) != 0 {
                    lemma_thresh_mask_bit(pack, values, (n - 1) as nat, bit);
                } else {
                    assert(th.well_formed());
                    lemma_fired_mask(th.levels@, th.threshold_op, val, th.levels@.len(), bit);
                    let l = choose|l: int|
                        0 <= l < th.levels@.len() && passes(
                            th.threshold_op,
                            val,
                            (#[trigger] th.levels@[l]).value,
                        ) && th.levels@[l].bit == bit;
                    assert(pack.thresholds@[n - 1].levels@[l].bit == bit);
                }
            },
            None => {
                lemma_thresh_mask_bit(pack, values, (n - 1) as nat, bit);
            },
        }
    }
}

/// The bits of a threshold's levels come after those of every threshold before it.
pub proof fn lemma_level_base_grows(pack: &BitspecPack, a: int, b: int)
    requires
        0 <= a <= b <= pack.thresholds@.len(),
    ensures
        pack.predicates@.len() <= pack.level_base(a) <= pack.level_base(b),
        a < b ==> pack.level_base(a) + pack.thresholds@[a].levels@.len() <= pack.level_base(b),
    decreases b,
{
    if a < b {
        lemma_level_base_grows(pack, a, b - 1);
    } else if a > 0 {
        lemma_level_base_grows(pack, 0, a - 1);
        lemma_level_base_grows(pack, a - 1, a - 1);
    }
}

/// In a pack whose bits are laid out, a predicate whose field the row does not have
/// leaves its bit unset.
pub proof fn lemma_missing_predicate<'a>(
    pack: &BitspecPack,
    slots: Seq<Option<SlotValue<'a>>>,
    values: Seq<Option<Float64>>,
    i: int,
)
    requires
        pack.well_formed(),
        pack.laid_out(),
        slots.len() == pack.predicates@.len(),
        values.len() == pack.thresholds@.len(),
        0 <= i < slots.len(),
        slots[i] is None,
    ensures
        pack.mask_of(slots, values) & pack.predicates@[i].bit == 0,
{
    let pm = pack.pred_mask(slots, pack.predicates@.len());
    let tm = pack.thresh_mask(values, pack.thresholds@.len());
    let b: u64 = i as u64;
    lemma_level_base_grows(pack, 0, pack.thresholds@.len() as int);
    assert(pack.predicates@[i].bit == 1u64 << b);
    assert((pm | tm) & (1u64 << b) != 0 ==> (pm & (1u64 << b) != 0 || tm & (1u64 << b) != 0))
        by (bit_vector);
    if pm & (1u64 << b) != 0 {
        lemma_pred_mask_bit(pack, slots, pack.predicates@.len(), b);
        let k = choose|k: int|
            0 <= k < pack.predicates@.len() && #[trigger] pack.fires(slots, k)
                && pack.predicates@[k].bit & (1u64 << b) != 0;
        let kk: u64 = k as u64;
        assert(pack.predicates@[k].bit == 1u64 << kk);
        assert((1u64 << kk) & (1u64 << b) != 0 ==> kk == b) by (bit_vector)
            requires
                kk < 64,
                b < 64,
        ;
        assert(false);
    }
    if tm & (1u64 << b) != 0 {
        lemma_thresh_mask_bit(pack, values, pack.thresholds@.len(), b as u16);
        let (t, l) = choose|t: int, l: int|
            0 <= t < pack.thresholds@.len() && 0 <= l < pack.thresholds@[t].levels@.len()
                && values[t] is Some && (#[trigger] pack.thresholds@[t].levels@[l]).bit == b as u16;
        lemma_level_base_grows(pack, 0, t);
        assert(false);
    }
}

/// In a pack whose bits are laid out, a threshold whose field the row does not have
/// leaves the bits of all its levels unset.
pub proof fn lemma_missing_threshold<'a>(
    pack: &BitspecPack,
    slots: Seq<Option<SlotValue<'a>>>,
    values: Seq<Option<Float64>>,
    t: int,
    l: int,
)
    requires
        pack.well_formed(),
        pack.laid_out(),
        slots.len() == pack.predicates@.len(),
        values.len() == pack.thresholds@.len(),
        0 <= t < values.len(),
        0 <= l < pack.thresholds@[t].levels@.len(),
        values[t] is None,
    ensures
        pack.mask_of(slots, values) & (1u64 << pack.thresholds@[t].levels@[l].bit) == 0,
{
    let pm = pack.pred_mask(slots, pack.predicates@.len());
    let tm = pack.thresh_mask(values, pack.thresholds@.len());
    let bit: u16 = pack.thresholds@[t].levels@[l].bit;
    let b: u64 = bit as u64;
    lemma_level_base_grows(pack, 0, t);
    lemma_level_base_grows(pack, t, pack.thresholds@.len() as int);
    assert(bit == pack.level_base(t) + l);
    assert(1u64 << bit == 1u64 << b) by (bit_vector)
        requires
            b == bit,
    ;
    assert((pm | tm) & (1u64 << b) != 0 ==> (pm & (1u64 << b) != 0 || tm & (1u64 << b) != 0))
        by (bit_vector);
    if pm & (1u64 << b) != 0 {
        lemma_pred_mask_bit(pack, slots, pack.predicates@.len(), b);
        let k = choose|k: int|
            0 <= k < pack.predicates@.len() && #[trigger] pack.fires(slots, k)
                && pack.predicates@[k].bit & (1u64 << b) != 0;
        let kk: u64 = k as u64;
        assert(pack.predicates@[k].bit == 1u64 << kk);
        assert((1u64 << kk) & (1u64 << b) != 0 ==> kk == b) by (bit_vector)
            requires
                kk < 64,
                b < 64,
        ;
        assert(false);
    }
    if tm & (1u64 << b) != 0 {
        lemma_thresh_mask_bit(pack, values, pack.thresholds@.len(), bit);
        let (u, m) = choose|u: int, m: int|
            0 <= u < pack.thresholds@.len() && 0 <= m < pack.thresholds@[u].levels@.len()
                && values[u] is Some && (#[trigger] pack.thresholds@[u].levels@[m]).bit == bit;
        if u < t {
            lemma_level_base_grows(pack, u, t);
        } else if u > t {
            lemma_level_base_grows(pack, t, u);
        }
        assert(false);
    }
}

/// In a pack whose bits are laid out, a named row that lacks the field of a predicate
/// leaves the predicate's bit unset, and one that lacks the field of a threshold, or holds
/// no binary64 number in it, leaves the bits of all the threshold's levels unset.
pub proof fn lemma_row_missing_field<'a>(pack: &BitspecPack, row: &SlotRow<'a>)
    requires
        pack.well_formed(),
        pack.laid_out(),
    ensures
        forall|i: int|
            0 <= i < pack.predicates@.len() && row.slot_of(
                (#[trigger] pack.predicates@[i]).field_id@,
            ) is None ==> pack.mask_of(pack.slot_lookups(row), pack.value_lookups(row))
                & pack.predicates@[i].bit == 0,
        forall|t: int, l: int|
            0 <= t < pack.thresholds@.len() && 0 <= l < pack.thresholds@[t].levels@.len()
                && row.number_of(pack.thresholds@[t].field_id@) is None ==> pack.mask_of(
                pack.slot_lookups(row),
                pack.value_lookups(row),
            ) & (1u64 << (#[trigger] pack.thresholds@[t].levels@[l]).bit) == 0,
{
    let slots = pack.slot_lookups(row);
    let values = pack.value_lookups(row);
    assert forall|i: int|
        0 <= i < pack.predicates@.len() && row.slot_of(
            (#[trigger] pack.predicates@[i]).field_id@,
        ) is None implies pack.mask_of(slots, values) & pack.predicates@[i].bit == 0 by {
        lemma_missing_predicate(pack, slots, values, i);
    }
    assert forall|t: int, l: int|
        0 <= t < pack.thresholds@.len() && 0 <= l < pack.thresholds@[t].levels@.len()
            && row.number_of(pack.thresholds@[t].field_id@) is None implies pack.mask_of(
            slots,
            values,
        ) & (1u64 << (#[trigger] pack.thresholds@[t].levels@[l]).bit) == 0 by {
        lemma_missing_threshold(pack, slots, values, t, l);
    }
}

} // verus!
