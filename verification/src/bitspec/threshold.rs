//! Thresholds: named cutoffs on one numeric field, each with its own bit.
//!
//! Every level whose cutoff the value passes sets its bit. The level that is recorded as a
//! fact is, among the levels that fired, the one with the numerically highest cutoff; among
//! equal cutoffs, the one declared first.
use vstd::prelude::*;
use vstd::string::StringExecFns;
use crate::bitspec::facts::{FactMap, FactModel, FactValue};
use crate::bitspec::row::{number_in, RowAccess};
use crate::bitspec::BitMask;
use crate::num::Float64;
use crate::text::str_eq;

verus! {

/// The comparison that a threshold applies to each of its levels.
#[derive(Debug, Clone, Copy, PartialEq, Eq, Structural)]
pub enum ThresholdOp {
    Gt,
    Gte,
    Lt,
    Lte,
    Eq,
}

/// One level of a threshold: its name, its cutoff and the place of its bit.
#[derive(Debug, Clone, Copy)]
pub struct ThresholdLevel {
    pub name: &'static str,
    pub value: Float64,
    pub bit: u16,
}

/// A threshold on one field.
#[derive(Debug)]
pub struct ThresholdSpec {
    pub field_id: &'static str,
    /// The name of the fact that records the winning level, if one is recorded.
    pub fact_key: Option<&'static str>,
    /// Flag groups: the name of a fact, and the names of the levels that may win it.
    pub flags: Vec<(&'static str, Vec<&'static str>)>,
    pub threshold_op: ThresholdOp,
    pub levels: Vec<ThresholdLevel>,
}

/// Whether a value passes a cutoff under a comparison. The value stands on the left:
/// under `Gt` it passes where it is greater than the cutoff.
pub open spec fn passes(op: ThresholdOp, val: Float64, cutoff: Float64) -> bool {
    match op {
        ThresholdOp::Gt => cutoff.spec_lt(val),
        ThresholdOp::Gte => cutoff.spec_le(val),
        ThresholdOp::Lt => val.spec_lt(cutoff),
        ThresholdOp::Lte => val.spec_le(cutoff),
        ThresholdOp::Eq => val.spec_num_eq(cutoff),
    }
}

/// The set of the names in a list.
pub open spec fn names_of(list: Seq<&'static str>) -> Set<Seq<char>> {
    Set::new(|n: Seq<char>| exists|i: int| 0 <= i < list.len() && (#[trigger] list[i])@ == n)
}

/// The names of the levels, among the first `n`, whose cutoff the value passes.
pub open spec fn fired_names(
    levels: Seq<ThresholdLevel>,
    op: ThresholdOp,
    val: Float64,
    n: nat,
) -> Seq<&'static str>
    decreases n,
{
    if n == 0 {
        Seq::empty()
    } else {
        let before = fired_names(levels, op, val, (n - 1) as nat);
        if passes(op, val, levels[n - 1].value) {
            before.push(levels[n - 1].name)
        } else {
            before
        }
    }
}

/// The bits of the levels, among the first `n`, whose cutoff the value passes.
pub open spec fn fired_mask(levels: Seq<ThresholdLevel>, op: ThresholdOp, val: Float64, n: nat) -> u64
    decreases n,
{
    if n == 0 {
        0
    } else {
        let before = fired_mask(levels, op, val, (n - 1) as nat);
        if passes(op, val, levels[n - 1].value) {
            before | (1u64 << levels[n - 1].bit)
        } else {
            before
        }
    }
}

/// The names, among the first `n` of a list, that are members of a set.
pub open spec fn members(list: Seq<&'static str>, set: Set<Seq<char>>, n: nat) -> Seq<&'static str>
    decreases n,
{
    if n == 0 {
        Seq::empty()
    } else {
        let before = members(list, set, (n - 1) as nat);
        if set.contains(list[n - 1]@) {
            before.push(list[n - 1])
        } else {
            before
        }
    }
}

/// The place of the winning level among the first `n`: of the levels whose name is a
/// candidate, the one with the highest cutoff, and the first declared among equals.
pub open spec fn best_index(levels: Seq<ThresholdLevel>, candidates: Set<Seq<char>>, n: nat) -> Option<
    int,
>
    decreases n,
{
    if n == 0 {
        None
    } else {
        let before = best_index(levels, candidates, (n - 1) as nat);
        if candidates.contains(levels[n - 1].name@) {
            match before {
                None => Some(n - 1),
                Some(j) => if levels[j].value.spec_lt(levels[n - 1].value) {
                    Some(n - 1)
                } else {
                    Some(j)
                },
            }
        } else {
            before
        }
    }
}

/// The facts after the winner among `candidates` has been recorded under `key`;
/// the facts as they were where no candidate fired.
pub open spec fn with_winner(
    facts: Map<Seq<char>, FactModel>,
    levels: Seq<ThresholdLevel>,
    candidates: Set<Seq<char>>,
    key: Seq<char>,
) -> Map<Seq<char>, FactModel> {
    match best_index(levels, candidates, levels.len()) {
        Some(i) => facts.insert(key, FactModel::Str(levels[i].name@)),
        None => facts,
    }
}

/// Whether a name is in a list.
pub fn contains_name(list: &[&'static str], name: &str) -> (r: bool)
    ensures
        r == names_of(list@).contains(name@),
{
    let mut i: usize = 0;
    while i < list.len()
        invariant
            i <= list@.len(),
            forall|j: int| 0 <= j < i ==> (#[trigger] list@[j])@ != name@,
        decreases list@.len() - i,
    {
        if str_eq(list[i], name) {
            return true;
        }
        i = i + 1;
    }
    false
}

/// The name of the winning level: of the levels whose name is in `triggered`, the one with
/// the highest cutoff, and the first declared among equals.
pub fn best_level(levels: &[ThresholdLevel], triggered: &[&'static str]) -> (r: Option<&'static str>)
    ensures
        match best_index(levels@, names_of(triggered@), levels@.len()) {
            Some(i) => r == Some(levels@[i].name),
            None => r is None,
        },
{
    let mut best: Option<usize> = None;
    let mut i: usize = 0;
    while i < levels.len()
        invariant
            i <= levels@.len(),
            match best_index(levels@, names_of(triggered@), i as nat) {
                Some(j) => best == Some(j as usize) && 0 <= j < i,
                None => best is None,
            },
        decreases levels@.len() - i,
    {
        if contains_name(triggered, levels[i].name) {
            match best {
                None => {
                    best = Some(i);
                },
                Some(j) => {
                    if levels[i].value.gt(&levels[j].value) {
                        best = Some(i);
                    }
                },
            }
        }
        i = i + 1;
    }
    match best {
        Some(j) => Some(levels[j].name),
        None => None,
    }
}

impl ThresholdSpec {
    /// Whether every level's bit has a place in the mask.
    pub open spec fn well_formed(&self) -> bool {
        forall|i: int| 0 <= i < self.levels@.len() ==> (#[trigger] self.levels@[i]).bit < 64
    }

    /// Whether every level's bit has a place in the mask.
    pub fn is_well_formed(&self) -> (r: bool)
        ensures
            r == self.well_formed(),
    {
        let mut i: usize = 0;
        while i < self.levels.len()
            invariant
                i <= self.levels@.len(),
                forall|j: int| 0 <= j < i ==> (#[trigger] self.levels@[j]).bit < 64,
            decreases self.levels@.len() - i,
        {
            if self.levels[i].bit >= 64 {
                return false;
            }
            i = i + 1;
        }
        true
    }

    /// The bits that a value sets.
    pub open spec fn mask_of(&self, val: Float64) -> u64 {
        fired_mask(self.levels@, self.threshold_op, val, self.levels@.len())
    }

    /// The names of the levels that fire on a value.
    pub open spec fn fired(&self, val: Float64) -> Set<Seq<char>> {
        names_of(fired_names(self.levels@, self.threshold_op, val, self.levels@.len()))
    }

    /// The candidates of flag group `f`: the names of the group that fired.
    pub open spec fn group_candidates(&self, val: Float64, f: int) -> Set<Seq<char>> {
        names_of(members(self.flags@[f].1@, self.fired(val), self.flags@[f].1@.len()))
    }

    /// The facts after the first `n` flag groups have recorded their winners.
    pub open spec fn with_groups(
        &self,
        val: Float64,
        facts: Map<Seq<char>, FactModel>,
        n: nat,
    ) -> Map<Seq<char>, FactModel>
        decreases n,
    {
        if n == 0 {
            facts
        } else {
            with_winner(
                self.with_groups(val, facts, (n - 1) as nat),
                self.levels@,
                self.group_candidates(val, n - 1),
                self.flags@[n - 1].0@,
            )
        }
    }

    /// The facts after a value has been evaluated: the winner among all levels that fired is
    /// recorded under the fact key, if there is one; then each flag group records, under its
    /// own name, the winner among those of its levels that fired.
    pub open spec fn facts_of(&self, val: Float64, facts: Map<Seq<char>, FactModel>) -> Map<
        Seq<char>,
        FactModel,
    > {
        let first = match self.fact_key {
            Some(key) => with_winner(facts, self.levels@, self.fired(val), key@),
            None => facts,
        };
        self.with_groups(val, first, self.flags@.len())
    }

    /// Evaluates the threshold on the value of its field.
    pub fn eval_value(&self, val: Float64, out_mask: &mut BitMask, out_facts: &mut FactMap)
        requires
            self.well_formed(),
        ensures
            *final(out_mask) == *old(out_mask) | self.mask_of(val),
            final(out_facts)@ == self.facts_of(val, old(out_facts)@),
    {
        let mut triggered: Vec<&'static str> = Vec::new();
        let mut i: usize = 0;
        proof {
            let m = *out_mask;
            assert(m == m | 0u64) by (bit_vector);
        }
        while i < self.levels.len()
            invariant
                i <= self.levels@.len(),
                self.well_formed(),
                out_facts@ == old(out_facts)@,
                *out_mask == *old(out_mask) | fired_mask(
                    self.levels@,
                    self.threshold_op,
                    val,
                    i as nat,
                ),
                triggered@ == fired_names(self.levels@, self.threshold_op, val, i as nat),
            decreases self.levels@.len() - i,
        {
            let lvl = &self.levels[i];
            let pass: bool = match self.threshold_op {
                ThresholdOp::Gt => val.gt(&lvl.value),
                ThresholdOp::Gte => val.ge(&lvl.value),
                ThresholdOp::Lt => val.lt(&lvl.value),
                ThresholdOp::Lte => val.le(&lvl.value),
                ThresholdOp::Eq => val.num_eq(&lvl.value),
            };
            if pass {
                proof {
                    let a = *old(out_mask);
                    let b = fired_mask(self.levels@, self.threshold_op, val, i as nat);
                    let c = 1u64 << lvl.bit;
                    assert((a | b) | c == a | (b | c)) by (bit_vector);
                }
                *out_mask = *out_mask | (1u64 << lvl.bit);
                triggered.push(lvl.name);
            }
            i = i + 1;
        }
        if let Some(key) = self.fact_key {
            if let Some(best) = best_level(self.levels.as_slice(), triggered.as_slice()) {
                out_facts.insert(key, FactValue::Str(String::from_str(best)));
            }
        }
        let ghost first = out_facts@;
        let mut f: usize = 0;
        while f < self.flags.len()
            invariant
                f <= self.flags@.len(),
                triggered@ == fired_names(
                    self.levels@,
                    self.threshold_op,
                    val,
                    self.levels@.len(),
                ),
                out_facts@ == self.with_groups(val, first, f as nat),
            decreases self.flags@.len() - f,
        {
            let flag: &'static str = self.flags[f].0;
            let list = &self.flags[f].1;
            let mut relevant: Vec<&'static str> = Vec::new();
            let mut k: usize = 0;
            while k < list.len()
                invariant
                    k <= list@.len(),
                    relevant@ == members(list@, names_of(triggered@), k as nat),
                decreases list@.len() - k,
            {
                if contains_name(triggered.as_slice(), list[k]) {
                    relevant.push(list[k]);
                }
                k = k + 1;
            }
            if let Some(best) = best_level(self.levels.as_slice(), relevant.as_slice()) {
                out_facts.insert(flag, FactValue::Str(String::from_str(best)));
            }
            f = f + 1;
        }
    }

    /// Evaluates the threshold against a row. Where the row has no number for the field,
    /// nothing is set and nothing recorded; else the row's number is evaluated.
    ///
    /// Of a row that answers from its model, the number is the one that the model holds for
    /// the threshold's field. Of any row, the outcome is that of the number that the row gave.
    pub fn eval<R: RowAccess + ?Sized>(&self, row: &R, out_mask: &mut BitMask, out_facts: &mut FactMap)
        requires
            self.well_formed(),
        ensures
            R::obeys_row_spec() ==> match number_in(row.slot_model(self.field_id@)) {
                Some(val) => *final(out_mask) == *old(out_mask) | self.mask_of(val)
                    && final(out_facts)@ == self.facts_of(val, old(out_facts)@),
                None => *final(out_mask) == *old(out_mask) && final(out_facts)@ == old(
                    out_facts,
                )@,
            },
            (*final(out_mask) == *old(out_mask) && final(out_facts)@ == old(out_facts)@)
                || exists|val: Float64|
                *final(out_mask) == *old(out_mask) | #[trigger] self.mask_of(val)
                    && final(out_facts)@ == self.facts_of(val, old(out_facts)@),
    {
        match row.get_f64(self.field_id) {
            Some(val) => {
                self.eval_value(val, out_mask, out_facts);
            },
            None => {},
        }
    }
}

/// A name is among the fired names exactly when a level of that name passes.
pub proof fn lemma_fired_names(
    levels: Seq<ThresholdLevel>,
    op: ThresholdOp,
    val: Float64,
    n: nat,
    name: Seq<char>,
)
    requires
        n <= levels.len(),
    ensures
        names_of(fired_names(levels, op, val, n)).contains(name) <==> exists|i: int|
            0 <= i < n && passes(op, val, (#[trigger] levels[i]).value) && levels[i].name@ == name,
    decreases n,
{
    if n > 0 {
        let before = fired_names(levels, op, val, (n - 1) as nat);
        let now = fired_names(levels, op, val, n);
        lemma_fired_names(levels, op, val, (n - 1) as nat, name);
        if passes(op, val, levels[n - 1].value) {
            assert(now[now.len() - 1] == levels[n - 1].name);
            if names_of(before).contains(name) {
                let i = choose|i: int| 0 <= i < before.len() && (#[trigger] before[i])@ == name;
                assert(now[i]@ == name);
            }
            if names_of(now).contains(name) {
                let i = choose|i: int| 0 <= i < now.len() && (#[trigger] now[i])@ == name;
                if i < before.len() {
                    assert(before[i]@ == name);
                }
            }
        }
    }
}

/// A name is among the members exactly when it is in the list and in the set.
pub proof fn lemma_members(list: Seq<&'static str>, set: Set<Seq<char>>, n: nat, name: Seq<char>)
    requires
        n <= list.len(),
    ensures
        names_of(members(list, set, n)).contains(name) <==> set.contains(name) && names_of(
            list.take(n as int),
        ).contains(name),
    decreases n,
{
    if n > 0 {
        let before = members(list, set, (n - 1) as nat);
        let now = members(list, set, n);
        lemma_members(list, set, (n - 1) as nat, name);
        let shorter = list.take(n - 1);
        let longer = list.take(n as int);
        if names_of(shorter).contains(name) {
            let i = choose|i: int| 0 <= i < shorter.len() && (#[trigger] shorter[i])@ == name;
            assert(longer[i]@ == name);
        }
        if names_of(longer).contains(name) {
            let i = choose|i: int| 0 <= i < longer.len() && (#[trigger] longer[i])@ == name;
            if i < n - 1 {
                assert(shorter[i]@ == name);
            } else {
                assert(list[n - 1]@ == name);
            }
        }
        if list[n - 1]@ == name {
            assert(longer[n - 1]@ == name);
        }
        if set.contains(list[n - 1]@) {
            assert(now[now.len() - 1] == list[n - 1]);
            if names_of(before).contains(name) {
                let i = choose|i: int| 0 <= i < before.len() && (#[trigger] before[i])@ == name;
                assert(now[i]@ == name);
            }
            if names_of(now).contains(name) {
                let i = choose|i: int| 0 <= i < now.len() && (#[trigger] now[i])@ == name;
                if i < before.len() {
                    assert(before[i]@ == name);
                }
            }
        }
    }
}

/// The winner is a candidate with the highest cutoff, and the first declared among equals.
///
/// Where no cutoff is a NaN: there is a winner exactly when a level is a candidate; no
/// candidate has a higher cutoff than the winner; and every candidate declared before the
/// winner has a lower one.
pub proof fn lemma_best_is_highest(levels: Seq<ThresholdLevel>, candidates: Set<Seq<char>>, n: nat)
    requires
        n <= levels.len(),
        forall|i: int| 0 <= i < n ==> !(#[trigger] levels[i]).value.nan(),
    ensures
        match best_index(levels, candidates, n) {
            Some(b) => {
                &&& 0 <= b < n
                &&& candidates.contains(levels[b].name@)
                &&& forall|j: int|
                    0 <= j < n && candidates.contains((#[trigger] levels[j]).name@)
                        ==> levels[j].value.spec_le(levels[b].value)
                &&& forall|j: int|
                    0 <= j < b && candidates.contains((#[trigger] levels[j]).name@)
                        ==> levels[j].value.spec_lt(levels[b].value)
            },
            None => forall|j: int| 0 <= j < n ==> !candidates.contains((#[trigger] levels[j]).name@),
        },
    decreases n,
{
    if n > 0 {
        lemma_best_is_highest(levels, candidates, (n - 1) as nat);
    }
}

/// A bit is set in the fired mask exactly when a level with that bit passes.
pub proof fn lemma_fired_mask(
    levels: Seq<ThresholdLevel>,
    op: ThresholdOp,
    val: Float64,
    n: nat,
    bit: u16,
)
    requires
        n <= levels.len(),
        bit < 64,
        forall|i: int| 0 <= i < n ==> (#[trigger] levels[i]).bit < 64,
    ensures
        fired_mask(levels, op, val, n) & (1u64 << bit) != 0 <==> exists|i: int|
            0 <= i < n && passes(op, val, (#[trigger] levels[i]).value) && levels[i].bit == bit,
    decreases n,
{
    if n == 0 {
        assert(0u64 & (1u64 << bit) == 0) by (bit_vector);
    } else {
        lemma_fired_mask(levels, op, val, (n - 1) as nat, bit);
        let before = fired_mask(levels, op, val, (n - 1) as nat);
        let c = levels[n - 1].bit;
        assert(((before | (1u64 << c)) & (1u64 << bit) != 0) <==> ((before & (1u64 << bit) != 0)
            || c == bit)) by (bit_vector)
            requires
                c < 64,
                bit < 64,
        ;
    }
}

} // verus!
