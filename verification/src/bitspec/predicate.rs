//! Predicates over the value of one field.
use vstd::prelude::*;
use crate::num::Float64;
use crate::text::{contains, has_infix, has_prefix, starts_with, str_eq};
use crate::wire::slot::SlotValue;

verus! {

/// A test of one decoded value: a comparison, or a combination of tests.
#[derive(Debug)]
pub enum PredOp {
    EqF64(Float64),
    GtF64(Float64),
    LtF64(Float64),
    BetweenF64 { lo: Float64, hi: Float64 },
    EqBool(bool),
    EqStr(&'static str),
    NeStr(&'static str),
    StartsWith(&'static str),
    Contains(&'static str),
    ModEq { m: u64, r: u64 },
    ModNe { m: u64, r: u64 },
    All(Vec<PredOp>),
    Any(Vec<PredOp>),
    Not(Box<PredOp>),
}

impl PredOp {
    /// Whether the test holds of a value.
    ///
    /// A comparison holds only of a slot of its own kind. A remainder by the modulus zero
    /// does not exist, so neither `ModEq` nor `ModNe` holds with it. `All` of nothing holds,
    /// `Any` of nothing does not.
    pub open spec fn holds(&self, slot: SlotValue<'_>) -> bool
        decreases self,
    {
        match self {
            PredOp::EqF64(v) => slot matches SlotValue::F64(x) && x.spec_num_eq(*v),
            PredOp::GtF64(v) => slot matches SlotValue::F64(x) && v.spec_lt(x),
            PredOp::LtF64(v) => slot matches SlotValue::F64(x) && x.spec_lt(*v),
            PredOp::BetweenF64 { lo, hi } => slot matches SlotValue::F64(x) && lo.spec_le(x)
                && x.spec_le(*hi),
            PredOp::EqBool(v) => slot matches SlotValue::Bool(x) && x == *v,
            PredOp::EqStr(s) => slot matches SlotValue::Str(x) && x@ == s@,
            PredOp::NeStr(s) => slot matches SlotValue::Str(x) && x@ != s@,
            PredOp::StartsWith(s) => slot matches SlotValue::Str(x) && has_prefix(x@, s@),
            PredOp::Contains(s) => slot matches SlotValue::Str(x) && has_infix(x@, s@),
            PredOp::ModEq { m, r } => slot matches SlotValue::U64(x) && *m != 0 && x % *m == *r,
            PredOp::ModNe { m, r } => slot matches SlotValue::U64(x) && *m != 0 && x % *m != *r,
            PredOp::All(list) => forall|i: int|
                0 <= i < list@.len() ==> (#[trigger] list@[i]).holds(slot),
            PredOp::Any(list) => exists|i: int|
                0 <= i < list@.len() && (#[trigger] list@[i]).holds(slot),
            PredOp::Not(inner) => !inner.holds(slot),
        }
    }

    /// Evaluates the test against one decoded value.
    #[verifier::loop_isolation(false)]
    pub fn eval(&self, slot: &SlotValue<'_>) -> (r: bool)
        ensures
            r == self.holds(*slot),
        decreases self,
    {
        match self {
            PredOp::EqF64(v) => match slot {
                SlotValue::F64(x) => x.num_eq(v),
                _ => false,
            },
            PredOp::GtF64(v) => match slot {
                SlotValue::F64(x) => x.gt(v),
                _ => false,
            },
            PredOp::LtF64(v) => match slot {
                SlotValue::F64(x) => x.lt(v),
                _ => false,
            },
            PredOp::BetweenF64 { lo, hi } => match slot {
                SlotValue::F64(x) => x.ge(lo) && x.le(hi),
                _ => false,
            },
            PredOp::EqBool(v) => match slot {
                SlotValue::Bool(x) => *x == *v,
                _ => false,
            },
            PredOp::EqStr(s) => match slot {
                SlotValue::Str(x) => str_eq(x, s),
                _ => false,
            },
            PredOp::NeStr(s) => match slot {
                SlotValue::Str(x) => !str_eq(x, s),
                _ => false,
            },
            PredOp::StartsWith(s) => match slot {
                SlotValue::Str(x) => starts_with(x, s),
                _ => false,
            },
            PredOp::Contains(s) => match slot {
                SlotValue::Str(x) => contains(x, s),
                _ => false,
            },
            PredOp::ModEq { m, r } => match slot {
                SlotValue::U64(x) => *m != 0 && *x % *m == *r,
                _ => false,
            },
            PredOp::ModNe { m, r } => match slot {
                SlotValue::U64(x) => *m != 0 && *x % *m != *r,
                _ => false,
            },
            PredOp::All(list) => {
                let mut i: usize = 0;
                while i < list.len()
                    invariant
                        i <= list@.len(),
                        forall|j: int| 0 <= j < i ==> (#[trigger] list@[j]).holds(*slot),
                    decreases list@.len() - i,
                {
                    proof {
                        vstd::std_specs::vec::axiom_vec_index_decreases(*list, i as int);
                    }
                    if !list[i].eval(slot) {
                        return false;
                    }
                    i = i + 1;
                }
                true
            },
            PredOp::Any(list) => {
                let mut i: usize = 0;
                while i < list.len()
                    invariant
                        i <= list@.len(),
                        forall|j: int| 0 <= j < i ==> !(#[trigger] list@[j]).holds(*slot),
                    decreases list@.len() - i,
                {
                    proof {
                        vstd::std_specs::vec::axiom_vec_index_decreases(*list, i as int);
                    }
                    if list[i].eval(slot) {
                        return true;
                    }
                    i = i + 1;
                }
                false
            },
            PredOp::Not(inner) => !inner.eval(slot),
        }
    }
}

/// One predicate of a pack: the field it reads, the mask of its bit, and its test.
#[derive(Debug)]
pub struct PredicateSpec {
    pub field_id: &'static str,
    pub bit: u64,
    pub op: PredOp,
}

} // verus!
