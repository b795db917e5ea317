//! Packs from the declarations of a type's predicates and thresholds.
use vstd::prelude::*;
use crate::bitspec::pack::BitspecPack;
use crate::bitspec::predicate::{PredOp, PredicateSpec};
use crate::bitspec::threshold::{ThresholdLevel, ThresholdOp, ThresholdSpec};
use crate::descriptor::error::DescriptorError;
use crate::num::Float64;
use crate::text::str_eq;

verus! {

/// A predicate as it was declared on a field.
#[derive(Debug)]
pub struct ParsedPredicate {
    pub field_id: &'static str,
    pub rule_name: &'static str,
    pub op: PredOp,
}

/// A threshold as it was declared on a field.
#[derive(Debug)]
pub struct ParsedThreshold {
    pub field_id: &'static str,
    pub rule_name: &'static str,
    pub fact: Option<&'static str>,
    pub flags: Vec<(&'static str, Vec<&'static str>)>,
    /// The name of the comparison.
    pub op: Option<&'static str>,
    /// The levels: their names and cutoffs, in declaration order.
    pub levels: Vec<(&'static str, Float64)>,
}

/// The predicates and thresholds of a type, each list in declaration order.
#[derive(Debug)]
pub struct ParsedBitspec {
    pub preds: Vec<ParsedPredicate>,
    pub thresh: Vec<ParsedThreshold>,
}

/// The comparison that a word names.
pub open spec fn op_named(word: Seq<char>) -> Option<ThresholdOp> {
    if word == "gt"@ {
        Some(ThresholdOp::Gt)
    } else if word == "gte"@ {
        Some(ThresholdOp::Gte)
    } else if word == "lt"@ {
        Some(ThresholdOp::Lt)
    } else if word == "lte"@ {
        Some(ThresholdOp::Lte)
    } else if word == "eq"@ {
        Some(ThresholdOp::Eq)
    } else {
        None
    }
}

/// The comparison that a word names.
pub fn parse_threshold_op(word: &str) -> (r: Option<ThresholdOp>)
    ensures
        r == op_named(word@),
{
    if str_eq(word, "gt") {
        Some(ThresholdOp::Gt)
    } else if str_eq(word, "gte") {
        Some(ThresholdOp::Gte)
    } else if str_eq(word, "lt") {
        Some(ThresholdOp::Lt)
    } else if str_eq(word, "lte") {
        Some(ThresholdOp::Lte)
    } else if str_eq(word, "eq") {
        Some(ThresholdOp::Eq)
    } else {
        None
    }
}

/// The number of bits that the predicates and the levels of the first `n` thresholds need.
pub open spec fn bits_needed(preds: Seq<ParsedPredicate>, thresh: Seq<ParsedThreshold>, n: int) -> int
    decreases n,
{
    if n <= 0 {
        preds.len() as int
    } else {
        bits_needed(preds, thresh, n - 1) + thresh[n - 1].levels@.len()
    }
}

/// The comparison of a declared threshold, or why it has none.
pub open spec fn threshold_op_of(decl: &ParsedThreshold, index: usize) -> Result<
    ThresholdOp,
    DescriptorError,
> {
    match decl.op {
        None => Err(DescriptorError::MissingOp { index }),
        Some(word) => match op_named(word@) {
            Some(op) => Ok(op),
            None => Err(DescriptorError::UnknownOperation { index }),
        },
    }
}

/// Whether a threshold of a pack is the declared one, with its levels' bits from `base` on.
pub open spec fn threshold_built(spec: &ThresholdSpec, decl: &ParsedThreshold, base: int) -> bool {
    &&& spec.field_id == decl.field_id
    &&& spec.fact_key == decl.fact
    &&& spec.flags == decl.flags
    &&& decl.op matches Some(word) && op_named(word@) == Some(spec.threshold_op)
    &&& spec.levels@.len() == decl.levels@.len()
    &&& forall|l: int|
        0 <= l < spec.levels@.len() ==> (#[trigger] spec.levels@[l]).name == decl.levels@[l].0
            && spec.levels@[l].value == decl.levels@[l].1 && spec.levels@[l].bit == base + l
}

/// The number of bits that the declarations need, where a mask has that many.
fn count_bits(parsed: &ParsedBitspec) -> (r: Option<usize>)
    ensures
        match r {
            Some(n) => n == bits_needed(parsed.preds@, parsed.thresh@, parsed.thresh@.len() as int)
                && n <= 64,
            None => bits_needed(parsed.preds@, parsed.thresh@, parsed.thresh@.len() as int) > 64,
        },
{
    let ghost preds = parsed.preds@;
    let ghost thresh = parsed.thresh@;
    let mut needed: usize = parsed.preds.len();
    if needed > 64 {
        proof {
            lemma_bits_needed_grows(preds, thresh, 0, thresh.len() as int);
        }
        return None;
    }
    let mut t: usize = 0;
    while t < parsed.thresh.len()
        invariant
            t <= parsed.thresh@.len(),
            preds == parsed.preds@,
            thresh == parsed.thresh@,
            needed == bits_needed(preds, thresh, t as int),
            needed <= 64,
        decreases parsed.thresh@.len() - t,
    {
        let count: usize = parsed.thresh[t].levels.len();
        if count > 64 - needed {
            proof {
                lemma_bits_needed_grows(preds, thresh, t + 1, thresh.len() as int);
            }
            return None;
        }
        needed = needed + count;
        t = t + 1;
    }
    Some(needed)
}

/// The comparisons of the thresholds, or the error of the first that has none.
fn threshold_ops(thresh: &[ParsedThreshold]) -> (r: Result<Vec<ThresholdOp>, DescriptorError>)
    ensures
        match r {
            Ok(ops) => ops@.len() == thresh@.len() && forall|u: int|
                0 <= u < thresh@.len() ==> threshold_op_of(&#[trigger] thresh@[u], u as usize)
                    == Ok::<ThresholdOp, DescriptorError>(ops@[u]),
            Err(e) => exists|t: int|
                0 <= t < thresh@.len() && threshold_op_of(&#[trigger] thresh@[t], t as usize)
                    == Err::<ThresholdOp, DescriptorError>(e) && forall|u: int|
                    0 <= u < t ==> threshold_op_of(&#[trigger] thresh@[u], u as usize) is Ok,
        },
{
    let mut ops: Vec<ThresholdOp> = Vec::new();
    let mut t: usize = 0;
    while t < thresh.len()
        invariant
            t <= thresh@.len(),
            ops@.len() == t,
            forall|u: int|
                0 <= u < t ==> threshold_op_of(&#[trigger] thresh@[u], u as usize) == Ok::<
                    ThresholdOp,
                    DescriptorError,
                >(ops@[u]),
        decreases thresh@.len() - t,
    {
        let op = match thresh[t].op {
            None => {
                proof {
                    assert(threshold_op_of(&thresh@[t as int], t) == Err::<
                        ThresholdOp,
                        DescriptorError,
                    >(DescriptorError::MissingOp { index: t }));
                }
                return Err(DescriptorError::MissingOp { index: t });
            },
            Some(word) => match parse_threshold_op(word) {
                Some(op) => op,
                None => {
                    proof {
                        assert(threshold_op_of(&thresh@[t as int], t) == Err::<
                            ThresholdOp,
                            DescriptorError,
                        >(DescriptorError::UnknownOperation { index: t }));
                    }
                    return Err(DescriptorError::UnknownOperation { index: t });
                },
            },
        };
        ops.push(op);
        t = t + 1;
    }
    Ok(ops)
}

/// The predicates of a pack: predicate `i` with bit `i`.
fn build_predicates(preds: Vec<ParsedPredicate>) -> (predicates: Vec<PredicateSpec>)
    requires
        preds@.len() <= 64,
    ensures
        predicates@.len() == preds@.len(),
        forall|j: int|
            0 <= j < predicates@.len() ==> (#[trigger] predicates@[j]).field_id
                == preds@[j].field_id && predicates@[j].op == preds@[j].op && predicates@[j].bit
                == 1u64 << (j as u64),
{
    let ghost all = preds@;
    let mut predicates: Vec<PredicateSpec> = Vec::new();
    for decl in it: preds
        invariant
            it.seq() == all,
            all.len() <= 64,
            predicates@.len() == it.index(),
            forall|j: int|
                0 <= j < predicates@.len() ==> (#[trigger] predicates@[j]).field_id
                    == all[j].field_id && predicates@[j].op == all[j].op && predicates@[j].bit
                    == 1u64 << (j as u64),
    {
        let k: usize = predicates.len();
        predicates.push(
            PredicateSpec { field_id: decl.field_id, bit: 1u64 << (k as u64), op: decl.op },
        );
    }
    predicates
}

/// One threshold of a pack, with the bits of its levels from `base` on.
fn build_threshold(decl: ParsedThreshold, op: ThresholdOp, base: usize) -> (spec: ThresholdSpec)
    requires
        base + decl.levels@.len() <= 64,
        decl.op matches Some(word) && op_named(word@) == Some(op),
    ensures
        threshold_built(&spec, &decl, base as int),
        spec.well_formed(),
{
    let mut levels: Vec<ThresholdLevel> = Vec::new();
    let mut l: usize = 0;
    while l < decl.levels.len()
        invariant
            l <= decl.levels@.len(),
            levels@.len() == l,
            base + decl.levels@.len() <= 64,
            forall|m: int|
                0 <= m < l ==> (#[trigger] levels@[m]).name == decl.levels@[m].0 && levels@[m].value
                    == decl.levels@[m].1 && levels@[m].bit == base + m,
        decreases decl.levels@.len() - l,
    {
        let (name, value) = decl.levels[l];
        levels.push(ThresholdLevel { name, value, bit: (base + l) as u16 });
        l = l + 1;
    }
    ThresholdSpec {
        field_id: decl.field_id,
        fact_key: decl.fact,
        flags: decl.flags,
        threshold_op: op,
        levels,
    }
}

/// The thresholds of a pack, with the bits of their levels after those of the predicates.
#[verifier::rlimit(40)]
fn build_thresholds(
    thresh: Vec<ParsedThreshold>,
    ops: &Vec<ThresholdOp>,
    Ghost(preds): Ghost<Seq<ParsedPredicate>>,
    base: usize,
) -> (thresholds: Vec<ThresholdSpec>)
    requires
        base == preds.len(),
        ops@.len() == thresh@.len(),
        bits_needed(preds, thresh@, thresh@.len() as int) <= 64,
        forall|u: int|
            0 <= u < thresh@.len() ==> threshold_op_of(&#[trigger] thresh@[u], u as usize) == Ok::<
                ThresholdOp,
                DescriptorError,
            >(ops@[u]),
    ensures
        thresholds@.len() == thresh@.len(),
        forall|u: int|
            0 <= u < thresholds@.len() ==> threshold_built(
                &#[trigger] thresholds@[u],
                &thresh@[u],
                bits_needed(preds, thresh@, u),
            ) && thresholds@[u].well_formed(),
{
    let ghost all = thresh@;
    let mut thresholds: Vec<ThresholdSpec> = Vec::new();
    let mut next: usize = base;
    for decl in it: thresh
        invariant
            it.seq() == all,
            ops@.len() == all.len(),
            thresholds@.len() == it.index(),
            next == bits_needed(preds, all, it.index() as int),
            bits_needed(preds, all, all.len() as int) <= 64,
            forall|u: int|
                0 <= u < all.len() ==> threshold_op_of(&#[trigger] all[u], u as usize) == Ok::<
                    ThresholdOp,
                    DescriptorError,
                >(ops@[u]),
            forall|u: int|
                0 <= u < thresholds@.len() ==> threshold_built(
                    &#[trigger] thresholds@[u],
                    &all[u],
                    bits_needed(preds, all, u),
                ) && thresholds@[u].well_formed(),
    {
        let t: usize = thresholds.len();
        proof {
            lemma_bits_needed_grows(preds, all, t + 1, all.len() as int);
            assert(threshold_op_of(&all[t as int], t) == Ok::<ThresholdOp, DescriptorError>(
                ops@[t as int],
            ));
        }
        let count: usize = decl.levels.len();
        let spec = build_threshold(decl, ops[t], next);
        thresholds.push(spec);
        next = next + count;
    }
    thresholds
}

/// Builds the pack of a type. The predicates take the bits from 0 on in declaration
/// order; the levels of the thresholds take the bits after them, threshold by threshold.
///
/// Declarations that need more than 64 bits are refused; then the first threshold whose
/// comparison is missing or not known. Every other declaration is built.
#[verifier::rlimit(40)]
pub fn make_codegen_items(parsed: ParsedBitspec) -> (r: Result<BitspecPack, DescriptorError>)
    ensures
        bits_needed(parsed.preds@, parsed.thresh@, parsed.thresh@.len() as int) <= 64 && (forall|
            t: int,
        |
            0 <= t < parsed.thresh@.len() ==> threshold_op_of(
                &#[trigger] parsed.thresh@[t],
                t as usize,
            ) is Ok) ==> r is Ok,
        match r {
            Ok(pack) => {
                &&& bits_needed(parsed.preds@, parsed.thresh@, parsed.thresh@.len() as int) <= 64
                &&& pack.well_formed()
                &&& pack.laid_out()
                &&& pack.predicates@.len() == parsed.preds@.len()
                &&& forall|i: int|
                    0 <= i < parsed.preds@.len() ==> (#[trigger] pack.predicates@[i]).field_id
                        == parsed.preds@[i].field_id && pack.predicates@[i].op
                        == parsed.preds@[i].op
                &&& pack.thresholds@.len() == parsed.thresh@.len()
                &&& forall|t: int|
                    0 <= t < parsed.thresh@.len() ==> threshold_built(
                        &#[trigger] pack.thresholds@[t],
                        &parsed.thresh@[t],
                        pack.level_base(t),
                    )
            },
            Err(DescriptorError::TooManyBits) => bits_needed(
                parsed.preds@,
                parsed.thresh@,
                parsed.thresh@.len() as int,
            ) > 64,
            Err(e) => {
                &&& bits_needed(parsed.preds@, parsed.thresh@, parsed.thresh@.len() as int) <= 64
                &&& exists|t: int|
                    0 <= t < parsed.thresh@.len() && threshold_op_of(
                        &#[trigger] parsed.thresh@[t],
                        t as usize,
                    ) == Err::<ThresholdOp, DescriptorError>(e) && forall|u: int|
                        0 <= u < t ==> threshold_op_of(&#[trigger] parsed.thresh@[u], u as usize)
                            is Ok
            },
        },
{
    let ghost preds = parsed.preds@;
    let ghost thresh = parsed.thresh@;
    let total: usize = match count_bits(&parsed) {
        Some(n) => n,
        None => {
            return Err(DescriptorError::TooManyBits);
        },
    };
    let ops = match threshold_ops(parsed.thresh.as_slice()) {
        Ok(ops) => ops,
        Err(e) => {
            proof {
                let t = choose|t: int|
                    0 <= t < thresh.len() && threshold_op_of(&#[trigger] thresh[t], t as usize)
                        == Err::<ThresholdOp, DescriptorError>(e) && forall|u: int|
                        0 <= u < t ==> threshold_op_of(&#[trigger] thresh[u], u as usize) is Ok;
                assert(!(e is TooManyBits));
            }
            return Err(e);
        },
    };
    proof {
        lemma_bits_needed_grows(preds, thresh, 0, thresh.len() as int);
    }
    let base: usize = parsed.preds.len();
    let predicates = build_predicates(parsed.preds);
    let thresholds = build_thresholds(parsed.thresh, &ops, Ghost(preds), base);
    let pack = BitspecPack { predicates, thresholds, bit_count: total as u16 };
    proof {
        assert forall|u: int| 0 <= u <= thresh.len() implies pack.level_base(u) == bits_needed(
            preds,
            thresh,
            u,
        ) by {
            assert forall|v: int| 0 <= v < thresh.len() implies (#[trigger] pack.thresholds@[v]).levels@.len()
                == thresh[v].levels@.len() by {
                assert(threshold_built(&pack.thresholds@[v], &thresh[v], bits_needed(preds, thresh, v)));
            }
            lemma_level_base(&pack, preds, thresh, u);
        }
        assert forall|u: int, l: int|
            0 <= u < pack.thresholds@.len() && 0 <= l < pack.thresholds@[u].levels@.len() implies (
        #[trigger] pack.thresholds@[u].levels@[l]).bit == pack.level_base(u) + l by {
            assert(threshold_built(&pack.thresholds@[u], &thresh[u], bits_needed(preds, thresh, u)));
        }
    }
    Ok(pack)
}

/// More thresholds need no fewer bits.
proof fn lemma_bits_needed_grows(
    preds: Seq<ParsedPredicate>,
    thresh: Seq<ParsedThreshold>,
    a: int,
    b: int,
)
    requires
        0 <= a <= b,
    ensures
        bits_needed(preds, thresh, a) <= bits_needed(preds, thresh, b),
    decreases b - a,
{
    if a < b {
        lemma_bits_needed_grows(preds, thresh, a, b - 1);
    }
}

/// The bits before a threshold of a pack are those that the declarations before it need.
proof fn lemma_level_base(
    pack: &BitspecPack,
    preds: Seq<ParsedPredicate>,
    thresh: Seq<ParsedThreshold>,
    t: int,
)
    requires
        0 <= t <= thresh.len(),
        pack.predicates@.len() == preds.len(),
        pack.thresholds@.len() == thresh.len(),
        forall|u: int|
            0 <= u < thresh.len() ==> (#[trigger] pack.thresholds@[u]).levels@.len()
                == thresh[u].levels@.len(),
    ensures
        pack.level_base(t) == bits_needed(preds, thresh, t),
    decreases t,
{
    if t > 0 {
        lemma_level_base(pack, preds, thresh, t - 1);
    }
}

} // verus!
