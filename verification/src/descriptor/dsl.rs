//! Predicates from the expressions in which they are declared, such as `gt(10)`,
//! `eq("x")` or `all(gt(5), lt(20))`.
use vstd::prelude::*;
use crate::bitspec::predicate::PredOp;
use crate::descriptor::error::DescriptorError;
use crate::num::Float64;
use crate::text::str_eq;

verus! {

/// An expression as it was written.
#[derive(Debug)]
pub enum DslExpr {
    /// A name applied to arguments.
    Call { func: &'static str, args: Vec<DslExpr> },
    /// A literal with a fraction or an exponent.
    Float(Float64),
    /// An integer literal: its value as an unsigned integer where it has one, and as a
    /// binary64 number where it has one.
    Int { unsigned: Option<u64>, number: Option<Float64> },
    /// A string literal.
    Str(&'static str),
    /// `true` or `false`.
    Bool(bool),
    /// An expression with a minus sign in front.
    Neg(Box<DslExpr>),
    /// Anything else.
    Other,
}

/// The number that an expression denotes: a literal, or a literal behind minus signs.
pub open spec fn number_of(expr: &DslExpr) -> Option<Float64>
    decreases expr,
{
    match expr {
        DslExpr::Float(x) => Some(*x),
        DslExpr::Int { unsigned, number } => *number,
        DslExpr::Neg(inner) => match number_of(inner) {
            Some(x) => Some(x.negated()),
            None => None,
        },
        _ => None,
    }
}

/// The unsigned integer that an expression denotes: an integer literal that has one.
pub open spec fn unsigned_of(expr: &DslExpr) -> Option<u64> {
    match expr {
        DslExpr::Int { unsigned, number } => *unsigned,
        _ => None,
    }
}

/// The string that an expression denotes: a string literal.
pub open spec fn text_of(expr: &DslExpr) -> Option<&'static str> {
    match expr {
        DslExpr::Str(s) => Some(*s),
        _ => None,
    }
}

/// The number that an expression denotes.
pub fn expr_to_f64(expr: &DslExpr) -> (r: Option<Float64>)
    ensures
        r == number_of(expr),
    decreases expr,
{
    match expr {
        DslExpr::Float(x) => Some(*x),
        DslExpr::Int { unsigned, number } => *number,
        DslExpr::Neg(inner) => match expr_to_f64(inner) {
            Some(x) => Some(x.neg()),
            None => None,
        },
        _ => None,
    }
}

/// The number that argument `idx` denotes.
fn parse_arg_f64(args: &Vec<DslExpr>, idx: usize) -> (r: Result<Float64, DescriptorError>)
    ensures
        r == number_arg(args@, idx as int),
{
    if idx >= args.len() {
        return Err(DescriptorError::MissingArgument { index: idx });
    }
    match expr_to_f64(&args[idx]) {
        Some(x) => Ok(x),
        None => Err(DescriptorError::ExpectedNumber),
    }
}

/// The unsigned integer that argument `idx` denotes.
fn parse_arg_u64(args: &Vec<DslExpr>, idx: usize) -> (r: Result<u64, DescriptorError>)
    ensures
        r == unsigned_arg(args@, idx as int),
{
    if idx >= args.len() {
        return Err(DescriptorError::MissingArgument { index: idx });
    }
    match &args[idx] {
        DslExpr::Int { unsigned: Some(x), number } => Ok(*x),
        _ => Err(DescriptorError::ExpectedUnsigned),
    }
}

/// The string that argument `idx` denotes.
fn parse_arg_str(args: &Vec<DslExpr>, idx: usize) -> (r: Result<&'static str, DescriptorError>)
    ensures
        r == text_arg(args@, idx as int),
{
    if idx >= args.len() {
        return Err(DescriptorError::MissingArgument { index: idx });
    }
    match &args[idx] {
        DslExpr::Str(s) => Ok(*s),
        _ => Err(DescriptorError::ExpectedString),
    }
}

/// The number that argument `idx` denotes, or why there is none.
pub open spec fn number_arg(args: Seq<DslExpr>, idx: int) -> Result<Float64, DescriptorError> {
    if idx >= args.len() {
        Err(DescriptorError::MissingArgument { index: idx as usize })
    } else {
        match number_of(&args[idx]) {
            Some(x) => Ok(x),
            None => Err(DescriptorError::ExpectedNumber),
        }
    }
}

/// The unsigned integer that argument `idx` denotes, or why there is none.
pub open spec fn unsigned_arg(args: Seq<DslExpr>, idx: int) -> Result<u64, DescriptorError> {
    if idx >= args.len() {
        Err(DescriptorError::MissingArgument { index: idx as usize })
    } else {
        match unsigned_of(&args[idx]) {
            Some(x) => Ok(x),
            None => Err(DescriptorError::ExpectedUnsigned),
        }
    }
}

/// The string that argument `idx` denotes, or why there is none.
pub open spec fn text_arg(args: Seq<DslExpr>, idx: int) -> Result<&'static str, DescriptorError> {
    if idx >= args.len() {
        Err(DescriptorError::MissingArgument { index: idx as usize })
    } else {
        match text_of(&args[idx]) {
            Some(s) => Ok(s),
            None => Err(DescriptorError::ExpectedString),
        }
    }
}

/// Whether a predicate is what an expression declares.
///
/// `gt`, `lt` and `between` compare numbers; `eq` compares with a boolean, a string or a
/// number, by the kind of its argument; `starts_with` and `contains` take a string;
/// `mod_eq` and `mod_ne` take a modulus and a remainder; `all` and `any` combine the
/// predicates of their arguments, `not` that of its first.
pub open spec fn declares(expr: &DslExpr, op: &PredOp) -> bool
    decreases expr,
{
    match expr {
        DslExpr::Call { func, args } => {
            if func@ == "gt"@ {
                number_arg(args@, 0) matches Ok(v) && op == PredOp::GtF64(v)
            } else if func@ == "lt"@ {
                number_arg(args@, 0) matches Ok(v) && op == PredOp::LtF64(v)
            } else if func@ == "between"@ {
                number_arg(args@, 0) matches Ok(lo) && number_arg(args@, 1) matches Ok(hi) && op
                    == (PredOp::BetweenF64 { lo, hi })
            } else if func@ == "starts_with"@ {
                text_arg(args@, 0) matches Ok(s) && op == PredOp::StartsWith(s)
            } else if func@ == "contains"@ {
                text_arg(args@, 0) matches Ok(s) && op == PredOp::Contains(s)
            } else if func@ == "eq"@ {
                args@.len() > 0 && match args@[0] {
                    DslExpr::Bool(b) => op == PredOp::EqBool(b),
                    DslExpr::Str(s) => op == PredOp::EqStr(s),
                    _ => number_of(&args@[0]) matches Some(v) && op == PredOp::EqF64(v),
                }
            } else if func@ == "mod_eq"@ {
                unsigned_arg(args@, 0) matches Ok(m) && unsigned_arg(args@, 1) matches Ok(r) && op
                    == (PredOp::ModEq { m, r })
            } else if func@ == "mod_ne"@ {
                unsigned_arg(args@, 0) matches Ok(m) && unsigned_arg(args@, 1) matches Ok(r) && op
                    == (PredOp::ModNe { m, r })
            } else if func@ == "all"@ {
                op matches PredOp::All(list) && list@.len() == args@.len() && forall|i: int|
                    0 <= i < args@.len() ==> declares(&#[trigger] args@[i], &list@[i])
            } else if func@ == "any"@ {
                op matches PredOp::Any(list) && list@.len() == args@.len() && forall|i: int|
                    0 <= i < args@.len() ==> declares(&#[trigger] args@[i], &list@[i])
            } else if func@ == "not"@ {
                args@.len() > 0 && (op matches PredOp::Not(inner) && declares(&args@[0], &*inner))
            } else {
                false
            }
        },
        _ => false,
    }
}

/// Whether an expression is refused with the given error. Arguments are read from the
/// left, and the first that is at fault decides.
pub open spec fn refused(expr: &DslExpr, e: DescriptorError) -> bool
    decreases expr,
{
    match expr {
        DslExpr::Call { func, args } => {
            if func@ == "gt"@ || func@ == "lt"@ {
                number_arg(args@, 0) == Err::<Float64, DescriptorError>(e)
            } else if func@ == "between"@ {
                match number_arg(args@, 0) {
                    Ok(_) => number_arg(args@, 1) == Err::<Float64, DescriptorError>(e),
                    Err(first) => first == e,
                }
            } else if func@ == "starts_with"@ || func@ == "contains"@ {
                text_arg(args@, 0) == Err::<&'static str, DescriptorError>(e)
            } else if func@ == "eq"@ {
                if args@.len() == 0 {
                    e == (DescriptorError::MissingArgument { index: 0 })
                } else {
                    !(args@[0] is Bool) && !(args@[0] is Str) && number_of(&args@[0]) is None && e
                        == DescriptorError::ExpectedNumber
                }
            } else if func@ == "mod_eq"@ || func@ == "mod_ne"@ {
                match unsigned_arg(args@, 0) {
                    Ok(_) => unsigned_arg(args@, 1) == Err::<u64, DescriptorError>(e),
                    Err(first) => first == e,
                }
            } else if func@ == "all"@ || func@ == "any"@ {
                exists|i: int|
                    0 <= i < args@.len() && refused(&#[trigger] args@[i], e) && forall|j: int|
                        0 <= j < i ==> accepted(&#[trigger] args@[j])
            } else if func@ == "not"@ {
                if args@.len() == 0 {
                    e == (DescriptorError::MissingArgument { index: 0 })
                } else {
                    refused(&args@[0], e)
                }
            } else {
                e == DescriptorError::UnknownPredicate
            }
        },
        _ => e == DescriptorError::ExpectedCall,
    }
}

/// Whether an expression declares a predicate.
pub open spec fn accepted(expr: &DslExpr) -> bool
    decreases expr,
{
    match expr {
        DslExpr::Call { func, args } => {
            if func@ == "gt"@ || func@ == "lt"@ {
                number_arg(args@, 0) is Ok
            } else if func@ == "between"@ {
                number_arg(args@, 0) is Ok && number_arg(args@, 1) is Ok
            } else if func@ == "starts_with"@ || func@ == "contains"@ {
                text_arg(args@, 0) is Ok
            } else if func@ == "eq"@ {
                args@.len() > 0 && (args@[0] is Bool || args@[0] is Str || number_of(&args@[0])
                    is Some)
            } else if func@ == "mod_eq"@ || func@ == "mod_ne"@ {
                unsigned_arg(args@, 0) is Ok && unsigned_arg(args@, 1) is Ok
            } else if func@ == "all"@ || func@ == "any"@ {
                forall|i: int| 0 <= i < args@.len() ==> accepted(&#[trigger] args@[i])
            } else if func@ == "not"@ {
                args@.len() > 0 && accepted(&args@[0])
            } else {
                false
            }
        },
        _ => false,
    }
}

/// The predicates that a list of expressions declares, or the error of the first
/// expression that declares none.
#[verifier::loop_isolation(false)]
fn convert_all(call: &DslExpr, args: &Vec<DslExpr>) -> (r: Result<Vec<PredOp>, DescriptorError>)
    requires
        call matches DslExpr::Call { func, args: a } && a == args,
    ensures
        match r {
            Ok(list) => list@.len() == args@.len() && forall|i: int|
                0 <= i < args@.len() ==> accepted(&#[trigger] args@[i]) && declares(
                    &args@[i],
                    &list@[i],
                ),
            Err(e) => exists|i: int|
                0 <= i < args@.len() && refused(&#[trigger] args@[i], e) && !accepted(&args@[i])
                    && forall|j: int| 0 <= j < i ==> accepted(&#[trigger] args@[j]),
        },
    decreases call, 0nat,
{
    let mut list: Vec<PredOp> = Vec::new();
    let mut i: usize = 0;
    while i < args.len()
        invariant
            i <= args@.len(),
            list@.len() == i,
            forall|j: int|
                0 <= j < i ==> accepted(&#[trigger] args@[j]) && declares(&args@[j], &list@[j]),
        decreases args@.len() - i,
    {
        proof {
            vstd::std_specs::vec::axiom_vec_index_decreases(*args, i as int);
        }
        match convert_expr_to_op(&args[i]) {
            Ok(op) => {
                list.push(op);
            },
            Err(e) => {
                return Err(e);
            },
        }
        i = i + 1;
    }
    Ok(list)
}

/// Turns the expression of a declaration into a predicate.
pub fn convert_expr_to_op(expr: &DslExpr) -> (r: Result<PredOp, DescriptorError>)
    ensures
        match r {
            Ok(op) => accepted(expr) && declares(expr, &op),
            Err(e) => !accepted(expr) && refused(expr, e),
        },
    decreases expr, 1nat,
{
    match expr {
        DslExpr::Call { func, args } => {
            if str_eq(func, "gt") {
                let v = parse_arg_f64(args, 0)?;
                Ok(PredOp::GtF64(v))
            } else if str_eq(func, "lt") {
                let v = parse_arg_f64(args, 0)?;
                Ok(PredOp::LtF64(v))
            } else if str_eq(func, "between") {
                let lo = parse_arg_f64(args, 0)?;
                let hi = parse_arg_f64(args, 1)?;
                Ok(PredOp::BetweenF64 { lo, hi })
            } else if str_eq(func, "starts_with") {
                let s = parse_arg_str(args, 0)?;
                Ok(PredOp::StartsWith(s))
            } else if str_eq(func, "contains") {
                let s = parse_arg_str(args, 0)?;
                Ok(PredOp::Contains(s))
            } else if str_eq(func, "eq") {
                if args.len() == 0 {
                    return Err(DescriptorError::MissingArgument { index: 0 });
                }
                match &args[0] {
                    DslExpr::Bool(b) => Ok(PredOp::EqBool(*b)),
                    DslExpr::Str(s) => Ok(PredOp::EqStr(*s)),
                    other => match expr_to_f64(other) {
                        Some(v) => Ok(PredOp::EqF64(v)),
                        None => Err(DescriptorError::ExpectedNumber),
                    },
                }
            } else if str_eq(func, "mod_eq") {
                let m = parse_arg_u64(args, 0)?;
                let r = parse_arg_u64(args, 1)?;
                Ok(PredOp::ModEq { m, r })
            } else if str_eq(func, "mod_ne") {
                let m = parse_arg_u64(args, 0)?;
                let r = parse_arg_u64(args, 1)?;
                Ok(PredOp::ModNe { m, r })
            } else if str_eq(func, "all") {
                let list = convert_all(expr, args)?;
                Ok(PredOp::All(list))
            } else if str_eq(func, "any") {
                let list = convert_all(expr, args)?;
                Ok(PredOp::Any(list))
            } else if str_eq(func, "not") {
                if args.len() == 0 {
                    return Err(DescriptorError::MissingArgument { index: 0 });
                }
                proof {
                    vstd::std_specs::vec::axiom_vec_index_decreases(*args, 0);
                }
                let inner = convert_expr_to_op(&args[0])?;
                Ok(PredOp::Not(Box::new(inner)))
            } else {
                Err(DescriptorError::UnknownPredicate)
            }
        },
        _ => Err(DescriptorError::ExpectedCall),
    }
}

} // verus!
