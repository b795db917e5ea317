//! Redaction rules from the annotations of a type's fields.
use vstd::prelude::*;
use crate::contracts::blot::{BlotFieldRule, BlotOp};
use crate::descriptor::error::DescriptorError;
use crate::text::str_eq;

verus! {

/// The operation of an annotation, as it was written: a name, or a name applied to a number.
#[derive(Debug, Clone, Copy)]
pub enum OpExpr {
    /// A name alone, as in `mask_all`.
    Path(&'static str),
    /// A call, as in `mask_suffix(4)`; `arg` is `None` where the brackets are empty.
    Call { func: &'static str, arg: Option<usize> },
    /// Anything else.
    Other,
}

/// The annotation of one field.
#[derive(Debug, Clone, Copy)]
pub struct BlotAttr {
    pub rule: Option<&'static str>,
    pub op: Option<OpExpr>,
    pub note: Option<&'static str>,
}

/// One field of a type: its name, and its annotation if it has one.
#[derive(Debug, Clone, Copy)]
pub struct BlotField {
    pub name: &'static str,
    pub attr: Option<BlotAttr>,
}

/// The operation that an expression names, for the field at place `index`.
pub open spec fn op_of(expr: OpExpr, index: usize) -> Result<BlotOp, DescriptorError> {
    match expr {
        OpExpr::Path(name) => if name@ == "mask_all"@ {
            Ok(BlotOp::MaskAll)
        } else if name@ == "hash_sha256"@ {
            Ok(BlotOp::HashSha256)
        } else if name@ == "drop"@ {
            Ok(BlotOp::Drop)
        } else {
            Err(DescriptorError::UnknownOperation { index })
        },
        OpExpr::Call { func, arg } => if func@ == "mask_suffix"@ {
            match arg {
                Some(keep) => Ok(BlotOp::MaskSuffix { keep }),
                None => Err(DescriptorError::MissingArgument { index }),
            }
        } else if func@ == "mask_prefix"@ {
            match arg {
                Some(keep) => Ok(BlotOp::MaskPrefix { keep }),
                None => Err(DescriptorError::MissingArgument { index }),
            }
        } else if func@ == "truncate"@ {
            match arg {
                Some(len) => Ok(BlotOp::Truncate { len }),
                None => Err(DescriptorError::MissingArgument { index }),
            }
        } else {
            Err(DescriptorError::UnknownOperation { index })
        },
        OpExpr::Other => Err(DescriptorError::InvalidExpression { index }),
    }
}

/// The operation that an expression names, for the field at place `index`.
pub fn parse_blot_op(expr: &OpExpr, index: usize) -> (r: Result<BlotOp, DescriptorError>)
    ensures
        r == op_of(*expr, index),
{
    match expr {
        OpExpr::Path(name) => {
            if str_eq(name, "mask_all") {
                Ok(BlotOp::MaskAll)
            } else if str_eq(name, "hash_sha256") {
                Ok(BlotOp::HashSha256)
            } else if str_eq(name, "drop") {
                Ok(BlotOp::Drop)
            } else {
                Err(DescriptorError::UnknownOperation { index })
            }
        },
        OpExpr::Call { func, arg } => {
            if str_eq(func, "mask_suffix") {
                match arg {
                    Some(keep) => Ok(BlotOp::MaskSuffix { keep: *keep }),
                    None => Err(DescriptorError::MissingArgument { index }),
                }
            } else if str_eq(func, "mask_prefix") {
                match arg {
                    Some(keep) => Ok(BlotOp::MaskPrefix { keep: *keep }),
                    None => Err(DescriptorError::MissingArgument { index }),
                }
            } else if str_eq(func, "truncate") {
                match arg {
                    Some(len) => Ok(BlotOp::Truncate { len: *len }),
                    None => Err(DescriptorError::MissingArgument { index }),
                }
            } else {
                Err(DescriptorError::UnknownOperation { index })
            }
        },
        OpExpr::Other => Err(DescriptorError::InvalidExpression { index }),
    }
}

/// The rule of an annotated field, or why it has none.
pub open spec fn rule_of(field: BlotField, attr: BlotAttr, index: usize) -> Result<
    BlotFieldRule,
    DescriptorError,
> {
    match attr.op {
        None => Err(DescriptorError::MissingOp { index }),
        Some(expr) => match op_of(expr, index) {
            Ok(op) => Ok(BlotFieldRule { field: field.name, rule: attr.rule, op, note: attr.note }),
            Err(e) => Err(e),
        },
    }
}

/// The rules of the first `n` fields, in order, or the first error among them.
/// A field without an annotation has no rule.
pub open spec fn rules_of(fields: Seq<BlotField>, n: nat) -> Result<
    Seq<BlotFieldRule>,
    DescriptorError,
>
    decreases n,
{
    if n == 0 {
        Ok(Seq::empty())
    } else {
        match rules_of(fields, (n - 1) as nat) {
            Err(e) => Err(e),
            Ok(before) => match fields[n - 1].attr {
                None => Ok(before),
                Some(attr) => match rule_of(fields[n - 1], attr, (n - 1) as usize) {
                    Ok(rule) => Ok(before.push(rule)),
                    Err(e) => Err(e),
                },
            },
        }
    }
}

/// An error among the first fields is the error of the whole list.
proof fn lemma_rules_error(fields: Seq<BlotField>, n: nat, m: nat)
    requires
        n <= m,
        rules_of(fields, n) is Err,
    ensures
        rules_of(fields, m) == rules_of(fields, n),
    decreases m,
{
    if n < m {
        lemma_rules_error(fields, n, (m - 1) as nat);
    }
}

/// The redaction rules of a type, from its fields in declaration order.
pub fn derive_blot(fields: &[BlotField]) -> (r: Result<Vec<BlotFieldRule>, DescriptorError>)
    ensures
        match (r, rules_of(fields@, fields@.len())) {
            (Ok(a), Ok(b)) => a@ == b,
            (Err(a), Err(b)) => a == b,
            _ => false,
        },
{
    let mut rules: Vec<BlotFieldRule> = Vec::new();
    let mut i: usize = 0;
    while i < fields.len()
        invariant
            i <= fields@.len(),
            rules_of(fields@, i as nat) == Ok::<Seq<BlotFieldRule>, DescriptorError>(rules@),
        decreases fields@.len() - i,
    {
        let field = &fields[i];
        if let Some(attr) = field.attr {
            let parsed = match attr.op {
                None => Err(DescriptorError::MissingOp { index: i }),
                Some(expr) => parse_blot_op(&expr, i),
            };
            match parsed {
                Ok(op) => {
                    rules.push(
                        BlotFieldRule { field: field.name, rule: attr.rule, op, note: attr.note },
                    );
                },
                Err(e) => {
                    proof {
                        lemma_rules_error(fields@, (i + 1) as nat, fields@.len());
                    }
                    return Err(e);
                },
            }
        }
        i = i + 1;
    }
    Ok(rules)
}

} // verus!
