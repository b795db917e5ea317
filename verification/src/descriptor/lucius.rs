//! Scan specifications from the annotations of a type's fields.
use vstd::prelude::*;
use crate::contracts::lucius::{LuciusFieldSpec, LuciusLevel};
use crate::descriptor::error::DescriptorError;
use crate::text::str_eq;

verus! {

/// The annotation of one field. What is left out takes its default.
#[derive(Debug, Clone, Copy)]
pub struct LspecAttr {
    pub rule: Option<&'static str>,
    pub level: Option<&'static str>,
    pub expected_type: Option<&'static str>,
    pub route: Option<&'static str>,
    pub note: Option<&'static str>,
}

/// One field of a type: its name, and its annotation if it has one.
#[derive(Debug, Clone, Copy)]
pub struct LspecField {
    pub name: &'static str,
    pub attr: Option<LspecAttr>,
}

/// The level that a word names.
pub open spec fn level_named(word: Seq<char>) -> Option<LuciusLevel> {
    if word == "light"@ {
        Some(LuciusLevel::Light)
    } else if word == "static"@ || word == "static_deep"@ {
        Some(LuciusLevel::StaticDeep)
    } else if word == "dynamic"@ || word == "dynamic_sandbox"@ {
        Some(LuciusLevel::DynamicSandbox)
    } else if word == "hybrid"@ || word == "full"@ {
        Some(LuciusLevel::HybridFull)
    } else {
        None
    }
}

/// The level that a word names.
pub fn parse_level(word: &str) -> (r: Option<LuciusLevel>)
    ensures
        r == level_named(word@),
{
    if str_eq(word, "light") {
        Some(LuciusLevel::Light)
    } else if str_eq(word, "static") || str_eq(word, "static_deep") {
        Some(LuciusLevel::StaticDeep)
    } else if str_eq(word, "dynamic") || str_eq(word, "dynamic_sandbox") {
        Some(LuciusLevel::DynamicSandbox)
    } else if str_eq(word, "hybrid") || str_eq(word, "full") {
        Some(LuciusLevel::HybridFull)
    } else {
        None
    }
}

/// The level of an annotation: `Light` where none is named.
pub open spec fn level_of(attr: LspecAttr) -> Option<LuciusLevel> {
    match attr.level {
        Some(word) => level_named(word@),
        None => Some(LuciusLevel::Light),
    }
}

/// The specification of an annotated field. The expected type is `bin` and the route is
/// the field's name where the annotation names none.
pub open spec fn spec_of(name: &'static str, attr: LspecAttr, level: LuciusLevel) -> LuciusFieldSpec {
    LuciusFieldSpec {
        field: name,
        rule: attr.rule,
        level,
        expected_type: match attr.expected_type {
            Some(t) => t,
            None => "bin",
        },
        route: match attr.route {
            Some(r) => r,
            None => name,
        },
        note: attr.note,
    }
}

/// The specifications of the first `n` fields, in order, or the first error among them.
/// A field without an annotation has no specification.
pub open spec fn specs_of(fields: Seq<LspecField>, n: nat) -> Result<
    Seq<LuciusFieldSpec>,
    DescriptorError,
>
    decreases n,
{
    if n == 0 {
        Ok(Seq::empty())
    } else {
        match specs_of(fields, (n - 1) as nat) {
            Err(e) => Err(e),
            Ok(before) => match fields[n - 1].attr {
                None => Ok(before),
                Some(attr) => match level_of(attr) {
                    Some(level) => Ok(before.push(spec_of(fields[n - 1].name, attr, level))),
                    None => Err(DescriptorError::UnknownLevel { index: (n - 1) as usize }),
                },
            },
        }
    }
}

/// The scan specifications of a type, from its fields in declaration order.
pub fn derive_lucius(fields: &[LspecField]) -> (r: Result<Vec<LuciusFieldSpec>, DescriptorError>)
    ensures
        match (r, specs_of(fields@, fields@.len())) {
            (Ok(a), Ok(b)) => a@ == b,
            (Err(a), Err(b)) => a == b,
            _ => false,
        },
{
    let mut specs: Vec<LuciusFieldSpec> = Vec::new();
    let mut i: usize = 0;
    while i < fields.len()
        invariant
            i <= fields@.len(),
            specs_of(fields@, i as nat) == Ok::<Seq<LuciusFieldSpec>, DescriptorError>(specs@),
        decreases fields@.len() - i,
    {
        let field = &fields[i];
        if let Some(attr) = field.attr {
            let level = match attr.level {
                Some(word) => match parse_level(word) {
                    Some(level) => level,
                    None => {
                        proof {
                            lemma_specs_error(fields@, (i + 1) as nat, fields@.len());
                        }
                        return Err(DescriptorError::UnknownLevel { index: i });
                    },
                },
                None => LuciusLevel::Light,
            };
            let expected_type: &'static str = match attr.expected_type {
                Some(t) => t,
                None => "bin",
            };
            let route: &'static str = match attr.route {
                Some(r) => r,
                None => field.name,
            };
            specs.push(
                LuciusFieldSpec {
                    field: field.name,
                    rule: attr.rule,
                    level,
                    expected_type,
                    route,
                    note: attr.note,
                },
            );
        }
        i = i + 1;
    }
    Ok(specs)
}

/// An error among the first fields is the error of the whole list.
proof fn lemma_specs_error(fields: Seq<LspecField>, n: nat, m: nat)
    requires
        n <= m,
        specs_of(fields, n) is Err,
    ensures
        specs_of(fields, m) == specs_of(fields, n),
    decreases m,
{
    if n < m {
        lemma_specs_error(fields, n, (m - 1) as nat);
    }
}

} // verus!
