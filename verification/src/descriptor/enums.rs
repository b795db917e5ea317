//! Enumeration tables from the declarations of an enumeration's variants.
use vstd::prelude::*;
use crate::contracts::enum_info::{EnumInfo, EnumVariant};
use crate::descriptor::error::DescriptorError;
use crate::text::str_eq;

verus! {

/// One variant as it was declared.
#[derive(Debug, Clone, Copy)]
pub struct VariantDecl {
    /// The name of the variant.
    pub ident: &'static str,
    /// Whether the variant carries no data.
    pub unit: bool,
    /// The label, where it is not the name.
    pub label: Option<&'static str>,
    /// The value, where it is not one more than that of the preceding variant.
    pub value: Option<i16>,
}

/// The label of a variant: the declared one, else the variant's name.
pub open spec fn label_of(decl: VariantDecl) -> &'static str {
    match decl.label {
        Some(l) => l,
        None => decl.ident,
    }
}

/// The value of the variant at place `i`: the declared one; else one more than the value
/// of the variant before it; else 0 for the first. The result is unbounded.
pub open spec fn value_at(decls: Seq<VariantDecl>, i: int) -> int
    decreases i,
{
    match decls[i].value {
        Some(v) => v as int,
        None => if i <= 0 {
            0
        } else {
            value_at(decls, i - 1) + 1
        },
    }
}

/// Whether the variant at place `i` can be given a value: it carries no data, and its
/// value fits 16 bits.
pub open spec fn assignable(decls: Seq<VariantDecl>, i: int) -> bool {
    decls[i].unit && value_at(decls, i) <= i16::MAX
}

/// The variants of the first `n` declarations.
pub open spec fn variants_of(decls: Seq<VariantDecl>, n: nat) -> Seq<EnumVariant> {
    Seq::new(n, |i: int| EnumVariant { label: label_of(decls[i]), value: value_at(decls, i) as i16 })
}

/// Whether the variant at place `i` repeats the label of an earlier variant.
pub open spec fn repeats_label(decls: Seq<VariantDecl>, i: int) -> bool {
    exists|j: int| 0 <= j < i && label_of(#[trigger] decls[j])@ == label_of(decls[i])@
}

/// Whether the variant at place `i` repeats the value of an earlier variant.
pub open spec fn repeats_value(decls: Seq<VariantDecl>, i: int) -> bool {
    exists|j: int| 0 <= j < i && #[trigger] value_at(decls, j) == value_at(decls, i)
}

/// Whether a value needs more than a signed byte.
pub open spec fn wide(v: int) -> bool {
    v < -128 || v > 127
}

/// Builds the table of an enumeration from its variants in declaration order.
///
/// The first variant that carries data, or whose value would pass 32767, is refused. An
/// enumeration without variants is refused. Then the first variant that repeats a label or,
/// with a label of its own, a value of an earlier variant is refused.
#[verifier::loop_isolation(false)]
pub fn derive_ben_enum(name: &'static str, decls: &[VariantDecl]) -> (r: Result<
    EnumInfo,
    DescriptorError,
>)
    ensures
        match r {
            Ok(info) => {
                &&& decls@.len() > 0
                &&& forall|i: int| 0 <= i < decls@.len() ==> assignable(decls@, i)
                &&& forall|i: int|
                    0 <= i < decls@.len() ==> !repeats_label(decls@, i) && !repeats_value(decls@, i)
                &&& info.name == name
                &&& info.variants@ == variants_of(decls@, decls@.len())
                &&& info.bits == if exists|i: int|
                    0 <= i < decls@.len() && wide(#[trigger] value_at(decls@, i)) {
                    16u8
                } else {
                    8u8
                }
            },
            Err(DescriptorError::NonUnitVariant { index }) => index < decls@.len()
                && !decls@[index as int].unit && forall|i: int|
                0 <= i < index ==> assignable(decls@, i),
            Err(DescriptorError::ValueOverflow { index }) => index < decls@.len()
                && decls@[index as int].unit && value_at(decls@, index as int) > i16::MAX
                && forall|i: int| 0 <= i < index ==> assignable(decls@, i),
            Err(DescriptorError::NoVariants) => decls@.len() == 0,
            Err(DescriptorError::DuplicateLabel { index }) => index < decls@.len() && (forall|
                i: int,
            |
                0 <= i < decls@.len() ==> assignable(decls@, i)) && repeats_label(
                decls@,
                index as int,
            ) && forall|i: int|
                0 <= i < index ==> !repeats_label(decls@, i) && !repeats_value(decls@, i),
            Err(DescriptorError::DuplicateValue { index }) => index < decls@.len() && (forall|
                i: int,
            |
                0 <= i < decls@.len() ==> assignable(decls@, i)) && !repeats_label(
                decls@,
                index as int,
            ) && repeats_value(decls@, index as int) && forall|i: int|
                0 <= i < index ==> !repeats_label(decls@, i) && !repeats_value(decls@, i),
            Err(_) => false,
        },
{
    let mut variants: Vec<EnumVariant> = Vec::new();
    let mut last: Option<i16> = None;
    let mut i: usize = 0;
    while i < decls.len()
        invariant
            i <= decls@.len(),
            variants@ == variants_of(decls@, i as nat),
            forall|k: int| 0 <= k < i ==> assignable(decls@, k),
            match last {
                Some(v) => i > 0 && v == value_at(decls@, i - 1),
                None => i == 0,
            },
        decreases decls@.len() - i,
    {
        let decl = &decls[i];
        if !decl.unit {
            return Err(DescriptorError::NonUnitVariant { index: i });
        }
        let label: &'static str = match decl.label {
            Some(l) => l,
            None => decl.ident,
        };
        let value: i16 = match decl.value {
            Some(v) => v,
            None => match last {
                Some(prev) => {
                    if prev == i16::MAX {
                        return Err(DescriptorError::ValueOverflow { index: i });
                    }
                    prev + 1
                },
                None => 0,
            },
        };
        last = Some(value);
        variants.push(EnumVariant { label, value });
        proof {
            assert(variants@ =~= variants_of(decls@, (i + 1) as nat));
        }
        i = i + 1;
    }
    if variants.len() == 0 {
        return Err(DescriptorError::NoVariants);
    }
    let mut wide_seen: bool = false;
    let mut k: usize = 0;
    while k < variants.len()
        invariant
            k <= variants@.len() == decls@.len(),
            variants@ == variants_of(decls@, decls@.len()),
            forall|i: int| 0 <= i < decls@.len() ==> assignable(decls@, i),
            forall|i: int| 0 <= i < k ==> !repeats_label(decls@, i) && !repeats_value(decls@, i),
            wide_seen == exists|i: int| 0 <= i < k && wide(#[trigger] value_at(decls@, i)),
        decreases variants@.len() - k,
    {
        let mut j: usize = 0;
        while j < k
            invariant
                j <= k < variants@.len() == decls@.len(),
                variants@ == variants_of(decls@, decls@.len()),
                forall|m: int| 0 <= m < j ==> label_of(#[trigger] decls@[m])@ != label_of(decls@[k as int])@,
            decreases k - j,
        {
            if str_eq(variants[j].label, variants[k].label) {
                return Err(DescriptorError::DuplicateLabel { index: k });
            }
            j = j + 1;
        }
        let mut j: usize = 0;
        while j < k
            invariant
                j <= k < variants@.len() == decls@.len(),
                variants@ == variants_of(decls@, decls@.len()),
                forall|i: int| 0 <= i < decls@.len() ==> assignable(decls@, i),
                forall|m: int| 0 <= m < j ==> #[trigger] value_at(decls@, m) != value_at(decls@, k as int),
            decreases k - j,
        {
            proof {
                lemma_value_range(decls@, j as int);
                lemma_value_range(decls@, k as int);
            }
            if variants[j].value == variants[k].value {
                return Err(DescriptorError::DuplicateValue { index: k });
            }
            j = j + 1;
        }
        let v: i16 = variants[k].value;
        proof {
            lemma_value_range(decls@, k as int);
        }
        if v < -128 || v > 127 {
            wide_seen = true;
        }
        k = k + 1;
    }
    Ok(EnumInfo { name, bits: if wide_seen { 16 } else { 8 }, variants })
}

/// The value of a variant is at least -32768; where the variant and all before it can be
/// given a value, it is at most 32767.
pub proof fn lemma_value_range(decls: Seq<VariantDecl>, i: int)
    requires
        0 <= i < decls.len(),
        forall|k: int| 0 <= k <= i ==> assignable(decls, k),
    ensures
        i16::MIN <= value_at(decls, i) <= i16::MAX,
    decreases i,
{
    assert(assignable(decls, i));
    if i > 0 {
        lemma_value_range(decls, i - 1);
    }
}

} // verus!
