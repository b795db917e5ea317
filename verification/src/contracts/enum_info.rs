//! Enumeration tables: the labels and wire values of a bounded enumeration.
use vstd::prelude::*;
use crate::text::str_eq;

verus! {

/// One variant of an enumeration: its label and its value on the wire.
#[derive(Debug, Clone, Copy)]
pub struct EnumVariant {
    pub label: &'static str,
    pub value: i16,
}

/// The table of an enumeration.
#[derive(Debug)]
pub struct EnumInfo {
    pub name: &'static str,
    /// 8 where every value fits a signed byte, else 16. The wire form has 16 bits either way.
    pub bits: u8,
    pub variants: Vec<EnumVariant>,
}

/// The lowest value among the first `n` variants.
pub open spec fn min_value(variants: Seq<EnumVariant>, n: nat) -> int
    recommends
        0 < n <= variants.len(),
    decreases n,
{
    if n <= 1 {
        variants[0].value as int
    } else {
        let before = min_value(variants, (n - 1) as nat);
        if variants[n - 1].value < before {
            variants[n - 1].value as int
        } else {
            before
        }
    }
}

/// The highest value among the first `n` variants.
pub open spec fn max_value(variants: Seq<EnumVariant>, n: nat) -> int
    recommends
        0 < n <= variants.len(),
    decreases n,
{
    if n <= 1 {
        variants[0].value as int
    } else {
        let before = max_value(variants, (n - 1) as nat);
        if variants[n - 1].value > before {
            variants[n - 1].value as int
        } else {
            before
        }
    }
}

/// The lowest value bounds every value from below and is one of them; the highest, from above.
pub proof fn lemma_bounds(variants: Seq<EnumVariant>, n: nat)
    requires
        0 < n <= variants.len(),
    ensures
        forall|i: int| 0 <= i < n ==> min_value(variants, n) <= (#[trigger] variants[i]).value,
        forall|i: int| 0 <= i < n ==> max_value(variants, n) >= (#[trigger] variants[i]).value,
        exists|i: int| 0 <= i < n && min_value(variants, n) == (#[trigger] variants[i]).value,
        exists|i: int| 0 <= i < n && max_value(variants, n) == (#[trigger] variants[i]).value,
    decreases n,
{
    if n > 1 {
        lemma_bounds(variants, (n - 1) as nat);
        let a = choose|i: int|
            0 <= i < n - 1 && min_value(variants, (n - 1) as nat) == (#[trigger] variants[i]).value;
        let b = choose|i: int|
            0 <= i < n - 1 && max_value(variants, (n - 1) as nat) == (#[trigger] variants[i]).value;
        if variants[n - 1].value < min_value(variants, (n - 1) as nat) {
            assert(min_value(variants, n) == variants[n - 1].value);
        } else {
            assert(min_value(variants, n) == variants[a].value);
        }
        if variants[n - 1].value > max_value(variants, (n - 1) as nat) {
            assert(max_value(variants, n) == variants[n - 1].value);
        } else {
            assert(max_value(variants, n) == variants[b].value);
        }
    } else {
        assert(min_value(variants, n) == variants[0].value);
        assert(max_value(variants, n) == variants[0].value);
    }
}

/// The lowest and the highest value of a list of variants; `(0, 0)` for an empty list.
pub fn bounds_of(variants: &[EnumVariant]) -> (r: (i16, i16))
    ensures
        variants@.len() == 0 ==> r == (0i16, 0i16),
        variants@.len() > 0 ==> r.0 == min_value(variants@, variants@.len()) && r.1 == max_value(
            variants@,
            variants@.len(),
        ),
{
    if variants.len() == 0 {
        return (0, 0);
    }
    let mut min: i16 = variants[0].value;
    let mut max: i16 = variants[0].value;
    let mut i: usize = 1;
    while i < variants.len()
        invariant
            1 <= i <= variants@.len(),
            min == min_value(variants@, i as nat),
            max == max_value(variants@, i as nat),
        decreases variants@.len() - i,
    {
        let v: i16 = variants[i].value;
        if v < min {
            min = v;
        }
        if v > max {
            max = v;
        }
        i = i + 1;
    }
    (min, max)
}

/// The lowest and the highest value of a list of variants; `(0, 0)` for an empty list.
pub open spec fn bounds_model(variants: Seq<EnumVariant>) -> (int, int) {
    if variants.len() == 0 {
        (0, 0)
    } else {
        (min_value(variants, variants.len()), max_value(variants, variants.len()))
    }
}

/// A type that is an enumeration with a table.
///
/// A type may say what its variants are, by `variants_model`, and that `variants` gives
/// them, by `obeys_enum_spec`.
pub trait BenEnumInfo {
    /// Whether `variants` of this type gives `variants_model`.
    open spec fn obeys_enum_spec() -> bool {
        false
    }

    /// The variants of the enumeration, in declaration order.
    open spec fn variants_model() -> Seq<EnumVariant> {
        Seq::empty()
    }

    /// The variants of the enumeration.
    fn variants() -> (v: &'static [EnumVariant])
        ensures
            Self::obeys_enum_spec() ==> v@ == Self::variants_model(),
    ;

    /// The lowest and the highest value among the variants; `(0, 0)` where there are none.
    fn bounds() -> (r: (i16, i16))
        ensures
            Self::obeys_enum_spec() ==> r.0 == bounds_model(Self::variants_model()).0 && r.1
                == bounds_model(Self::variants_model()).1,
    {
        bounds_of(Self::variants())
    }
}

/// A type that is an enumeration with 16-bit wire values.
pub trait BenEnumDesc: Sized {
    /// 8 where every value fits a signed byte, else 16.
    const BITS: u8;

    const VARIANTS: &'static [EnumVariant];

    /// The wire value of a variant.
    fn to_i16(self) -> i16;

    /// The variant of a wire value, if it is one.
    fn from_i16(v: i16) -> Option<Self>;
}

/// A type that is a registered enumeration.
pub trait BenEnum: Sized {
    /// The table of the enumeration.
    fn ben_enum_info() -> &'static EnumInfo;

    /// The discriminant of a variant.
    fn to_ben_discriminant(self) -> i32;

    /// The variant of a discriminant, if it is one.
    fn from_ben_discriminant(v: i32) -> Option<Self>;
}

impl EnumInfo {
    /// The lowest and the highest value of the table; `(0, 0)` for a table without variants.
    pub fn bounds(&self) -> (r: (i16, i16))
        ensures
            self.variants@.len() == 0 ==> r == (0i16, 0i16),
            self.variants@.len() > 0 ==> r.0 == min_value(self.variants@, self.variants@.len())
                && r.1 == max_value(self.variants@, self.variants@.len()),
    {
        bounds_of(self.variants.as_slice())
    }

    /// The variants of the table.
    pub fn variants(&self) -> (v: &[EnumVariant])
        ensures
            v@ == self.variants@,
    {
        self.variants.as_slice()
    }

    /// The wire value of the variant at place `index`.
    pub fn to_i16(&self, index: usize) -> (v: i16)
        requires
            index < self.variants@.len(),
        ensures
            v == self.variants@[index as int].value,
    {
        self.variants[index].value
    }

    /// The place of the first variant with the given wire value, if there is one.
    pub fn from_i16(&self, value: i16) -> (r: Option<usize>)
        ensures
            match r {
                Some(i) => i < self.variants@.len() && self.variants@[i as int].value == value
                    && forall|j: int| 0 <= j < i ==> (#[trigger] self.variants@[j]).value != value,
                None => forall|j: int|
                    0 <= j < self.variants@.len() ==> (#[trigger] self.variants@[j]).value != value,
            },
    {
        let mut i: usize = 0;
        while i < self.variants.len()
            invariant
                i <= self.variants@.len(),
                forall|j: int| 0 <= j < i ==> (#[trigger] self.variants@[j]).value != value,
            decreases self.variants@.len() - i,
        {
            if self.variants[i].value == value {
                return Some(i);
            }
            i = i + 1;
        }
        None
    }

    /// The place of the first variant with the given label, if there is one.
    pub fn from_label(&self, label: &str) -> (r: Option<usize>)
        ensures
            match r {
                Some(i) => i < self.variants@.len() && self.variants@[i as int].label@ == label@
                    && forall|j: int| 0 <= j < i ==> (#[trigger] self.variants@[j]).label@ != label@,
                None => forall|j: int|
                    0 <= j < self.variants@.len() ==> (#[trigger] self.variants@[j]).label@
                        != label@,
            },
    {
        let mut i: usize = 0;
        while i < self.variants.len()
            invariant
                i <= self.variants@.len(),
                forall|j: int| 0 <= j < i ==> (#[trigger] self.variants@[j]).label@ != label@,
            decreases self.variants@.len() - i,
        {
            if str_eq(self.variants[i].label, label) {
                return Some(i);
            }
            i = i + 1;
        }
        None
    }
}

/// The first table of the given name in a registry, if there is one.
pub fn lookup_enum<'a>(registry: &'a [EnumInfo], name: &str) -> (r: Option<&'a EnumInfo>)
    ensures
        match r {
            Some(info) => exists|i: int|
                0 <= i < registry@.len() && *info == #[trigger] registry@[i] && info.name@ == name@
                    && forall|j: int| 0 <= j < i ==> (#[trigger] registry@[j]).name@ != name@,
            None => forall|j: int| 0 <= j < registry@.len() ==> (#[trigger] registry@[j]).name@ != name@,
        },
{
    let mut i: usize = 0;
    while i < registry.len()
        invariant
            i <= registry@.len(),
            forall|j: int| 0 <= j < i ==> (#[trigger] registry@[j]).name@ != name@,
        decreases registry@.len() - i,
    {
        if str_eq(registry[i].name, name) {
            return Some(&registry[i]);
        }
        i = i + 1;
    }
    None
}

} // verus!
