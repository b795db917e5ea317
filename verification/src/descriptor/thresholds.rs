//! The level and flag lists of a threshold, as they are written in its declaration.
//!
//! Levels are written `NAME=VALUE, NAME=VALUE`; flags are written
//! `FLAG:LEVEL|LEVEL, FLAG:LEVEL`. White space around names and values does not count, and
//! an entry of white space alone is passed over.
use vstd::prelude::*;
use vstd::string::StrSliceExecFns;
use crate::descriptor::error::DescriptorError;
use crate::text::{
    chars_of, first_sep, is_sep, lemma_first_sep, split, split_ranges, trim_range, trimmed,
};

verus! {

/// The two sides of an entry around its first `sep`, each without the white space at its
/// ends; `None` where the entry has no `sep`.
pub open spec fn entry_of(part: Seq<char>, sep: char) -> Option<(Seq<char>, Seq<char>)> {
    match first_sep(part, sep, sep) {
        Some(i) => if 0 <= i < part.len() {
            Some((trimmed(part.take(i)), trimmed(part.skip(i + 1))))
        } else {
            None
        },
        None => None,
    }
}

/// The entries of the first `n` parts, in order, or the error of the first part that is
/// not blank and has no `sep`.
pub open spec fn entries_of(parts: Seq<Seq<char>>, sep: char, n: nat) -> Result<
    Seq<(Seq<char>, Seq<char>)>,
    DescriptorError,
>
    decreases n,
{
    if n == 0 {
        Ok(Seq::empty())
    } else {
        match entries_of(parts, sep, (n - 1) as nat) {
            Err(e) => Err(e),
            Ok(before) => if trimmed(parts[n - 1]).len() == 0 {
                Ok(before)
            } else {
                match entry_of(parts[n - 1], sep) {
                    Some(entry) => Ok(before.push(entry)),
                    None => Err(DescriptorError::MalformedEntry { index: (n - 1) as usize }),
                }
            },
        }
    }
}

/// The entries of a list that is written with commas between its entries.
pub open spec fn list_entries(raw: Seq<char>, sep: char) -> Result<
    Seq<(Seq<char>, Seq<char>)>,
    DescriptorError,
> {
    entries_of(split(raw, ',', ','), sep, split(raw, ',', ',').len())
}

/// The names among the first `n` parts that are not blank, without the white space at
/// their ends.
pub open spec fn names_kept(parts: Seq<Seq<char>>, n: nat) -> Seq<Seq<char>>
    decreases n,
{
    if n == 0 {
        Seq::empty()
    } else {
        let before = names_kept(parts, (n - 1) as nat);
        if trimmed(parts[n - 1]).len() == 0 {
            before
        } else {
            before.push(trimmed(parts[n - 1]))
        }
    }
}

/// The level names of a flag: the parts between `|`, those that are not blank.
pub open spec fn level_names(text: Seq<char>) -> Seq<Seq<char>> {
    names_kept(split(text, '|', ','), split(text, '|', ',').len())
}

/// An error among the first parts is the error of the whole list.
proof fn lemma_entries_error(parts: Seq<Seq<char>>, sep: char, n: nat, m: nat)
    requires
        n <= m,
        entries_of(parts, sep, n) is Err,
    ensures
        entries_of(parts, sep, m) == entries_of(parts, sep, n),
    decreases m,
{
    if n < m {
        lemma_entries_error(parts, sep, n, (m - 1) as nat);
    }
}

/// The places of the two sides of the entry that runs from `from` to `to`: around its
/// first `sep`, each side without the white space at its ends.
fn entry_ranges(s: &[char], from: usize, to: usize, sep: char) -> (r: Option<
    ((usize, usize), (usize, usize)),
>)
    requires
        from <= to <= s@.len(),
    ensures
        match (r, entry_of(s@.subrange(from as int, to as int), sep)) {
            (Some(((a, b), (c, d))), Some(entry)) => from <= a <= b <= to && from <= c <= d <= to
                && s@.subrange(a as int, b as int) == entry.0 && s@.subrange(c as int, d as int)
                == entry.1,
            (None, None) => true,
            _ => false,
        },
{
    let ghost part = s@.subrange(from as int, to as int);
    let mut j: usize = from;
    while j < to
        invariant
            from <= j <= to <= s@.len(),
            part == s@.subrange(from as int, to as int),
            forall|k: int| from <= k < j ==> !is_sep(s@[k], sep, sep),
        decreases to - j,
    {
        if s[j] == sep {
            proof {
                assert forall|k: int| 0 <= k < j - from implies !is_sep(part[k], sep, sep) by {
                    assert(part[k] == s@[from + k]);
                }
                assert(part[j - from] == s@[j as int]);
                lemma_first_sep(part, sep, sep, j - from);
                assert(part.take(j - from) =~= s@.subrange(from as int, j as int));
                assert(part.skip(j - from + 1) =~= s@.subrange(j + 1, to as int));
            }
            let left = trim_range(s, from, j);
            let right = trim_range(s, j + 1, to);
            return Some((left, right));
        }
        j = j + 1;
    }
    proof {
        assert forall|k: int| 0 <= k < part.len() implies !is_sep(part[k], sep, sep) by {
            assert(part[k] == s@[from + k]);
        }
        lemma_first_sep(part, sep, sep, part.len() as int);
    }
    None
}

/// Whether decoded entries are those that the model gives, or the same error.
pub open spec fn same_entries(
    r: Result<Vec<(&str, &str)>, DescriptorError>,
    m: Result<Seq<(Seq<char>, Seq<char>)>, DescriptorError>,
) -> bool {
    match (r, m) {
        (Ok(a), Ok(b)) => a@.len() == b.len() && forall|i: int|
            0 <= i < b.len() ==> (#[trigger] a@[i]).0@ == b[i].0 && a@[i].1@ == b[i].1,
        (Err(a), Err(b)) => a == b,
        _ => false,
    }
}

/// The entries of a list: the two sides of each entry around its first `sep`.
#[verifier::rlimit(40)]
fn parse_entries<'a>(raw: &'a str, sep: char) -> (r: Result<Vec<(&'a str, &'a str)>, DescriptorError>)
    ensures
        same_entries(r, list_entries(raw@, sep)),
{
    let chars = chars_of(raw);
    let ranges = split_ranges(chars.as_slice(), ',', ',');
    let ghost parts = split(raw@, ',', ',');
    let mut entries: Vec<(&'a str, &'a str)> = Vec::new();
    let mut i: usize = 0;
    while i < ranges.len()
        invariant
            i <= ranges@.len() == parts.len(),
            chars@ == raw@,
            parts == split(raw@, ',', ','),
            forall|k: int|
                0 <= k < ranges@.len() ==> (#[trigger] ranges@[k]).0 <= ranges@[k].1 <= chars@.len()
                    && chars@.subrange(ranges@[k].0 as int, ranges@[k].1 as int) == parts[k],
            same_entries(
                Ok::<Vec<(&str, &str)>, DescriptorError>(entries),
                entries_of(parts, sep, i as nat),
            ),
        decreases ranges@.len() - i,
    {
        let (from, to) = ranges[i];
        let (a, b) = trim_range(chars.as_slice(), from, to);
        if a < b {
            match entry_ranges(chars.as_slice(), from, to, sep) {
                Some(((a, b), (c, d))) => {
                    let ghost before = entries@;
                    entries.push((raw.substring_char(a, b), raw.substring_char(c, d)));
                    proof {
                        let model = entries_of(parts, sep, i as nat)->Ok_0;
                        let entry = entry_of(parts[i as int], sep)->Some_0;
                        assert forall|k: int| 0 <= k < model.push(entry).len() implies (
                        #[trigger] entries@[k]).0@ == model.push(entry)[k].0 && entries@[k].1@
                            == model.push(entry)[k].1 by {
                            if k < before.len() {
                                assert(entries@[k] == before[k]);
                            }
                        }
                    }
                },
                None => {
                    proof {
                        lemma_entries_error(parts, sep, (i + 1) as nat, parts.len());
                    }
                    return Err(DescriptorError::MalformedEntry { index: i });
                },
            }
        }
        i = i + 1;
    }
    Ok(entries)
}

/// The levels of a threshold as they are written: each level's name and the text of its
/// cutoff. An entry without `=` is refused.
pub fn parse_levels<'a>(raw: &'a str) -> (r: Result<Vec<(&'a str, &'a str)>, DescriptorError>)
    ensures
        same_entries(r, list_entries(raw@, '=')),
{
    parse_entries(raw, '=')
}

/// The level names of a flag, from the text behind the flag's colon.
fn parse_level_names<'a>(text: &'a str) -> (names: Vec<&'a str>)
    ensures
        names@.len() == level_names(text@).len(),
        forall|i: int| 0 <= i < names@.len() ==> (#[trigger] names@[i])@ == level_names(text@)[i],
{
    let chars = chars_of(text);
    let ranges = split_ranges(chars.as_slice(), '|', ',');
    let ghost parts = split(text@, '|', ',');
    let mut names: Vec<&'a str> = Vec::new();
    let mut i: usize = 0;
    while i < ranges.len()
        invariant
            i <= ranges@.len() == parts.len(),
            chars@ == text@,
            forall|k: int|
                0 <= k < ranges@.len() ==> (#[trigger] ranges@[k]).0 <= ranges@[k].1 <= chars@.len()
                    && chars@.subrange(ranges@[k].0 as int, ranges@[k].1 as int) == parts[k],
            names@.len() == names_kept(parts, i as nat).len(),
            forall|k: int|
                0 <= k < names@.len() ==> (#[trigger] names@[k])@ == names_kept(parts, i as nat)[k],
        decreases ranges@.len() - i,
    {
        let (from, to) = ranges[i];
        let (a, b) = trim_range(chars.as_slice(), from, to);
        if a < b {
            let ghost before = names@;
            names.push(text.substring_char(a, b));
            proof {
                assert forall|k: int| 0 <= k < names@.len() implies (#[trigger] names@[k])@
                    == names_kept(parts, (i + 1) as nat)[k] by {
                    if k < before.len() {
                        assert(names@[k] == before[k]);
                    }
                }
            }
        }
        i = i + 1;
    }
    names
}

/// Whether decoded flags are those that the model gives, or the same error.
pub open spec fn same_flags(
    r: Result<Vec<(&str, Vec<&str>)>, DescriptorError>,
    m: Result<Seq<(Seq<char>, Seq<char>)>, DescriptorError>,
) -> bool {
    match (r, m) {
        (Ok(a), Ok(b)) => a@.len() == b.len() && forall|i: int|
            0 <= i < b.len() ==> (#[trigger] a@[i]).0@ == b[i].0 && a@[i].1@.len() == level_names(
                b[i].1,
            ).len() && forall|j: int|
                0 <= j < a@[i].1@.len() ==> (#[trigger] a@[i].1@[j])@ == level_names(b[i].1)[j],
        (Err(a), Err(b)) => a == b,
        _ => false,
    }
}

/// The flag groups of a threshold as they are written: each flag's name and the names of
/// its levels. An entry without `:` is refused.
#[verifier::rlimit(40)]
pub fn parse_flags<'a>(raw: &'a str) -> (r: Result<Vec<(&'a str, Vec<&'a str>)>, DescriptorError>)
    ensures
        same_flags(r, list_entries(raw@, ':')),
{
    let entries = parse_entries(raw, ':')?;
    let ghost model = list_entries(raw@, ':')->Ok_0;
    let mut flags: Vec<(&'a str, Vec<&'a str>)> = Vec::new();
    let mut i: usize = 0;
    while i < entries.len()
        invariant
            i <= entries@.len() == model.len(),
            forall|k: int|
                0 <= k < model.len() ==> (#[trigger] entries@[k]).0@ == model[k].0 && entries@[k].1@
                    == model[k].1,
            flags@.len() == i,
            forall|k: int|
                0 <= k < i ==> (#[trigger] flags@[k]).0@ == model[k].0 && flags@[k].1@.len()
                    == level_names(model[k].1).len() && forall|j: int|
                    0 <= j < flags@[k].1@.len() ==> (#[trigger] flags@[k].1@[j])@ == level_names(
                        model[k].1,
                    )[j],
        decreases entries@.len() - i,
    {
        let (flag, text) = entries[i];
        let names = parse_level_names(text);
        let ghost before = flags@;
        flags.push((flag, names));
        proof {
            assert forall|k: int| 0 <= k < i + 1 implies (#[trigger] flags@[k]).0@ == model[k].0
                && flags@[k].1@.len() == level_names(model[k].1).len() && forall|j: int|
                0 <= j < flags@[k].1@.len() ==> (#[trigger] flags@[k].1@[j])@ == level_names(
                    model[k].1,
                )[j] by {
                if k < i {
                    assert(flags@[k] == before[k]);
                }
            }
        }
        i = i + 1;
    }
    Ok(flags)
}

} // verus!
