//! The redaction engine: rewrites the string fields that a rule names.
use vstd::prelude::*;
use vstd::string::{StrSliceExecFns, StringExecFns, StringSliceAdditionalSpecFns};
use vstd::utf8::encode_utf8;
use crate::contracts::blot::{BlotFieldRule, BlotOp};
use crate::digest::{hex_chars, hex_encode, lemma_hex_chars, sha256, sha256_digest, is_lower_hex};

verus! {

/// A row that gives the string of a field by the field's name.
///
/// A type of rows may say what its rows hold, by `text_model`, and that its getters answer
/// from that, by `obeys_get_spec`. Of a type that does not say so, nothing is known of what
/// its getters answer.
pub trait RowGet {
    /// Whether the getters of this type answer from `text_model`.
    open spec fn obeys_get_spec() -> bool {
        false
    }

    /// The string that the row holds for the named field, and `None` where it has none.
    open spec fn text_model(&self, field: Seq<char>) -> Option<Seq<char>> {
        None
    }

    /// The string of the named field, or `None` where the row has none.
    fn get_str(&self, field: &str) -> (r: Option<&str>)
        ensures
            Self::obeys_get_spec() ==> match (r, self.text_model(field@)) {
                (Some(a), Some(b)) => a@ == b,
                (None, None) => true,
                _ => false,
            },
    ;

    /// The string of the named field, as a value of its own.
    fn get_owned(&self, field: &str) -> (r: Option<String>)
        ensures
            Self::obeys_get_spec() ==> match (r, self.text_model(field@)) {
                (Some(a), Some(b)) => a@ == b,
                (None, None) => true,
                _ => false,
            },
    {
        match self.get_str(field) {
            Some(s) => Some(s.to_owned()),
            None => None,
        }
    }
}

/// A row that takes the string of a field.
///
/// A type of rows may say what its rows hold, by `fields_model`, and that storing a string
/// sets the field in it, by `obeys_put_spec`.
pub trait RowPut {
    /// Whether `put_str` of this type sets the field in `fields_model`.
    open spec fn obeys_put_spec() -> bool {
        false
    }

    /// The strings that the row holds, by the names of their fields.
    open spec fn fields_model(&self) -> Map<Seq<char>, Seq<char>> {
        Map::empty()
    }

    /// Stores `value` under the name `field`. What was stored under that name before is
    /// replaced.
    fn put_str(&mut self, field: &str, value: String)
        ensures
            Self::obeys_put_spec() ==> final(self).fields_model() == old(self).fields_model().insert(
                field@,
                value@,
            ),
    ;
}

/// `n` times the character `*`.
pub open spec fn stars(n: int) -> Seq<char> {
    Seq::new(n as nat, |i: int| '*')
}

/// The redacted form of a value. Lengths count characters.
pub open spec fn redact(raw: Seq<char>, op: BlotOp) -> Seq<char> {
    match op {
        BlotOp::MaskAll => stars(raw.len() as int),
        BlotOp::MaskSuffix { keep } => if raw.len() <= keep {
            raw
        } else {
            stars(raw.len() - keep) + raw.skip(raw.len() - keep)
        },
        BlotOp::MaskPrefix { keep } => if raw.len() <= keep {
            raw
        } else {
            raw.take(keep as int) + stars(raw.len() - keep)
        },
        BlotOp::HashSha256 => hex_chars(sha256(encode_utf8(raw))),
        BlotOp::Drop => Seq::empty(),
        BlotOp::Truncate { len } => if raw.len() <= len {
            raw
        } else {
            raw.take(len as int)
        },
    }
}

/// Masking keeps the number of characters, and every character that it replaces becomes
/// `*`; truncation keeps no more than asked for; dropping keeps nothing.
pub proof fn lemma_redact_shape(raw: Seq<char>, keep: usize)
    ensures
        redact(raw, BlotOp::MaskAll).len() == raw.len(),
        forall|i: int| 0 <= i < raw.len() ==> redact(raw, BlotOp::MaskAll)[i] == '*',
        redact(raw, BlotOp::MaskSuffix { keep }).len() == raw.len(),
        forall|i: int|
            0 <= i < raw.len() ==> #[trigger] redact(raw, BlotOp::MaskSuffix { keep })[i] == if i
                < raw.len() - keep {
                '*'
            } else {
                raw[i]
            },
        redact(raw, BlotOp::MaskPrefix { keep }).len() == raw.len(),
        forall|i: int|
            0 <= i < raw.len() ==> #[trigger] redact(raw, BlotOp::MaskPrefix { keep })[i] == if i
                < keep {
                raw[i]
            } else {
                '*'
            },
        redact(raw, BlotOp::Truncate { len: keep }) == raw.take(
            if raw.len() <= keep {
                raw.len() as int
            } else {
                keep as int
            },
        ),
        redact(raw, BlotOp::Drop).len() == 0,
        redact(Seq::<char>::empty(), BlotOp::MaskAll) == Seq::<char>::empty(),
{
    assert(raw.take(raw.len() as int) =~= raw);
    assert(redact(Seq::<char>::empty(), BlotOp::MaskAll) =~= Seq::<char>::empty());
}

/// Masking twice is masking once; so is truncating and dropping.
pub proof fn lemma_redact_idempotent(raw: Seq<char>, keep: usize)
    ensures
        redact(redact(raw, BlotOp::MaskAll), BlotOp::MaskAll) == redact(raw, BlotOp::MaskAll),
        redact(redact(raw, BlotOp::MaskSuffix { keep }), BlotOp::MaskSuffix { keep }) == redact(
            raw,
            BlotOp::MaskSuffix { keep },
        ),
        redact(redact(raw, BlotOp::MaskPrefix { keep }), BlotOp::MaskPrefix { keep }) == redact(
            raw,
            BlotOp::MaskPrefix { keep },
        ),
        redact(redact(raw, BlotOp::Truncate { len: keep }), BlotOp::Truncate { len: keep })
            == redact(raw, BlotOp::Truncate { len: keep }),
        redact(redact(raw, BlotOp::Drop), BlotOp::Drop) == redact(raw, BlotOp::Drop),
{
    lemma_redact_shape(raw, keep);
    let all = redact(raw, BlotOp::MaskAll);
    assert(redact(all, BlotOp::MaskAll) =~= all);
    let suffix = redact(raw, BlotOp::MaskSuffix { keep });
    assert(redact(suffix, BlotOp::MaskSuffix { keep }) =~= suffix);
    let prefix = redact(raw, BlotOp::MaskPrefix { keep });
    assert(redact(prefix, BlotOp::MaskPrefix { keep }) =~= prefix);
    let cut = redact(raw, BlotOp::Truncate { len: keep });
    assert(redact(cut, BlotOp::Truncate { len: keep }) =~= cut);
}

/// Appends `n` times the character `*`.
fn push_stars(s: &mut String, n: usize)
    ensures
        final(s)@ == old(s)@ + stars(n as int),
{
    let mut i: usize = 0;
    proof {
        assert(s@ + stars(0) =~= s@);
    }
    while i < n
        invariant
            i <= n,
            s@ == old(s)@ + stars(i as int),
        decreases n - i,
    {
        proof {
            reveal_strlit("*");
            assert(old(s)@ + stars(i as int) + "*"@ =~= old(s)@ + stars(i + 1));
        }
        s.append("*");
        i = i + 1;
    }
}

/// Redacts one value.
///
/// Every operation is total: it gives a result for any string, the empty one too. The
/// SHA-256 form is always 64 lowercase hexadecimal digits.
pub fn apply_op(raw: &str, op: &BlotOp) -> (r: String)
    ensures
        r@ == redact(raw@, *op),
        op is HashSha256 ==> r@.len() == 64 && forall|i: int|
            0 <= i < 64 ==> is_lower_hex(#[trigger] r@[i]),
{
    match op {
        BlotOp::MaskAll => {
            let mut out = String::new();
            push_stars(&mut out, raw.unicode_len());
            proof {
                assert(out@ =~= stars(raw@.len() as int));
            }
            out
        },
        BlotOp::MaskSuffix { keep } => {
            let n: usize = raw.unicode_len();
            if n <= *keep {
                raw.to_owned()
            } else {
                let mut out = String::new();
                push_stars(&mut out, n - *keep);
                out.append(raw.substring_char(n - *keep, n));
                proof {
                    assert(raw@.subrange(n - *keep, n as int) =~= raw@.skip(n - *keep));
                    assert(out@ =~= stars(n - *keep) + raw@.skip(n - *keep));
                }
                out
            }
        },
        BlotOp::MaskPrefix { keep } => {
            let n: usize = raw.unicode_len();
            if n <= *keep {
                raw.to_owned()
            } else {
                let mut out = raw.substring_char(0, *keep).to_owned();
                push_stars(&mut out, n - *keep);
                proof {
                    assert(raw@.subrange(0, *keep as int) =~= raw@.take(*keep as int));
                }
                out
            }
        },
        BlotOp::Truncate { len } => {
            let n: usize = raw.unicode_len();
            if n <= *len {
                raw.to_owned()
            } else {
                let out = raw.substring_char(0, *len).to_owned();
                proof {
                    assert(raw@.subrange(0, *len as int) =~= raw@.take(*len as int));
                }
                out
            }
        },
        BlotOp::HashSha256 => {
            let digest = sha256_digest(raw.as_bytes());
            proof {
                lemma_hex_chars(digest@);
            }
            hex_encode(digest.as_slice())
        },
        BlotOp::Drop => String::new(),
    }
}

/// Applies a list of redaction rules to rows.
pub struct BlotEngine<'a> {
    rules: &'a [BlotFieldRule],
}

impl<'a> BlotEngine<'a> {
    /// The rules of the engine.
    pub closed spec fn rules(&self) -> Seq<BlotFieldRule> {
        self.rules@
    }

    /// An engine for the given rules.
    pub fn new(rules: &'a [BlotFieldRule]) -> (engine: Self)
        ensures
            engine.rules() == rules@,
    {
        BlotEngine { rules }
    }

    /// What the rules make of the values that a row gave: for rule `i` the redacted form
    /// of value `i`, and nothing where the row gave none for the rule's field.
    pub open spec fn redacted(&self, raws: Seq<Option<&str>>, i: int) -> Option<Seq<char>> {
        if 0 <= i < raws.len() {
            match raws[i] {
                Some(raw) => Some(redact(raw@, self.rules()[i].op)),
                None => None,
            }
        } else {
            None
        }
    }

    /// Redacts the values that a row gave for the fields of the rules, value `i` by rule
    /// `i`. A rule without a value gives none.
    pub fn redact_all(&self, raws: &[Option<&str>]) -> (out: Vec<Option<String>>)
        ensures
            out@.len() == self.rules().len(),
            forall|i: int|
                0 <= i < out@.len() ==> match (#[trigger] out@[i], self.redacted(raws@, i)) {
                    (Some(a), Some(b)) => a@ == b,
                    (None, None) => true,
                    _ => false,
                },
    {
        let mut out: Vec<Option<String>> = Vec::new();
        let mut i: usize = 0;
        while i < self.rules.len()
            invariant
                i <= self.rules@.len(),
                out@.len() == i,
                forall|j: int|
                    0 <= j < i ==> match (#[trigger] out@[j], self.redacted(raws@, j)) {
                        (Some(a), Some(b)) => a@ == b,
                        (None, None) => true,
                        _ => false,
                    },
            decreases self.rules@.len() - i,
        {
            let value = if i < raws.len() {
                match raws[i] {
                    Some(raw) => Some(apply_op(raw, &self.rules[i].op)),
                    None => None,
                }
            } else {
                None
            };
            out.push(value);
            i = i + 1;
        }
        out
    }

    /// The fields of an output after the first `n` rules have been applied to an input on
    /// top of the fields `start`: each rule in turn sets its field to the redacted form of
    /// what the input holds for it, and a rule whose field the input lacks sets nothing.
    pub open spec fn applied<R: RowGet + ?Sized>(
        &self,
        input: &R,
        start: Map<Seq<char>, Seq<char>>,
        n: nat,
    ) -> Map<Seq<char>, Seq<char>>
        decreases n,
    {
        if n == 0 {
            start
        } else {
            let before = self.applied(input, start, (n - 1) as nat);
            let rule = self.rules()[n - 1];
            match input.text_model(rule.field@) {
                Some(raw) => before.insert(rule.field@, redact(raw, rule.op)),
                None => before,
            }
        }
    }

    /// Redacts a row: for each rule in order, where the input has a string for the rule's
    /// field, the redacted string is stored in the output under the same name. A field that
    /// the input does not have is passed over.
    ///
    /// Of rows that answer from their models, the output holds afterwards what it held
    /// before, with the field of every rule that the input has set to its redacted form.
    pub fn apply<R, W>(&self, input: &R, output: &mut W) where R: RowGet + ?Sized, W: RowPut + ?Sized
        ensures
            R::obeys_get_spec() && W::obeys_put_spec() ==> final(output).fields_model()
                == self.applied(input, old(output).fields_model(), self.rules().len()),
    {
        let mut i: usize = 0;
        while i < self.rules.len()
            invariant
                i <= self.rules@.len(),
                R::obeys_get_spec() && W::obeys_put_spec() ==> output.fields_model()
                    == self.applied(input, old(output).fields_model(), i as nat),
            decreases self.rules@.len() - i,
        {
            let rule = &self.rules[i];
            if let Some(raw) = input.get_str(rule.field) {
                let sanitized = apply_op(raw, &rule.op);
                output.put_str(rule.field, sanitized);
            }
            i = i + 1;
        }
    }
}

} // verus!
