//! Policy rules: conditions on a bitmask, each with an action, matched in order.
use vstd::prelude::*;

verus! {

/// An accumulated bitmask.
pub type Bits = u128;

/// The mask with only bit `i` set.
pub fn bit(i: u8) -> (r: Bits)
    requires
        i < 128,
    ensures
        r == 1u128 << i,
{
    1u128 << i
}

/// The bitmask that the matcher is given: the bits of an evaluation, with the bits that
/// were set beforehand.
pub open spec fn merged_bits(mask: u64, seed: Bits) -> Bits {
    (mask as u128) | seed
}

/// Merges the bits of an evaluation with bits that were set beforehand.
pub fn merge_bits(mask: u64, seed: Bits) -> (r: Bits)
    ensures
        r == merged_bits(mask, seed),
{
    (mask as u128) | seed
}

/// What is done with an event.
#[derive(Debug, Clone, Copy)]
pub enum Action {
    Pass,
    Sample(u8),
    Quarantine(&'static str),
    RouteC,
    RouteD,
    Pause,
}

/// A condition on a bitmask, with the action taken where it is met.
#[derive(Debug, Clone, Copy)]
pub struct Rule {
    /// Bits that must all be set.
    pub all: Bits,
    /// Bits of which one must be set, unless the mask is empty.
    pub any: Bits,
    /// Bits of which none may be set.
    pub none: Bits,
    pub action: Action,
    /// Rules of higher priority are tried first.
    pub priority: u8,
    pub id: u32,
}

/// The priority of a rule that is declared without one.
pub const DEFAULT_PRIORITY: u8 = 100;

impl Rule {
    /// The rule that asks for all bits of `all` and none of `none`, at the given priority.
    pub fn all_none(all: Bits, none: Bits, action: Action, priority: u8, id: u32) -> (r: Rule)
        ensures
            r == (Rule { all, any: 0, none, action, priority, id }),
    {
        Rule { all, any: 0, none, action, priority, id }
    }

    /// The rule that asks for all bits of `all`, at the default priority.
    pub fn all_of(all: Bits, action: Action, id: u32) -> (r: Rule)
        ensures
            r == (Rule { all, any: 0, none: 0, action, priority: DEFAULT_PRIORITY, id }),
    {
        Rule { all, any: 0, none: 0, action, priority: DEFAULT_PRIORITY, id }
    }

    /// The rule that asks for one bit of `any`, at the given priority.
    pub fn any_at(any: Bits, action: Action, priority: u8, id: u32) -> (r: Rule)
        ensures
            r == (Rule { all: 0, any, none: 0, action, priority, id }),
    {
        Rule { all: 0, any, none: 0, action, priority, id }
    }

    /// The rule that asks for one bit of `any`, at the default priority.
    pub fn any_of(any: Bits, action: Action, id: u32) -> (r: Rule)
        ensures
            r == (Rule { all: 0, any, none: 0, action, priority: DEFAULT_PRIORITY, id }),
    {
        Rule { all: 0, any, none: 0, action, priority: DEFAULT_PRIORITY, id }
    }

    /// The rule of the lowest priority that passes every event.
    pub fn pass(id: u32) -> (r: Rule)
        ensures
            r == (Rule { all: 0, any: 0, none: 0, action: Action::Pass, priority: 0, id }),
            forall|bits: Bits| r.matches(bits),
    {
        let r = Rule { all: 0, any: 0, none: 0, action: Action::Pass, priority: 0, id };
        proof {
            assert forall|bits: Bits| r.matches(bits) by {
                assert(bits & 0u128 == 0u128) by (bit_vector);
            }
        }
        r
    }

    /// Whether a bitmask meets the rule.
    pub open spec fn matches(&self, bits: Bits) -> bool {
        &&& (bits & self.all) == self.all
        &&& (self.any == 0 || (bits & self.any) != 0)
        &&& (bits & self.none) == 0
    }
}

/// The action of the first rule, in the given order, that the bitmask meets;
/// `Pass` where it meets none.
pub open spec fn decision(bits: Bits, rules: Seq<Rule>) -> Action
    decreases rules.len(),
{
    if rules.len() == 0 {
        Action::Pass
    } else if rules[0].matches(bits) {
        rules[0].action
    } else {
        decision(bits, rules.drop_first())
    }
}

/// Maps a bitmask to one action: that of the first rule that it meets, `Pass` where it
/// meets none. The rules are tried in the order in which they stand.
pub fn eval(bits: Bits, rules: &[Rule]) -> (a: Action)
    ensures
        a == decision(bits, rules@),
{
    let mut i: usize = 0;
    proof {
        assert(rules@.skip(0) =~= rules@);
    }
    while i < rules.len()
        invariant
            i <= rules@.len(),
            decision(bits, rules@) == decision(bits, rules@.skip(i as int)),
        decreases rules@.len() - i,
    {
        let r = &rules[i];
        proof {
            assert(rules@.skip(i as int)[0] == rules@[i as int]);
            assert(rules@.skip(i as int).drop_first() =~= rules@.skip(i + 1));
        }
        if (bits & r.all) == r.all && (r.any == 0 || (bits & r.any) != 0) && (bits & r.none) == 0 {
            return r.action;
        }
        i = i + 1;
    }
    Action::Pass
}

/// The decision is the action of the first rule that the bitmask meets.
pub proof fn lemma_decision_first_match(bits: Bits, rules: Seq<Rule>, i: int)
    requires
        0 <= i < rules.len(),
        rules[i].matches(bits),
        forall|j: int| 0 <= j < i ==> !(#[trigger] rules[j]).matches(bits),
    ensures
        decision(bits, rules) == rules[i].action,
    decreases rules.len(),
{
    if i > 0 {
        let rest = rules.drop_first();
        assert(rest[i - 1] == rules[i]);
        assert forall|j: int| 0 <= j < i - 1 implies !(#[trigger] rest[j]).matches(bits) by {
            assert(rest[j] == rules[j + 1]);
        }
        lemma_decision_first_match(bits, rest, i - 1);
    }
}

/// A bitmask that meets no rule is passed.
pub proof fn lemma_decision_no_match(bits: Bits, rules: Seq<Rule>)
    requires
        forall|j: int| 0 <= j < rules.len() ==> !(#[trigger] rules[j]).matches(bits),
    ensures
        decision(bits, rules) == Action::Pass,
    decreases rules.len(),
{
    if rules.len() > 0 {
        let rest = rules.drop_first();
        assert forall|j: int| 0 <= j < rest.len() implies !(#[trigger] rest[j]).matches(bits) by {
            assert(rest[j] == rules[j + 1]);
        }
        lemma_decision_no_match(bits, rest);
    }
}

/// Whether a bitmask meets one of the rules.
pub open spec fn has_match(bits: Bits, rules: Seq<Rule>) -> bool {
    exists|i: int| 0 <= i < rules.len() && (#[trigger] rules[i]).matches(bits)
}

/// The rules of one priority among the first `n`, in the order in which they stand.
pub open spec fn bucket(rules: Seq<Rule>, priority: int, n: nat) -> Seq<Rule>
    decreases n,
{
    if n == 0 {
        Seq::empty()
    } else {
        let before = bucket(rules, priority, (n - 1) as nat);
        if rules[n - 1].priority == priority {
            before.push(rules[n - 1])
        } else {
            before
        }
    }
}

/// The rules of the `k` highest priorities: those of priority 255 first, then those of
/// 254, and so on; within one priority, in the order in which they stand.
pub open spec fn ranked(rules: Seq<Rule>, k: nat) -> Seq<Rule>
    decreases k,
{
    if k == 0 {
        Seq::empty()
    } else {
        ranked(rules, (k - 1) as nat) + bucket(rules, 256 - k, rules.len())
    }
}

/// The rules in the order in which they are tried: by descending priority, and rules of
/// equal priority in the order in which they were declared.
pub open spec fn by_priority(rules: Seq<Rule>) -> Seq<Rule> {
    ranked(rules, 256)
}

/// Orders rules for matching: by descending priority, and rules of equal priority in the
/// order in which they were declared.
pub fn sort_rules(rules: &[Rule]) -> (sorted: Vec<Rule>)
    ensures
        sorted@ == by_priority(rules@),
{
    let mut sorted: Vec<Rule> = Vec::new();
    let mut k: usize = 0;
    while k < 256
        invariant
            k <= 256,
            sorted@ == ranked(rules@, k as nat),
        decreases 256 - k,
    {
        let priority: u8 = (255 - k) as u8;
        let ghost before = sorted@;
        let mut i: usize = 0;
        while i < rules.len()
            invariant
                i <= rules@.len(),
                k < 256,
                priority == 255 - k,
                sorted@ == before + bucket(rules@, priority as int, i as nat),
            decreases rules@.len() - i,
        {
            if rules[i].priority == priority {
                sorted.push(rules[i]);
                proof {
                    assert(sorted@ =~= before + bucket(rules@, priority as int, (i + 1) as nat));
                }
            }
            i = i + 1;
        }
        k = k + 1;
    }
    sorted
}

/// Every rule of a bucket is a rule of the given priority.
pub proof fn lemma_bucket_members(rules: Seq<Rule>, priority: int, n: nat)
    requires
        n <= rules.len(),
    ensures
        forall|i: int|
            0 <= i < bucket(rules, priority, n).len() ==> (#[trigger] bucket(
                rules,
                priority,
                n,
            )[i]).priority == priority,
    decreases n,
{
    if n > 0 {
        lemma_bucket_members(rules, priority, (n - 1) as nat);
    }
}

/// The first `k` buckets hold rules of the `k` highest priorities only.
pub proof fn lemma_ranked_members(rules: Seq<Rule>, k: nat)
    requires
        k <= 256,
    ensures
        forall|i: int|
            0 <= i < ranked(rules, k).len() ==> (#[trigger] ranked(rules, k)[i]).priority >= 256
                - k,
    decreases k,
{
    if k > 0 {
        lemma_ranked_members(rules, (k - 1) as nat);
        lemma_bucket_members(rules, 256 - k, rules.len());
    }
}

/// The order of matching is by descending priority.
pub proof fn lemma_ranked_descending(rules: Seq<Rule>, k: nat)
    requires
        k <= 256,
    ensures
        forall|i: int, j: int|
            0 <= i < j < ranked(rules, k).len() ==> (#[trigger] ranked(rules, k)[i]).priority
                >= (#[trigger] ranked(rules, k)[j]).priority,
    decreases k,
{
    if k > 0 {
        lemma_ranked_descending(rules, (k - 1) as nat);
        lemma_ranked_members(rules, (k - 1) as nat);
        lemma_bucket_members(rules, 256 - k, rules.len());
    }
}

/// A bucket of a list with one more rule at its end.
proof fn lemma_bucket_push(rules: Seq<Rule>, r: Rule, priority: int)
    ensures
        bucket(rules.push(r), priority, rules.len() + 1) == if r.priority == priority {
            bucket(rules, priority, rules.len()).push(r)
        } else {
            bucket(rules, priority, rules.len())
        },
{
    lemma_bucket_prefix(rules.push(r), rules, priority, rules.len());
}

/// A bucket of the first `n` rules looks at the first `n` rules only.
proof fn lemma_bucket_prefix(a: Seq<Rule>, b: Seq<Rule>, priority: int, n: nat)
    requires
        n <= a.len(),
        n <= b.len(),
        forall|i: int| 0 <= i < n ==> a[i] == b[i],
    ensures
        bucket(a, priority, n) == bucket(b, priority, n),
    decreases n,
{
    if n > 0 {
        lemma_bucket_prefix(a, b, priority, (n - 1) as nat);
    }
}

/// A bucket of two lists, one after the other, is the bucket of the first and then that of
/// the second.
proof fn lemma_bucket_concat(a: Seq<Rule>, b: Seq<Rule>, priority: int, n: nat)
    requires
        n <= b.len(),
    ensures
        bucket(a + b, priority, a.len() + n) == bucket(a, priority, a.len()) + bucket(
            b,
            priority,
            n,
        ),
    decreases n,
{
    if n == 0 {
        lemma_bucket_prefix(a + b, a, priority, a.len());
        assert(bucket(a, priority, a.len()) + Seq::<Rule>::empty() =~= bucket(
            a,
            priority,
            a.len(),
        ));
    } else {
        lemma_bucket_concat(a, b, priority, (n - 1) as nat);
        assert((a + b)[a.len() + n - 1] == b[n - 1]);
        let before = bucket(a, priority, a.len()) + bucket(b, priority, (n - 1) as nat);
        if b[n - 1].priority == priority {
            assert(before.push(b[n - 1]) =~= bucket(a, priority, a.len()) + bucket(
                b,
                priority,
                (n - 1) as nat,
            ).push(b[n - 1]));
        }
    }
}

/// A bucket of a bucket: the same bucket for the same priority, nothing for another.
proof fn lemma_bucket_of_bucket(rules: Seq<Rule>, p: int, q: int, n: nat)
    requires
        n <= rules.len(),
    ensures
        bucket(bucket(rules, p, n), q, bucket(rules, p, n).len()) == if p == q {
            bucket(rules, p, n)
        } else {
            Seq::<Rule>::empty()
        },
    decreases n,
{
    if n > 0 {
        lemma_bucket_of_bucket(rules, p, q, (n - 1) as nat);
        if rules[n - 1].priority == p {
            lemma_bucket_push(bucket(rules, p, (n - 1) as nat), rules[n - 1], q);
        }
    }
}

/// Ordering loses and adds nothing, and keeps the rules of each priority in the order in
/// which they were declared: the rules of a priority among the ordered rules are those
/// among the declared ones.
pub proof fn lemma_ranked_stable(rules: Seq<Rule>, priority: int, k: nat)
    requires
        k <= 256,
    ensures
        bucket(ranked(rules, k), priority, ranked(rules, k).len()) == if 256 - k <= priority
            < 256 {
            bucket(rules, priority, rules.len())
        } else {
            Seq::<Rule>::empty()
        },
    decreases k,
{
    if k > 0 {
        let before = ranked(rules, (k - 1) as nat);
        let b = bucket(rules, 256 - k, rules.len());
        lemma_ranked_stable(rules, priority, (k - 1) as nat);
        lemma_bucket_concat(before, b, priority, b.len());
        lemma_bucket_of_bucket(rules, 256 - k, priority, rules.len());
        let x = bucket(before, priority, before.len());
        let y = bucket(b, priority, b.len());
        assert(x + Seq::<Rule>::empty() =~= x);
        assert(Seq::<Rule>::empty() + y =~= y);
    }
}

/// The decision over two lists, one after the other: that of the first where the bitmask
/// meets one of its rules, else that of the second.
pub proof fn lemma_decision_concat(bits: Bits, a: Seq<Rule>, b: Seq<Rule>)
    ensures
        decision(bits, a + b) == if has_match(bits, a) {
            decision(bits, a)
        } else {
            decision(bits, b)
        },
        has_match(bits, a + b) == (has_match(bits, a) || has_match(bits, b)),
    decreases a.len(),
{
    if a.len() == 0 {
        assert(a + b =~= b);
    } else {
        let rest = a.drop_first();
        assert((a + b).drop_first() =~= rest + b);
        assert((a + b)[0] == a[0]);
        lemma_decision_concat(bits, rest, b);
        if a[0].matches(bits) {
            assert(has_match(bits, a));
        } else {
            if has_match(bits, a) {
                let i = choose|i: int| 0 <= i < a.len() && (#[trigger] a[i]).matches(bits);
                assert(rest[i - 1] == a[i]);
                assert(has_match(bits, rest));
            }
            if has_match(bits, rest) {
                let i = choose|i: int| 0 <= i < rest.len() && (#[trigger] rest[i]).matches(bits);
                assert(a[i + 1] == rest[i]);
            }
        }
    }
    if has_match(bits, a) {
        let i = choose|i: int| 0 <= i < a.len() && (#[trigger] a[i]).matches(bits);
        assert((a + b)[i] == a[i]);
    }
    if has_match(bits, b) {
        let i = choose|i: int| 0 <= i < b.len() && (#[trigger] b[i]).matches(bits);
        assert((a + b)[a.len() + i] == b[i]);
    }
    if has_match(bits, a + b) {
        let i = choose|i: int| 0 <= i < (a + b).len() && (#[trigger] (a + b)[i]).matches(bits);
        if i < a.len() {
            assert(a[i] == (a + b)[i]);
        } else {
            assert(b[i - a.len()] == (a + b)[i]);
        }
    }
}

/// The decision over a bucket: the action of the first rule of that priority, among the
/// first `n`, that the bitmask meets.
pub proof fn lemma_bucket_decision(bits: Bits, rules: Seq<Rule>, priority: int, n: nat)
    requires
        n <= rules.len(),
    ensures
        has_match(bits, bucket(rules, priority, n)) <==> exists|j: int|
            0 <= j < n && (#[trigger] rules[j]).priority == priority && rules[j].matches(bits),
        forall|i: int|
            0 <= i < n && (#[trigger] rules[i]).priority == priority && rules[i].matches(bits) && (
            forall|j: int|
                0 <= j < i && (#[trigger] rules[j]).priority == priority ==> !rules[j].matches(bits))
                ==> decision(bits, bucket(rules, priority, n)) == rules[i].action,
    decreases n,
{
    if n > 0 {
        let before = bucket(rules, priority, (n - 1) as nat);
        let last = rules[n - 1];
        lemma_bucket_decision(bits, rules, priority, (n - 1) as nat);
        if last.priority == priority {
            let one = seq![last];
            assert(before.push(last) =~= before + one);
            lemma_decision_concat(bits, before, one);
            assert(one.drop_first() =~= Seq::<Rule>::empty());
            assert(decision(bits, Seq::<Rule>::empty()) == Action::Pass);
            assert(one[0] == last);
            assert(one.len() == 1);
            assert(has_match(bits, one) == last.matches(bits)) by {
                if last.matches(bits) {
                    assert(one[0].matches(bits));
                }
            }
            assert(decision(bits, one) == if last.matches(bits) {
                last.action
            } else {
                Action::Pass
            });
        }
    }
}

/// Among the rules that a bitmask meets, the one that decides is the one of the highest
/// priority, and among several of that priority, the one declared first.
pub proof fn lemma_priority_selection(bits: Bits, rules: Seq<Rule>, i: int)
    requires
        0 <= i < rules.len(),
        rules[i].matches(bits),
        forall|j: int|
            0 <= j < rules.len() && (#[trigger] rules[j]).matches(bits) ==> rules[j].priority
                < rules[i].priority || (rules[j].priority == rules[i].priority && j >= i),
    ensures
        decision(bits, by_priority(rules)) == rules[i].action,
{
    lemma_ranked_selection(bits, rules, i, 256);
}

/// The decision over the first `k` buckets, where the deciding rule is known.
proof fn lemma_ranked_selection(bits: Bits, rules: Seq<Rule>, i: int, k: nat)
    requires
        k <= 256,
        0 <= i < rules.len(),
        rules[i].matches(bits),
        forall|j: int|
            0 <= j < rules.len() && (#[trigger] rules[j]).matches(bits) ==> rules[j].priority
                < rules[i].priority || (rules[j].priority == rules[i].priority && j >= i),
    ensures
        k + rules[i].priority < 256 ==> !has_match(bits, ranked(rules, k)),
        k + rules[i].priority >= 256 ==> has_match(bits, ranked(rules, k)) && decision(
            bits,
            ranked(rules, k),
        ) == rules[i].action,
    decreases k,
{
    if k > 0 {
        let p = 256 - k;
        let before = ranked(rules, (k - 1) as nat);
        let b = bucket(rules, p, rules.len());
        lemma_ranked_selection(bits, rules, i, (k - 1) as nat);
        lemma_decision_concat(bits, before, b);
        lemma_bucket_decision(bits, rules, p, rules.len());
    }
}

/// Where a bitmask meets no rule, it is passed under the order of matching too.
pub proof fn lemma_priority_no_match(bits: Bits, rules: Seq<Rule>, k: nat)
    requires
        k <= 256,
        !has_match(bits, rules),
    ensures
        !has_match(bits, ranked(rules, k)),
        decision(bits, ranked(rules, k)) == Action::Pass,
    decreases k,
{
    if k > 0 {
        let p = 256 - k;
        let before = ranked(rules, (k - 1) as nat);
        let b = bucket(rules, p, rules.len());
        lemma_priority_no_match(bits, rules, (k - 1) as nat);
        lemma_decision_concat(bits, before, b);
        lemma_bucket_decision(bits, rules, p, rules.len());
        lemma_decision_no_match(bits, b);
    }
}

} // verus!
