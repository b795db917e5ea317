use ben::bitspec::policy::PolicyKey;
use ben::contracts::rules::{bit, eval, sort_rules, Action, Bits, Rule};
use std::sync::Arc;

const A: Bits = 1 << 0;
const B: Bits = 1 << 1;
const C: Bits = 1 << 2;

fn rule(all: Bits, any: Bits, none: Bits, action: Action, priority: u8, id: u32) -> Rule {
    Rule {
        all,
        any,
        none,
        action,
        priority,
        id,
    }
}

#[test]
fn bit_is_a_shift() {
    assert_eq!(bit(0), 1);
    assert_eq!(bit(1), 2);
    assert_eq!(bit(64), 1u128 << 64);
    assert_eq!(bit(127), 1u128 << 127);
}

#[test]
fn policy_priority() {
    // priority 100 matching all=A, action Quarantine; priority 50 matching any=A|B, action
    // RouteC; a bitmask with B only goes to RouteC
    let rules = sort_rules(&[
        rule(A, 0, 0, Action::Quarantine("hot"), 100, 1),
        rule(0, A | B, 0, Action::RouteC, 50, 2),
    ]);
    assert!(matches!(eval(B, &rules), Action::RouteC));
    // with A the rule of higher priority decides
    assert!(matches!(eval(A, &rules), Action::Quarantine("hot")));
    assert!(matches!(eval(A | B, &rules), Action::Quarantine("hot")));
    // declared the other way round, the decision is the same
    let rules = sort_rules(&[
        rule(0, A | B, 0, Action::RouteC, 50, 2),
        rule(A, 0, 0, Action::Quarantine("hot"), 100, 1),
    ]);
    assert!(matches!(eval(B, &rules), Action::RouteC));
    assert!(matches!(eval(A, &rules), Action::Quarantine("hot")));
}

#[test]
fn no_rule_match_passes() {
    let rules = sort_rules(&[
        rule(A, 0, 0, Action::Quarantine("hot"), 100, 1),
        rule(0, A | B, 0, Action::RouteC, 50, 2),
    ]);
    assert!(matches!(eval(0, &rules), Action::Pass));
    assert!(matches!(eval(C, &rules), Action::Pass));
    assert!(matches!(eval(A | B | C, &[]), Action::Pass));
    assert!(matches!(eval(0, &[]), Action::Pass));
}

#[test]
fn rule_conditions() {
    // all: every bit must be set
    let r = [rule(A | B, 0, 0, Action::Pause, 0, 0)];
    assert!(matches!(eval(A | B, &r), Action::Pause));
    assert!(matches!(eval(A | B | C, &r), Action::Pause));
    assert!(matches!(eval(A, &r), Action::Pass));
    // any: one bit is enough; an empty mask asks for nothing
    let r = [rule(0, A | B, 0, Action::RouteD, 0, 0)];
    assert!(matches!(eval(B, &r), Action::RouteD));
    assert!(matches!(eval(C, &r), Action::Pass));
    // none: no bit may be set
    let r = [rule(0, 0, C, Action::Sample(10), 0, 0)];
    assert!(matches!(eval(A, &r), Action::Sample(10)));
    assert!(matches!(eval(0, &r), Action::Sample(10)));
    assert!(matches!(eval(A | C, &r), Action::Pass));
    // a rule without conditions meets every mask
    let r = [rule(0, 0, 0, Action::RouteC, 0, 0)];
    assert!(matches!(eval(0, &r), Action::RouteC));
    assert!(matches!(eval(u128::MAX, &r), Action::RouteC));
    // all three together
    let r = [rule(A, B | C, 1 << 100, Action::Pause, 0, 0)];
    assert!(matches!(eval(A | B, &r), Action::Pause));
    assert!(matches!(eval(A, &r), Action::Pass));
    assert!(matches!(eval(A | C | (1 << 100), &r), Action::Pass));
}

#[test]
fn rules_are_tried_in_the_order_in_which_they_stand() {
    let r = [
        rule(0, 0, 0, Action::RouteC, 0, 1),
        rule(0, 0, 0, Action::RouteD, 255, 2),
    ];
    // eval does not sort
    assert!(matches!(eval(0, &r), Action::RouteC));
    assert!(matches!(eval(0, &sort_rules(&r)), Action::RouteD));
}

#[test]
fn sorting_is_by_descending_priority_and_keeps_declaration_order() {
    let input: Vec<Rule> = [5u8, 255, 0, 5, 100, 255, 5, 0]
        .iter()
        .enumerate()
        .map(|(i, p)| rule(0, 0, 0, Action::Pass, *p, i as u32))
        .collect();
    let sorted = sort_rules(&input);
    let got: Vec<(u8, u32)> = sorted.iter().map(|r| (r.priority, r.id)).collect();
    assert_eq!(
        got,
        vec![
            (255, 1),
            (255, 5),
            (100, 4),
            (5, 0),
            (5, 3),
            (5, 6),
            (0, 2),
            (0, 7)
        ]
    );
    // as the standard stable sort orders them
    let mut expected = input.clone();
    expected.sort_by(|a, b| b.priority.cmp(&a.priority));
    let expected: Vec<(u8, u32)> = expected.iter().map(|r| (r.priority, r.id)).collect();
    assert_eq!(got, expected);
    assert!(sort_rules(&[]).is_empty());
}

#[test]
fn ties_go_to_the_rule_declared_first() {
    let rules = sort_rules(&[
        rule(0, A, 0, Action::RouteC, 7, 1),
        rule(0, A, 0, Action::RouteD, 7, 2),
        rule(0, A, 0, Action::Pause, 6, 3),
    ]);
    assert!(matches!(eval(A, &rules), Action::RouteC));
}

#[test]
fn policy_key() {
    let tenant: Arc<str> = "gwf".into();
    let event: Arc<str> = "vessel_ping".into();
    let key = PolicyKey::new(tenant.clone(), event.clone(), 1);
    assert_eq!(&*key.tenant, "gwf");
    assert_eq!(&*key.event, "vessel_ping");
    assert_eq!(key.version, 1);
    assert_eq!(key, PolicyKey::new(tenant.clone(), event.clone(), 1));
    assert_ne!(key, PolicyKey::new(tenant, event, 2));
}

#[test]
fn rule_forms() {
    let r = Rule::all_none(A, C, Action::Pause, 7, 1);
    assert_eq!((r.all, r.any, r.none, r.priority, r.id), (A, 0, C, 7, 1));
    assert!(matches!(r.action, Action::Pause));
    let r = Rule::all_of(A | B, Action::RouteC, 2);
    assert_eq!((r.all, r.any, r.none, r.priority, r.id), (A | B, 0, 0, 100, 2));
    let r = Rule::any_at(B, Action::RouteD, 9, 3);
    assert_eq!((r.all, r.any, r.none, r.priority, r.id), (0, B, 0, 9, 3));
    let r = Rule::any_of(B, Action::Sample(5), 4);
    assert_eq!((r.all, r.any, r.none, r.priority, r.id), (0, B, 0, 100, 4));
    let r = Rule::pass(5);
    assert_eq!((r.all, r.any, r.none, r.priority, r.id), (0, 0, 0, 0, 5));
    assert!(matches!(r.action, Action::Pass));
    assert_eq!(ben::contracts::rules::DEFAULT_PRIORITY, 100);
    // a rule set as it is declared: the rule that passes everything comes last
    let rules = sort_rules(&[
        Rule::pass(1),
        Rule::all_none(A, B, Action::Quarantine("a without b"), 200, 2),
        Rule::any_of(A | B, Action::RouteC, 3),
    ]);
    assert!(matches!(eval(A, &rules), Action::Quarantine("a without b")));
    assert!(matches!(eval(A | B, &rules), Action::RouteC));
    assert!(matches!(eval(C, &rules), Action::Pass));
}
