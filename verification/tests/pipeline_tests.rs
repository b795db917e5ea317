use ben::bitspec::facts::FactValue;
use ben::bitspec::pack::BitspecPack;
use ben::bitspec::predicate::{PredOp, PredicateSpec};
use ben::bitspec::row::{RowAccess, SlotRow};
use ben::bitspec::threshold::{ThresholdLevel, ThresholdOp, ThresholdSpec};
use ben::contracts::rules::{eval, merge_bits, sort_rules, Action, Rule};
use ben::num::Float64;
use ben::wire::envelope::Envelope;
use ben::wire::error::WireError;
use ben::wire::rowpack::{decode_rowpack, encode_rowpack};
use ben::wire::slot::SlotValue;

fn f(x: f64) -> Float64 {
    Float64::from_bits(x.to_bits())
}

fn pack() -> BitspecPack {
    BitspecPack {
        predicates: vec![
            PredicateSpec {
                field_id: "big_group",
                bit: 1 << 0,
                op: PredOp::EqBool(true),
            },
            PredicateSpec {
                field_id: "user",
                bit: 1 << 1,
                op: PredOp::ModEq { m: 2, r: 1 },
            },
        ],
        thresholds: vec![ThresholdSpec {
            field_id: "heat",
            fact_key: Some("heat.level"),
            flags: vec![],
            threshold_op: ThresholdOp::Gte,
            levels: vec![
                ThresholdLevel {
                    name: "WARN",
                    value: f(200.0),
                    bit: 2,
                },
                ThresholdLevel {
                    name: "CRIT",
                    value: f(600.0),
                    bit: 3,
                },
            ],
        }],
        bit_count: 4,
    }
}

fn rules() -> Vec<Rule> {
    sort_rules(&[
        Rule::pass(1),
        Rule::all_of(1 << 3, Action::Quarantine("critical heat"), 2),
        Rule::any_at((1 << 2) | (1 << 0), Action::Sample(10), 50, 3),
        Rule::all_none(1 << 100, 1 << 3, Action::Pause, 250, 4),
    ])
}

#[test]
fn named_rows_answer_by_the_first_name() {
    let row = SlotRow {
        names: vec!["a", "b", "a", "c"],
        slots: vec![SlotValue::U64(1), SlotValue::Bool(true), SlotValue::U64(3)],
    };
    assert_eq!(row.find("a"), Some(0));
    assert_eq!(row.find("b"), Some(1));
    // a name without a slot is no field
    assert_eq!(row.find("c"), None);
    assert_eq!(row.find("d"), None);
    assert!(matches!(row.get_slot("a"), Some(SlotValue::U64(1))));
    assert!(row.get_slot("c").is_none());
    assert_eq!(row.get_u64("a"), Some(1));
    assert_eq!(row.get_bool("b"), Some(true));
    assert_eq!(row.get_bool("a"), None);
    let empty = SlotRow {
        names: vec![],
        slots: vec![SlotValue::U64(1)],
    };
    assert_eq!(empty.find(""), None);
}

#[test]
fn a_named_row_is_evaluated_as_any_row_is() {
    let pack = pack();
    assert!(pack.is_well_formed());
    let row = SlotRow {
        names: vec!["heat", "big_group", "user"],
        slots: vec![
            SlotValue::F64(f(750.0)),
            SlotValue::Bool(true),
            SlotValue::U64(7),
        ],
    };
    let (mask, facts) = pack.eval_row(&row);
    assert_eq!(mask, 0b1111);
    assert!(matches!(facts.get("heat.level"), Some(FactValue::Str(s)) if s == "CRIT"));
    let (mask2, facts2) = pack.eval(&row);
    assert_eq!(mask2, mask);
    assert!(matches!(facts2.get("heat.level"), Some(FactValue::Str(s)) if s == "CRIT"));
    // without heat: the bits of its levels stay unset and no fact is recorded
    let row = SlotRow {
        names: vec!["big_group", "user"],
        slots: vec![SlotValue::Bool(false), SlotValue::U64(7)],
    };
    let (mask, facts) = pack.eval_row(&row);
    assert_eq!(mask, 0b0010);
    assert!(facts.is_empty());
    // heat of another kind counts as no heat
    let row = SlotRow {
        names: vec!["heat"],
        slots: vec![SlotValue::I64(750)],
    };
    let (mask, facts) = pack.eval_row(&row);
    assert_eq!(mask, 0);
    assert!(facts.is_empty());
}

#[test]
fn bits_are_merged_with_the_bits_set_beforehand() {
    assert_eq!(merge_bits(0, 0), 0);
    assert_eq!(merge_bits(0b101, 0b010), 0b111);
    assert_eq!(merge_bits(u64::MAX, 1 << 100), (u64::MAX as u128) | (1 << 100));
    assert_eq!(merge_bits(1, 1), 1);
}

// A frame is parsed, its payload decoded into a row, the row evaluated, and the mask
// matched against the rules.
fn route(frame: &[u8], names: &[&'static str], seed: u128) -> Result<Action, WireError> {
    let env = Envelope::parse(frame)?;
    let slots = decode_rowpack(env.payload, env.field_count as usize)?;
    let row = SlotRow {
        names: names.to_vec(),
        slots,
    };
    let (mask, _facts) = pack().eval_row(&row);
    Ok(eval(merge_bits(mask, seed), &rules()))
}

fn frame(slots: &[SlotValue<'static>]) -> Vec<u8> {
    let mut out = Vec::new();
    Envelope::write_rowbinary_header(&mut out, [7; 32], 1, slots.len() as u16);
    encode_rowpack(&mut out, slots).unwrap();
    out
}

#[test]
fn from_frame_to_action() {
    let names = ["heat", "big_group", "user"];
    let hot = frame(&[
        SlotValue::F64(f(750.0)),
        SlotValue::Bool(false),
        SlotValue::U64(2),
    ]);
    assert!(matches!(
        route(&hot, &names, 0),
        Ok(Action::Quarantine("critical heat"))
    ));
    let warm = frame(&[
        SlotValue::F64(f(250.0)),
        SlotValue::Bool(false),
        SlotValue::U64(2),
    ]);
    assert!(matches!(route(&warm, &names, 0), Ok(Action::Sample(10))));
    let cold = frame(&[
        SlotValue::F64(f(1.0)),
        SlotValue::Bool(false),
        SlotValue::U64(2),
    ]);
    // a frame that meets no rule but the last is passed
    assert!(matches!(route(&cold, &names, 0), Ok(Action::Pass)));
    // a bit set beforehand reaches the rule of the highest priority
    assert!(matches!(route(&cold, &names, 1 << 100), Ok(Action::Pause)));
    assert!(matches!(
        route(&hot, &names, 1 << 100),
        Ok(Action::Quarantine("critical heat"))
    ));
    // a sparse row: missing slots set nothing
    let sparse = frame(&[SlotValue::Missing, SlotValue::Missing, SlotValue::Missing]);
    assert!(matches!(route(&sparse, &names, 0), Ok(Action::Pass)));
    // a malformed frame is refused before any rule is looked at
    assert_eq!(route(&hot[..40], &names, 0).unwrap_err(), WireError::ShortFrame);
    let mut bad = hot.clone();
    bad[40] = 9;
    assert_eq!(route(&bad, &names, 0).unwrap_err(), WireError::UnknownEncoding);
    assert_eq!(
        route(&hot[..hot.len() - 1], &names, 0).unwrap_err(),
        WireError::Underflow
    );
}
