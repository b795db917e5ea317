use ben::bitspec::facts::{FactMap, FactValue};
use ben::bitspec::pack::BitspecPack;
use ben::bitspec::predicate::{PredOp, PredicateSpec};
use ben::bitspec::row::RowAccess;
use ben::bitspec::threshold::{
    best_level, contains_name, ThresholdLevel, ThresholdOp, ThresholdSpec,
};
use ben::descriptor::bitspec::{
    make_codegen_items, parse_threshold_op, ParsedBitspec, ParsedPredicate, ParsedThreshold,
};
use ben::descriptor::dsl::{convert_expr_to_op, expr_to_f64, DslExpr};
use ben::descriptor::error::DescriptorError;
use ben::descriptor::thresholds::{parse_flags, parse_levels};
use ben::num::Float64;
use ben::wire::slot::SlotValue;

fn f(x: f64) -> Float64 {
    Float64::from_bits(x.to_bits())
}

//
// Local test Row implementation
//

#[derive(Default)]
struct TestRow {
    map: std::collections::HashMap<String, SlotValue<'static>>,
}

impl TestRow {
    fn new() -> Self {
        Self {
            map: Default::default(),
        }
    }

    fn with(mut self, key: &str, val: SlotValue<'static>) -> Self {
        self.map.insert(key.to_string(), val);
        self
    }
}

impl RowAccess for TestRow {
    fn get_str(&self, key: &str) -> Option<&str> {
        self.map.get(key)?.as_str().ok()
    }
    fn get_f64(&self, key: &str) -> Option<Float64> {
        self.map.get(key)?.as_f64().ok().copied()
    }
    fn get_u64(&self, key: &str) -> Option<u64> {
        self.map.get(key)?.as_u64().ok().copied()
    }
    fn get_i64(&self, key: &str) -> Option<i64> {
        self.map.get(key)?.as_i64().ok().copied()
    }
    fn get_bool(&self, key: &str) -> Option<bool> {
        self.map.get(key)?.as_bool().ok().copied()
    }

    fn get_slot(&self, field_id: &str) -> Option<&SlotValue> {
        self.map.get(field_id)
    }
}

// A row that answers from `get_slot` alone.
struct PlainRow(Vec<(&'static str, SlotValue<'static>)>);

impl RowAccess for PlainRow {
    fn get_slot(&self, field_id: &str) -> Option<&SlotValue> {
        self.0.iter().find(|(k, _)| *k == field_id).map(|(_, v)| v)
    }
}

//
// The declarations of the example event
//

fn lit(n: i64) -> DslExpr {
    DslExpr::Int {
        unsigned: u64::try_from(n).ok(),
        number: Some(f(n as f64)),
    }
}

fn call(func: &'static str, args: Vec<DslExpr>) -> DslExpr {
    DslExpr::Call { func, args }
}

fn brule(field_id: &'static str, rule_name: &'static str, expr: DslExpr) -> ParsedPredicate {
    ParsedPredicate {
        field_id,
        rule_name,
        op: convert_expr_to_op(&expr).unwrap(),
    }
}

fn thresholds(
    field_id: &'static str,
    rule_name: &'static str,
    op: &'static str,
    values: &'static str,
    fact: Option<&'static str>,
    flags: &'static str,
) -> ParsedThreshold {
    ParsedThreshold {
        field_id,
        rule_name,
        fact,
        flags: parse_flags(flags).unwrap(),
        op: Some(op),
        levels: parse_levels(values)
            .unwrap()
            .into_iter()
            .map(|(name, value)| (name, f(value.parse::<f64>().unwrap())))
            .collect(),
    }
}

// num:  brule(rule = "NUM_GT_10", op = gt(10))
// name: brule(rule = "TXT_START_HE", op = starts_with("he"))
// flag: brule(rule = "FLAG_TRUE", op = eq(true))
// comp: brule(rule = "COMPLEX_ALL", op = all(gt(5), lt(20)))
// heat: thresholds(rule = "HEAT", op = "gte", values = "WARM=100, HOT=200, SCORCH=500",
//                  fact = "heat.level", flags = ..)
fn example_pack(flags: &'static str) -> BitspecPack {
    make_codegen_items(ParsedBitspec {
        preds: vec![
            brule("num", "NUM_GT_10", call("gt", vec![lit(10)])),
            brule(
                "name",
                "TXT_START_HE",
                call("starts_with", vec![DslExpr::Str("he")]),
            ),
            brule("flag", "FLAG_TRUE", call("eq", vec![DslExpr::Bool(true)])),
            brule(
                "comp",
                "COMPLEX_ALL",
                call(
                    "all",
                    vec![call("gt", vec![lit(5)]), call("lt", vec![lit(20)])],
                ),
            ),
        ],
        thresh: vec![thresholds(
            "heat",
            "HEAT",
            "gte",
            "WARM=100, HOT=200, SCORCH=500",
            Some("heat.level"),
            flags,
        )],
    })
    .unwrap()
}

fn fact_str<'a>(facts: &'a FactMap, key: &str) -> Option<&'a str> {
    match facts.get(key) {
        Some(FactValue::Str(s)) => Some(s.as_str()),
        Some(_) => panic!("fact should be a string"),
        None => None,
    }
}

#[test]
fn test_bitspec_macro_and_engine() {
    let owned = example_pack("ALERT:HOT, CAUTION:WARM, PUKE:SCORCH");
    let pack: &BitspecPack = &owned;
    println!("bitcount = {}", pack.bit_count);

    let row = TestRow::new()
        .with("num", SlotValue::F64(f(42.0)))
        .with("name", SlotValue::Str("hello"))
        .with("flag", SlotValue::Bool(true))
        .with("comp", SlotValue::F64(f(12.0)))
        .with("heat", SlotValue::F64(f(350.0))); // >=200 => HOT; >=500 => SCORCH (not here)

    let (mask, facts) = pack.eval(&row);

    // Print the mask for debugging
    println!("mask bits: {:064b}", mask);

    // Predicate ordering:
    // Bit 0: NUM_GT_10
    // Bit 1: TXT_START_HE
    // Bit 2: FLAG_TRUE
    // Bit 3: COMPLEX_ALL
    //
    // Threshold levels begin at Bit 4.

    assert!(mask & (1 << 0) != 0, "NUM_GT_10 should fire");
    assert!(mask & (1 << 1) != 0, "TXT_START_HE should fire");
    assert!(mask & (1 << 2) != 0, "FLAG_TRUE should fire");
    assert!(mask & (1 << 3) != 0, "COMPLEX_ALL should fire");

    // levels = [WARM, HOT, SCORCH]
    // Bits:
    //   WARM   => bit 4
    //   HOT    => bit 5
    //   SCORCH => bit 6

    // heat = 350 >= WARM (100)
    assert!(mask & (1 << 4) != 0, "WARM threshold should fire");

    // heat = 350 >= HOT (200)
    assert!(mask & (1 << 5) != 0, "HOT threshold should fire");

    // heat = 350 < SCORCH (500)
    assert!(mask & (1 << 6) == 0, "SCORCH threshold should NOT fire");

    // "heat.level" should contain best (highest) threshold matched: HOT
    let level_val = facts.get("heat.level").expect("missing fact heat.level");

    match level_val {
        FactValue::Str(s) => assert_eq!(s, "HOT"),
        _ => panic!("heat.level should be a string"),
    }

    // heat = 350 => WARM + HOT fire -> ALERT + CAUTION
    let alert = facts.get("ALERT").unwrap();
    let caution = facts.get("CAUTION").unwrap();

    match alert {
        FactValue::Str(s) => assert_eq!(s, "HOT"), // highest triggered in that set
        _ => panic!("ALERT fact should be str"),
    }

    match caution {
        FactValue::Str(s) => assert_eq!(s, "WARM"),
        _ => panic!("CAUTION fact should be str"),
    }

    // MISSING FIELD BEHAVIOR
    let row_missing = TestRow::new().with("num", SlotValue::F64(f(3.0))); // only num exists

    let (mask2, facts2) = pack.eval(&row_missing);

    assert_eq!(mask2 & (1 << 0), 0, "num=3 should NOT fire NUM_GT_10");
    assert!(
        facts2.is_empty(),
        "no facts should be recorded when heat missing"
    );
}

#[test]
fn pack_layout_is_in_declaration_order_from_zero() {
    let pack = example_pack("");
    assert_eq!(pack.bit_count, 7);
    assert!(pack.is_well_formed());
    let bits: Vec<u64> = pack.predicates.iter().map(|p| p.bit).collect();
    assert_eq!(bits, vec![1, 2, 4, 8]);
    let fields: Vec<&str> = pack.predicates.iter().map(|p| p.field_id).collect();
    assert_eq!(fields, vec!["num", "name", "flag", "comp"]);
    assert_eq!(pack.thresholds.len(), 1);
    let th = &pack.thresholds[0];
    assert_eq!(th.field_id, "heat");
    assert_eq!(th.fact_key, Some("heat.level"));
    assert_eq!(th.threshold_op, ThresholdOp::Gte);
    assert!(th.flags.is_empty());
    let levels: Vec<(&str, f64, u16)> = th
        .levels
        .iter()
        .map(|l| (l.name, f64::from_bits(l.value.to_bits()), l.bit))
        .collect();
    assert_eq!(
        levels,
        vec![("WARM", 100.0, 4), ("HOT", 200.0, 5), ("SCORCH", 500.0, 6)]
    );
}

#[test]
fn threshold_tie_break() {
    // WARM=100, HOT=200, SCORCH=500 with gte and 350: WARM and HOT only, and the fact is HOT
    let pack = example_pack("");
    let row = PlainRow(vec![("heat", SlotValue::F64(f(350.0)))]);
    let (mask, facts) = pack.eval(&row);
    assert_eq!(mask, (1 << 4) | (1 << 5));
    assert_eq!(fact_str(&facts, "heat.level"), Some("HOT"));
    // declared in another order, the highest cutoff still wins
    let th = ThresholdSpec {
        field_id: "heat",
        fact_key: Some("k"),
        flags: vec![],
        threshold_op: ThresholdOp::Gte,
        levels: vec![
            ThresholdLevel {
                name: "HOT",
                value: f(200.0),
                bit: 0,
            },
            ThresholdLevel {
                name: "SCORCH",
                value: f(500.0),
                bit: 1,
            },
            ThresholdLevel {
                name: "WARM",
                value: f(100.0),
                bit: 2,
            },
        ],
    };
    let mut mask = 0u64;
    let mut facts = FactMap::new();
    th.eval_value(f(350.0), &mut mask, &mut facts);
    assert_eq!(mask, 0b101);
    assert_eq!(fact_str(&facts, "k"), Some("HOT"));
}

#[test]
fn flag_group_isolation() {
    // ALERT -> [HOT, SCORCH] and CAUTION -> [WARM], with 350
    let pack = example_pack("ALERT:HOT|SCORCH, CAUTION:WARM");
    let row = PlainRow(vec![("heat", SlotValue::F64(f(350.0)))]);
    let (_, facts) = pack.eval(&row);
    assert_eq!(fact_str(&facts, "ALERT"), Some("HOT"));
    assert_eq!(fact_str(&facts, "CAUTION"), Some("WARM"));
    assert_eq!(fact_str(&facts, "heat.level"), Some("HOT"));
    // at 1000 every level fires: each group records the highest of its own levels
    let row = PlainRow(vec![("heat", SlotValue::F64(f(1000.0)))]);
    let (mask, facts) = pack.eval(&row);
    assert_eq!(mask, 0b111 << 4);
    assert_eq!(fact_str(&facts, "ALERT"), Some("SCORCH"));
    assert_eq!(fact_str(&facts, "CAUTION"), Some("WARM"));
    assert_eq!(fact_str(&facts, "heat.level"), Some("SCORCH"));
    // at 150 only WARM fires: a group none of whose levels fired records nothing
    let row = PlainRow(vec![("heat", SlotValue::F64(f(150.0)))]);
    let (mask, facts) = pack.eval(&row);
    assert_eq!(mask, 1 << 4);
    assert_eq!(fact_str(&facts, "ALERT"), None);
    assert_eq!(fact_str(&facts, "CAUTION"), Some("WARM"));
    // below every cutoff nothing fires and nothing is recorded
    let row = PlainRow(vec![("heat", SlotValue::F64(f(50.0)))]);
    let (mask, facts) = pack.eval(&row);
    assert_eq!(mask, 0);
    assert!(facts.is_empty());
}

#[test]
fn missing_field_safety() {
    let pack = example_pack("ALERT:HOT|SCORCH, CAUTION:WARM");
    // an empty row: no bit, no fact
    let (mask, facts) = pack.eval(&PlainRow(vec![]));
    assert_eq!(mask, 0);
    assert!(facts.is_empty());
    // a row without heat: the bits of its levels stay unset, and nothing is recorded
    let row = PlainRow(vec![
        ("num", SlotValue::F64(f(42.0))),
        ("flag", SlotValue::Bool(true)),
    ]);
    let (mask, facts) = pack.eval(&row);
    assert_eq!(mask, 0b0101);
    assert!(facts.is_empty());
    // heat of another kind is no number
    let row = PlainRow(vec![("heat", SlotValue::U64(350))]);
    let (mask, facts) = pack.eval(&row);
    assert_eq!(mask, 0);
    assert!(facts.is_empty());
    // a row without num: its bit stays unset
    let row = PlainRow(vec![("heat", SlotValue::F64(f(350.0)))]);
    let (mask, _) = pack.eval(&row);
    assert_eq!(mask & 1, 0);
    // the same through the lookups
    let (mask, facts) = pack.eval_lookups(&[None, None, None, None], &[None]);
    assert_eq!(mask, 0);
    assert!(facts.is_empty());
    let (mask, facts) = pack.eval_lookups(
        &[Some(SlotValue::F64(f(11.0))), None, None, None],
        &[Some(f(100.0))],
    );
    assert_eq!(mask, 1 | (1 << 4));
    assert_eq!(fact_str(&facts, "heat.level"), Some("WARM"));
}

#[test]
fn lower_than_comparisons_trigger_every_level_and_the_highest_cutoff_wins() {
    let th = ThresholdSpec {
        field_id: "t",
        fact_key: Some("cold"),
        flags: vec![("LOW", vec!["A", "B"])],
        threshold_op: ThresholdOp::Lt,
        levels: vec![
            ThresholdLevel {
                name: "A",
                value: f(10.0),
                bit: 0,
            },
            ThresholdLevel {
                name: "C",
                value: f(30.0),
                bit: 2,
            },
            ThresholdLevel {
                name: "B",
                value: f(20.0),
                bit: 1,
            },
        ],
    };
    assert!(th.is_well_formed());
    let run = |v: f64| {
        let mut mask = 0u64;
        let mut facts = FactMap::new();
        th.eval_value(f(v), &mut mask, &mut facts);
        (
            mask,
            fact_str(&facts, "cold").map(|s| s.to_string()),
            fact_str(&facts, "LOW").map(|s| s.to_string()),
        )
    };
    assert_eq!(run(5.0), (0b111, Some("C".into()), Some("B".into())));
    assert_eq!(run(15.0), (0b110, Some("C".into()), Some("B".into())));
    assert_eq!(run(25.0), (0b100, Some("C".into()), None));
    assert_eq!(run(30.0), (0, None, None));
    // a NaN passes no cutoff
    assert_eq!(run(f64::NAN), (0, None, None));
}

#[test]
fn every_threshold_comparison() {
    let spec = |op: ThresholdOp| ThresholdSpec {
        field_id: "x",
        fact_key: None,
        flags: vec![],
        threshold_op: op,
        levels: vec![
            ThresholdLevel {
                name: "ONE",
                value: f(1.0),
                bit: 0,
            },
            ThresholdLevel {
                name: "TWO",
                value: f(2.0),
                bit: 63,
            },
        ],
    };
    let run = |op: ThresholdOp, v: f64| {
        let mut mask = 0u64;
        let mut facts = FactMap::new();
        spec(op).eval_value(f(v), &mut mask, &mut facts);
        assert!(facts.is_empty());
        mask
    };
    let hi = 1u64 << 63;
    assert_eq!(run(ThresholdOp::Gt, 2.0), 1);
    assert_eq!(run(ThresholdOp::Gt, 2.5), 1 | hi);
    assert_eq!(run(ThresholdOp::Gte, 2.0), 1 | hi);
    assert_eq!(run(ThresholdOp::Gte, 0.5), 0);
    assert_eq!(run(ThresholdOp::Lt, 1.0), hi);
    assert_eq!(run(ThresholdOp::Lt, 0.0), 1 | hi);
    assert_eq!(run(ThresholdOp::Lte, 1.0), 1 | hi);
    assert_eq!(run(ThresholdOp::Lte, 2.5), 0);
    assert_eq!(run(ThresholdOp::Eq, 1.0), 1);
    assert_eq!(run(ThresholdOp::Eq, 2.0), hi);
    assert_eq!(run(ThresholdOp::Eq, 1.5), 0);
    // what the mask held before stays
    let mut mask = 0b1000u64;
    let mut facts = FactMap::new();
    facts.insert("kept", FactValue::Bool(true));
    spec(ThresholdOp::Gt).eval_value(f(1.5), &mut mask, &mut facts);
    assert_eq!(mask, 0b1001);
    assert!(facts.contains_key("kept"));
    // a level whose bit has no place in the mask is not well formed
    let mut bad = spec(ThresholdOp::Gt);
    bad.levels[0].bit = 64;
    assert!(!bad.is_well_formed());
}

#[test]
fn threshold_on_a_row() {
    let th = ThresholdSpec {
        field_id: "heat",
        fact_key: Some("lvl"),
        flags: vec![],
        threshold_op: ThresholdOp::Gte,
        levels: vec![ThresholdLevel {
            name: "ON",
            value: f(1.0),
            bit: 3,
        }],
    };
    let mut mask = 0u64;
    let mut facts = FactMap::new();
    th.eval(&PlainRow(vec![]), &mut mask, &mut facts);
    assert_eq!(mask, 0);
    assert!(facts.is_empty());
    th.eval(
        &PlainRow(vec![("heat", SlotValue::F64(f(1.0)))]),
        &mut mask,
        &mut facts,
    );
    assert_eq!(mask, 8);
    assert_eq!(fact_str(&facts, "lvl"), Some("ON"));
}

#[test]
fn best_level_picks_the_highest_cutoff_and_the_first_among_equals() {
    let levels = vec![
        ThresholdLevel {
            name: "A",
            value: f(5.0),
            bit: 0,
        },
        ThresholdLevel {
            name: "B",
            value: f(9.0),
            bit: 1,
        },
        ThresholdLevel {
            name: "C",
            value: f(9.0),
            bit: 2,
        },
        ThresholdLevel {
            name: "D",
            value: f(-1.0),
            bit: 3,
        },
    ];
    assert_eq!(best_level(&levels, &["A", "B", "C", "D"]), Some("B"));
    assert_eq!(best_level(&levels, &["C", "A"]), Some("C"));
    assert_eq!(best_level(&levels, &["D", "A"]), Some("A"));
    assert_eq!(best_level(&levels, &["D"]), Some("D"));
    assert_eq!(best_level(&levels, &[]), None);
    assert_eq!(best_level(&levels, &["Z"]), None);
    assert_eq!(best_level(&[], &["A"]), None);
    assert!(contains_name(&["A", "B"], "B"));
    assert!(!contains_name(&["A", "B"], "b"));
    assert!(!contains_name(&[], ""));
}

fn holds(op: &PredOp, slot: SlotValue) -> bool {
    op.eval(&slot)
}

#[test]
fn numeric_predicates() {
    let x = |v: f64| SlotValue::F64(f(v));
    assert!(holds(&PredOp::EqF64(f(1.5)), x(1.5)));
    assert!(!holds(&PredOp::EqF64(f(1.5)), x(1.6)));
    assert!(holds(&PredOp::EqF64(f(0.0)), x(-0.0)));
    assert!(!holds(&PredOp::EqF64(f(f64::NAN)), x(f64::NAN)));
    assert!(holds(&PredOp::GtF64(f(10.0)), x(42.0)));
    assert!(!holds(&PredOp::GtF64(f(10.0)), x(10.0)));
    assert!(!holds(&PredOp::GtF64(f(10.0)), x(3.0)));
    assert!(holds(&PredOp::LtF64(f(10.0)), x(-3.0)));
    assert!(!holds(&PredOp::LtF64(f(10.0)), x(10.0)));
    let between = PredOp::BetweenF64 {
        lo: f(1.0),
        hi: f(2.0),
    };
    assert!(holds(&between, x(1.0)));
    assert!(holds(&between, x(2.0)));
    assert!(holds(&between, x(1.5)));
    assert!(!holds(&between, x(0.999)));
    assert!(!holds(&between, x(2.001)));
    assert!(!holds(&between, x(f64::NAN)));
    // a number of another kind is no binary64 number
    assert!(!holds(&PredOp::GtF64(f(10.0)), SlotValue::U64(42)));
    assert!(!holds(&PredOp::GtF64(f(10.0)), SlotValue::I64(42)));
    assert!(!holds(&PredOp::EqF64(f(0.0)), SlotValue::Missing));
}

#[test]
fn boolean_string_and_modulo_predicates() {
    assert!(holds(&PredOp::EqBool(true), SlotValue::Bool(true)));
    assert!(!holds(&PredOp::EqBool(true), SlotValue::Bool(false)));
    assert!(holds(&PredOp::EqBool(false), SlotValue::Bool(false)));
    assert!(!holds(&PredOp::EqBool(false), SlotValue::U64(0)));

    assert!(holds(&PredOp::EqStr("abc"), SlotValue::Str("abc")));
    assert!(!holds(&PredOp::EqStr("abc"), SlotValue::Str("abd")));
    assert!(!holds(&PredOp::EqStr("abc"), SlotValue::Str("ab")));
    assert!(holds(&PredOp::NeStr("abc"), SlotValue::Str("abd")));
    assert!(!holds(&PredOp::NeStr("abc"), SlotValue::Str("abc")));
    // of another kind, neither equal nor unequal holds
    assert!(!holds(&PredOp::NeStr("abc"), SlotValue::Missing));
    assert!(!holds(&PredOp::NeStr("abc"), SlotValue::U64(1)));

    assert!(holds(&PredOp::StartsWith("he"), SlotValue::Str("hello")));
    assert!(holds(&PredOp::StartsWith(""), SlotValue::Str("hello")));
    assert!(holds(&PredOp::StartsWith("hello"), SlotValue::Str("hello")));
    assert!(!holds(&PredOp::StartsWith("hello!"), SlotValue::Str("hello")));
    assert!(!holds(&PredOp::StartsWith("el"), SlotValue::Str("hello")));
    assert!(holds(&PredOp::Contains("ell"), SlotValue::Str("hello")));
    assert!(holds(&PredOp::Contains("o"), SlotValue::Str("hello")));
    assert!(holds(&PredOp::Contains(""), SlotValue::Str("")));
    assert!(holds(&PredOp::Contains("hello"), SlotValue::Str("hello")));
    assert!(!holds(&PredOp::Contains("hex"), SlotValue::Str("hello")));
    assert!(!holds(&PredOp::Contains("x"), SlotValue::Str("")));
    assert!(holds(
        &PredOp::Contains("\u{1F525}b"),
        SlotValue::Str("a\u{1F525}b")
    ));
    assert!(holds(
        &PredOp::StartsWith("\u{e9}"),
        SlotValue::Str("\u{e9}t\u{e9}")
    ));

    assert!(holds(&PredOp::ModEq { m: 3, r: 1 }, SlotValue::U64(10)));
    assert!(!holds(&PredOp::ModEq { m: 3, r: 2 }, SlotValue::U64(10)));
    assert!(holds(&PredOp::ModNe { m: 3, r: 2 }, SlotValue::U64(10)));
    assert!(!holds(&PredOp::ModNe { m: 3, r: 1 }, SlotValue::U64(10)));
    assert!(!holds(&PredOp::ModEq { m: 3, r: 1 }, SlotValue::I64(10)));
    assert!(!holds(&PredOp::ModNe { m: 3, r: 2 }, SlotValue::I64(10)));
    assert!(holds(&PredOp::ModEq { m: 1, r: 0 }, SlotValue::U64(u64::MAX)));
}

#[test]
fn combinators() {
    let gt5 = || PredOp::GtF64(f(5.0));
    let lt20 = || PredOp::LtF64(f(20.0));
    let x = |v: f64| SlotValue::F64(f(v));
    assert!(holds(&PredOp::All(vec![gt5(), lt20()]), x(12.0)));
    assert!(!holds(&PredOp::All(vec![gt5(), lt20()]), x(20.0)));
    assert!(!holds(&PredOp::All(vec![gt5(), lt20()]), x(5.0)));
    assert!(holds(&PredOp::Any(vec![gt5(), lt20()]), x(100.0)));
    assert!(holds(&PredOp::Any(vec![gt5(), lt20()]), x(0.0)));
    assert!(!holds(
        &PredOp::Any(vec![PredOp::GtF64(f(20.0)), PredOp::LtF64(f(5.0))]),
        x(12.0)
    ));
    // nothing to hold: all holds, any does not
    assert!(holds(&PredOp::All(vec![]), x(1.0)));
    assert!(holds(&PredOp::All(vec![]), SlotValue::Missing));
    assert!(!holds(&PredOp::Any(vec![]), x(1.0)));
    assert!(holds(&PredOp::Not(Box::new(gt5())), x(1.0)));
    assert!(!holds(&PredOp::Not(Box::new(gt5())), x(6.0)));
    assert!(holds(&PredOp::Not(Box::new(PredOp::Any(vec![]))), x(6.0)));
    let nested = PredOp::Any(vec![
        PredOp::All(vec![gt5(), PredOp::Not(Box::new(lt20()))]),
        PredOp::EqF64(f(0.0)),
    ]);
    assert!(holds(&nested, x(25.0)));
    assert!(holds(&nested, x(0.0)));
    assert!(!holds(&nested, x(12.0)));
    // no remainder by zero: neither test holds, of any value
    assert!(!holds(&PredOp::ModEq { m: 0, r: 0 }, SlotValue::U64(5)));
    assert!(!holds(&PredOp::ModEq { m: 0, r: 5 }, SlotValue::U64(5)));
    assert!(!holds(&PredOp::ModNe { m: 0, r: 1 }, SlotValue::U64(5)));
    assert!(!holds(&PredOp::ModNe { m: 0, r: 1 }, SlotValue::Missing));
    assert!(holds(
        &PredOp::Not(Box::new(PredOp::Any(vec![PredOp::ModEq { m: 0, r: 0 }]))),
        SlotValue::U64(0)
    ));
}

#[test]
fn predicates_on_a_row() {
    let pack = BitspecPack {
        predicates: vec![
            PredicateSpec {
                field_id: "a",
                bit: 1 << 7,
                op: PredOp::Not(Box::new(PredOp::EqBool(true))),
            },
            PredicateSpec {
                field_id: "b",
                bit: 1 << 9,
                op: PredOp::ModEq { m: 2, r: 0 },
            },
        ],
        thresholds: vec![],
        bit_count: 10,
    };
    assert!(pack.is_well_formed());
    // a field that the row lacks sets no bit, whatever the test
    assert_eq!(pack.eval(&PlainRow(vec![])).0, 0);
    // a field that the row has as a missing slot is tested
    assert_eq!(pack.eval(&PlainRow(vec![("a", SlotValue::Missing)])).0, 1 << 7);
    assert_eq!(
        pack.eval(&PlainRow(vec![
            ("a", SlotValue::Bool(true)),
            ("b", SlotValue::U64(4))
        ]))
        .0,
        1 << 9
    );
    let mut mask = 1u64;
    pack.eval_preds(&[None, Some(SlotValue::U64(6))], &mut mask);
    assert_eq!(mask, 1 | (1 << 9));
    let zero = BitspecPack {
        predicates: vec![PredicateSpec {
            field_id: "a",
            bit: 1,
            op: PredOp::ModEq { m: 0, r: 0 },
        }],
        thresholds: vec![],
        bit_count: 1,
    };
    assert!(zero.is_well_formed());
    assert_eq!(zero.eval(&PlainRow(vec![("a", SlotValue::U64(5))])).0, 0);
}

#[test]
fn row_getters_answer_from_the_slot() {
    let row = PlainRow(vec![
        ("f", SlotValue::F64(f(1.5))),
        ("u", SlotValue::U64(7)),
        ("i", SlotValue::I64(-7)),
        ("s", SlotValue::Str("x")),
        ("b", SlotValue::Bool(true)),
    ]);
    assert_eq!(row.get_f64("f"), Some(f(1.5)));
    assert_eq!(row.get_u64("u"), Some(7));
    assert_eq!(row.get_i64("i"), Some(-7));
    assert_eq!(row.get_str("s"), Some("x"));
    assert_eq!(row.get_bool("b"), Some(true));
    assert_eq!(row.get_f64("u"), None);
    assert_eq!(row.get_u64("i"), None);
    assert_eq!(row.get_i64("u"), None);
    assert_eq!(row.get_str("b"), None);
    assert_eq!(row.get_bool("s"), None);
    assert_eq!(row.get_f64("none"), None);
}

#[test]
fn fact_map() {
    let mut facts = FactMap::new();
    assert!(facts.is_empty());
    assert!(facts.get("a").is_none());
    facts.insert("a", FactValue::Str("x".into()));
    facts.insert("b", FactValue::Num(f(1.0)));
    assert!(!facts.is_empty());
    assert!(facts.contains_key("a"));
    assert!(!facts.contains_key("c"));
    assert!(matches!(facts.get("a"), Some(FactValue::Str(s)) if s == "x"));
    assert!(matches!(facts.get("b"), Some(FactValue::Num(n)) if *n == f(1.0)));
    // a fact of the same name is replaced
    facts.insert("a", FactValue::Bool(false));
    assert!(matches!(facts.get("a"), Some(FactValue::Bool(false))));
    assert!(matches!(facts.get("b"), Some(FactValue::Num(_))));
}

#[test]
fn dsl_conversion() {
    let op = |e: DslExpr| convert_expr_to_op(&e);
    assert!(matches!(op(call("gt", vec![lit(10)])), Ok(PredOp::GtF64(v)) if v == f(10.0)));
    assert!(
        matches!(op(call("lt", vec![DslExpr::Float(f(2.5))])), Ok(PredOp::LtF64(v)) if v == f(2.5))
    );
    assert!(matches!(
        op(call("gt", vec![DslExpr::Neg(Box::new(lit(10)))])),
        Ok(PredOp::GtF64(v)) if v == f(-10.0)
    ));
    assert!(matches!(
        op(call("between", vec![lit(1), DslExpr::Float(f(2.5))])),
        Ok(PredOp::BetweenF64 { lo, hi }) if lo == f(1.0) && hi == f(2.5)
    ));
    assert!(matches!(
        op(call("starts_with", vec![DslExpr::Str("he")])),
        Ok(PredOp::StartsWith("he"))
    ));
    assert!(matches!(
        op(call("contains", vec![DslExpr::Str("x")])),
        Ok(PredOp::Contains("x"))
    ));
    assert!(matches!(
        op(call("eq", vec![DslExpr::Bool(true)])),
        Ok(PredOp::EqBool(true))
    ));
    assert!(matches!(
        op(call("eq", vec![DslExpr::Str("x")])),
        Ok(PredOp::EqStr("x"))
    ));
    assert!(matches!(op(call("eq", vec![lit(0)])), Ok(PredOp::EqF64(v)) if v == f(0.0)));
    assert!(matches!(
        op(call("mod_eq", vec![lit(3), lit(1)])),
        Ok(PredOp::ModEq { m: 3, r: 1 })
    ));
    assert!(matches!(
        op(call("mod_ne", vec![lit(3), lit(1)])),
        Ok(PredOp::ModNe { m: 3, r: 1 })
    ));
    match op(call(
        "all",
        vec![call("gt", vec![lit(5)]), call("lt", vec![lit(20)])],
    )) {
        Ok(PredOp::All(list)) => {
            assert_eq!(list.len(), 2);
            assert!(matches!(list[0], PredOp::GtF64(_)));
            assert!(matches!(list[1], PredOp::LtF64(_)));
        }
        other => panic!("expected All, got {other:?}"),
    }
    assert!(matches!(op(call("any", vec![])), Ok(PredOp::Any(list)) if list.is_empty()));
    match op(call("not", vec![call("eq", vec![DslExpr::Bool(false)])])) {
        Ok(PredOp::Not(inner)) => assert!(matches!(*inner, PredOp::EqBool(false))),
        other => panic!("expected Not, got {other:?}"),
    }
}

#[test]
fn dsl_errors() {
    let err = |e: DslExpr| convert_expr_to_op(&e).unwrap_err();
    assert_eq!(err(lit(1)), DescriptorError::ExpectedCall);
    assert_eq!(err(DslExpr::Other), DescriptorError::ExpectedCall);
    assert_eq!(err(call("ge", vec![lit(1)])), DescriptorError::UnknownPredicate);
    assert_eq!(
        err(call("gt", vec![])),
        DescriptorError::MissingArgument { index: 0 }
    );
    assert_eq!(
        err(call("between", vec![lit(1)])),
        DescriptorError::MissingArgument { index: 1 }
    );
    assert_eq!(
        err(call("gt", vec![DslExpr::Str("x")])),
        DescriptorError::ExpectedNumber
    );
    assert_eq!(
        err(call("between", vec![DslExpr::Bool(true), DslExpr::Other])),
        DescriptorError::ExpectedNumber
    );
    assert_eq!(
        err(call("starts_with", vec![lit(1)])),
        DescriptorError::ExpectedString
    );
    assert_eq!(
        err(call("contains", vec![])),
        DescriptorError::MissingArgument { index: 0 }
    );
    assert_eq!(
        err(call("eq", vec![])),
        DescriptorError::MissingArgument { index: 0 }
    );
    assert_eq!(
        err(call("eq", vec![DslExpr::Other])),
        DescriptorError::ExpectedNumber
    );
    assert_eq!(
        err(call("mod_eq", vec![lit(3)])),
        DescriptorError::MissingArgument { index: 1 }
    );
    assert_eq!(
        err(call("mod_eq", vec![DslExpr::Float(f(3.0)), lit(1)])),
        DescriptorError::ExpectedUnsigned
    );
    assert_eq!(
        err(call("mod_ne", vec![lit(3), lit(-1)])),
        DescriptorError::ExpectedUnsigned
    );
    assert_eq!(
        err(call("not", vec![])),
        DescriptorError::MissingArgument { index: 0 }
    );
    assert_eq!(
        err(call("not", vec![DslExpr::Bool(true)])),
        DescriptorError::ExpectedCall
    );
    // the first argument at fault decides
    assert_eq!(
        err(call(
            "all",
            vec![
                call("gt", vec![lit(1)]),
                call("nope", vec![]),
                call("gt", vec![])
            ]
        )),
        DescriptorError::UnknownPredicate
    );
    assert_eq!(
        err(call(
            "any",
            vec![call("not", vec![call("lt", vec![DslExpr::Str("x")])])]
        )),
        DescriptorError::ExpectedNumber
    );
}

#[test]
fn dsl_numbers() {
    assert_eq!(expr_to_f64(&DslExpr::Float(f(2.5))), Some(f(2.5)));
    assert_eq!(expr_to_f64(&lit(7)), Some(f(7.0)));
    assert_eq!(
        expr_to_f64(&DslExpr::Neg(Box::new(DslExpr::Float(f(2.5))))),
        Some(f(-2.5))
    );
    assert_eq!(
        expr_to_f64(&DslExpr::Neg(Box::new(DslExpr::Neg(Box::new(lit(7)))))),
        Some(f(7.0))
    );
    assert_eq!(
        expr_to_f64(&DslExpr::Neg(Box::new(DslExpr::Float(f(0.0))))),
        Some(f(-0.0))
    );
    assert_eq!(expr_to_f64(&DslExpr::Str("1")), None);
    assert_eq!(expr_to_f64(&DslExpr::Bool(true)), None);
    assert_eq!(
        expr_to_f64(&DslExpr::Neg(Box::new(DslExpr::Str("1")))),
        None
    );
    assert_eq!(
        expr_to_f64(&DslExpr::Int {
            unsigned: Some(u64::MAX),
            number: None
        }),
        None
    );
}

#[test]
fn level_and_flag_lists() {
    assert_eq!(
        parse_levels("WARM=100, HOT=200, SCORCH=500").unwrap(),
        vec![("WARM", "100"), ("HOT", "200"), ("SCORCH", "500")]
    );
    assert_eq!(
        parse_levels("WARN=200,CRIT=600").unwrap(),
        vec![("WARN", "200"), ("CRIT", "600")]
    );
    assert_eq!(
        parse_levels("  A = 1.5 ,, \t , B=-2 ,").unwrap(),
        vec![("A", "1.5"), ("B", "-2")]
    );
    assert_eq!(parse_levels("").unwrap(), vec![]);
    assert_eq!(parse_levels("  ").unwrap(), vec![]);
    assert_eq!(parse_levels("A=").unwrap(), vec![("A", "")]);
    assert_eq!(parse_levels("=1").unwrap(), vec![("", "1")]);
    assert_eq!(parse_levels("A=1=2").unwrap(), vec![("A", "1=2")]);
    assert_eq!(
        parse_levels("A=1, B").unwrap_err(),
        DescriptorError::MalformedEntry { index: 1 }
    );
    assert_eq!(
        parse_levels("A:1").unwrap_err(),
        DescriptorError::MalformedEntry { index: 0 }
    );
    assert_eq!(
        parse_levels(", ,x").unwrap_err(),
        DescriptorError::MalformedEntry { index: 2 }
    );

    assert_eq!(
        parse_flags("ALERT:HOT, CAUTION:WARM, PUKE:SCORCH").unwrap(),
        vec![
            ("ALERT", vec!["HOT"]),
            ("CAUTION", vec!["WARM"]),
            ("PUKE", vec!["SCORCH"])
        ]
    );
    assert_eq!(
        parse_flags(" ALERT : HOT | SCORCH ||, CAUTION:WARM").unwrap(),
        vec![("ALERT", vec!["HOT", "SCORCH"]), ("CAUTION", vec!["WARM"])]
    );
    assert_eq!(parse_flags("NONE:").unwrap(), vec![("NONE", vec![])]);
    assert_eq!(parse_flags("").unwrap(), vec![]);
    assert_eq!(
        parse_flags("ALERT:HOT, CAUTION").unwrap_err(),
        DescriptorError::MalformedEntry { index: 1 }
    );
}

#[test]
fn threshold_comparison_names() {
    assert_eq!(parse_threshold_op("gt"), Some(ThresholdOp::Gt));
    assert_eq!(parse_threshold_op("gte"), Some(ThresholdOp::Gte));
    assert_eq!(parse_threshold_op("lt"), Some(ThresholdOp::Lt));
    assert_eq!(parse_threshold_op("lte"), Some(ThresholdOp::Lte));
    assert_eq!(parse_threshold_op("eq"), Some(ThresholdOp::Eq));
    assert_eq!(parse_threshold_op("ge"), None);
    assert_eq!(parse_threshold_op(""), None);
}

#[test]
fn pack_declaration_errors() {
    let pred = |op: PredOp| ParsedPredicate {
        field_id: "x",
        rule_name: "R",
        op,
    };
    let thresh = |op: Option<&'static str>, n: usize| ParsedThreshold {
        field_id: "x",
        rule_name: "T",
        fact: None,
        flags: vec![],
        op,
        levels: (0..n).map(|i| ("L", f(i as f64))).collect(),
    };
    let build = |preds: Vec<ParsedPredicate>, thresh: Vec<ParsedThreshold>| {
        make_codegen_items(ParsedBitspec { preds, thresh })
    };
    assert_eq!(
        build(vec![], vec![thresh(None, 1)]).unwrap_err(),
        DescriptorError::MissingOp { index: 0 }
    );
    assert_eq!(
        build(vec![], vec![thresh(Some("gt"), 1), thresh(Some("ge"), 1)]).unwrap_err(),
        DescriptorError::UnknownOperation { index: 1 }
    );
    // a test that divides by zero is built like any other
    let zero = build(
        vec![pred(PredOp::EqBool(true)), pred(PredOp::ModEq { m: 0, r: 0 })],
        vec![thresh(Some("gt"), 1)],
    )
    .unwrap();
    assert_eq!(zero.bit_count, 3);
    assert!(matches!(zero.predicates[1].op, PredOp::ModEq { m: 0, r: 0 }));
    assert_eq!(zero.predicates[1].bit, 1 << 1);
    assert_eq!(
        build(
            vec![pred(PredOp::EqBool(true)), pred(PredOp::ModEq { m: 0, r: 0 })],
            vec![thresh(None, 1)]
        )
        .unwrap_err(),
        DescriptorError::MissingOp { index: 0 }
    );
    // 64 bits are the most
    let full = build(
        vec![pred(PredOp::EqBool(true))],
        vec![thresh(Some("gt"), 60), thresh(Some("lt"), 3)],
    )
    .unwrap();
    assert_eq!(full.bit_count, 64);
    assert_eq!(full.thresholds[0].levels[0].bit, 1);
    assert_eq!(full.thresholds[0].levels[59].bit, 60);
    assert_eq!(full.thresholds[1].levels[0].bit, 61);
    assert_eq!(full.thresholds[1].levels[2].bit, 63);
    assert_eq!(
        build(
            vec![pred(PredOp::EqBool(true))],
            vec![thresh(Some("gt"), 60), thresh(Some("lt"), 4)]
        )
        .unwrap_err(),
        DescriptorError::TooManyBits
    );
    assert_eq!(
        build(
            (0..65).map(|_| pred(PredOp::EqBool(true))).collect(),
            vec![]
        )
        .unwrap_err(),
        DescriptorError::TooManyBits
    );
    // too many bits are noticed before anything else
    assert_eq!(
        build(
            vec![pred(PredOp::ModEq { m: 0, r: 0 })],
            vec![thresh(None, 64)]
        )
        .unwrap_err(),
        DescriptorError::TooManyBits
    );
    let empty = build(vec![], vec![]).unwrap();
    assert_eq!(empty.bit_count, 0);
    assert_eq!(empty.eval(&PlainRow(vec![])).0, 0);
}
