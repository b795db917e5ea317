use ben::contracts::lucius::{LuciusFieldSpec, LuciusLevel};
use ben::descriptor::error::DescriptorError;
use ben::descriptor::lucius::{derive_lucius, parse_level, LspecAttr, LspecField};

const NO_ATTR: LspecAttr = LspecAttr {
    rule: None,
    level: None,
    expected_type: None,
    route: None,
    note: None,
};

// One field, fully annotated.
fn single_field() -> Vec<LuciusFieldSpec> {
    derive_lucius(&[LspecField {
        name: "payload",
        attr: Some(LspecAttr {
            level: Some("dynamic"),
            expected_type: Some("bin"),
            rule: Some("PAYLOAD_SCAN"),
            route: Some("lucius-deep"),
            note: Some("scan me"),
        }),
    }])
    .unwrap()
}

// Three fields: one without an annotation, one with an empty one, one with some keys.
fn multi_field_defaults() -> Vec<LuciusFieldSpec> {
    derive_lucius(&[
        LspecField {
            name: "id",
            attr: None,
        },
        LspecField {
            name: "attachment_key",
            attr: Some(NO_ATTR),
        },
        LspecField {
            name: "archive_blob",
            attr: Some(LspecAttr {
                level: Some("static"),
                expected_type: Some("archive"),
                rule: Some("ARCHIVE_SCAN"),
                ..NO_ATTR
            }),
        },
    ])
    .unwrap()
}

#[test]
fn lucius_single_field_spec_is_correct() {
    let specs = single_field();
    assert_eq!(specs.len(), 1);

    let s = &specs[0];

    assert_eq!(s.field, "payload");
    assert_eq!(s.rule, Some("PAYLOAD_SCAN"));
    assert!(matches!(s.level, LuciusLevel::DynamicSandbox));
    assert_eq!(s.expected_type, "bin");
    assert_eq!(s.route, "lucius-deep");
    assert_eq!(s.note, Some("scan me"));
}

#[test]
fn lucius_multi_field_specs_and_defaults() {
    let specs = multi_field_defaults();
    assert_eq!(specs.len(), 2);

    let att = &specs[0];
    assert_eq!(att.field, "attachment_key");
    assert_eq!(att.rule, None);
    assert!(matches!(att.level, LuciusLevel::Light));
    assert_eq!(att.expected_type, "bin");
    assert_eq!(att.route, "attachment_key");
    assert_eq!(att.note, None);

    let arch = &specs[1];
    assert_eq!(arch.field, "archive_blob");
    assert_eq!(arch.rule, Some("ARCHIVE_SCAN"));
    assert!(matches!(arch.level, LuciusLevel::StaticDeep));
    assert_eq!(arch.expected_type, "archive");
    assert_eq!(arch.route, "archive_blob");
    assert_eq!(arch.note, None);
}

#[test]
fn lucius_level_names() {
    assert_eq!(parse_level("light"), Some(LuciusLevel::Light));
    assert_eq!(parse_level("static"), Some(LuciusLevel::StaticDeep));
    assert_eq!(parse_level("static_deep"), Some(LuciusLevel::StaticDeep));
    assert_eq!(parse_level("dynamic"), Some(LuciusLevel::DynamicSandbox));
    assert_eq!(parse_level("dynamic_sandbox"), Some(LuciusLevel::DynamicSandbox));
    assert_eq!(parse_level("hybrid"), Some(LuciusLevel::HybridFull));
    assert_eq!(parse_level("full"), Some(LuciusLevel::HybridFull));
    assert_eq!(parse_level("Light"), None);
    assert_eq!(parse_level(""), None);
}

#[test]
fn lucius_unknown_level_is_refused() {
    let r = derive_lucius(&[
        LspecField {
            name: "a",
            attr: Some(NO_ATTR),
        },
        LspecField {
            name: "b",
            attr: Some(LspecAttr {
                level: Some("extreme"),
                ..NO_ATTR
            }),
        },
    ]);
    assert_eq!(r.unwrap_err(), DescriptorError::UnknownLevel { index: 1 });
}
