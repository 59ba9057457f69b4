use craft::schema::{action_verb_descriptions, action_verb_list, generate_typescript_types, is_valid_verb, typescript_sdk_types};

#[test]
fn action_verb_list_has_nine_verbs() {
    assert_eq!(action_verb_list().len(), 9);
}

#[test]
fn each_verb_has_a_description() {
    let descs = action_verb_descriptions();
    for verb in action_verb_list() {
        assert!(descs.contains_key(verb), "missing description for verb {verb}");
    }
}

#[test]
fn is_valid_verb_recognises_all_nine() {
    for verb in action_verb_list() {
        assert!(is_valid_verb(verb));
    }
    assert!(!is_valid_verb("bogus"));
}

#[test]
fn typescript_sdk_types_contains_all_verbs() {
    let ts = typescript_sdk_types();
    for verb in action_verb_list() {
        assert!(ts.contains(&format!("\"{verb}\"")), "TS types missing verb {verb}");
    }
}

#[test]
fn typescript_sdk_types_starts_with_auto_generated_marker() {
    let ts = typescript_sdk_types();
    assert!(ts.starts_with("// AUTO-GENERATED by craft-schema"));
}

#[test]
fn ts_sdk_output_parses_as_module() {
    let ts = typescript_sdk_types();
    let mut depth: i32 = 0;
    for c in ts.chars() {
        if c == '{' {
            depth += 1;
        }
        if c == '}' {
            depth -= 1;
        }
    }
    assert_eq!(depth, 0, "TS types must have balanced braces");
    assert!(ts.contains("export type Action"));
    assert!(ts.contains("export const ACTION_VERBS"));
}

#[test]
fn typescript_sdk_types_defines_all_verb_aliases() {
    let ts = typescript_sdk_types();
    for alias in [
        "SetStateAction",
        "EmitAction",
        "DestroyAction",
        "SpawnAction",
        "IfAction",
        "MoveAction",
        "AnimateAction",
        "LogAction",
        "CallSystemAction",
    ] {
        assert!(ts.contains(alias), "TS types missing action alias {alias}");
    }
}

#[test]
fn verb_list_order_and_tail() {
    assert_eq!(
        action_verb_list(),
        vec!["set_state", "emit", "destroy", "spawn", "if", "move", "animate", "log", "call_system"]
    );
    let ts = generate_typescript_types();
    assert!(ts.ends_with("  \"call_system\",\n] as const;\n\nexport type ActionVerb = typeof ACTION_VERBS[number];\n"));
    assert_eq!(action_verb_descriptions().get("emit").copied(), Some("Fire a signal (queued; resolved next tick)."));
}
