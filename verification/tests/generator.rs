use hopperscript::ast::generate_ast;
use hopperscript::generator::{gen_project, project_uuid_for, try_gen_project_from};
use hopperscript::getdata::{data_name_of, generate_blocks, split_rules};
use hopperscript::types::{
    BlockData, CompiledData, ObjectData, ParameterData, Project, Script, Values,
};
use hopperscript::utils::{giv_me_uuid, transform_vals, value_to_param, GenError};

fn block(name: &str, id: i32, typ: &str, label: &str, params: &[&str]) -> BlockData {
    BlockData {
        name: name.to_string(),
        parameters: params.iter().map(|t| ParameterData { typ: t.to_string() }).collect(),
        id,
        typ: typ.to_string(),
        label: label.to_string(),
    }
}

fn data() -> CompiledData {
    generate_blocks(
        vec![
            block("Move Forward", 39, "method", "Move Forward", &["num"]),
            block("Set Position", 41, "method", "Set Position", &["num", "num"]),
            block("Game Starts", 7000, "rule", "Game Starts", &[]),
            block("Is Tapped", 7001, "rule", "Is Tapped", &["evt"]),
        ],
        vec![
            ObjectData { name: "Toucan".to_string(), id: 1 },
            ObjectData { name: "Square".to_string(), id: 22 },
        ],
    )
}

fn ids(n: usize) -> Vec<String> {
    (0..n).map(|i| format!("ID{}", i)).collect()
}

fn generate(src: &str, n_ids: usize) -> Result<Project, GenError> {
    let (scripts, errors) = generate_ast(src);
    assert!(errors.is_empty(), "unexpected parse errors in {:?}", src);
    try_gen_project_from(&scripts, &data(), "UUID".to_string(), &ids(n_ids))
}

#[test]
fn data_names_are_normalised() {
    assert_eq!(data_name_of(&"Move Forward".to_string()), "move_forward");
    assert_eq!(data_name_of(&"A  B".to_string()), "a__b");
    assert_eq!(data_name_of(&"already_ok".to_string()), "already_ok");
}

#[test]
fn rules_are_kept_apart_from_blocks() {
    let d = data();
    let rules: Vec<&str> = d.rules.iter().map(|b| b.name.as_str()).collect();
    let blocks: Vec<&str> = d.blocks.iter().map(|b| b.name.as_str()).collect();
    assert_eq!(rules, vec!["game_starts", "is_tapped"]);
    assert_eq!(blocks, vec!["move_forward", "set_position"]);
    assert_eq!(d.obj[0].name, "toucan");
    assert_eq!(d.obj[1].id, 22);
}

#[test]
fn project_uuid_is_base36_of_seconds_times_65536() {
    assert_eq!(project_uuid_for(1_000).unwrap(), "1ekg");
    assert_eq!(project_uuid_for(1_999).unwrap(), "1ekg");
    assert_eq!(project_uuid_for(999).unwrap(), "0");
    assert_eq!(project_uuid_for(1_725_029_869_123).unwrap(), "142n62fe9s");
    assert!(project_uuid_for(u128::MAX).is_none());
}

#[test]
fn fresh_ids_are_upper_case_uuids() {
    let a = giv_me_uuid();
    let b = giv_me_uuid();
    assert_eq!(a.len(), 36);
    for (i, c) in a.chars().enumerate() {
        if i == 8 || i == 13 || i == 18 || i == 23 {
            assert_eq!(c, '-');
        } else {
            assert!(c.is_ascii_digit() || ('A'..='F').contains(&c), "bad char {:?}", c);
        }
    }
    assert_eq!(a.chars().nth(14), Some('4'));
    assert_ne!(a, b);
}

#[test]
fn generates_variables_objects_and_scene() {
    let p = generate(
        "define var \"score\" define object \"Bird\" = objects.toucan define object \"Box\" = objects.square",
        5,
    )
    .unwrap();
    assert_eq!(p.uuid, "UUID");
    assert_eq!(p.variables.len(), 1);
    assert_eq!(p.variables[0].name, "score");
    assert_eq!(p.variables[0].typ, 8003);
    assert_eq!(p.variables[0].object_id_string, "ID0");
    assert_eq!(p.objects.len(), 2);
    assert_eq!(p.objects[0].name, "Bird");
    assert_eq!(p.objects[0].typ, 1);
    assert_eq!(p.objects[0].id, "ID1");
    assert_eq!((p.objects[0].x, p.objects[0].y), (10, 10));
    assert_eq!(p.objects[1].typ, 22);
    assert_eq!(p.objects[1].id, "ID3");
    assert_eq!(p.scenes.len(), 1);
    assert_eq!(p.scenes[0].name, "My Scene");
    assert_eq!(p.scenes[0].objects, vec!["ID1".to_string(), "ID3".to_string()]);
    assert_eq!(p.event_params.len(), 2);
    assert_eq!(p.event_params[0].id, "ID2");
    assert_eq!(p.event_params[0].object_id.as_deref(), Some("ID1"));
    assert_eq!(p.event_params[0].description, "Bird");
    assert_eq!(p.event_params[0].block_type, 8000);
}

#[test]
fn generates_rules_with_abilities() {
    let p = generate(
        "define object \"Bird\" = objects.toucan \
         for \"Bird\" { when game_starts() { move_forward(10) set_position(300, 400) } \
                        when is_tapped(o\"Bird\") {} }",
        6,
    )
    .unwrap();
    assert_eq!(p.rules.len(), 2);
    assert_eq!(p.abilities.len(), 2);
    let r0 = &p.rules[0];
    assert_eq!(r0.rule_block_type, 6000);
    assert_eq!(r0.object_id, "ID0");
    assert_eq!(r0.ability_id, "ID2");
    assert_eq!(r0.id, "ID3");
    assert_eq!(r0.params.len(), 1);
    assert_eq!(r0.params[0].typ, 52);
    let d = r0.params[0].datum.as_ref().unwrap();
    assert_eq!(d.typ, 7000);
    assert_eq!(d.block_class.as_deref(), Some("operator"));
    assert_eq!(p.objects[0].rules, vec!["ID3".to_string(), "ID5".to_string()]);
    let a0 = &p.abilities[0];
    assert_eq!(a0.ability_id, "ID2");
    assert_eq!(a0.name, None);
    assert_eq!(a0.blocks.len(), 2);
    assert_eq!(a0.blocks[0].block_class, "method");
    assert_eq!(a0.blocks[0].typ, 39);
    assert_eq!(a0.blocks[0].description, "Move Forward");
    let ps = a0.blocks[1].parameters.as_ref().unwrap();
    assert_eq!(ps.len(), 2);
    assert_eq!(ps[0].value, "300");
    assert_eq!(ps[0].typ, 57);
    assert_eq!(ps[1].value, "400");
    // The event parameter of a tap rule names the object's event parameter.
    let d1 = p.rules[1].params[0].datum.as_ref().unwrap();
    let tp = d1.params.as_ref().unwrap();
    assert_eq!(tp[0].value, "ID0");
    assert_eq!(tp[0].typ, 50);
    assert_eq!(tp[0].variable.as_deref(), Some("ID1"));
}

#[test]
fn ability_calls_become_control_blocks() {
    let p = generate(
        "define ability \"hop\" { move_forward(1) } \
         define ability \"twice\" { ability!(\"hop\") ability!(\"twice\") }",
        2,
    )
    .unwrap();
    assert_eq!(p.abilities.len(), 2);
    assert_eq!(p.abilities[0].name.as_deref(), Some("hop"));
    let b = &p.abilities[1].blocks;
    assert_eq!(b[0].block_class, "control");
    assert_eq!(b[0].typ, 123);
    assert_eq!(b[0].description, "hop");
    assert_eq!(b[0].control_script.as_ref().unwrap().ability_id, "ID0");
    assert_eq!(b[1].control_script.as_ref().unwrap().ability_id, "ID1");
}

#[test]
fn conditions_become_operator_data() {
    let p = generate(
        "define var \"v\" define object \"B\" = objects.toucan \
         for \"B\" { when cond(v\"v\" == \"3\") {} when cond((\"a\" != v Self.\"v\")) {} }",
        7,
    )
    .unwrap();
    let d = p.rules[0].params[0].datum.as_ref().unwrap();
    assert_eq!(d.typ, 1000);
    assert_eq!(d.block_class.as_deref(), Some("conditionalOperator"));
    let ps = d.params.as_ref().unwrap();
    assert_eq!(ps.len(), 2);
    assert_eq!(ps[0].typ, 42);
    assert_eq!(ps[0].datum.as_ref().unwrap().typ, 8003);
    assert_eq!(ps[0].datum.as_ref().unwrap().variable.as_deref(), Some("ID0"));
    assert_eq!(ps[1].value, "3");
    let d2 = p.rules[1].params[0].datum.as_ref().unwrap();
    assert_eq!(d2.typ, 1001);
    assert_eq!(d2.params.as_ref().unwrap()[1].datum.as_ref().unwrap().typ, 8004);
}

#[test]
fn statements_outside_objects_and_nested_definitions_are_ignored() {
    let p = generate("define object \"B\" = objects.toucan for \"B\" { define var \"x\" }", 2).unwrap();
    assert!(p.variables.is_empty());
    assert!(p.rules.is_empty());
}

#[test]
fn each_failure_has_its_error() {
    let cases: &[(&str, GenError)] = &[
        ("define object \"B\" = objects.parrot", GenError::ObjectTypeNotFound),
        ("for \"Nobody\" { when game_starts() {} }", GenError::ObjectNotFound),
        (
            "define object \"B\" = objects.toucan for \"B\" { when game_starts() { jump() } }",
            GenError::BlockNotFound,
        ),
        ("define object \"B\" = objects.toucan for \"B\" { when fly() {} }", GenError::RuleNotFound),
        ("define ability \"a\" { ability!(\"b\") }", GenError::AbilityNotFound),
        (
            "define object \"B\" = objects.toucan for \"B\" { when game_starts() {} } \
             define ability \"a\" { ability!(\"b\") }",
            GenError::UnnamedAbility,
        ),
        (
            "define object \"B\" = objects.toucan for \"B\" { when is_tapped(\"a\" == \"b\") {} }",
            GenError::EventNotFound,
        ),
        (
            "define object \"B\" = objects.toucan for \"B\" { when game_starts(o\"B\") {} }",
            GenError::TooManyParameters,
        ),
        ("define object \"B\" = objects.toucan for \"B\" { when cond() {} }", GenError::MissingCondition),
        (
            "define object \"B\" = objects.toucan for \"B\" { when cond(o\"B\") {} }",
            GenError::ConditionWithoutDatum,
        ),
        (
            "define object \"B\" = objects.toucan for \"B\" { when cond(v\"none\" == \"1\") {} }",
            GenError::VariableNotFound,
        ),
        (
            "define ability \"a\" { move_forward(o\"ghost\") }",
            GenError::ObjectNotFound,
        ),
    ];
    for (src, want) in cases {
        match generate(src, 16) {
            Ok(_) => panic!("expected {:?} for {:?}", want, src),
            Err(e) => assert!(e == *want, "wrong error for {:?}", src),
        }
    }
}

#[test]
fn variable_code_overflow_is_an_error() {
    let scripts = vec![Script::Define {
        typ: hopperscript::types::DefineTypes::Variable(i32::MAX),
        name: "v".to_string(),
    }];
    let r = try_gen_project_from(&scripts, &data(), "U".to_string(), &ids(1));
    assert!(matches!(r, Err(GenError::CodeOverflow)));
}

#[test]
fn transform_vals_resolves_objects_and_strings() {
    let p = generate("define object \"B\" = objects.toucan", 2).unwrap();
    let vals = vec![Values::Object("B".to_string()), Values::Str("hi".to_string())];
    let tr = transform_vals(vals, &p);
    assert_eq!(tr.len(), 2);
    assert_eq!(tr[0].value, "ID0");
    assert!(tr[0].datum.is_none());
    assert_eq!(tr[1].value, "hi");
}

#[test]
fn value_to_param_copies_the_value() {
    let v = hopperscript::types::Value { value: "7".to_string(), datum: None };
    let p = value_to_param(&v, 57, Some("x".to_string()));
    assert_eq!(p.value, "7");
    assert_eq!(p.typ, 57);
    assert_eq!(p.default_value, "");
    assert_eq!(p.key, "");
    assert_eq!(p.variable.as_deref(), Some("x"));
}

#[test]
fn gen_project_uses_the_clock_and_fresh_ids() {
    let (scripts, _) = generate_ast("define var \"a\" define object \"B\" = objects.toucan");
    let p = gen_project(&scripts, data()).unwrap();
    assert!(!p.uuid.is_empty());
    assert!(p.uuid.chars().all(|c| c.is_ascii_digit() || c.is_ascii_lowercase()));
    assert_eq!(p.variables[0].object_id_string.len(), 36);
    assert_ne!(p.objects[0].id, p.event_params[0].id);
}

#[test]
fn split_keeps_rules_apart_in_order() {
    let (rules, others) = split_rules(vec![
        block("a", 1, "rule", "A", &[]),
        block("b", 2, "method", "B", &[]),
        block("c", 3, "rule", "C", &[]),
        block("d", 4, "Rule", "D", &[]),
    ]);
    let r: Vec<&str> = rules.iter().map(|b| b.name.as_str()).collect();
    let o: Vec<&str> = others.iter().map(|b| b.name.as_str()).collect();
    assert_eq!(r, vec!["a", "c"]);
    assert_eq!(o, vec!["b", "d"]);
    assert_eq!(rules[1].id, 3);
}
