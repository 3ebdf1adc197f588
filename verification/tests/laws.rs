//! The laws of the library on concrete values.
use hopperscript::ast::{ast, generate_ast};
use hopperscript::compiler::{compile, try_compile};
use hopperscript::generator::gen_project_from;
use hopperscript::getdata::generate_blocks;
use hopperscript::typess::string;
use hopperscript::types::{
    BlockData, CompiledData, DefineTypes, ObjectData, ParameterData, Script, Values,
};
use hopperscript::utils::{try_transform_vals, GenError};

fn data() -> CompiledData {
    generate_blocks(
        vec![
            BlockData {
                name: "Move Forward".to_string(),
                parameters: vec![ParameterData { typ: "num".to_string() }],
                id: 39,
                typ: "method".to_string(),
                label: "Move Forward".to_string(),
            },
            BlockData {
                name: "Game Starts".to_string(),
                parameters: vec![],
                id: 7000,
                typ: "rule".to_string(),
                label: "Game Starts".to_string(),
            },
        ],
        vec![ObjectData { name: "Toucan".to_string(), id: 1 }],
    )
}

#[test]
fn recovery_skips_to_the_next_statement() {
    let (scripts, errors) = generate_ast("xyz define var \"a\" ?? define var \"b\"");
    assert_eq!(scripts.len(), 2);
    assert_eq!(errors.len(), 2);
    assert_eq!((errors[0].start, errors[0].end), (0, 4));
    assert_eq!((errors[1].start, errors[1].end), (19, 22));
}

#[test]
fn recovery_records_nothing_when_nothing_follows() {
    let (scripts, errors) = generate_ast("define var \"a\" trailing junk");
    assert_eq!(scripts.len(), 1);
    assert!(errors.is_empty());
}

#[test]
fn escaped_names_read_back() {
    let (scripts, errors) = generate_ast("define var \"say \\\"hi\\\" \\\\ there\"");
    assert!(errors.is_empty());
    match &scripts[0] {
        Script::Define { typ: DefineTypes::Variable(3), name } => {
            assert_eq!(name, "say \"hi\" \\ there")
        }
        _ => panic!("expected a variable"),
    }
}

#[test]
fn escapes_for_newline_tab_and_slash() {
    let (scripts, _) = generate_ast("define var \"a\\nb\\tc\\/d\"");
    match &scripts[0] {
        Script::Define { name, .. } => assert_eq!(name, "a\nb\tc/d"),
        _ => panic!("expected a definition"),
    }
}

#[test]
fn values_of_every_form() {
    let (scripts, errors) =
        generate_ast("define ability \"a\" { f(\"s\", #12ab34, #abc, 42, o\"Obj\", v\"O\".\"x\", v\"g\", v Self.\"h\") }");
    assert!(errors.is_empty());
    let blocks = match &scripts[0] {
        Script::Define { typ: DefineTypes::Ability(Some(b)), .. } => b,
        _ => panic!("expected an ability"),
    };
    let p = &blocks[0].params;
    assert_eq!(p.len(), 8);
    assert!(matches!(&p[0], Values::Str(s) if s == "s"));
    assert!(matches!(&p[1], Values::Str(s) if s == "#12ab34"));
    assert!(matches!(&p[2], Values::Str(s) if s == "#abc"));
    assert!(matches!(&p[3], Values::Str(s) if s == "42"));
    assert!(matches!(&p[4], Values::Object(s) if s == "Obj"));
    assert!(matches!(&p[5], Values::ObjectVariable(o, v) if o == "O" && v == "x"));
    assert!(matches!(&p[6], Values::Variable(v, 3) if v == "g"));
    assert!(matches!(&p[7], Values::Variable(v, 4) if v == "h"));
}

#[test]
fn an_empty_body_must_be_written_without_space() {
    let (a, _) = generate_ast("for \"O\" { when go() {} }");
    let (b, _) = generate_ast("for \"O\" { when go() { } }");
    match (&a[0], &b[0]) {
        (Script::On { con: ca, .. }, Script::On { con: cb, .. }) => {
            assert_eq!(ca.len(), 1);
            assert_eq!(cb.len(), 0);
        }
        _ => panic!("expected for statements"),
    }
}

#[test]
fn quoted_string_reads_back() {
    let (rest, text) = string("\"abc\"rest").ok().unwrap();
    assert_eq!(text, "abc");
    assert_eq!(rest, "rest");
    assert!(string("\"\"").is_err());
}

#[test]
fn generated_project_is_well_formed() {
    let (scripts, _) = generate_ast(
        "define object \"A\" = objects.toucan define object \"B\" = objects.toucan \
         for \"B\" { when game_starts() {} } for \"A\" { when game_starts() { move_forward(1) } }",
    );
    let ids: Vec<String> = (0..8).map(|i| format!("I{}", i)).collect();
    let p = gen_project_from(&scripts, &data(), "U".to_string(), &ids);
    assert_eq!(p.scenes.len(), 1);
    let object_ids: Vec<String> = p.objects.iter().map(|o| o.id.clone()).collect();
    assert_eq!(p.scenes[0].objects, object_ids);
    assert_eq!(p.event_params.len(), p.objects.len());
    for (e, o) in p.event_params.iter().zip(p.objects.iter()) {
        assert_eq!(e.object_id.as_ref(), Some(&o.id));
        assert_eq!(e.description, o.name);
        assert_eq!(e.block_type, 8000);
    }
    for r in &p.rules {
        assert!(p.abilities.iter().any(|a| a.ability_id == r.ability_id));
        assert!(p.objects.iter().any(|o| o.id == r.object_id && o.rules.contains(&r.id)));
    }
    // Counts: two objects, two rules and their abilities, and all 8 ids drawn.
    assert_eq!(p.objects.len(), 2);
    assert_eq!(p.rules.len(), 2);
    assert_eq!(p.abilities.len(), 2);
    assert_eq!(p.rules[1].id, "I7");
    assert_eq!(p.objects[1].rules, vec!["I5".to_string()]);
    assert_eq!(p.objects[0].rules, vec!["I7".to_string()]);
}

#[test]
fn compile_reports_parse_errors_and_builds_the_project() {
    let out = compile("?? define object \"A\" = objects.toucan", data());
    assert_eq!(out.errors.len(), 1);
    assert_eq!((out.errors[0].start, out.errors[0].end), (0, 3));
    let p = out.project.unwrap();
    assert_eq!(p.objects.len(), 1);
    assert_eq!(p.objects[0].name, "A");
}

#[test]
fn compile_reports_generation_errors() {
    let out = try_compile("define object \"A\" = objects.parrot", data());
    assert!(out.errors.is_empty());
    assert!(matches!(out.project, Err(GenError::ObjectTypeNotFound)));
}

fn n_ids(n: usize) -> Vec<String> {
    (0..n).map(|i| format!("I{}", i)).collect()
}

#[test]
fn the_scene_is_my_scene() {
    let (scripts, _) = generate_ast("define object \"A\" = objects.toucan");
    let p = gen_project_from(&scripts, &data(), "U".to_string(), &n_ids(2));
    assert_eq!(p.scenes[0].name, "My Scene");
    assert_eq!(p.event_params[0].description, "A");
    assert_eq!(p.event_params[0].block_type, 8000);
    assert_eq!(p.event_params[0].object_id.as_deref(), Some("I0"));
}

#[test]
fn rules_go_to_the_first_object_of_their_name() {
    let (scripts, _) = generate_ast(
        "define object \"A\" = objects.toucan define object \"A\" = objects.toucan \
         for \"A\" { when game_starts() {} when game_starts() {} }",
    );
    let p = gen_project_from(&scripts, &data(), "U".to_string(), &n_ids(8));
    assert_eq!(p.rules.len(), 2);
    for r in &p.rules {
        assert_eq!(r.object_id, "I0");
        assert_eq!(r.rule_block_type, 6000);
        assert!(p.objects[0].rules.contains(&r.id));
    }
    assert!(p.objects[1].rules.is_empty());
    let listed: usize = p.objects.iter().map(|o| o.rules.len()).sum();
    assert_eq!(listed, p.rules.len());
}

#[test]
fn passed_over_statements_change_nothing() {
    let src = "define object \"A\" = objects.toucan for \"A\" { when game_starts() {} }";
    let with_extra = "define object \"A\" = objects.toucan \
                      for \"A\" { define var \"x\" when game_starts() {} define var \"y\" }";
    let (a, _) = generate_ast(src);
    let (b, _) = generate_ast(with_extra);
    let pa = gen_project_from(&a, &data(), "U".to_string(), &n_ids(4));
    let pb = gen_project_from(&b, &data(), "U".to_string(), &n_ids(4));
    assert_eq!(format!("{:?}", pa), format!("{:?}", pb));
    let (mut c, _) = generate_ast(src);
    c.insert(0, Script::Rule { name: "game_starts".to_string(), con: vec![], params: vec![] });
    let pc = gen_project_from(&c, &data(), "U".to_string(), &n_ids(4));
    assert_eq!(format!("{:?}", pa), format!("{:?}", pc));
}

#[test]
fn grammars_agree_without_parenthesized_conditions() {
    let src = "define var \"v\" define object \"A\" = objects.toucan \
               for \"A\" { when cond(v\"v\" == \"1\") { move_forward(1) } } ?? define var \"w\"";
    let (a, ea) = generate_ast(src);
    let (b, eb) = ast(src);
    assert_eq!(format!("{:?}", a), format!("{:?}", b));
    assert_eq!(format!("{:?}", ea), format!("{:?}", eb));
}

#[test]
fn resolution_of_a_concatenation_is_the_concatenation() {
    let (scripts, _) = generate_ast("define var \"v\" define object \"A\" = objects.toucan");
    let p = gen_project_from(&scripts, &data(), "U".to_string(), &n_ids(3));
    let a = || vec![Values::Str("s".to_string()), Values::Object("A".to_string())];
    let b = || vec![Values::Variable("v".to_string(), 2)];
    let mut ab = a();
    ab.extend(b());
    let whole = try_transform_vals(&ab, &p).unwrap();
    let mut parts = try_transform_vals(&a(), &p).unwrap();
    parts.extend(try_transform_vals(&b(), &p).unwrap());
    assert_eq!(format!("{:?}", whole), format!("{:?}", parts));
    let mut bad = a();
    bad.push(Values::Object("Z".to_string()));
    bad.extend(b());
    assert!(matches!(try_transform_vals(&bad, &p), Err(GenError::ObjectNotFound)));
}

#[test]
fn every_quoted_text_is_read() {
    let (rest, text) = string("\"a b\\c\" = objects.x").ok().unwrap();
    assert_eq!(text, "a b\\c");
    assert_eq!(rest, " = objects.x");
}
