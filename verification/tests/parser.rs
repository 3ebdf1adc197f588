use hopperscript::ast::{ast, generate_ast};
use hopperscript::types::{AstTypes, DefineTypes, Script, Values};

#[test]
fn parses_variable_definition() {
    let (scripts, errors) = generate_ast("define var \"score\"");
    assert!(errors.is_empty());
    assert_eq!(scripts.len(), 1);
    match &scripts[0] {
        Script::Define { typ: DefineTypes::Variable(code), name } => {
            assert_eq!(*code, 3);
            assert_eq!(name, "score");
        }
        _ => panic!("expected a variable definition"),
    }
}


#[test]
fn compiler_grammar_reads_bare_conditions_only() {
    let src = "for \"B\" { when cond((\"a\" == \"b\")) {} }";
    let (wide, _) = generate_ast(src);
    let (bare, _) = ast(src);
    match &wide[0] {
        Script::On { obj, con } => {
            assert_eq!(obj, "B");
            assert_eq!(con.len(), 1);
        }
        _ => panic!("expected a for statement"),
    }
    match &bare[0] {
        Script::On { obj, con } => {
            assert_eq!(obj, "B");
            assert!(con.is_empty());
        }
        _ => panic!("expected a for statement"),
    }
    let plain = "for \"B\" { when cond(\"a\" == \"b\") {} }";
    let (p, _) = ast(plain);
    match &p[0] {
        Script::On { con, .. } => assert_eq!(con.len(), 1),
        _ => panic!("expected a for statement"),
    }
}

fn show(src: &str) -> String {
    let (scripts, errors) = generate_ast(src);
    assert!(errors.is_empty(), "unexpected errors in {:?}", src);
    format!("{:?}", scripts)
}

#[test]
fn documented_object_definition() {
    let (scripts, errors) = generate_ast("define object(objects.TOUCAN, \"My Toucan\")");
    assert!(errors.is_empty());
    assert_eq!(scripts.len(), 1);
    match &scripts[0] {
        Script::Define { typ: DefineTypes::Object(t), name } => {
            assert_eq!(t, "TOUCAN");
            assert_eq!(name, "My Toucan");
        }
        _ => panic!("expected an object definition"),
    }
}

#[test]
fn documented_values_and_ability_calls() {
    let (scripts, errors) = generate_ast(
        "define ability \"B\" { setText(\"hello universe\", colors.RANDOM) \
         moveForward(var\"My Variable\") abilities.\"Say Hello\"() }",
    );
    assert!(errors.is_empty());
    match &scripts[0] {
        Script::Define { typ: DefineTypes::Ability(Some(bs)), name } => {
            assert_eq!(name, "B");
            assert_eq!(bs.len(), 3);
            assert!(matches!(&bs[0].params[1], Values::Str(c) if c == "RANDOM"));
            assert!(matches!(&bs[1].params[0], Values::Variable(v, 3) if v == "My Variable"));
            assert_eq!(bs[2].name, "Say Hello");
            assert!(bs[2].typ == AstTypes::Ability);
            assert!(bs[2].params.is_empty());
        }
        _ => panic!("expected an ability definition"),
    }
}

#[test]
fn documented_rule_header() {
    let (scripts, errors) = generate_ast(
        "for \"My wonderful toucan\" { when rules.GAME_STARTS() { moveForward(10) setPosition(300, 400) } }",
    );
    assert!(errors.is_empty());
    match &scripts[0] {
        Script::On { obj, con } => {
            assert_eq!(obj, "My wonderful toucan");
            match &con[0] {
                Script::Rule { name, con, params } => {
                    assert_eq!(name, "GAME_STARTS");
                    assert!(params.is_empty());
                    assert_eq!(con.len(), 2);
                    assert_eq!(con[1].name, "setPosition");
                }
                _ => panic!("expected a rule"),
            }
        }
        _ => panic!("expected a for statement"),
    }
}

#[test]
fn comments_are_ignored() {
    let plain = "define var \"a\" for \"O\" { when go(o\"O\") { f(1, 2) } }";
    let commented = "(* top *) define var \"a\" (* between *) for \"O\" (* x *) { \
                     when go( (* p *) o\"O\") { f(1 (* q *), 2) } (* end *) } (* last *)";
    assert_eq!(show(plain), show(commented));
    let (_, errors) = generate_ast("(* unclosed define var \"a\"");
    assert_eq!(errors.len(), 1);
}
