//! The parser against a combinator-built reference grammar, on many inputs.
use chumsky::error::Simple;
use chumsky::primitive::{filter, just, take_until};
use chumsky::BoxedParser;
use chumsky::recovery::skip_then_retry_until;
use chumsky::Parser;
use chumsky::text::ident;
use hopperscript::ast::{ast, generate_ast};
use hopperscript::types::{AstTypes, BlockAST, DefineTypes, Script, Values};

#[derive(Clone, Debug)]
enum RValues {
    Object(String),
    Str(String),
    Variable(String, i32),
    ObjectVariable(String, String),
    Conditional(Box<RValues>, String, Box<RValues>),
}

#[derive(Clone, Debug)]
struct RBlock {
    name: String,
    params: Vec<RValues>,
    ability: bool,
}

#[derive(Clone, Debug)]
enum RDefine {
    Object(String),
    Variable(i32),
    Ability(Option<Vec<RBlock>>),
}

#[derive(Clone, Debug)]
enum RScript {
    Define { typ: RDefine, name: String },
    On { obj: String, con: Vec<RScript> },
    Rule { name: String, con: Vec<RBlock>, params: Vec<RValues> },
}

fn is_hex_ref(c: char) -> bool {
    "0123456789abcdefABCDEF".contains(c)
}

/// Whitespace and `(* ... *)` comments.
fn blank() -> impl Parser<char, (), Error = Simple<char>> + Clone {
    filter(|c: &char| c.is_whitespace())
        .ignored()
        .or(just("(*").then(take_until(just("*)"))).ignored())
        .repeated()
        .ignored()
}

trait Padc<O: 'static>: Parser<char, O, Error = Simple<char>> + Sized + 'static {
    /// The parser with blanks (whitespace and comments) around it.
    fn padc(self) -> BoxedParser<'static, char, O, Simple<char>> {
        blank().ignore_then(self).then_ignore(blank()).boxed()
    }
}

impl<O: 'static, P: Parser<char, O, Error = Simple<char>> + 'static> Padc<O> for P {}

fn reference(paren: bool) -> impl Parser<char, Vec<RScript>, Error = Simple<char>> {
    let escape = just('\\').ignore_then(
        just('\\')
            .or(just('/'))
            .or(just('"'))
            .or(just('n').to('\n'))
            .or(just('t').to('\t')),
    );
    let stri = just('"')
        .ignore_then(filter(|c: &char| *c != '\\' && *c != '"').or(escape).repeated())
        .then_ignore(just('"'))
        .collect::<String>();
    let hex_color_short = just::<char, char, Simple<char>>('#')
        .chain(filter(|c: &char| is_hex_ref(*c)).repeated().exactly(3))
        .collect::<String>();
    let hex_color_long = just::<char, char, Simple<char>>('#')
        .chain(filter(|c: &char| is_hex_ref(*c)).repeated().exactly(6))
        .collect::<String>();
    let hex_color = hex_color_long.or(hex_color_short);
    let number = filter::<_, _, Simple<char>>(|c: &char| c.is_ascii_digit())
        .repeated()
        .at_least(1)
        .collect::<String>();
    let abil = just("ability!")
        .ignore_then(stri.clone().delimited_by(just('('), just(')')))
        .padc()
        .map(|v| RBlock { name: v, params: vec![], ability: true });
    let var = just("var")
        .padc()
        .ignore_then(stri.clone().padc())
        .map(|b| RScript::Define { typ: RDefine::Variable(3), name: b });
    let obj_ty = just::<_, _, Simple<char>>("objects").ignore_then(just('.')).ignore_then(ident());
    let obj = just("object")
        .padc()
        .ignore_then(stri.clone().padc())
        .then_ignore(just('=').padc())
        .then(obj_ty.padc())
        .map(|(a, c)| RScript::Define { typ: RDefine::Object(c), name: a });
    let obj_ref = just('o').ignore_then(stri.clone()).map(RValues::Object);
    let var_ref = just('v').ignore_then(stri.clone()).map(|a| RValues::Variable(a, 3));
    let objvar_ref = just('v')
        .ignore_then(stri.clone())
        .then_ignore(just('.'))
        .then(stri.clone())
        .map(|(o, v)| RValues::ObjectVariable(o, v));
    let selfvar_ref = just("v Self.").ignore_then(stri.clone()).map(|a| RValues::Variable(a, 4));
    let long_var_ref = just("var").ignore_then(stri.clone()).map(|a| RValues::Variable(a, 3));
    let color = just("colors.").ignore_then(ident()).map(RValues::Str);
    let value = stri
        .clone()
        .map(RValues::Str)
        .or(hex_color.map(RValues::Str))
        .or(number.map(RValues::Str))
        .or(obj_ref.clone())
        .or(objvar_ref)
        .or(var_ref)
        .or(selfvar_ref)
        .or(long_var_ref)
        .or(color);
    let block = ident()
        .then(
            value
                .clone()
                .padc()
                .separated_by(just(','))
                .delimited_by(just('('), just(')')),
        )
        .padc()
        .map(|(a, b)| RBlock { name: a, params: b, ability: false });
    let abil_call = just("abilities.")
        .ignore_then(stri.clone())
        .then_ignore(just("()"))
        .padc()
        .map(|v| RBlock { name: v, params: vec![], ability: true });
    let block_or_abil = block.or(abil).or(abil_call);
    let ability_def = just("ability")
        .padc()
        .ignore_then(stri.clone().padc())
        .then(
            block_or_abil
                .clone()
                .repeated()
                .or_not()
                .delimited_by(just('{'), just('}'))
                .padc(),
        )
        .map(|(a, c)| RScript::Define { typ: RDefine::Ability(c), name: a });
    let obj_call = just("object")
        .padc()
        .ignore_then(just('('))
        .ignore_then(obj_ty.clone().padc())
        .then_ignore(just(','))
        .then(stri.clone().padc())
        .then_ignore(just(')'))
        .padc()
        .map(|(c, a)| RScript::Define { typ: RDefine::Object(c), name: a });
    let def = just("define").ignore_then(var.or(obj.or(obj_call).or(ability_def)));
    let conditional = value
        .clone()
        .then(just("==").or(just("!=")).padc())
        .then(value)
        .map(|((a, b), c)| RValues::Conditional(Box::new(a), b.to_string(), Box::new(c)));
    let actualconditional = if paren {
        conditional
            .clone()
            .delimited_by(just('('), just(')'))
            .or(conditional)
            .boxed()
    } else {
        conditional.boxed()
    };
    let rule = just("when")
        .ignore_then(
            just("cond")
                .map(|s: &str| s.to_string())
                .or(just("rules.").ignore_then(ident()))
                .or(ident())
                .padc(),
        )
        .then(
            obj_ref
                .or(actualconditional)
                .padc()
                .separated_by(just(','))
                .delimited_by(just('('), just(')')),
        )
        .then(
            block_or_abil
                .repeated()
                .or_not()
                .delimited_by(just('{'), just('}'))
                .padc(),
        )
        .map(|((a, c), mut b)| RScript::Rule {
            name: a,
            con: b.get_or_insert(vec![]).to_vec(),
            params: c,
        })
        .padc();
    let on = just("for")
        .ignore_then(stri.padc())
        .then(
            def.clone()
                .or(rule)
                .padc()
                .repeated()
                .delimited_by(just('{'), just('}'))
                .padc()
                .or_not(),
        )
        .map(|(a, mut b)| RScript::On { obj: a, con: b.get_or_insert(vec![]).to_vec() });
    def.or(on)
        .recover_with(skip_then_retry_until([]))
        .padc()
        .repeated()
}

fn show_value(v: &Values) -> String {
    match v {
        Values::Object(s) => format!("O({:?})", s),
        Values::Str(s) => format!("S({:?})", s),
        Values::Variable(s, c) => format!("V({:?},{})", s, c),
        Values::ObjectVariable(o, s) => format!("OV({:?},{:?})", o, s),
        Values::Conditional(a, op, b) => format!("C({},{:?},{})", show_value(a), op, show_value(b)),
    }
}

fn show_rvalue(v: &RValues) -> String {
    match v {
        RValues::Object(s) => format!("O({:?})", s),
        RValues::Str(s) => format!("S({:?})", s),
        RValues::Variable(s, c) => format!("V({:?},{})", s, c),
        RValues::ObjectVariable(o, s) => format!("OV({:?},{:?})", o, s),
        RValues::Conditional(a, op, b) => {
            format!("C({},{:?},{})", show_rvalue(a), op, show_rvalue(b))
        }
    }
}

fn show_block(b: &BlockAST) -> String {
    let ps: Vec<String> = b.params.iter().map(show_value).collect();
    let kind = match b.typ {
        AstTypes::Block => "B",
        AstTypes::Ability => "A",
    };
    format!("{}{:?}[{}]", kind, b.name, ps.join(","))
}

fn show_rblock(b: &RBlock) -> String {
    let ps: Vec<String> = b.params.iter().map(show_rvalue).collect();
    format!("{}{:?}[{}]", if b.ability { "A" } else { "B" }, b.name, ps.join(","))
}

fn show_script(s: &Script) -> String {
    match s {
        Script::Define { typ, name } => match typ {
            DefineTypes::Object(t) => format!("DO({:?},{:?})", name, t),
            DefineTypes::Variable(c) => format!("DV({:?},{})", name, c),
            DefineTypes::Ability(bs) => match bs {
                Some(bs) => {
                    let v: Vec<String> = bs.iter().map(show_block).collect();
                    format!("DA({:?},Some[{}])", name, v.join(";"))
                }
                None => format!("DA({:?},None)", name),
            },
        },
        Script::On { obj, con } => {
            let v: Vec<String> = con.iter().map(show_script).collect();
            format!("ON({:?},[{}])", obj, v.join(";"))
        }
        Script::Rule { name, con, params } => {
            let c: Vec<String> = con.iter().map(show_block).collect();
            let p: Vec<String> = params.iter().map(show_value).collect();
            format!("R({:?},[{}],[{}])", name, p.join(","), c.join(";"))
        }
    }
}

fn show_rscript(s: &RScript) -> String {
    match s {
        RScript::Define { typ, name } => match typ {
            RDefine::Object(t) => format!("DO({:?},{:?})", name, t),
            RDefine::Variable(c) => format!("DV({:?},{})", name, c),
            RDefine::Ability(bs) => match bs {
                Some(bs) => {
                    let v: Vec<String> = bs.iter().map(show_rblock).collect();
                    format!("DA({:?},Some[{}])", name, v.join(";"))
                }
                None => format!("DA({:?},None)", name),
            },
        },
        RScript::On { obj, con } => {
            let v: Vec<String> = con.iter().map(show_rscript).collect();
            format!("ON({:?},[{}])", obj, v.join(";"))
        }
        RScript::Rule { name, con, params } => {
            let c: Vec<String> = con.iter().map(show_rblock).collect();
            let p: Vec<String> = params.iter().map(show_rvalue).collect();
            format!("R({:?},[{}],[{}])", name, p.join(","), c.join(";"))
        }
    }
}

fn compare(src: &str) {
    compare_grammar(src, true);
    compare_grammar(src, false);
}

fn compare_grammar(src: &str, paren: bool) {
    let (ours, our_errors) = if paren { generate_ast(src) } else { ast(src) };
    let (theirs, their_errors) = reference(paren).parse_recovery(src);
    let theirs = theirs.expect("the reference always yields statements");
    let a: Vec<String> = ours.iter().map(show_script).collect();
    let b: Vec<String> = theirs.iter().map(show_rscript).collect();
    assert_eq!(a, b, "statements differ for {:?} ({})", src, paren);
    assert_eq!(our_errors.len(), their_errors.len(), "error counts differ for {:?} ({})", src, paren);
}

const SAMPLES: &[&str] = &[
    "",
    "   ",
    "define var \"score\"",
    "define var\"a\"define var \"b\"",
    "define object \"My Toucan\" = objects.TOUCAN",
    "define object \"x\"=objects.square_1",
    "define ability \"Say Hello\" { setText(\"hello\", #ff00ff) }",
    "define ability \"loop\" { ability!(\"loop\") moveForward(10) }",
    "define ability \"e\" {}",
    "for \"Obj\" { when gameStarts() { moveForward(10) setPosition(300, 400) } }",
    "for \"Obj\"",
    "for \"Obj\" { define var \"inner\" when cond(v\"a\" == \"1\") { } }",
    "for \"Obj\" { when cond((v\"a\" != #123)) { ability!(\"x\") } }",
    "for \"O\" { when tap(o\"O\", o\"P\") { x(v\"O\".\"v\", v Self.\"w\", 12, \"s\\n\\t\\\"\") } }",
    "garbage define var \"a\"",
    "define var \"a\" ??? for \"b\" {}",
    "define var \"unterminated",
    "define var \"bad\\q\"",
    "for \"x\" { when condition() {} }",
    "for \"x\" { when cond(\"1\" == \"2\", o\"x\") {} }",
    "define ability \"a\" { b(#12345) c(#1234567) d(#abc) }",
    "define ability \"a\" { b( 1 , 2 ,3) }",
    "define ability \"a\" { b(1,) }",
    "for\t\"tab\"\n{\n  when  go ( )  {  }\n}\n",
    "\u{3000}define var \"wide space\"\u{2028}",
    "xyz",
    "define",
    "for \"a\" { when x() {",
    "define object(objects.TOUCAN, \"My Toucan\")",
    "define object ( objects.x ,\"a\" ) define var \"b\"",
    "define ability \"Say Hello\" { setText(\"hello universe\", colors.RANDOM) }",
    "define ability \"B\" { moveForward(var\"My Variable\") abilities.\"Say Hello\"() }",
    "for \"T\" { when rules.GAME_STARTS() { moveForward(10) setPosition(300, 400) } }",
    "(* a comment *) define var \"a\" (* another *)define var \"b\"(**)",
    "define ability \"c\" {(* x *) f( (*y*) 1 (*z*), 2) }",
    "(* unclosed define var \"a\"",
    "for \"O\" { when cond((* c *)(v\"a\" == \"1\")) {} }",
];

#[test]
fn parser_matches_reference_grammar() {
    for src in SAMPLES {
        compare(src);
    }
}

#[test]
fn parser_matches_reference_grammar_on_mutations() {
    // Every prefix of every sample, and every sample with one character removed.
    for src in SAMPLES {
        let chars: Vec<char> = src.chars().collect();
        for n in 0..=chars.len() {
            let prefix: String = chars[..n].iter().collect();
            compare(&prefix);
        }
        for n in 0..chars.len() {
            let mut c = chars.clone();
            c.remove(n);
            let s: String = c.iter().collect();
            compare(&s);
        }
    }
}
