//! The `define` statement parser against a reference built from nom.
use hopperscript::define::define;
use hopperscript::typess::{string, DefineError, DefineErrorKind};
use nom::branch::alt;
use nom::bytes::complete::{is_not, tag};
use nom::character::complete::char;
use nom::character::streaming::space1;
use nom::error::ErrorKind;
use nom::sequence::{delimited, preceded};
use nom::IResult;

fn ref_string(i: &str) -> IResult<&str, &str> {
    delimited(char('"'), is_not("\""), char('"'))(i)
}

fn ref_var(i: &str) -> IResult<&str, (&str, i16)> {
    let (p, _) = tag("var")(i)?;
    let (a, b) = ref_string(p.trim())?;
    Ok((a, (b, 0)))
}

fn ref_obj(i: &str) -> IResult<&str, (&str, i16)> {
    let (p, _) = tag("object")(i)?;
    let (a, b) = ref_string(p.trim())?;
    Ok((a, (b, 1)))
}

/// `object(objects.TYPE, "name")`: the rest after `)` and the name.
fn ref_obj_call(r: &str) -> Option<(&str, &str)> {
    let t = r.strip_prefix("object(objects.")?;
    let first = t.chars().next()?;
    if !(first.is_ascii_alphabetic() || first == '_') {
        return None;
    }
    let k = t.find(|c: char| !(c.is_ascii_alphanumeric() || c == '_')).unwrap_or(t.len());
    let u = t[k..].strip_prefix(',')?;
    let v = u.trim_start_matches(|c| c == ' ' || c == '\t');
    let (rest, n) = ref_string(v).ok()?;
    Some((rest.strip_prefix(')')?, n))
}

fn ref_define(i: &str) -> IResult<&str, (&str, i16)> {
    let (d, _) = tag("define")(i)?;
    match preceded(space1, alt((ref_var, ref_obj)))(d) {
        Err(nom::Err::Error(e)) if d.starts_with(|c| c == ' ' || c == '\t') => {
            let r = d.trim_start_matches(|c| c == ' ' || c == '\t');
            match ref_obj_call(r) {
                Some((rest, n)) => Ok((rest, (n, 1))),
                None => Err(nom::Err::Error(e)),
            }
        }
        other => other,
    }
}

fn kind_name(k: &DefineErrorKind) -> &'static str {
    match k {
        DefineErrorKind::Tag => "Tag",
        DefineErrorKind::Space => "Space",
        DefineErrorKind::Char => "Char",
        DefineErrorKind::IsNot => "IsNot",
    }
}

fn ref_kind_name(k: ErrorKind) -> &'static str {
    match k {
        ErrorKind::Tag => "Tag",
        ErrorKind::Space => "Space",
        ErrorKind::Char => "Char",
        ErrorKind::IsNot => "IsNot",
        _ => "other",
    }
}

fn show_ours<T: std::fmt::Debug>(r: &Result<(String, T), DefineError>) -> String {
    match r {
        Ok((rest, v)) => format!("Ok({:?},{:?})", rest, v),
        Err(DefineError::Incomplete) => "Incomplete".to_string(),
        Err(DefineError::Error { input, kind }) => format!("Error({:?},{})", input, kind_name(kind)),
    }
}

fn show_theirs<T: std::fmt::Debug>(r: &IResult<&str, T>) -> String {
    match r {
        Ok((rest, v)) => format!("Ok({:?},{:?})", rest, v),
        Err(nom::Err::Incomplete(_)) => "Incomplete".to_string(),
        Err(nom::Err::Error(e)) | Err(nom::Err::Failure(e)) => {
            format!("Error({:?},{})", e.input, ref_kind_name(e.code))
        }
    }
}

const SAMPLES: &[&str] = &[
    "",
    "define",
    "define ",
    "define \t ",
    "definevar \"x\"",
    "define var \"x\"",
    "define var \"x\" tail",
    "define   var   \"my variable\"   ",
    "define object \"Toucan\"",
    "define object\"Toucan\"rest",
    "define var \"\"",
    "define var \"open",
    "define var",
    "define var x",
    "define objects \"x\"",
    "define thing \"x\"",
    "define\tvar \"t\"",
    "define\nvar \"n\"",
    "undefine var \"x\"",
    "define var \"a\" \n",
    "define object \"a\u{3000}\"\u{3000}",
    "define object(objects.TOUCAN, \"My Toucan\")",
    "define  object(objects.T,\"a\")rest",
    "define object(objects.,\"a\")",
    "define object(objects.T \"a\")",
    "define object(objects.T, \"a\"",
    "define object(objects.9T, \"a\")",
    "defineobject(objects.T, \"a\")",
];

#[test]
fn define_matches_reference() {
    for src in SAMPLES {
        let ours = define(src);
        let theirs = ref_define(src);
        let ours = match ours {
            Ok((rest, (name, code))) => Ok((rest, (name, code))),
            Err(e) => Err(e),
        };
        let theirs = theirs.map(|(r, (n, c))| (r, (n.to_string(), c)));
        assert_eq!(show_ours(&ours), show_theirs(&theirs), "differs for {:?}", src);
    }
}

#[test]
fn string_matches_reference() {
    for src in SAMPLES.iter().chain(["\"abc\"rest", "\"", "\"\"", "x\"a\"", "\"a b\" c"].iter()) {
        let ours = string(src);
        let theirs = ref_string(src).map(|(r, t)| (r, t.to_string()));
        assert_eq!(show_ours(&ours), show_theirs(&theirs), "differs for {:?}", src);
    }
}

#[test]
fn documented_object_definition_is_read() {
    let r = define("define object(objects.TOUCAN, \"My Toucan\")");
    let (rest, (name, code)) = r.ok().unwrap();
    assert_eq!(rest, "");
    assert_eq!(name, "My Toucan");
    assert_eq!(code, 1);
}
