//! Helpers of the generator: hex digits, fresh ids, and the resolution of
//! source parameters against the project built so far.
use vstd::prelude::*;
use vstd::string::StringExecFns;
use crate::text::{chars_of, is_digit, is_hex_digit, string_from_chars};
use crate::types::{
    Datum, DatumView, ObjectView, Param, ParamView, Project, ProjectView, Value, ValueView, Values,
    ValuesView, VariableView, lemma_params_view, lemma_params_view_push, opt_datum_view,
    opt_str_view, params_view, values_seq_view,
};

verus! {

/// Check if `c` is a hex digit, i.e. one of `0123456789abcdefABCDEF`.
pub fn is_hex(c: char) -> (r: bool)
    ensures
        r == is_hex_digit(c),
{
    ('0' <= c && c <= '9') || ('a' <= c && c <= 'f') || ('A' <= c && c <= 'F')
}

// ---------------------------------------------------------------------------
// Fresh ids
// ---------------------------------------------------------------------------

/// The text of a version-4 UUID in hyphenated form, with hex digits in the
/// case `upper` selects: 36 characters, `-` at 8, 13, 18 and 23, the version
/// digit `4` at 14 and a variant digit of `8`, `9`, `a` or `b` at 19.
pub open spec fn is_uuid_text(s: Seq<char>, upper: bool) -> bool {
    &&& s.len() == 36
    &&& forall|i: int|
        0 <= i < 36 ==> if i == 8 || i == 13 || i == 18 || i == 23 {
            #[trigger] s[i] == '-'
        } else if upper {
            is_digit(s[i]) || ('A' <= s[i] && s[i] <= 'F')
        } else {
            is_digit(s[i]) || ('a' <= s[i] && s[i] <= 'f')
        }
    &&& s[14] == '4'
    &&& if upper {
        s[19] == '8' || s[19] == '9' || s[19] == 'A' || s[19] == 'B'
    } else {
        s[19] == '8' || s[19] == '9' || s[19] == 'a' || s[19] == 'b'
    }
}

/// `uuid::Uuid::new_v4` rendered by its `Display` impl: a random version-4
/// UUID in lower-case hyphenated form. Which UUID comes back is left open.
#[verifier::external_body]
fn random_uuid_text() -> (s: String)
    ensures
        is_uuid_text(s@, false),
{
    uuid::Uuid::new_v4().to_string()
}

/// The upper-case form of an ASCII character; other characters are kept.
pub open spec fn ascii_upper(c: char) -> char {
    if 'a' <= c && c <= 'z' {
        ((c as u32) - 32) as char
    } else {
        c
    }
}

fn to_ascii_upper(c: char) -> (r: char)
    ensures
        r == ascii_upper(c),
{
    if 'a' <= c && c <= 'z' {
        ((c as u8) - 32) as char
    } else {
        c
    }
}

/// A fresh id: a random version-4 UUID, hyphenated, in upper case.
pub fn giv_me_uuid() -> (r: String)
    ensures
        is_uuid_text(r@, true),
{
    let text = random_uuid_text();
    let cs = chars_of(text.as_str());
    let mut out: Vec<char> = Vec::new();
    let mut i: usize = 0;
    while i < cs.len()
        invariant
            cs@ == text@,
            is_uuid_text(text@, false),
            i <= cs.len(),
            out@.len() == i,
            forall|k: int| 0 <= k < i ==> #[trigger] out@[k] == ascii_upper(cs@[k]),
        decreases cs.len() - i,
    {
        out.push(to_ascii_upper(cs[i]));
        i = i + 1;
    }
    assert forall|k: int| 0 <= k < 36 implies #[trigger] out@[k] == ascii_upper(text@[k]) by {}
    assert(is_uuid_text(out@, true)) by {
        assert forall|k: int| 0 <= k < 36 implies if k == 8 || k == 13 || k == 18 || k == 23 {
            #[trigger] out@[k] == '-'
        } else {
            is_digit(out@[k]) || ('A' <= out@[k] && out@[k] <= 'F')
        } by {
            assert(out@[k] == ascii_upper(text@[k]));
        }
        assert(out@[14] == ascii_upper(text@[14]));
        assert(out@[19] == ascii_upper(text@[19]));
    }
    string_from_chars(&out)
}

// ---------------------------------------------------------------------------
// Resolution errors
// ---------------------------------------------------------------------------

/// Why a program cannot be turned into a project.
#[derive(Debug, PartialEq, Eq, Structural)]
pub enum GenError {
    /// An object named in the program is not in the project.
    ObjectNotFound,
    /// A defined object's type is not in the object data.
    ObjectTypeNotFound,
    /// A variable named in the program is not in the project.
    VariableNotFound,
    /// A block called in the program is not in the block data.
    BlockNotFound,
    /// A rule used in the program is not in the rule data.
    RuleNotFound,
    /// An ability called in the program is not defined before the call.
    AbilityNotFound,
    /// An ability without a name stands before the one the call looks for.
    UnnamedAbility,
    /// An event parameter has no object.
    EventWithoutObject,
    /// No event parameter belongs to the object a rule refers to.
    EventNotFound,
    /// A block or rule is given more parameters than its data lists.
    TooManyParameters,
    /// A `cond` rule has no condition.
    MissingCondition,
    /// The condition of a `cond` rule has nothing to test.
    ConditionWithoutDatum,
    /// A variable code is too large to offset by 8000 in an `i32`.
    CodeOverflow,
    /// The clock is before the Unix epoch, or too far after it.
    ClockOutOfRange,
}

// ---------------------------------------------------------------------------
// Lookups by name: the first match, as `Iterator::find` gives it
// ---------------------------------------------------------------------------

pub open spec fn find_object_from(objs: Seq<ObjectView>, n: Seq<char>, k: int) -> Option<int>
    decreases objs.len() - k,
{
    if 0 <= k < objs.len() {
        if objs[k].name == n {
            Some(k)
        } else {
            find_object_from(objs, n, k + 1)
        }
    } else {
        None
    }
}

/// The index of the first object named `n`.
pub open spec fn find_object(objs: Seq<ObjectView>, n: Seq<char>) -> Option<int> {
    find_object_from(objs, n, 0)
}

pub open spec fn find_variable_from(vars: Seq<VariableView>, n: Seq<char>, k: int) -> Option<int>
    decreases vars.len() - k,
{
    if 0 <= k < vars.len() {
        if vars[k].name == n {
            Some(k)
        } else {
            find_variable_from(vars, n, k + 1)
        }
    } else {
        None
    }
}

/// The index of the first variable named `n`.
pub open spec fn find_variable(vars: Seq<VariableView>, n: Seq<char>) -> Option<int> {
    find_variable_from(vars, n, 0)
}

pub proof fn lemma_find_object_from(objs: Seq<ObjectView>, n: Seq<char>, k: int)
    requires
        0 <= k,
    ensures
        find_object_from(objs, n, k) matches Some(i) ==> k <= i < objs.len() && objs[i].name == n,
    decreases objs.len() - k,
{
    if 0 <= k < objs.len() && objs[k].name != n {
        lemma_find_object_from(objs, n, k + 1);
    }
}

pub proof fn lemma_find_variable_from(vars: Seq<VariableView>, n: Seq<char>, k: int)
    requires
        0 <= k,
    ensures
        find_variable_from(vars, n, k) matches Some(i) ==> k <= i < vars.len() && vars[i].name
            == n,
    decreases vars.len() - k,
{
    if 0 <= k < vars.len() && vars[k].name != n {
        lemma_find_variable_from(vars, n, k + 1);
    }
}

/// The position of the first object of `proj` named `n`.
pub fn find_object_named(proj: &Project, n: &String) -> (r: Option<usize>)
    ensures
        r matches Some(i) ==> find_object(proj@.objects, n@) == Some(i as int) && i
            < proj.objects.len(),
        r is None ==> find_object(proj@.objects, n@) is None,
{
    let mut j: usize = 0;
    while j < proj.objects.len()
        invariant
            j <= proj.objects.len(),
            find_object_from(proj@.objects, n@, j as int) == find_object(proj@.objects, n@),
        decreases proj.objects.len() - j,
    {
        if proj.objects[j].name == *n {
            return Some(j);
        }
        j = j + 1;
    }
    None
}

/// The position of the first variable of `proj` named `n`.
pub fn find_variable_named(proj: &Project, n: &String) -> (r: Option<usize>)
    ensures
        r matches Some(i) ==> find_variable(proj@.variables, n@) == Some(i as int) && i
            < proj.variables.len(),
        r is None ==> find_variable(proj@.variables, n@) is None,
{
    let mut j: usize = 0;
    while j < proj.variables.len()
        invariant
            j <= proj.variables.len(),
            find_variable_from(proj@.variables, n@, j as int) == find_variable(
                proj@.variables,
                n@,
            ),
        decreases proj.variables.len() - j,
    {
        if proj.variables[j].name == *n {
            return Some(j);
        }
        j = j + 1;
    }
    None
}

// ---------------------------------------------------------------------------
// Copies
// ---------------------------------------------------------------------------

fn copy_opt_string(o: &Option<String>) -> (r: Option<String>)
    ensures
        r == *o,
{
    match o {
        Some(s) => Some(s.clone()),
        None => None,
    }
}

/// A copy of a datum.
pub fn copy_datum(d: &Datum) -> (r: Datum)
    ensures
        r@ == d@,
    decreases d, 1int,
{
    let params = match &d.params {
        Some(ps) => Some(copy_params(ps)),
        None => None,
    };
    Datum {
        typ: d.typ,
        block_class: copy_opt_string(&d.block_class),
        params,
        variable: copy_opt_string(&d.variable),
        object: copy_opt_string(&d.object),
    }
}

/// A copy of a list of parameters.
pub fn copy_params(ps: &Vec<Param>) -> (r: Vec<Param>)
    ensures
        params_view(r@) == params_view(ps@),
    decreases ps, 0int,
{
    let mut out: Vec<Param> = Vec::new();
    let mut i: usize = 0;
    proof {
        lemma_params_view(ps@);
    }
    while i < ps.len()
        invariant
            i <= ps.len(),
            params_view(out@) == params_view(ps@.take(i as int)),
        decreases ps.len() - i,
    {
        proof {
            assert(decreases_to!(ps => ps@));
            assert(decreases_to!(ps@ => ps@[i as int]));
        }
        let p = copy_param(&ps[i]);
        proof {
            lemma_params_view_push(out@, p);
            lemma_params_view_push(ps@.take(i as int), ps@[i as int]);
            assert(ps@.take(i as int).push(ps@[i as int]) =~= ps@.take(i + 1));
        }
        out.push(p);
        i = i + 1;
    }
    assert(ps@.take(ps.len() as int) =~= ps@);
    out
}

/// A copy of a parameter.
pub fn copy_param(p: &Param) -> (r: Param)
    ensures
        r@ == p@,
    decreases p, 2int,
{
    let datum = match &p.datum {
        Some(d) => Some(copy_datum(d)),
        None => None,
    };
    Param {
        value: p.value.clone(),
        typ: p.typ,
        default_value: p.default_value.clone(),
        key: p.key.clone(),
        datum,
        variable: copy_opt_string(&p.variable),
    }
}

pub fn copy_opt_datum(o: &Option<Datum>) -> (r: Option<Datum>)
    ensures
        opt_datum_view(r) == opt_datum_view(*o),
{
    match o {
        Some(d) => Some(copy_datum(d)),
        None => None,
    }
}

// ---------------------------------------------------------------------------
// Parameters and values
// ---------------------------------------------------------------------------

/// A parameter with the given type and variable, carrying `value`.
pub open spec fn param_of(value: ValueView, typ: i32, variable: Option<Seq<char>>) -> ParamView {
    ParamView {
        value: value.value,
        typ,
        default_value: Seq::empty(),
        key: Seq::empty(),
        datum: value.datum,
        variable,
    }
}

/// Convert `&Value` to a Hopscotch-readable parameter.
pub fn value_to_param(value: &Value, typ: i32, variable: Option<String>) -> (r: Param)
    ensures
        r@ == param_of(value@, typ, opt_str_view(variable)),
{
    Param {
        datum: copy_opt_datum(&value.datum),
        default_value: String::new(),
        key: String::new(),
        typ,
        value: value.value.clone(),
        variable,
    }
}

/// The operator code of a comparison or connective.
pub open spec fn cond_code(op: Seq<char>) -> i32 {
    if op == "=="@ {
        1000
    } else if op == "!="@ {
        1001
    } else if op == "<"@ {
        1002
    } else if op == ">"@ {
        1003
    } else if op == "and"@ {
        1004
    } else if op == "or"@ {
        1005
    } else if op == ">="@ {
        1006
    } else if op == "<="@ {
        1007
    } else {
        0
    }
}

fn cond_code_of(op: &String) -> (r: i32)
    ensures
        r == cond_code(op@),
{
    if *op == String::from_str("==") {
        1000
    } else if *op == String::from_str("!=") {
        1001
    } else if *op == String::from_str("<") {
        1002
    } else if *op == String::from_str(">") {
        1003
    } else if *op == String::from_str("and") {
        1004
    } else if *op == String::from_str("or") {
        1005
    } else if *op == String::from_str(">=") {
        1006
    } else if *op == String::from_str("<=") {
        1007
    } else {
        0
    }
}

/// The datum of a reference to a variable.
pub open spec fn variable_datum(
    object_id_string: Seq<char>,
    typ: i32,
    object: Option<Seq<char>>,
) -> DatumView {
    DatumView { typ, block_class: None, params: None, variable: Some(object_id_string), object }
}

/// `8000 + code` fits in an `i32`.
pub open spec fn code_fits(code: i32) -> bool {
    code <= i32::MAX - 8000
}

/// A source parameter resolved against `proj`: objects become their ids,
/// strings stay, variables become variable data (type `8000 + code`), an
/// object's variable becomes variable data of type 8000 naming the object,
/// and a conditional becomes an operator datum over its two resolved sides.
pub open spec fn transform_value(v: ValuesView, proj: ProjectView) -> Result<ValueView, GenError>
    decreases v,
{
    match v {
        ValuesView::Object(n) => match find_object(proj.objects, n) {
            Some(i) => Ok(ValueView { value: proj.objects[i].id, datum: None }),
            None => Err(GenError::ObjectNotFound),
        },
        ValuesView::Str(x) => Ok(ValueView { value: x, datum: None }),
        ValuesView::Variable(n, code) => match find_variable(proj.variables, n) {
            Some(i) => if code_fits(code) {
                Ok(
                    ValueView {
                        value: Seq::empty(),
                        datum: Some(
                            variable_datum(
                                proj.variables[i].object_id_string,
                                (8000 + code) as i32,
                                None,
                            ),
                        ),
                    },
                )
            } else {
                Err(GenError::CodeOverflow)
            },
            None => Err(GenError::VariableNotFound),
        },
        ValuesView::ObjectVariable(o, n) => match find_variable(proj.variables, n) {
            Some(i) => match find_object(proj.objects, o) {
                Some(j) => Ok(
                    ValueView {
                        value: Seq::empty(),
                        datum: Some(
                            variable_datum(
                                proj.variables[i].object_id_string,
                                8000,
                                Some(proj.objects[j].id),
                            ),
                        ),
                    },
                ),
                None => Err(GenError::ObjectNotFound),
            },
            None => Err(GenError::VariableNotFound),
        },
        ValuesView::Conditional(a, op, b) => match transform_value(*a, proj) {
            Ok(x) => match transform_value(*b, proj) {
                Ok(y) => Ok(
                    ValueView {
                        value: Seq::empty(),
                        datum: Some(
                            DatumView {
                                typ: cond_code(op),
                                block_class: Some("conditionalOperator"@),
                                params: Some(seq![param_of(x, 42, None), param_of(y, 42, None)]),
                                variable: None,
                                object: None,
                            },
                        ),
                    },
                ),
                Err(e) => Err(e),
            },
            Err(e) => Err(e),
        },
    }
}

/// A list of source parameters resolved in order; the first failure is the result.
pub open spec fn transform_values(vs: Seq<ValuesView>, proj: ProjectView) -> Result<
    Seq<ValueView>,
    GenError,
>
    decreases vs.len(),
{
    if vs.len() == 0 {
        Ok(Seq::empty())
    } else {
        match transform_values(vs.drop_last(), proj) {
            Ok(r) => match transform_value(vs.last(), proj) {
                Ok(x) => Ok(r.push(x)),
                Err(e) => Err(e),
            },
            Err(e) => Err(e),
        }
    }
}

pub open spec fn values_out_view(v: Seq<Value>) -> Seq<ValueView> {
    v.map_values(|x: Value| x@)
}

/// Resolves one source parameter against `proj`.
pub fn transform_value_exec(v: &Values, proj: &Project) -> (r: Result<Value, GenError>)
    ensures
        match r {
            Ok(x) => transform_value(v@, proj@) == Ok::<ValueView, GenError>(x@),
            Err(e) => transform_value(v@, proj@) == Err::<ValueView, GenError>(e),
        },
    decreases v,
{
    match v {
        Values::Object(n) => match find_object_named(proj, n) {
            Some(i) => Ok(Value { value: proj.objects[i].id.clone(), datum: None }),
            None => Err(GenError::ObjectNotFound),
        },
        Values::Str(x) => Ok(Value { value: x.clone(), datum: None }),
        Values::Variable(n, code) => match find_variable_named(proj, n) {
            Some(i) => {
                if *code > i32::MAX - 8000 {
                    return Err(GenError::CodeOverflow);
                }
                Ok(
                    Value {
                        value: String::new(),
                        datum: Some(
                            Datum {
                                variable: Some(proj.variables[i].object_id_string.clone()),
                                typ: 8000 + *code,
                                block_class: None,
                                params: None,
                                object: None,
                            },
                        ),
                    },
                )
            },
            None => Err(GenError::VariableNotFound),
        },
        Values::ObjectVariable(o, n) => match find_variable_named(proj, n) {
            Some(i) => match find_object_named(proj, o) {
                Some(j) => Ok(
                    Value {
                        value: String::new(),
                        datum: Some(
                            Datum {
                                variable: Some(proj.variables[i].object_id_string.clone()),
                                typ: 8000,
                                block_class: None,
                                params: None,
                                object: Some(proj.objects[j].id.clone()),
                            },
                        ),
                    },
                ),
                None => Err(GenError::ObjectNotFound),
            },
            None => Err(GenError::VariableNotFound),
        },
        Values::Conditional(a, op, b) => {
            let x = match transform_value_exec(a, proj) {
                Ok(x) => x,
                Err(e) => {
                    return Err(e);
                },
            };
            let y = match transform_value_exec(b, proj) {
                Ok(y) => y,
                Err(e) => {
                    return Err(e);
                },
            };
            let px = value_to_param(&x, 42, None);
            let py = value_to_param(&y, 42, None);
            let mut ps: Vec<Param> = Vec::new();
            ps.push(px);
            ps.push(py);
            proof {
                lemma_params_view(ps@);
                assert(params_view(ps@) =~= seq![param_of(x@, 42, None), param_of(y@, 42, None)]);
            }
            Ok(
                Value {
                    value: String::new(),
                    datum: Some(
                        Datum {
                            block_class: Some(String::from_str("conditionalOperator")),
                            object: None,
                            typ: cond_code_of(op),
                            variable: None,
                            params: Some(ps),
                        },
                    ),
                },
            )
        },
    }
}

/// Resolves source parameters in order; the first failure is returned.
pub fn try_transform_vals(params: &Vec<Values>, proj: &Project) -> (r: Result<
    Vec<Value>,
    GenError,
>)
    ensures
        match r {
            Ok(out) => transform_values(values_seq_view(params@), proj@) == Ok::<
                Seq<ValueView>,
                GenError,
            >(values_out_view(out@)),
            Err(e) => transform_values(values_seq_view(params@), proj@) == Err::<
                Seq<ValueView>,
                GenError,
            >(e),
        },
{
    let mut out: Vec<Value> = Vec::new();
    let mut i: usize = 0;
    assert(values_seq_view(params@.take(0)) =~= Seq::<ValuesView>::empty());
    assert(values_out_view(out@) =~= Seq::<ValueView>::empty());
    while i < params.len()
        invariant
            i <= params.len(),
            transform_values(values_seq_view(params@.take(i as int)), proj@) == Ok::<
                Seq<ValueView>,
                GenError,
            >(values_out_view(out@)),
        decreases params.len() - i,
    {
        let ghost pre = values_seq_view(params@.take(i as int));
        let ghost next = values_seq_view(params@.take(i + 1));
        assert(next.drop_last() =~= pre);
        assert(next.last() == params@[i as int]@);
        match transform_value_exec(&params[i], proj) {
            Ok(x) => {
                assert(values_out_view(out@.push(x)) =~= values_out_view(out@).push(x@));
                out.push(x);
            },
            Err(e) => {
                proof {
                    lemma_transform_values_prefix_err(values_seq_view(params@), proj@, i + 1);
                    assert(values_seq_view(params@).take(i + 1) =~= next);
                }
                return Err(e);
            },
        }
        i = i + 1;
    }
    assert(params@.take(params.len() as int) =~= params@);
    Ok(out)
}

/// A failure on a prefix is the failure of the whole list.
proof fn lemma_transform_values_prefix_err(vs: Seq<ValuesView>, proj: ProjectView, n: int)
    requires
        0 <= n <= vs.len(),
        transform_values(vs.take(n), proj) is Err,
    ensures
        transform_values(vs, proj) == transform_values(vs.take(n), proj),
    decreases vs.len() - n,
{
    if n < vs.len() {
        let t = vs.take(n + 1);
        assert(t.drop_last() =~= vs.take(n));
        lemma_transform_values_prefix_err(vs, proj, n + 1);
    } else {
        assert(vs.take(n) =~= vs);
    }
}

/// Turn source parameters into resolved values, for parameters that all
/// resolve against `proj` (the objects and variables they name exist).
pub fn transform_vals(params: Vec<Values>, proj: &Project) -> (r: Vec<Value>)
    requires
        transform_values(values_seq_view(params@), proj@) is Ok,
    ensures
        transform_values(values_seq_view(params@), proj@) == Ok::<Seq<ValueView>, GenError>(
            values_out_view(r@),
        ),
{
    match try_transform_vals(&params, proj) {
        Ok(out) => out,
        Err(e) => {
            proof {
                assert(false);
            }
            Vec::new()
        },
    }
}

/// Values are resolved one by one: where the whole list resolves, the result
/// has one value per source parameter, each the resolution of that parameter.
pub proof fn law_transform_values_elementwise(vs: Seq<ValuesView>, proj: ProjectView)
    ensures
        transform_values(vs, proj) matches Ok(out) ==> out.len() == vs.len() && forall|i: int|
            0 <= i < vs.len() ==> transform_value(vs[i], proj) == Ok::<ValueView, GenError>(
                #[trigger] out[i],
            ),
    decreases vs.len(),
{
    if vs.len() > 0 {
        law_transform_values_elementwise(vs.drop_last(), proj);
        if let Ok(out) = transform_values(vs, proj) {
            let r = transform_values(vs.drop_last(), proj)->Ok_0;
            assert forall|i: int| 0 <= i < vs.len() implies transform_value(vs[i], proj) == Ok::<
                ValueView,
                GenError,
            >(#[trigger] out[i]) by {
                if i < vs.len() - 1 {
                    assert(vs.drop_last()[i] == vs[i]);
                    assert(out[i] == r[i]);
                }
            }
        }
    }
}

/// Resolving a list is resolving its parts: the parameters `a` followed by
/// `b` resolve to the values of `a` followed by those of `b`, and where a
/// part fails, the first failure, in `a` before `b`, is the result.
pub proof fn law_transform_values_concat(a: Seq<ValuesView>, b: Seq<ValuesView>, proj: ProjectView)
    ensures
        transform_values(a + b, proj) == match transform_values(a, proj) {
            Ok(x) => match transform_values(b, proj) {
                Ok(y) => Ok::<Seq<ValueView>, GenError>(x + y),
                Err(e) => Err(e),
            },
            Err(e) => Err(e),
        },
    decreases b.len(),
{
    if b.len() == 0 {
        assert(a + b =~= a);
        if let Ok(x) = transform_values(a, proj) {
            assert(x + Seq::<ValueView>::empty() =~= x);
        }
    } else {
        assert((a + b).drop_last() =~= a + b.drop_last());
        assert((a + b).last() == b.last());
        law_transform_values_concat(a, b.drop_last(), proj);
        if let Ok(x) = transform_values(a, proj) {
            if let Ok(y0) = transform_values(b.drop_last(), proj) {
                if let Ok(z) = transform_value(b.last(), proj) {
                    assert((x + y0).push(z) =~= x + y0.push(z));
                }
            }
        }
    }
}

/// `i` is the position of the first object of `objs` named `n`.
pub open spec fn first_object_named(objs: Seq<ObjectView>, n: Seq<char>, i: int) -> bool {
    &&& 0 <= i < objs.len()
    &&& objs[i].name == n
    &&& forall|k: int| 0 <= k < i ==> #[trigger] objs[k].name != n
}

/// `i` is the position of the first variable of `vars` named `n`.
pub open spec fn first_variable_named(vars: Seq<VariableView>, n: Seq<char>, i: int) -> bool {
    &&& 0 <= i < vars.len()
    &&& vars[i].name == n
    &&& forall|k: int| 0 <= k < i ==> #[trigger] vars[k].name != n
}

proof fn lemma_find_object_first(objs: Seq<ObjectView>, n: Seq<char>, k: int)
    requires
        0 <= k,
        forall|m: int| 0 <= m < k ==> #[trigger] objs[m].name != n,
    ensures
        find_object_from(objs, n, k) matches Some(i) ==> first_object_named(objs, n, i),
        find_object_from(objs, n, k) is None ==> forall|m: int|
            0 <= m < objs.len() ==> #[trigger] objs[m].name != n,
    decreases objs.len() - k,
{
    if 0 <= k < objs.len() && objs[k].name != n {
        lemma_find_object_first(objs, n, k + 1);
    }
}

proof fn lemma_find_variable_first(vars: Seq<VariableView>, n: Seq<char>, k: int)
    requires
        0 <= k,
        forall|m: int| 0 <= m < k ==> #[trigger] vars[m].name != n,
    ensures
        find_variable_from(vars, n, k) matches Some(i) ==> first_variable_named(vars, n, i),
        find_variable_from(vars, n, k) is None ==> forall|m: int|
            0 <= m < vars.len() ==> #[trigger] vars[m].name != n,
    decreases vars.len() - k,
{
    if 0 <= k < vars.len() && vars[k].name != n {
        lemma_find_variable_first(vars, n, k + 1);
    }
}

/// An object reference `o"n"` resolves to the id of the first object named
/// `n`, with no datum; it fails exactly where no object has that name.
pub proof fn law_object_reference_resolution(n: Seq<char>, proj: ProjectView)
    ensures
        transform_value(ValuesView::Object(n), proj) matches Ok(x) ==> exists|j: int|
            #[trigger] first_object_named(proj.objects, n, j) && x == (ValueView {
                value: proj.objects[j].id,
                datum: None,
            }),
        transform_value(ValuesView::Object(n), proj) is Err <==> forall|m: int|
            0 <= m < proj.objects.len() ==> #[trigger] proj.objects[m].name != n,
{
    lemma_find_object_first(proj.objects, n, 0);
}

/// A string stands for itself.
pub proof fn law_string_resolution(t: Seq<char>, proj: ProjectView)
    ensures
        transform_value(ValuesView::Str(t), proj) == Ok::<ValueView, GenError>(
            ValueView { value: t, datum: None },
        ),
{
}

/// A variable reference with code `code` resolves to an empty value whose
/// datum names the id of the first variable named `n` and has type
/// `8000 + code`; it fails exactly where no variable has that name or the
/// type would not fit an `i32`.
pub proof fn law_variable_resolution(n: Seq<char>, code: i32, proj: ProjectView)
    ensures
        transform_value(ValuesView::Variable(n, code), proj) matches Ok(x) ==> exists|i: int|
            #[trigger] first_variable_named(proj.variables, n, i) && 8000 + code <= i32::MAX
                && x == (ValueView {
                value: Seq::empty(),
                datum: Some(
                    DatumView {
                        typ: (8000 + code) as i32,
                        block_class: None,
                        params: None,
                        variable: Some(proj.variables[i].object_id_string),
                        object: None,
                    },
                ),
            }),
        transform_value(ValuesView::Variable(n, code), proj) is Err <==> (8000 + code > i32::MAX
            || forall|m: int|
            0 <= m < proj.variables.len() ==> #[trigger] proj.variables[m].name != n),
{
    lemma_find_variable_first(proj.variables, n, 0);
}

/// A variable of an object `v"o"."n"` resolves to an empty value whose datum
/// has type 8000, names as its variable the id of the first variable named
/// `n` and as its object the id of the first object named `o`; it fails
/// exactly where either is missing.
pub proof fn law_object_variable_resolution(o: Seq<char>, n: Seq<char>, proj: ProjectView)
    ensures
        transform_value(ValuesView::ObjectVariable(o, n), proj) matches Ok(x) ==> exists|
            i: int,
            j: int,
        |
            #[trigger] first_variable_named(proj.variables, n, i) && #[trigger] first_object_named(
                proj.objects,
                o,
                j,
            ) && x == (ValueView {
                value: Seq::empty(),
                datum: Some(
                    DatumView {
                        typ: 8000,
                        block_class: None,
                        params: None,
                        variable: Some(proj.variables[i].object_id_string),
                        object: Some(proj.objects[j].id),
                    },
                ),
            }),
        transform_value(ValuesView::ObjectVariable(o, n), proj) is Err <==> ((forall|m: int|
            0 <= m < proj.variables.len() ==> #[trigger] proj.variables[m].name != n) || (forall|
            m: int,
        | 0 <= m < proj.objects.len() ==> #[trigger] proj.objects[m].name != o)),
{
    lemma_find_variable_first(proj.variables, n, 0);
    lemma_find_object_first(proj.objects, o, 0);
}

/// A condition `a op b` resolves, where both sides do, to an empty value
/// whose datum is a `conditionalOperator` with the two sides as parameters
/// of type 42 (value and datum of each side, in order); `==` has type 1000
/// and `!=` type 1001. Where a side fails, the first failure is the result.
pub proof fn law_condition_resolution(
    a: ValuesView,
    op: Seq<char>,
    b: ValuesView,
    proj: ProjectView,
)
    ensures
        ({
            let r = transform_value(ValuesView::Conditional(Box::new(a), op, Box::new(b)), proj);
            match transform_value(a, proj) {
                Err(e) => r == Err::<ValueView, GenError>(e),
                Ok(xa) => match transform_value(b, proj) {
                    Err(e) => r == Err::<ValueView, GenError>(e),
                    Ok(xb) => {
                        &&& r is Ok
                        &&& r->Ok_0.value == Seq::<char>::empty()
                        &&& r->Ok_0.datum is Some
                        &&& r->Ok_0.datum->0.block_class == Some("conditionalOperator"@)
                        &&& r->Ok_0.datum->0.variable is None
                        &&& r->Ok_0.datum->0.object is None
                        &&& r->Ok_0.datum->0.params == Some(
                            seq![
                                ParamView { value: xa.value, typ: 42, default_value: Seq::empty(), key: Seq::empty(), datum: xa.datum, variable: None },
                                ParamView { value: xb.value, typ: 42, default_value: Seq::empty(), key: Seq::empty(), datum: xb.datum, variable: None },
                            ],
                        )
                        &&& op == "=="@ ==> r->Ok_0.datum->0.typ == 1000
                        &&& op == "!="@ ==> r->Ok_0.datum->0.typ == 1001
                    },
                },
            }
        }),
{
    reveal_strlit("==");
    reveal_strlit("!=");
    assert(("!="@)[0] != ("=="@)[0]);
    if let Ok(xa) = transform_value(a, proj) {
        if let Ok(xb) = transform_value(b, proj) {
            let ps = seq![param_of(xa, 42, None), param_of(xb, 42, None)];
            assert(ps =~= seq![
                ParamView { value: xa.value, typ: 42, default_value: Seq::empty(), key: Seq::empty(), datum: xa.datum, variable: None },
                ParamView { value: xb.value, typ: 42, default_value: Seq::empty(), key: Seq::empty(), datum: xb.datum, variable: None },
            ]);
        }
    }
}

} // verus!
