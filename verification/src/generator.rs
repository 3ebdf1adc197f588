//! Generation of the Hopscotch project from the parsed program.
//!
//! `gen_spec` states the generator as a left fold over the statements: each
//! statement transforms the project built so far, drawing fresh ids from the
//! sequence `ids` in order. The executable generator computes exactly this.
use vstd::prelude::*;
use vstd::string::StringExecFns;
use crate::ids::{distinct_ids, make_ids_distinct};
use crate::text::string_from_chars;
use crate::types::{
    Ability, AbilityView, AstTypes, Block, BlockAST, BlockASTView, BlockData, BlockDataView,
    BlockView, CompiledData, CompiledDataView, ControlScript, Datum, DatumView, DefineTypes,
    DefineTypesView, EventParam, EventParamView, Object, ObjectData, ObjectDataView, ObjectView,
    Param, ParamView, ParameterData, Project, ProjectView, Rule, RuleView, Scene, SceneView, Script,
    ScriptView, Value, ValueView, Values, ValuesView, Variable, VariableView, blocks_ast_view, lemma_params_view,
    lemma_params_view_push, lemma_scripts_view, opt_str_view, params_view, scripts_view, strs_view,
    values_seq_view,
};
use crate::utils::{
    GenError, code_fits, copy_datum, lemma_find_object_from, copy_opt_datum, find_object, find_object_named, giv_me_uuid,
    is_uuid_text, transform_values, try_transform_vals, values_out_view,
};

verus! {

// ---------------------------------------------------------------------------
// Lookups in the block data and the project
// ---------------------------------------------------------------------------

pub open spec fn find_blockdata_from(bs: Seq<BlockDataView>, n: Seq<char>, k: int) -> Option<int>
    decreases bs.len() - k,
{
    if 0 <= k < bs.len() {
        if bs[k].name == n {
            Some(k)
        } else {
            find_blockdata_from(bs, n, k + 1)
        }
    } else {
        None
    }
}

/// The index of the first block (or rule) data named `n`.
pub open spec fn find_blockdata(bs: Seq<BlockDataView>, n: Seq<char>) -> Option<int> {
    find_blockdata_from(bs, n, 0)
}

pub open spec fn find_objdata_from(os: Seq<ObjectDataView>, n: Seq<char>, k: int) -> Option<int>
    decreases os.len() - k,
{
    if 0 <= k < os.len() {
        if os[k].name == n {
            Some(k)
        } else {
            find_objdata_from(os, n, k + 1)
        }
    } else {
        None
    }
}

/// The index of the first object data named `n`.
pub open spec fn find_objdata(os: Seq<ObjectDataView>, n: Seq<char>) -> Option<int> {
    find_objdata_from(os, n, 0)
}

/// The first ability from `k` named `n`; an ability without a name on the
/// way is an error, and so is reaching the end.
pub open spec fn find_ability_from(abs: Seq<AbilityView>, n: Seq<char>, k: int) -> Result<
    int,
    GenError,
>
    decreases abs.len() - k,
{
    if 0 <= k < abs.len() {
        match abs[k].name {
            Some(x) => if x == n {
                Ok(k)
            } else {
                find_ability_from(abs, n, k + 1)
            },
            None => Err(GenError::UnnamedAbility),
        }
    } else {
        Err(GenError::AbilityNotFound)
    }
}

/// The first event parameter from `k` whose object id is `v`; one without an
/// object on the way is an error, and so is reaching the end.
pub open spec fn find_event_from(evs: Seq<EventParamView>, v: Seq<char>, k: int) -> Result<
    int,
    GenError,
>
    decreases evs.len() - k,
{
    if 0 <= k < evs.len() {
        match evs[k].object_id {
            Some(x) => if x == v {
                Ok(k)
            } else {
                find_event_from(evs, v, k + 1)
            },
            None => Err(GenError::EventWithoutObject),
        }
    } else {
        Err(GenError::EventNotFound)
    }
}

// ---------------------------------------------------------------------------
// Blocks
// ---------------------------------------------------------------------------

/// The parameter type code of a parameter type name.
pub open spec fn param_code(t: Seq<char>) -> i32 {
    if t == "num"@ {
        57
    } else if t == "evt"@ {
        50
    } else {
        0
    }
}

/// A resolved value as the `i`-th parameter of a block whose parameter types are `ptypes`.
pub open spec fn block_param(v: ValueView, t: Seq<char>, variable: Option<Seq<char>>) -> ParamView {
    ParamView {
        value: v.value,
        typ: param_code(t),
        default_value: Seq::empty(),
        key: Seq::empty(),
        datum: v.datum,
        variable,
    }
}

/// The parameters of a block call: one per value, typed by the block's
/// parameter list, which must be at least as long.
pub open spec fn block_params(tr: Seq<ValueView>, ptypes: Seq<Seq<char>>) -> Result<
    Seq<ParamView>,
    GenError,
> {
    if tr.len() <= ptypes.len() {
        Ok(Seq::new(tr.len(), |i: int| block_param(tr[i], ptypes[i], None)))
    } else {
        Err(GenError::TooManyParameters)
    }
}

/// The parameters of a rule: as for a block, and an `evt` parameter also names
/// the event parameter of the object it holds.
pub open spec fn rule_params(
    tr: Seq<ValueView>,
    ptypes: Seq<Seq<char>>,
    evs: Seq<EventParamView>,
) -> Result<Seq<ParamView>, GenError>
    decreases tr.len(),
{
    if tr.len() == 0 {
        Ok(Seq::empty())
    } else {
        match rule_params(tr.drop_last(), ptypes, evs) {
            Ok(r) => {
                let i = tr.len() - 1;
                if i < ptypes.len() {
                    if ptypes[i] == "evt"@ {
                        match find_event_from(evs, tr[i].value, 0) {
                            Ok(j) => Ok(r.push(block_param(tr[i], ptypes[i], Some(evs[j].id)))),
                            Err(e) => Err(e),
                        }
                    } else {
                        Ok(r.push(block_param(tr[i], ptypes[i], None)))
                    }
                } else {
                    Err(GenError::TooManyParameters)
                }
            },
            Err(e) => Err(e),
        }
    }
}

pub open spec fn with_block(ab: AbilityView, b: BlockView) -> AbilityView {
    AbilityView {
        ability_id: ab.ability_id,
        blocks: ab.blocks.push(b),
        created_at: ab.created_at,
        name: ab.name,
    }
}

/// A call of an ability: a control block running the ability with id `id`.
pub open spec fn control_block(name: Seq<char>, id: Seq<char>) -> BlockView {
    BlockView {
        block_class: "control"@,
        typ: 123,
        description: name,
        parameters: None,
        control_script: Some(id),
    }
}

/// Appends the block for the call `c` to the ability `ab` being built.
///
/// A block call becomes a `method` block of the named block data with its
/// resolved parameters. An ability call becomes a control block: an ability
/// without a name is first named with the empty string; a call of the
/// ability's own name runs the ability itself, any other call runs the first
/// ability of `proj` with that name.
pub open spec fn convert_block(
    c: BlockASTView,
    bd: CompiledDataView,
    ab: AbilityView,
    proj: ProjectView,
) -> Result<AbilityView, GenError> {
    if c.typ == AstTypes::Block {
        match find_blockdata(bd.blocks, c.name) {
            Some(pi) => match transform_values(c.params, proj) {
                Ok(tr) => match block_params(tr, bd.blocks[pi].parameters) {
                    Ok(ps) => Ok(
                        with_block(
                            ab,
                            BlockView {
                                block_class: "method"@,
                                typ: bd.blocks[pi].id,
                                description: bd.blocks[pi].label,
                                parameters: Some(ps),
                                control_script: None,
                            },
                        ),
                    ),
                    Err(e) => Err(e),
                },
                Err(e) => Err(e),
            },
            None => Err(GenError::BlockNotFound),
        }
    } else {
        let own = match ab.name {
            Some(x) => x,
            None => Seq::empty(),
        };
        let named = AbilityView {
            ability_id: ab.ability_id,
            blocks: ab.blocks,
            created_at: ab.created_at,
            name: Some(own),
        };
        if c.name == own {
            Ok(with_block(named, control_block(c.name, ab.ability_id)))
        } else {
            match find_ability_from(proj.abilities, c.name, 0) {
                Ok(i) => Ok(with_block(named, control_block(c.name, proj.abilities[i].ability_id))),
                Err(e) => Err(e),
            }
        }
    }
}

/// Appends the blocks for all calls `cs`, in order.
pub open spec fn convert_blocks(
    cs: Seq<BlockASTView>,
    bd: CompiledDataView,
    ab: AbilityView,
    proj: ProjectView,
) -> Result<AbilityView, GenError>
    decreases cs.len(),
{
    if cs.len() == 0 {
        Ok(ab)
    } else {
        match convert_blocks(cs.drop_last(), bd, ab, proj) {
            Ok(a) => convert_block(cs.last(), bd, a, proj),
            Err(e) => Err(e),
        }
    }
}

// ---------------------------------------------------------------------------
// Statements
// ---------------------------------------------------------------------------

/// The datum that triggers a rule: for `cond`, the datum of its first
/// parameter; otherwise an operator of the named rule data over its parameters.
pub open spec fn rule_datum(
    name: Seq<char>,
    tr: Seq<ValueView>,
    bd: CompiledDataView,
    proj: ProjectView,
) -> Result<DatumView, GenError> {
    if name != "cond"@ {
        match find_blockdata(bd.rules, name) {
            Some(fi) => match rule_params(tr, bd.rules[fi].parameters, proj.event_params) {
                Ok(ps) => Ok(
                    DatumView {
                        typ: bd.rules[fi].id,
                        block_class: Some("operator"@),
                        params: Some(ps),
                        variable: None,
                        object: None,
                    },
                ),
                Err(e) => Err(e),
            },
            None => Err(GenError::RuleNotFound),
        }
    } else if tr.len() == 0 {
        Err(GenError::MissingCondition)
    } else {
        match tr[0].datum {
            Some(d) => Ok(d),
            None => Err(GenError::ConditionWithoutDatum),
        }
    }
}

/// The single parameter of a rule, carrying the datum that triggers it.
pub open spec fn rule_param(d: DatumView) -> ParamView {
    ParamView {
        value: Seq::empty(),
        typ: 52,
        default_value: Seq::empty(),
        key: Seq::empty(),
        datum: Some(d),
        variable: None,
    }
}

/// The project with a rule of object `ob`, its ability, and the rule's id
/// recorded on the object.
pub open spec fn with_rule(p: ProjectView, ob: int, r: RuleView, ab: AbilityView) -> ProjectView {
    ProjectView {
        variables: p.variables,
        uuid: p.uuid,
        objects: p.objects.update(
            ob,
            ObjectView {
                name: p.objects[ob].name,
                typ: p.objects[ob].typ,
                filename: p.objects[ob].filename,
                id: p.objects[ob].id,
                rules: p.objects[ob].rules.push(r.id),
                x: p.objects[ob].x,
                y: p.objects[ob].y,
            },
        ),
        rules: p.rules.push(r),
        abilities: p.abilities.push(ab),
        scenes: p.scenes,
        event_params: p.event_params,
    }
}

/// A rule `when name(params) { blocks }` of the object named `obj`: the
/// ability takes id `ids[k]` and the rule id `ids[k + 1]`.
pub open spec fn gen_rule(
    obj: Seq<char>,
    name: Seq<char>,
    blocks: Seq<BlockASTView>,
    params: Seq<ValuesView>,
    bd: CompiledDataView,
    ids: Seq<Seq<char>>,
    st: (ProjectView, int),
) -> Result<(ProjectView, int), GenError> {
    let (p, k) = st;
    match find_object(p.objects, obj) {
        Some(ob) => match transform_values(params, p) {
            Ok(tr) => match rule_datum(name, tr, bd, p) {
                Ok(d) => match convert_blocks(
                    blocks,
                    bd,
                    AbilityView {
                        ability_id: ids[k],
                        blocks: Seq::empty(),
                        created_at: 0,
                        name: None,
                    },
                    p,
                ) {
                    Ok(ab) => Ok(
                        (
                            with_rule(
                                p,
                                ob,
                                RuleView {
                                    rule_block_type: 6000,
                                    object_id: p.objects[ob].id,
                                    id: ids[k + 1],
                                    ability_id: ids[k],
                                    params: seq![rule_param(d)],
                                },
                                ab,
                            ),
                            k + 2,
                        ),
                    ),
                    Err(e) => Err(e),
                },
                Err(e) => Err(e),
            },
            Err(e) => Err(e),
        },
        None => Err(GenError::ObjectNotFound),
    }
}

/// A statement inside `for "obj"`: rules are generated, the rest is ignored.
pub open spec fn gen_member(
    m: ScriptView,
    obj: Seq<char>,
    bd: CompiledDataView,
    ids: Seq<Seq<char>>,
    st: (ProjectView, int),
) -> Result<(ProjectView, int), GenError> {
    match m {
        ScriptView::Rule { name, con, params } => gen_rule(obj, name, con, params, bd, ids, st),
        _ => Ok(st),
    }
}

pub open spec fn gen_members(
    ms: Seq<ScriptView>,
    obj: Seq<char>,
    bd: CompiledDataView,
    ids: Seq<Seq<char>>,
    st: (ProjectView, int),
) -> Result<(ProjectView, int), GenError>
    decreases ms.len(),
{
    if ms.len() == 0 {
        Ok(st)
    } else {
        match gen_members(ms.drop_last(), obj, bd, ids, st) {
            Ok(s) => gen_member(ms.last(), obj, bd, ids, s),
            Err(e) => Err(e),
        }
    }
}

pub open spec fn with_variable(p: ProjectView, v: VariableView) -> ProjectView {
    ProjectView {
        variables: p.variables.push(v),
        uuid: p.uuid,
        objects: p.objects,
        rules: p.rules,
        abilities: p.abilities,
        scenes: p.scenes,
        event_params: p.event_params,
    }
}

/// The project with a new object, shown in the first scene, with its event parameter.
pub open spec fn with_object(p: ProjectView, o: ObjectView, ev: EventParamView) -> ProjectView {
    ProjectView {
        variables: p.variables,
        uuid: p.uuid,
        objects: p.objects.push(o),
        rules: p.rules,
        abilities: p.abilities,
        scenes: p.scenes.update(
            0,
            SceneView { name: p.scenes[0].name, objects: p.scenes[0].objects.push(o.id) },
        ),
        event_params: p.event_params.push(ev),
    }
}

pub open spec fn with_ability(p: ProjectView, ab: AbilityView) -> ProjectView {
    ProjectView {
        variables: p.variables,
        uuid: p.uuid,
        objects: p.objects,
        rules: p.rules,
        abilities: p.abilities.push(ab),
        scenes: p.scenes,
        event_params: p.event_params,
    }
}

/// One top-level statement.
///
/// A variable gets type `8000 + code` and id `ids[k]`. An object gets the
/// type of its object data, id `ids[k]`, position (10, 10), a place in the
/// first scene and an event parameter with id `ids[k + 1]`. An ability gets
/// id `ids[k]` and its blocks. A `for` generates its rules. Anything else is
/// ignored.
pub open spec fn gen_script(
    sc: ScriptView,
    bd: CompiledDataView,
    ids: Seq<Seq<char>>,
    st: (ProjectView, int),
) -> Result<(ProjectView, int), GenError> {
    let (p, k) = st;
    match sc {
        ScriptView::Define { typ, name } => match typ {
            DefineTypesView::Variable(code) => if code_fits(code) {
                Ok(
                    (
                        with_variable(
                            p,
                            VariableView {
                                name,
                                typ: (8000 + code) as i32,
                                object_id_string: ids[k],
                            },
                        ),
                        k + 1,
                    ),
                )
            } else {
                Err(GenError::CodeOverflow)
            },
            DefineTypesView::Object(t) => match find_objdata(bd.obj, t) {
                Some(fi) => Ok(
                    (
                        with_object(
                            p,
                            ObjectView {
                                name,
                                typ: bd.obj[fi].id,
                                filename: Seq::empty(),
                                id: ids[k],
                                rules: Seq::empty(),
                                x: 10,
                                y: 10,
                            },
                            EventParamView {
                                id: ids[k + 1],
                                description: name,
                                block_type: 8000,
                                object_id: Some(ids[k]),
                            },
                        ),
                        k + 2,
                    ),
                ),
                None => Err(GenError::ObjectTypeNotFound),
            },
            DefineTypesView::Ability(bs) => {
                let blocks = match bs {
                    Some(b) => b,
                    None => Seq::empty(),
                };
                match convert_blocks(
                    blocks,
                    bd,
                    AbilityView {
                        ability_id: ids[k],
                        blocks: Seq::empty(),
                        created_at: 0,
                        name: Some(name),
                    },
                    p,
                ) {
                    Ok(ab) => Ok((with_ability(p, ab), k + 1)),
                    Err(e) => Err(e),
                }
            },
        },
        ScriptView::On { obj, con } => gen_members(con, obj, bd, ids, st),
        ScriptView::Rule { .. } => Ok(st),
    }
}

pub open spec fn gen_scripts(
    ps: Seq<ScriptView>,
    bd: CompiledDataView,
    ids: Seq<Seq<char>>,
    st: (ProjectView, int),
) -> Result<(ProjectView, int), GenError>
    decreases ps.len(),
{
    if ps.len() == 0 {
        Ok(st)
    } else {
        match gen_scripts(ps.drop_last(), bd, ids, st) {
            Ok(s) => gen_script(ps.last(), bd, ids, s),
            Err(e) => Err(e),
        }
    }
}

/// The project before any statement: no content, one scene named `My Scene`.
pub open spec fn initial_project(uuid: Seq<char>) -> ProjectView {
    ProjectView {
        variables: Seq::empty(),
        uuid,
        objects: Seq::empty(),
        rules: Seq::empty(),
        abilities: Seq::empty(),
        scenes: seq![SceneView { name: "My Scene"@, objects: Seq::empty() }],
        event_params: Seq::empty(),
    }
}

/// The project that the statements `ps` generate with block data `bd`,
/// project uuid `uuid` and fresh ids `ids`, or the first failure.
pub open spec fn gen_spec(
    ps: Seq<ScriptView>,
    bd: CompiledDataView,
    uuid: Seq<char>,
    ids: Seq<Seq<char>>,
) -> Result<ProjectView, GenError> {
    match gen_scripts(ps, bd, ids, (initial_project(uuid), 0)) {
        Ok((p, _)) => Ok(p),
        Err(e) => Err(e),
    }
}

// ---------------------------------------------------------------------------
// How many fresh ids a program takes
// ---------------------------------------------------------------------------

pub open spec fn rules_in(ms: Seq<ScriptView>) -> nat
    decreases ms.len(),
{
    if ms.len() == 0 {
        0
    } else {
        rules_in(ms.drop_last()) + if ms.last() is Rule {
            1nat
        } else {
            0nat
        }
    }
}

pub open spec fn script_ids(sc: ScriptView) -> nat {
    match sc {
        ScriptView::Define { typ, .. } => match typ {
            DefineTypesView::Object(_) => 2,
            _ => 1,
        },
        ScriptView::On { con, .. } => 2 * rules_in(con),
        ScriptView::Rule { .. } => 0,
    }
}

/// The number of fresh ids the statements `ps` take.
pub open spec fn ids_needed(ps: Seq<ScriptView>) -> nat
    decreases ps.len(),
{
    if ps.len() == 0 {
        0
    } else {
        ids_needed(ps.drop_last()) + script_ids(ps.last())
    }
}

// ---------------------------------------------------------------------------
// Facts about the folds
// ---------------------------------------------------------------------------

proof fn lemma_ids_needed_take(ps: Seq<ScriptView>, n: int)
    requires
        0 <= n < ps.len(),
    ensures
        ids_needed(ps.take(n + 1)) == ids_needed(ps.take(n)) + script_ids(ps[n]),
{
    assert(ps.take(n + 1).drop_last() =~= ps.take(n));
}

proof fn lemma_ids_needed_mono(ps: Seq<ScriptView>, n: int)
    requires
        0 <= n <= ps.len(),
    ensures
        ids_needed(ps.take(n)) <= ids_needed(ps),
    decreases ps.len() - n,
{
    if n < ps.len() {
        lemma_ids_needed_take(ps, n);
        lemma_ids_needed_mono(ps, n + 1);
    } else {
        assert(ps.take(n) =~= ps);
    }
}

proof fn lemma_rules_in_take(ms: Seq<ScriptView>, n: int)
    requires
        0 <= n < ms.len(),
    ensures
        rules_in(ms.take(n + 1)) == rules_in(ms.take(n)) + if ms[n] is Rule {
            1nat
        } else {
            0nat
        },
{
    assert(ms.take(n + 1).drop_last() =~= ms.take(n));
}

proof fn lemma_rules_in_mono(ms: Seq<ScriptView>, n: int)
    requires
        0 <= n <= ms.len(),
    ensures
        rules_in(ms.take(n)) <= rules_in(ms),
    decreases ms.len() - n,
{
    if n < ms.len() {
        lemma_rules_in_take(ms, n);
        lemma_rules_in_mono(ms, n + 1);
    } else {
        assert(ms.take(n) =~= ms);
    }
}

proof fn lemma_gen_scripts_err(
    ps: Seq<ScriptView>,
    bd: CompiledDataView,
    ids: Seq<Seq<char>>,
    st: (ProjectView, int),
    n: int,
)
    requires
        0 <= n <= ps.len(),
        gen_scripts(ps.take(n), bd, ids, st) is Err,
    ensures
        gen_scripts(ps, bd, ids, st) == gen_scripts(ps.take(n), bd, ids, st),
    decreases ps.len() - n,
{
    if n < ps.len() {
        assert(ps.take(n + 1).drop_last() =~= ps.take(n));
        lemma_gen_scripts_err(ps, bd, ids, st, n + 1);
    } else {
        assert(ps.take(n) =~= ps);
    }
}

proof fn lemma_gen_members_err(
    ms: Seq<ScriptView>,
    obj: Seq<char>,
    bd: CompiledDataView,
    ids: Seq<Seq<char>>,
    st: (ProjectView, int),
    n: int,
)
    requires
        0 <= n <= ms.len(),
        gen_members(ms.take(n), obj, bd, ids, st) is Err,
    ensures
        gen_members(ms, obj, bd, ids, st) == gen_members(ms.take(n), obj, bd, ids, st),
    decreases ms.len() - n,
{
    if n < ms.len() {
        assert(ms.take(n + 1).drop_last() =~= ms.take(n));
        lemma_gen_members_err(ms, obj, bd, ids, st, n + 1);
    } else {
        assert(ms.take(n) =~= ms);
    }
}

proof fn lemma_convert_blocks_err(
    cs: Seq<BlockASTView>,
    bd: CompiledDataView,
    ab: AbilityView,
    proj: ProjectView,
    n: int,
)
    requires
        0 <= n <= cs.len(),
        convert_blocks(cs.take(n), bd, ab, proj) is Err,
    ensures
        convert_blocks(cs, bd, ab, proj) == convert_blocks(cs.take(n), bd, ab, proj),
    decreases cs.len() - n,
{
    if n < cs.len() {
        assert(cs.take(n + 1).drop_last() =~= cs.take(n));
        lemma_convert_blocks_err(cs, bd, ab, proj, n + 1);
    } else {
        assert(cs.take(n) =~= cs);
    }
}

proof fn lemma_rule_params_err(
    tr: Seq<ValueView>,
    ptypes: Seq<Seq<char>>,
    evs: Seq<EventParamView>,
    n: int,
)
    requires
        0 <= n <= tr.len(),
        rule_params(tr.take(n), ptypes, evs) is Err,
    ensures
        rule_params(tr, ptypes, evs) == rule_params(tr.take(n), ptypes, evs),
    decreases tr.len() - n,
{
    if n < tr.len() {
        assert(tr.take(n + 1).drop_last() =~= tr.take(n));
        lemma_rule_params_err(tr, ptypes, evs, n + 1);
    } else {
        assert(tr.take(n) =~= tr);
    }
}

// ---------------------------------------------------------------------------
// Executable lookups
// ---------------------------------------------------------------------------

fn find_blockdata_named(bs: &Vec<BlockData>, n: &String) -> (r: Option<usize>)
    ensures
        r matches Some(i) ==> find_blockdata(bs@.map_values(|b: BlockData| b@), n@) == Some(
            i as int,
        ) && i < bs.len(),
        r is None ==> find_blockdata(bs@.map_values(|b: BlockData| b@), n@) is None,
{
    let ghost v = bs@.map_values(|b: BlockData| b@);
    let mut j: usize = 0;
    while j < bs.len()
        invariant
            j <= bs.len(),
            v == bs@.map_values(|b: BlockData| b@),
            find_blockdata_from(v, n@, j as int) == find_blockdata(v, n@),
        decreases bs.len() - j,
    {
        if bs[j].name == *n {
            return Some(j);
        }
        j = j + 1;
    }
    None
}

fn find_objdata_named(os: &Vec<ObjectData>, n: &String) -> (r: Option<usize>)
    ensures
        r matches Some(i) ==> find_objdata(os@.map_values(|o: ObjectData| o@), n@) == Some(
            i as int,
        ) && i < os.len(),
        r is None ==> find_objdata(os@.map_values(|o: ObjectData| o@), n@) is None,
{
    let ghost v = os@.map_values(|o: ObjectData| o@);
    let mut j: usize = 0;
    while j < os.len()
        invariant
            j <= os.len(),
            v == os@.map_values(|o: ObjectData| o@),
            find_objdata_from(v, n@, j as int) == find_objdata(v, n@),
        decreases os.len() - j,
    {
        if os[j].name == *n {
            return Some(j);
        }
        j = j + 1;
    }
    None
}

fn find_ability_named(proj: &Project, n: &String) -> (r: Result<usize, GenError>)
    ensures
        match r {
            Ok(i) => find_ability_from(proj@.abilities, n@, 0) == Ok::<int, GenError>(i as int)
                && i < proj.abilities.len(),
            Err(e) => find_ability_from(proj@.abilities, n@, 0) == Err::<int, GenError>(e),
        },
{
    let mut j: usize = 0;
    while j < proj.abilities.len()
        invariant
            j <= proj.abilities.len(),
            find_ability_from(proj@.abilities, n@, j as int) == find_ability_from(
                proj@.abilities,
                n@,
                0,
            ),
        decreases proj.abilities.len() - j,
    {
        match &proj.abilities[j].name {
            Some(x) => {
                if *x == *n {
                    return Ok(j);
                }
            },
            None => {
                return Err(GenError::UnnamedAbility);
            },
        }
        j = j + 1;
    }
    Err(GenError::AbilityNotFound)
}

fn find_event_for(evs: &Vec<EventParam>, v: &String) -> (r: Result<usize, GenError>)
    ensures
        match r {
            Ok(i) => find_event_from(evs@.map_values(|e: EventParam| e@), v@, 0) == Ok::<
                int,
                GenError,
            >(i as int) && i < evs.len(),
            Err(e) => find_event_from(evs@.map_values(|e: EventParam| e@), v@, 0) == Err::<
                int,
                GenError,
            >(e),
        },
{
    let ghost w = evs@.map_values(|e: EventParam| e@);
    let mut j: usize = 0;
    while j < evs.len()
        invariant
            j <= evs.len(),
            w == evs@.map_values(|e: EventParam| e@),
            find_event_from(w, v@, j as int) == find_event_from(w, v@, 0),
        decreases evs.len() - j,
    {
        match &evs[j].object_id {
            Some(x) => {
                if *x == *v {
                    return Ok(j);
                }
            },
            None => {
                return Err(GenError::EventWithoutObject);
            },
        }
        j = j + 1;
    }
    Err(GenError::EventNotFound)
}

fn param_code_of(t: &String) -> (r: i32)
    ensures
        r == param_code(t@),
{
    if *t == String::from_str("num") {
        57
    } else if *t == String::from_str("evt") {
        50
    } else {
        0
    }
}

/// The view of the parameter types of a block's data.
pub open spec fn ptypes_view(v: Seq<ParameterData>) -> Seq<Seq<char>> {
    v.map_values(|p: ParameterData| p@)
}

fn make_param(v: &Value, t: &String, variable: Option<String>) -> (r: Param)
    ensures
        r@ == block_param(v@, t@, opt_str_view(variable)),
{
    Param {
        datum: copy_opt_datum(&v.datum),
        default_value: String::new(),
        key: String::new(),
        typ: param_code_of(t),
        value: v.value.clone(),
        variable,
    }
}

fn make_block_params(tr: &Vec<Value>, ptypes: &Vec<ParameterData>) -> (r: Result<
    Vec<Param>,
    GenError,
>)
    ensures
        match r {
            Ok(ps) => block_params(values_out_view(tr@), ptypes_view(ptypes@)) == Ok::<
                Seq<ParamView>,
                GenError,
            >(params_view(ps@)),
            Err(e) => block_params(values_out_view(tr@), ptypes_view(ptypes@)) == Err::<
                Seq<ParamView>,
                GenError,
            >(e),
        },
{
    if tr.len() > ptypes.len() {
        return Err(GenError::TooManyParameters);
    }
    let ghost tv = values_out_view(tr@);
    let ghost pv = ptypes_view(ptypes@);
    let mut out: Vec<Param> = Vec::new();
    let mut i: usize = 0;
    while i < tr.len()
        invariant
            i <= tr.len() <= ptypes.len(),
            tv == values_out_view(tr@),
            pv == ptypes_view(ptypes@),
            out@.len() == i,
            forall|j: int| 0 <= j < i ==> #[trigger] out@[j]@ == block_param(tv[j], pv[j], None),
        decreases tr.len() - i,
    {
        let q = make_param(&tr[i], &ptypes[i].typ, None);
        out.push(q);
        i = i + 1;
    }
    proof {
        lemma_params_view(out@);
        assert(tv.len() == out@.len());
        assert forall|j: int| 0 <= j < tv.len() implies #[trigger] params_view(out@)[j] == block_param(
            tv[j],
            pv[j],
            None,
        ) by {
            assert(out@[j]@ == block_param(tv[j], pv[j], None));
        }
        assert(params_view(out@) =~= Seq::new(tv.len(), |j: int| block_param(tv[j], pv[j], None)));
    }
    Ok(out)
}

fn make_rule_params(tr: &Vec<Value>, ptypes: &Vec<ParameterData>, evs: &Vec<EventParam>) -> (r:
    Result<Vec<Param>, GenError>)
    ensures
        match r {
            Ok(ps) => rule_params(
                values_out_view(tr@),
                ptypes_view(ptypes@),
                evs@.map_values(|e: EventParam| e@),
            ) == Ok::<Seq<ParamView>, GenError>(params_view(ps@)),
            Err(e) => rule_params(
                values_out_view(tr@),
                ptypes_view(ptypes@),
                evs@.map_values(|e: EventParam| e@),
            ) == Err::<Seq<ParamView>, GenError>(e),
        },
{
    let ghost tv = values_out_view(tr@);
    let ghost pv = ptypes_view(ptypes@);
    let ghost ev = evs@.map_values(|e: EventParam| e@);
    let mut out: Vec<Param> = Vec::new();
    let mut i: usize = 0;
    assert(tv.take(0) =~= Seq::<ValueView>::empty());
    assert(params_view(out@) =~= Seq::<ParamView>::empty());
    while i < tr.len()
        invariant
            i <= tr.len(),
            tv == values_out_view(tr@),
            pv == ptypes_view(ptypes@),
            ev == evs@.map_values(|e: EventParam| e@),
            rule_params(tv.take(i as int), pv, ev) == Ok::<Seq<ParamView>, GenError>(
                params_view(out@),
            ),
        decreases tr.len() - i,
    {
        assert(tv.take(i + 1).drop_last() =~= tv.take(i as int));
        assert(tv.take(i + 1).last() == tv[i as int]);
        if i >= ptypes.len() {
            proof {
                lemma_rule_params_err(tv, pv, ev, i + 1);
            }
            return Err(GenError::TooManyParameters);
        }
        let variable = if ptypes[i].typ == String::from_str("evt") {
            match find_event_for(evs, &tr[i].value) {
                Ok(j) => Some(evs[j].id.clone()),
                Err(e) => {
                    proof {
                        lemma_rule_params_err(tv, pv, ev, i + 1);
                    }
                    return Err(e);
                },
            }
        } else {
            None
        };
        let q = make_param(&tr[i], &ptypes[i].typ, variable);
        proof {
            lemma_params_view_push(out@, q);
        }
        out.push(q);
        i = i + 1;
    }
    assert(tv.take(tr.len() as int) =~= tv);
    Ok(out)
}

/// Append to `ability_json` the block for the call `c`, resolved against the
/// block data `bd` and the project `proj` built so far.
pub fn convert_to_block(
    c: &BlockAST,
    bd: &CompiledData,
    ability_json: &mut Ability,
    proj: &Project,
) -> (r: Result<(), GenError>)
    ensures
        match r {
            Ok(_) => convert_block(c@, bd@, old(ability_json)@, proj@) == Ok::<
                AbilityView,
                GenError,
            >(final(ability_json)@),
            Err(e) => convert_block(c@, bd@, old(ability_json)@, proj@) == Err::<
                AbilityView,
                GenError,
            >(e),
        },
{
    if c.typ == AstTypes::Block {
        let pi = match find_blockdata_named(&bd.blocks, &c.name) {
            Some(i) => i,
            None => {
                return Err(GenError::BlockNotFound);
            },
        };
        let tr = match try_transform_vals(&c.params, proj) {
            Ok(t) => t,
            Err(e) => {
                return Err(e);
            },
        };
        let ps = match make_block_params(&tr, &bd.blocks[pi].parameters) {
            Ok(ps) => ps,
            Err(e) => {
                return Err(e);
            },
        };
        let block = Block {
            block_class: String::from_str("method"),
            typ: bd.blocks[pi].id,
            description: bd.blocks[pi].label.clone(),
            parameters: Some(ps),
            control_script: None,
        };
        let ghost before = ability_json@;
        ability_json.blocks.push(block);
        assert(ability_json@.blocks =~= before.blocks.push(block@));
        Ok(())
    } else {
        let ghost before = ability_json@;
        let unnamed = match &ability_json.name {
            Some(_) => false,
            None => true,
        };
        if unnamed {
            ability_json.name = Some(String::new());
        }
        let same = match &ability_json.name {
            Some(x) => c.name == *x,
            None => false,
        };
        let target = if same {
            ability_json.ability_id.clone()
        } else {
            match find_ability_named(proj, &c.name) {
                Ok(i) => proj.abilities[i].ability_id.clone(),
                Err(e) => {
                    return Err(e);
                },
            }
        };
        let block = Block {
            typ: 123,
            description: c.name.clone(),
            control_script: Some(ControlScript { ability_id: target }),
            block_class: String::from_str("control"),
            parameters: None,
        };
        let ghost mid = ability_json@;
        ability_json.blocks.push(block);
        assert(ability_json@.blocks =~= mid.blocks.push(block@));
        Ok(())
    }
}

/// Append to `ability_json` the blocks for all calls `cs`, in order.
fn convert_all(
    cs: &Vec<BlockAST>,
    bd: &CompiledData,
    ability_json: &mut Ability,
    proj: &Project,
) -> (r: Result<(), GenError>)
    ensures
        match r {
            Ok(_) => convert_blocks(blocks_ast_view(cs@), bd@, old(ability_json)@, proj@) == Ok::<
                AbilityView,
                GenError,
            >(final(ability_json)@),
            Err(e) => convert_blocks(blocks_ast_view(cs@), bd@, old(ability_json)@, proj@)
                == Err::<AbilityView, GenError>(e),
        },
{
    let ghost cv = blocks_ast_view(cs@);
    let ghost start = ability_json@;
    let mut i: usize = 0;
    assert(cv.take(0) =~= Seq::<BlockASTView>::empty());
    while i < cs.len()
        invariant
            i <= cs.len(),
            cv == blocks_ast_view(cs@),
            start == old(ability_json)@,
            convert_blocks(cv.take(i as int), bd@, start, proj@) == Ok::<AbilityView, GenError>(
                ability_json@,
            ),
        decreases cs.len() - i,
    {
        assert(cv.take(i + 1).drop_last() =~= cv.take(i as int));
        assert(cv.take(i + 1).last() == cs@[i as int]@);
        match convert_to_block(&cs[i], bd, ability_json, proj) {
            Ok(_) => {},
            Err(e) => {
                proof {
                    lemma_convert_blocks_err(cv, bd@, start, proj@, i + 1);
                }
                return Err(e);
            },
        }
        i = i + 1;
    }
    assert(cv.take(cs.len() as int) =~= cv);
    Ok(())
}

fn make_rule_datum(name: &String, tr: &Vec<Value>, bd: &CompiledData, proj: &Project) -> (r: Result<
    Datum,
    GenError,
>)
    ensures
        match r {
            Ok(d) => rule_datum(name@, values_out_view(tr@), bd@, proj@) == Ok::<
                DatumView,
                GenError,
            >(d@),
            Err(e) => rule_datum(name@, values_out_view(tr@), bd@, proj@) == Err::<
                DatumView,
                GenError,
            >(e),
        },
{
    if *name != String::from_str("cond") {
        match find_blockdata_named(&bd.rules, name) {
            Some(fi) => {
                let ps = match make_rule_params(tr, &bd.rules[fi].parameters, &proj.event_params) {
                    Ok(ps) => ps,
                    Err(e) => {
                        return Err(e);
                    },
                };
                Ok(
                    Datum {
                        block_class: Some(String::from_str("operator")),
                        typ: bd.rules[fi].id,
                        object: None,
                        variable: None,
                        params: Some(ps),
                    },
                )
            },
            None => Err(GenError::RuleNotFound),
        }
    } else if tr.len() == 0 {
        Err(GenError::MissingCondition)
    } else {
        match &tr[0].datum {
            Some(d) => Ok(copy_datum(d)),
            None => Err(GenError::ConditionWithoutDatum),
        }
    }
}

/// Generates the rule `when name(params) { blocks }` of the object `obj`.
fn gen_rule_exec(
    obj: &String,
    name: &String,
    blocks: &Vec<BlockAST>,
    params: &Vec<Values>,
    bd: &CompiledData,
    ids: &Vec<String>,
    proj: &mut Project,
    k: usize,
) -> (r: Result<usize, GenError>)
    requires
        k + 2 <= ids.len(),
        old(proj).scenes.len() == 1,
    ensures
        match r {
            Ok(k2) => gen_rule(
                obj@,
                name@,
                blocks_ast_view(blocks@),
                values_seq_view(params@),
                bd@,
                strs_view(ids@),
                (old(proj)@, k as int),
            ) == Ok::<(ProjectView, int), GenError>((final(proj)@, k2 as int)) && k2 == k + 2
                && final(proj).scenes.len() == 1,
            Err(e) => gen_rule(
                obj@,
                name@,
                blocks_ast_view(blocks@),
                values_seq_view(params@),
                bd@,
                strs_view(ids@),
                (old(proj)@, k as int),
            ) == Err::<(ProjectView, int), GenError>(e),
        },
{
    let ob = match find_object_named(proj, obj) {
        Some(i) => i,
        None => {
            return Err(GenError::ObjectNotFound);
        },
    };
    let object_id = proj.objects[ob].id.clone();
    let tr = match try_transform_vals(params, proj) {
        Ok(t) => t,
        Err(e) => {
            return Err(e);
        },
    };
    let datum = match make_rule_datum(name, &tr, bd, proj) {
        Ok(d) => d,
        Err(e) => {
            return Err(e);
        },
    };
    let ability = ids[k].clone();
    let rule_id = ids[k + 1].clone();
    let mut ability_json = Ability {
        ability_id: ability.clone(),
        blocks: Vec::new(),
        created_at: 0,
        name: None,
    };
    assert(ability_json@.blocks =~= Seq::<BlockView>::empty());
    match convert_all(blocks, bd, &mut ability_json, proj) {
        Ok(_) => {},
        Err(e) => {
            return Err(e);
        },
    }
    let param = Param {
        default_value: String::new(),
        key: String::new(),
        datum: Some(datum),
        typ: 52,
        value: String::new(),
        variable: None,
    };
    let mut rule_params_vec: Vec<Param> = Vec::new();
    rule_params_vec.push(param);
    proof {
        lemma_params_view(rule_params_vec@);
        assert(params_view(rule_params_vec@) =~= seq![param@]);
    }
    let rule = Rule {
        rule_block_type: 6000,
        object_id,
        id: rule_id.clone(),
        ability_id: ability,
        params: rule_params_vec,
    };
    let ghost before = proj@;
    proj.abilities.push(ability_json);
    let mut o = proj.objects.remove(ob);
    let ghost o_before = o@;
    o.rules.push(rule_id);
    assert(o@.rules =~= o_before.rules.push(rule@.id));
    proj.objects.insert(ob, o);
    proj.rules.push(rule);
    assert(proj@.abilities =~= before.abilities.push(ability_json@));
    assert(proj@.rules =~= before.rules.push(rule@));
    assert(proj@.objects =~= before.objects.update(
        ob as int,
        ObjectView {
            name: before.objects[ob as int].name,
            typ: before.objects[ob as int].typ,
            filename: before.objects[ob as int].filename,
            id: before.objects[ob as int].id,
            rules: before.objects[ob as int].rules.push(rule@.id),
            x: before.objects[ob as int].x,
            y: before.objects[ob as int].y,
        },
    ));
    Ok(k + 2)
}

/// Generates one top-level statement into `proj`, drawing ids from `ids` at `k`.
fn gen_script_exec(
    sc: &Script,
    bd: &CompiledData,
    ids: &Vec<String>,
    proj: &mut Project,
    k: usize,
) -> (r: Result<usize, GenError>)
    requires
        k + script_ids(sc@) <= ids.len(),
        old(proj).scenes.len() == 1,
    ensures
        match r {
            Ok(k2) => gen_script(sc@, bd@, strs_view(ids@), (old(proj)@, k as int)) == Ok::<
                (ProjectView, int),
                GenError,
            >((final(proj)@, k2 as int)) && k2 == k + script_ids(sc@) && final(proj).scenes.len()
                == 1,
            Err(e) => gen_script(sc@, bd@, strs_view(ids@), (old(proj)@, k as int)) == Err::<
                (ProjectView, int),
                GenError,
            >(e),
        },
{
    match sc {
        Script::Define { typ, name } => match typ {
            DefineTypes::Variable(code) => {
                if *code > i32::MAX - 8000 {
                    return Err(GenError::CodeOverflow);
                }
                let ghost before = proj@;
                let v = Variable {
                    name: name.clone(),
                    typ: 8000 + *code,
                    object_id_string: ids[k].clone(),
                };
                proj.variables.push(v);
                assert(proj@.variables =~= before.variables.push(v@));
                Ok(k + 1)
            },
            DefineTypes::Object(val) => {
                let fi = match find_objdata_named(&bd.obj, val) {
                    Some(i) => i,
                    None => {
                        return Err(GenError::ObjectTypeNotFound);
                    },
                };
                let ghost before = proj@;
                let id = ids[k].clone();
                let act_res = Object {
                    filename: String::new(),
                    typ: bd.obj[fi].id,
                    name: name.clone(),
                    id: id.clone(),
                    rules: Vec::new(),
                    x: 10,
                    y: 10,
                };
                assert(act_res@.rules =~= Seq::<Seq<char>>::empty());
                let mut scene = proj.scenes.remove(0);
                let ghost scene_before = scene@;
                scene.objects.push(id.clone());
                assert(scene@.objects =~= scene_before.objects.push(id@));
                proj.scenes.insert(0, scene);
                let ev = EventParam {
                    description: name.clone(),
                    block_type: 8000,
                    id: ids[k + 1].clone(),
                    object_id: Some(id),
                };
                proj.event_params.push(ev);
                proj.objects.push(act_res);
                assert(proj@.objects =~= before.objects.push(act_res@));
                assert(proj@.event_params =~= before.event_params.push(ev@));
                assert(proj@.scenes =~= before.scenes.update(
                    0,
                    SceneView {
                        name: before.scenes[0].name,
                        objects: before.scenes[0].objects.push(act_res@.id),
                    },
                ));
                Ok(k + 2)
            },
            DefineTypes::Ability(blocks) => {
                let mut ability_json = Ability {
                    ability_id: ids[k].clone(),
                    blocks: Vec::new(),
                    created_at: 0,
                    name: Some(name.clone()),
                };
                assert(ability_json@.blocks =~= Seq::<BlockView>::empty());
                match blocks {
                    Some(b) => match convert_all(b, bd, &mut ability_json, proj) {
                        Ok(_) => {},
                        Err(e) => {
                            return Err(e);
                        },
                    },
                    None => {},
                }
                let ghost before = proj@;
                proj.abilities.push(ability_json);
                assert(proj@.abilities =~= before.abilities.push(ability_json@));
                Ok(k + 1)
            },
        },
        Script::On { obj, con } => {
            let ghost mv = scripts_view(con@);
            let ghost idv = strs_view(ids@);
            let ghost start = proj@;
            proof {
                lemma_scripts_view(con@);
            }
            let mut kk = k;
            let mut i: usize = 0;
            assert(mv.take(0) =~= Seq::<ScriptView>::empty());
            while i < con.len()
                invariant
                    i <= con.len(),
                    mv == scripts_view(con@),
                    sc@ == (ScriptView::On { obj: obj@, con: mv }),
                    mv.len() == con.len(),
                    forall|j: int| 0 <= j < con.len() ==> #[trigger] mv[j] == con@[j]@,
                    idv == strs_view(ids@),
                    start == old(proj)@,
                    k + 2 * rules_in(mv) <= ids.len(),
                    kk == k + 2 * rules_in(mv.take(i as int)),
                    proj.scenes.len() == 1,
                    gen_members(mv.take(i as int), obj@, bd@, idv, (start, k as int)) == Ok::<
                        (ProjectView, int),
                        GenError,
                    >((proj@, kk as int)),
                decreases con.len() - i,
            {
                assert(mv.take(i + 1).drop_last() =~= mv.take(i as int));
                assert(mv.take(i + 1).last() == mv[i as int]);
                proof {
                    lemma_rules_in_take(mv, i as int);
                    lemma_rules_in_mono(mv, i + 1);
                }
                match &con[i] {
                    Script::Rule { name, con: blocks, params } => {
                        match gen_rule_exec(obj, name, blocks, params, bd, ids, proj, kk) {
                            Ok(k2) => {
                                kk = k2;
                            },
                            Err(e) => {
                                proof {
                                    lemma_gen_members_err(mv, obj@, bd@, idv, (start, k as int), i + 1);
                                }
                                return Err(e);
                            },
                        }
                    },
                    _ => {},
                }
                i = i + 1;
            }
            assert(mv.take(con.len() as int) =~= mv);
            Ok(kk)
        },
        Script::Rule { .. } => Ok(k),
    }
}

/// Generate the project from the statements `p`, with block data `bd`,
/// project uuid `uuid`, and the fresh ids `ids` (drawn in order); where the
/// statements cannot be generated, the first reason why.
pub fn try_gen_project_from(
    p: &Vec<Script>,
    bd: &CompiledData,
    uuid: String,
    ids: &Vec<String>,
) -> (r: Result<Project, GenError>)
    requires
        ids_needed(scripts_view(p@)) <= ids.len(),
    ensures
        match r {
            Ok(proj) => gen_spec(scripts_view(p@), bd@, uuid@, strs_view(ids@)) == Ok::<
                ProjectView,
                GenError,
            >(proj@),
            Err(e) => gen_spec(scripts_view(p@), bd@, uuid@, strs_view(ids@)) == Err::<
                ProjectView,
                GenError,
            >(e),
        },
{
    let ghost sv = scripts_view(p@);
    let ghost idv = strs_view(ids@);
    let ghost uv = uuid@;
    proof {
        lemma_scripts_view(p@);
    }
    let mut scenes: Vec<Scene> = Vec::new();
    let scene = Scene { name: String::from_str("My Scene"), objects: Vec::new() };
    assert(scene@.objects =~= Seq::<Seq<char>>::empty());
    scenes.push(scene);
    let mut proj = Project {
        variables: Vec::new(),
        uuid,
        objects: Vec::new(),
        rules: Vec::new(),
        abilities: Vec::new(),
        scenes,
        event_params: Vec::new(),
    };
    assert(proj@.variables =~= Seq::<VariableView>::empty());
    assert(proj@.objects =~= Seq::<ObjectView>::empty());
    assert(proj@.rules =~= Seq::<RuleView>::empty());
    assert(proj@.abilities =~= Seq::<AbilityView>::empty());
    assert(proj@.event_params =~= Seq::<EventParamView>::empty());
    assert(proj@.scenes =~= seq![SceneView { name: "My Scene"@, objects: Seq::empty() }]);
    assert(proj@ == initial_project(uv));
    let mut k: usize = 0;
    let mut i: usize = 0;
    assert(sv.take(0) =~= Seq::<ScriptView>::empty());
    while i < p.len()
        invariant
            i <= p.len(),
            sv == scripts_view(p@),
            sv.len() == p.len(),
            forall|j: int| 0 <= j < p.len() ==> #[trigger] sv[j] == p@[j]@,
            idv == strs_view(ids@),
            uv == uuid@,
            ids_needed(sv) <= ids.len(),
            k == ids_needed(sv.take(i as int)),
            proj.scenes.len() == 1,
            gen_scripts(sv.take(i as int), bd@, idv, (initial_project(uv), 0)) == Ok::<
                (ProjectView, int),
                GenError,
            >((proj@, k as int)),
        decreases p.len() - i,
    {
        assert(sv.take(i + 1).drop_last() =~= sv.take(i as int));
        assert(sv.take(i + 1).last() == sv[i as int]);
        proof {
            lemma_ids_needed_take(sv, i as int);
            lemma_ids_needed_mono(sv, i + 1);
        }
        match gen_script_exec(&p[i], bd, ids, &mut proj, k) {
            Ok(k2) => {
                k = k2;
            },
            Err(e) => {
                proof {
                    lemma_gen_scripts_err(sv, bd@, idv, (initial_project(uv), 0), i + 1);
                }
                return Err(e);
            },
        }
        i = i + 1;
    }
    assert(sv.take(p.len() as int) =~= sv);
    Ok(proj)
}

/// Generate the project from the statements `p`, with block data `bd`,
/// project uuid `uuid`, and the fresh ids `ids` (drawn in order), for
/// statements that can be generated: every object, variable, block, rule and
/// ability they name exists, and their parameters fit.
pub fn gen_project_from(p: &Vec<Script>, bd: &CompiledData, uuid: String, ids: &Vec<String>) -> (r:
    Project)
    requires
        ids_needed(scripts_view(p@)) <= ids.len(),
        gen_spec(scripts_view(p@), bd@, uuid@, strs_view(ids@)) is Ok,
    ensures
        gen_spec(scripts_view(p@), bd@, uuid@, strs_view(ids@)) == Ok::<ProjectView, GenError>(r@),
{
    match try_gen_project_from(p, bd, uuid, ids) {
        Ok(proj) => proj,
        Err(e) => {
            proof {
                assert(false);
            }
            Project {
                variables: Vec::new(),
                uuid: String::new(),
                objects: Vec::new(),
                rules: Vec::new(),
                abilities: Vec::new(),
                scenes: Vec::new(),
                event_params: Vec::new(),
            }
        },
    }
}

// ---------------------------------------------------------------------------
// The project uuid, the fresh ids, and the generator as called
// ---------------------------------------------------------------------------

/// The digit for `d` (0 to 35) in base 36: `0`-`9`, then `a`-`z`.
pub open spec fn base36_digit(d: int) -> char {
    if d < 10 {
        (48 + d) as char
    } else {
        (87 + d) as char
    }
}

/// The base-36 numeral of `n`, most significant digit first, lower case.
pub open spec fn base36(n: nat) -> Seq<char>
    decreases n,
{
    if n < 36 {
        seq![base36_digit(n as int)]
    } else {
        base36(n / 36).push(base36_digit((n % 36) as int))
    }
}

/// `radix_fmt::radix(n, 36)` rendered by its `Display` impl: the base-36
/// numeral of `n` in lower case.
#[verifier::external_body]
fn radix_36(n: u128) -> (s: String)
    ensures
        s@ == base36(n as nat),
{
    radix_fmt::radix(n, 36).to_string()
}

#[verifier::external_type_specification]
#[verifier::external_body]
pub struct ExSystemTime(std::time::SystemTime);

/// `std::time::SystemTime::now`. Which time it gives is left open.
#[verifier::external_body]
fn system_time_now() -> std::time::SystemTime {
    std::time::SystemTime::now()
}

/// `SystemTime::duration_since(UNIX_EPOCH)`: the time elapsed since the Unix
/// epoch, `None` where `t` lies before it. Nothing is stated of either
/// outcome: it rests on the clock reading.
#[verifier::external_body]
fn duration_since_epoch(t: &std::time::SystemTime) -> Option<std::time::Duration> {
    match t.duration_since(std::time::UNIX_EPOCH) {
        Ok(d) => Some(d),
        Err(_) => None,
    }
}

/// `Duration::as_millis`: the whole milliseconds in `d`. A duration is
/// opaque here, so the contract does not say which number that is.
#[verifier::external_body]
fn whole_millis(d: &std::time::Duration) -> u128 {
    d.as_millis()
}

/// The project uuid for a clock reading of `millis` milliseconds since the
/// epoch: the whole seconds times 65536, in base 36, where that fits a `u128`.
pub open spec fn project_uuid(millis: nat) -> Option<Seq<char>> {
    let n = millis / 1000 * 65536;
    if n <= u128::MAX {
        Some(base36(n))
    } else {
        None
    }
}

/// Computes the project uuid for a clock reading.
pub fn project_uuid_for(millis: u128) -> (r: Option<String>)
    ensures
        r matches Some(s) ==> project_uuid(millis as nat) == Some(s@),
        r is None ==> project_uuid(millis as nat) is None,
{
    match (millis / 1000).checked_mul(65536) {
        Some(n) => Some(radix_36(n)),
        None => None,
    }
}

/// `n` fresh ids: upper-case version-4 UUID texts, no two alike.
pub open spec fn fresh_ids(ids: Seq<Seq<char>>, n: nat) -> bool {
    &&& ids.len() == n
    &&& forall|i: int| 0 <= i < n ==> is_uuid_text(#[trigger] ids[i], true)
    &&& distinct_ids(ids)
}

/// `r` is what the generator gives for some clock reading and some fresh ids.
pub open spec fn generated_with(
    ps: Seq<ScriptView>,
    bd: CompiledDataView,
    millis: nat,
    ids: Seq<Seq<char>>,
    r: Result<ProjectView, GenError>,
) -> bool {
    &&& project_uuid(millis) is Some
    &&& fresh_ids(ids, ids_needed(ps))
    &&& gen_spec(ps, bd, project_uuid(millis)->0, ids) == r
}

/// Appends to `ids` the fresh ids that the statement `sc` takes.
fn push_fresh_ids(ids: &mut Vec<String>, sc: &Script)
    ensures
        final(ids)@.len() == old(ids)@.len() + script_ids(sc@),
        forall|i: int| 0 <= i < old(ids)@.len() ==> #[trigger] final(ids)@[i] == old(ids)@[i],
        forall|i: int|
            old(ids)@.len() <= i < final(ids)@.len() ==> is_uuid_text(
                #[trigger] final(ids)@[i]@,
                true,
            ),
{
    let ghost start = ids@;
    match sc {
        Script::Define { typ, .. } => {
            ids.push(giv_me_uuid());
            match typ {
                DefineTypes::Object(_) => {
                    ids.push(giv_me_uuid());
                },
                _ => {},
            }
        },
        Script::On { obj, con } => {
            let ghost mv = scripts_view(con@);
            proof {
                lemma_scripts_view(con@);
            }
            let mut i: usize = 0;
            assert(mv.take(0) =~= Seq::<ScriptView>::empty());
            while i < con.len()
                invariant
                    i <= con.len(),
                    mv == scripts_view(con@),
                    mv.len() == con.len(),
                    forall|j: int| 0 <= j < con.len() ==> #[trigger] mv[j] == con@[j]@,
                    ids@.len() == start.len() + 2 * rules_in(mv.take(i as int)),
                    ids@.take(start.len() as int) == start,
                    forall|j: int| start.len() <= j < ids@.len() ==> is_uuid_text(#[trigger] ids@[j]@, true),
                decreases con.len() - i,
            {
                proof {
                    lemma_rules_in_take(mv, i as int);
                }
                match &con[i] {
                    Script::Rule { .. } => {
                        ids.push(giv_me_uuid());
                        ids.push(giv_me_uuid());
                    },
                    _ => {},
                }
                assert(ids@.take(start.len() as int) =~= start);
                i = i + 1;
            }
            assert(mv.take(con.len() as int) =~= mv);
        },
        Script::Rule { .. } => {},
    }
    assert(forall|i: int| 0 <= i < start.len() ==> #[trigger] ids@[i] == ids@.take(start.len() as int)[i]);
}

/// Generate the project for the statements `p` with the block data `bd`,
/// or the reason why it cannot be generated.
///
/// The project uuid comes from the clock and every fresh id is a random
/// UUID, one drawn for each (an id that by chance equals an earlier one is
/// replaced, so no two are alike); the result is what `gen_spec` gives for
/// that clock reading and those
/// ids. The clock before the epoch (or past what a `u128` uuid holds) gives
/// `ClockOutOfRange`.
pub fn try_gen_project(p: &Vec<Script>, bd: CompiledData) -> (r: Result<Project, GenError>)
    ensures
        match r {
            Ok(proj) => exists|millis: nat, ids: Seq<Seq<char>>|
                #[trigger] generated_with(
                    scripts_view(p@),
                    bd@,
                    millis,
                    ids,
                    Ok::<ProjectView, GenError>(proj@),
                ),
            Err(e) => e == GenError::ClockOutOfRange || exists|millis: nat, ids: Seq<Seq<char>>|
                #[trigger] generated_with(
                    scripts_view(p@),
                    bd@,
                    millis,
                    ids,
                    Err::<ProjectView, GenError>(e),
                ),
        },
{
    let now = system_time_now();
    let millis = match duration_since_epoch(&now) {
        Some(d) => whole_millis(&d),
        None => {
            return Err(GenError::ClockOutOfRange);
        },
    };
    let uuid = match project_uuid_for(millis) {
        Some(u) => u,
        None => {
            return Err(GenError::ClockOutOfRange);
        },
    };
    let ghost sv = scripts_view(p@);
    proof {
        lemma_scripts_view(p@);
    }
    let mut ids: Vec<String> = Vec::new();
    let mut i: usize = 0;
    assert(sv.take(0) =~= Seq::<ScriptView>::empty());
    while i < p.len()
        invariant
            i <= p.len(),
            sv == scripts_view(p@),
            sv.len() == p.len(),
            forall|j: int| 0 <= j < p.len() ==> #[trigger] sv[j] == p@[j]@,
            ids@.len() == ids_needed(sv.take(i as int)),
            forall|j: int| 0 <= j < ids@.len() ==> is_uuid_text(#[trigger] ids@[j]@, true),
        decreases p.len() - i,
    {
        proof {
            lemma_ids_needed_take(sv, i as int);
        }
        push_fresh_ids(&mut ids, &p[i]);
        i = i + 1;
    }
    assert(sv.take(p.len() as int) =~= sv);
    make_ids_distinct(&mut ids);
    let ghost idv = strs_view(ids@);
    let ghost uv = uuid@;
    assert(fresh_ids(idv, ids_needed(sv)));
    let r = try_gen_project_from(p, &bd, uuid, &ids);
    match r {
        Ok(proj) => {
            assert(generated_with(sv, bd@, millis as nat, idv, Ok::<ProjectView, GenError>(proj@)));
            Ok(proj)
        },
        Err(e) => {
            assert(generated_with(sv, bd@, millis as nat, idv, Err::<ProjectView, GenError>(e)));
            Err(e)
        },
    }
}

/// The statements `ps` can be generated with the block data `bd`, whatever
/// project uuid and fresh ids are drawn.
pub open spec fn generates(ps: Seq<ScriptView>, bd: CompiledDataView) -> bool {
    forall|uuid: Seq<char>, ids: Seq<Seq<char>>|
        fresh_ids(ids, ids_needed(ps)) ==> (#[trigger] gen_spec(ps, bd, uuid, ids)) is Ok
}

/// Generate the project for statements that can be generated (see
/// `generates`), with the block data `bd`.
///
/// The project uuid comes from the clock and every fresh id is a random
/// UUID, one drawn for each (an id that by chance equals an earlier one is
/// replaced, so no two are alike); the project is what `gen_spec` gives for
/// that clock reading and
/// those ids. The clock before the epoch (or past what a `u128` uuid holds)
/// gives `ClockOutOfRange`, the only failure.
pub fn gen_project(p: &Vec<Script>, bd: CompiledData) -> (r: Result<Project, GenError>)
    requires
        generates(scripts_view(p@), bd@),
    ensures
        match r {
            Ok(proj) => exists|millis: nat, ids: Seq<Seq<char>>|
                #[trigger] generated_with(
                    scripts_view(p@),
                    bd@,
                    millis,
                    ids,
                    Ok::<ProjectView, GenError>(proj@),
                ),
            Err(e) => e == GenError::ClockOutOfRange,
        },
{
    let ghost bv = bd@;
    let r = try_gen_project(p, bd);
    proof {
        if r is Err && r->Err_0 != GenError::ClockOutOfRange {
            let e = r->Err_0;
            let (m, ids) = choose|millis: nat, ids: Seq<Seq<char>>|
                #[trigger] generated_with(
                    scripts_view(p@),
                    bv,
                    millis,
                    ids,
                    Err::<ProjectView, GenError>(e),
                );
            assert(gen_spec(scripts_view(p@), bv, project_uuid(m)->0, ids) is Ok);
        }
    }
    r
}

// ---------------------------------------------------------------------------
// Laws of the generator
// ---------------------------------------------------------------------------

/// The `j`-th rule runs an ability of the project.
pub open spec fn rule_has_ability(p: ProjectView, j: int) -> bool {
    exists|a: int|
        0 <= a < p.abilities.len() && #[trigger] p.abilities[a].ability_id == p.rules[j].ability_id
}

/// The `j`-th rule belongs to an object of the project, which lists it.
pub open spec fn rule_on_object(p: ProjectView, j: int) -> bool {
    exists|o: int|
        0 <= o < p.objects.len() && #[trigger] p.objects[o].id == p.rules[j].object_id
            && p.objects[o].rules.contains(p.rules[j].id)
}

/// The `i`-th event parameter belongs to the `i`-th object.
pub open spec fn event_of_object(p: ProjectView, i: int) -> bool {
    &&& p.event_params[i].object_id == Some(p.objects[i].id)
    &&& p.event_params[i].description == p.objects[i].name
    &&& p.event_params[i].block_type == 8000
}

/// The consistency that every generated project has: one scene, named
/// `My Scene`, showing every object in order; one event parameter per
/// object, in order, described by the object's name, of block type 8000 and
/// naming the object; every rule runs an ability of the project and belongs
/// to an object that lists it.
pub open spec fn well_formed_project(p: ProjectView) -> bool {
    &&& p.scenes.len() == 1
    &&& p.scenes[0].name == "My Scene"@
    &&& p.scenes[0].objects.len() == p.objects.len()
    &&& forall|i: int| 0 <= i < p.objects.len() ==> #[trigger] p.scenes[0].objects[i] == p.objects[i].id
    &&& p.event_params.len() == p.objects.len()
    &&& forall|i: int| 0 <= i < p.objects.len() ==> #[trigger] event_of_object(p, i)
    &&& forall|j: int| 0 <= j < p.rules.len() ==> #[trigger] rule_has_ability(p, j)
    &&& forall|j: int| 0 <= j < p.rules.len() ==> #[trigger] rule_on_object(p, j)
}

proof fn lemma_convert_block_keeps_id(
    c: BlockASTView,
    bd: CompiledDataView,
    ab: AbilityView,
    proj: ProjectView,
)
    ensures
        convert_block(c, bd, ab, proj) matches Ok(a) ==> a.ability_id == ab.ability_id,
{
}

pub proof fn lemma_convert_blocks_keeps_id(
    cs: Seq<BlockASTView>,
    bd: CompiledDataView,
    ab: AbilityView,
    proj: ProjectView,
)
    ensures
        convert_blocks(cs, bd, ab, proj) matches Ok(a) ==> a.ability_id == ab.ability_id,
    decreases cs.len(),
{
    if cs.len() > 0 {
        lemma_convert_blocks_keeps_id(cs.drop_last(), bd, ab, proj);
        if let Ok(a) = convert_blocks(cs.drop_last(), bd, ab, proj) {
            lemma_convert_block_keeps_id(cs.last(), bd, a, proj);
        }
    }
}

proof fn lemma_initial_well_formed(uuid: Seq<char>)
    ensures
        well_formed_project(initial_project(uuid)),
{
}

proof fn lemma_with_variable_wf(p: ProjectView, v: VariableView)
    requires
        well_formed_project(p),
    ensures
        well_formed_project(with_variable(p, v)),
{
    let q = with_variable(p, v);
    assert forall|i: int| 0 <= i < q.objects.len() implies #[trigger] event_of_object(q, i) by {
        assert(event_of_object(p, i));
    }
    assert forall|j: int| 0 <= j < q.rules.len() implies #[trigger] rule_has_ability(q, j) by {
        assert(rule_has_ability(p, j));
        let a = choose|a: int|
            0 <= a < p.abilities.len() && #[trigger] p.abilities[a].ability_id
                == p.rules[j].ability_id;
        assert(q.abilities[a] == p.abilities[a]);
    }
    assert forall|j: int| 0 <= j < q.rules.len() implies #[trigger] rule_on_object(q, j) by {
        assert(rule_on_object(p, j));
        let x = choose|x: int|
            0 <= x < p.objects.len() && #[trigger] p.objects[x].id == p.rules[j].object_id
                && p.objects[x].rules.contains(p.rules[j].id);
        assert(q.objects[x] == p.objects[x]);
    }
}

proof fn lemma_with_ability_wf(p: ProjectView, ab: AbilityView)
    requires
        well_formed_project(p),
    ensures
        well_formed_project(with_ability(p, ab)),
{
    let q = with_ability(p, ab);
    assert forall|i: int| 0 <= i < q.objects.len() implies #[trigger] event_of_object(q, i) by {
        assert(event_of_object(p, i));
    }
    assert forall|j: int| 0 <= j < q.rules.len() implies #[trigger] rule_has_ability(q, j) by {
        assert(rule_has_ability(p, j));
        let a = choose|a: int|
            0 <= a < p.abilities.len() && #[trigger] p.abilities[a].ability_id
                == p.rules[j].ability_id;
        assert(q.abilities[a] == p.abilities[a]);
    }
    assert forall|j: int| 0 <= j < q.rules.len() implies #[trigger] rule_on_object(q, j) by {
        assert(rule_on_object(p, j));
        let x = choose|x: int|
            0 <= x < p.objects.len() && #[trigger] p.objects[x].id == p.rules[j].object_id
                && p.objects[x].rules.contains(p.rules[j].id);
        assert(q.objects[x] == p.objects[x]);
    }
}

proof fn lemma_with_object_wf(p: ProjectView, o: ObjectView, ev: EventParamView)
    requires
        well_formed_project(p),
        o.rules == Seq::<Seq<char>>::empty(),
        ev.object_id == Some(o.id),
        ev.description == o.name,
        ev.block_type == 8000,
    ensures
        well_formed_project(with_object(p, o, ev)),
{
    let q = with_object(p, o, ev);
    assert forall|i: int| 0 <= i < q.objects.len() implies #[trigger] q.scenes[0].objects[i]
        == q.objects[i].id by {}
    assert forall|i: int| 0 <= i < q.objects.len() implies #[trigger] event_of_object(q, i) by {
        if i < p.objects.len() {
            assert(event_of_object(p, i));
        }
    }
    assert forall|j: int| 0 <= j < q.rules.len() implies #[trigger] rule_has_ability(q, j) by {
        assert(rule_has_ability(p, j));
        let a = choose|a: int|
            0 <= a < p.abilities.len() && #[trigger] p.abilities[a].ability_id
                == p.rules[j].ability_id;
        assert(q.abilities[a] == p.abilities[a]);
    }
    assert forall|j: int| 0 <= j < q.rules.len() implies #[trigger] rule_on_object(q, j) by {
        assert(rule_on_object(p, j));
        let x = choose|x: int|
            0 <= x < p.objects.len() && #[trigger] p.objects[x].id == p.rules[j].object_id
                && p.objects[x].rules.contains(p.rules[j].id);
        assert(q.objects[x] == p.objects[x]);
    }
}

proof fn lemma_with_rule_wf(p: ProjectView, ob: int, r: RuleView, ab: AbilityView)
    requires
        well_formed_project(p),
        0 <= ob < p.objects.len(),
        r.object_id == p.objects[ob].id,
        ab.ability_id == r.ability_id,
    ensures
        well_formed_project(with_rule(p, ob, r, ab)),
{
    let q = with_rule(p, ob, r, ab);
    assert forall|i: int| 0 <= i < q.objects.len() implies #[trigger] q.scenes[0].objects[i]
        == q.objects[i].id by {
        assert(p.scenes[0].objects[i] == p.objects[i].id);
    }
    assert forall|i: int| 0 <= i < q.objects.len() implies #[trigger] event_of_object(q, i) by {
        assert(event_of_object(p, i));
    }
    assert forall|j: int| 0 <= j < q.rules.len() implies #[trigger] rule_has_ability(q, j) by {
        if j < p.rules.len() {
            assert(rule_has_ability(p, j));
            let a = choose|a: int|
                0 <= a < p.abilities.len() && #[trigger] p.abilities[a].ability_id
                    == p.rules[j].ability_id;
            assert(q.abilities[a] == p.abilities[a]);
        } else {
            assert(q.abilities[p.abilities.len() as int] == ab);
        }
    }
    assert forall|j: int| 0 <= j < q.rules.len() implies #[trigger] rule_on_object(q, j) by {
        if j < p.rules.len() {
            assert(rule_on_object(p, j));
            let x = choose|x: int|
                0 <= x < p.objects.len() && #[trigger] p.objects[x].id == p.rules[j].object_id
                    && p.objects[x].rules.contains(p.rules[j].id);
            let w = choose|w: int|
                0 <= w < p.objects[x].rules.len() && p.objects[x].rules[w] == p.rules[j].id;
            assert(q.objects[x].id == p.objects[x].id);
            assert(q.objects[x].rules[w] == p.rules[j].id);
        } else {
            assert(q.objects[ob].id == r.object_id);
            assert(q.objects[ob].rules[p.objects[ob].rules.len() as int] == r.id);
        }
    }
}

proof fn lemma_gen_rule_wf(
    obj: Seq<char>,
    name: Seq<char>,
    blocks: Seq<BlockASTView>,
    params: Seq<ValuesView>,
    bd: CompiledDataView,
    ids: Seq<Seq<char>>,
    st: (ProjectView, int),
)
    requires
        well_formed_project(st.0),
    ensures
        gen_rule(obj, name, blocks, params, bd, ids, st) matches Ok((q, _)) ==> well_formed_project(
            q,
        ),
{
    let (p, k) = st;
    if let Some(ob) = find_object(p.objects, obj) {
        lemma_find_object_from(p.objects, obj, 0);
        let ab0 = AbilityView {
            ability_id: ids[k],
            blocks: Seq::empty(),
            created_at: 0,
            name: None,
        };
        lemma_convert_blocks_keeps_id(blocks, bd, ab0, p);
        if let Ok(tr) = transform_values(params, p) {
            if let Ok(d) = rule_datum(name, tr, bd, p) {
                if let Ok(ab) = convert_blocks(blocks, bd, ab0, p) {
                    lemma_with_rule_wf(
                        p,
                        ob,
                        RuleView {
                            rule_block_type: 6000,
                            object_id: p.objects[ob].id,
                            id: ids[k + 1],
                            ability_id: ids[k],
                            params: seq![rule_param(d)],
                        },
                        ab,
                    );
                }
            }
        }
    }
}

proof fn lemma_gen_members_wf(
    ms: Seq<ScriptView>,
    obj: Seq<char>,
    bd: CompiledDataView,
    ids: Seq<Seq<char>>,
    st: (ProjectView, int),
)
    requires
        well_formed_project(st.0),
    ensures
        gen_members(ms, obj, bd, ids, st) matches Ok((q, _)) ==> well_formed_project(q),
    decreases ms.len(),
{
    if ms.len() > 0 {
        lemma_gen_members_wf(ms.drop_last(), obj, bd, ids, st);
        if let Ok(s2) = gen_members(ms.drop_last(), obj, bd, ids, st) {
            match ms.last() {
                ScriptView::Rule { name, con, params } => {
                    lemma_gen_rule_wf(obj, name, con, params, bd, ids, s2);
                },
                _ => {},
            }
        }
    }
}

proof fn lemma_gen_script_wf(
    sc: ScriptView,
    bd: CompiledDataView,
    ids: Seq<Seq<char>>,
    st: (ProjectView, int),
)
    requires
        well_formed_project(st.0),
    ensures
        gen_script(sc, bd, ids, st) matches Ok((q, _)) ==> well_formed_project(q),
{
    let (p, k) = st;
    match sc {
        ScriptView::Define { typ, name } => match typ {
            DefineTypesView::Variable(code) => {
                lemma_with_variable_wf(
                    p,
                    VariableView { name, typ: (8000 + code) as i32, object_id_string: ids[k] },
                );
            },
            DefineTypesView::Object(t) => {
                if let Some(fi) = find_objdata(bd.obj, t) {
                    lemma_with_object_wf(
                        p,
                        ObjectView {
                            name,
                            typ: bd.obj[fi].id,
                            filename: Seq::empty(),
                            id: ids[k],
                            rules: Seq::empty(),
                            x: 10,
                            y: 10,
                        },
                        EventParamView {
                            id: ids[k + 1],
                            description: name,
                            block_type: 8000,
                            object_id: Some(ids[k]),
                        },
                    );
                }
            },
            DefineTypesView::Ability(bs) => {
                let blocks = match bs {
                    Some(b) => b,
                    None => Seq::empty(),
                };
                let ab0 = AbilityView {
                    ability_id: ids[k],
                    blocks: Seq::empty(),
                    created_at: 0,
                    name: Some(name),
                };
                if let Ok(ab) = convert_blocks(blocks, bd, ab0, p) {
                    lemma_with_ability_wf(p, ab);
                }
            },
        },
        ScriptView::On { obj, con } => {
            lemma_gen_members_wf(con, obj, bd, ids, st);
        },
        ScriptView::Rule { .. } => {},
    }
}

proof fn lemma_gen_scripts_wf(
    ps: Seq<ScriptView>,
    bd: CompiledDataView,
    ids: Seq<Seq<char>>,
    st: (ProjectView, int),
)
    requires
        well_formed_project(st.0),
    ensures
        gen_scripts(ps, bd, ids, st) matches Ok((q, _)) ==> well_formed_project(q),
    decreases ps.len(),
{
    if ps.len() > 0 {
        lemma_gen_scripts_wf(ps.drop_last(), bd, ids, st);
        if let Ok(s2) = gen_scripts(ps.drop_last(), bd, ids, st) {
            lemma_gen_script_wf(ps.last(), bd, ids, s2);
        }
    }
}

/// Every generated project is well formed: it has one scene, named
/// `My Scene`, which shows every object in order; each object has its own
/// event parameter, in order, described by the object's name, of block type
/// 8000 and naming the object; every rule runs an ability of the project and
/// belongs to an object that lists it.
pub proof fn law_generated_project_well_formed(
    ps: Seq<ScriptView>,
    bd: CompiledDataView,
    uuid: Seq<char>,
    ids: Seq<Seq<char>>,
)
    requires
        gen_spec(ps, bd, uuid, ids) is Ok,
    ensures
        well_formed_project(gen_spec(ps, bd, uuid, ids)->Ok_0),
{
    lemma_initial_well_formed(uuid);
    lemma_gen_scripts_wf(ps, bd, ids, (initial_project(uuid), 0));
}

pub open spec fn script_counts(sc: ScriptView) -> (nat, nat, nat, nat) {
    match sc {
        ScriptView::Define { typ, .. } => match typ {
            DefineTypesView::Variable(_) => (1, 0, 0, 0),
            DefineTypesView::Object(_) => (0, 1, 0, 0),
            DefineTypesView::Ability(_) => (0, 0, 1, 0),
        },
        ScriptView::On { con, .. } => (0, 0, 0, rules_in(con)),
        ScriptView::Rule { .. } => (0, 0, 0, 0),
    }
}

/// The numbers of variable, object and ability definitions among the
/// statements `ps`, and of the rules inside their `for` statements.
pub open spec fn statement_counts(ps: Seq<ScriptView>) -> (nat, nat, nat, nat)
    decreases ps.len(),
{
    if ps.len() == 0 {
        (0, 0, 0, 0)
    } else {
        let (v, o, a, r) = statement_counts(ps.drop_last());
        let (v1, o1, a1, r1) = script_counts(ps.last());
        (v + v1, o + o1, a + a1, r + r1)
    }
}

/// The sizes of a project's variables, objects, abilities and rules, and the
/// number of ids drawn, grew from `st` to `q` by the counts given.
pub open spec fn grew_by(
    st: (ProjectView, int),
    q: (ProjectView, int),
    c: (nat, nat, nat, nat),
) -> bool {
    let (p, k) = st;
    let (p2, k2) = q;
    let (v, o, a, r) = c;
    &&& p2.variables.len() == p.variables.len() + v
    &&& p2.objects.len() == p.objects.len() + o
    &&& p2.abilities.len() == p.abilities.len() + a + r
    &&& p2.rules.len() == p.rules.len() + r
    &&& k2 == k + 2 * o + v + a + 2 * r
}

pub proof fn lemma_gen_members_counts(
    ms: Seq<ScriptView>,
    obj: Seq<char>,
    bd: CompiledDataView,
    ids: Seq<Seq<char>>,
    st: (ProjectView, int),
)
    ensures
        gen_members(ms, obj, bd, ids, st) matches Ok(q) ==> grew_by(st, q, (0, 0, 0, rules_in(ms))),
    decreases ms.len(),
{
    if ms.len() > 0 {
        lemma_gen_members_counts(ms.drop_last(), obj, bd, ids, st);
        if let Ok(s2) = gen_members(ms.drop_last(), obj, bd, ids, st) {
            match ms.last() {
                ScriptView::Rule { name, con, params } => {
                    let r = gen_rule(obj, name, con, params, bd, ids, s2);
                    if let Ok(q) = r {
                        let (p, k) = s2;
                        let ob = find_object(p.objects, obj)->0;
                        lemma_find_object_from(p.objects, obj, 0);
                        assert(q.0.objects.len() == p.objects.len());
                    }
                },
                _ => {},
            }
        }
    }
}

pub proof fn lemma_gen_scripts_counts(
    ps: Seq<ScriptView>,
    bd: CompiledDataView,
    ids: Seq<Seq<char>>,
    st: (ProjectView, int),
)
    ensures
        gen_scripts(ps, bd, ids, st) matches Ok(q) ==> grew_by(st, q, statement_counts(ps)),
    decreases ps.len(),
{
    if ps.len() > 0 {
        lemma_gen_scripts_counts(ps.drop_last(), bd, ids, st);
        if let Ok(s2) = gen_scripts(ps.drop_last(), bd, ids, st) {
            match ps.last() {
                ScriptView::On { obj, con } => {
                    lemma_gen_members_counts(con, obj, bd, ids, s2);
                },
                _ => {},
            }
        }
    }
}

pub proof fn lemma_ids_needed_counts(ps: Seq<ScriptView>)
    ensures
        ({
            let (v, o, a, r) = statement_counts(ps);
            ids_needed(ps) == 2 * o + v + a + 2 * r
        }),
    decreases ps.len(),
{
    if ps.len() > 0 {
        lemma_ids_needed_counts(ps.drop_last());
    }
}

/// Every statement contributes exactly its part: a generated project has one
/// variable per variable definition, one object per object definition, one
/// ability per ability definition and per rule, one rule per rule of a `for`
/// statement; and generation draws exactly `ids_needed` fresh ids.
pub proof fn law_generated_counts(
    ps: Seq<ScriptView>,
    bd: CompiledDataView,
    uuid: Seq<char>,
    ids: Seq<Seq<char>>,
)
    requires
        gen_scripts(ps, bd, ids, (initial_project(uuid), 0)) is Ok,
    ensures
        ({
            let (p, k) = gen_scripts(ps, bd, ids, (initial_project(uuid), 0))->Ok_0;
            let (v, o, a, r) = statement_counts(ps);
            &&& p.variables.len() == v
            &&& p.objects.len() == o
            &&& p.abilities.len() == a + r
            &&& p.rules.len() == r
            &&& k == ids_needed(ps)
        }),
{
    lemma_gen_scripts_counts(ps, bd, ids, (initial_project(uuid), 0));
    lemma_ids_needed_counts(ps);
}

} // verus!
