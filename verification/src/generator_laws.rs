//! Laws of the generator about where the rules go and about the statements
//! it passes over.
use vstd::prelude::*;
use crate::generator::{
    convert_block, convert_blocks, find_blockdata, find_blockdata_from, find_event_from,
    find_objdata, find_objdata_from, fresh_ids, gen_members, gen_rule, gen_script, gen_scripts, gen_spec, ids_needed,
    initial_project, lemma_convert_blocks_keeps_id, lemma_gen_members_counts,
    lemma_gen_scripts_counts, lemma_ids_needed_counts, rule_datum, rule_param, rule_params,
    rules_in, script_ids, with_object, with_rule,
};
use crate::types::{
    AbilityView, AstTypes, BlockASTView, BlockDataView, ObjectDataView, CompiledDataView, DefineTypesView,
    EventParamView, ObjectView, ParamView, ProjectView, RuleView, ScriptView, ValueView,
    ValuesView, VariableView,
};
use crate::ids::distinct_ids;
use crate::utils::{
    GenError, find_object, find_object_from, law_transform_values_elementwise, lemma_find_object_from,
    transform_value, transform_values,
};

verus! {

// ---------------------------------------------------------------------------
// Which object each rule belongs to
// ---------------------------------------------------------------------------

/// The object names that the rules of the statement `sc` are written for:
/// for `for "n" { .. }`, `n` once per rule in it; none for anything else.
pub open spec fn script_rule_owners(sc: ScriptView) -> Seq<Seq<char>> {
    match sc {
        ScriptView::On { obj, con } => Seq::new(rules_in(con), |k: int| obj),
        _ => Seq::empty(),
    }
}

/// The object names that the rules of the statements `ps` are written for,
/// one per rule, in the order the rules are generated.
pub open spec fn rule_owners(ps: Seq<ScriptView>) -> Seq<Seq<char>>
    decreases ps.len(),
{
    if ps.len() == 0 {
        Seq::empty()
    } else {
        rule_owners(ps.drop_last()) + script_rule_owners(ps.last())
    }
}

/// The number of rule ids that the objects `objs` list, all together.
pub open spec fn listed_rules(objs: Seq<ObjectView>) -> nat
    decreases objs.len(),
{
    if objs.len() == 0 {
        0
    } else {
        listed_rules(objs.drop_last()) + objs.last().rules.len()
    }
}

/// The `k`-th rule of `p` is of block type 6000 and belongs to the first
/// object named `n`, which lists it.
pub open spec fn rule_of_first_named(p: ProjectView, k: int, n: Seq<char>) -> bool {
    match find_object(p.objects, n) {
        Some(j) => {
            &&& p.rules[k].rule_block_type == 6000
            &&& p.rules[k].object_id == p.objects[j].id
            &&& p.objects[j].rules.contains(p.rules[k].id)
        },
        None => false,
    }
}

/// The rules of `p` are those written for the objects `owners`, one each,
/// and the objects list no more rule ids than there are rules.
pub open spec fn owned_as(p: ProjectView, owners: Seq<Seq<char>>) -> bool {
    &&& p.rules.len() == owners.len()
    &&& forall|k: int| 0 <= k < owners.len() ==> #[trigger] rule_of_first_named(p, k, owners[k])
    &&& listed_rules(p.objects) == p.rules.len()
}

proof fn lemma_find_same_names(a: Seq<ObjectView>, b: Seq<ObjectView>, n: Seq<char>, k: int)
    requires
        0 <= k,
        a.len() == b.len(),
        forall|i: int| 0 <= i < a.len() ==> #[trigger] a[i].name == b[i].name,
    ensures
        find_object_from(a, n, k) == find_object_from(b, n, k),
    decreases a.len() - k,
{
    if k < a.len() {
        assert(a[k].name == b[k].name);
        lemma_find_same_names(a, b, n, k + 1);
    }
}

proof fn lemma_find_push(objs: Seq<ObjectView>, o: ObjectView, n: Seq<char>, k: int)
    requires
        0 <= k,
        find_object_from(objs, n, k) is Some,
    ensures
        find_object_from(objs.push(o), n, k) == find_object_from(objs, n, k),
    decreases objs.len() - k,
{
    if k < objs.len() {
        assert(objs.push(o)[k] == objs[k]);
        if objs[k].name != n {
            lemma_find_push(objs, o, n, k + 1);
        }
    }
}

proof fn lemma_listed_push(objs: Seq<ObjectView>, o: ObjectView)
    ensures
        listed_rules(objs.push(o)) == listed_rules(objs) + o.rules.len(),
{
    assert(objs.push(o).drop_last() =~= objs);
}

proof fn lemma_listed_update(objs: Seq<ObjectView>, i: int, x: ObjectView)
    requires
        0 <= i < objs.len(),
    ensures
        listed_rules(objs.update(i, x)) + objs[i].rules.len() == listed_rules(objs) + x.rules.len(),
    decreases objs.len(),
{
    let u = objs.update(i, x);
    if i == objs.len() - 1 {
        assert(u.drop_last() =~= objs.drop_last());
    } else {
        assert(u.drop_last() =~= objs.drop_last().update(i, x));
        lemma_listed_update(objs.drop_last(), i, x);
    }
}

proof fn lemma_owned_same_objects(p: ProjectView, q: ProjectView, owners: Seq<Seq<char>>)
    requires
        owned_as(p, owners),
        q.objects == p.objects,
        q.rules == p.rules,
    ensures
        owned_as(q, owners),
{
    assert forall|k: int| 0 <= k < owners.len() implies #[trigger] rule_of_first_named(
        q,
        k,
        owners[k],
    ) by {
        assert(rule_of_first_named(p, k, owners[k]));
    }
}

proof fn lemma_owned_with_object(
    p: ProjectView,
    o: ObjectView,
    ev: EventParamView,
    owners: Seq<Seq<char>>,
)
    requires
        owned_as(p, owners),
        o.rules.len() == 0,
    ensures
        owned_as(with_object(p, o, ev), owners),
{
    let q = with_object(p, o, ev);
    lemma_listed_push(p.objects, o);
    assert forall|k: int| 0 <= k < owners.len() implies #[trigger] rule_of_first_named(
        q,
        k,
        owners[k],
    ) by {
        assert(rule_of_first_named(p, k, owners[k]));
        lemma_find_push(p.objects, o, owners[k], 0);
        let j = find_object(p.objects, owners[k])->0;
        lemma_find_object_from(p.objects, owners[k], 0);
        assert(q.objects[j] == p.objects[j]);
    }
}

proof fn lemma_owned_with_rule(
    p: ProjectView,
    ob: int,
    r: RuleView,
    ab: AbilityView,
    obj: Seq<char>,
    owners: Seq<Seq<char>>,
)
    requires
        owned_as(p, owners),
        find_object(p.objects, obj) == Some(ob),
        r.object_id == p.objects[ob].id,
        r.rule_block_type == 6000,
    ensures
        owned_as(with_rule(p, ob, r, ab), owners.push(obj)),
{
    lemma_find_object_from(p.objects, obj, 0);
    let q = with_rule(p, ob, r, ab);
    let no = owners.push(obj);
    assert forall|i: int| 0 <= i < q.objects.len() implies #[trigger] q.objects[i].name
        == p.objects[i].name by {}
    assert forall|n: Seq<char>| #[trigger] find_object(q.objects, n) == find_object(p.objects, n) by {
        lemma_find_same_names(q.objects, p.objects, n, 0);
    }
    lemma_listed_update(p.objects, ob, q.objects[ob]);
    assert forall|k: int| 0 <= k < no.len() implies #[trigger] rule_of_first_named(q, k, no[k]) by {
        if k < owners.len() {
            assert(no[k] == owners[k]);
            assert(rule_of_first_named(p, k, owners[k]));
            assert(find_object(q.objects, owners[k]) == find_object(p.objects, owners[k]));
            let j = find_object(p.objects, owners[k])->0;
            lemma_find_object_from(p.objects, owners[k], 0);
            assert(q.rules[k] == p.rules[k]);
            let w = choose|w: int|
                0 <= w < p.objects[j].rules.len() && p.objects[j].rules[w] == p.rules[k].id;
            assert(q.objects[j].rules[w] == p.rules[k].id);
        } else {
            assert(no[k] == obj);
            assert(find_object(q.objects, obj) == Some(ob));
            assert(q.rules[k] == r);
            assert(q.objects[ob].rules[p.objects[ob].rules.len() as int] == r.id);
        }
    }
}

proof fn lemma_owned_gen_rule(
    obj: Seq<char>,
    name: Seq<char>,
    blocks: Seq<BlockASTView>,
    params: Seq<ValuesView>,
    bd: CompiledDataView,
    ids: Seq<Seq<char>>,
    st: (ProjectView, int),
    owners: Seq<Seq<char>>,
)
    requires
        owned_as(st.0, owners),
    ensures
        gen_rule(obj, name, blocks, params, bd, ids, st) matches Ok((q, _)) ==> owned_as(
            q,
            owners.push(obj),
        ),
{
    let (p, k) = st;
    if let Ok((q, _)) = gen_rule(obj, name, blocks, params, bd, ids, st) {
        let ob = find_object(p.objects, obj)->0;
        lemma_find_object_from(p.objects, obj, 0);
        let tr = transform_values(params, p)->Ok_0;
        let d = rule_datum(name, tr, bd, p)->Ok_0;
        let ab = convert_blocks(
            blocks,
            bd,
            AbilityView { ability_id: ids[k], blocks: Seq::empty(), created_at: 0, name: None },
            p,
        )->Ok_0;
        lemma_owned_with_rule(
            p,
            ob,
            RuleView {
                rule_block_type: 6000,
                object_id: p.objects[ob].id,
                id: ids[k + 1],
                ability_id: ids[k],
                params: seq![rule_param(d)],
            },
            ab,
            obj,
            owners,
        );
    }
}

proof fn lemma_owned_gen_members(
    ms: Seq<ScriptView>,
    obj: Seq<char>,
    bd: CompiledDataView,
    ids: Seq<Seq<char>>,
    st: (ProjectView, int),
    owners: Seq<Seq<char>>,
)
    requires
        owned_as(st.0, owners),
    ensures
        gen_members(ms, obj, bd, ids, st) matches Ok((q, _)) ==> owned_as(
            q,
            owners + Seq::new(rules_in(ms), |k: int| obj),
        ),
    decreases ms.len(),
{
    if ms.len() == 0 {
        assert(owners + Seq::new(0, |k: int| obj) =~= owners);
    } else {
        lemma_owned_gen_members(ms.drop_last(), obj, bd, ids, st, owners);
        let pre = owners + Seq::new(rules_in(ms.drop_last()), |k: int| obj);
        if let Ok(s2) = gen_members(ms.drop_last(), obj, bd, ids, st) {
            match ms.last() {
                ScriptView::Rule { name, con, params } => {
                    lemma_owned_gen_rule(obj, name, con, params, bd, ids, s2, pre);
                    assert(pre.push(obj) =~= owners + Seq::new(rules_in(ms), |k: int| obj));
                },
                _ => {
                    assert(pre =~= owners + Seq::new(rules_in(ms), |k: int| obj));
                },
            }
        }
    }
}

proof fn lemma_owned_gen_script(
    sc: ScriptView,
    bd: CompiledDataView,
    ids: Seq<Seq<char>>,
    st: (ProjectView, int),
    owners: Seq<Seq<char>>,
)
    requires
        owned_as(st.0, owners),
    ensures
        gen_script(sc, bd, ids, st) matches Ok((q, _)) ==> owned_as(
            q,
            owners + script_rule_owners(sc),
        ),
{
    let (p, k) = st;
    if let Ok((q, _)) = gen_script(sc, bd, ids, st) {
        match sc {
            ScriptView::Define { typ, name } => {
                assert(owners + script_rule_owners(sc) =~= owners);
                match typ {
                    DefineTypesView::Variable(code) => {
                        lemma_owned_same_objects(p, q, owners);
                    },
                    DefineTypesView::Object(t) => {
                        let fi = find_objdata(bd.obj, t)->0;
                        lemma_owned_with_object(
                            p,
                            ObjectView {
                                name,
                                typ: bd.obj[fi].id,
                                filename: Seq::empty(),
                                id: ids[k],
                                rules: Seq::empty(),
                                x: 10,
                                y: 10,
                            },
                            EventParamView {
                                id: ids[k + 1],
                                description: name,
                                block_type: 8000,
                                object_id: Some(ids[k]),
                            },
                            owners,
                        );
                    },
                    DefineTypesView::Ability(_) => {
                        lemma_owned_same_objects(p, q, owners);
                    },
                }
            },
            ScriptView::On { obj, con } => {
                lemma_owned_gen_members(con, obj, bd, ids, st, owners);
            },
            ScriptView::Rule { .. } => {
                assert(owners + script_rule_owners(sc) =~= owners);
            },
        }
    }
}

proof fn lemma_owned_gen_scripts(
    ps: Seq<ScriptView>,
    bd: CompiledDataView,
    ids: Seq<Seq<char>>,
    st: (ProjectView, int),
)
    requires
        owned_as(st.0, Seq::empty()),
    ensures
        gen_scripts(ps, bd, ids, st) matches Ok((q, _)) ==> owned_as(q, rule_owners(ps)),
    decreases ps.len(),
{
    if ps.len() > 0 {
        lemma_owned_gen_scripts(ps.drop_last(), bd, ids, st);
        if let Ok(s2) = gen_scripts(ps.drop_last(), bd, ids, st) {
            lemma_owned_gen_script(ps.last(), bd, ids, s2, rule_owners(ps.drop_last()));
        }
    } else {
        assert(rule_owners(ps) =~= Seq::<Seq<char>>::empty());
    }
}

/// Each rule goes to the object it is written for: a generated project has
/// one rule per rule of a `for` statement, in order; the `k`-th is of block
/// type 6000 and belongs to the first object named as its `for` statement
/// names it, and that object lists it; and the objects list exactly as many
/// rule ids as there are rules.
pub proof fn law_rules_belong_to_first_named_object(
    ps: Seq<ScriptView>,
    bd: CompiledDataView,
    uuid: Seq<char>,
    ids: Seq<Seq<char>>,
)
    requires
        gen_spec(ps, bd, uuid, ids) is Ok,
    ensures
        ({
            let p = gen_spec(ps, bd, uuid, ids)->Ok_0;
            &&& p.rules.len() == rule_owners(ps).len()
            &&& forall|k: int|
                0 <= k < p.rules.len() ==> #[trigger] rule_of_first_named(p, k, rule_owners(ps)[k])
            &&& listed_rules(p.objects) == p.rules.len()
        }),
{
    let p0 = initial_project(uuid);
    assert(listed_rules(p0.objects) == 0);
    lemma_owned_gen_scripts(ps, bd, ids, (p0, 0));
}

// ---------------------------------------------------------------------------
// Statements the generator passes over
// ---------------------------------------------------------------------------

proof fn lemma_insert_rule_scripts(
    ps: Seq<ScriptView>,
    i: int,
    r: ScriptView,
    bd: CompiledDataView,
    ids: Seq<Seq<char>>,
    st: (ProjectView, int),
)
    requires
        0 <= i <= ps.len(),
        r is Rule,
    ensures
        gen_scripts(ps.insert(i, r), bd, ids, st) == gen_scripts(ps, bd, ids, st),
        ids_needed(ps.insert(i, r)) == ids_needed(ps),
    decreases ps.len(),
{
    let q = ps.insert(i, r);
    if i == ps.len() {
        assert(q.drop_last() =~= ps);
        assert(q.last() == r);
    } else {
        assert(q.drop_last() =~= ps.drop_last().insert(i, r));
        assert(q.last() == ps.last());
        lemma_insert_rule_scripts(ps.drop_last(), i, r, bd, ids, st);
    }
}

/// A rule written outside any `for` statement is passed over: inserting one
/// anywhere among the statements changes neither the number of fresh ids
/// drawn nor what is generated.
pub proof fn law_top_level_rules_are_passed_over(
    ps: Seq<ScriptView>,
    i: int,
    r: ScriptView,
    bd: CompiledDataView,
    uuid: Seq<char>,
    ids: Seq<Seq<char>>,
)
    requires
        0 <= i <= ps.len(),
        r is Rule,
    ensures
        ids_needed(ps.insert(i, r)) == ids_needed(ps),
        gen_spec(ps.insert(i, r), bd, uuid, ids) == gen_spec(ps, bd, uuid, ids),
{
    lemma_insert_rule_scripts(ps, i, r, bd, ids, (initial_project(uuid), 0));
}

proof fn lemma_insert_member(
    ms: Seq<ScriptView>,
    j: int,
    m: ScriptView,
    obj: Seq<char>,
    bd: CompiledDataView,
    ids: Seq<Seq<char>>,
    st: (ProjectView, int),
)
    requires
        0 <= j <= ms.len(),
        !(m is Rule),
    ensures
        gen_members(ms.insert(j, m), obj, bd, ids, st) == gen_members(ms, obj, bd, ids, st),
        rules_in(ms.insert(j, m)) == rules_in(ms),
    decreases ms.len(),
{
    let q = ms.insert(j, m);
    if j == ms.len() {
        assert(q.drop_last() =~= ms);
        assert(q.last() == m);
    } else {
        assert(q.drop_last() =~= ms.drop_last().insert(j, m));
        assert(q.last() == ms.last());
        lemma_insert_member(ms.drop_last(), j, m, obj, bd, ids, st);
    }
}

proof fn lemma_update_on_scripts(
    ps: Seq<ScriptView>,
    i: int,
    obj: Seq<char>,
    con: Seq<ScriptView>,
    j: int,
    m: ScriptView,
    bd: CompiledDataView,
    ids: Seq<Seq<char>>,
    st: (ProjectView, int),
)
    requires
        0 <= i < ps.len(),
        ps[i] == (ScriptView::On { obj, con }),
        0 <= j <= con.len(),
        !(m is Rule),
    ensures
        ({
            let q = ps.update(i, ScriptView::On { obj, con: con.insert(j, m) });
            &&& gen_scripts(q, bd, ids, st) == gen_scripts(ps, bd, ids, st)
            &&& ids_needed(q) == ids_needed(ps)
        }),
    decreases ps.len(),
{
    let x = ScriptView::On { obj, con: con.insert(j, m) };
    let q = ps.update(i, x);
    if i == ps.len() - 1 {
        assert(q.drop_last() =~= ps.drop_last());
        assert(q.last() == x);
        lemma_insert_member(con, j, m, obj, bd, ids, st);
        if let Ok(s2) = gen_scripts(ps.drop_last(), bd, ids, st) {
            lemma_insert_member(con, j, m, obj, bd, ids, s2);
        }
    } else {
        assert(q.drop_last() =~= ps.drop_last().update(i, x));
        assert(q.last() == ps.last());
        lemma_update_on_scripts(ps.drop_last(), i, obj, con, j, m, bd, ids, st);
    }
}

/// A definition or a `for` statement written inside a `for` statement is
/// passed over: inserting one anywhere in the body of a `for` changes neither
/// the number of fresh ids drawn nor what is generated.
pub proof fn law_nested_statements_are_passed_over(
    ps: Seq<ScriptView>,
    i: int,
    obj: Seq<char>,
    con: Seq<ScriptView>,
    j: int,
    m: ScriptView,
    bd: CompiledDataView,
    uuid: Seq<char>,
    ids: Seq<Seq<char>>,
)
    requires
        0 <= i < ps.len(),
        ps[i] == (ScriptView::On { obj, con }),
        0 <= j <= con.len(),
        !(m is Rule),
    ensures
        ({
            let q = ps.update(i, ScriptView::On { obj, con: con.insert(j, m) });
            &&& ids_needed(q) == ids_needed(ps)
            &&& gen_spec(q, bd, uuid, ids) == gen_spec(ps, bd, uuid, ids)
        }),
{
    lemma_update_on_scripts(ps, i, obj, con, j, m, bd, ids, (initial_project(uuid), 0));
}

/// The rules among the statements `ms` of a `for` body, in order.
pub open spec fn rules_only(ms: Seq<ScriptView>) -> Seq<ScriptView>
    decreases ms.len(),
{
    if ms.len() == 0 {
        Seq::empty()
    } else if ms.last() is Rule {
        rules_only(ms.drop_last()).push(ms.last())
    } else {
        rules_only(ms.drop_last())
    }
}

/// The statements `ps` without those the generator passes over: rules
/// outside any `for`, and whatever is not a rule inside a `for`.
pub open spec fn without_passed_over(ps: Seq<ScriptView>) -> Seq<ScriptView>
    decreases ps.len(),
{
    if ps.len() == 0 {
        Seq::empty()
    } else {
        let pre = without_passed_over(ps.drop_last());
        match ps.last() {
            ScriptView::Rule { .. } => pre,
            ScriptView::On { obj, con } => pre.push(ScriptView::On { obj, con: rules_only(con) }),
            other => pre.push(other),
        }
    }
}

proof fn lemma_rules_only(
    ms: Seq<ScriptView>,
    obj: Seq<char>,
    bd: CompiledDataView,
    ids: Seq<Seq<char>>,
    st: (ProjectView, int),
)
    ensures
        gen_members(rules_only(ms), obj, bd, ids, st) == gen_members(ms, obj, bd, ids, st),
        rules_in(rules_only(ms)) == rules_in(ms),
    decreases ms.len(),
{
    if ms.len() > 0 {
        lemma_rules_only(ms.drop_last(), obj, bd, ids, st);
        let r = rules_only(ms);
        if ms.last() is Rule {
            assert(r.drop_last() =~= rules_only(ms.drop_last()));
            assert(r.last() == ms.last());
        }
    }
}

proof fn lemma_without_passed_over(
    ps: Seq<ScriptView>,
    bd: CompiledDataView,
    ids: Seq<Seq<char>>,
    st: (ProjectView, int),
)
    ensures
        gen_scripts(without_passed_over(ps), bd, ids, st) == gen_scripts(ps, bd, ids, st),
        ids_needed(without_passed_over(ps)) == ids_needed(ps),
    decreases ps.len(),
{
    if ps.len() > 0 {
        lemma_without_passed_over(ps.drop_last(), bd, ids, st);
        let pre = without_passed_over(ps.drop_last());
        let w = without_passed_over(ps);
        match ps.last() {
            ScriptView::Rule { .. } => {},
            ScriptView::On { obj, con } => {
                assert(w.drop_last() =~= pre);
                lemma_rules_only(con, obj, bd, ids, st);
                if let Ok(s2) = gen_scripts(ps.drop_last(), bd, ids, st) {
                    lemma_rules_only(con, obj, bd, ids, s2);
                }
            },
            other => {
                assert(w.drop_last() =~= pre);
            },
        }
    }
}

/// Statements the generator passes over change nothing, however many are
/// inserted or removed: two programs that agree once rules outside any `for`
/// and everything but rules inside a `for` are left out draw the same number
/// of fresh ids and generate the same project from the same ids.
pub proof fn law_passed_over_statements_change_nothing(
    ps: Seq<ScriptView>,
    qs: Seq<ScriptView>,
    bd: CompiledDataView,
    uuid: Seq<char>,
    ids: Seq<Seq<char>>,
)
    requires
        without_passed_over(ps) == without_passed_over(qs),
    ensures
        ids_needed(ps) == ids_needed(qs),
        gen_spec(ps, bd, uuid, ids) == gen_spec(qs, bd, uuid, ids),
{
    lemma_without_passed_over(ps, bd, ids, (initial_project(uuid), 0));
    lemma_without_passed_over(qs, bd, ids, (initial_project(uuid), 0));
}

// ---------------------------------------------------------------------------
// What a block call becomes
// ---------------------------------------------------------------------------

/// `j` is the position of the first block (or rule) data named `n`.
pub open spec fn first_data_named(bs: Seq<BlockDataView>, n: Seq<char>, j: int) -> bool {
    &&& 0 <= j < bs.len()
    &&& bs[j].name == n
    &&& forall|k: int| 0 <= k < j ==> #[trigger] bs[k].name != n
}

/// `p` is the parameter that the argument `v`, of parameter type `pt`,
/// becomes: the value and datum that `v` resolves to, and type 57 for `num`,
/// 50 for `evt`, 0 for any other type.
pub open spec fn argument_parameter(p: ParamView, v: ValuesView, pt: Seq<char>, proj: ProjectView) -> bool {
    &&& transform_value(v, proj) is Ok
    &&& p.value == transform_value(v, proj)->Ok_0.value
    &&& p.datum == transform_value(v, proj)->Ok_0.datum
    &&& p.typ == (if pt == "num"@ {
        57i32
    } else if pt == "evt"@ {
        50i32
    } else {
        0i32
    })
    &&& p.default_value == Seq::<char>::empty()
    &&& p.key == Seq::<char>::empty()
    &&& p.variable is None
}

proof fn lemma_find_blockdata_first(bs: Seq<BlockDataView>, n: Seq<char>, k: int)
    requires
        0 <= k,
        forall|m: int| 0 <= m < k ==> #[trigger] bs[m].name != n,
    ensures
        find_blockdata_from(bs, n, k) matches Some(i) ==> first_data_named(bs, n, i),
        find_blockdata_from(bs, n, k) is None ==> forall|m: int|
            0 <= m < bs.len() ==> #[trigger] bs[m].name != n,
    decreases bs.len() - k,
{
    if 0 <= k < bs.len() && bs[k].name != n {
        lemma_find_blockdata_first(bs, n, k + 1);
    }
}

/// A block call `name(args)` appends one `method` block to the ability being
/// built, and changes nothing else of it: the block has the id and label of
/// the first block data named `name`, no control script, and one parameter
/// per argument, the `i`-th carrying the value and datum its argument
/// resolves to, typed by the `i`-th parameter type of the data. The call
/// fails with `BlockNotFound` exactly where no block data has that name.
pub proof fn law_block_call(
    c: BlockASTView,
    bd: CompiledDataView,
    ab: AbilityView,
    proj: ProjectView,
)
    requires
        c.typ == AstTypes::Block,
    ensures
        convert_block(c, bd, ab, proj) matches Ok(a) ==> exists|j: int|
            #[trigger] first_data_named(bd.blocks, c.name, j) && {
                &&& a.ability_id == ab.ability_id
                &&& a.name == ab.name
                &&& a.created_at == ab.created_at
                &&& a.blocks.len() == ab.blocks.len() + 1
                &&& a.blocks.drop_last() == ab.blocks
                &&& a.blocks.last().block_class == "method"@
                &&& a.blocks.last().typ == bd.blocks[j].id
                &&& a.blocks.last().description == bd.blocks[j].label
                &&& a.blocks.last().control_script is None
                &&& a.blocks.last().parameters is Some
                &&& a.blocks.last().parameters->0.len() == c.params.len()
                &&& forall|i: int|
                    0 <= i < c.params.len() ==> #[trigger] argument_parameter(
                        a.blocks.last().parameters->0[i],
                        c.params[i],
                        bd.blocks[j].parameters[i],
                        proj,
                    )
            },
        convert_block(c, bd, ab, proj) == Err::<AbilityView, GenError>(GenError::BlockNotFound)
            <== forall|m: int| 0 <= m < bd.blocks.len() ==> #[trigger] bd.blocks[m].name != c.name,
{
    lemma_find_blockdata_first(bd.blocks, c.name, 0);
    law_transform_values_elementwise(c.params, proj);
    if let Ok(a) = convert_block(c, bd, ab, proj) {
        let j = find_blockdata(bd.blocks, c.name)->0;
        let tr = transform_values(c.params, proj)->Ok_0;
        let ps = a.blocks.last().parameters->0;
        assert(a.blocks.drop_last() =~= ab.blocks);
        assert forall|i: int| 0 <= i < c.params.len() implies #[trigger] argument_parameter(
            ps[i],
            c.params[i],
            bd.blocks[j].parameters[i],
            proj,
        ) by {
            assert(transform_value(c.params[i], proj) == Ok::<ValueView, GenError>(tr[i]));
        }
        assert(first_data_named(bd.blocks, c.name, j));
    }
}

// ---------------------------------------------------------------------------
// Every thing gets its own id
// ---------------------------------------------------------------------------

/// The ids of the variables of `p`, in order.
pub open spec fn variable_ids(p: ProjectView) -> Seq<Seq<char>> {
    p.variables.map_values(|v: VariableView| v.object_id_string)
}

/// The ids of the objects of `p`, in order.
pub open spec fn object_ids(p: ProjectView) -> Seq<Seq<char>> {
    p.objects.map_values(|o: ObjectView| o.id)
}

/// The ids of the event parameters of `p`, in order.
pub open spec fn event_ids(p: ProjectView) -> Seq<Seq<char>> {
    p.event_params.map_values(|e: EventParamView| e.id)
}

/// The ids of the abilities of `p`, in order.
pub open spec fn ability_ids(p: ProjectView) -> Seq<Seq<char>> {
    p.abilities.map_values(|a: AbilityView| a.ability_id)
}

/// The ids of the rules of `p`, in order.
pub open spec fn rule_ids(p: ProjectView) -> Seq<Seq<char>> {
    p.rules.map_values(|r: RuleView| r.id)
}

/// None of `xs` is one of the ids from position `k` on.
pub open spec fn none_from(xs: Seq<Seq<char>>, ids: Seq<Seq<char>>, k: int) -> bool {
    forall|a: int, m: int| 0 <= a < xs.len() && k <= m < ids.len() ==> #[trigger] xs[a] != #[trigger] ids[m]
}

pub open spec fn kept_apart(xs: Seq<Seq<char>>, ids: Seq<Seq<char>>, k: int) -> bool {
    distinct_ids(xs) && none_from(xs, ids, k)
}

/// Each kind of id of `p` is kept apart, and none is drawn from `k` on.
pub open spec fn ids_apart(p: ProjectView, ids: Seq<Seq<char>>, k: int) -> bool {
    &&& kept_apart(variable_ids(p), ids, k)
    &&& kept_apart(object_ids(p), ids, k)
    &&& kept_apart(event_ids(p), ids, k)
    &&& kept_apart(ability_ids(p), ids, k)
    &&& kept_apart(rule_ids(p), ids, k)
}

proof fn lemma_apart_push(xs: Seq<Seq<char>>, ids: Seq<Seq<char>>, k: int)
    requires
        kept_apart(xs, ids, k),
        distinct_ids(ids),
        0 <= k < ids.len(),
    ensures
        kept_apart(xs.push(ids[k]), ids, k + 1),
{
    let ys = xs.push(ids[k]);
    assert forall|a: int, b: int| 0 <= a < b < ys.len() implies #[trigger] ys[a] != #[trigger] ys[b] by {
        if b == xs.len() {
            assert(xs[a] != ids[k]);
        } else {
            assert(xs[a] != xs[b]);
        }
    }
    assert forall|a: int, m: int| 0 <= a < ys.len() && k + 1 <= m < ids.len() implies #[trigger] ys[a]
        != #[trigger] ids[m] by {
        if a == xs.len() {
            assert(ids[k] != ids[m]);
        } else {
            assert(xs[a] != ids[m]);
        }
    }
}

proof fn lemma_apart_later(xs: Seq<Seq<char>>, ids: Seq<Seq<char>>, k: int, k2: int)
    requires
        kept_apart(xs, ids, k),
        k <= k2,
    ensures
        kept_apart(xs, ids, k2),
{
    assert forall|a: int, m: int| 0 <= a < xs.len() && k2 <= m < ids.len() implies #[trigger] xs[a]
        != #[trigger] ids[m] by {
        assert(xs[a] != ids[m]);
    }
}

proof fn lemma_ids_apart_later(p: ProjectView, ids: Seq<Seq<char>>, k: int, k2: int)
    requires
        ids_apart(p, ids, k),
        k <= k2,
    ensures
        ids_apart(p, ids, k2),
{
    lemma_apart_later(variable_ids(p), ids, k, k2);
    lemma_apart_later(object_ids(p), ids, k, k2);
    lemma_apart_later(event_ids(p), ids, k, k2);
    lemma_apart_later(ability_ids(p), ids, k, k2);
    lemma_apart_later(rule_ids(p), ids, k, k2);
}

proof fn lemma_apart_gen_rule(
    obj: Seq<char>,
    name: Seq<char>,
    blocks: Seq<BlockASTView>,
    params: Seq<ValuesView>,
    bd: CompiledDataView,
    ids: Seq<Seq<char>>,
    st: (ProjectView, int),
)
    requires
        ids_apart(st.0, ids, st.1),
        distinct_ids(ids),
        0 <= st.1,
        st.1 + 2 <= ids.len(),
    ensures
        gen_rule(obj, name, blocks, params, bd, ids, st) matches Ok((q, k2)) ==> ids_apart(q, ids, k2),
{
    let (p, k) = st;
    if let Ok((q, k2)) = gen_rule(obj, name, blocks, params, bd, ids, st) {
        let ab0 = AbilityView { ability_id: ids[k], blocks: Seq::empty(), created_at: 0, name: None };
        lemma_convert_blocks_keeps_id(blocks, bd, ab0, p);
        let ob = find_object(p.objects, obj)->0;
        lemma_find_object_from(p.objects, obj, 0);
        assert(variable_ids(q) =~= variable_ids(p));
        assert(object_ids(q) =~= object_ids(p));
        assert(event_ids(q) =~= event_ids(p));
        assert(ability_ids(q) =~= ability_ids(p).push(ids[k]));
        assert(rule_ids(q) =~= rule_ids(p).push(ids[k + 1]));
        lemma_apart_later(variable_ids(p), ids, k, k + 2);
        lemma_apart_later(object_ids(p), ids, k, k + 2);
        lemma_apart_later(event_ids(p), ids, k, k + 2);
        lemma_apart_push(ability_ids(p), ids, k);
        lemma_apart_later(ability_ids(q), ids, k + 1, k + 2);
        lemma_apart_later(rule_ids(p), ids, k, k + 1);
        lemma_apart_push(rule_ids(p), ids, k + 1);
    }
}

proof fn lemma_apart_gen_members(
    ms: Seq<ScriptView>,
    obj: Seq<char>,
    bd: CompiledDataView,
    ids: Seq<Seq<char>>,
    st: (ProjectView, int),
)
    requires
        ids_apart(st.0, ids, st.1),
        distinct_ids(ids),
        0 <= st.1,
        st.1 + 2 * rules_in(ms) <= ids.len(),
    ensures
        gen_members(ms, obj, bd, ids, st) matches Ok((q, k2)) ==> ids_apart(q, ids, k2),
    decreases ms.len(),
{
    if ms.len() > 0 {
        lemma_apart_gen_members(ms.drop_last(), obj, bd, ids, st);
        lemma_gen_members_counts(ms.drop_last(), obj, bd, ids, st);
        if let Ok(s2) = gen_members(ms.drop_last(), obj, bd, ids, st) {
            match ms.last() {
                ScriptView::Rule { name, con, params } => {
                    lemma_apart_gen_rule(obj, name, con, params, bd, ids, s2);
                },
                _ => {},
            }
        }
    }
}

proof fn lemma_apart_gen_script(
    sc: ScriptView,
    bd: CompiledDataView,
    ids: Seq<Seq<char>>,
    st: (ProjectView, int),
)
    requires
        ids_apart(st.0, ids, st.1),
        distinct_ids(ids),
        0 <= st.1,
        st.1 + script_ids(sc) <= ids.len(),
    ensures
        gen_script(sc, bd, ids, st) matches Ok((q, k2)) ==> ids_apart(q, ids, k2),
{
    let (p, k) = st;
    if let Ok((q, k2)) = gen_script(sc, bd, ids, st) {
        match sc {
            ScriptView::Define { typ, name } => match typ {
                DefineTypesView::Variable(code) => {
                    assert(variable_ids(q) =~= variable_ids(p).push(ids[k]));
                    assert(object_ids(q) =~= object_ids(p));
                    assert(event_ids(q) =~= event_ids(p));
                    assert(ability_ids(q) =~= ability_ids(p));
                    assert(rule_ids(q) =~= rule_ids(p));
                    lemma_ids_apart_later(p, ids, k, k + 1);
                    lemma_apart_push(variable_ids(p), ids, k);
                },
                DefineTypesView::Object(t) => {
                    assert(variable_ids(q) =~= variable_ids(p));
                    assert(object_ids(q) =~= object_ids(p).push(ids[k]));
                    assert(event_ids(q) =~= event_ids(p).push(ids[k + 1]));
                    assert(ability_ids(q) =~= ability_ids(p));
                    assert(rule_ids(q) =~= rule_ids(p));
                    lemma_ids_apart_later(p, ids, k, k + 2);
                    lemma_apart_push(object_ids(p), ids, k);
                    lemma_apart_later(object_ids(q), ids, k + 1, k + 2);
                    lemma_apart_later(event_ids(p), ids, k, k + 1);
                    lemma_apart_push(event_ids(p), ids, k + 1);
                },
                DefineTypesView::Ability(bs) => {
                    let blocks = match bs {
                        Some(b) => b,
                        None => Seq::empty(),
                    };
                    let ab0 = AbilityView {
                        ability_id: ids[k],
                        blocks: Seq::empty(),
                        created_at: 0,
                        name: Some(name),
                    };
                    lemma_convert_blocks_keeps_id(blocks, bd, ab0, p);
                    assert(variable_ids(q) =~= variable_ids(p));
                    assert(object_ids(q) =~= object_ids(p));
                    assert(event_ids(q) =~= event_ids(p));
                    assert(ability_ids(q) =~= ability_ids(p).push(ids[k]));
                    assert(rule_ids(q) =~= rule_ids(p));
                    lemma_ids_apart_later(p, ids, k, k + 1);
                    lemma_apart_push(ability_ids(p), ids, k);
                },
            },
            ScriptView::On { obj, con } => {
                lemma_apart_gen_members(con, obj, bd, ids, st);
            },
            ScriptView::Rule { .. } => {},
        }
    }
}

proof fn lemma_apart_gen_scripts(
    ps: Seq<ScriptView>,
    bd: CompiledDataView,
    ids: Seq<Seq<char>>,
    st: (ProjectView, int),
)
    requires
        ids_apart(st.0, ids, st.1),
        distinct_ids(ids),
        0 <= st.1,
        st.1 + ids_needed(ps) <= ids.len(),
    ensures
        gen_scripts(ps, bd, ids, st) matches Ok((q, k2)) ==> ids_apart(q, ids, k2),
    decreases ps.len(),
{
    if ps.len() > 0 {
        lemma_apart_gen_scripts(ps.drop_last(), bd, ids, st);
        lemma_gen_scripts_counts(ps.drop_last(), bd, ids, st);
        lemma_ids_needed_counts(ps.drop_last());
        if let Ok(s2) = gen_scripts(ps.drop_last(), bd, ids, st) {
            lemma_apart_gen_script(ps.last(), bd, ids, s2);
        }
    }
}

/// Every thing gets an id of its own: in a project generated with fresh
/// ids (no two alike), no two variables, no two objects, no two event
/// parameters, no two abilities and no two rules share an id.
pub proof fn law_generated_ids_apart(
    ps: Seq<ScriptView>,
    bd: CompiledDataView,
    uuid: Seq<char>,
    ids: Seq<Seq<char>>,
)
    requires
        fresh_ids(ids, ids_needed(ps)),
        gen_spec(ps, bd, uuid, ids) is Ok,
    ensures
        ({
            let p = gen_spec(ps, bd, uuid, ids)->Ok_0;
            &&& distinct_ids(p.variables.map_values(|v: VariableView| v.object_id_string))
            &&& distinct_ids(p.objects.map_values(|o: ObjectView| o.id))
            &&& distinct_ids(p.event_params.map_values(|e: EventParamView| e.id))
            &&& distinct_ids(p.abilities.map_values(|a: AbilityView| a.ability_id))
            &&& distinct_ids(p.rules.map_values(|r: RuleView| r.id))
        }),
{
    let p0 = initial_project(uuid);
    assert(variable_ids(p0) =~= Seq::<Seq<char>>::empty());
    assert(object_ids(p0) =~= Seq::<Seq<char>>::empty());
    assert(event_ids(p0) =~= Seq::<Seq<char>>::empty());
    assert(ability_ids(p0) =~= Seq::<Seq<char>>::empty());
    assert(rule_ids(p0) =~= Seq::<Seq<char>>::empty());
    lemma_apart_gen_scripts(ps, bd, ids, (p0, 0));
}

// ---------------------------------------------------------------------------
// What triggers a rule
// ---------------------------------------------------------------------------

/// `k` is the position of the first event parameter of `evs` for the object
/// with id `v`; every one before it names an object, another one.
pub open spec fn first_event_for(evs: Seq<EventParamView>, v: Seq<char>, k: int) -> bool {
    &&& 0 <= k < evs.len()
    &&& evs[k].object_id == Some(v)
    &&& forall|m: int| 0 <= m < k ==> (#[trigger] evs[m].object_id) is Some && evs[m].object_id != Some(v)
}

/// `p` is the parameter that the resolved argument `x`, of parameter type
/// `pt`, becomes in a rule: the value and datum of `x`, type 57 for `num`,
/// 50 for `evt`, 0 for any other type; an `evt` argument names the event
/// parameter of the object it holds, any other names none.
pub open spec fn rule_argument(p: ParamView, x: ValueView, pt: Seq<char>, evs: Seq<EventParamView>) -> bool {
    &&& p.value == x.value
    &&& p.datum == x.datum
    &&& p.typ == (if pt == "num"@ {
        57i32
    } else if pt == "evt"@ {
        50i32
    } else {
        0i32
    })
    &&& p.default_value == Seq::<char>::empty()
    &&& p.key == Seq::<char>::empty()
    &&& (pt == "evt"@ ==> exists|k: int| #[trigger] first_event_for(evs, x.value, k) && p.variable == Some(evs[k].id))
    &&& (pt != "evt"@ ==> p.variable is None)
}

proof fn lemma_find_event_first(evs: Seq<EventParamView>, v: Seq<char>, k: int)
    requires
        0 <= k,
        forall|m: int| 0 <= m < k ==> (#[trigger] evs[m].object_id) is Some && evs[m].object_id != Some(v),
    ensures
        find_event_from(evs, v, k) matches Ok(i) ==> first_event_for(evs, v, i),
    decreases evs.len() - k,
{
    if 0 <= k < evs.len() && evs[k].object_id is Some && evs[k].object_id != Some(v) {
        lemma_find_event_first(evs, v, k + 1);
    }
}

proof fn lemma_rule_params(tr: Seq<ValueView>, pts: Seq<Seq<char>>, evs: Seq<EventParamView>)
    ensures
        rule_params(tr, pts, evs) matches Ok(ps) ==> {
            &&& ps.len() == tr.len()
            &&& tr.len() <= pts.len()
            &&& forall|i: int| 0 <= i < tr.len() ==> #[trigger] rule_argument(ps[i], tr[i], pts[i], evs)
        },
    decreases tr.len(),
{
    if tr.len() > 0 {
        lemma_rule_params(tr.drop_last(), pts, evs);
        if let Ok(ps) = rule_params(tr, pts, evs) {
            let i0 = tr.len() - 1;
            let r = rule_params(tr.drop_last(), pts, evs)->Ok_0;
            lemma_find_event_first(evs, tr[i0].value, 0);
            assert forall|i: int| 0 <= i < tr.len() implies #[trigger] rule_argument(ps[i], tr[i], pts[i], evs) by {
                if i < i0 {
                    assert(ps[i] == r[i]);
                    assert(tr.drop_last()[i] == tr[i]);
                    assert(rule_argument(r[i], tr.drop_last()[i], pts[i], evs));
                } else {
                    if pts[i0] == "evt"@ {
                        let k = find_event_from(evs, tr[i0].value, 0)->Ok_0;
                        assert(first_event_for(evs, tr[i0].value, k));
                    }
                }
            }
        }
    }
}

/// What triggers a rule. A rule other than `cond` is an `operator` datum of
/// the first rule data of its name: its type is that data's id, and it has
/// one parameter per resolved argument, each carrying the argument's value
/// and datum, typed by the data's parameter types, and an `evt` argument
/// naming the event parameter of the object it holds. A `cond` rule is
/// triggered by the datum of its first argument.
pub proof fn law_rule_trigger(name: Seq<char>, tr: Seq<ValueView>, bd: CompiledDataView, proj: ProjectView)
    ensures
        name != "cond"@ ==> (rule_datum(name, tr, bd, proj) matches Ok(d) ==> exists|j: int|
            #[trigger] first_data_named(bd.rules, name, j) && {
                &&& d.typ == bd.rules[j].id
                &&& d.block_class == Some("operator"@)
                &&& d.variable is None
                &&& d.object is None
                &&& d.params is Some
                &&& d.params->0.len() == tr.len()
                &&& forall|i: int|
                    0 <= i < tr.len() ==> #[trigger] rule_argument(
                        d.params->0[i],
                        tr[i],
                        bd.rules[j].parameters[i],
                        proj.event_params,
                    )
            }),
        name == "cond"@ ==> (rule_datum(name, tr, bd, proj) matches Ok(d) ==> tr.len() > 0
            && tr[0].datum == Some(d)),
        name == "cond"@ && tr.len() == 0 ==> rule_datum(name, tr, bd, proj) == Err::<
            crate::types::DatumView,
            GenError,
        >(GenError::MissingCondition),
{
    lemma_find_blockdata_first(bd.rules, name, 0);
    if name != "cond"@ {
        if let Some(j) = find_blockdata(bd.rules, name) {
            lemma_rule_params(tr, bd.rules[j].parameters, proj.event_params);
        }
    }
}

// ---------------------------------------------------------------------------
// What each definition adds
// ---------------------------------------------------------------------------

proof fn lemma_find_objdata_first(os: Seq<ObjectDataView>, n: Seq<char>, k: int)
    requires
        0 <= k,
        forall|m: int| 0 <= m < k ==> #[trigger] os[m].name != n,
    ensures
        find_objdata_from(os, n, k) matches Some(i) ==> 0 <= i < os.len() && os[i].name == n
            && forall|m: int| 0 <= m < i ==> #[trigger] os[m].name != n,
        find_objdata_from(os, n, k) is None ==> forall|m: int|
            0 <= m < os.len() ==> #[trigger] os[m].name != n,
    decreases os.len() - k,
{
    if 0 <= k < os.len() && os[k].name != n {
        lemma_find_objdata_first(os, n, k + 1);
    }
}

/// A variable definition adds one variable, of its name, of type
/// `8000 + code` and with the next fresh id, and changes nothing else.
pub proof fn law_variable_definition(
    name: Seq<char>,
    code: i32,
    bd: CompiledDataView,
    ids: Seq<Seq<char>>,
    p: ProjectView,
    k: int,
)
    ensures
        gen_script(
            ScriptView::Define { typ: DefineTypesView::Variable(code), name },
            bd,
            ids,
            (p, k),
        ) matches Ok((q, k2)) ==> {
            &&& k2 == k + 1
            &&& 8000 + code <= i32::MAX
            &&& q.variables == p.variables.push(
                VariableView { name, typ: (8000 + code) as i32, object_id_string: ids[k] },
            )
            &&& q.objects == p.objects && q.rules == p.rules && q.abilities == p.abilities
            &&& q.scenes == p.scenes && q.event_params == p.event_params && q.uuid == p.uuid
        },
{
}

/// An object definition `object "name" = objects.TYPE` adds one object, of
/// its name, of the type id of the first object data named `TYPE`, at
/// (10, 10), with no file and no rules, and the next fresh id; the scene
/// shows it last; and an event parameter described by its name, of block
/// type 8000, for that object, with the fresh id after. Nothing else
/// changes. Without object data of that name it fails with
/// `ObjectTypeNotFound`.
pub proof fn law_object_definition(
    name: Seq<char>,
    t: Seq<char>,
    bd: CompiledDataView,
    ids: Seq<Seq<char>>,
    p: ProjectView,
    k: int,
)
    requires
        p.scenes.len() > 0,
    ensures
        gen_script(ScriptView::Define { typ: DefineTypesView::Object(t), name }, bd, ids, (p, k))
            matches Ok((q, k2)) ==> exists|f: int|
            0 <= f < bd.obj.len() && bd.obj[f].name == t && (forall|m: int|
                0 <= m < f ==> #[trigger] bd.obj[m].name != t) && {
                &&& k2 == k + 2
                &&& q.objects == p.objects.push(
                    ObjectView {
                        name,
                        typ: bd.obj[f].id,
                        filename: Seq::empty(),
                        id: ids[k],
                        rules: Seq::empty(),
                        x: 10,
                        y: 10,
                    },
                )
                &&& q.scenes.len() == p.scenes.len()
                &&& q.scenes[0].name == p.scenes[0].name
                &&& q.scenes[0].objects == p.scenes[0].objects.push(ids[k])
                &&& q.event_params == p.event_params.push(
                    EventParamView {
                        id: ids[k + 1],
                        description: name,
                        block_type: 8000,
                        object_id: Some(ids[k]),
                    },
                )
                &&& q.variables == p.variables && q.rules == p.rules && q.abilities == p.abilities
                &&& q.uuid == p.uuid
            },
        (forall|m: int| 0 <= m < bd.obj.len() ==> #[trigger] bd.obj[m].name != t) ==> gen_script(
            ScriptView::Define { typ: DefineTypesView::Object(t), name },
            bd,
            ids,
            (p, k),
        ) == Err::<(ProjectView, int), GenError>(GenError::ObjectTypeNotFound),
{
    lemma_find_objdata_first(bd.obj, t, 0);
}

/// An ability definition adds one ability, named as defined, created at 0,
/// with the next fresh id and the blocks of its calls in order; nothing
/// else changes.
pub proof fn law_ability_definition(
    name: Seq<char>,
    bs: Option<Seq<BlockASTView>>,
    bd: CompiledDataView,
    ids: Seq<Seq<char>>,
    p: ProjectView,
    k: int,
)
    ensures
        gen_script(ScriptView::Define { typ: DefineTypesView::Ability(bs), name }, bd, ids, (p, k))
            matches Ok((q, k2)) ==> {
            &&& k2 == k + 1
            &&& q.abilities.len() == p.abilities.len() + 1
            &&& q.abilities.drop_last() == p.abilities
            &&& q.abilities.last().ability_id == ids[k]
            &&& q.abilities.last().name == Some(name)
            &&& q.abilities.last().created_at == 0
            &&& q.abilities.last().blocks.len() == (match bs {
                Some(b) => b.len(),
                None => 0,
            })
            &&& q.variables == p.variables && q.objects == p.objects && q.rules == p.rules
            &&& q.scenes == p.scenes && q.event_params == p.event_params && q.uuid == p.uuid
        },
{
    let blocks = match bs {
        Some(b) => b,
        None => Seq::empty(),
    };
    let ab0 = AbilityView { ability_id: ids[k], blocks: Seq::empty(), created_at: 0, name: Some(name) };
    lemma_convert_blocks_shape(blocks, bd, ab0, p);
    if let Ok((q, _)) = gen_script(ScriptView::Define { typ: DefineTypesView::Ability(bs), name }, bd, ids, (p, k)) {
        assert(q.abilities.drop_last() =~= p.abilities);
    }
}

proof fn lemma_convert_blocks_shape(
    cs: Seq<BlockASTView>,
    bd: CompiledDataView,
    ab: AbilityView,
    proj: ProjectView,
)
    requires
        ab.name is Some,
    ensures
        convert_blocks(cs, bd, ab, proj) matches Ok(a) ==> a.ability_id == ab.ability_id && a.name
            == ab.name && a.created_at == ab.created_at && a.blocks.len() == ab.blocks.len()
            + cs.len(),
    decreases cs.len(),
{
    if cs.len() > 0 {
        lemma_convert_blocks_shape(cs.drop_last(), bd, ab, proj);
    }
}

} // verus!
