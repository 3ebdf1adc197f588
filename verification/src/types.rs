//! The data of the compiler: the parsed scripts, the block and object data
//! they are resolved against, and the Hopscotch project that is produced.
//!
//! Every type has a view in which each `String` is its sequence of characters
//! and each `Vec` its sequence of element views; the contracts speak of views.
use vstd::prelude::*;

verus! {

// ---------------------------------------------------------------------------
// Views of strings and containers
// ---------------------------------------------------------------------------

pub open spec fn opt_str_view(o: Option<String>) -> Option<Seq<char>> {
    match o {
        Some(s) => Some(s@),
        None => None,
    }
}

pub open spec fn strs_view(v: Seq<String>) -> Seq<Seq<char>> {
    v.map_values(|s: String| s@)
}

// ---------------------------------------------------------------------------
// The project
// ---------------------------------------------------------------------------

/// A whole Hopscotch project.
#[derive(Debug)]
pub struct Project {
    pub variables: Vec<Variable>,
    pub uuid: String,
    pub objects: Vec<Object>,
    pub rules: Vec<Rule>,
    pub abilities: Vec<Ability>,
    pub scenes: Vec<Scene>,
    pub event_params: Vec<EventParam>,
}

/// An event parameter: the handle by which rules refer to an object.
#[derive(Debug)]
pub struct EventParam {
    pub id: String,
    pub description: String,
    pub block_type: i32,
    pub object_id: Option<String>,
}

/// A scene and the ids of the objects shown in it.
#[derive(Debug)]
pub struct Scene {
    pub name: String,
    pub objects: Vec<String>,
}

/// A game variable.
#[derive(Debug)]
pub struct Variable {
    pub name: String,
    pub typ: i32,
    pub object_id_string: String,
}

/// An object of the project, with the ids of its rules.
#[derive(Debug)]
pub struct Object {
    pub name: String,
    pub typ: i32,
    pub filename: String,
    pub id: String,
    pub rules: Vec<String>,
    pub x: i32,
    pub y: i32,
}

/// A rule: when its parameter holds, the ability it names runs for the object.
#[derive(Debug)]
pub struct Rule {
    pub rule_block_type: i32,
    pub object_id: String,
    pub id: String,
    pub ability_id: String,
    pub params: Vec<Param>,
}

/// A parameter of a block or a rule.
#[derive(Debug)]
pub struct Param {
    pub value: String,
    pub typ: i32,
    pub default_value: String,
    pub key: String,
    pub datum: Option<Datum>,
    pub variable: Option<String>,
}

/// The computed content of a parameter: a variable reference or an operator.
#[derive(Debug)]
pub struct Datum {
    pub typ: i32,
    pub block_class: Option<String>,
    pub params: Option<Vec<Param>>,
    pub variable: Option<String>,
    pub object: Option<String>,
}

/// An ability: a list of blocks.
#[derive(Debug)]
pub struct Ability {
    pub ability_id: String,
    pub blocks: Vec<Block>,
    pub created_at: i32,
    pub name: Option<String>,
}

/// The ability that a control block runs.
#[derive(Debug)]
pub struct ControlScript {
    pub ability_id: String,
}

/// A block of an ability.
#[derive(Debug)]
pub struct Block {
    pub block_class: String,
    pub typ: i32,
    pub description: String,
    pub parameters: Option<Vec<Param>>,
    pub control_script: Option<ControlScript>,
}

// ---- their views ----

pub struct ProjectView {
    pub variables: Seq<VariableView>,
    pub uuid: Seq<char>,
    pub objects: Seq<ObjectView>,
    pub rules: Seq<RuleView>,
    pub abilities: Seq<AbilityView>,
    pub scenes: Seq<SceneView>,
    pub event_params: Seq<EventParamView>,
}

pub struct EventParamView {
    pub id: Seq<char>,
    pub description: Seq<char>,
    pub block_type: i32,
    pub object_id: Option<Seq<char>>,
}

pub struct SceneView {
    pub name: Seq<char>,
    pub objects: Seq<Seq<char>>,
}

pub struct VariableView {
    pub name: Seq<char>,
    pub typ: i32,
    pub object_id_string: Seq<char>,
}

pub struct ObjectView {
    pub name: Seq<char>,
    pub typ: i32,
    pub filename: Seq<char>,
    pub id: Seq<char>,
    pub rules: Seq<Seq<char>>,
    pub x: i32,
    pub y: i32,
}

pub struct RuleView {
    pub rule_block_type: i32,
    pub object_id: Seq<char>,
    pub id: Seq<char>,
    pub ability_id: Seq<char>,
    pub params: Seq<ParamView>,
}

pub struct ParamView {
    pub value: Seq<char>,
    pub typ: i32,
    pub default_value: Seq<char>,
    pub key: Seq<char>,
    pub datum: Option<DatumView>,
    pub variable: Option<Seq<char>>,
}

pub struct DatumView {
    pub typ: i32,
    pub block_class: Option<Seq<char>>,
    pub params: Option<Seq<ParamView>>,
    pub variable: Option<Seq<char>>,
    pub object: Option<Seq<char>>,
}

pub struct AbilityView {
    pub ability_id: Seq<char>,
    pub blocks: Seq<BlockView>,
    pub created_at: i32,
    pub name: Option<Seq<char>>,
}

pub struct BlockView {
    pub block_class: Seq<char>,
    pub typ: i32,
    pub description: Seq<char>,
    pub parameters: Option<Seq<ParamView>>,
    pub control_script: Option<Seq<char>>,
}

pub open spec fn datum_view(d: Datum) -> DatumView
    decreases d, 1int,
{
    DatumView {
        typ: d.typ,
        block_class: opt_str_view(d.block_class),
        params: match d.params {
            Some(ps) => Some(params_view(ps@)),
            None => None,
        },
        variable: opt_str_view(d.variable),
        object: opt_str_view(d.object),
    }
}

pub open spec fn params_view(ps: Seq<Param>) -> Seq<ParamView>
    decreases ps, 0int,
{
    if ps.len() == 0 {
        Seq::empty()
    } else {
        seq![param_view(ps[0])] + params_view(ps.drop_first())
    }
}

pub open spec fn param_view(p: Param) -> ParamView
    decreases p, 2int,
{
    ParamView {
        value: p.value@,
        typ: p.typ,
        default_value: p.default_value@,
        key: p.key@,
        datum: match p.datum {
            Some(d) => Some(datum_view(d)),
            None => None,
        },
        variable: opt_str_view(p.variable),
    }
}

pub open spec fn opt_datum_view(o: Option<Datum>) -> Option<DatumView> {
    match o {
        Some(d) => Some(datum_view(d)),
        None => None,
    }
}

pub open spec fn opt_params_view(o: Option<Vec<Param>>) -> Option<Seq<ParamView>> {
    match o {
        Some(ps) => Some(params_view(ps@)),
        None => None,
    }
}

/// `params_view` is the element-wise view.
pub proof fn lemma_params_view(ps: Seq<Param>)
    ensures
        params_view(ps).len() == ps.len(),
        forall|i: int| 0 <= i < ps.len() ==> #[trigger] params_view(ps)[i] == param_view(ps[i]),
    decreases ps.len(),
{
    if ps.len() > 0 {
        lemma_params_view(ps.drop_first());
        assert forall|i: int| 0 <= i < ps.len() implies #[trigger] params_view(ps)[i] == param_view(
            ps[i],
        ) by {
            if i > 0 {
                assert(ps.drop_first()[i - 1] == ps[i]);
            }
        }
    }
}

/// The view of a pushed sequence of parameters.
pub proof fn lemma_params_view_push(ps: Seq<Param>, p: Param)
    ensures
        params_view(ps.push(p)) == params_view(ps).push(param_view(p)),
{
    lemma_params_view(ps);
    lemma_params_view(ps.push(p));
    assert(params_view(ps.push(p)) =~= params_view(ps).push(param_view(p)));
}

impl View for Param {
    type V = ParamView;

    open spec fn view(&self) -> ParamView {
        param_view(*self)
    }
}

impl View for Datum {
    type V = DatumView;

    open spec fn view(&self) -> DatumView {
        datum_view(*self)
    }
}

impl View for EventParam {
    type V = EventParamView;

    open spec fn view(&self) -> EventParamView {
        EventParamView {
            id: self.id@,
            description: self.description@,
            block_type: self.block_type,
            object_id: opt_str_view(self.object_id),
        }
    }
}

impl View for Scene {
    type V = SceneView;

    open spec fn view(&self) -> SceneView {
        SceneView { name: self.name@, objects: strs_view(self.objects@) }
    }
}

impl View for Variable {
    type V = VariableView;

    open spec fn view(&self) -> VariableView {
        VariableView {
            name: self.name@,
            typ: self.typ,
            object_id_string: self.object_id_string@,
        }
    }
}

impl View for Object {
    type V = ObjectView;

    open spec fn view(&self) -> ObjectView {
        ObjectView {
            name: self.name@,
            typ: self.typ,
            filename: self.filename@,
            id: self.id@,
            rules: strs_view(self.rules@),
            x: self.x,
            y: self.y,
        }
    }
}

impl View for Rule {
    type V = RuleView;

    open spec fn view(&self) -> RuleView {
        RuleView {
            rule_block_type: self.rule_block_type,
            object_id: self.object_id@,
            id: self.id@,
            ability_id: self.ability_id@,
            params: params_view(self.params@),
        }
    }
}

impl View for Block {
    type V = BlockView;

    open spec fn view(&self) -> BlockView {
        BlockView {
            block_class: self.block_class@,
            typ: self.typ,
            description: self.description@,
            parameters: opt_params_view(self.parameters),
            control_script: match self.control_script {
                Some(c) => Some(c.ability_id@),
                None => None,
            },
        }
    }
}

impl View for Ability {
    type V = AbilityView;

    open spec fn view(&self) -> AbilityView {
        AbilityView {
            ability_id: self.ability_id@,
            blocks: self.blocks@.map_values(|b: Block| b@),
            created_at: self.created_at,
            name: opt_str_view(self.name),
        }
    }
}

impl View for Project {
    type V = ProjectView;

    open spec fn view(&self) -> ProjectView {
        ProjectView {
            variables: self.variables@.map_values(|v: Variable| v@),
            uuid: self.uuid@,
            objects: self.objects@.map_values(|o: Object| o@),
            rules: self.rules@.map_values(|r: Rule| r@),
            abilities: self.abilities@.map_values(|a: Ability| a@),
            scenes: self.scenes@.map_values(|s: Scene| s@),
            event_params: self.event_params@.map_values(|e: EventParam| e@),
        }
    }
}

// ---------------------------------------------------------------------------
// The parsed program
// ---------------------------------------------------------------------------

/// What a `define` introduces.
#[derive(Debug)]
pub enum DefineTypes {
    /// An object of the given object type.
    Object(String),
    /// A variable; the number is its code.
    Variable(i32),
    /// A custom ability with its blocks.
    Ability(Option<Vec<BlockAST>>),
}

/// A block call in the source: a plain block, or a call of an ability.
#[derive(Debug)]
pub struct BlockAST {
    pub name: String,
    pub params: Vec<Values>,
    pub typ: AstTypes,
}

/// A parameter as written in the source.
#[derive(Debug)]
pub enum Values {
    Object(String),
    Str(String),
    Variable(String, i32),
    ObjectVariable(String, String),
    Conditional(Box<Values>, String, Box<Values>),
}

/// Which kind of call a `BlockAST` is.
#[derive(Debug, PartialEq, Eq, Structural)]
pub enum AstTypes {
    Block,
    Ability,
}

/// A resolved parameter value.
#[derive(Debug)]
pub struct Value {
    pub value: String,
    pub datum: Option<Datum>,
}

/// A top-level or nested statement of the source.
#[allow(inconsistent_fields)]
#[derive(Debug)]
pub enum Script {
    Define { typ: DefineTypes, name: String },
    On { obj: String, con: Vec<Script> },
    Rule { name: String, con: Vec<BlockAST>, params: Vec<Values> },
}

// ---- their views ----

pub enum ValuesView {
    Object(Seq<char>),
    Str(Seq<char>),
    Variable(Seq<char>, i32),
    ObjectVariable(Seq<char>, Seq<char>),
    Conditional(Box<ValuesView>, Seq<char>, Box<ValuesView>),
}

pub struct BlockASTView {
    pub name: Seq<char>,
    pub params: Seq<ValuesView>,
    pub typ: AstTypes,
}

pub enum DefineTypesView {
    Object(Seq<char>),
    Variable(i32),
    Ability(Option<Seq<BlockASTView>>),
}

#[allow(inconsistent_fields)]
pub enum ScriptView {
    Define { typ: DefineTypesView, name: Seq<char> },
    On { obj: Seq<char>, con: Seq<ScriptView> },
    Rule { name: Seq<char>, con: Seq<BlockASTView>, params: Seq<ValuesView> },
}

pub struct ValueView {
    pub value: Seq<char>,
    pub datum: Option<DatumView>,
}

pub open spec fn values_view(v: Values) -> ValuesView
    decreases v,
{
    match v {
        Values::Object(s) => ValuesView::Object(s@),
        Values::Str(s) => ValuesView::Str(s@),
        Values::Variable(s, c) => ValuesView::Variable(s@, c),
        Values::ObjectVariable(o, s) => ValuesView::ObjectVariable(o@, s@),
        Values::Conditional(a, op, b) => ValuesView::Conditional(
            Box::new(values_view(*a)),
            op@,
            Box::new(values_view(*b)),
        ),
    }
}

impl View for Values {
    type V = ValuesView;

    open spec fn view(&self) -> ValuesView {
        values_view(*self)
    }
}

pub open spec fn values_seq_view(v: Seq<Values>) -> Seq<ValuesView> {
    v.map_values(|x: Values| x@)
}

impl View for BlockAST {
    type V = BlockASTView;

    open spec fn view(&self) -> BlockASTView {
        BlockASTView { name: self.name@, params: values_seq_view(self.params@), typ: self.typ }
    }
}

pub open spec fn blocks_ast_view(v: Seq<BlockAST>) -> Seq<BlockASTView> {
    v.map_values(|x: BlockAST| x@)
}

impl View for DefineTypes {
    type V = DefineTypesView;

    open spec fn view(&self) -> DefineTypesView {
        match self {
            DefineTypes::Object(s) => DefineTypesView::Object(s@),
            DefineTypes::Variable(c) => DefineTypesView::Variable(*c),
            DefineTypes::Ability(b) => DefineTypesView::Ability(
                match b {
                    Some(v) => Some(blocks_ast_view(v@)),
                    None => None,
                },
            ),
        }
    }
}

pub open spec fn script_view(s: Script) -> ScriptView
    decreases s, 1int,
{
    match s {
        Script::Define { typ, name } => ScriptView::Define { typ: typ@, name: name@ },
        Script::On { obj, con } => ScriptView::On { obj: obj@, con: scripts_view(con@) },
        Script::Rule { name, con, params } => ScriptView::Rule {
            name: name@,
            con: blocks_ast_view(con@),
            params: values_seq_view(params@),
        },
    }
}

pub open spec fn scripts_view(v: Seq<Script>) -> Seq<ScriptView>
    decreases v, 0int,
{
    if v.len() == 0 {
        Seq::empty()
    } else {
        seq![script_view(v[0])] + scripts_view(v.drop_first())
    }
}

/// `scripts_view` is the element-wise view.
pub proof fn lemma_scripts_view(v: Seq<Script>)
    ensures
        scripts_view(v).len() == v.len(),
        forall|i: int| 0 <= i < v.len() ==> #[trigger] scripts_view(v)[i] == script_view(v[i]),
    decreases v.len(),
{
    if v.len() > 0 {
        lemma_scripts_view(v.drop_first());
        assert forall|i: int| 0 <= i < v.len() implies #[trigger] scripts_view(v)[i]
            == script_view(v[i]) by {
            if i > 0 {
                assert(v.drop_first()[i - 1] == v[i]);
            }
        }
    }
}

/// The view of a pushed sequence of scripts.
pub proof fn lemma_scripts_view_push(v: Seq<Script>, s: Script)
    ensures
        scripts_view(v.push(s)) == scripts_view(v).push(script_view(s)),
{
    lemma_scripts_view(v);
    lemma_scripts_view(v.push(s));
    assert(scripts_view(v.push(s)) =~= scripts_view(v).push(script_view(s)));
}

impl View for Script {
    type V = ScriptView;

    open spec fn view(&self) -> ScriptView {
        script_view(*self)
    }
}

impl View for Value {
    type V = ValueView;

    open spec fn view(&self) -> ValueView {
        ValueView { value: self.value@, datum: opt_datum_view(self.datum) }
    }
}

// ---------------------------------------------------------------------------
// Block and object data
// ---------------------------------------------------------------------------

/// The block data a program is resolved against: objects, rules and blocks.
#[derive(Debug)]
pub struct CompiledData {
    pub obj: Vec<ObjectData>,
    pub rules: Vec<BlockData>,
    pub blocks: Vec<BlockData>,
}

/// A block or rule known to the compiler.
#[derive(Debug)]
pub struct BlockData {
    pub name: String,
    pub parameters: Vec<ParameterData>,
    pub id: i32,
    pub typ: String,
    pub label: String,
}

/// The type of one parameter of a block.
#[derive(Debug)]
pub struct ParameterData {
    pub typ: String,
}

/// An object type known to the compiler.
#[derive(Debug)]
pub struct ObjectData {
    pub name: String,
    pub id: i32,
}

pub struct CompiledDataView {
    pub obj: Seq<ObjectDataView>,
    pub rules: Seq<BlockDataView>,
    pub blocks: Seq<BlockDataView>,
}

pub struct BlockDataView {
    pub name: Seq<char>,
    pub parameters: Seq<Seq<char>>,
    pub id: i32,
    pub typ: Seq<char>,
    pub label: Seq<char>,
}

pub struct ObjectDataView {
    pub name: Seq<char>,
    pub id: i32,
}

impl View for ParameterData {
    type V = Seq<char>;

    open spec fn view(&self) -> Seq<char> {
        self.typ@
    }
}

impl View for BlockData {
    type V = BlockDataView;

    open spec fn view(&self) -> BlockDataView {
        BlockDataView {
            name: self.name@,
            parameters: self.parameters@.map_values(|p: ParameterData| p@),
            id: self.id,
            typ: self.typ@,
            label: self.label@,
        }
    }
}

impl View for ObjectData {
    type V = ObjectDataView;

    open spec fn view(&self) -> ObjectDataView {
        ObjectDataView { name: self.name@, id: self.id }
    }
}

impl View for CompiledData {
    type V = CompiledDataView;

    open spec fn view(&self) -> CompiledDataView {
        CompiledDataView {
            obj: self.obj@.map_values(|o: ObjectData| o@),
            rules: self.rules@.map_values(|b: BlockData| b@),
            blocks: self.blocks@.map_values(|b: BlockData| b@),
        }
    }
}

} // verus!
