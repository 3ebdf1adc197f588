//! Preparation of the block and object data: names are normalised and the
//! rules are told apart from the blocks.
use vstd::prelude::*;
use vstd::string::StringExecFns;
use crate::text::{chars_of, string_from_chars};
use crate::types::{
    BlockData, BlockDataView, CompiledData, CompiledDataView, ObjectData, ObjectDataView,
    ParameterData,
};

verus! {

/// `s` with every space replaced by an underscore.
pub open spec fn spaces_to_underscores(s: Seq<char>) -> Seq<char> {
    s.map_values(|c: char| if c == ' ' { '_' } else { c })
}

/// What `str::to_lowercase` gives for `s`.
pub uninterp spec fn lowercase(s: Seq<char>) -> Seq<char>;

/// `str::to_lowercase`: the lower-case form of `s`, as Unicode defines it.
/// The contract names the result without stating the case mapping.
#[verifier::external_body]
fn to_lowercase(s: &str) -> (r: String)
    ensures
        r@ == lowercase(s@),
{
    s.to_lowercase()
}

/// The name under which a block, rule or object is known to programs: the
/// data's name with spaces replaced by underscores, in lower case.
pub open spec fn data_name(s: Seq<char>) -> Seq<char> {
    lowercase(spaces_to_underscores(s))
}

pub open spec fn renamed_block(b: BlockDataView) -> BlockDataView {
    BlockDataView {
        name: data_name(b.name),
        parameters: b.parameters,
        id: b.id,
        typ: b.typ,
        label: b.label,
    }
}

pub open spec fn renamed_object(o: ObjectDataView) -> ObjectDataView {
    ObjectDataView { name: data_name(o.name), id: o.id }
}

/// The block data of type `rule`, in order.
pub open spec fn rules_of(bs: Seq<BlockDataView>) -> Seq<BlockDataView>
    decreases bs.len(),
{
    if bs.len() == 0 {
        Seq::empty()
    } else if bs.last().typ == "rule"@ {
        rules_of(bs.drop_last()).push(bs.last())
    } else {
        rules_of(bs.drop_last())
    }
}

/// The block data of any other type, in order.
pub open spec fn non_rules_of(bs: Seq<BlockDataView>) -> Seq<BlockDataView>
    decreases bs.len(),
{
    if bs.len() == 0 {
        Seq::empty()
    } else if bs.last().typ == "rule"@ {
        non_rules_of(bs.drop_last())
    } else {
        non_rules_of(bs.drop_last()).push(bs.last())
    }
}

/// The compiled data for the given block and object data: all names
/// normalised, the rules and the other blocks apart, each in its order.
pub open spec fn compiled_data(bs: Seq<BlockDataView>, os: Seq<ObjectDataView>) -> CompiledDataView {
    let rb = bs.map_values(|b: BlockDataView| renamed_block(b));
    CompiledDataView {
        obj: os.map_values(|o: ObjectDataView| renamed_object(o)),
        rules: rules_of(rb),
        blocks: non_rules_of(rb),
    }
}

/// Normalise a name of the data: spaces become underscores, then lower case.
pub fn data_name_of(s: &String) -> (r: String)
    ensures
        r@ == data_name(s@),
{
    let cs = chars_of(s.as_str());
    let mut out: Vec<char> = Vec::new();
    let mut i: usize = 0;
    while i < cs.len()
        invariant
            cs@ == s@,
            i <= cs.len(),
            out@ == spaces_to_underscores(cs@.take(i as int)),
        decreases cs.len() - i,
    {
        let c = cs[i];
        out.push(if c == ' ' { '_' } else { c });
        i = i + 1;
        assert(out@ =~= spaces_to_underscores(cs@.take(i as int)));
    }
    assert(cs@.take(cs.len() as int) =~= cs@);
    let u = string_from_chars(&out);
    to_lowercase(u.as_str())
}

/// Keeps the block data of type `rule` apart from the rest: the rules and
/// the other blocks, each in its order.
pub fn split_rules(blocks: Vec<BlockData>) -> (r: (Vec<BlockData>, Vec<BlockData>))
    ensures
        r.0@.map_values(|b: BlockData| b@) == rules_of(blocks@.map_values(|b: BlockData| b@)),
        r.1@.map_values(|b: BlockData| b@) == non_rules_of(blocks@.map_values(|b: BlockData| b@)),
{
    let ghost bv = blocks@.map_values(|b: BlockData| b@);
    let mut rest = blocks;
    let mut rules: Vec<BlockData> = Vec::new();
    let mut others: Vec<BlockData> = Vec::new();
    let n = rest.len();
    let rule_word = String::from_str("rule");
    let mut i: usize = 0;
    assert(bv.take(0) =~= Seq::<BlockDataView>::empty());
    assert(rules@.map_values(|b: BlockData| b@) =~= Seq::<BlockDataView>::empty());
    assert(others@.map_values(|b: BlockData| b@) =~= Seq::<BlockDataView>::empty());
    while i < n
        invariant
            i <= n == bv.len(),
            rule_word@ == "rule"@,
            rest@.len() == n - i,
            forall|j: int| 0 <= j < rest@.len() ==> #[trigger] rest@[j]@ == bv[i + j],
            rules@.map_values(|b: BlockData| b@) == rules_of(bv.take(i as int)),
            others@.map_values(|b: BlockData| b@) == non_rules_of(bv.take(i as int)),
        decreases n - i,
    {
        assert(rest@[0]@ == bv[i + 0]);
        let y = rest.remove(0);
        assert(bv.take(i + 1).drop_last() =~= bv.take(i as int));
        assert(bv.take(i + 1).last() == bv[i as int]);
        if y.typ == rule_word {
            let ghost before = rules@.map_values(|b: BlockData| b@);
            rules.push(y);
            assert(rules@.map_values(|b: BlockData| b@) =~= before.push(y@));
        } else {
            let ghost before = others@.map_values(|b: BlockData| b@);
            others.push(y);
            assert(others@.map_values(|b: BlockData| b@) =~= before.push(y@));
        }
        i = i + 1;
    }
    assert(bv.take(n as int) =~= bv);
    (rules, others)
}

/// Generate block and object data from the data as read: names are
/// normalised, and the block data of type `rule` is kept apart from the rest.
pub fn generate_blocks(blockjson: Vec<BlockData>, objectjson: Vec<ObjectData>) -> (r: CompiledData)
    ensures
        r@ == compiled_data(
            blockjson@.map_values(|b: BlockData| b@),
            objectjson@.map_values(|o: ObjectData| o@),
        ),
{
    let ghost bv = blockjson@.map_values(|b: BlockData| b@);
    let ghost ov = objectjson@.map_values(|o: ObjectData| o@);
    let ghost rb = bv.map_values(|b: BlockDataView| renamed_block(b));
    let mut objs = objectjson;
    let mut betterobjectjson: Vec<ObjectData> = Vec::new();
    let n_obj = objs.len();
    let mut i: usize = 0;
    while i < n_obj
        invariant
            i <= n_obj == ov.len(),
            objs@.len() == n_obj - i,
            forall|j: int| 0 <= j < objs@.len() ==> #[trigger] objs@[j]@ == ov[i + j],
            betterobjectjson@.len() == i,
            forall|j: int| 0 <= j < i ==> #[trigger] betterobjectjson@[j]@ == renamed_object(ov[j]),
        decreases n_obj - i,
    {
        assert(objs@[0]@ == ov[i + 0]);
        let o = objs.remove(0);
        let name = data_name_of(&o.name);
        betterobjectjson.push(ObjectData { name, id: o.id });
        i = i + 1;
    }
    assert(betterobjectjson@.map_values(|o: ObjectData| o@) =~= ov.map_values(
        |o: ObjectDataView| renamed_object(o),
    ));
    let mut blocks = blockjson;
    let mut renamed: Vec<BlockData> = Vec::new();
    let n_blk = blocks.len();
    let mut i: usize = 0;
    while i < n_blk
        invariant
            i <= n_blk == bv.len() == rb.len(),
            rb == bv.map_values(|b: BlockDataView| renamed_block(b)),
            blocks@.len() == n_blk - i,
            forall|j: int| 0 <= j < blocks@.len() ==> #[trigger] blocks@[j]@ == bv[i + j],
            renamed@.len() == i,
            forall|j: int| 0 <= j < i ==> #[trigger] renamed@[j]@ == rb[j],
        decreases n_blk - i,
    {
        assert(blocks@[0]@ == bv[i + 0]);
        let b = blocks.remove(0);
        let name = data_name_of(&b.name);
        renamed.push(BlockData {
            name,
            parameters: b.parameters,
            id: b.id,
            typ: b.typ,
            label: b.label,
        });
        i = i + 1;
    }
    assert(renamed@.map_values(|b: BlockData| b@) =~= rb);
    let (rulejson, actualblockjson) = split_rules(renamed);
    CompiledData { obj: betterobjectjson, rules: rulejson, blocks: actualblockjson }
}

/// The rules and the other blocks split the block data: every block datum
/// is in exactly one of the two lists, the rules are those of type `rule`,
/// and the other list holds none of that type.
pub proof fn law_rules_partition_blocks(bs: Seq<BlockDataView>)
    ensures
        rules_of(bs).len() + non_rules_of(bs).len() == bs.len(),
        forall|i: int| 0 <= i < rules_of(bs).len() ==> #[trigger] rules_of(bs)[i].typ == "rule"@,
        forall|i: int|
            0 <= i < non_rules_of(bs).len() ==> #[trigger] non_rules_of(bs)[i].typ != "rule"@,
    decreases bs.len(),
{
    if bs.len() > 0 {
        law_rules_partition_blocks(bs.drop_last());
    }
}

} // verus!
