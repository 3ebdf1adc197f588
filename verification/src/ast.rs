//! The Hopperscript parser.
//!
//! The grammar is given as a family of spec functions, one per syntactic form,
//! each mapping a character sequence and a start position to the parsed value
//! and the position after it (or `None`). Alternatives are tried in order and
//! the first that succeeds is taken; repetitions are greedy; whitespace
//! (`char::is_whitespace`) is skipped where the grammar pads a form. The
//! executable parsers compute exactly these functions.
use vstd::prelude::*;
use crate::text::{is_ws, is_digit, is_alpha, is_alnum, is_hex_digit, is_whitespace, is_ascii_digit, is_ident_start, is_ident_continue, string_from_chars, chars_of, sub_string};
use crate::utils::is_hex;
use crate::types::{
    AstTypes, BlockAST, BlockASTView, DefineTypes, DefineTypesView, Script, ScriptView, Values,
    ValuesView, blocks_ast_view, lemma_scripts_view_push, scripts_view, values_seq_view,
};

verus! {

// ---------------------------------------------------------------------------
// Lexical level
// ---------------------------------------------------------------------------

pub open spec fn at(s: Seq<char>, i: int, c: char) -> bool {
    0 <= i < s.len() && s[i] == c
}

/// `w` occurs in `s` at position `i`.
pub open spec fn lit(s: Seq<char>, i: int, w: Seq<char>) -> bool {
    0 <= i && i + w.len() <= s.len() && s.subrange(i, i + w.len()) == w
}

/// `(*`, which opens a comment.
pub open spec fn word_comment_open() -> Seq<char> {
    seq!['(', '*']
}

/// The end of a comment whose text starts at `k`: just after the first `*)`
/// from `k` on, or -1 where none follows.
pub open spec fn comment_end(s: Seq<char>, k: int) -> int
    decreases s.len() - k,
{
    if 0 <= k && k + 1 < s.len() {
        if s[k] == '*' && s[k + 1] == ')' {
            k + 2
        } else {
            comment_end(s, k + 1)
        }
    } else {
        -1
    }
}

/// The first position at or after `i` that holds neither whitespace nor a
/// comment: a comment is `(*`, any text, and the first `*)` after it.
pub open spec fn skip_ws(s: Seq<char>, i: int) -> int
    decreases s.len() - i,
{
    if 0 <= i < s.len() && is_ws(s[i]) {
        skip_ws(s, i + 1)
    } else if lit(s, i, word_comment_open()) && i < comment_end(s, i + 2) <= s.len() {
        skip_ws(s, comment_end(s, i + 2))
    } else {
        i
    }
}

/// The character that an escape `\c` in a string literal stands for.
pub open spec fn escape_of(c: char) -> Option<char> {
    if c == '\\' {
        Some('\\')
    } else if c == '/' {
        Some('/')
    } else if c == '"' {
        Some('"')
    } else if c == 'n' {
        Some('\n')
    } else if c == 't' {
        Some('\t')
    } else {
        None
    }
}

/// The body of a string literal from `i`: its characters, escapes resolved,
/// and the position where the body stops.
pub open spec fn str_body(s: Seq<char>, i: int) -> (Seq<char>, int)
    decreases s.len() - i,
{
    if 0 <= i < s.len() && s[i] != '\\' && s[i] != '"' {
        let (r, e) = str_body(s, i + 1);
        (seq![s[i]] + r, e)
    } else if 0 <= i && i + 1 < s.len() && s[i] == '\\' && escape_of(s[i + 1]) is Some {
        let (r, e) = str_body(s, i + 2);
        (seq![escape_of(s[i + 1])->0] + r, e)
    } else {
        (Seq::empty(), i)
    }
}

/// A string literal: `"` body `"`.
pub open spec fn p_stri(s: Seq<char>, i: int) -> Option<(Seq<char>, int)> {
    if at(s, i, '"') {
        let (r, e) = str_body(s, i + 1);
        if at(s, e, '"') {
            Some((r, e + 1))
        } else {
            None
        }
    } else {
        None
    }
}

pub open spec fn all_hex(s: Seq<char>, a: int, b: int) -> bool {
    forall|k: int| a <= k < b ==> #[trigger] is_hex_digit(s[k])
}

/// A hex colour: `#` and six hex digits, or else `#` and three.
pub open spec fn p_hex_color(s: Seq<char>, i: int) -> Option<(Seq<char>, int)> {
    if at(s, i, '#') && i + 7 <= s.len() && all_hex(s, i + 1, i + 7) {
        Some((s.subrange(i, i + 7), i + 7))
    } else if at(s, i, '#') && i + 4 <= s.len() && all_hex(s, i + 1, i + 4) {
        Some((s.subrange(i, i + 4), i + 4))
    } else {
        None
    }
}

/// The end of the run of ASCII digits that starts at `i`.
pub open spec fn digits_end(s: Seq<char>, i: int) -> int
    decreases s.len() - i,
{
    if 0 <= i < s.len() && is_digit(s[i]) {
        digits_end(s, i + 1)
    } else {
        i
    }
}

/// A number: one or more ASCII digits.
pub open spec fn p_number(s: Seq<char>, i: int) -> Option<(Seq<char>, int)> {
    let e = digits_end(s, i);
    if e > i {
        Some((s.subrange(i, e), e))
    } else {
        None
    }
}

/// The end of the run of identifier characters that starts at `i`.
pub open spec fn ident_end(s: Seq<char>, i: int) -> int
    decreases s.len() - i,
{
    if 0 <= i < s.len() && (is_alnum(s[i]) || s[i] == '_') {
        ident_end(s, i + 1)
    } else {
        i
    }
}

/// An identifier: `[a-zA-Z_][a-zA-Z0-9_]*`.
pub open spec fn p_ident(s: Seq<char>, i: int) -> Option<(Seq<char>, int)> {
    if 0 <= i < s.len() && (is_alpha(s[i]) || s[i] == '_') {
        let e = ident_end(s, i + 1);
        Some((s.subrange(i, e), e))
    } else {
        None
    }
}

pub open spec fn word_self() -> Seq<char> {
    seq!['v', ' ', 'S', 'e', 'l', 'f', '.']
}

/// A reference to an object: `o` and a string literal.
pub open spec fn p_obj_ref(s: Seq<char>, i: int) -> Option<(ValuesView, int)> {
    if at(s, i, 'o') {
        match p_stri(s, i + 1) {
            Some((n, e)) => Some((ValuesView::Object(n), e)),
            None => None,
        }
    } else {
        None
    }
}

/// A variable of an object: `v"object"."variable"`.
pub open spec fn p_objvar_ref(s: Seq<char>, i: int) -> Option<(ValuesView, int)> {
    if at(s, i, 'v') {
        match p_stri(s, i + 1) {
            Some((o, e)) => if at(s, e, '.') {
                match p_stri(s, e + 1) {
                    Some((n, f)) => Some((ValuesView::ObjectVariable(o, n), f)),
                    None => None,
                }
            } else {
                None
            },
            None => None,
        }
    } else {
        None
    }
}

/// A game variable: `v"name"` (code 3).
pub open spec fn p_var_ref(s: Seq<char>, i: int) -> Option<(ValuesView, int)> {
    if at(s, i, 'v') {
        match p_stri(s, i + 1) {
            Some((n, e)) => Some((ValuesView::Variable(n, 3), e)),
            None => None,
        }
    } else {
        None
    }
}

/// A variable of the object itself: `v Self."name"` (code 4).
pub open spec fn p_selfvar_ref(s: Seq<char>, i: int) -> Option<(ValuesView, int)> {
    if lit(s, i, word_self()) {
        match p_stri(s, i + 7) {
            Some((n, e)) => Some((ValuesView::Variable(n, 4), e)),
            None => None,
        }
    } else {
        None
    }
}

pub open spec fn word_var_ref() -> Seq<char> {
    seq!['v', 'a', 'r']
}

pub open spec fn word_colors() -> Seq<char> {
    seq!['c', 'o', 'l', 'o', 'r', 's', '.']
}

/// A game variable written out: `var"name"` (code 3).
pub open spec fn p_long_var_ref(s: Seq<char>, i: int) -> Option<(ValuesView, int)> {
    if lit(s, i, word_var_ref()) {
        match p_stri(s, i + 3) {
            Some((n, e)) => Some((ValuesView::Variable(n, 3), e)),
            None => None,
        }
    } else {
        None
    }
}

/// A colour of the block list: `colors.NAME`, carried as the name.
pub open spec fn p_color(s: Seq<char>, i: int) -> Option<(ValuesView, int)> {
    if lit(s, i, word_colors()) {
        match p_ident(s, i + 7) {
            Some((n, e)) => Some((ValuesView::Str(n), e)),
            None => None,
        }
    } else {
        None
    }
}

/// A parameter value, the first of these forms that applies: a string, a hex
/// colour, a number, an object, an object's variable, a game variable, a
/// variable of the object itself, a game variable written `var"name"`, a
/// colour of the block list.
pub open spec fn p_value(s: Seq<char>, i: int) -> Option<(ValuesView, int)> {
    match p_stri(s, i) {
        Some((x, e)) => Some((ValuesView::Str(x), e)),
        None => match p_hex_color(s, i) {
            Some((x, e)) => Some((ValuesView::Str(x), e)),
            None => match p_number(s, i) {
                Some((x, e)) => Some((ValuesView::Str(x), e)),
                None => match p_obj_ref(s, i) {
                    Some(r) => Some(r),
                    None => match p_objvar_ref(s, i) {
                        Some(r) => Some(r),
                        None => match p_var_ref(s, i) {
                            Some(r) => Some(r),
                            None => match p_selfvar_ref(s, i) {
                                Some(r) => Some(r),
                                None => match p_long_var_ref(s, i) {
                                    Some(r) => Some(r),
                                    None => p_color(s, i),
                                },
                            },
                        },
                    },
                },
            },
        },
    }
}

/// The view of a parser's result.
pub open spec fn pr_view<T: View>(r: Option<(T, usize)>) -> Option<(T::V, int)> {
    match r {
        Some((v, j)) => Some((v@, j as int)),
        None => None,
    }
}


// ---------------------------------------------------------------------------
// Blocks, definitions, rules and the program
// ---------------------------------------------------------------------------

pub open spec fn word_define() -> Seq<char> {
    seq!['d', 'e', 'f', 'i', 'n', 'e']
}

pub open spec fn word_var() -> Seq<char> {
    seq!['v', 'a', 'r']
}

pub open spec fn word_object() -> Seq<char> {
    seq!['o', 'b', 'j', 'e', 'c', 't']
}

pub open spec fn word_objects() -> Seq<char> {
    seq!['o', 'b', 'j', 'e', 'c', 't', 's']
}

pub open spec fn word_ability() -> Seq<char> {
    seq!['a', 'b', 'i', 'l', 'i', 't', 'y']
}

pub open spec fn word_ability_call() -> Seq<char> {
    seq!['a', 'b', 'i', 'l', 'i', 't', 'y', '!']
}

pub open spec fn word_when() -> Seq<char> {
    seq!['w', 'h', 'e', 'n']
}

pub open spec fn word_cond() -> Seq<char> {
    seq!['c', 'o', 'n', 'd']
}

pub open spec fn word_for() -> Seq<char> {
    seq!['f', 'o', 'r']
}

pub open spec fn word_eq() -> Seq<char> {
    seq!['=', '=']
}

pub open spec fn word_ne() -> Seq<char> {
    seq!['!', '=']
}

/// A value with whitespace around it.
pub open spec fn p_pvalue(s: Seq<char>, i: int) -> Option<(ValuesView, int)> {
    match p_value(s, skip_ws(s, i)) {
        Some((v, e)) => Some((v, skip_ws(s, e))),
        None => None,
    }
}

/// Further `, value` items of a comma-separated list, after `acc`.
pub open spec fn p_values_rest(s: Seq<char>, i: int, acc: Seq<ValuesView>) -> (
    Seq<ValuesView>,
    int,
)
    decreases s.len() - i,
{
    if at(s, i, ',') {
        match p_pvalue(s, i + 1) {
            Some((v, e)) => if i < e <= s.len() {
                p_values_rest(s, e, acc.push(v))
            } else {
                (acc, i)
            },
            None => (acc, i),
        }
    } else {
        (acc, i)
    }
}

/// A comma-separated list of padded values, possibly empty.
pub open spec fn p_values(s: Seq<char>, i: int) -> (Seq<ValuesView>, int) {
    match p_pvalue(s, i) {
        Some((v, e)) => p_values_rest(s, e, seq![v]),
        None => (Seq::empty(), i),
    }
}

/// A block call: `name(values)`, padded.
pub open spec fn p_block(s: Seq<char>, i: int) -> Option<(BlockASTView, int)> {
    match p_ident(s, skip_ws(s, i)) {
        Some((n, b)) => if at(s, b, '(') {
            let (ps, c) = p_values(s, b + 1);
            if at(s, c, ')') {
                Some((BlockASTView { name: n, params: ps, typ: AstTypes::Block }, skip_ws(s, c + 1)))
            } else {
                None
            }
        } else {
            None
        },
        None => None,
    }
}

/// A call of an ability: `ability!("name")`, padded.
pub open spec fn p_abil(s: Seq<char>, i: int) -> Option<(BlockASTView, int)> {
    let a = skip_ws(s, i);
    if lit(s, a, word_ability_call()) && at(s, a + 8, '(') {
        match p_stri(s, a + 9) {
            Some((n, c)) => if at(s, c, ')') {
                Some(
                    (
                        BlockASTView { name: n, params: Seq::empty(), typ: AstTypes::Ability },
                        skip_ws(s, c + 1),
                    ),
                )
            } else {
                None
            },
            None => None,
        }
    } else {
        None
    }
}

pub open spec fn word_abilities() -> Seq<char> {
    seq!['a', 'b', 'i', 'l', 'i', 't', 'i', 'e', 's', '.']
}

/// A call of an ability written out: `abilities."name"()`, padded.
pub open spec fn p_abil_call(s: Seq<char>, i: int) -> Option<(BlockASTView, int)> {
    let a = skip_ws(s, i);
    if lit(s, a, word_abilities()) {
        match p_stri(s, a + 10) {
            Some((n, c)) => if at(s, c, '(') && at(s, c + 1, ')') {
                Some(
                    (
                        BlockASTView { name: n, params: Seq::empty(), typ: AstTypes::Ability },
                        skip_ws(s, c + 2),
                    ),
                )
            } else {
                None
            },
            None => None,
        }
    } else {
        None
    }
}

/// A block call, else an ability call in either form.
pub open spec fn p_block_or_abil(s: Seq<char>, i: int) -> Option<(BlockASTView, int)> {
    match p_block(s, i) {
        Some(r) => Some(r),
        None => match p_abil(s, i) {
            Some(r) => Some(r),
            None => p_abil_call(s, i),
        },
    }
}

/// As many block calls as follow, after `acc`.
pub open spec fn p_blocks(s: Seq<char>, i: int, acc: Seq<BlockASTView>) -> (
    Seq<BlockASTView>,
    int,
)
    decreases s.len() - i,
{
    match p_block_or_abil(s, i) {
        Some((b, e)) => if i < e <= s.len() {
            p_blocks(s, e, acc.push(b))
        } else {
            (acc, i)
        },
        None => (acc, i),
    }
}

/// `{ blocks }`, padded.
pub open spec fn p_braced_blocks(s: Seq<char>, i: int) -> Option<(Seq<BlockASTView>, int)> {
    let a = skip_ws(s, i);
    if at(s, a, '{') {
        let (bs, c) = p_blocks(s, a + 1, Seq::empty());
        if at(s, c, '}') {
            Some((bs, skip_ws(s, c + 1)))
        } else {
            None
        }
    } else {
        None
    }
}

/// `var "name"`: a variable of code 3.
pub open spec fn p_var(s: Seq<char>, i: int) -> Option<(ScriptView, int)> {
    let a = skip_ws(s, i);
    if lit(s, a, word_var()) {
        match p_stri(s, skip_ws(s, a + 3)) {
            Some((n, e)) => Some(
                (
                    ScriptView::Define { typ: DefineTypesView::Variable(3), name: n },
                    skip_ws(s, e),
                ),
            ),
            None => None,
        }
    } else {
        None
    }
}

/// `objects.TYPE`.
pub open spec fn p_obj_ty(s: Seq<char>, i: int) -> Option<(Seq<char>, int)> {
    if lit(s, i, word_objects()) && at(s, i + 7, '.') {
        p_ident(s, i + 8)
    } else {
        None
    }
}

/// `object "name" = objects.TYPE`.
pub open spec fn p_obj(s: Seq<char>, i: int) -> Option<(ScriptView, int)> {
    let a = skip_ws(s, i);
    if lit(s, a, word_object()) {
        match p_stri(s, skip_ws(s, a + 6)) {
            Some((n, e)) => {
                let b = skip_ws(s, e);
                if at(s, b, '=') {
                    match p_obj_ty(s, skip_ws(s, b + 1)) {
                        Some((t, f)) => Some(
                            (
                                ScriptView::Define { typ: DefineTypesView::Object(t), name: n },
                                skip_ws(s, f),
                            ),
                        ),
                        None => None,
                    }
                } else {
                    None
                }
            },
            None => None,
        }
    } else {
        None
    }
}

/// `object(objects.TYPE, "name")`.
pub open spec fn p_obj_call(s: Seq<char>, i: int) -> Option<(ScriptView, int)> {
    let a = skip_ws(s, i);
    let b = skip_ws(s, a + 6);
    if lit(s, a, word_object()) && at(s, b, '(') {
        match p_obj_ty(s, skip_ws(s, b + 1)) {
            Some((t, c)) => {
                let d = skip_ws(s, c);
                if at(s, d, ',') {
                    match p_stri(s, skip_ws(s, d + 1)) {
                        Some((n, e)) => {
                            let f = skip_ws(s, e);
                            if at(s, f, ')') {
                                Some(
                                    (
                                        ScriptView::Define {
                                            typ: DefineTypesView::Object(t),
                                            name: n,
                                        },
                                        skip_ws(s, f + 1),
                                    ),
                                )
                            } else {
                                None
                            }
                        },
                        None => None,
                    }
                } else {
                    None
                }
            },
            None => None,
        }
    } else {
        None
    }
}

/// `ability "name" { blocks }`.
pub open spec fn p_ability_def(s: Seq<char>, i: int) -> Option<(ScriptView, int)> {
    let a = skip_ws(s, i);
    if lit(s, a, word_ability()) {
        match p_stri(s, skip_ws(s, a + 7)) {
            Some((n, e)) => match p_braced_blocks(s, skip_ws(s, e)) {
                Some((bs, f)) => Some(
                    (ScriptView::Define { typ: DefineTypesView::Ability(Some(bs)), name: n }, f),
                ),
                None => None,
            },
            None => None,
        }
    } else {
        None
    }
}

/// `define` and a variable, an object (in either form) or an ability.
pub open spec fn p_def(s: Seq<char>, i: int) -> Option<(ScriptView, int)> {
    if lit(s, i, word_define()) {
        match p_var(s, i + 6) {
            Some(r) => Some(r),
            None => match p_obj(s, i + 6) {
                Some(r) => Some(r),
                None => match p_obj_call(s, i + 6) {
                    Some(r) => Some(r),
                    None => p_ability_def(s, i + 6),
                },
            },
        }
    } else {
        None
    }
}

/// `==` or `!=`, padded.
pub open spec fn p_relation(s: Seq<char>, i: int) -> Option<(Seq<char>, int)> {
    let a = skip_ws(s, i);
    if lit(s, a, word_eq()) {
        Some((word_eq(), skip_ws(s, a + 2)))
    } else if lit(s, a, word_ne()) {
        Some((word_ne(), skip_ws(s, a + 2)))
    } else {
        None
    }
}

/// `value op value`.
pub open spec fn p_conditional(s: Seq<char>, i: int) -> Option<(ValuesView, int)> {
    match p_value(s, i) {
        Some((a, e)) => match p_relation(s, e) {
            Some((op, f)) => match p_value(s, f) {
                Some((b, g)) => Some(
                    (ValuesView::Conditional(Box::new(a), op, Box::new(b)), g),
                ),
                None => None,
            },
            None => None,
        },
        None => None,
    }
}

/// A conditional in parentheses, or else a bare one.
pub open spec fn p_actual_cond(s: Seq<char>, i: int) -> Option<(ValuesView, int)> {
    if at(s, i, '(') {
        match p_conditional(s, i + 1) {
            Some((c, e)) => if at(s, e, ')') {
                Some((c, e + 1))
            } else {
                p_conditional(s, i)
            },
            None => p_conditional(s, i),
        }
    } else {
        p_conditional(s, i)
    }
}

/// The condition of a rule: in parentheses or bare where `paren` holds,
/// else bare only.
pub open spec fn p_rule_cond(s: Seq<char>, i: int, paren: bool) -> Option<(ValuesView, int)> {
    if paren {
        p_actual_cond(s, i)
    } else {
        p_conditional(s, i)
    }
}

/// A parameter of a rule: an object or a conditional, padded.
pub open spec fn p_rule_param(s: Seq<char>, i: int, paren: bool) -> Option<(ValuesView, int)> {
    let a = skip_ws(s, i);
    match p_obj_ref(s, a) {
        Some((v, e)) => Some((v, skip_ws(s, e))),
        None => match p_rule_cond(s, a, paren) {
            Some((v, e)) => Some((v, skip_ws(s, e))),
            None => None,
        },
    }
}

pub open spec fn p_rule_params_rest(s: Seq<char>, i: int, acc: Seq<ValuesView>, paren: bool) -> (
    Seq<ValuesView>,
    int,
)
    decreases s.len() - i,
{
    if at(s, i, ',') {
        match p_rule_param(s, i + 1, paren) {
            Some((v, e)) => if i < e <= s.len() {
                p_rule_params_rest(s, e, acc.push(v), paren)
            } else {
                (acc, i)
            },
            None => (acc, i),
        }
    } else {
        (acc, i)
    }
}

/// A comma-separated list of rule parameters, possibly empty.
pub open spec fn p_rule_params(s: Seq<char>, i: int, paren: bool) -> (Seq<ValuesView>, int) {
    match p_rule_param(s, i, paren) {
        Some((v, e)) => p_rule_params_rest(s, e, seq![v], paren),
        None => (Seq::empty(), i),
    }
}

pub open spec fn word_rules() -> Seq<char> {
    seq!['r', 'u', 'l', 'e', 's', '.']
}

/// The name of a rule: `cond`, or else `rules.NAME` (the rule `NAME`), or
/// else an identifier; padded.
pub open spec fn p_rule_name(s: Seq<char>, i: int) -> Option<(Seq<char>, int)> {
    let a = skip_ws(s, i);
    if lit(s, a, word_cond()) {
        Some((word_cond(), skip_ws(s, a + 4)))
    } else if lit(s, a, word_rules()) && p_ident(s, a + 6) is Some {
        let (n, e) = p_ident(s, a + 6)->0;
        Some((n, skip_ws(s, e)))
    } else {
        match p_ident(s, a) {
            Some((n, e)) => Some((n, skip_ws(s, e))),
            None => None,
        }
    }
}

/// `when name(params) { blocks }`, padded.
pub open spec fn p_rule(s: Seq<char>, i: int, paren: bool) -> Option<(ScriptView, int)> {
    let a = skip_ws(s, i);
    if lit(s, a, word_when()) {
        match p_rule_name(s, a + 4) {
            Some((n, b)) => if at(s, b, '(') {
                let (ps, c) = p_rule_params(s, b + 1, paren);
                if at(s, c, ')') {
                    match p_braced_blocks(s, c + 1) {
                        Some((bs, d)) => Some(
                            (ScriptView::Rule { name: n, con: bs, params: ps }, skip_ws(s, d)),
                        ),
                        None => None,
                    }
                } else {
                    None
                }
            } else {
                None
            },
            None => None,
        }
    } else {
        None
    }
}

/// A statement inside `for`: a definition or a rule, padded.
pub open spec fn p_member(s: Seq<char>, i: int, paren: bool) -> Option<(ScriptView, int)> {
    let a = skip_ws(s, i);
    match p_def(s, a) {
        Some((m, e)) => Some((m, skip_ws(s, e))),
        None => match p_rule(s, a, paren) {
            Some((m, e)) => Some((m, skip_ws(s, e))),
            None => None,
        },
    }
}

pub open spec fn p_members(s: Seq<char>, i: int, acc: Seq<ScriptView>, paren: bool) -> (
    Seq<ScriptView>,
    int,
)
    decreases s.len() - i,
{
    match p_member(s, i, paren) {
        Some((m, e)) => if i < e <= s.len() {
            p_members(s, e, acc.push(m), paren)
        } else {
            (acc, i)
        },
        None => (acc, i),
    }
}

/// `{ members }`, padded.
pub open spec fn p_on_body(s: Seq<char>, i: int, paren: bool) -> Option<(Seq<ScriptView>, int)> {
    let a = skip_ws(s, i);
    if at(s, a, '{') {
        let (ms, c) = p_members(s, a + 1, Seq::empty(), paren);
        if at(s, c, '}') {
            Some((ms, skip_ws(s, c + 1)))
        } else {
            None
        }
    } else {
        None
    }
}

/// `for "object" { members }`; without a body the statement has no members.
pub open spec fn p_on(s: Seq<char>, i: int, paren: bool) -> Option<(ScriptView, int)> {
    if lit(s, i, word_for()) {
        match p_stri(s, skip_ws(s, i + 3)) {
            Some((n, e)) => {
                let b = skip_ws(s, e);
                match p_on_body(s, b, paren) {
                    Some((ms, f)) => Some((ScriptView::On { obj: n, con: ms }, f)),
                    None => Some((ScriptView::On { obj: n, con: Seq::empty() }, b)),
                }
            },
            None => None,
        }
    } else {
        None
    }
}

/// A top-level statement: a definition or a `for`.
pub open spec fn p_item(s: Seq<char>, i: int, paren: bool) -> Option<(ScriptView, int)> {
    match p_def(s, i) {
        Some(r) => Some(r),
        None => p_on(s, i, paren),
    }
}

/// The first position from `k` to the end where a statement parses.
pub open spec fn first_item_from(s: Seq<char>, k: int, paren: bool) -> Option<int>
    decreases s.len() + 1 - k,
{
    if k < 0 || k > s.len() {
        None
    } else if p_item(s, k, paren) is Some {
        Some(k)
    } else {
        first_item_from(s, k + 1, paren)
    }
}

/// The program from `i` on, after the statements `items` and the skipped
/// spans `errs`: whitespace is skipped and a statement parsed; where none
/// parses, the parser skips ahead to the first position after the failure
/// where one does, and records the skipped span; it stops where none follows.
pub open spec fn p_program(
    s: Seq<char>,
    i: int,
    items: Seq<ScriptView>,
    errs: Seq<(int, int)>,
    paren: bool,
) -> (
    Seq<ScriptView>,
    Seq<(int, int)>,
)
    decreases s.len() - i,
{
    let a = skip_ws(s, i);
    match p_item(s, a, paren) {
        Some((m, e)) => if i < skip_ws(s, e) <= s.len() {
            p_program(s, skip_ws(s, e), items.push(m), errs, paren)
        } else {
            (items, errs)
        },
        None => match first_item_from(s, a + 1, paren) {
            Some(k) => {
                let (m, e) = p_item(s, k, paren)->0;
                if i < skip_ws(s, e) <= s.len() {
                    p_program(s, skip_ws(s, e), items.push(m), errs.push((a, k)), paren)
                } else {
                    (items, errs)
                }
            },
            None => (items, errs),
        },
    }
}

/// The statements of a whole source text and the spans skipped to recover;
/// `paren` tells whether a rule's condition may stand in parentheses.
pub open spec fn parse_spec(s: Seq<char>, paren: bool) -> (Seq<ScriptView>, Seq<(int, int)>) {
    p_program(s, 0, Seq::empty(), Seq::empty(), paren)
}

// ---------------------------------------------------------------------------
// Lexical level, executable
// ---------------------------------------------------------------------------

fn at_char(s: &Vec<char>, i: usize, c: char) -> (r: bool)
    ensures
        r == at(s@, i as int, c),
{
    i < s.len() && s[i] == c
}

fn lit_at(s: &Vec<char>, i: usize, w: &Vec<char>) -> (r: bool)
    requires
        i <= s.len(),
    ensures
        r == lit(s@, i as int, w@),
{
    if w.len() > s.len() - i {
        return false;
    }
    let mut k: usize = 0;
    while k < w.len()
        invariant
            k <= w.len(),
            i + w.len() <= s.len(),
            forall|m: int| 0 <= m < k ==> s@[i + m] == w@[m],
        decreases w.len() - k,
    {
        if s[i + k] != w[k] {
            assert(s@.subrange(i as int, i + w.len())[k as int] != w@[k as int]);
            return false;
        }
        k = k + 1;
    }
    assert(s@.subrange(i as int, i + w.len()) =~= w@);
    true
}

proof fn lemma_skip_ws_bounds(s: Seq<char>, i: int)
    requires
        0 <= i <= s.len(),
    ensures
        i <= skip_ws(s, i) <= s.len(),
    decreases s.len() - i,
{
    if i < s.len() && is_ws(s[i]) {
        lemma_skip_ws_bounds(s, i + 1);
    } else if lit(s, i, word_comment_open()) && i < comment_end(s, i + 2) <= s.len() {
        lemma_skip_ws_bounds(s, comment_end(s, i + 2));
    }
}

/// The end of the comment whose text starts at `k`, if one closes.
fn find_comment_end(s: &Vec<char>, k: usize) -> (r: Option<usize>)
    requires
        k <= s.len(),
    ensures
        r matches Some(e) ==> comment_end(s@, k as int) == e && k + 2 <= e <= s.len(),
        r is None ==> comment_end(s@, k as int) == -1,
{
    let mut j = k;
    while s.len() - j > 1
        invariant
            k <= j <= s.len(),
            comment_end(s@, j as int) == comment_end(s@, k as int),
        decreases s.len() - j,
    {
        if s[j] == '*' && s[j + 1] == ')' {
            return Some(j + 2);
        }
        j = j + 1;
    }
    None
}

fn skip_whitespace(s: &Vec<char>, i: usize) -> (r: usize)
    requires
        i <= s.len(),
    ensures
        r as int == skip_ws(s@, i as int),
        i <= r <= s.len(),
{
    let mut j = i;
    loop
        invariant
            i <= j <= s.len(),
            skip_ws(s@, j as int) == skip_ws(s@, i as int),
        ensures
            i <= j <= s.len(),
            skip_ws(s@, i as int) == j,
        decreases s.len() - j,
    {
        if j < s.len() && is_whitespace(s[j]) {
            j = j + 1;
        } else if s.len() - j >= 2 && s[j] == '(' && s[j + 1] == '*' {
            assert(s@.subrange(j as int, j + 2) =~= word_comment_open());
            match find_comment_end(s, j + 2) {
                Some(e) => {
                    j = e;
                },
                None => {
                    break ;
                },
            }
        } else {
            proof {
                if lit(s@, j as int, word_comment_open()) {
                    assert(s@.subrange(j as int, j + 2)[0] == s@[j as int]);
                    assert(s@.subrange(j as int, j + 2)[1] == s@[j + 1]);
                }
            }
            break ;
        }
    }
    j
}

fn escape_char(c: char) -> (r: Option<char>)
    ensures
        r == escape_of(c),
{
    if c == '\\' {
        Some('\\')
    } else if c == '/' {
        Some('/')
    } else if c == '"' {
        Some('"')
    } else if c == 'n' {
        Some('\n')
    } else if c == 't' {
        Some('\t')
    } else {
        None
    }
}

fn parse_stri(s: &Vec<char>, i: usize) -> (r: Option<(String, usize)>)
    requires
        i <= s.len(),
    ensures
        pr_view(r) == p_stri(s@, i as int),
        r matches Some((_, e)) ==> i < e <= s.len(),
{
    if !at_char(s, i, '"') {
        return None;
    }
    let ghost target = str_body(s@, i + 1);
    let mut acc: Vec<char> = Vec::new();
    let mut j = i + 1;
    loop
        invariant
            i + 1 <= j <= s.len(),
            target == (acc@ + str_body(s@, j as int).0, str_body(s@, j as int).1),
        ensures
            i + 1 <= j <= s.len(),
            target == (acc@, j as int),
        decreases s.len() - j,
    {
        if j < s.len() && s[j] != '\\' && s[j] != '"' {
            let ghost rest = str_body(s@, j + 1);
            acc.push(s[j]);
            j = j + 1;
            assert(acc@ + rest.0 =~= (acc@.drop_last()) + (seq![s@[j - 1]] + rest.0));
        } else if s.len() - j > 1 && s[j] == '\\' {
            match escape_char(s[j + 1]) {
                Some(e) => {
                    let ghost rest = str_body(s@, j + 2);
                    acc.push(e);
                    j = j + 2;
                    assert(acc@ + rest.0 =~= (acc@.drop_last()) + (seq![e] + rest.0));
                },
                None => {
                    assert(target == (acc@ + Seq::<char>::empty(), j as int));
                    assert(acc@ + Seq::<char>::empty() =~= acc@);
                    break ;
                },
            }
        } else {
            assert(acc@ + Seq::<char>::empty() =~= acc@);
            break ;
        }
    }
    if at_char(s, j, '"') {
        Some((string_from_chars(&acc), j + 1))
    } else {
        None
    }
}

fn hex_run(s: &Vec<char>, a: usize, n: usize) -> (r: bool)
    requires
        a <= s.len(),
    ensures
        r == (a + n <= s.len() && all_hex(s@, a as int, a + n)),
{
    if n > s.len() - a {
        return false;
    }
    let mut k: usize = 0;
    while k < n
        invariant
            k <= n,
            a + n <= s.len(),
            all_hex(s@, a as int, a + k),
        decreases n - k,
    {
        if !is_hex(s[a + k]) {
            return false;
        }
        k = k + 1;
    }
    true
}

fn parse_hex_color(s: &Vec<char>, i: usize) -> (r: Option<(String, usize)>)
    requires
        i <= s.len(),
    ensures
        pr_view(r) == p_hex_color(s@, i as int),
        r matches Some((_, e)) ==> i < e <= s.len(),
{
    if !at_char(s, i, '#') {
        return None;
    }
    if hex_run(s, i + 1, 6) {
        Some((sub_string(s, i, i + 7), i + 7))
    } else if hex_run(s, i + 1, 3) {
        Some((sub_string(s, i, i + 4), i + 4))
    } else {
        None
    }
}

fn parse_number(s: &Vec<char>, i: usize) -> (r: Option<(String, usize)>)
    requires
        i <= s.len(),
    ensures
        pr_view(r) == p_number(s@, i as int),
        r matches Some((_, e)) ==> i < e <= s.len(),
{
    let mut j = i;
    while j < s.len() && is_ascii_digit(s[j])
        invariant
            i <= j <= s.len(),
            digits_end(s@, j as int) == digits_end(s@, i as int),
        decreases s.len() - j,
    {
        j = j + 1;
    }
    if j > i {
        Some((sub_string(s, i, j), j))
    } else {
        None
    }
}

fn parse_ident(s: &Vec<char>, i: usize) -> (r: Option<(String, usize)>)
    requires
        i <= s.len(),
    ensures
        pr_view(r) == p_ident(s@, i as int),
        r matches Some((_, e)) ==> i < e <= s.len(),
{
    if !(i < s.len() && is_ident_start(s[i])) {
        return None;
    }
    let mut j = i + 1;
    while j < s.len() && is_ident_continue(s[j])
        invariant
            i + 1 <= j <= s.len(),
            ident_end(s@, j as int) == ident_end(s@, i + 1),
        decreases s.len() - j,
    {
        j = j + 1;
    }
    Some((sub_string(s, i, j), j))
}

fn parse_obj_ref(s: &Vec<char>, i: usize) -> (r: Option<(Values, usize)>)
    requires
        i <= s.len(),
    ensures
        pr_view(r) == p_obj_ref(s@, i as int),
        r matches Some((_, e)) ==> i < e <= s.len(),
{
    if !at_char(s, i, 'o') {
        return None;
    }
    match parse_stri(s, i + 1) {
        Some((n, e)) => Some((Values::Object(n), e)),
        None => None,
    }
}

fn parse_objvar_ref(s: &Vec<char>, i: usize) -> (r: Option<(Values, usize)>)
    requires
        i <= s.len(),
    ensures
        pr_view(r) == p_objvar_ref(s@, i as int),
        r matches Some((_, e)) ==> i < e <= s.len(),
{
    if !at_char(s, i, 'v') {
        return None;
    }
    match parse_stri(s, i + 1) {
        Some((o, e)) => {
            if !at_char(s, e, '.') {
                return None;
            }
            match parse_stri(s, e + 1) {
                Some((n, f)) => Some((Values::ObjectVariable(o, n), f)),
                None => None,
            }
        },
        None => None,
    }
}

fn parse_var_ref(s: &Vec<char>, i: usize) -> (r: Option<(Values, usize)>)
    requires
        i <= s.len(),
    ensures
        pr_view(r) == p_var_ref(s@, i as int),
        r matches Some((_, e)) ==> i < e <= s.len(),
{
    if !at_char(s, i, 'v') {
        return None;
    }
    match parse_stri(s, i + 1) {
        Some((n, e)) => Some((Values::Variable(n, 3), e)),
        None => None,
    }
}

fn parse_selfvar_ref(s: &Vec<char>, i: usize) -> (r: Option<(Values, usize)>)
    requires
        i <= s.len(),
    ensures
        pr_view(r) == p_selfvar_ref(s@, i as int),
        r matches Some((_, e)) ==> i < e <= s.len(),
{
    let w = vec!['v', ' ', 'S', 'e', 'l', 'f', '.'];
    if !lit_at(s, i, &w) {
        return None;
    }
    match parse_stri(s, i + 7) {
        Some((n, e)) => Some((Values::Variable(n, 4), e)),
        None => None,
    }
}

fn parse_long_var_ref(s: &Vec<char>, i: usize) -> (r: Option<(Values, usize)>)
    requires
        i <= s.len(),
    ensures
        pr_view(r) == p_long_var_ref(s@, i as int),
        r matches Some((_, e)) ==> i < e <= s.len(),
{
    let w = vec!['v', 'a', 'r'];
    if !lit_at(s, i, &w) {
        return None;
    }
    match parse_stri(s, i + 3) {
        Some((n, e)) => Some((Values::Variable(n, 3), e)),
        None => None,
    }
}

fn parse_color(s: &Vec<char>, i: usize) -> (r: Option<(Values, usize)>)
    requires
        i <= s.len(),
    ensures
        pr_view(r) == p_color(s@, i as int),
        r matches Some((_, e)) ==> i < e <= s.len(),
{
    let w = vec!['c', 'o', 'l', 'o', 'r', 's', '.'];
    if !lit_at(s, i, &w) {
        return None;
    }
    match parse_ident(s, i + 7) {
        Some((n, e)) => Some((Values::Str(n), e)),
        None => None,
    }
}

fn parse_value(s: &Vec<char>, i: usize) -> (r: Option<(Values, usize)>)
    requires
        i <= s.len(),
    ensures
        pr_view(r) == p_value(s@, i as int),
        r matches Some((_, e)) ==> i < e <= s.len(),
{
    if let Some((x, e)) = parse_stri(s, i) {
        return Some((Values::Str(x), e));
    }
    if let Some((x, e)) = parse_hex_color(s, i) {
        return Some((Values::Str(x), e));
    }
    if let Some((x, e)) = parse_number(s, i) {
        return Some((Values::Str(x), e));
    }
    if let Some(r) = parse_obj_ref(s, i) {
        return Some(r);
    }
    if let Some(r) = parse_objvar_ref(s, i) {
        return Some(r);
    }
    if let Some(r) = parse_var_ref(s, i) {
        return Some(r);
    }
    if let Some(r) = parse_selfvar_ref(s, i) {
        return Some(r);
    }
    if let Some(r) = parse_long_var_ref(s, i) {
        return Some(r);
    }
    parse_color(s, i)
}

// ---------------------------------------------------------------------------
// Blocks, definitions, rules and the program, executable
// ---------------------------------------------------------------------------

proof fn lemma_values_view_push(v: Seq<Values>, x: Values)
    ensures
        values_seq_view(v.push(x)) == values_seq_view(v).push(x@),
{
    assert(values_seq_view(v.push(x)) =~= values_seq_view(v).push(x@));
}

proof fn lemma_blocks_view_push(v: Seq<BlockAST>, x: BlockAST)
    ensures
        blocks_ast_view(v.push(x)) == blocks_ast_view(v).push(x@),
{
    assert(blocks_ast_view(v.push(x)) =~= blocks_ast_view(v).push(x@));
}

fn parse_pvalue(s: &Vec<char>, i: usize) -> (r: Option<(Values, usize)>)
    requires
        i <= s.len(),
    ensures
        pr_view(r) == p_pvalue(s@, i as int),
        r matches Some((_, e)) ==> i < e <= s.len(),
{
    let a = skip_whitespace(s, i);
    match parse_value(s, a) {
        Some((v, e)) => Some((v, skip_whitespace(s, e))),
        None => None,
    }
}

fn parse_values(s: &Vec<char>, i: usize) -> (r: (Vec<Values>, usize))
    requires
        i <= s.len(),
    ensures
        (values_seq_view(r.0@), r.1 as int) == p_values(s@, i as int),
        i <= r.1 <= s.len(),
{
    match parse_pvalue(s, i) {
        None => (Vec::new(), i),
        Some((v, e)) => {
            let ghost target = p_values(s@, i as int);
            let mut out: Vec<Values> = Vec::new();
            out.push(v);
            assert(values_seq_view(out@) =~= seq![v@]);
            let mut j = e;
            loop
                invariant
                    i <= j <= s.len(),
                    p_values_rest(s@, j as int, values_seq_view(out@)) == target,
                ensures
                    i <= j <= s.len(),
                    target == (values_seq_view(out@), j as int),
                decreases s.len() - j,
            {
                if !at_char(s, j, ',') {
                    break ;
                }
                match parse_pvalue(s, j + 1) {
                    Some((x, f)) => {
                        proof {
                            lemma_values_view_push(out@, x);
                        }
                        out.push(x);
                        j = f;
                    },
                    None => {
                        break ;
                    },
                }
            }
            (out, j)
        },
    }
}

fn parse_block(s: &Vec<char>, i: usize) -> (r: Option<(BlockAST, usize)>)
    requires
        i <= s.len(),
    ensures
        pr_view(r) == p_block(s@, i as int),
        r matches Some((_, e)) ==> i < e <= s.len(),
{
    let a = skip_whitespace(s, i);
    match parse_ident(s, a) {
        Some((n, b)) => {
            if !at_char(s, b, '(') {
                return None;
            }
            let (ps, c) = parse_values(s, b + 1);
            if !at_char(s, c, ')') {
                return None;
            }
            Some((BlockAST { name: n, params: ps, typ: AstTypes::Block }, skip_whitespace(s, c + 1)))
        },
        None => None,
    }
}

fn parse_abil(s: &Vec<char>, i: usize) -> (r: Option<(BlockAST, usize)>)
    requires
        i <= s.len(),
    ensures
        pr_view(r) == p_abil(s@, i as int),
        r matches Some((_, e)) ==> i < e <= s.len(),
{
    let a = skip_whitespace(s, i);
    let w = vec!['a', 'b', 'i', 'l', 'i', 't', 'y', '!'];
    if !(lit_at(s, a, &w) && at_char(s, a + 8, '(')) {
        return None;
    }
    match parse_stri(s, a + 9) {
        Some((n, c)) => {
            if !at_char(s, c, ')') {
                return None;
            }
            let ps: Vec<Values> = Vec::new();
            assert(values_seq_view(ps@) =~= Seq::<ValuesView>::empty());
            Some((BlockAST { name: n, params: ps, typ: AstTypes::Ability }, skip_whitespace(s, c + 1)))
        },
        None => None,
    }
}

fn parse_abil_call(s: &Vec<char>, i: usize) -> (r: Option<(BlockAST, usize)>)
    requires
        i <= s.len(),
    ensures
        pr_view(r) == p_abil_call(s@, i as int),
        r matches Some((_, e)) ==> i < e <= s.len(),
{
    let a = skip_whitespace(s, i);
    let w = vec!['a', 'b', 'i', 'l', 'i', 't', 'i', 'e', 's', '.'];
    if !lit_at(s, a, &w) {
        return None;
    }
    match parse_stri(s, a + 10) {
        Some((n, c)) => {
            if !(at_char(s, c, '(') && at_char(s, c + 1, ')')) {
                return None;
            }
            let ps: Vec<Values> = Vec::new();
            assert(values_seq_view(ps@) =~= Seq::<ValuesView>::empty());
            Some((BlockAST { name: n, params: ps, typ: AstTypes::Ability }, skip_whitespace(s, c + 2)))
        },
        None => None,
    }
}

fn parse_block_or_abil(s: &Vec<char>, i: usize) -> (r: Option<(BlockAST, usize)>)
    requires
        i <= s.len(),
    ensures
        pr_view(r) == p_block_or_abil(s@, i as int),
        r matches Some((_, e)) ==> i < e <= s.len(),
{
    match parse_block(s, i) {
        Some(r) => Some(r),
        None => match parse_abil(s, i) {
            Some(r) => Some(r),
            None => parse_abil_call(s, i),
        },
    }
}

fn parse_blocks(s: &Vec<char>, i: usize) -> (r: (Vec<BlockAST>, usize))
    requires
        i <= s.len(),
    ensures
        (blocks_ast_view(r.0@), r.1 as int) == p_blocks(s@, i as int, Seq::empty()),
        i <= r.1 <= s.len(),
{
    let ghost target = p_blocks(s@, i as int, Seq::empty());
    let mut out: Vec<BlockAST> = Vec::new();
    assert(blocks_ast_view(out@) =~= Seq::<BlockASTView>::empty());
    let mut j = i;
    loop
        invariant
            i <= j <= s.len(),
            p_blocks(s@, j as int, blocks_ast_view(out@)) == target,
        ensures
            i <= j <= s.len(),
            target == (blocks_ast_view(out@), j as int),
        decreases s.len() - j,
    {
        match parse_block_or_abil(s, j) {
            Some((b, e)) => {
                proof {
                    lemma_blocks_view_push(out@, b);
                }
                out.push(b);
                j = e;
            },
            None => {
                break ;
            },
        }
    }
    (out, j)
}

fn parse_braced_blocks(s: &Vec<char>, i: usize) -> (r: Option<(Vec<BlockAST>, usize)>)
    requires
        i <= s.len(),
    ensures
        r matches Some((bs, e)) ==> p_braced_blocks(s@, i as int) == Some(
            (blocks_ast_view(bs@), e as int),
        ) && i < e <= s.len(),
        r is None ==> p_braced_blocks(s@, i as int) is None,
{
    let a = skip_whitespace(s, i);
    if !at_char(s, a, '{') {
        return None;
    }
    let (bs, c) = parse_blocks(s, a + 1);
    if !at_char(s, c, '}') {
        return None;
    }
    Some((bs, skip_whitespace(s, c + 1)))
}

fn parse_var(s: &Vec<char>, i: usize) -> (r: Option<(Script, usize)>)
    requires
        i <= s.len(),
    ensures
        pr_view(r) == p_var(s@, i as int),
        r matches Some((_, e)) ==> i < e <= s.len(),
{
    let a = skip_whitespace(s, i);
    let w = vec!['v', 'a', 'r'];
    if !lit_at(s, a, &w) {
        return None;
    }
    let b = skip_whitespace(s, a + 3);
    match parse_stri(s, b) {
        Some((n, e)) => Some(
            (Script::Define { typ: DefineTypes::Variable(3), name: n }, skip_whitespace(s, e)),
        ),
        None => None,
    }
}

fn parse_obj_ty(s: &Vec<char>, i: usize) -> (r: Option<(String, usize)>)
    requires
        i <= s.len(),
    ensures
        pr_view(r) == p_obj_ty(s@, i as int),
        r matches Some((_, e)) ==> i < e <= s.len(),
{
    let w = vec!['o', 'b', 'j', 'e', 'c', 't', 's'];
    if !(lit_at(s, i, &w) && at_char(s, i + 7, '.')) {
        return None;
    }
    parse_ident(s, i + 8)
}

fn parse_obj(s: &Vec<char>, i: usize) -> (r: Option<(Script, usize)>)
    requires
        i <= s.len(),
    ensures
        pr_view(r) == p_obj(s@, i as int),
        r matches Some((_, e)) ==> i < e <= s.len(),
{
    let a = skip_whitespace(s, i);
    let w = vec!['o', 'b', 'j', 'e', 'c', 't'];
    if !lit_at(s, a, &w) {
        return None;
    }
    match parse_stri(s, skip_whitespace(s, a + 6)) {
        Some((n, e)) => {
            let b = skip_whitespace(s, e);
            if !at_char(s, b, '=') {
                return None;
            }
            match parse_obj_ty(s, skip_whitespace(s, b + 1)) {
                Some((t, f)) => Some(
                    (Script::Define { typ: DefineTypes::Object(t), name: n }, skip_whitespace(s, f)),
                ),
                None => None,
            }
        },
        None => None,
    }
}

fn parse_obj_call(s: &Vec<char>, i: usize) -> (r: Option<(Script, usize)>)
    requires
        i <= s.len(),
    ensures
        pr_view(r) == p_obj_call(s@, i as int),
        r matches Some((_, e)) ==> i < e <= s.len(),
{
    let a = skip_whitespace(s, i);
    let w = vec!['o', 'b', 'j', 'e', 'c', 't'];
    if !lit_at(s, a, &w) {
        return None;
    }
    let b = skip_whitespace(s, a + 6);
    if !at_char(s, b, '(') {
        return None;
    }
    match parse_obj_ty(s, skip_whitespace(s, b + 1)) {
        Some((t, c)) => {
            let d = skip_whitespace(s, c);
            if !at_char(s, d, ',') {
                return None;
            }
            match parse_stri(s, skip_whitespace(s, d + 1)) {
                Some((n, e)) => {
                    let f = skip_whitespace(s, e);
                    if !at_char(s, f, ')') {
                        return None;
                    }
                    Some(
                        (
                            Script::Define { typ: DefineTypes::Object(t), name: n },
                            skip_whitespace(s, f + 1),
                        ),
                    )
                },
                None => None,
            }
        },
        None => None,
    }
}

fn parse_ability_def(s: &Vec<char>, i: usize) -> (r: Option<(Script, usize)>)
    requires
        i <= s.len(),
    ensures
        pr_view(r) == p_ability_def(s@, i as int),
        r matches Some((_, e)) ==> i < e <= s.len(),
{
    let a = skip_whitespace(s, i);
    let w = vec!['a', 'b', 'i', 'l', 'i', 't', 'y'];
    if !lit_at(s, a, &w) {
        return None;
    }
    match parse_stri(s, skip_whitespace(s, a + 7)) {
        Some((n, e)) => match parse_braced_blocks(s, skip_whitespace(s, e)) {
            Some((bs, f)) => Some(
                (Script::Define { typ: DefineTypes::Ability(Some(bs)), name: n }, f),
            ),
            None => None,
        },
        None => None,
    }
}

fn parse_def(s: &Vec<char>, i: usize) -> (r: Option<(Script, usize)>)
    requires
        i <= s.len(),
    ensures
        pr_view(r) == p_def(s@, i as int),
        r matches Some((_, e)) ==> i < e <= s.len(),
{
    let w = vec!['d', 'e', 'f', 'i', 'n', 'e'];
    if !lit_at(s, i, &w) {
        return None;
    }
    if let Some(r) = parse_var(s, i + 6) {
        return Some(r);
    }
    if let Some(r) = parse_obj(s, i + 6) {
        return Some(r);
    }
    if let Some(r) = parse_obj_call(s, i + 6) {
        return Some(r);
    }
    parse_ability_def(s, i + 6)
}

fn parse_relation(s: &Vec<char>, i: usize) -> (r: Option<(String, usize)>)
    requires
        i <= s.len(),
    ensures
        pr_view(r) == p_relation(s@, i as int),
        r matches Some((_, e)) ==> i < e <= s.len(),
{
    let a = skip_whitespace(s, i);
    let eq = vec!['=', '='];
    let ne = vec!['!', '='];
    if lit_at(s, a, &eq) {
        Some((string_from_chars(&eq), skip_whitespace(s, a + 2)))
    } else if lit_at(s, a, &ne) {
        Some((string_from_chars(&ne), skip_whitespace(s, a + 2)))
    } else {
        None
    }
}

fn parse_conditional(s: &Vec<char>, i: usize) -> (r: Option<(Values, usize)>)
    requires
        i <= s.len(),
    ensures
        pr_view(r) == p_conditional(s@, i as int),
        r matches Some((_, e)) ==> i < e <= s.len(),
{
    match parse_value(s, i) {
        Some((a, e)) => match parse_relation(s, e) {
            Some((op, f)) => match parse_value(s, f) {
                Some((b, g)) => Some((Values::Conditional(Box::new(a), op, Box::new(b)), g)),
                None => None,
            },
            None => None,
        },
        None => None,
    }
}

fn parse_actual_cond(s: &Vec<char>, i: usize) -> (r: Option<(Values, usize)>)
    requires
        i <= s.len(),
    ensures
        pr_view(r) == p_actual_cond(s@, i as int),
        r matches Some((_, e)) ==> i < e <= s.len(),
{
    if at_char(s, i, '(') {
        if let Some((c, e)) = parse_conditional(s, i + 1) {
            if at_char(s, e, ')') {
                return Some((c, e + 1));
            }
        }
    }
    parse_conditional(s, i)
}

fn parse_rule_param(s: &Vec<char>, i: usize, paren: bool) -> (r: Option<(Values, usize)>)
    requires
        i <= s.len(),
    ensures
        pr_view(r) == p_rule_param(s@, i as int, paren),
        r matches Some((_, e)) ==> i < e <= s.len(),
{
    let a = skip_whitespace(s, i);
    if let Some((v, e)) = parse_obj_ref(s, a) {
        return Some((v, skip_whitespace(s, e)));
    }
    let c = if paren {
        parse_actual_cond(s, a)
    } else {
        parse_conditional(s, a)
    };
    match c {
        Some((v, e)) => Some((v, skip_whitespace(s, e))),
        None => None,
    }
}

fn parse_rule_params(s: &Vec<char>, i: usize, paren: bool) -> (r: (Vec<Values>, usize))
    requires
        i <= s.len(),
    ensures
        (values_seq_view(r.0@), r.1 as int) == p_rule_params(s@, i as int, paren),
        i <= r.1 <= s.len(),
{
    match parse_rule_param(s, i, paren) {
        None => (Vec::new(), i),
        Some((v, e)) => {
            let ghost target = p_rule_params(s@, i as int, paren);
            let mut out: Vec<Values> = Vec::new();
            out.push(v);
            assert(values_seq_view(out@) =~= seq![v@]);
            let mut j = e;
            loop
                invariant
                    i <= j <= s.len(),
                    p_rule_params_rest(s@, j as int, values_seq_view(out@), paren) == target,
                ensures
                    i <= j <= s.len(),
                    target == (values_seq_view(out@), j as int),
                decreases s.len() - j,
            {
                if !at_char(s, j, ',') {
                    break ;
                }
                match parse_rule_param(s, j + 1, paren) {
                    Some((x, f)) => {
                        proof {
                            lemma_values_view_push(out@, x);
                        }
                        out.push(x);
                        j = f;
                    },
                    None => {
                        break ;
                    },
                }
            }
            (out, j)
        },
    }
}

fn parse_rule_name(s: &Vec<char>, i: usize) -> (r: Option<(String, usize)>)
    requires
        i <= s.len(),
    ensures
        pr_view(r) == p_rule_name(s@, i as int),
        r matches Some((_, e)) ==> i < e <= s.len(),
{
    let a = skip_whitespace(s, i);
    let w = vec!['c', 'o', 'n', 'd'];
    if lit_at(s, a, &w) {
        return Some((string_from_chars(&w), skip_whitespace(s, a + 4)));
    }
    let rw = vec!['r', 'u', 'l', 'e', 's', '.'];
    if lit_at(s, a, &rw) {
        if let Some((n, e)) = parse_ident(s, a + 6) {
            return Some((n, skip_whitespace(s, e)));
        }
    }
    match parse_ident(s, a) {
        Some((n, e)) => Some((n, skip_whitespace(s, e))),
        None => None,
    }
}

fn parse_rule(s: &Vec<char>, i: usize, paren: bool) -> (r: Option<(Script, usize)>)
    requires
        i <= s.len(),
    ensures
        pr_view(r) == p_rule(s@, i as int, paren),
        r matches Some((_, e)) ==> i < e <= s.len(),
{
    let a = skip_whitespace(s, i);
    let w = vec!['w', 'h', 'e', 'n'];
    if !lit_at(s, a, &w) {
        return None;
    }
    match parse_rule_name(s, a + 4) {
        Some((n, b)) => {
            if !at_char(s, b, '(') {
                return None;
            }
            let (ps, c) = parse_rule_params(s, b + 1, paren);
            if !at_char(s, c, ')') {
                return None;
            }
            match parse_braced_blocks(s, c + 1) {
                Some((bs, d)) => Some(
                    (Script::Rule { name: n, con: bs, params: ps }, skip_whitespace(s, d)),
                ),
                None => None,
            }
        },
        None => None,
    }
}

fn parse_member(s: &Vec<char>, i: usize, paren: bool) -> (r: Option<(Script, usize)>)
    requires
        i <= s.len(),
    ensures
        pr_view(r) == p_member(s@, i as int, paren),
        r matches Some((_, e)) ==> i < e <= s.len(),
{
    let a = skip_whitespace(s, i);
    if let Some((m, e)) = parse_def(s, a) {
        return Some((m, skip_whitespace(s, e)));
    }
    match parse_rule(s, a, paren) {
        Some((m, e)) => Some((m, skip_whitespace(s, e))),
        None => None,
    }
}

fn parse_on_body(s: &Vec<char>, i: usize, paren: bool) -> (r: Option<(Vec<Script>, usize)>)
    requires
        i <= s.len(),
    ensures
        r matches Some((ms, e)) ==> p_on_body(s@, i as int, paren) == Some(
            (scripts_view(ms@), e as int),
        )
            && i < e <= s.len(),
        r is None ==> p_on_body(s@, i as int, paren) is None,
{
    let a = skip_whitespace(s, i);
    if !at_char(s, a, '{') {
        return None;
    }
    let ghost target = p_members(s@, a + 1, Seq::empty(), paren);
    let mut out: Vec<Script> = Vec::new();
    assert(scripts_view(out@) =~= Seq::<ScriptView>::empty());
    let mut j = a + 1;
    loop
        invariant
            a + 1 <= j <= s.len(),
            p_members(s@, j as int, scripts_view(out@), paren) == target,
        ensures
            a + 1 <= j <= s.len(),
            target == (scripts_view(out@), j as int),
        decreases s.len() - j,
    {
        match parse_member(s, j, paren) {
            Some((m, e)) => {
                proof {
                    lemma_scripts_view_push(out@, m);
                }
                out.push(m);
                j = e;
            },
            None => {
                break ;
            },
        }
    }
    if !at_char(s, j, '}') {
        return None;
    }
    Some((out, skip_whitespace(s, j + 1)))
}

fn parse_on(s: &Vec<char>, i: usize, paren: bool) -> (r: Option<(Script, usize)>)
    requires
        i <= s.len(),
    ensures
        pr_view(r) == p_on(s@, i as int, paren),
        r matches Some((_, e)) ==> i < e <= s.len(),
{
    let w = vec!['f', 'o', 'r'];
    if !lit_at(s, i, &w) {
        return None;
    }
    match parse_stri(s, skip_whitespace(s, i + 3)) {
        Some((n, e)) => {
            let b = skip_whitespace(s, e);
            match parse_on_body(s, b, paren) {
                Some((ms, f)) => Some((Script::On { obj: n, con: ms }, f)),
                None => {
                    let ms: Vec<Script> = Vec::new();
                    assert(scripts_view(ms@) =~= Seq::<ScriptView>::empty());
                    Some((Script::On { obj: n, con: ms }, b))
                },
            }
        },
        None => None,
    }
}

fn parse_item(s: &Vec<char>, i: usize, paren: bool) -> (r: Option<(Script, usize)>)
    requires
        i <= s.len(),
    ensures
        pr_view(r) == p_item(s@, i as int, paren),
        r matches Some((_, e)) ==> i < e <= s.len(),
{
    match parse_def(s, i) {
        Some(r) => Some(r),
        None => parse_on(s, i, paren),
    }
}

/// A stretch of the source that the parser skipped to recover: no statement
/// parses at `start`, and `end` is the first later position where one does.
#[derive(Debug)]
pub struct ParseError {
    pub start: usize,
    pub end: usize,
}

impl View for ParseError {
    type V = (int, int);

    open spec fn view(&self) -> (int, int) {
        (self.start as int, self.end as int)
    }
}

pub open spec fn errors_view(v: Seq<ParseError>) -> Seq<(int, int)> {
    v.map_values(|e: ParseError| e@)
}

/// The first position after `a` where a statement parses, with the statement.
fn find_recovery(s: &Vec<char>, a: usize, paren: bool) -> (r: Option<(usize, Script, usize)>)
    requires
        a <= s.len(),
    ensures
        r matches Some((k, m, e)) ==> first_item_from(s@, a + 1, paren) == Some(k as int) && p_item(
            s@,
            k as int,
            paren,
        ) == Some((m@, e as int)) && a < k < e <= s.len(),
        r is None ==> first_item_from(s@, a + 1, paren) is None,
{
    if a == s.len() {
        return None;
    }
    let mut j = a + 1;
    loop
        invariant
            a + 1 <= j <= s.len(),
            first_item_from(s@, j as int, paren) == first_item_from(s@, a + 1, paren),
        decreases s.len() - j,
    {
        if let Some((m, e)) = parse_item(s, j, paren) {
            return Some((j, m, e));
        }
        if j == s.len() {
            assert(first_item_from(s@, j + 1, paren) is None);
            return None;
        }
        j = j + 1;
    }
}

/// One step of the program loop: a statement at the first non-blank position.
proof fn lemma_program_step(
    s: Seq<char>,
    j: int,
    items: Seq<ScriptView>,
    errs: Seq<(int, int)>,
    m: ScriptView,
    e: int,
    paren: bool,
)
    requires
        0 <= j <= s.len(),
        p_item(s, skip_ws(s, j), paren) == Some((m, e)),
        j < skip_ws(s, e) <= s.len(),
    ensures
        p_program(s, j, items, errs, paren) == p_program(
            s,
            skip_ws(s, e),
            items.push(m),
            errs,
            paren,
        ),
{
}

/// One step of the program loop: a statement found after skipping.
proof fn lemma_program_recover(
    s: Seq<char>,
    j: int,
    items: Seq<ScriptView>,
    errs: Seq<(int, int)>,
    k: int,
    m: ScriptView,
    e: int,
    paren: bool,
)
    requires
        0 <= j <= s.len(),
        p_item(s, skip_ws(s, j), paren) is None,
        first_item_from(s, skip_ws(s, j) + 1, paren) == Some(k),
        p_item(s, k, paren) == Some((m, e)),
        j < skip_ws(s, e) <= s.len(),
    ensures
        p_program(s, j, items, errs, paren) == p_program(
            s,
            skip_ws(s, e),
            items.push(m),
            errs.push((skip_ws(s, j), k)),
            paren,
        ),
{
}

/// The program loop stops where no statement follows.
proof fn lemma_program_stop(
    s: Seq<char>,
    j: int,
    items: Seq<ScriptView>,
    errs: Seq<(int, int)>,
    paren: bool,
)
    requires
        0 <= j <= s.len(),
        p_item(s, skip_ws(s, j), paren) is None,
        first_item_from(s, skip_ws(s, j) + 1, paren) is None,
    ensures
        p_program(s, j, items, errs, paren) == (items, errs),
{
}

/// Reads the statements of a source text one after another, whitespace
/// between them skipped. Where no statement parses, skips ahead to the first
/// later position where one does and records the skipped span as an error;
/// stops where no statement follows.
fn parse_source(src: &str, paren: bool) -> (r: (Vec<Script>, Vec<ParseError>))
    ensures
        (scripts_view(r.0@), errors_view(r.1@)) == parse_spec(src@, paren),
{
    let s = chars_of(src);
    let ghost target = parse_spec(s@, paren);
    let mut items: Vec<Script> = Vec::new();
    let mut errs: Vec<ParseError> = Vec::new();
    assert(scripts_view(items@) =~= Seq::<ScriptView>::empty());
    assert(errors_view(errs@) =~= Seq::<(int, int)>::empty());
    let mut j: usize = 0;
    loop
        invariant
            j <= s.len(),
            p_program(s@, j as int, scripts_view(items@), errors_view(errs@), paren) == target,
        ensures
            target == (scripts_view(items@), errors_view(errs@)),
        decreases s.len() - j,
    {
        let a = skip_whitespace(&s, j);
        match parse_item(&s, a, paren) {
            Some((m, e)) => {
                let next = skip_whitespace(&s, e);
                proof {
                    lemma_scripts_view_push(items@, m);
                    lemma_program_step(
                        s@,
                        j as int,
                        scripts_view(items@),
                        errors_view(errs@),
                        m@,
                        e as int,
                        paren,
                    );
                }
                items.push(m);
                j = next;
            },
            None => match find_recovery(&s, a, paren) {
                Some((k, m, e)) => {
                    let next = skip_whitespace(&s, e);
                    proof {
                        lemma_scripts_view_push(items@, m);
                        lemma_program_recover(
                            s@,
                            j as int,
                            scripts_view(items@),
                            errors_view(errs@),
                            k as int,
                            m@,
                            e as int,
                            paren,
                        );
                    }
                    items.push(m);
                    let err = ParseError { start: a, end: k };
                    assert(errors_view(errs@.push(err)) =~= errors_view(errs@).push(
                        (a as int, k as int),
                    ));
                    errs.push(err);
                    j = next;
                },
                None => {
                    proof {
                        lemma_program_stop(
                            s@,
                            j as int,
                            scripts_view(items@),
                            errors_view(errs@),
                            paren,
                        );
                    }
                    break ;
                },
            },
        }
    }
    (items, errs)
}

/// Parses a whole Hopperscript source text into its statements, with the
/// skipped spans as errors. A rule's condition may stand in parentheses.
/// The result is exactly `parse_spec` of the text.
pub fn generate_ast(src: &str) -> (r: (Vec<Script>, Vec<ParseError>))
    ensures
        (scripts_view(r.0@), errors_view(r.1@)) == parse_spec(src@, true),
{
    parse_source(src, true)
}

/// Parses a source text with the grammar that `compile` reads: as
/// `generate_ast`, except that a rule's condition is written bare, never in
/// parentheses. The result is exactly `parse_spec` of the text.
pub fn ast(src: &str) -> (r: (Vec<Script>, Vec<ParseError>))
    ensures
        (scripts_view(r.0@), errors_view(r.1@)) == parse_spec(src@, false),
{
    parse_source(src, false)
}

// ---------------------------------------------------------------------------
// Laws of the parser
// ---------------------------------------------------------------------------

proof fn lemma_first_item_from(s: Seq<char>, k0: int, paren: bool)
    requires
        0 <= k0,
    ensures
        first_item_from(s, k0, paren) matches Some(k) ==> {
            &&& k0 <= k <= s.len()
            &&& p_item(s, k, paren) is Some
            &&& forall|j: int| k0 <= j < k ==> #[trigger] p_item(s, j, paren) is None
        },
    decreases s.len() + 1 - k0,
{
    if k0 <= s.len() && p_item(s, k0, paren) is None {
        lemma_first_item_from(s, k0 + 1, paren);
    }
}

/// `(a, k)` is a stretch that recovery skips: no statement parses at `a` or
/// anywhere after it before `k`, and one parses at `k` (in the grammar that
/// `paren` selects).
pub open spec fn is_skipped_stretch(s: Seq<char>, a: int, k: int, paren: bool) -> bool {
    &&& 0 <= a < k <= s.len()
    &&& p_item(s, a, paren) is None
    &&& p_item(s, k, paren) is Some
    &&& forall|j: int| a < j < k ==> #[trigger] p_item(s, j, paren) is None
}

proof fn lemma_program_errors(
    s: Seq<char>,
    i: int,
    items: Seq<ScriptView>,
    errs: Seq<(int, int)>,
    paren: bool,
)
    requires
        0 <= i <= s.len(),
        errs.len() <= items.len(),
        forall|n: int|
            0 <= n < errs.len() ==> #[trigger] is_skipped_stretch(s, errs[n].0, errs[n].1, paren),
    ensures
        ({
            let (items2, errs2) = p_program(s, i, items, errs, paren);
            &&& errs2.len() <= items2.len()
            &&& forall|n: int|
                0 <= n < errs2.len() ==> #[trigger] is_skipped_stretch(
                    s,
                    errs2[n].0,
                    errs2[n].1,
                    paren,
                )
        }),
    decreases s.len() - i,
{
    let a = skip_ws(s, i);
    lemma_skip_ws_bounds(s, i);
    match p_item(s, a, paren) {
        Some((m, e)) => {
            if i < skip_ws(s, e) <= s.len() {
                lemma_program_errors(s, skip_ws(s, e), items.push(m), errs, paren);
            }
        },
        None => {
            lemma_first_item_from(s, a + 1, paren);
            match first_item_from(s, a + 1, paren) {
                Some(k) => {
                    let (m, e) = p_item(s, k, paren)->0;
                    if i < skip_ws(s, e) <= s.len() {
                        let errs2 = errs.push((a, k));
                        assert(is_skipped_stretch(s, a, k, paren));
                        assert forall|n: int| 0 <= n < errs2.len() implies #[trigger] is_skipped_stretch(
                            s,
                            errs2[n].0,
                            errs2[n].1,
                            paren,
                        ) by {
                            if n < errs.len() {
                                assert(errs2[n] == errs[n]);
                            }
                        }
                        lemma_program_errors(s, skip_ws(s, e), items.push(m), errs2, paren);
                    }
                },
                None => {},
            }
        },
    }
}

/// Recovery skips no more than it must: every stretch the parser skips lies
/// within the text, starts where no statement parses, ends at the first
/// later position where one does; and each skipped stretch is followed by a
/// statement, so there are no more skipped stretches than statements. This
/// holds of both grammars, with or without parenthesized conditions.
pub proof fn law_recovery_skips_least(s: Seq<char>, paren: bool)
    ensures
        parse_spec(s, paren).1.len() <= parse_spec(s, paren).0.len(),
        forall|n: int|
            0 <= n < parse_spec(s, paren).1.len() ==> #[trigger] is_skipped_stretch(
                s,
                parse_spec(s, paren).1[n].0,
                parse_spec(s, paren).1[n].1,
                paren,
            ),
{
    lemma_program_errors(s, 0, Seq::empty(), Seq::empty(), paren);
}

/// The body of a string literal that reads back as `t`: a backslash or a
/// quote is escaped with a backslash, every other character stands for itself.
pub open spec fn escape_text(t: Seq<char>) -> Seq<char>
    decreases t.len(),
{
    if t.len() == 0 {
        Seq::empty()
    } else {
        let c = t[0];
        let head = if c == '\\' || c == '"' {
            seq!['\\', c]
        } else {
            seq![c]
        };
        head + escape_text(t.drop_first())
    }
}

proof fn lemma_str_body_escaped(u: Seq<char>, j: int, t: Seq<char>)
    requires
        0 <= j,
        j + escape_text(t).len() < u.len(),
        u.subrange(j, j + escape_text(t).len()) == escape_text(t),
        u[j + escape_text(t).len()] == '"',
    ensures
        str_body(u, j) == (t, j + escape_text(t).len()),
    decreases t.len(),
{
    let e = escape_text(t);
    if t.len() == 0 {
        assert(u[j] == '"');
    } else {
        let c = t[0];
        let rest = escape_text(t.drop_first());
        if c == '\\' || c == '"' {
            assert(e == seq!['\\', c] + rest);
            assert(u[j] == e[0]);
            assert(u[j + 1] == e[1]);
            assert(u.subrange(j + 2, j + 2 + rest.len()) =~= rest) by {
                assert forall|k: int| 0 <= k < rest.len() implies u.subrange(
                    j + 2,
                    j + 2 + rest.len(),
                )[k] == rest[k] by {
                    assert(u.subrange(j, j + e.len())[k + 2] == e[k + 2]);
                }
            }
            lemma_str_body_escaped(u, j + 2, t.drop_first());
            assert(seq![c] + t.drop_first() =~= t);
        } else {
            assert(e == seq![c] + rest);
            assert(u[j] == e[0]);
            assert(u.subrange(j + 1, j + 1 + rest.len()) =~= rest) by {
                assert forall|k: int| 0 <= k < rest.len() implies u.subrange(
                    j + 1,
                    j + 1 + rest.len(),
                )[k] == rest[k] by {
                    assert(u.subrange(j, j + e.len())[k + 1] == e[k + 1]);
                }
            }
            lemma_str_body_escaped(u, j + 1, t.drop_first());
            assert(seq![c] + t.drop_first() =~= t);
        }
    }
}

/// Every text can be written as a string literal: a quote, the escaped text
/// and a quote read back as the text itself, whatever follows.
pub proof fn law_string_literal_reads_back(t: Seq<char>, rest: Seq<char>)
    ensures
        p_stri(seq!['"'] + escape_text(t) + seq!['"'] + rest, 0) == Some(
            (t, escape_text(t).len() + 2int),
        ),
{
    let e = escape_text(t);
    let u = seq!['"'] + e + seq!['"'] + rest;
    assert(u[0] == '"');
    assert(u.subrange(1, 1 + e.len() as int) =~= e);
    assert(u[1 + e.len() as int] == '"');
    lemma_str_body_escaped(u, 1, t);
}

/// The source text `define var "<name>"` for the name `t`.
pub open spec fn define_var_text(t: Seq<char>) -> Seq<char> {
    word_define() + seq![' '] + word_var() + seq![' ', '"'] + escape_text(t) + seq!['"']
}

/// Any name can be defined as a variable: `define var "<name>"`, with the
/// name written as a string literal, parses to exactly one variable
/// definition of that name (code 3), with nothing skipped, in both grammars.
pub proof fn law_define_var_parses(t: Seq<char>, paren: bool)
    ensures
        parse_spec(define_var_text(t), paren) == (
            seq![ScriptView::Define { typ: DefineTypesView::Variable(3), name: t }],
            Seq::<(int, int)>::empty(),
        ),
{
    let e = escape_text(t);
    let s = define_var_text(t);
    let n = s.len() as int;
    assert(n == 13 + e.len());
    assert(s[0] == 'd');
    assert(s[6] == ' ');
    assert(s[7] == 'v');
    assert(s[10] == ' ');
    assert(s[11] == '"');
    assert(s[n - 1] == '"');
    assert(s.subrange(0, 6) =~= word_define());
    assert(s.subrange(7, 10) =~= word_var());
    assert(s.subrange(12, 12 + e.len() as int) =~= e);
    lemma_str_body_escaped(s, 12, t);
    assert(skip_ws(s, 0) == 0);
    assert(skip_ws(s, 7) == 7);
    assert(skip_ws(s, 6) == 7);
    assert(skip_ws(s, 11) == 11);
    assert(skip_ws(s, 10) == 11);
    assert(skip_ws(s, n) == n);
    assert(p_stri(s, 11) == Some((t, n)));
    let m = ScriptView::Define { typ: DefineTypesView::Variable(3), name: t };
    assert(p_var(s, 6) == Some((m, n)));
    assert(p_def(s, 0) == Some((m, n)));
    assert(p_item(s, 0, paren) == Some((m, n)));
    assert(p_item(s, n, paren) is None);
    assert(first_item_from(s, n + 1, paren) is None);
    assert(p_program(s, n, seq![m], Seq::empty(), paren) == (seq![m], Seq::<(int, int)>::empty()));
    assert(Seq::<ScriptView>::empty().push(m) =~= seq![m]);
}

// ---------------------------------------------------------------------------
// The two grammars
// ---------------------------------------------------------------------------

/// A condition in parentheses stands at `i`: an opening parenthesis, a
/// condition, and a closing parenthesis.
pub open spec fn paren_cond_at(s: Seq<char>, i: int) -> bool {
    &&& at(s, i, '(')
    &&& p_conditional(s, i + 1) matches Some((_, e)) && at(s, e, ')')
}

/// A rule parameter read from `i` would be a condition in parentheses.
pub open spec fn paren_param_at(s: Seq<char>, i: int) -> bool {
    p_obj_ref(s, skip_ws(s, i)) is None && paren_cond_at(s, skip_ws(s, i))
}

/// The parameter list read from `i` (as `compile` reads it) holds a
/// parameter that is a condition in parentheses.
pub open spec fn list_has_paren(s: Seq<char>, i: int) -> bool
    decreases s.len() - i,
{
    if paren_param_at(s, i) {
        true
    } else {
        match p_rule_param(s, i, false) {
            Some((_, e)) => if i <= e < s.len() && at(s, e, ',') {
                list_has_paren(s, e + 1)
            } else {
                false
            },
            None => false,
        }
    }
}

/// A rule's parameter list starts at `b`: `when`, a rule name and `(` stand
/// just before it.
pub open spec fn rule_params_start(s: Seq<char>, b: int) -> bool {
    exists|a: int|
        #[trigger] lit(s, a, word_when()) && (p_rule_name(s, a + 4) matches Some((_, c)) && at(
            s,
            c,
            '(',
        ) && b == c + 1)
}

/// No parameter list of a rule in `s` holds a condition in parentheses.
pub open spec fn no_paren_rule_conds(s: Seq<char>) -> bool {
    forall|b: int| #[trigger] rule_params_start(s, b) ==> !list_has_paren(s, b)
}

proof fn lemma_same_rule_param(s: Seq<char>, i: int)
    requires
        !paren_param_at(s, i),
    ensures
        p_rule_param(s, i, true) == p_rule_param(s, i, false),
{
}

proof fn lemma_same_rule_params_rest(s: Seq<char>, i: int, acc: Seq<ValuesView>)
    requires
        at(s, i, ',') ==> !list_has_paren(s, i + 1),
    ensures
        p_rule_params_rest(s, i, acc, true) == p_rule_params_rest(s, i, acc, false),
    decreases s.len() - i,
{
    if at(s, i, ',') {
        lemma_same_rule_param(s, i + 1);
        if let Some((v, e)) = p_rule_param(s, i + 1, true) {
            if i < e <= s.len() {
                lemma_same_rule_params_rest(s, e, acc.push(v));
            }
        }
    }
}

proof fn lemma_skip_ws_ge(s: Seq<char>, i: int)
    ensures
        skip_ws(s, i) >= i,
    decreases s.len() - i,
{
    if 0 <= i < s.len() && is_ws(s[i]) {
        lemma_skip_ws_ge(s, i + 1);
    } else if lit(s, i, word_comment_open()) && i < comment_end(s, i + 2) <= s.len() {
        lemma_skip_ws_ge(s, comment_end(s, i + 2));
    }
}

proof fn lemma_str_body_ge(s: Seq<char>, i: int)
    ensures
        str_body(s, i).1 >= i,
    decreases s.len() - i,
{
    if 0 <= i < s.len() && s[i] != '\\' && s[i] != '"' {
        lemma_str_body_ge(s, i + 1);
    } else if 0 <= i && i + 1 < s.len() && s[i] == '\\' && escape_of(s[i + 1]) is Some {
        lemma_str_body_ge(s, i + 2);
    }
}

proof fn lemma_ident_end_ge(s: Seq<char>, i: int)
    ensures
        ident_end(s, i) >= i,
    decreases s.len() - i,
{
    if 0 <= i < s.len() && (is_alnum(s[i]) || s[i] == '_') {
        lemma_ident_end_ge(s, i + 1);
    }
}

proof fn lemma_stri_advances(s: Seq<char>, i: int)
    ensures
        p_stri(s, i) matches Some((_, e)) ==> i < e,
{
    lemma_str_body_ge(s, i + 1);
}

proof fn lemma_value_advances(s: Seq<char>, i: int)
    ensures
        p_value(s, i) matches Some((_, e)) ==> i < e,
{
    lemma_stri_advances(s, i);
    lemma_stri_advances(s, i + 1);
    lemma_stri_advances(s, i + 3);
    lemma_stri_advances(s, i + 7);
    if let Some((_, e)) = p_stri(s, i + 1) {
        lemma_stri_advances(s, e + 1);
    }
    lemma_ident_end_ge(s, i + 8);
}

proof fn lemma_conditional_advances(s: Seq<char>, i: int)
    ensures
        p_conditional(s, i) matches Some((_, e)) ==> i < e,
{
    lemma_value_advances(s, i);
    if let Some((_, e1)) = p_value(s, i) {
        lemma_skip_ws_ge(s, e1);
        lemma_skip_ws_ge(s, skip_ws(s, e1) + 2);
        if let Some((_, e2)) = p_relation(s, e1) {
            lemma_value_advances(s, e2);
        }
    }
}

proof fn lemma_rule_param_advances(s: Seq<char>, i: int, paren: bool)
    ensures
        p_rule_param(s, i, paren) matches Some((_, e)) ==> i < e,
{
    let a = skip_ws(s, i);
    lemma_skip_ws_ge(s, i);
    lemma_stri_advances(s, a + 1);
    lemma_conditional_advances(s, a);
    lemma_conditional_advances(s, a + 1);
    if let Some((_, e0)) = p_obj_ref(s, a) {
        lemma_skip_ws_ge(s, e0);
    }
    if let Some((_, e0)) = p_rule_cond(s, a, paren) {
        lemma_skip_ws_ge(s, e0);
    }
}

proof fn lemma_same_rule(s: Seq<char>, i: int)
    requires
        no_paren_rule_conds(s),
    ensures
        p_rule(s, i, true) == p_rule(s, i, false),
{
    let a = skip_ws(s, i);
    if lit(s, a, word_when()) {
        if let Some((n, c)) = p_rule_name(s, a + 4) {
            if at(s, c, '(') {
                assert(rule_params_start(s, c + 1));
                lemma_same_rule_param(s, c + 1);
                lemma_rule_param_advances(s, c + 1, false);
                if let Some((v, e)) = p_rule_param(s, c + 1, true) {
                    lemma_same_rule_params_rest(s, e, seq![v]);
                }
            }
        }
    }
}

proof fn lemma_same_members(s: Seq<char>, i: int, acc: Seq<ScriptView>)
    requires
        no_paren_rule_conds(s),
    ensures
        p_members(s, i, acc, true) == p_members(s, i, acc, false),
    decreases s.len() - i,
{
    lemma_same_rule(s, skip_ws(s, i));
    if let Some((m, e)) = p_member(s, i, true) {
        if i < e <= s.len() {
            lemma_same_members(s, e, acc.push(m));
        }
    }
}

proof fn lemma_same_item(s: Seq<char>, i: int)
    requires
        no_paren_rule_conds(s),
    ensures
        p_item(s, i, true) == p_item(s, i, false),
{
    if let Some((n, e)) = p_stri(s, skip_ws(s, i + 3)) {
        let b = skip_ws(s, e);
        lemma_same_members(s, skip_ws(s, b) + 1, Seq::empty());
    }
}

proof fn lemma_same_first_item(s: Seq<char>, k: int)
    requires
        no_paren_rule_conds(s),
    ensures
        first_item_from(s, k, true) == first_item_from(s, k, false),
    decreases s.len() + 1 - k,
{
    if 0 <= k <= s.len() {
        lemma_same_item(s, k);
        lemma_same_first_item(s, k + 1);
    }
}

proof fn lemma_same_program(
    s: Seq<char>,
    i: int,
    items: Seq<ScriptView>,
    errs: Seq<(int, int)>,
)
    requires
        no_paren_rule_conds(s),
    ensures
        p_program(s, i, items, errs, true) == p_program(s, i, items, errs, false),
    decreases s.len() - i,
{
    let a = skip_ws(s, i);
    lemma_same_item(s, a);
    match p_item(s, a, true) {
        Some((m, e)) => {
            if i < skip_ws(s, e) <= s.len() {
                lemma_same_program(s, skip_ws(s, e), items.push(m), errs);
            }
        },
        None => {
            lemma_same_first_item(s, a + 1);
            if let Some(k) = first_item_from(s, a + 1, true) {
                lemma_same_item(s, k);
                let (m, e) = p_item(s, k, true)->0;
                if i < skip_ws(s, e) <= s.len() {
                    lemma_same_program(s, skip_ws(s, e), items.push(m), errs.push((a, k)));
                }
            }
        },
    }
}

/// The grammar that `compile` reads differs from that of `generate_ast`
/// only in rule conditions written in parentheses: on a text where no
/// parameter list of a rule holds one, both give the same statements and
/// the same skipped spans.
pub proof fn law_grammars_agree_without_parenthesized_conditions(s: Seq<char>)
    requires
        no_paren_rule_conds(s),
    ensures
        parse_spec(s, true) == parse_spec(s, false),
{
    lemma_same_program(s, 0, Seq::empty(), Seq::empty());
}

// ---------------------------------------------------------------------------
// Blanks and colours
// ---------------------------------------------------------------------------

/// A whitespace character is skipped wherever blanks are: skipping from a
/// position that holds one, such as a carriage return, ends where skipping
/// from the next position ends.
pub proof fn law_whitespace_is_skipped(s: Seq<char>, i: int)
    requires
        0 <= i < s.len(),
        s[i] == '\t' || s[i] == '\n' || s[i] == '\u{b}' || s[i] == '\u{c}' || s[i] == '\r' || s[i]
            == ' ' || s[i] == '\u{85}' || s[i] == '\u{a0}' || s[i] == '\u{1680}' || ('\u{2000}'
            <= s[i] && s[i] <= '\u{200a}') || s[i] == '\u{2028}' || s[i] == '\u{2029}' || s[i]
            == '\u{202f}' || s[i] == '\u{205f}' || s[i] == '\u{3000}',
    ensures
        skip_ws(s, i) == skip_ws(s, i + 1),
{
}

/// `#` and six characters of `0123456789abcdefABCDEF`, in either case, is a
/// value: the string of those seven characters.
pub proof fn law_hex_colour_is_a_value(s: Seq<char>, i: int)
    requires
        0 <= i,
        i + 7 <= s.len(),
        s[i] == '#',
        forall|k: int|
            i < k < i + 7 ==> (('0' <= #[trigger] s[k] && s[k] <= '9') || ('a' <= s[k] && s[k]
                <= 'f') || ('A' <= s[k] && s[k] <= 'F')),
    ensures
        p_value(s, i) == Some((ValuesView::Str(s.subrange(i, i + 7)), i + 7)),
{
    assert(all_hex(s, i + 1, i + 7));
}

// ---------------------------------------------------------------------------
// The forms of a value
// ---------------------------------------------------------------------------

/// A string literal is a string value.
pub proof fn law_string_value(s: Seq<char>, i: int, t: Seq<char>, e: int)
    requires
        p_stri(s, i) == Some((t, e)),
    ensures
        p_value(s, i) == Some((ValuesView::Str(t), e)),
{
}

/// `o` and a string literal name an object.
pub proof fn law_object_value(s: Seq<char>, i: int, n: Seq<char>, e: int)
    requires
        0 <= i < s.len(),
        s[i] == 'o',
        p_stri(s, i + 1) == Some((n, e)),
    ensures
        p_value(s, i) == Some((ValuesView::Object(n), e)),
{
}

/// `v"o"."n"` names the variable `n` of the object `o`.
pub proof fn law_object_variable_value(s: Seq<char>, i: int, o: Seq<char>, e: int, n: Seq<char>, f: int)
    requires
        0 <= i < s.len(),
        s[i] == 'v',
        p_stri(s, i + 1) == Some((o, e)),
        0 <= e < s.len(),
        s[e] == '.',
        p_stri(s, e + 1) == Some((n, f)),
    ensures
        p_value(s, i) == Some((ValuesView::ObjectVariable(o, n), f)),
{
}

/// `v"n"` not followed by `."…"` names the game variable `n` (code 3).
pub proof fn law_game_variable_value(s: Seq<char>, i: int, n: Seq<char>, e: int)
    requires
        0 <= i < s.len(),
        s[i] == 'v',
        p_stri(s, i + 1) == Some((n, e)),
        !(at(s, e, '.') && p_stri(s, e + 1) is Some),
    ensures
        p_value(s, i) == Some((ValuesView::Variable(n, 3), e)),
{
}

/// `v Self."n"` names the variable `n` of the object itself (code 4).
pub proof fn law_self_variable_value(s: Seq<char>, i: int, n: Seq<char>, e: int)
    requires
        0 <= i,
        i + 7 <= s.len(),
        s.subrange(i, i + 7) == seq!['v', ' ', 'S', 'e', 'l', 'f', '.'],
        p_stri(s, i + 7) == Some((n, e)),
    ensures
        p_value(s, i) == Some((ValuesView::Variable(n, 4), e)),
{
    assert(s[i] == s.subrange(i, i + 7)[0]);
    assert(s[i + 1] == s.subrange(i, i + 7)[1]);
    assert(!(at(s, i + 1, '"')));
}

/// A run of ASCII digits, as long as it goes, is a number value.
pub proof fn law_number_value(s: Seq<char>, i: int, e: int)
    requires
        0 <= i < e <= s.len(),
        forall|k: int| i <= k < e ==> '0' <= #[trigger] s[k] && s[k] <= '9',
        e == s.len() || !('0' <= s[e] && s[e] <= '9'),
    ensures
        p_value(s, i) == Some((ValuesView::Str(s.subrange(i, e)), e)),
{
    lemma_digits_run(s, i, e);
}

proof fn lemma_digits_run(s: Seq<char>, i: int, e: int)
    requires
        0 <= i <= e <= s.len(),
        forall|k: int| i <= k < e ==> '0' <= #[trigger] s[k] && s[k] <= '9',
        e == s.len() || !('0' <= s[e] && s[e] <= '9'),
    ensures
        digits_end(s, i) == e,
    decreases e - i,
{
    if i < e {
        lemma_digits_run(s, i + 1, e);
    }
}

} // verus!
