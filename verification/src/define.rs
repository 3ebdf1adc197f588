//! A parser for single `define var "name"` and `define object "name"`
//! (or `define object(objects.TYPE, "name")`) statements, giving the name and a kind code (0 for a variable, 1 for an
//! object).
use vstd::prelude::*;
use crate::text::{
    chars_of, is_alnum, is_alpha, is_ident_continue, is_ident_start, is_ws, is_whitespace, sub_chars,
    sub_string,
};
use crate::typess::{DefineError, DefineErrorView, DefineErrorKind, string_chars, string_spec};

verus! {

/// The end of the leading whitespace of `s`.
pub open spec fn trim_start_at(s: Seq<char>, k: int) -> int
    decreases s.len() - k,
{
    if 0 <= k < s.len() && is_ws(s[k]) {
        trim_start_at(s, k + 1)
    } else {
        k
    }
}

/// The start of the trailing whitespace of `s[..n]`.
pub open spec fn trim_end_at(s: Seq<char>, n: int) -> int
    decreases n,
{
    if 0 < n <= s.len() && is_ws(s[n - 1]) {
        trim_end_at(s, n - 1)
    } else {
        n
    }
}

/// `s` without leading and trailing whitespace (`str::trim`).
pub open spec fn trim(s: Seq<char>) -> Seq<char> {
    let a = trim_start_at(s, 0);
    let b = trim_end_at(s, s.len() as int);
    if a < b {
        s.subrange(a, b)
    } else {
        Seq::empty()
    }
}

/// The end of the run of spaces and tabs at the start of `s`.
pub open spec fn spaces_end(s: Seq<char>, k: int) -> int
    decreases s.len() - k,
{
    if 0 <= k < s.len() && (s[k] == ' ' || s[k] == '\t') {
        spaces_end(s, k + 1)
    } else {
        k
    }
}

pub open spec fn starts_with(s: Seq<char>, w: Seq<char>) -> bool {
    w.len() <= s.len() && s.subrange(0, w.len() as int) == w
}

/// A keyword `w` followed by a quoted string, with whitespace around the
/// string ignored; on success the rest, the string and `code`.
pub open spec fn keyword_string_spec(r: Seq<char>, w: Seq<char>, code: i16) -> Result<
    (Seq<char>, (Seq<char>, i16)),
    DefineErrorView,
> {
    if starts_with(r, w) {
        match string_spec(trim(r.skip(w.len() as int))) {
            Ok((a, b)) => Ok((a, (b, code))),
            Err(e) => Err(e),
        }
    } else {
        Err(DefineErrorView::Error(r, DefineErrorKind::Tag))
    }
}

/// `object(objects.`, which opens the call form of an object definition.
pub open spec fn word_object_call() -> Seq<char> {
    seq!['o', 'b', 'j', 'e', 'c', 't', '(', 'o', 'b', 'j', 'e', 'c', 't', 's', '.']
}

/// The end of the run of identifier characters in `t` from `k`.
pub open spec fn name_end(t: Seq<char>, k: int) -> int
    decreases t.len() - k,
{
    if 0 <= k < t.len() && (is_alnum(t[k]) || t[k] == '_') {
        name_end(t, k + 1)
    } else {
        k
    }
}

/// `object(objects.TYPE, "name")` at the start of `r`, with spaces or tabs
/// allowed before the name: the rest after `)` and the name.
pub open spec fn object_call_spec(r: Seq<char>) -> Option<(Seq<char>, Seq<char>)> {
    if starts_with(r, word_object_call()) {
        let t = r.skip(15);
        let k = name_end(t, 0);
        if t.len() > 0 && (is_alpha(t[0]) || t[0] == '_') && k < t.len() && t[k] == ',' {
            let u = t.skip(k + 1);
            match string_spec(u.skip(spaces_end(u, 0))) {
                Ok((rest, n)) => if rest.len() > 0 && rest[0] == ')' {
                    Some((rest.skip(1), n))
                } else {
                    None
                },
                Err(_) => None,
            }
        } else {
            None
        }
    } else {
        None
    }
}

/// `define`, one or more spaces or tabs, then `var "name"` (code 0), or else
/// `object "name"` (code 1), or else `object(objects.TYPE, "name")` (code 1).
/// Where none applies, the failure of the `object "name"` form is the result;
/// input made only of spaces after `define` needs more input.
pub open spec fn define_spec(i: Seq<char>) -> Result<(Seq<char>, (Seq<char>, i16)), DefineErrorView> {
    if !starts_with(i, seq!['d', 'e', 'f', 'i', 'n', 'e']) {
        Err(DefineErrorView::Error(i, DefineErrorKind::Tag))
    } else {
        let d = i.skip(6);
        let j = spaces_end(d, 0);
        if j == 0 && d.len() > 0 {
            Err(DefineErrorView::Error(d, DefineErrorKind::Space))
        } else if j >= d.len() {
            Err(DefineErrorView::Incomplete)
        } else {
            let r = d.skip(j);
            match keyword_string_spec(r, seq!['v', 'a', 'r'], 0) {
                Ok(x) => Ok(x),
                Err(_) => match keyword_string_spec(r, seq!['o', 'b', 'j', 'e', 'c', 't'], 1) {
                    Ok(x) => Ok(x),
                    Err(e) => match object_call_spec(r) {
                        Some((rest, n)) => Ok((rest, (n, 1))),
                        None => Err(e),
                    },
                },
            }
        }
    }
}

fn starts_with_chars(s: &Vec<char>, w: &Vec<char>) -> (r: bool)
    ensures
        r == starts_with(s@, w@),
{
    if w.len() > s.len() {
        return false;
    }
    let mut k: usize = 0;
    while k < w.len()
        invariant
            k <= w.len() <= s.len(),
            forall|m: int| 0 <= m < k ==> s@[m] == w@[m],
        decreases w.len() - k,
    {
        if s[k] != w[k] {
            assert(s@.subrange(0, w.len() as int)[k as int] != w@[k as int]);
            return false;
        }
        k = k + 1;
    }
    assert(s@.subrange(0, w.len() as int) =~= w@);
    true
}

fn trim_chars(s: &Vec<char>) -> (r: Vec<char>)
    ensures
        r@ == trim(s@),
{
    let mut a: usize = 0;
    while a < s.len() && is_whitespace(s[a])
        invariant
            a <= s.len(),
            trim_start_at(s@, a as int) == trim_start_at(s@, 0),
        decreases s.len() - a,
    {
        a = a + 1;
    }
    let mut b: usize = s.len();
    while b > 0 && is_whitespace(s[b - 1])
        invariant
            b <= s.len(),
            trim_end_at(s@, b as int) == trim_end_at(s@, s.len() as int),
        decreases b,
    {
        b = b - 1;
    }
    if a < b {
        sub_chars(s, a, b)
    } else {
        Vec::new()
    }
}

fn keyword_string(r: &Vec<char>, w: &Vec<char>, code: i16) -> (res: Result<
    (String, (String, i16)),
    DefineError,
>)
    ensures
        match res {
            Ok((a, (b, c))) => keyword_string_spec(r@, w@, code) == Ok::<
                (Seq<char>, (Seq<char>, i16)),
                DefineErrorView,
            >((a@, (b@, c))),
            Err(e) => keyword_string_spec(r@, w@, code) == Err::<
                (Seq<char>, (Seq<char>, i16)),
                DefineErrorView,
            >(e@),
        },
{
    if !starts_with_chars(r, w) {
        assert(r@.subrange(0, r.len() as int) =~= r@);
        return Err(DefineError::Error { input: sub_string(r, 0, r.len()), kind: DefineErrorKind::Tag });
    }
    let p = sub_chars(r, w.len(), r.len());
    assert(p@ =~= r@.skip(w.len() as int));
    let t = trim_chars(&p);
    match string_chars(&t) {
        Ok((a, b)) => Ok((a, (b, code))),
        Err(e) => Err(e),
    }
}

/// The call form of an object definition at the start of `r`.
fn object_call(r: &Vec<char>) -> (res: Option<(String, String)>)
    ensures
        match res {
            Some((rest, n)) => object_call_spec(r@) == Some((rest@, n@)),
            None => object_call_spec(r@) is None,
        },
{
    let w = vec!['o', 'b', 'j', 'e', 'c', 't', '(', 'o', 'b', 'j', 'e', 'c', 't', 's', '.'];
    if !starts_with_chars(r, &w) {
        return None;
    }
    let t = sub_chars(r, 15, r.len());
    assert(t@ =~= r@.skip(15));
    if !(t.len() > 0 && is_ident_start(t[0])) {
        return None;
    }
    let mut k: usize = 1;
    while k < t.len() && is_ident_continue(t[k])
        invariant
            1 <= k <= t.len(),
            name_end(t@, k as int) == name_end(t@, 0),
        decreases t.len() - k,
    {
        k = k + 1;
    }
    if !(k < t.len() && t[k] == ',') {
        return None;
    }
    let u = sub_chars(&t, k + 1, t.len());
    assert(u@ =~= t@.skip(k + 1));
    let mut j: usize = 0;
    while j < u.len() && (u[j] == ' ' || u[j] == '\t')
        invariant
            j <= u.len(),
            spaces_end(u@, j as int) == spaces_end(u@, 0),
        decreases u.len() - j,
    {
        j = j + 1;
    }
    let v = sub_chars(&u, j, u.len());
    assert(v@ =~= u@.skip(j as int));
    match string_chars(&v) {
        Ok((rest, n)) => {
            let rc = chars_of(rest.as_str());
            if rc.len() > 0 && rc[0] == ')' {
                let after = sub_string(&rc, 1, rc.len());
                assert(after@ =~= rest@.skip(1));
                Some((after, n))
            } else {
                None
            }
        },
        Err(_) => None,
    }
}

/// Parse `define var "name"`, `define object "name"` or
/// `define object(objects.TYPE, "name")` at the start of `i`:
/// the rest of the input, the name, and 0 for a variable or 1 for an object.
pub fn define(i: &str) -> (r: Result<(String, (String, i16)), DefineError>)
    ensures
        match r {
            Ok((a, (b, c))) => define_spec(i@) == Ok::<
                (Seq<char>, (Seq<char>, i16)),
                DefineErrorView,
            >((a@, (b@, c))),
            Err(e) => define_spec(i@) == Err::<(Seq<char>, (Seq<char>, i16)), DefineErrorView>(
                e@,
            ),
        },
{
    let s = chars_of(i);
    let kw = vec!['d', 'e', 'f', 'i', 'n', 'e'];
    if !starts_with_chars(&s, &kw) {
        assert(s@.subrange(0, s.len() as int) =~= s@);
        return Err(DefineError::Error { input: sub_string(&s, 0, s.len()), kind: DefineErrorKind::Tag });
    }
    let d = sub_chars(&s, 6, s.len());
    assert(d@ =~= s@.skip(6));
    let mut j: usize = 0;
    while j < d.len() && (d[j] == ' ' || d[j] == '\t')
        invariant
            j <= d.len(),
            spaces_end(d@, j as int) == spaces_end(d@, 0),
        decreases d.len() - j,
    {
        j = j + 1;
    }
    if j == 0 && d.len() > 0 {
        assert(d@.subrange(0, d.len() as int) =~= d@);
        return Err(DefineError::Error { input: sub_string(&d, 0, d.len()), kind: DefineErrorKind::Space });
    }
    if j >= d.len() {
        return Err(DefineError::Incomplete);
    }
    let r = sub_chars(&d, j, d.len());
    assert(r@ =~= d@.skip(j as int));
    let var_kw = vec!['v', 'a', 'r'];
    match keyword_string(&r, &var_kw, 0) {
        Ok(x) => Ok(x),
        Err(_) => {
            let obj_kw = vec!['o', 'b', 'j', 'e', 'c', 't'];
            match keyword_string(&r, &obj_kw, 1) {
                Ok(x) => Ok(x),
                Err(e) => match object_call(&r) {
                    Some((rest, n)) => Ok((rest, (n, 1))),
                    None => Err(e),
                },
            }
        },
    }
}

} // verus!
