//! Quoted strings for the `define` statement parser, and that parser's errors.
use vstd::prelude::*;
use crate::text::{chars_of, sub_string};

verus! {

/// What a parser of this module checked when it failed.
#[derive(Debug, PartialEq, Eq, Structural)]
pub enum DefineErrorKind {
    /// An expected keyword.
    Tag,
    /// Expected spaces or tabs.
    Space,
    /// An expected character.
    Char,
    /// Expected at least one character before a quote.
    IsNot,
}

/// A failure of a parser of this module: more input is needed, or the input
/// at `input` does not match what `kind` describes.
#[derive(Debug)]
pub enum DefineError {
    Incomplete,
    Error { input: String, kind: DefineErrorKind },
}

pub enum DefineErrorView {
    Incomplete,
    Error(Seq<char>, DefineErrorKind),
}

impl View for DefineError {
    type V = DefineErrorView;

    open spec fn view(&self) -> DefineErrorView {
        match self {
            DefineError::Incomplete => DefineErrorView::Incomplete,
            DefineError::Error { input, kind } => DefineErrorView::Error(input@, *kind),
        }
    }
}

/// The first position at or after `k` that holds a quote, or the length.
pub open spec fn quote_from(s: Seq<char>, k: int) -> int
    decreases s.len() - k,
{
    if 0 <= k < s.len() && s[k] != '"' {
        quote_from(s, k + 1)
    } else {
        k
    }
}

/// A string in quotes at the start of `s`: a quote, one or more characters
/// other than a quote, and a quote. On success, the rest of `s` and the text
/// between the quotes.
pub open spec fn string_spec(s: Seq<char>) -> Result<(Seq<char>, Seq<char>), DefineErrorView> {
    if !(s.len() > 0 && s[0] == '"') {
        Err(DefineErrorView::Error(s, DefineErrorKind::Char))
    } else {
        let e = quote_from(s, 1);
        if e == 1 {
            Err(DefineErrorView::Error(s.skip(1), DefineErrorKind::IsNot))
        } else if e >= s.len() {
            Err(DefineErrorView::Error(Seq::empty(), DefineErrorKind::Char))
        } else {
            Ok((s.skip(e + 1), s.subrange(1, e)))
        }
    }
}

/// The quoted string at the start of `v`, on characters.
pub fn string_chars(v: &Vec<char>) -> (r: Result<(String, String), DefineError>)
    ensures
        match r {
            Ok((rest, text)) => string_spec(v@) == Ok::<
                (Seq<char>, Seq<char>),
                DefineErrorView,
            >((rest@, text@)),
            Err(e) => string_spec(v@) == Err::<(Seq<char>, Seq<char>), DefineErrorView>(e@),
        },
{
    if !(v.len() > 0 && v[0] == '"') {
        assert(v@.subrange(0, v.len() as int) =~= v@);
        return Err(DefineError::Error { input: sub_string(v, 0, v.len()), kind: DefineErrorKind::Char });
    }
    let mut e: usize = 1;
    while e < v.len() && v[e] != '"'
        invariant
            1 <= e <= v.len(),
            quote_from(v@, e as int) == quote_from(v@, 1),
        decreases v.len() - e,
    {
        e = e + 1;
    }
    assert(quote_from(v@, e as int) == e);
    if e == 1 {
        assert(v@.subrange(1, v.len() as int) =~= v@.skip(1));
        Err(DefineError::Error { input: sub_string(v, 1, v.len()), kind: DefineErrorKind::IsNot })
    } else if e >= v.len() {
        let input = sub_string(v, v.len(), v.len());
        assert(input@ =~= Seq::<char>::empty());
        Err(DefineError::Error { input, kind: DefineErrorKind::Char })
    } else {
        assert(v@.subrange(e + 1, v.len() as int) =~= v@.skip(e + 1));
        Ok((sub_string(v, e + 1, v.len()), sub_string(v, 1, e)))
    }
}

/// For strings (`""`): the quoted string at the start of `i`, as the rest of
/// `i` and the text between the quotes.
pub fn string(i: &str) -> (r: Result<(String, String), DefineError>)
    ensures
        match r {
            Ok((rest, text)) => string_spec(i@) == Ok::<
                (Seq<char>, Seq<char>),
                DefineErrorView,
            >((rest@, text@)),
            Err(e) => string_spec(i@) == Err::<(Seq<char>, Seq<char>), DefineErrorView>(e@),
        },
{
    let v = chars_of(i);
    string_chars(&v)
}

proof fn lemma_quote_from(s: Seq<char>, k: int)
    requires
        0 <= k <= s.len(),
    ensures
        k <= quote_from(s, k) <= s.len(),
        forall|j: int| k <= j < quote_from(s, k) ==> #[trigger] s[j] != '"',
        quote_from(s, k) < s.len() ==> s[quote_from(s, k)] == '"',
    decreases s.len() - k,
{
    if k < s.len() && s[k] != '"' {
        lemma_quote_from(s, k + 1);
    }
}

/// A quoted string is read back exactly: on success the input is a quote,
/// the text, a quote and the rest; the text is not empty and holds no quote.
pub proof fn law_string_reads_back(s: Seq<char>)
    ensures
        string_spec(s) matches Ok((rest, text)) ==> {
            &&& s == seq!['"'] + text + seq!['"'] + rest
            &&& text.len() > 0
            &&& forall|j: int| 0 <= j < text.len() ==> #[trigger] text[j] != '"'
        },
{
    if s.len() > 0 {
        lemma_quote_from(s, 1);
        if let Ok((rest, text)) = string_spec(s) {
            let e = quote_from(s, 1);
            let t = seq!['"'] + text + seq!['"'] + rest;
            assert(t.len() == s.len());
            assert forall|j: int| 0 <= j < s.len() implies #[trigger] t[j] == s[j] by {
                if j == 0 {
                } else if j < e {
                    assert(t[j] == text[j - 1]);
                } else if j == e {
                } else {
                    assert(t[j] == rest[j - e - 1]);
                }
            }
            assert(s =~= t);
        }
    }
}

proof fn lemma_quote_from_text(s: Seq<char>, t: Seq<char>, k: int)
    requires
        0 <= k <= t.len(),
        s.len() > t.len() + 1,
        forall|j: int| 0 <= j < t.len() ==> s[j + 1] == t[j] && #[trigger] t[j] != '"',
        s[t.len() + 1int] == '"',
    ensures
        quote_from(s, k + 1) == t.len() + 1,
    decreases t.len() - k,
{
    if k < t.len() {
        assert(s[k + 1] == t[k]);
        lemma_quote_from_text(s, t, k + 1);
    }
}

/// Every quoted text without a quote in it is read: a quote, a non-empty
/// text holding no quote, a quote and any rest give the rest and the text.
pub proof fn law_quoted_text_is_read(t: Seq<char>, rest: Seq<char>)
    requires
        t.len() > 0,
        forall|j: int| 0 <= j < t.len() ==> #[trigger] t[j] != '"',
    ensures
        string_spec(seq!['"'] + t + seq!['"'] + rest) == Ok::<
            (Seq<char>, Seq<char>),
            DefineErrorView,
        >((rest, t)),
{
    let s = seq!['"'] + t + seq!['"'] + rest;
    assert forall|j: int| 0 <= j < t.len() implies s[j + 1] == t[j] && #[trigger] t[j] != '"' by {}
    assert(s[t.len() + 1int] == '"');
    lemma_quote_from_text(s, t, 0);
    assert(s.skip(t.len() + 2int) =~= rest);
    assert(s.subrange(1, t.len() + 1int) =~= t);
}

} // verus!
