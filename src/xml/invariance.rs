//! What a parse reads depends only on the text ahead of it: shifting the
//! rest of a document leaves its events unchanged. From this follows that a
//! comment is never observed.
use vstd::prelude::*;

use crate::xml::sax_parser::{
    comment_end, first_double_dash, first_index, is_space, matches_at, prolog,
};
use crate::xml::syntax::{
    attribute_at, attribute_name_stops, attributes_from, body, comment, document, end_tag,
    first_of, lemma_attribute_progress, lemma_attributes_bound, lemma_first_double_dash,
    lemma_first_index, lemma_first_of, lemma_skip_ws, lemma_step_progress, lemma_text_progress,
    skip_ws, start_tag, tag_name_stops, text, ErrorView, ParseState,
};

verus! {

/// From position `lo` on, `t` is `s` read `d` characters later.
pub open spec fn shifted(s: Seq<char>, t: Seq<char>, d: int, lo: int) -> bool {
    &&& 0 <= d
    &&& 0 <= lo
    &&& s.len() == t.len() + d
    &&& forall|i: int| lo <= i < t.len() ==> s[i + d] == #[trigger] t[i]
}

pub open spec fn shift_position(o: Option<int>, d: int) -> Option<int> {
    match o {
        Some(k) => Some(k + d),
        None => None,
    }
}

pub open spec fn shift_state(st: ParseState, d: int) -> ParseState {
    ParseState { pos: st.pos + d, ..st }
}

pub open spec fn shift_step(r: Result<ParseState, ErrorView>, d: int) -> Result<ParseState, ErrorView> {
    match r {
        Ok(st) => Ok(shift_state(st, d)),
        Err(e) => Err(e),
    }
}

proof fn lemma_shift_subrange(s: Seq<char>, t: Seq<char>, d: int, lo: int, a: int, b: int)
    requires
        shifted(s, t, d, lo),
        lo <= a <= b <= t.len(),
    ensures
        s.subrange(a + d, b + d) == t.subrange(a, b),
{
    assert forall|i: int| 0 <= i < b - a implies s.subrange(a + d, b + d)[i] == t.subrange(a, b)[i] by {
        assert(s[a + i + d] == t[a + i]);
    }
    assert(s.subrange(a + d, b + d) =~= t.subrange(a, b));
}

proof fn lemma_shift_skip_ws(s: Seq<char>, t: Seq<char>, d: int, lo: int, p: int)
    requires
        shifted(s, t, d, lo),
        lo <= p,
    ensures
        skip_ws(s, p + d) == skip_ws(t, p) + d,
    decreases t.len() - p,
{
    if p < t.len() {
        assert(s[p + d] == t[p]);
        if is_space(t[p]) {
            lemma_shift_skip_ws(s, t, d, lo, p + 1);
        }
    }
}

proof fn lemma_shift_first_of(s: Seq<char>, t: Seq<char>, d: int, lo: int, p: int, stops: Seq<char>)
    requires
        shifted(s, t, d, lo),
        lo <= p,
    ensures
        first_of(s, p + d, stops) == shift_position(first_of(t, p, stops), d),
    decreases t.len() - p,
{
    if p < t.len() {
        assert(s[p + d] == t[p]);
        if !stops.contains(t[p]) {
            lemma_shift_first_of(s, t, d, lo, p + 1, stops);
        }
    }
}

proof fn lemma_shift_first_index(s: Seq<char>, t: Seq<char>, d: int, lo: int, p: int, c: char)
    requires
        shifted(s, t, d, lo),
        lo <= p,
    ensures
        first_index(s, c, p + d) == shift_position(first_index(t, c, p), d),
    decreases t.len() - p,
{
    if p < t.len() {
        assert(s[p + d] == t[p]);
        if t[p] != c {
            lemma_shift_first_index(s, t, d, lo, p + 1, c);
        }
    }
}

proof fn lemma_shift_double_dash(s: Seq<char>, t: Seq<char>, d: int, lo: int, p: int)
    requires
        shifted(s, t, d, lo),
        lo <= p,
    ensures
        first_double_dash(s, p + d) == shift_position(first_double_dash(t, p), d),
    decreases t.len() - p,
{
    if p + 1 < t.len() {
        assert(s[p + d] == t[p]);
        assert(s[p + 1 + d] == t[p + 1]);
        if !(t[p] == '-' && t[p + 1] == '-') {
            lemma_shift_double_dash(s, t, d, lo, p + 1);
        }
    }
}

proof fn lemma_shift_matches(s: Seq<char>, t: Seq<char>, d: int, lo: int, p: int, lit: Seq<char>)
    requires
        shifted(s, t, d, lo),
        lo <= p,
    ensures
        matches_at(s, p + d, lit) == matches_at(t, p, lit),
{
    if p + lit.len() <= t.len() {
        lemma_shift_subrange(s, t, d, lo, p, p + lit.len());
    }
}

proof fn lemma_shift_attribute(s: Seq<char>, t: Seq<char>, d: int, lo: int, p: int)
    requires
        shifted(s, t, d, lo),
        lo <= p,
    ensures
        attribute_at(s, p + d) == match attribute_at(t, p) {
            Ok((n, v, r)) => Ok((n, v, r + d)),
            Err(e) => Err(e),
        },
{
    lemma_shift_first_of(s, t, d, lo, p, attribute_name_stops());
    lemma_first_of(t, p, attribute_name_stops());
    if let Some(k) = first_of(t, p, attribute_name_stops()) {
        lemma_shift_skip_ws(s, t, d, lo, k);
        lemma_skip_ws(t, k);
        let q = skip_ws(t, k);
        if 0 <= q < t.len() {
            assert(s[q + d] == t[q]);
        }
        if 0 <= q < t.len() && t[q] == '=' {
            lemma_shift_skip_ws(s, t, d, lo, q + 1);
            lemma_skip_ws(t, q + 1);
            let v = skip_ws(t, q + 1);
            if 0 <= v < t.len() {
                assert(s[v + d] == t[v]);
            }
            if 0 <= v < t.len() && t[v] == '"' {
                lemma_shift_first_of(s, t, d, lo, v + 1, seq!['"']);
                lemma_first_of(t, v + 1, seq!['"']);
                if let Some(e) = first_of(t, v + 1, seq!['"']) {
                    lemma_shift_subrange(s, t, d, lo, p, k);
                    lemma_shift_subrange(s, t, d, lo, v + 1, e);
                }
            }
        }
    }
}

proof fn lemma_shift_attributes(
    s: Seq<char>,
    t: Seq<char>,
    d: int,
    lo: int,
    p: int,
    acc: Seq<(Seq<char>, Seq<char>)>,
)
    requires
        shifted(s, t, d, lo),
        lo <= p,
    ensures
        attributes_from(s, p + d, acc) == match attributes_from(t, p, acc) {
            Ok((raw, q)) => Ok((raw, q + d)),
            Err(e) => Err(e),
        },
    decreases t.len() - p,
{
    lemma_shift_skip_ws(s, t, d, lo, p);
    lemma_skip_ws(t, p);
    let q = skip_ws(t, p);
    if q < t.len() {
        assert(s[q + d] == t[q]);
        if !(t[q] == '/' || t[q] == '>') {
            lemma_shift_attribute(s, t, d, lo, q);
            lemma_attribute_progress(t, q);
            if let Ok((n, v, r)) = attribute_at(t, q) {
                lemma_shift_attributes(s, t, d, lo, r, acc.push((n, v)));
            }
        }
    }
}

proof fn lemma_shift_start_tag(s: Seq<char>, t: Seq<char>, d: int, lo: int, st: ParseState)
    requires
        shifted(s, t, d, lo),
        lo <= st.pos,
    ensures
        start_tag(s, shift_state(st, d)) == shift_step(start_tag(t, st), d),
{
    lemma_shift_first_of(s, t, d, lo, st.pos + 1, tag_name_stops());
    lemma_first_of(t, st.pos + 1, tag_name_stops());
    if let Some(k) = first_of(t, st.pos + 1, tag_name_stops()) {
        lemma_shift_attributes(s, t, d, lo, k, Seq::empty());
        lemma_shift_subrange(s, t, d, lo, st.pos + 1, k);
        lemma_attributes_bound(t, k, Seq::empty());
        if let Ok((raw, q)) = attributes_from(t, k, Seq::empty()) {
            assert(s[q + d] == t[q]);
            if q + 1 < t.len() {
                assert(s[q + 1 + d] == t[q + 1]);
            }
            lemma_shift_skip_ws(s, t, d, lo, q + 1);
            lemma_shift_skip_ws(s, t, d, lo, q + 2);
        }
    }
}

proof fn lemma_shift_end_tag(s: Seq<char>, t: Seq<char>, d: int, lo: int, st: ParseState)
    requires
        shifted(s, t, d, lo),
        lo <= st.pos,
    ensures
        end_tag(s, shift_state(st, d)) == shift_step(end_tag(t, st), d),
{
    lemma_shift_first_of(s, t, d, lo, st.pos + 2, seq!['>']);
    lemma_first_of(t, st.pos + 2, seq!['>']);
    if let Some(k) = first_of(t, st.pos + 2, seq!['>']) {
        lemma_shift_subrange(s, t, d, lo, st.pos + 2, k);
        lemma_shift_skip_ws(s, t, d, lo, k + 1);
    }
}

proof fn lemma_shift_comment(s: Seq<char>, t: Seq<char>, d: int, lo: int, st: ParseState)
    requires
        shifted(s, t, d, lo),
        lo <= st.pos,
    ensures
        comment(s, shift_state(st, d)) == shift_step(comment(t, st), d),
{
    lemma_shift_matches(s, t, d, lo, st.pos, "<!--"@);
    lemma_shift_double_dash(s, t, d, lo, st.pos + 4);
    lemma_first_double_dash(t, st.pos + 4);
    if let Some(k) = first_double_dash(t, st.pos + 4) {
        if k + 2 < t.len() {
            assert(s[k + 2 + d] == t[k + 2]);
            lemma_shift_skip_ws(s, t, d, lo, k + 3);
        }
    }
    assert(comment_end(s, st.pos + d + 4) == match comment_end(t, st.pos + 4) {
        Ok(e) => Ok::<int, crate::xml::SaxError>(e + d),
        Err(x) => Err(x),
    });
}

proof fn lemma_shift_text(s: Seq<char>, t: Seq<char>, d: int, lo: int, st: ParseState)
    requires
        shifted(s, t, d, lo),
        lo <= st.pos <= t.len(),
    ensures
        text(s, shift_state(st, d)) == shift_state(text(t, st), d),
{
    lemma_shift_first_index(s, t, d, lo, st.pos, '<');
    lemma_first_index(t, '<', st.pos);
    let e = match first_index(t, '<', st.pos) {
        Some(k) => k,
        None => t.len() as int,
    };
    lemma_shift_subrange(s, t, d, lo, st.pos, e);
}

/// The events of the rest of a document depend only on the text ahead.
pub proof fn lemma_shift_body(s: Seq<char>, t: Seq<char>, d: int, lo: int, st: ParseState)
    requires
        shifted(s, t, d, lo),
        lo <= st.pos,
    ensures
        body(s, shift_state(st, d)) == body(t, st),
    decreases t.len() - st.pos,
{
    if st.pos < t.len() {
        assert(s[st.pos + d] == t[st.pos]);
        if t[st.pos] == '<' {
            if st.pos + 1 < t.len() {
                assert(s[st.pos + 1 + d] == t[st.pos + 1]);
                lemma_shift_comment(s, t, d, lo, st);
                lemma_shift_end_tag(s, t, d, lo, st);
                lemma_shift_start_tag(s, t, d, lo, st);
                lemma_step_progress(t, st);
                let step = if t[st.pos + 1] == '!' {
                    comment(t, st)
                } else if t[st.pos + 1] == '/' {
                    end_tag(t, st)
                } else {
                    start_tag(t, st)
                };
                if let Ok(next) = step {
                    lemma_shift_body(s, t, d, lo, next);
                }
            }
        } else {
            lemma_text_progress(t, st);
            lemma_shift_text(s, t, d, lo, st);
            lemma_shift_body(s, t, d, lo, text(t, st));
        }
    }
}

/// The body of a comment that ends at its first `--`: no two dashes in a
/// row, and no dash at its end.
pub open spec fn plain_comment_body(b: Seq<char>) -> bool {
    &&& forall|i: int| 0 <= i < b.len() - 1 ==> !(#[trigger] b[i] == '-' && b[i + 1] == '-')
    &&& (b.len() > 0 ==> b.last() != '-')
}

/// The comment `<!--b-->`.
pub open spec fn comment_text(b: Seq<char>) -> Seq<char> {
    "<!--"@ + b + "-->"@
}

proof fn lemma_no_double_dash_before(s: Seq<char>, from: int, k: int)
    requires
        0 <= from <= k,
        k + 1 < s.len(),
        s[k] == '-' && s[k + 1] == '-',
        forall|j: int| from <= j < k ==> !(#[trigger] s[j] == '-' && s[j + 1] == '-'),
    ensures
        first_double_dash(s, from) == Some(k),
    decreases k - from,
{
    if from < k {
        lemma_no_double_dash_before(s, from + 1, k);
    }
}

/// A comment is never observed: a document with a comment right after its
/// prolog has the same events as the document without it.
#[verifier::rlimit(40)]
pub proof fn lemma_comment_invisible(b: Seq<char>, rest: Seq<char>)
    requires
        plain_comment_body(b),
    ensures
        document(prolog() + comment_text(b) + rest) == document(prolog() + rest),
{
    reveal_strlit("<!--");
    reveal_strlit("-->");
    reveal_strlit("<?xml version=\"1.0\" encoding=\"UTF-8\"?>");
    let p = prolog();
    let c = comment_text(b);
    let s = p + c + rest;
    let t = p + rest;
    let n = p.len() as int;
    let d = c.len() as int;
    assert(s.subrange(0, n) =~= p);
    assert(t.subrange(0, n) =~= p);
    assert(matches_at(s, 0, prolog()));
    assert(matches_at(t, 0, prolog()));
    assert forall|i: int| n <= i < t.len() implies s[i + d] == #[trigger] t[i] by {
        assert(s[i + d] == rest[i - n]);
        assert(t[i] == rest[i - n]);
    }
    assert(shifted(s, t, d, n));
    assert(s[n] == '<');
    assert(!is_space(s[n]));
    assert(skip_ws(s, n) == n);
    let st0 = ParseState {
        pos: n,
        events: seq![crate::xml::syntax::EventView::StartDocument],
        scopes: Seq::empty(),
        prefixes: Seq::empty(),
    };
    assert(s[n + 1] == '!');
    assert(s.subrange(n, n + 4) =~= "<!--"@);
    assert(matches_at(s, n, "<!--"@));
    let k = n + 4 + b.len();
    assert(s[k] == '-' && s[k + 1] == '-' && s[k + 2] == '>');
    assert forall|j: int| n + 4 <= j < k implies !(#[trigger] s[j] == '-' && s[j + 1] == '-') by {
        assert(s[j] == b[j - n - 4]);
        if j + 1 < k {
            assert(s[j + 1] == b[j + 1 - n - 4]);
        } else {
            assert(b.last() == b[j - n - 4]);
        }
    }
    lemma_no_double_dash_before(s, n + 4, k);
    assert(comment_end(s, n + 4) == Ok::<int, crate::xml::SaxError>(n + d));
    lemma_shift_skip_ws(s, t, d, n, n);
    let st1 = ParseState { pos: skip_ws(t, n), ..st0 };
    lemma_skip_ws(t, n);
    assert(comment(s, st0) == Ok::<ParseState, ErrorView>(shift_state(st1, d)));
    lemma_step_progress(s, st0);
    lemma_shift_body(s, t, d, n, st1);
}

} // verus!
