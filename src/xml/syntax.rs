//! What the parser reads: the events a document's text stands for, or the
//! error it fails with, stated construct by construct over the characters.
use vstd::prelude::*;

use crate::xml::sax_parser::{
    attribute_namespace, comment_end, declared_default, default_namespace, first_double_dash,
    first_index, is_space, leave_scope, matches_at, prolog, register_all, resolve, split_prefix,
};
use crate::xml::{attributes_view, opt_view, qualify, SaxError, SaxEvent};

verus! {

/// An error as plain values.
pub enum ErrorView {
    BadCharacter,
    UnexpectedEof,
    UnexpectedCharacter(Seq<char>),
    UndeclaredNamespacePrefix(Seq<char>),
}

pub open spec fn error_view(e: SaxError) -> ErrorView {
    match e {
        SaxError::BadCharacter => ErrorView::BadCharacter,
        SaxError::UnexpectedEof => ErrorView::UnexpectedEof,
        SaxError::UnexpectedCharacter(m) => ErrorView::UnexpectedCharacter(m@),
        SaxError::UndeclaredNamespacePrefix(p) => ErrorView::UndeclaredNamespacePrefix(p@),
    }
}

/// An attribute as plain values: name, namespace, value.
pub type AttributeView = (Seq<char>, Option<Seq<char>>, Seq<char>);

/// An event as plain values.
pub enum EventView {
    StartDocument,
    EndDocument,
    /// Namespace, local name, qualified name, attributes.
    StartElement(Option<Seq<char>>, Seq<char>, Seq<char>, Seq<AttributeView>),
    /// Namespace, local name, qualified name.
    EndElement(Option<Seq<char>>, Seq<char>, Seq<char>),
    Characters(Seq<char>),
}

pub open spec fn event_view(e: SaxEvent) -> EventView {
    match e {
        SaxEvent::StartDocument => EventView::StartDocument,
        SaxEvent::EndDocument => EventView::EndDocument,
        SaxEvent::StartElement { uri, local_name, qualified_name, attributes } => EventView::StartElement(
            opt_view(uri),
            local_name@,
            qualified_name@,
            attributes_view(attributes@),
        ),
        SaxEvent::EndElement { uri, local_name, qualified_name } => EventView::EndElement(
            opt_view(uri),
            local_name@,
            qualified_name@,
        ),
        SaxEvent::Characters(chars) => EventView::Characters(chars@),
    }
}

pub open spec fn events_view(v: Seq<SaxEvent>) -> Seq<EventView> {
    v.map_values(|e: SaxEvent| event_view(e))
}

/// Where the parse stands: the next position, the events so far, the
/// default namespace in effect inside each open element, and the registered
/// prefixes.
pub struct ParseState {
    pub pos: int,
    pub events: Seq<EventView>,
    pub scopes: Seq<Option<Seq<char>>>,
    pub prefixes: Seq<(Seq<char>, Seq<char>)>,
}

/// The first position at or after `p` that is not whitespace.
pub open spec fn skip_ws(s: Seq<char>, p: int) -> int
    decreases s.len() - p,
{
    if 0 <= p < s.len() && is_space(s[p]) {
        skip_ws(s, p + 1)
    } else {
        p
    }
}

/// The first position at or after `p` that holds one of `stops`.
pub open spec fn first_of(s: Seq<char>, p: int, stops: Seq<char>) -> Option<int>
    decreases s.len() - p,
{
    if p < 0 || p >= s.len() {
        None
    } else if stops.contains(s[p]) {
        Some(p)
    } else {
        first_of(s, p + 1, stops)
    }
}

/// The characters that end a tag name.
pub open spec fn tag_name_stops() -> Seq<char> {
    seq![' ', '\t', '\n', '\r', '/', '>']
}

/// The characters that end an attribute name.
pub open spec fn attribute_name_stops() -> Seq<char> {
    seq!['=', ' ', '\t', '\n', '\r']
}

/// An attribute `name = "value"` at `p`: its name, its value and the
/// position after the closing quote.
pub open spec fn attribute_at(s: Seq<char>, p: int) -> Result<(Seq<char>, Seq<char>, int), ErrorView> {
    match first_of(s, p, attribute_name_stops()) {
        None => Err(ErrorView::UnexpectedEof),
        Some(k) => {
            let q = skip_ws(s, k);
            if !(0 <= q < s.len() && s[q] == '=') {
                Err(ErrorView::UnexpectedCharacter("Expected ="@))
            } else {
                let v = skip_ws(s, q + 1);
                if !(0 <= v < s.len() && s[v] == '"') {
                    Err(ErrorView::UnexpectedCharacter("Expected start of attribute value"@))
                } else {
                    match first_of(s, v + 1, seq!['"']) {
                        None => Err(ErrorView::UnexpectedEof),
                        Some(e) => Ok((s.subrange(p, k), s.subrange(v + 1, e), e + 1)),
                    }
                }
            }
        },
    }
}

/// The attributes of a start tag from `p` on, after those in `acc`, and the
/// position of the `/` or `>` that ends them.
pub open spec fn attributes_from(s: Seq<char>, p: int, acc: Seq<(Seq<char>, Seq<char>)>) -> Result<
    (Seq<(Seq<char>, Seq<char>)>, int),
    ErrorView,
>
    decreases s.len() - p,
{
    let q = skip_ws(s, p);
    if p < 0 || q < 0 || q >= s.len() {
        Err(ErrorView::UnexpectedEof)
    } else if s[q] == '/' || s[q] == '>' {
        Ok((acc, q))
    } else {
        match attribute_at(s, q) {
            Err(e) => Err(e),
            Ok((name, value, r)) => {
                proof {
                    lemma_skip_ws(s, p);
                    lemma_attribute_progress(s, q);
                }
                attributes_from(s, r, acc.push((name, value)))
            },
        }
    }
}

/// The attributes with their namespaces; an unknown prefix is the error.
pub open spec fn resolve_attributes_spec(
    m: Seq<(Seq<char>, Seq<char>)>,
    raw: Seq<(Seq<char>, Seq<char>)>,
) -> Result<Seq<AttributeView>, Seq<char>>
    decreases raw.len(),
{
    if raw.len() == 0 {
        Ok(Seq::empty())
    } else {
        match resolve_attributes_spec(m, raw.drop_last()) {
            Err(p) => Err(p),
            Ok(prev) => match attribute_namespace(m, raw.last().0, raw.last().1) {
                Err(p) => Err(p),
                Ok(ns) => Ok(prev.push((raw.last().0, ns, raw.last().1))),
            },
        }
    }
}

/// A start tag or a self-closing tag at `st.pos`, and the whitespace after it.
pub open spec fn start_tag(s: Seq<char>, st: ParseState) -> Result<ParseState, ErrorView> {
    match first_of(s, st.pos + 1, tag_name_stops()) {
        None => Err(ErrorView::UnexpectedEof),
        Some(k) => match attributes_from(s, k, Seq::empty()) {
            Err(e) => Err(e),
            Ok((raw, q)) => {
                let prefixes = register_all(st.prefixes, raw);
                match resolve_attributes_spec(prefixes, raw) {
                    Err(p) => Err(ErrorView::UndeclaredNamespacePrefix(p)),
                    Ok(atts) => {
                        let scope = match declared_default(raw) {
                            Some(u) => Some(u),
                            None => default_namespace(st.scopes),
                        };
                        match resolve(prefixes, scope, s.subrange(st.pos + 1, k)) {
                            Err(p) => Err(ErrorView::UndeclaredNamespacePrefix(p)),
                            Ok((uri, local)) => {
                                let closing = 0 <= q < s.len() && s[q] == '/';
                                let e = if closing {
                                    q + 1
                                } else {
                                    q
                                };
                                if !(0 <= e < s.len() && s[e] == '>') {
                                    Err(ErrorView::UnexpectedCharacter("Expect end of element"@))
                                } else {
                                    let name = qualify(uri, local);
                                    let start = EventView::StartElement(uri, local, name, atts);
                                    if closing {
                                        Ok(
                                            ParseState {
                                                pos: skip_ws(s, e + 1),
                                                events: st.events.push(start).push(
                                                    EventView::EndElement(uri, local, name),
                                                ),
                                                scopes: st.scopes,
                                                prefixes,
                                            },
                                        )
                                    } else {
                                        Ok(
                                            ParseState {
                                                pos: skip_ws(s, e + 1),
                                                events: st.events.push(start),
                                                scopes: st.scopes.push(scope),
                                                prefixes,
                                            },
                                        )
                                    }
                                }
                            },
                        }
                    },
                }
            },
        },
    }
}

/// An end tag `</name>` at `st.pos`, and the whitespace after it.
pub open spec fn end_tag(s: Seq<char>, st: ParseState) -> Result<ParseState, ErrorView> {
    match first_of(s, st.pos + 2, seq!['>']) {
        None => Err(ErrorView::UnexpectedEof),
        Some(k) => match resolve(st.prefixes, default_namespace(st.scopes), s.subrange(st.pos + 2, k)) {
            Err(p) => Err(ErrorView::UndeclaredNamespacePrefix(p)),
            Ok((uri, local)) => Ok(
                ParseState {
                    pos: skip_ws(s, k + 1),
                    events: st.events.push(EventView::EndElement(uri, local, qualify(uri, local))),
                    scopes: leave_scope(st.scopes),
                    prefixes: st.prefixes,
                },
            ),
        },
    }
}

/// A comment at `st.pos`, and the whitespace after it: no event.
pub open spec fn comment(s: Seq<char>, st: ParseState) -> Result<ParseState, ErrorView> {
    if !matches_at(s, st.pos, "<!--"@) {
        Err(ErrorView::UnexpectedCharacter("Expect comment start"@))
    } else {
        match comment_end(s, st.pos + 4) {
            Ok(e) => Ok(ParseState { pos: skip_ws(s, e), ..st }),
            Err(x) => Err(error_view(x)),
        }
    }
}

/// The run of text at `st.pos`, up to the next `<` or the end.
pub open spec fn text(s: Seq<char>, st: ParseState) -> ParseState {
    let e = match first_index(s, '<', st.pos) {
        Some(k) => k,
        None => s.len() as int,
    };
    ParseState { pos: e, events: st.events.push(EventView::Characters(s.subrange(st.pos, e))), ..st }
}

/// The events of the body from `st.pos` on, after those of `st`, ending
/// with the end of the document.
pub open spec fn body(s: Seq<char>, st: ParseState) -> Result<Seq<EventView>, ErrorView>
    decreases s.len() - st.pos,
{
    if st.pos < 0 {
        Err(ErrorView::UnexpectedEof)
    } else if st.pos >= s.len() {
        Ok(st.events.push(EventView::EndDocument))
    } else if s[st.pos] == '<' {
        if st.pos + 1 >= s.len() {
            Err(ErrorView::UnexpectedEof)
        } else {
            let step = if s[st.pos + 1] == '!' {
                comment(s, st)
            } else if s[st.pos + 1] == '/' {
                end_tag(s, st)
            } else {
                start_tag(s, st)
            };
            match step {
                Err(e) => Err(e),
                Ok(next) => {
                    proof {
                        lemma_step_progress(s, st);
                    }
                    body(s, next)
                },
            }
        }
    } else {
        proof {
            lemma_text_progress(s, st);
        }
        body(s, text(s, st))
    }
}

/// The events of a document, or the error its parse fails with.
pub open spec fn document(s: Seq<char>) -> Result<Seq<EventView>, ErrorView> {
    if !matches_at(s, 0, prolog()) {
        Err(ErrorView::UnexpectedCharacter("Content is not allowed in prolog."@))
    } else {
        body(
            s,
            ParseState {
                pos: skip_ws(s, prolog().len() as int),
                events: seq![EventView::StartDocument],
                scopes: Seq::empty(),
                prefixes: Seq::empty(),
            },
        )
    }
}

pub proof fn lemma_skip_ws(s: Seq<char>, p: int)
    ensures
        p <= skip_ws(s, p),
        0 <= p <= s.len() ==> skip_ws(s, p) <= s.len(),
    decreases s.len() - p,
{
    if 0 <= p < s.len() && is_space(s[p]) {
        lemma_skip_ws(s, p + 1);
    }
}

pub proof fn lemma_first_of(s: Seq<char>, p: int, stops: Seq<char>)
    ensures
        first_of(s, p, stops) matches Some(k) ==> p <= k < s.len() && stops.contains(s[k]),
    decreases s.len() - p,
{
    if 0 <= p < s.len() && !stops.contains(s[p]) {
        lemma_first_of(s, p + 1, stops);
    }
}

pub proof fn lemma_first_index(s: Seq<char>, c: char, p: int)
    ensures
        first_index(s, c, p) matches Some(k) ==> p <= k < s.len() && s[k] == c,
    decreases s.len() - p,
{
    if 0 <= p < s.len() && s[p] != c {
        lemma_first_index(s, c, p + 1);
    }
}

pub proof fn lemma_first_double_dash(s: Seq<char>, p: int)
    ensures
        first_double_dash(s, p) matches Some(k) ==> p <= k,
    decreases s.len() - p,
{
    if 0 <= p && p + 1 < s.len() && !(s[p] == '-' && s[p + 1] == '-') {
        lemma_first_double_dash(s, p + 1);
    }
}

pub proof fn lemma_attribute_progress(s: Seq<char>, p: int)
    ensures
        attribute_at(s, p) matches Ok((_, _, r)) ==> p < r <= s.len(),
{
    lemma_first_of(s, p, attribute_name_stops());
    if let Some(k) = first_of(s, p, attribute_name_stops()) {
        lemma_skip_ws(s, k);
        let q = skip_ws(s, k);
        lemma_skip_ws(s, q + 1);
        let v = skip_ws(s, q + 1);
        lemma_first_of(s, v + 1, seq!['"']);
    }
}

pub proof fn lemma_attributes_bound(s: Seq<char>, p: int, acc: Seq<(Seq<char>, Seq<char>)>)
    ensures
        attributes_from(s, p, acc) matches Ok((_, q)) ==> p <= q < s.len() && (s[q] == '/' || s[q]
            == '>'),
    decreases s.len() - p,
{
    lemma_skip_ws(s, p);
    let q = skip_ws(s, p);
    if 0 <= p && 0 <= q < s.len() && !(s[q] == '/' || s[q] == '>') {
        lemma_attribute_progress(s, q);
        if let Ok((name, value, r)) = attribute_at(s, q) {
            lemma_attributes_bound(s, r, acc.push((name, value)));
        }
    }
}

pub proof fn lemma_step_progress(s: Seq<char>, st: ParseState)
    requires
        0 <= st.pos,
        st.pos + 1 < s.len(),
        s[st.pos] == '<',
    ensures
        comment(s, st) matches Ok(next) ==> st.pos < next.pos <= s.len(),
        end_tag(s, st) matches Ok(next) ==> st.pos < next.pos <= s.len(),
        start_tag(s, st) matches Ok(next) ==> st.pos < next.pos <= s.len(),
{
    lemma_first_double_dash(s, st.pos + 4);
    if let Some(k) = first_double_dash(s, st.pos + 4) {
        if k + 3 <= s.len() {
            lemma_skip_ws(s, k + 3);
        }
    }
    lemma_first_of(s, st.pos + 2, seq!['>']);
    if let Some(k) = first_of(s, st.pos + 2, seq!['>']) {
        lemma_skip_ws(s, k + 1);
    }
    lemma_first_of(s, st.pos + 1, tag_name_stops());
    if let Some(k) = first_of(s, st.pos + 1, tag_name_stops()) {
        lemma_attributes_bound(s, k, Seq::empty());
        if let Ok((raw, q)) = attributes_from(s, k, Seq::empty()) {
            lemma_skip_ws(s, q + 1);
            lemma_skip_ws(s, q + 2);
        }
    }
}

pub proof fn lemma_text_progress(s: Seq<char>, st: ParseState)
    requires
        0 <= st.pos < s.len(),
        s[st.pos] != '<',
    ensures
        text(s, st).pos > st.pos,
        text(s, st).pos <= s.len(),
{
    lemma_first_index(s, '<', st.pos);
}

/// The first of `stops` at or after `p` is at `q` when none comes between.
pub proof fn lemma_first_of_at(s: Seq<char>, p: int, q: int, stops: Seq<char>)
    requires
        0 <= p <= q < s.len(),
        forall|i: int| p <= i < q ==> !stops.contains(#[trigger] s[i]),
        stops.contains(s[q]),
    ensures
        first_of(s, p, stops) == Some(q),
    decreases q - p,
{
    if p < q {
        lemma_first_of_at(s, p + 1, q, stops);
    }
}

proof fn lemma_no_colon(x: Seq<char>, p: int)
    requires
        0 <= p,
        forall|i: int| p <= i < x.len() ==> #[trigger] x[i] != ':',
    ensures
        first_index(x, ':', p) is None,
    decreases x.len() - p,
{
    if p < x.len() {
        lemma_no_colon(x, p + 1);
    }
}

/// The text of a start tag `<n a="v">`.
pub open spec fn simple_start_tag(n: Seq<char>, a: Seq<char>, v: Seq<char>) -> Seq<char> {
    seq!['<'] + n + seq![' '] + a + seq!['=', '"'] + v + seq!['"', '>']
}

/// A start tag `<n a="v">` with unprefixed names, outside any default
/// namespace, gives the bare tag name as its qualified name and the
/// attribute back as `a="v"` without a namespace.
pub proof fn lemma_plain_start_tag(s: Seq<char>, st: ParseState, n: Seq<char>, a: Seq<char>, v: Seq<char>)
    requires
        0 <= st.pos,
        st.pos + simple_start_tag(n, a, v).len() <= s.len(),
        s.subrange(st.pos, st.pos + simple_start_tag(n, a, v).len()) == simple_start_tag(n, a, v),
        default_namespace(st.scopes) is None,
        forall|i: int| 0 <= i < n.len() ==> !tag_name_stops().contains(#[trigger] n[i]) && n[i] != ':',
        a.len() > 0,
        a != "xmlns"@,
        forall|i: int|
            0 <= i < a.len() ==> !attribute_name_stops().contains(#[trigger] a[i]) && a[i] != ':'
                && a[i] != '/' && a[i] != '>' && !is_space(a[i]),
        forall|i: int| 0 <= i < v.len() ==> #[trigger] v[i] != '"',
    ensures
        start_tag(s, st) == Ok::<ParseState, ErrorView>(
            ParseState {
                pos: skip_ws(s, st.pos + simple_start_tag(n, a, v).len()),
                events: st.events.push(
                    EventView::StartElement(None, n, n, seq![(a, None::<Seq<char>>, v)]),
                ),
                scopes: st.scopes.push(None),
                prefixes: st.prefixes,
            },
        ),
{
    let t = simple_start_tag(n, a, v);
    let p = st.pos;
    assert forall|i: int| 0 <= i < t.len() implies s[p + i] == #[trigger] t[i] by {
        assert(s.subrange(p, p + t.len())[i] == s[p + i]);
    }
    let k = p + 1 + n.len();
    let b = k + 1;
    let eq = b + a.len();
    let vs = eq + 2;
    let ve = vs + v.len();
    let e = ve + 1;
    assert(s[k] == t[k - p]);
    assert(s[k] == ' ');
    assert(tag_name_stops()[0] == ' ');
    assert forall|i: int| p + 1 <= i < k implies !tag_name_stops().contains(#[trigger] s[i]) by {
        assert(s[i] == t[i - p]);
        assert(t[i - p] == n[i - p - 1]);
    }
    lemma_first_of_at(s, p + 1, k, tag_name_stops());
    assert(s.subrange(p + 1, k) =~= n) by {
        assert forall|i: int| 0 <= i < n.len() implies s.subrange(p + 1, k)[i] == n[i] by {
            assert(s[p + 1 + i] == t[1 + i]);
        }
    }
    // the attribute
    assert(s[b] == t[b - p]);
    assert(s[b] == a[0]);
    assert(attribute_name_stops()[1] == ' ' && attribute_name_stops()[2] == '\t'
        && attribute_name_stops()[3] == '\n' && attribute_name_stops()[4] == '\r');
    assert(!is_space(s[b]));
    assert(skip_ws(s, k + 1) == b);
    assert(skip_ws(s, k) == b);
    assert forall|i: int| b <= i < eq implies !attribute_name_stops().contains(#[trigger] s[i]) by {
        assert(s[i] == t[i - p]);
        assert(t[i - p] == a[i - b]);
    }
    assert(s[eq] == t[eq - p]);
    assert(s[eq] == '=');
    assert(attribute_name_stops()[0] == '=');
    lemma_first_of_at(s, b, eq, attribute_name_stops());
    assert(skip_ws(s, eq) == eq);
    assert(s[eq + 1] == t[eq + 1 - p]);
    assert(s[eq + 1] == '"');
    assert(skip_ws(s, eq + 1) == eq + 1);
    assert forall|i: int| vs <= i < ve implies !seq!['"'].contains(#[trigger] s[i]) by {
        assert(s[i] == t[i - p]);
        assert(t[i - p] == v[i - vs]);
    }
    assert(s[ve] == t[ve - p]);
    assert(s[ve] == '"');
    assert(seq!['"'][0] == '"');
    lemma_first_of_at(s, vs, ve, seq!['"']);
    assert(s.subrange(b, eq) =~= a) by {
        assert forall|i: int| 0 <= i < a.len() implies s.subrange(b, eq)[i] == a[i] by {
            assert(s[b + i] == t[b + i - p]);
        }
    }
    assert(s.subrange(vs, ve) =~= v) by {
        assert forall|i: int| 0 <= i < v.len() implies s.subrange(vs, ve)[i] == v[i] by {
            assert(s[vs + i] == t[vs + i - p]);
        }
    }
    assert(attribute_at(s, b) == Ok::<(Seq<char>, Seq<char>, int), ErrorView>((a, v, e)));
    assert(s[e] == t[e - p]);
    assert(s[e] == '>');
    assert(skip_ws(s, e) == e);
    assert(!(s[b] == '/' || s[b] == '>'));
    let raw = seq![(a, v)];
    assert(attributes_from(s, e, raw) == Ok::<(Seq<(Seq<char>, Seq<char>)>, int), ErrorView>((raw, e)));
    assert(Seq::<(Seq<char>, Seq<char>)>::empty().push((a, v)) == raw);
    assert(attributes_from(s, k, Seq::empty()) == Ok::<(Seq<(Seq<char>, Seq<char>)>, int), ErrorView>((raw, e)));
    // names without prefixes
    lemma_no_colon(a, 0);
    lemma_no_colon(n, 0);
    assert(raw.drop_last() =~= Seq::<(Seq<char>, Seq<char>)>::empty());
    assert(raw.last() == (a, v));
    assert(split_prefix(a) is None);
    assert(split_prefix(n) is None);
    assert(register_all(st.prefixes, raw.drop_last()) == st.prefixes);
    assert(register_all(st.prefixes, raw) == st.prefixes);
    assert(declared_default(raw.drop_last()) is None);
    assert(resolve_attributes_spec(st.prefixes, raw.drop_last()) == Ok::<Seq<AttributeView>, Seq<char>>(Seq::empty()));
    assert(attribute_namespace(st.prefixes, a, v) == Ok::<Option<Seq<char>>, Seq<char>>(None));
    assert(declared_default(raw) is None);
    assert(resolve_attributes_spec(st.prefixes, raw) == Ok::<Seq<AttributeView>, Seq<char>>(
        seq![(a, None::<Seq<char>>, v)],
    )) by {
        assert(Seq::<AttributeView>::empty().push((a, None::<Seq<char>>, v)) =~= seq![(a, None::<Seq<char>>, v)]);
    }
    assert(s.subrange(p + 1, k) == n);
    assert(resolve(st.prefixes, None, n) == Ok::<(Option<Seq<char>>, Seq<char>), Seq<char>>((None, n)));
    assert(e + 1 == p + t.len());
}

} // verus!
