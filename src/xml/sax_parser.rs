//! A single-pass XML parser over a fully decoded character sequence.
//!
//! The parser recognises the fixed prolog, start, end and self-closing tags,
//! attributes, comments and text runs, resolves namespace prefixes and default
//! namespaces, and records the resulting events in document order.
use vstd::prelude::*;

use crate::text::{append_chars, chars_of, copy_chars, same_chars, string_of};
use crate::xml::syntax::{
    attribute_at, attribute_name_stops, attributes_from, body, comment, document, end_tag,
    error_view, events_view, first_of,
    resolve_attributes_spec, skip_ws, start_tag, tag_name_stops, text, AttributeView, ErrorView,
    EventView, ParseState,
};
use crate::xml::{
    attribute_view, attributes_view, opt_view, qualify, Attribute, SaxError, SaxEvent, SaxHandler,
};

verus! {

/// Whitespace: the characters with Unicode's White_Space property.
pub open spec fn is_space(c: char) -> bool {
    let n = c as u32;
    ||| 0x09 <= n <= 0x0D
    ||| n == 0x20
    ||| n == 0x85
    ||| n == 0xA0
    ||| n == 0x1680
    ||| 0x2000 <= n <= 0x200A
    ||| n == 0x2028
    ||| n == 0x2029
    ||| n == 0x202F
    ||| n == 0x205F
    ||| n == 0x3000
}

/// The declaration every document must start with.
pub open spec fn prolog() -> Seq<char> {
    "<?xml version=\"1.0\" encoding=\"UTF-8\"?>"@
}

/// Whether `lit` occurs in `s` at `pos`.
pub open spec fn matches_at(s: Seq<char>, pos: int, lit: Seq<char>) -> bool {
    0 <= pos && pos + lit.len() <= s.len() && s.subrange(pos, pos + lit.len()) == lit
}

/// No character of `s` in `[from, to)` is one of `stops`.
pub open spec fn free_of(s: Seq<char>, from: int, to: int, stops: Seq<char>) -> bool {
    forall|k: int| from <= k < to ==> !stops.contains(#[trigger] s[k])
}

/// The first position at or after `from` that holds `c`.
pub open spec fn first_index(s: Seq<char>, c: char, from: int) -> Option<int>
    decreases s.len() - from,
{
    if from < 0 || from >= s.len() {
        None
    } else if s[from] == c {
        Some(from)
    } else {
        first_index(s, c, from + 1)
    }
}

/// The first position at or after `from` where two dashes follow each other.
pub open spec fn first_double_dash(s: Seq<char>, from: int) -> Option<int>
    decreases s.len() - from,
{
    if from < 0 || from + 1 >= s.len() {
        None
    } else if s[from] == '-' && s[from + 1] == '-' {
        Some(from)
    } else {
        first_double_dash(s, from + 1)
    }
}

/// How a comment whose body starts at `body` ends: the position just after
/// its closing `-->`, or the error. The first `--` of the body must be
/// followed by `>`.
pub open spec fn comment_end(s: Seq<char>, body: int) -> Result<int, SaxError> {
    match first_double_dash(s, body) {
        None => Err(SaxError::UnexpectedEof),
        Some(k) => if k + 2 < s.len() && s[k + 2] == '>' {
            Ok(k + 3)
        } else {
            Err(SaxError::BadCharacter)
        },
    }
}

/// A name split at its first colon into prefix and local part.
pub open spec fn split_prefix(name: Seq<char>) -> Option<(Seq<char>, Seq<char>)> {
    match first_index(name, ':', 0) {
        Some(k) => Some((name.subrange(0, k), name.subrange(k + 1, name.len() as int))),
        None => None,
    }
}

/// The URI most recently registered for `prefix`.
pub open spec fn lookup_prefix(m: Seq<(Seq<char>, Seq<char>)>, prefix: Seq<char>) -> Option<
    Seq<char>,
>
    decreases m.len(),
{
    if m.len() == 0 {
        None
    } else if m.last().0 == prefix {
        Some(m.last().1)
    } else {
        lookup_prefix(m.drop_last(), prefix)
    }
}

/// The namespace and local name a tag name resolves to, given the prefix table
/// and the default namespace in effect; an unknown prefix is the error.
pub open spec fn resolve(
    m: Seq<(Seq<char>, Seq<char>)>,
    default: Option<Seq<char>>,
    name: Seq<char>,
) -> Result<(Option<Seq<char>>, Seq<char>), Seq<char>> {
    match split_prefix(name) {
        Some((p, local)) => match lookup_prefix(m, p) {
            Some(uri) => Ok((Some(uri), local)),
            None => Err(p),
        },
        None => Ok((default, name)),
    }
}

/// The default namespace in effect inside the innermost open element.
pub open spec fn default_namespace(scopes: Seq<Option<Seq<char>>>) -> Option<Seq<char>> {
    if scopes.len() == 0 {
        None
    } else {
        scopes.last()
    }
}

/// The scopes after an element opens: it declares a default namespace of its
/// own, or inherits the one in effect.
pub open spec fn enter_scope(scopes: Seq<Option<Seq<char>>>, declared: Option<Seq<char>>) -> Seq<
    Option<Seq<char>>,
> {
    match declared {
        Some(uri) => scopes.push(Some(uri)),
        None => scopes.push(default_namespace(scopes)),
    }
}

/// The scopes after an end tag.
pub open spec fn leave_scope(scopes: Seq<Option<Seq<char>>>) -> Seq<Option<Seq<char>>> {
    if scopes.len() == 0 {
        scopes
    } else {
        scopes.drop_last()
    }
}

/// The scopes after a run of nested elements opens, outermost first.
pub open spec fn enter_all(scopes: Seq<Option<Seq<char>>>, declared: Seq<Option<Seq<char>>>) -> Seq<
    Option<Seq<char>>,
>
    decreases declared.len(),
{
    if declared.len() == 0 {
        scopes
    } else {
        enter_scope(enter_all(scopes, declared.drop_last()), declared.last())
    }
}

/// A default namespace declared on an element applies to the element and to
/// all its descendants that declare none of their own, and no longer applies
/// once the element's end tag has been read.
pub proof fn lemma_default_namespace_scope(
    outer: Seq<Option<Seq<char>>>,
    uri: Seq<char>,
    nested: Seq<Option<Seq<char>>>,
)
    requires
        forall|i: int| 0 <= i < nested.len() ==> (#[trigger] nested[i]) is None,
    ensures
        default_namespace(enter_scope(outer, Some(uri))) == Some(uri),
        default_namespace(enter_all(enter_scope(outer, Some(uri)), nested)) == Some(uri),
        leave_scope(enter_scope(outer, Some(uri))) == outer,
    decreases nested.len(),
{
    assert(enter_scope(outer, Some(uri)).drop_last() =~= outer);
    if nested.len() > 0 {
        let shorter = nested.drop_last();
        assert forall|i: int| 0 <= i < shorter.len() implies (#[trigger] shorter[i]) is None by {
            assert(shorter[i] == nested[i]);
        }
        lemma_default_namespace_scope(outer, uri, shorter);
        assert(nested[nested.len() - 1] is None);
    }
}

/// The attributes that declare prefixes register them, in order.
pub open spec fn register_all(
    m: Seq<(Seq<char>, Seq<char>)>,
    raw: Seq<(Seq<char>, Seq<char>)>,
) -> Seq<(Seq<char>, Seq<char>)>
    decreases raw.len(),
{
    if raw.len() == 0 {
        m
    } else {
        let before = register_all(m, raw.drop_last());
        match split_prefix(raw.last().0) {
            Some((p, local)) => if p == "xmlns"@ {
                before.push((local, raw.last().1))
            } else {
                before
            },
            None => before,
        }
    }
}

/// The default namespace an element's attributes declare (the last `xmlns` wins).
pub open spec fn declared_default(raw: Seq<(Seq<char>, Seq<char>)>) -> Option<Seq<char>>
    decreases raw.len(),
{
    if raw.len() == 0 {
        None
    } else if raw.last().0 == "xmlns"@ {
        Some(raw.last().1)
    } else {
        declared_default(raw.drop_last())
    }
}

/// The namespace of an attribute: a default namespace declaration carries its
/// URI, a prefix declaration none, a prefixed name the URI of its prefix.
pub open spec fn attribute_namespace(
    m: Seq<(Seq<char>, Seq<char>)>,
    name: Seq<char>,
    value: Seq<char>,
) -> Result<Option<Seq<char>>, Seq<char>> {
    if name == "xmlns"@ {
        Ok(Some(value))
    } else {
        match split_prefix(name) {
            Some((p, _)) => if p == "xmlns"@ {
                Ok(None)
            } else {
                match lookup_prefix(m, p) {
                    Some(uri) => Ok(Some(uri)),
                    None => Err(p),
                }
            },
            None => Ok(None),
        }
    }
}

/// The names and values of attributes.
pub open spec fn attribute_pairs(atts: Seq<Attribute>) -> Seq<(Seq<char>, Seq<char>)> {
    atts.map_values(|a: Attribute| (a.name@, a.value@))
}

/// Whether an event belongs to the body of a document, with its qualified
/// name built from its namespace and local name.
pub open spec fn body_event(e: SaxEvent) -> bool {
    match e {
        SaxEvent::StartDocument => false,
        SaxEvent::EndDocument => false,
        SaxEvent::StartElement { uri, local_name, qualified_name, .. } => qualified_name@
            == qualify(opt_view(uri), local_name@),
        SaxEvent::EndElement { uri, local_name, qualified_name } => qualified_name@ == qualify(
            opt_view(uri),
            local_name@,
        ),
        SaxEvent::Characters(_) => true,
    }
}

/// `b` is `a` followed by body events.
pub open spec fn extends(a: Seq<SaxEvent>, b: Seq<SaxEvent>) -> bool {
    &&& a.len() <= b.len()
    &&& forall|i: int| 0 <= i < a.len() ==> b[i] == a[i]
    &&& forall|i: int| a.len() <= i < b.len() ==> body_event(#[trigger] b[i])
}

/// The events of a document whose end has not been reached yet.
pub open spec fn open_document(evs: Seq<SaxEvent>) -> bool {
    &&& evs.len() >= 1
    &&& evs[0] is StartDocument
    &&& forall|i: int| 1 <= i < evs.len() ==> body_event(#[trigger] evs[i])
}

/// The events of a whole document: one start of document first, one end of
/// document last, and body events between them.
pub open spec fn well_framed(evs: Seq<SaxEvent>) -> bool {
    &&& evs.len() >= 2
    &&& evs[0] is StartDocument
    &&& evs[evs.len() - 1] is EndDocument
    &&& forall|i: int| 1 <= i < evs.len() - 1 ==> body_event(#[trigger] evs[i])
}

/// The number of start-of-document and end-of-document events.
pub open spec fn count_document_events(evs: Seq<SaxEvent>) -> (nat, nat)
    decreases evs.len(),
{
    if evs.len() == 0 {
        (0, 0)
    } else {
        let (s, e) = count_document_events(evs.drop_last());
        match evs.last() {
            SaxEvent::StartDocument => (s + 1, e),
            SaxEvent::EndDocument => (s, e + 1),
            _ => (s, e),
        }
    }
}

/// The events of a whole document hold exactly one start of document and
/// exactly one end of document, however deeply its elements nest.
pub proof fn lemma_document_events_once(evs: Seq<SaxEvent>)
    requires
        well_framed(evs),
    ensures
        count_document_events(evs) == (1nat, 1nat),
{
    assert forall|n: int| 1 <= n <= evs.len() - 1 implies count_document_events(evs.take(n)) == (
    1nat, 0nat) by {
        lemma_count_prefix(evs, n);
    }
    assert(evs.take(evs.len() as int) =~= evs);
    assert(evs.take(evs.len() as int).drop_last() =~= evs.take(evs.len() - 1));
}

proof fn lemma_count_prefix(evs: Seq<SaxEvent>, n: int)
    requires
        well_framed(evs),
        1 <= n <= evs.len() - 1,
    ensures
        count_document_events(evs.take(n)) == (1nat, 0nat),
    decreases n,
{
    let t = evs.take(n);
    assert(t.last() == evs[n - 1]);
    if n == 1 {
        assert(t.drop_last() =~= Seq::<SaxEvent>::empty());
        assert(count_document_events(t.drop_last()) == (0nat, 0nat));
        assert(evs[0] is StartDocument);
    } else {
        lemma_count_prefix(evs, n - 1);
        assert(t.drop_last() =~= evs.take(n - 1));
        assert(body_event(evs[n - 1]));
        assert(!(evs[n - 1] is StartDocument) && !(evs[n - 1] is EndDocument));
    }
}

pub open spec fn opt_chars(o: Option<Vec<char>>) -> Option<Seq<char>> {
    match o {
        Some(v) => Some(v@),
        None => None,
    }
}

pub open spec fn pairs_view(v: Seq<(Vec<char>, Vec<char>)>) -> Seq<(Seq<char>, Seq<char>)> {
    v.map_values(|e: (Vec<char>, Vec<char>)| (e.0@, e.1@))
}

/// Parses a document with `parse_events`, then replays the events to
/// `handler`. The contract states only the outcome of the parse: the
/// handler's methods carry no contract, so what they receive is not stated.
pub fn parse_string<H: SaxHandler>(xml: String, handler: &mut H) -> (r: Result<(), SaxError>)
    ensures
        match document(xml@) {
            Ok(_) => r is Ok,
            Err(e) => (r matches Err(x) && error_view(x) == e),
        },
{
    let events = parse_events(xml)?;
    let mut i: usize = 0;
    while i < events.len()
        decreases events.len() - i,
    {
        match &events[i] {
            SaxEvent::StartDocument => handler.start_document(),
            SaxEvent::EndDocument => handler.end_document(),
            SaxEvent::StartElement { uri, local_name, qualified_name, attributes } => {
                handler.start_element(
                    uri.clone(),
                    local_name.as_str(),
                    qualified_name.as_str(),
                    attributes.clone(),
                )
            },
            SaxEvent::EndElement { uri, local_name, qualified_name } => {
                handler.end_element(uri.clone(), local_name.as_str(), qualified_name.as_str())
            },
            SaxEvent::Characters(chars) => handler.characters(chars.as_slice()),
        }
        i = i + 1;
    }
    Ok(())
}

/// Parses a document into its events.
pub fn parse_events(xml: String) -> (r: Result<Vec<SaxEvent>, SaxError>)
    ensures
        !matches_at(xml@, 0, prolog()) ==> r matches Err(SaxError::UnexpectedCharacter(_)),
        r matches Ok(evs) ==> matches_at(xml@, 0, prolog()) && well_framed(evs@),
        match document(xml@) {
            Ok(evs) => (r matches Ok(v) && events_view(v@) == evs),
            Err(e) => (r matches Err(x) && error_view(x) == e),
        },
{
    let mut parser = SAXParser::new(xml);
    match parser.parse() {
        Ok(()) => Ok(parser.events),
        Err(e) => Err(e),
    }
}

/// The parser's state: the input, the position of the next character to
/// read, the events so far, the default namespace in effect inside each open
/// element, and the registered namespace prefixes.
pub struct SAXParser {
    xml: Vec<char>,
    position: usize,
    events: Vec<SaxEvent>,
    namespace_stack: Vec<Option<Vec<char>>>,
    prefix_mapping: Vec<(Vec<char>, Vec<char>)>,
}

impl SAXParser {
    /// The characters being parsed.
    pub closed spec fn input(&self) -> Seq<char> {
        self.xml@
    }

    /// The position of the next character to read.
    pub closed spec fn at(&self) -> int {
        self.position as int
    }

    /// The events recorded so far.
    pub closed spec fn recorded(&self) -> Seq<SaxEvent> {
        self.events@
    }

    pub closed spec fn scopes(&self) -> Seq<Option<Seq<char>>> {
        self.namespace_stack@.map_values(|o: Option<Vec<char>>| opt_chars(o))
    }

    pub closed spec fn prefixes(&self) -> Seq<(Seq<char>, Seq<char>)> {
        pairs_view(self.prefix_mapping@)
    }

    /// Where the parse stands, as plain values.
    pub closed spec fn state(&self) -> ParseState {
        ParseState {
            pos: self.position as int,
            events: events_view(self.events@),
            scopes: self.scopes(),
            prefixes: self.prefixes(),
        }
    }

    pub closed spec fn wf(&self) -> bool {
        self.position <= self.xml.len()
    }

    /// Only the position differs between `self` and `other`.
    pub closed spec fn moved(&self, other: &SAXParser) -> bool {
        &&& other.xml@ == self.xml@
        &&& other.events@ == self.events@
        &&& other.namespace_stack@ == self.namespace_stack@
        &&& other.prefix_mapping@ == self.prefix_mapping@
        &&& other.position <= other.xml.len()
    }

    /// A parser at the start of `xml`, with no events, no open element and no
    /// registered prefix.
    pub fn new(xml: String) -> (r: SAXParser)
        ensures
            r.input() == xml@,
            r.at() == 0,
            r.recorded() == Seq::<SaxEvent>::empty(),
            r.scopes() == Seq::<Option<Seq<char>>>::empty(),
            r.prefixes() == Seq::<(Seq<char>, Seq<char>)>::empty(),
            r.wf(),
    {
        let r = SAXParser {
            xml: chars_of(xml.as_str()),
            position: 0,
            events: Vec::new(),
            namespace_stack: Vec::new(),
            prefix_mapping: Vec::new(),
        };
        assert(r.scopes() =~= Seq::<Option<Seq<char>>>::empty());
        assert(r.prefixes() =~= Seq::<(Seq<char>, Seq<char>)>::empty());
        r
    }

    /// Parses the whole input, recording its events.
    pub fn parse(&mut self) -> (r: Result<(), SaxError>)
        requires
            old(self).wf(),
            old(self).at() == 0,
            old(self).recorded() == Seq::<SaxEvent>::empty(),
            old(self).scopes() == Seq::<Option<Seq<char>>>::empty(),
            old(self).prefixes() == Seq::<(Seq<char>, Seq<char>)>::empty(),
        ensures
            !matches_at(old(self).input(), 0, prolog()) ==> r matches Err(
                SaxError::UnexpectedCharacter(_),
            ),
            r is Ok ==> matches_at(old(self).input(), 0, prolog()) && well_framed(
                final(self).recorded(),
            ),
            match document(old(self).input()) {
                Ok(evs) => r is Ok && events_view(final(self).recorded()) == evs,
                Err(e) => (r matches Err(x) && error_view(x) == e),
            },
    {
        let prolog_chars = chars_of("<?xml version=\"1.0\" encoding=\"UTF-8\"?>");
        self.expect(&prolog_chars, "Content is not allowed in prolog.")?;
        self.skip_whitespace();
        self.events.push(SaxEvent::StartDocument);
        assert(events_view(self.events@) =~= seq![EventView::StartDocument]);
        self.parse_elements()
    }

    /// Parses the document body up to the end of the input, then records the
    /// end of the document.
    fn parse_elements(&mut self) -> (r: Result<(), SaxError>)
        requires
            old(self).wf(),
            open_document(old(self).events@),
        ensures
            r is Ok ==> well_framed(final(self).events@),
            final(self).xml@ == old(self).xml@,
            match body(old(self).xml@, old(self).state()) {
                Ok(evs) => r is Ok && events_view(final(self).events@) == evs,
                Err(e) => (r matches Err(x) && error_view(x) == e),
            },
    {
        while self.position < self.xml.len()
            invariant
                self.wf(),
                open_document(self.events@),
                self.xml@ == old(self).xml@,
                body(self.xml@, self.state()) == body(old(self).xml@, old(self).state()),
            decreases self.xml.len() - self.position,
        {
            let c = self.xml[self.position];
            if c == '<' {
                if self.position + 1 >= self.xml.len() {
                    return Err(SaxError::UnexpectedEof);
                }
                let next = self.xml[self.position + 1];
                if next == '!' {
                    self.skip_comment()?;
                } else if next == '/' {
                    self.parse_end_element()?;
                } else {
                    self.parse_start_element()?;
                }
            } else {
                self.parse_text();
            }
        }
        let ghost before = self.events@;
        self.events.push(SaxEvent::EndDocument);
        assert(events_view(self.events@) =~= events_view(before).push(EventView::EndDocument));
        Ok(())
    }

    /// Skips a comment `<!-- ... -->` and the whitespace after it.
    fn skip_comment(&mut self) -> (r: Result<(), SaxError>)
        requires
            old(self).wf(),
        ensures
            final(self).xml@ == old(self).xml@,
            final(self).events@ == old(self).events@,
            final(self).namespace_stack@ == old(self).namespace_stack@,
            final(self).prefix_mapping@ == old(self).prefix_mapping@,
            final(self).wf(),
            r is Ok ==> final(self).position > old(self).position,
            !matches_at(old(self).xml@, old(self).position as int, "<!--"@) ==> r matches Err(
                SaxError::UnexpectedCharacter(_),
            ),
            matches_at(old(self).xml@, old(self).position as int, "<!--"@) ==> match comment_end(
                old(self).xml@,
                old(self).position + 4,
            ) {
                Ok(end) => r is Ok && end <= final(self).position,
                Err(e) => r == Err::<(), SaxError>(e),
            },
            match comment(old(self).xml@, old(self).state()) {
                Ok(st) => r is Ok && final(self).state() == st,
                Err(e) => (r matches Err(x) && error_view(x) == e),
            },
    {
        proof {
            reveal_strlit("<!--");
        }
        let open = chars_of("<!--");
        self.expect(&open, "Expect comment start")?;
        assert(matches_at(old(self).xml@, old(self).position as int, "<!--"@));
        let ghost body = self.position as int;
        assert(body == old(self).position + 4);
        let len = self.xml.len();
        while len - self.position > 1
            invariant
                self.wf(),
                len == self.xml.len(),
                body == old(self).position + 4,
                matches_at(old(self).xml@, old(self).position as int, "<!--"@),
                body <= self.position,
                first_double_dash(self.xml@, body) == first_double_dash(
                    self.xml@,
                    self.position as int,
                ),
                self.xml@ == old(self).xml@,
                self.events@ == old(self).events@,
                self.namespace_stack@ == old(self).namespace_stack@,
                self.prefix_mapping@ == old(self).prefix_mapping@,
            decreases len - self.position,
        {
            if self.xml[self.position] == '-' && self.xml[self.position + 1] == '-' {
                if self.position + 2 < len && self.xml[self.position + 2] == '>' {
                    self.position = self.position + 3;
                    self.skip_whitespace();
                    return Ok(());
                }
                return Err(SaxError::BadCharacter);
            }
            self.position = self.position + 1;
        }
        Err(SaxError::UnexpectedEof)
    }

    /// Reads a run of text up to the next `<` or the end of the input and
    /// records it.
    fn parse_text(&mut self)
        requires
            old(self).wf(),
            old(self).position < old(self).xml.len(),
            old(self).xml@[old(self).position as int] != '<',
        ensures
            final(self).wf(),
            final(self).position > old(self).position,
            final(self).xml@ == old(self).xml@,
            extends(old(self).events@, final(self).events@),
            final(self).state() == text(old(self).xml@, old(self).state()),
    {
        let ghost start = self.position as int;
        let ghost s = self.xml@;
        let mut run: Vec<char> = Vec::new();
        run.push(self.xml[self.position]);
        self.position = self.position + 1;
        assert(run@ =~= s.subrange(start, self.position as int));
        while self.position < self.xml.len() && self.xml[self.position] != '<'
            invariant
                self.wf(),
                self.position > old(self).position,
                self.xml@ == s,
                s == old(self).xml@,
                start == old(self).position as int,
                self.events@ == old(self).events@,
                self.namespace_stack@ == old(self).namespace_stack@,
                self.prefix_mapping@ == old(self).prefix_mapping@,
                first_index(s, '<', start) == first_index(s, '<', self.position as int),
                run@ == s.subrange(start, self.position as int),
            decreases self.xml.len() - self.position,
        {
            run.push(self.xml[self.position]);
            self.position = self.position + 1;
            assert(run@ =~= s.subrange(start, self.position as int));
        }
        let ghost before = self.events@;
        let ghost chars = run@;
        self.events.push(SaxEvent::Characters(run));
        assert(events_view(self.events@) =~= events_view(before).push(EventView::Characters(chars)));
    }

    /// Parses a start tag or a self-closing tag, and the whitespace after it.
    fn parse_start_element(&mut self) -> (r: Result<(), SaxError>)
        requires
            old(self).wf(),
            old(self).position < old(self).xml.len(),
            old(self).xml@[old(self).position as int] == '<',
        ensures
            final(self).wf(),
            final(self).xml@ == old(self).xml@,
            r is Ok ==> final(self).position > old(self).position,
            r is Ok ==> extends(old(self).events@, final(self).events@),
            r is Ok ==> (final(self).events@[old(self).events.len() as int] matches SaxEvent::StartElement {
                attributes,
                ..
            } && {
                ||| final(self).events.len() == old(self).events.len() + 2 && final(self).scopes()
                    == old(self).scopes()
                ||| final(self).events.len() == old(self).events.len() + 1 && final(self).scopes()
                    == enter_scope(old(self).scopes(), declared_default(attribute_pairs(attributes@)))
            }),
            match start_tag(old(self).xml@, old(self).state()) {
                Ok(st) => r is Ok && final(self).state() == st,
                Err(e) => (r matches Err(x) && error_view(x) == e),
            },
    {
        let ghost s = self.xml@;
        let ghost st0 = self.state();
        self.position = self.position + 1;
        let stops = tag_name_stop_chars();
        let qname = self.read_until(&stops)?;
        let ghost k = self.position as int;
        let mut raw: Vec<(Vec<char>, Vec<char>)> = Vec::new();
        assert(pairs_view(raw@) =~= Seq::<(Seq<char>, Seq<char>)>::empty());
        loop
            invariant
                self.wf(),
                self.position > old(self).position,
                self.position >= k,
                self.xml@ == s,
                s == old(self).xml@,
                st0 == old(self).state(),
                first_of(s, old(self).position + 1, tag_name_stops()) == Some(k),
                qname@ == s.subrange(old(self).position + 1, k),
                self.events@ == old(self).events@,
                self.namespace_stack@ == old(self).namespace_stack@,
                self.prefix_mapping@ == old(self).prefix_mapping@,
                attributes_from(s, k, Seq::empty()) == attributes_from(
                    s,
                    self.position as int,
                    pairs_view(raw@),
                ),
            ensures
                self.wf(),
                self.position > old(self).position,
                self.xml@ == s,
                s == old(self).xml@,
                st0 == old(self).state(),
                first_of(s, old(self).position + 1, tag_name_stops()) == Some(k),
                qname@ == s.subrange(old(self).position + 1, k),
                self.events@ == old(self).events@,
                self.namespace_stack@ == old(self).namespace_stack@,
                self.prefix_mapping@ == old(self).prefix_mapping@,
                attributes_from(s, k, Seq::empty()) == Ok::<
                    (Seq<(Seq<char>, Seq<char>)>, int),
                    ErrorView,
                >((pairs_view(raw@), self.position as int)),
                self.position < self.xml.len(),
            decreases self.xml.len() - self.position,
        {
            let ghost p = self.position as int;
            self.skip_whitespace();
            if self.position >= self.xml.len() {
                return Err(SaxError::UnexpectedEof);
            }
            let c = self.xml[self.position];
            if c == '/' || c == '>' {
                break;
            }
            let ghost before = raw@;
            let att = self.parse_attribute()?;
            raw.push(att);
            assert(pairs_view(raw@) =~= pairs_view(before).push((att.0@, att.1@)));
        }
        let declared = declared_default_of(&raw);
        let ghost scopes_before = self.scopes();
        assert(scopes_before == old(self).scopes());
        self.register_prefixes(&raw);
        let attributes = self.resolve_attributes(&raw)?;
        assert(attribute_pairs(attributes@) =~= pairs_view(raw@));
        let scope = match declared {
            Some(uri) => Some(uri),
            None => self.current_default(),
        };
        assert(opt_chars(scope) == match declared_default(pairs_view(raw@)) {
            Some(u) => Some(u),
            None => default_namespace(scopes_before),
        });
        let (uri, local) = self.resolve_name(&qname, &scope)?;
        let self_closing = self.expect_char('/');
        if !self.expect_char('>') {
            return Err(SaxError::UnexpectedCharacter("Expect end of element".to_owned()));
        }
        let qualified = qualified_chars(&uri, &local);
        let uri_text = optional_string(&uri);
        let local_text = string_of(local.as_slice());
        let qualified_text = string_of(qualified.as_slice());
        let ghost before = self.events@;
        let ghost atts = attributes_view(attributes@);
        self.events.push(
            SaxEvent::StartElement {
                uri: optional_string(&uri),
                local_name: string_of(local.as_slice()),
                qualified_name: string_of(qualified.as_slice()),
                attributes,
            },
        );
        let ghost start = EventView::StartElement(opt_chars(uri), local@, qualified@, atts);
        assert(events_view(self.events@) =~= events_view(before).push(start));
        if self_closing {
            let ghost middle = self.events@;
            self.events.push(
                SaxEvent::EndElement {
                    uri: uri_text,
                    local_name: local_text,
                    qualified_name: qualified_text,
                },
            );
            assert(events_view(self.events@) =~= events_view(middle).push(
                EventView::EndElement(opt_chars(uri), local@, qualified@),
            ));
        } else {
            self.namespace_stack.push(scope);
            assert(self.scopes() =~= scopes_before.push(opt_chars(scope)));
        }
        self.skip_whitespace();
        Ok(())
    }

    /// Parses `name="value"`.
    fn parse_attribute(&mut self) -> (r: Result<(Vec<char>, Vec<char>), SaxError>)
        requires
            old(self).wf(),
        ensures
            old(self).moved(&*final(self)),
            r is Ok ==> final(self).position > old(self).position,
            match attribute_at(old(self).xml@, old(self).position as int) {
                Ok((name, value, end)) => (r matches Ok((a, b)) && a@ == name && b@ == value
                    && final(self).position == end),
                Err(e) => (r matches Err(x) && error_view(x) == e),
            },
    {
        let name = self.read_until(&attribute_name_stop_chars())?;
        self.skip_whitespace();
        if !self.expect_char('=') {
            return Err(SaxError::UnexpectedCharacter("Expected =".to_owned()));
        }
        self.skip_whitespace();
        if !self.expect_char('"') {
            return Err(SaxError::UnexpectedCharacter("Expected start of attribute value".to_owned()));
        }
        let mut quote: Vec<char> = Vec::new();
        quote.push('"');
        assert(quote@ =~= seq!['"']);
        let value = self.read_until(&quote)?;
        self.advance()?;
        Ok((name, value))
    }

    /// Parses an end tag `</name>` and the whitespace after it.
    fn parse_end_element(&mut self) -> (r: Result<(), SaxError>)
        requires
            old(self).wf(),
            old(self).position + 1 < old(self).xml.len(),
        ensures
            final(self).wf(),
            final(self).xml@ == old(self).xml@,
            r is Ok ==> final(self).position > old(self).position,
            r is Ok ==> extends(old(self).events@, final(self).events@),
            r is Ok ==> final(self).scopes() == leave_scope(old(self).scopes()),
            match end_tag(old(self).xml@, old(self).state()) {
                Ok(st) => r is Ok && final(self).state() == st,
                Err(e) => (r matches Err(x) && error_view(x) == e),
            },
    {
        self.position = self.position + 2;
        let mut stops: Vec<char> = Vec::new();
        stops.push('>');
        assert(stops@ =~= seq!['>']);
        let name = self.read_until(&stops)?;
        self.advance()?;
        let scope = self.pop_namespace();
        let (uri, local) = self.resolve_name(&name, &scope)?;
        let qualified = qualified_chars(&uri, &local);
        let ghost before = self.events@;
        self.events.push(
            SaxEvent::EndElement {
                uri: optional_string(&uri),
                local_name: string_of(local.as_slice()),
                qualified_name: string_of(qualified.as_slice()),
            },
        );
        assert(events_view(self.events@) =~= events_view(before).push(
            EventView::EndElement(opt_chars(uri), local@, qualified@),
        ));
        self.skip_whitespace();
        Ok(())
    }

    /// Closes the innermost open element's scope and returns the default
    /// namespace that was in effect inside it.
    fn pop_namespace(&mut self) -> (r: Option<Vec<char>>)
        ensures
            final(self).scopes() == leave_scope(old(self).scopes()),
            opt_chars(r) == default_namespace(old(self).scopes()),
            final(self).xml@ == old(self).xml@,
            final(self).position == old(self).position,
            final(self).events@ == old(self).events@,
            final(self).prefix_mapping@ == old(self).prefix_mapping@,
    {
        match self.namespace_stack.pop() {
            Some(scope) => {
                assert(self.scopes() =~= old(self).scopes().drop_last());
                scope
            },
            None => None,
        }
    }

    /// The default namespace in effect.
    fn current_default(&self) -> (r: Option<Vec<char>>)
        ensures
            opt_chars(r) == default_namespace(self.scopes()),
    {
        let n = self.namespace_stack.len();
        if n == 0 {
            None
        } else {
            match &self.namespace_stack[n - 1] {
                Some(v) => Some(copy_chars(v)),
                None => None,
            }
        }
    }

    /// The URI registered last for `prefix`.
    fn lookup(&self, prefix: &Vec<char>) -> (r: Option<Vec<char>>)
        ensures
            opt_chars(r) == lookup_prefix(self.prefixes(), prefix@),
    {
        let mut j: usize = self.prefix_mapping.len();
        assert(self.prefixes().take(j as int) =~= self.prefixes());
        while j > 0
            invariant
                j <= self.prefix_mapping.len(),
                lookup_prefix(self.prefixes(), prefix@) == lookup_prefix(
                    self.prefixes().take(j as int),
                    prefix@,
                ),
            decreases j,
        {
            let ghost m = self.prefixes().take(j as int);
            assert(m.drop_last() =~= self.prefixes().take(j - 1));
            let entry = &self.prefix_mapping[j - 1];
            if same_chars(&entry.0, prefix) {
                return Some(copy_chars(&entry.1));
            }
            j = j - 1;
        }
        None
    }

    /// Resolves a tag name against the prefix table and the given default namespace.
    fn resolve_name(&self, name: &Vec<char>, default: &Option<Vec<char>>) -> (r: Result<
        (Option<Vec<char>>, Vec<char>),
        SaxError,
    >)
        ensures
            match resolve(self.prefixes(), opt_chars(*default), name@) {
                Ok((uri, local)) => (r matches Ok((u, l)) && opt_chars(u) == uri && l@ == local),
                Err(p) => (r matches Err(SaxError::UndeclaredNamespacePrefix(q)) && q@ == p),
            },
    {
        match split_at_colon(name) {
            Some((prefix, local)) => match self.lookup(&prefix) {
                Some(uri) => Ok((Some(uri), local)),
                None => Err(SaxError::UndeclaredNamespacePrefix(string_of(prefix.as_slice()))),
            },
            None => {
                let d = match default {
                    Some(v) => Some(copy_chars(v)),
                    None => None,
                };
                Ok((d, copy_chars(name)))
            },
        }
    }

    /// Registers the prefixes that the attributes declare.
    fn register_prefixes(&mut self, raw: &Vec<(Vec<char>, Vec<char>)>)
        ensures
            final(self).prefixes() == register_all(old(self).prefixes(), pairs_view(raw@)),
            final(self).xml@ == old(self).xml@,
            final(self).position == old(self).position,
            final(self).events@ == old(self).events@,
            final(self).namespace_stack@ == old(self).namespace_stack@,
    {
        let xmlns = chars_of("xmlns");
        let mut i: usize = 0;
        while i < raw.len()
            invariant
                i <= raw.len(),
                xmlns@ == "xmlns"@,
                self.prefixes() == register_all(old(self).prefixes(), pairs_view(raw@).take(i as int)),
                self.xml@ == old(self).xml@,
                self.position == old(self).position,
                self.events@ == old(self).events@,
                self.namespace_stack@ == old(self).namespace_stack@,
            decreases raw.len() - i,
        {
            let ghost before = self.prefixes();
            assert(pairs_view(raw@).take(i + 1).drop_last() =~= pairs_view(raw@).take(i as int));
            assert(pairs_view(raw@).take(i + 1).last() == (raw@[i as int].0@, raw@[i as int].1@));
            match split_at_colon(&raw[i].0) {
                Some((p, local)) => {
                    if same_chars(&p, &xmlns) {
                        self.prefix_mapping.push((local, copy_chars(&raw[i].1)));
                        assert(self.prefixes() =~= before.push((local@, raw@[i as int].1@)));
                    }
                },
                None => {},
            }
            i = i + 1;
        }
        assert(pairs_view(raw@).take(raw.len() as int) =~= pairs_view(raw@));
    }

    /// The attributes with their namespaces resolved.
    fn resolve_attributes(&self, raw: &Vec<(Vec<char>, Vec<char>)>) -> (r: Result<
        Vec<Attribute>,
        SaxError,
    >)
        ensures
            r is Ok <==> forall|i: int|
                0 <= i < raw.len() ==> (#[trigger] attribute_namespace(
                    self.prefixes(),
                    raw@[i].0@,
                    raw@[i].1@,
                )) is Ok,
            r matches Ok(atts) ==> (atts.len() == raw.len() && forall|i: int|
                0 <= i < raw.len() ==> {
                    &&& (#[trigger] atts@[i]).name@ == raw@[i].0@
                    &&& atts@[i].value@ == raw@[i].1@
                    &&& attribute_namespace(self.prefixes(), raw@[i].0@, raw@[i].1@) == Ok::<
                        Option<Seq<char>>,
                        Seq<char>,
                    >(opt_view(atts@[i].namespace))
                }),
            match resolve_attributes_spec(self.prefixes(), pairs_view(raw@)) {
                Ok(views) => (r matches Ok(atts) && attributes_view(atts@) == views),
                Err(p) => (r matches Err(SaxError::UndeclaredNamespacePrefix(q)) && q@ == p),
            },
    {
        let xmlns = chars_of("xmlns");
        let mut atts: Vec<Attribute> = Vec::new();
        assert(pairs_view(raw@).take(0) =~= Seq::<(Seq<char>, Seq<char>)>::empty());
        assert(attributes_view(atts@) =~= Seq::<AttributeView>::empty());
        let mut i: usize = 0;
        while i < raw.len()
            invariant
                i <= raw.len(),
                xmlns@ == "xmlns"@,
                atts.len() == i,
                forall|k: int|
                    0 <= k < i ==> (#[trigger] attribute_namespace(
                        self.prefixes(),
                        raw@[k].0@,
                        raw@[k].1@,
                    )) is Ok,
                forall|k: int|
                    0 <= k < i ==> {
                        &&& (#[trigger] atts@[k]).name@ == raw@[k].0@
                        &&& atts@[k].value@ == raw@[k].1@
                        &&& attribute_namespace(self.prefixes(), raw@[k].0@, raw@[k].1@) == Ok::<
                            Option<Seq<char>>,
                            Seq<char>,
                        >(opt_view(atts@[k].namespace))
                    },
                resolve_attributes_spec(self.prefixes(), pairs_view(raw@).take(i as int)) == Ok::<
                    Seq<AttributeView>,
                    Seq<char>,
                >(attributes_view(atts@)),
            decreases raw.len() - i,
        {
            assert(pairs_view(raw@).take(i + 1).drop_last() =~= pairs_view(raw@).take(i as int));
            assert(pairs_view(raw@).take(i + 1).last() == (raw@[i as int].0@, raw@[i as int].1@));
            let name = &raw[i].0;
            let value = &raw[i].1;
            let namespace = if same_chars(name, &xmlns) {
                Some(string_of(value.as_slice()))
            } else {
                match split_at_colon(name) {
                    Some((p, _)) => {
                        if same_chars(&p, &xmlns) {
                            None
                        } else {
                            match self.lookup(&p) {
                                Some(uri) => Some(string_of(uri.as_slice())),
                                None => {
                                    assert(attribute_namespace(
                                        self.prefixes(),
                                        raw@[i as int].0@,
                                        raw@[i as int].1@,
                                    ) is Err);
                                    proof {
                                        lemma_resolve_attributes_err(
                                            self.prefixes(),
                                            pairs_view(raw@),
                                            i + 1,
                                            raw.len() as int,
                                        );
                                        assert(pairs_view(raw@).take(raw.len() as int) =~= pairs_view(raw@));
                                    }
                                    return Err(
                                        SaxError::UndeclaredNamespacePrefix(
                                            string_of(p.as_slice()),
                                        ),
                                    );
                                },
                            }
                        }
                    },
                    None => None,
                }
            };
            let ghost before = atts@;
            let attribute = Attribute {
                name: string_of(name.as_slice()),
                namespace,
                value: string_of(value.as_slice()),
            };
            atts.push(attribute);
            assert(attributes_view(atts@) =~= attributes_view(before).push(attribute_view(attribute)));
            i = i + 1;
        }
        assert(pairs_view(raw@).take(raw.len() as int) =~= pairs_view(raw@));
        Ok(atts)
    }

    /// Moves one character forward and returns it.
    fn advance(&mut self) -> (r: Result<char, SaxError>)
        requires
            old(self).wf(),
        ensures
            old(self).moved(&*final(self)),
            old(self).position < old(self).xml.len() ==> r == Ok::<char, SaxError>(
                old(self).xml@[old(self).position as int],
            ) && final(self).position == old(self).position + 1,
            old(self).position >= old(self).xml.len() ==> r == Err::<char, SaxError>(
                SaxError::UnexpectedEof,
            ) && final(self).position == old(self).position,
    {
        if self.position >= self.xml.len() {
            return Err(SaxError::UnexpectedEof);
        }
        let c = self.xml[self.position];
        self.position = self.position + 1;
        Ok(c)
    }

    /// Reads the characters up to, not including, the first one in `stops`.
    fn read_until(&mut self, stops: &Vec<char>) -> (r: Result<Vec<char>, SaxError>)
        requires
            old(self).wf(),
        ensures
            old(self).moved(&*final(self)),
            r matches Ok(v) ==> {
                &&& old(self).position <= final(self).position < old(self).xml.len()
                &&& stops@.contains(old(self).xml@[final(self).position as int])
                &&& free_of(
                    old(self).xml@,
                    old(self).position as int,
                    final(self).position as int,
                    stops@,
                )
                &&& v@ == old(self).xml@.subrange(
                    old(self).position as int,
                    final(self).position as int,
                )
            },
            r is Err ==> r == Err::<Vec<char>, SaxError>(SaxError::UnexpectedEof) && free_of(
                old(self).xml@,
                old(self).position as int,
                old(self).xml.len() as int,
                stops@,
            ),
            match first_of(old(self).xml@, old(self).position as int, stops@) {
                Some(k) => (r matches Ok(v) && v@ == old(self).xml@.subrange(
                    old(self).position as int,
                    k,
                ) && final(self).position == k),
                None => r == Err::<Vec<char>, SaxError>(SaxError::UnexpectedEof),
            },
    {
        let mut v: Vec<char> = Vec::new();
        while self.position < self.xml.len() && !contains_char(stops, self.xml[self.position])
            invariant
                old(self).moved(&*self),
                old(self).position <= self.position,
                free_of(self.xml@, old(self).position as int, self.position as int, stops@),
                v@ == self.xml@.subrange(old(self).position as int, self.position as int),
                first_of(self.xml@, old(self).position as int, stops@) == first_of(
                    self.xml@,
                    self.position as int,
                    stops@,
                ),
            decreases self.xml.len() - self.position,
        {
            v.push(self.xml[self.position]);
            self.position = self.position + 1;
            assert(v@ =~= self.xml@.subrange(old(self).position as int, self.position as int));
        }
        if self.position >= self.xml.len() {
            return Err(SaxError::UnexpectedEof);
        }
        Ok(v)
    }

    /// Skips whitespace.
    fn skip_whitespace(&mut self)
        requires
            old(self).wf(),
        ensures
            old(self).moved(&*final(self)),
            old(self).position <= final(self).position,
            forall|k: int|
                old(self).position <= k < final(self).position ==> is_space(
                    #[trigger] old(self).xml@[k],
                ),
            final(self).position == final(self).xml.len() || !is_space(
                final(self).xml@[final(self).position as int],
            ),
            final(self).position == skip_ws(old(self).xml@, old(self).position as int),
    {
        while self.position < self.xml.len() && is_space_char(self.xml[self.position])
            invariant
                old(self).moved(&*self),
                old(self).position <= self.position,
                skip_ws(self.xml@, old(self).position as int) == skip_ws(
                    self.xml@,
                    self.position as int,
                ),
                forall|k: int|
                    old(self).position <= k < self.position ==> is_space(#[trigger] self.xml@[k]),
            decreases self.xml.len() - self.position,
        {
            self.position = self.position + 1;
        }
    }

    /// Consumes `expected` where it comes next.
    fn expect(&mut self, expected: &Vec<char>, context: &str) -> (r: Result<(), SaxError>)
        requires
            old(self).wf(),
        ensures
            old(self).moved(&*final(self)),
            matches_at(old(self).xml@, old(self).position as int, expected@) ==> r is Ok
                && final(self).position == old(self).position + expected.len(),
            !matches_at(old(self).xml@, old(self).position as int, expected@) ==> (r matches Err(
                SaxError::UnexpectedCharacter(m),
            ) && m@ == context@),
    {
        let start = self.position;
        let mut i: usize = 0;
        while i < expected.len()
            invariant
                old(self).moved(&*self),
                i <= expected.len(),
                self.position == start + i,
                start == old(self).position,
                start + i <= self.xml.len(),
                self.xml@.subrange(start as int, start + i) == expected@.subrange(0, i as int),
            decreases expected.len() - i,
        {
            if !self.expect_char(expected[i]) {
                assert(!matches_at(old(self).xml@, start as int, expected@)) by {
                    if matches_at(old(self).xml@, start as int, expected@) {
                        assert(self.xml@[start + i] == self.xml@.subrange(
                            start as int,
                            start + expected.len(),
                        )[i as int]);
                    }
                }
                return Err(SaxError::UnexpectedCharacter(context.to_owned()));
            }
            assert(self.xml@.subrange(start as int, start + i + 1) =~= self.xml@.subrange(
                start as int,
                start + i,
            ).push(expected@[i as int]));
            assert(expected@.subrange(0, i + 1) =~= expected@.subrange(0, i as int).push(
                expected@[i as int],
            ));
            i = i + 1;
        }
        assert(expected@.subrange(0, expected.len() as int) =~= expected@);
        Ok(())
    }

    /// Consumes `expected` where it is the next character.
    fn expect_char(&mut self, expected: char) -> (r: bool)
        requires
            old(self).wf(),
        ensures
            old(self).moved(&*final(self)),
            r == (old(self).position < old(self).xml.len() && old(self).xml@[old(
                self,
            ).position as int] == expected),
            r ==> final(self).position == old(self).position + 1,
            !r ==> final(self).position == old(self).position,
    {
        if self.position < self.xml.len() && self.xml[self.position] == expected {
            self.position = self.position + 1;
            true
        } else {
            false
        }
    }
}

/// The characters that end a tag name.
fn tag_name_stop_chars() -> (r: Vec<char>)
    ensures
        r@ == tag_name_stops(),
{
    let mut v: Vec<char> = Vec::new();
    v.push(' ');
    v.push('\t');
    v.push('\n');
    v.push('\r');
    v.push('/');
    v.push('>');
    assert(v@ =~= tag_name_stops());
    v
}

/// The characters that end an attribute name.
fn attribute_name_stop_chars() -> (r: Vec<char>)
    ensures
        r@ == attribute_name_stops(),
{
    let mut v: Vec<char> = Vec::new();
    v.push('=');
    v.push(' ');
    v.push('\t');
    v.push('\n');
    v.push('\r');
    assert(v@ =~= attribute_name_stops());
    v
}

/// Once an attribute cannot be resolved, no longer list of attributes can.
proof fn lemma_resolve_attributes_err(
    m: Seq<(Seq<char>, Seq<char>)>,
    raw: Seq<(Seq<char>, Seq<char>)>,
    i: int,
    j: int,
)
    requires
        0 <= i <= j <= raw.len(),
        resolve_attributes_spec(m, raw.take(i)) is Err,
    ensures
        resolve_attributes_spec(m, raw.take(j)) == resolve_attributes_spec(m, raw.take(i)),
    decreases j - i,
{
    if j > i {
        lemma_resolve_attributes_err(m, raw, i, j - 1);
        assert(raw.take(j).drop_last() =~= raw.take(j - 1));
    }
}

/// Whether `c` is whitespace.
pub fn is_space_char(c: char) -> (r: bool)
    ensures
        r == is_space(c),
{
    let n = c as u32;
    (0x09 <= n && n <= 0x0D) || n == 0x20 || n == 0x85 || n == 0xA0 || n == 0x1680 || (0x2000 <= n
        && n <= 0x200A) || n == 0x2028 || n == 0x2029 || n == 0x202F || n == 0x205F || n == 0x3000
}

/// Whether `c` is one of `set`.
pub fn contains_char(set: &Vec<char>, c: char) -> (r: bool)
    ensures
        r == set@.contains(c),
{
    let mut i: usize = 0;
    while i < set.len()
        invariant
            i <= set.len(),
            forall|k: int| 0 <= k < i ==> set@[k] != c,
        decreases set.len() - i,
    {
        if set[i] == c {
            return true;
        }
        i = i + 1;
    }
    false
}

/// Splits a name at its first colon.
pub fn split_at_colon(name: &Vec<char>) -> (r: Option<(Vec<char>, Vec<char>)>)
    ensures
        match split_prefix(name@) {
            Some((p, l)) => (r matches Some((a, b)) && a@ == p && b@ == l),
            None => r is None,
        },
{
    let mut i: usize = 0;
    while i < name.len()
        invariant
            i <= name.len(),
            first_index(name@, ':', 0) == first_index(name@, ':', i as int),
        decreases name.len() - i,
    {
        if name[i] == ':' {
            let mut prefix: Vec<char> = Vec::new();
            let mut local: Vec<char> = Vec::new();
            let mut k: usize = 0;
            while k < i
                invariant
                    k <= i < name.len(),
                    prefix@ == name@.subrange(0, k as int),
                decreases i - k,
            {
                prefix.push(name[k]);
                k = k + 1;
                assert(prefix@ =~= name@.subrange(0, k as int));
            }
            k = i + 1;
            while k < name.len()
                invariant
                    i < k <= name.len(),
                    local@ == name@.subrange(i + 1, k as int),
                decreases name.len() - k,
            {
                local.push(name[k]);
                k = k + 1;
                assert(local@ =~= name@.subrange(i + 1, k as int));
            }
            return Some((prefix, local));
        }
        i = i + 1;
    }
    None
}

/// The default namespace the attributes declare.
fn declared_default_of(raw: &Vec<(Vec<char>, Vec<char>)>) -> (r: Option<Vec<char>>)
    ensures
        opt_chars(r) == declared_default(pairs_view(raw@)),
{
    let xmlns = chars_of("xmlns");
    let mut found: Option<Vec<char>> = None;
    let mut i: usize = 0;
    while i < raw.len()
        invariant
            i <= raw.len(),
            xmlns@ == "xmlns"@,
            opt_chars(found) == declared_default(pairs_view(raw@).take(i as int)),
        decreases raw.len() - i,
    {
        assert(pairs_view(raw@).take(i + 1).drop_last() =~= pairs_view(raw@).take(i as int));
        assert(pairs_view(raw@).take(i + 1).last() == (raw@[i as int].0@, raw@[i as int].1@));
        if same_chars(&raw[i].0, &xmlns) {
            found = Some(copy_chars(&raw[i].1));
        }
        i = i + 1;
    }
    assert(pairs_view(raw@).take(raw.len() as int) =~= pairs_view(raw@));
    found
}

/// `namespace:local`, or `local` alone without a namespace.
fn qualified_chars(uri: &Option<Vec<char>>, local: &Vec<char>) -> (r: Vec<char>)
    ensures
        r@ == qualify(opt_chars(*uri), local@),
{
    match uri {
        Some(u) => {
            let mut q = copy_chars(u);
            q.push(':');
            append_chars(&mut q, local);
            assert(q@ =~= u@ + seq![':'] + local@);
            q
        },
        None => copy_chars(local),
    }
}

fn optional_string(o: &Option<Vec<char>>) -> (r: Option<String>)
    ensures
        opt_view(r) == opt_chars(*o),
{
    match o {
        Some(v) => Some(string_of(v.as_slice())),
        None => None,
    }
}

} // verus!
