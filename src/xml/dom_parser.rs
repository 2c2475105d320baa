//! A document tree built from the parser's events.
//!
//! Elements are first collected in a flat arena whose nodes refer to their
//! children by index; once the events are exhausted, the arena is turned into
//! an owned tree, following the child indices depth first.
use vstd::prelude::*;

use crate::text::{copy_string, string_of};
use crate::xml::sax_parser::parse_events;
use crate::xml::syntax::{document, error_view, event_view, events_view, EventView};
use crate::xml::{attribute_view, attributes_view, opt_view, Attribute, SaxError, SaxEvent, SaxHandler};

verus! {

/// A parsed document.
#[derive(Debug)]
pub struct Document {
    pub root: Node,
}

/// An element of a document tree.
#[derive(Debug, PartialEq)]
pub struct Node {
    /// The local name of the element.
    pub name: String,
    /// The namespace URI of the element, if any.
    pub namespace: Option<String>,
    pub children: Vec<Node>,
    pub attributes: Vec<Attribute>,
    /// The last run of text read directly inside the element.
    pub text: Option<String>,
}

/// An element of the arena: its children are arena indices.
pub struct NodeModel {
    pub name: Seq<char>,
    pub namespace: Option<Seq<char>>,
    pub children: Seq<int>,
    pub attributes: Seq<(Seq<char>, Option<Seq<char>>, Seq<char>)>,
    pub text: Option<Seq<char>>,
}

/// The arena and the stack of open elements.
pub struct ArenaModel {
    pub nodes: Seq<NodeModel>,
    pub stack: Seq<int>,
}

/// The arena after a start tag: a new node, registered as a child of the
/// innermost open element, becomes the innermost open element.
pub open spec fn open_model(
    a: ArenaModel,
    uri: Option<Seq<char>>,
    local_name: Seq<char>,
    attributes: Seq<(Seq<char>, Option<Seq<char>>, Seq<char>)>,
) -> ArenaModel {
    let id = a.nodes.len() as int;
    let node = NodeModel {
        name: local_name,
        namespace: uri,
        children: Seq::empty(),
        attributes,
        text: None,
    };
    let nodes = if a.stack.len() > 0 {
        let top = a.stack.last();
        a.nodes.update(top, NodeModel { children: a.nodes[top].children.push(id), ..a.nodes[top] })
    } else {
        a.nodes
    };
    ArenaModel { nodes: nodes.push(node), stack: a.stack.push(id) }
}

/// The arena after an end tag: the innermost open element closes, unless it
/// is the root.
pub open spec fn close_model(a: ArenaModel) -> ArenaModel {
    if a.stack.len() > 1 {
        ArenaModel { stack: a.stack.drop_last(), ..a }
    } else {
        a
    }
}

/// The arena after a text run: it replaces the text of the innermost open
/// element.
pub open spec fn text_model(a: ArenaModel, chars: Seq<char>) -> ArenaModel {
    if a.stack.len() > 0 {
        let top = a.stack.last();
        ArenaModel { nodes: a.nodes.update(top, NodeModel { text: Some(chars), ..a.nodes[top] }), ..a }
    } else {
        a
    }
}

/// The arena after one event.
pub open spec fn apply_event(a: ArenaModel, e: EventView) -> ArenaModel {
    match e {
        EventView::StartElement(uri, local_name, _, attributes) => open_model(
            a,
            uri,
            local_name,
            attributes,
        ),
        EventView::EndElement(..) => close_model(a),
        EventView::Characters(chars) => text_model(a, chars),
        _ => a,
    }
}

/// The arena after a sequence of events, starting empty.
pub open spec fn build_arena(evs: Seq<EventView>) -> ArenaModel
    decreases evs.len(),
{
    if evs.len() == 0 {
        ArenaModel { nodes: Seq::empty(), stack: Seq::empty() }
    } else {
        apply_event(build_arena(evs.drop_last()), evs.last())
    }
}

/// `n` is the tree that the arena holds at index `i`.
pub open spec fn mirrors(nodes: Seq<NodeModel>, i: int, n: Node) -> bool
    decreases nodes.len() - i,
{
    &&& 0 <= i < nodes.len()
    &&& n.name@ == nodes[i].name
    &&& opt_view(n.namespace) == nodes[i].namespace
    &&& attributes_view(n.attributes@) == nodes[i].attributes
    &&& opt_view(n.text) == nodes[i].text
    &&& n.children.len() == nodes[i].children.len()
    &&& forall|k: int|
        0 <= k < n.children.len() ==> i < nodes[i].children[k] < nodes.len() && mirrors(
            nodes,
            nodes[i].children[k],
            #[trigger] n.children@[k],
        )
}

/// Two trees hold the same names, namespaces, attributes and texts, at
/// every depth.
pub open spec fn same_tree(a: Node, b: Node) -> bool
    decreases a,
{
    &&& a.name@ == b.name@
    &&& opt_view(a.namespace) == opt_view(b.namespace)
    &&& attributes_view(a.attributes@) == attributes_view(b.attributes@)
    &&& opt_view(a.text) == opt_view(b.text)
    &&& a.children.len() == b.children.len()
    &&& forall|i: int|
        0 <= i < a.children.len() ==> same_tree(#[trigger] a.children@[i], b.children@[i])
}

/// An arena index holds one tree only, up to the values the views see.
pub proof fn lemma_mirrors_unique(nodes: Seq<NodeModel>, i: int, a: Node, b: Node)
    requires
        mirrors(nodes, i, a),
        mirrors(nodes, i, b),
    ensures
        same_tree(a, b),
    decreases nodes.len() - i,
{
    assert forall|k: int| 0 <= k < a.children.len() implies same_tree(
        #[trigger] a.children@[k],
        b.children@[k],
    ) by {
        assert(mirrors(nodes, nodes[i].children[k], a.children@[k]));
        assert(mirrors(nodes, nodes[i].children[k], b.children@[k]));
        lemma_mirrors_unique(nodes, nodes[i].children[k], a.children@[k], b.children@[k]);
    }
}

/// Builds the tree of a document from its text: the tree of the arena that
/// the document's events build. A document without any element has no root
/// and fails with `UnexpectedEof`.
pub fn get_document(xml: String) -> (r: Result<Document, SaxError>)
    ensures
        match document(xml@) {
            Ok(evs) => if build_arena(evs).nodes.len() > 0 {
                r matches Ok(doc) && mirrors(build_arena(evs).nodes, 0, doc.root)
            } else {
                r matches Err(SaxError::UnexpectedEof)
            },
            Err(e) => (r matches Err(x) && error_view(x) == e),
        },
{
    let events = parse_events(xml)?;
    build_document(&events)
}

/// Builds the tree that a sequence of events describes: the first element
/// is the root.
pub fn build_document(events: &Vec<SaxEvent>) -> (r: Result<Document, SaxError>)
    ensures
        r is Ok <==> build_arena(events_view(events@)).nodes.len() > 0,
        r is Err ==> r == Err::<Document, SaxError>(SaxError::UnexpectedEof),
        r matches Ok(doc) ==> mirrors(build_arena(events_view(events@)).nodes, 0, doc.root),
{
    let mut handler = DomSaxHandler::new();
    let mut i: usize = 0;
    while i < events.len()
        invariant
            i <= events.len(),
            handler.wf(),
            handler.model() == build_arena(events_view(events@).take(i as int)),
        decreases events.len() - i,
    {
        assert(events_view(events@).take(i + 1).drop_last() =~= events_view(events@).take(i as int));
        assert(events_view(events@).take(i + 1).last() == event_view(events@[i as int]));
        match &events[i] {
            SaxEvent::StartElement { uri, local_name, attributes, .. } => {
                handler.open_element(uri, local_name, attributes);
            },
            SaxEvent::EndElement { .. } => handler.close_element(),
            SaxEvent::Characters(chars) => handler.set_text(chars),
            _ => {},
        }
        i = i + 1;
    }
    assert(events_view(events@).take(events.len() as int) =~= events_view(events@));
    handler.into_doc()
}

struct BNode {
    name: String,
    namespace: Option<String>,
    children: Vec<usize>,
    attributes: Vec<Attribute>,
    text: Option<String>,
}

impl BNode {
    spec fn model(&self) -> NodeModel {
        NodeModel {
            name: self.name@,
            namespace: opt_view(self.namespace),
            children: self.children@.map_values(|c: usize| c as int),
            attributes: attributes_view(self.attributes@),
            text: opt_view(self.text),
        }
    }

    fn new(name: &String, namespace: &Option<String>, attributes: &Vec<Attribute>) -> (r: BNode)
        ensures
            r.model() == (NodeModel {
                name: name@,
                namespace: opt_view(*namespace),
                children: Seq::empty(),
                attributes: attributes_view(attributes@),
                text: None,
            }),
    {
        let r = BNode {
            name: copy_string(name),
            namespace: copy_optional(namespace),
            children: Vec::new(),
            attributes: copy_attributes(attributes),
            text: None,
        };
        assert(r.model().children =~= Seq::<int>::empty());
        r
    }
}

struct DomSaxHandler {
    node_stack: Vec<usize>,
    nodes: Vec<BNode>,
}

impl DomSaxHandler {
    spec fn model(&self) -> ArenaModel {
        ArenaModel {
            nodes: self.nodes@.map_values(|b: BNode| b.model()),
            stack: self.node_stack@.map_values(|i: usize| i as int),
        }
    }

    /// Children come after their parent in the arena, and the open elements
    /// are in it.
    spec fn wf(&self) -> bool {
        &&& forall|i: int, k: int|
            0 <= i < self.nodes.len() && 0 <= k < self.nodes@[i].children.len() ==> i
                < #[trigger] self.nodes@[i].children@[k] < self.nodes.len()
        &&& forall|j: int| 0 <= j < self.node_stack.len() ==> #[trigger] self.node_stack@[j] < self.nodes.len()
    }

    fn new() -> (r: DomSaxHandler)
        ensures
            r.wf(),
            r.model() == build_arena(Seq::empty()),
    {
        let r = DomSaxHandler { node_stack: Vec::new(), nodes: Vec::new() };
        assert(r.model().nodes =~= Seq::<NodeModel>::empty());
        assert(r.model().stack =~= Seq::<int>::empty());
        r
    }

    fn open_element(&mut self, uri: &Option<String>, local_name: &String, attributes: &Vec<Attribute>)
        ensures
            old(self).wf() ==> final(self).wf(),
            old(self).wf() ==> final(self).model() == open_model(
                old(self).model(),
                opt_view(*uri),
                local_name@,
                attributes_view(attributes@),
            ),
    {
        let id = self.nodes.len();
        let node = BNode::new(local_name, uri, attributes);
        let ghost before = self.model();
        let ghost was_wf = self.wf();
        if self.node_stack.len() > 0 {
            let top = self.node_stack[self.node_stack.len() - 1];
            if top < self.nodes.len() {
                let ghost old_nodes = self.nodes@;
                let ghost old_b = self.nodes@[top as int];
                self.nodes[top].children.push(id);
                proof {
                    let b = self.nodes@[top as int];
                    assert(b.model().children =~= old_b.model().children.push(id as int));
                    assert(b.model() == NodeModel { children: old_b.model().children.push(id as int), ..old_b.model() });
                    assert(self.model().nodes =~= before.nodes.update(
                        top as int,
                        NodeModel { children: before.nodes[top as int].children.push(id as int), ..before.nodes[top as int] },
                    ));
                    if was_wf {
                        assert forall|i: int, k: int|
                            0 <= i < self.nodes.len() && 0 <= k < self.nodes@[i].children.len() implies i
                                < #[trigger] self.nodes@[i].children@[k] <= id by {
                            if i != top {
                                assert(self.nodes@[i] == old_nodes[i]);
                            } else if k < old_b.children.len() {
                                assert(self.nodes@[i].children@[k] == old_b.children@[k]);
                            }
                        }
                    }
                }
            }
        }
        let ghost mid = self.model();
        let ghost mid_nodes = self.nodes@;
        self.nodes.push(node);
        self.node_stack.push(id);
        proof {
            assert(self.model().nodes =~= mid.nodes.push(node.model()));
            assert(self.model().stack =~= before.stack.push(id as int));
            if was_wf {
                assert forall|i: int, k: int|
                    0 <= i < self.nodes.len() && 0 <= k < self.nodes@[i].children.len() implies i
                        < #[trigger] self.nodes@[i].children@[k] < self.nodes.len() by {
                    if i < id {
                        assert(self.nodes@[i] == mid_nodes[i]);
                    } else {
                        assert(node.model().children.len() == 0);
                        assert(node.children@.len() == 0);
                    }
                }
            }
        }
    }

    fn close_element(&mut self)
        ensures
            old(self).wf() ==> final(self).wf(),
            final(self).model() == close_model(old(self).model()),
    {
        if self.node_stack.len() > 1 {
            let ghost before = self.model();
            self.node_stack.pop();
            assert(self.model().stack =~= before.stack.drop_last());
            assert(self.model().nodes =~= before.nodes);
        }
    }

    fn set_text(&mut self, chars: &Vec<char>)
        ensures
            old(self).wf() ==> final(self).wf(),
            old(self).wf() ==> final(self).model() == text_model(old(self).model(), chars@),
    {
        if self.node_stack.len() > 0 {
            let ghost before = self.model();
            let ghost old_nodes = self.nodes@;
            let top = self.node_stack[self.node_stack.len() - 1];
            if top < self.nodes.len() {
                let ghost old_b = self.nodes@[top as int];
                self.nodes[top].text = Some(string_of(chars.as_slice()));
                proof {
                    let b = self.nodes@[top as int];
                    assert(b.model() == NodeModel { text: Some(chars@), ..old_b.model() });
                    assert(self.model().nodes =~= before.nodes.update(
                        top as int,
                        NodeModel { text: Some(chars@), ..before.nodes[top as int] },
                    ));
                    assert forall|i: int, k: int|
                        0 <= i < self.nodes.len() && 0 <= k < self.nodes@[i].children.len() implies
                            #[trigger] self.nodes@[i].children@[k] == old_nodes[i].children@[k] by {
                        if i != top {
                            assert(self.nodes@[i] == old_nodes[i]);
                        }
                    }
                }
            }
            assert(self.model().stack =~= before.stack);
        }
    }

    fn into_doc(self) -> (r: Result<Document, SaxError>)
        requires
            self.wf(),
        ensures
            r is Ok <==> self.model().nodes.len() > 0,
            r is Err ==> r == Err::<Document, SaxError>(SaxError::UnexpectedEof),
            r matches Ok(doc) ==> mirrors(self.model().nodes, 0, doc.root),
    {
        if self.nodes.len() == 0 {
            return Err(SaxError::UnexpectedEof);
        }
        let root = self.to_node(0);
        Ok(Document { root })
    }

    fn to_node(&self, i: usize) -> (r: Node)
        requires
            self.wf(),
            i < self.nodes.len(),
        ensures
            mirrors(self.model().nodes, i as int, r),
        decreases self.nodes.len() - i,
    {
        let b = &self.nodes[i];
        let mut children: Vec<Node> = Vec::new();
        let mut k: usize = 0;
        while k < b.children.len()
            invariant
                self.wf(),
                i < self.nodes.len(),
                b == self.nodes@[i as int],
                k <= b.children.len(),
                children.len() == k,
                forall|j: int|
                    0 <= j < k ==> i < self.model().nodes[i as int].children[j] < self.nodes.len() && mirrors(
                        self.model().nodes,
                        self.model().nodes[i as int].children[j],
                        #[trigger] children@[j],
                    ),
            decreases b.children.len() - k,
        {
            let c = b.children[k];
            assert(i < c < self.nodes.len());
            let child = self.to_node(c);
            children.push(child);
            k = k + 1;
        }
        Node {
            name: copy_string(&b.name),
            namespace: copy_optional(&b.namespace),
            children,
            attributes: copy_attributes(&b.attributes),
            text: copy_optional(&b.text),
        }
    }
}

impl SaxHandler for DomSaxHandler {
    fn start_document(&mut self) {
    }

    fn end_document(&mut self) {
    }

    fn start_element(
        &mut self,
        uri: Option<String>,
        local_name: &str,
        _qualified_name: &str,
        attributes: Vec<Attribute>,
    ) {
        self.open_element(&uri, &local_name.to_owned(), &attributes);
    }

    fn end_element(&mut self, _uri: Option<String>, _local_name: &str, _qualified_name: &str) {
        self.close_element();
    }

    fn characters(&mut self, chars: &[char]) {
        let mut v: Vec<char> = Vec::new();
        let mut i: usize = 0;
        while i < chars.len()
            invariant
                i <= chars.len(),
            decreases chars.len() - i,
        {
            v.push(chars[i]);
            i = i + 1;
        }
        self.set_text(&v);
    }
}

fn copy_optional(o: &Option<String>) -> (r: Option<String>)
    ensures
        opt_view(r) == opt_view(*o),
{
    match o {
        Some(s) => Some(copy_string(s)),
        None => None,
    }
}

/// A copy of a list of attributes.
pub fn copy_attributes(a: &Vec<Attribute>) -> (r: Vec<Attribute>)
    ensures
        attributes_view(r@) == attributes_view(a@),
{
    let mut r: Vec<Attribute> = Vec::new();
    let mut i: usize = 0;
    while i < a.len()
        invariant
            i <= a.len(),
            attributes_view(r@) == attributes_view(a@.take(i as int)),
        decreases a.len() - i,
    {
        let x = &a[i];
        let c = Attribute {
            name: copy_string(&x.name),
            namespace: copy_optional(&x.namespace),
            value: copy_string(&x.value),
        };
        r.push(c);
        assert(attributes_view(a@.take(i + 1)) =~= attributes_view(a@.take(i as int)).push(attribute_view(*x)));
        assert(attributes_view(r@) =~= attributes_view(a@.take(i as int)).push(attribute_view(c)));
        i = i + 1;
    }
    assert(a@.take(a.len() as int) =~= a@);
    r
}

} // verus!
