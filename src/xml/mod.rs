//! XML parsing: events, the handler interface and the error kinds.
pub mod dom_parser;
pub mod invariance;
pub mod sax_parser;
pub mod syntax;

use vstd::prelude::*;

verus! {

/// An attribute of a start tag.
#[derive(Debug, Clone, PartialEq)]
pub struct Attribute {
    pub name: String,
    /// The namespace URI the attribute's name resolves to, if any.
    pub namespace: Option<String>,
    pub value: String,
}

/// The ways in which a document can fail to parse.
#[derive(Debug, Clone, PartialEq)]
pub enum SaxError {
    BadCharacter,
    UnexpectedEof,
    UnexpectedCharacter(String),
    UndeclaredNamespacePrefix(String),
}

impl SaxError {
    /// A human-readable description of the error.
    pub fn to_string(&self) -> (r: String)
        ensures
            r@ == match self {
                SaxError::BadCharacter => "Bad character"@,
                SaxError::UnexpectedEof => "Unexpected end of document"@,
                SaxError::UnexpectedCharacter(c) => "Unexpected character "@ + c@,
                SaxError::UndeclaredNamespacePrefix(p) => "Undeclared namespace prefix "@ + p@,
            },
    {
        match self {
            SaxError::BadCharacter => "Bad character".to_owned(),
            SaxError::UnexpectedEof => "Unexpected end of document".to_owned(),
            SaxError::UnexpectedCharacter(c) => {
                let mut s = "Unexpected character ".to_owned();
                s.append(c.as_str());
                s
            },
            SaxError::UndeclaredNamespacePrefix(p) => {
                let mut s = "Undeclared namespace prefix ".to_owned();
                s.append(p.as_str());
                s
            },
        }
    }
}

/// One structural event of a parse, in document order.
#[derive(Debug, Clone)]
pub enum SaxEvent {
    StartDocument,
    EndDocument,
    StartElement {
        uri: Option<String>,
        local_name: String,
        qualified_name: String,
        attributes: Vec<Attribute>,
    },
    EndElement { uri: Option<String>, local_name: String, qualified_name: String },
    Characters(Vec<char>),
}

/// Receives the events of a parse.
pub trait SaxHandler {
    fn start_document(&mut self);

    fn end_document(&mut self);

    fn start_element(
        &mut self,
        uri: Option<String>,
        local_name: &str,
        qualified_name: &str,
        attributes: Vec<Attribute>,
    );

    fn end_element(&mut self, uri: Option<String>, local_name: &str, qualified_name: &str);

    fn characters(&mut self, chars: &[char]);
}

/// An attribute as plain values: name, namespace, value.
pub open spec fn attribute_view(a: Attribute) -> (Seq<char>, Option<Seq<char>>, Seq<char>) {
    (a.name@, opt_view(a.namespace), a.value@)
}

pub open spec fn attributes_view(v: Seq<Attribute>) -> Seq<(Seq<char>, Option<Seq<char>>, Seq<char>)> {
    v.map_values(|a: Attribute| attribute_view(a))
}

/// The view of an optional string.
pub open spec fn opt_view(o: Option<String>) -> Option<Seq<char>> {
    match o {
        Some(s) => Some(s@),
        None => None,
    }
}

/// The name shown for an element: `namespace:local` when it has a namespace,
/// otherwise the local name alone.
pub open spec fn qualify(namespace: Option<Seq<char>>, local: Seq<char>) -> Seq<char> {
    match namespace {
        Some(ns) => ns + seq![':'] + local,
        None => local,
    }
}

} // verus!
