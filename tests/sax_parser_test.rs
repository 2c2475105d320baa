use undeepend::xml::sax_parser::{parse_events, parse_string};
use undeepend::xml::{Attribute, SaxError, SaxEvent, SaxHandler};

const HEADER_XML: &str = "<?xml version=\"1.0\" encoding=\"UTF-8\"?>\n<xml/>\n";
const ELEMENT_XML: &str = "<?xml version=\"1.0\" encoding=\"UTF-8\"?>\n<element></element>\n";
const ELEMENT_WITH_ATTRIBUTE_XML: &str =
    "<?xml version=\"1.0\" encoding=\"UTF-8\"?>\n<element a=\"1\"></element>\n";
const COMMENT_XML: &str = "<?xml version=\"1.0\" encoding=\"UTF-8\"?>\n<!-- a list of books -->\n<bookstore xmlns=\"http://example.com/books\">\n</bookstore>\n";
const ILLEGAL_DASHES_COMMENT_XML: &str =
    "<?xml version=\"1.0\" encoding=\"UTF-8\"?>\n<!-- a -- b -->\n<bookstore></bookstore>\n";
const NAMESPACES_XML: &str = "<?xml version=\"1.0\" encoding=\"UTF-8\"?>
<bookstore>
    <book xmlns=\"http://example.com/books\" id=\"1\" category=\"fiction\">
        <page/>
    </book>
    <publisher/>
</bookstore>
";
const NAMESPACES_PREFIX_XML: &str = "<?xml version=\"1.0\" encoding=\"UTF-8\"?>
<bookstore>
    <book xmlns:books=\"http://example.com/books\" xmlns:covers=\"http://example.com/covers\" id=\"1\" category=\"fiction\">
        <books:page/>
        <covers:cover/>
    </book>
    <publisher/>
</bookstore>
";

#[derive(Debug)]
struct TestHandler {
    start_document_called: usize,
    end_document_called: usize,
    start_element_called: usize,
    end_element_called: usize,
    elements: Vec<String>,
    with_local_names: bool,
}

impl TestHandler {
    pub fn new() -> Self {
        Self {
            start_document_called: 0,
            end_document_called: 0,
            start_element_called: 0,
            end_element_called: 0,
            elements: vec![],
            with_local_names: false,
        }
    }

    fn with_local_names() -> Self {
        Self { with_local_names: true, ..Self::new() }
    }
}

impl SaxHandler for TestHandler {
    fn start_document(&mut self) {
        self.start_document_called += 1;
    }

    fn end_document(&mut self) {
        self.end_document_called += 1;
    }

    fn start_element(
        &mut self,
        uri: Option<String>,
        local_name: &str,
        qualified_name: &str,
        attributes: Vec<Attribute>,
    ) {
        self.start_element_called += 1;
        let atts = attributes
            .iter()
            .map(|att| format!(r#"{}="{}""#, att.name, att.value))
            .collect::<Vec<String>>()
            .join(" ");
        let name = if self.with_local_names {
            match uri {
                Some(uri) => format!("{}:{}", uri, local_name),
                None => local_name.to_string(),
            }
        } else {
            qualified_name.to_string()
        };
        let divider = if atts.is_empty() { "" } else { " " };
        self.elements.push(format!("<{}{}{}>", name, divider, atts));
    }

    fn end_element(&mut self, _uri: Option<String>, _local_name: &str, _qualified_name: &str) {
        self.end_element_called += 1;
    }

    fn characters(&mut self, _chars: &[char]) {}
}

#[test]
fn test_xml_header() {
    let mut testhandler = TestHandler::new();
    parse_string(HEADER_XML.to_string(), &mut testhandler).expect("Failed to parse test xml");
    println!("{:?}", testhandler);
    assert_eq!(testhandler.start_document_called, 1);
    assert_eq!(testhandler.end_document_called, 1);
}

#[test]
fn test_single_element_short() {
    let mut testhandler = TestHandler::new();
    parse_string(HEADER_XML.to_string(), &mut testhandler).expect("Failed to parse test xml");
    assert_eq!(testhandler.start_document_called, 1);
    assert_eq!(testhandler.start_element_called, 1);
    assert!(!testhandler.elements.is_empty());
    assert_eq!(testhandler.elements[0], "<xml>");
    assert_eq!(testhandler.end_document_called, 1);
}

#[test]
fn test_single_element() {
    let mut testhandler = TestHandler::new();
    parse_string(ELEMENT_XML.to_string(), &mut testhandler).expect("Failed to parse test xml");
    assert_eq!(testhandler.start_document_called, 1);
    assert_eq!(testhandler.start_element_called, 1);
    assert!(!testhandler.elements.is_empty());
    assert_eq!(testhandler.elements[0], "<element>");
    assert_eq!(testhandler.end_document_called, 1);
}

#[test]
fn test_single_element_single_attribute() {
    let mut testhandler = TestHandler::new();
    parse_string(ELEMENT_WITH_ATTRIBUTE_XML.to_string(), &mut testhandler)
        .expect("Failed to parse test xml");
    assert_eq!(testhandler.start_document_called, 1);
    assert_eq!(testhandler.start_element_called, 1);
    assert!(!testhandler.elements.is_empty());
    assert_eq!(testhandler.elements[0], r#"<element a="1">"#);
    assert_eq!(testhandler.end_element_called, 1);
    assert_eq!(testhandler.end_document_called, 1);
}

#[test]
fn test_ignore_comment() {
    let mut testhandler = TestHandler::new();
    parse_string(COMMENT_XML.to_string(), &mut testhandler).expect("Failed to parse test xml");
    assert_eq!(testhandler.start_document_called, 1);
    assert_eq!(testhandler.start_element_called, 1);
    assert!(!testhandler.elements.is_empty());
    assert_eq!(
        testhandler.elements[0],
        r#"<http://example.com/books:bookstore xmlns="http://example.com/books">"#
    );
    assert_eq!(testhandler.end_element_called, 1);
    assert_eq!(testhandler.end_document_called, 1);
}

#[test]
fn test_bad_comment() {
    let mut testhandler = TestHandler::new();
    match parse_string(ILLEGAL_DASHES_COMMENT_XML.to_string(), &mut testhandler) {
        Err(e) => assert_eq!(e, SaxError::BadCharacter),
        Ok(_) => assert!(false),
    }
}

#[test]
fn test_namespaces() {
    let mut testhandler = TestHandler::new();
    parse_string(NAMESPACES_XML.to_string(), &mut testhandler).expect("Failed to parse test xml");
    assert_eq!(testhandler.start_document_called, 1);
    assert_eq!(testhandler.start_element_called, 4);
    assert!(!testhandler.elements.is_empty());
    assert_eq!(testhandler.elements[0], r#"<bookstore>"#);
    assert_eq!(
        testhandler.elements[1],
        r#"<http://example.com/books:book xmlns="http://example.com/books" id="1" category="fiction">"#
    );
    assert_eq!(testhandler.elements[2], r#"<http://example.com/books:page>"#);
    assert_eq!(testhandler.elements[3], r#"<publisher>"#);
    assert_eq!(testhandler.end_element_called, 4);
    assert_eq!(testhandler.end_document_called, 1);
}

#[test]
fn test_namespace_prefixes() {
    let mut testhandler = TestHandler::new();
    parse_string(NAMESPACES_PREFIX_XML.to_string(), &mut testhandler)
        .expect("Failed to parse test xml");
    assert_eq!(testhandler.start_document_called, 1);
    assert_eq!(testhandler.start_element_called, 5);
    assert!(!testhandler.elements.is_empty());
    assert_eq!(testhandler.elements[0], r#"<bookstore>"#);
    assert_eq!(
        testhandler.elements[1],
        r#"<book xmlns:books="http://example.com/books" xmlns:covers="http://example.com/covers" id="1" category="fiction">"#
    );
    assert_eq!(testhandler.elements[2], r#"<http://example.com/books:page>"#);
    assert_eq!(testhandler.elements[3], r#"<http://example.com/covers:cover>"#);
    assert_eq!(testhandler.elements[4], r#"<publisher>"#);
    assert_eq!(testhandler.end_element_called, 5);
    assert_eq!(testhandler.end_document_called, 1);
}

#[test]
fn sax_parser_test_test_xml_header() {
    let mut testhandler = TestHandler::with_local_names();
    parse_string(HEADER_XML.to_string(), &mut testhandler).expect("Failed to parse test xml");
    println!("{:?}", testhandler);
    assert_eq!(testhandler.start_document_called, 1);
    assert_eq!(testhandler.end_document_called, 1);
}

#[test]
fn sax_parser_test_test_single_element_short() {
    let mut testhandler = TestHandler::with_local_names();
    parse_string(HEADER_XML.to_string(), &mut testhandler).expect("Failed to parse test xml");
    assert_eq!(testhandler.start_document_called, 1);
    assert_eq!(testhandler.start_element_called, 1);
    assert!(!testhandler.elements.is_empty());
    assert_eq!(testhandler.elements[0], "<xml>");
    assert_eq!(testhandler.end_document_called, 1);
}

#[test]
fn sax_parser_test_test_single_element() {
    let mut testhandler = TestHandler::with_local_names();
    parse_string(ELEMENT_XML.to_string(), &mut testhandler).expect("Failed to parse test xml");
    assert_eq!(testhandler.start_document_called, 1);
    assert_eq!(testhandler.start_element_called, 1);
    assert!(!testhandler.elements.is_empty());
    assert_eq!(testhandler.elements[0], "<element>");
    assert_eq!(testhandler.end_document_called, 1);
}

#[test]
fn sax_parser_test_test_single_element_single_attribute() {
    let mut testhandler = TestHandler::with_local_names();
    parse_string(ELEMENT_WITH_ATTRIBUTE_XML.to_string(), &mut testhandler)
        .expect("Failed to parse test xml");
    assert_eq!(testhandler.start_document_called, 1);
    assert_eq!(testhandler.start_element_called, 1);
    assert!(!testhandler.elements.is_empty());
    assert_eq!(testhandler.elements[0], r#"<element a="1">"#);
    assert_eq!(testhandler.end_element_called, 1);
    assert_eq!(testhandler.end_document_called, 1);
}

#[test]
fn sax_parser_test_test_ignore_comment() {
    let mut testhandler = TestHandler::with_local_names();
    parse_string(COMMENT_XML.to_string(), &mut testhandler).expect("Failed to parse test xml");
    assert_eq!(testhandler.start_document_called, 1);
    assert_eq!(testhandler.start_element_called, 1);
    assert!(!testhandler.elements.is_empty());
    assert_eq!(
        testhandler.elements[0],
        r#"<http://example.com/books:bookstore xmlns="http://example.com/books">"#
    );
    assert_eq!(testhandler.end_element_called, 1);
    assert_eq!(testhandler.end_document_called, 1);
}

#[test]
fn sax_parser_test_test_namespaces() {
    let mut testhandler = TestHandler::with_local_names();
    parse_string(NAMESPACES_XML.to_string(), &mut testhandler).expect("Failed to parse test xml");
    assert_eq!(testhandler.start_document_called, 1);
    assert_eq!(testhandler.start_element_called, 4);
    assert!(!testhandler.elements.is_empty());
    assert_eq!(testhandler.elements[0], r#"<bookstore>"#);
    assert_eq!(
        testhandler.elements[1],
        r#"<http://example.com/books:book xmlns="http://example.com/books" id="1" category="fiction">"#
    );
    assert_eq!(testhandler.elements[2], r#"<http://example.com/books:page>"#);
    assert_eq!(testhandler.elements[3], r#"<publisher>"#);
    assert_eq!(testhandler.end_element_called, 4);
    assert_eq!(testhandler.end_document_called, 1);
}

fn document_events(evs: &[SaxEvent]) -> (usize, usize) {
    let starts = evs.iter().filter(|e| matches!(e, SaxEvent::StartDocument)).count();
    let ends = evs.iter().filter(|e| matches!(e, SaxEvent::EndDocument)).count();
    (starts, ends)
}

#[test]
fn document_events_once_at_any_depth() {
    let deep = "<?xml version=\"1.0\" encoding=\"UTF-8\"?><a><b><c><d><e>x</e></d></c></b></a>";
    let evs = parse_events(deep.to_string()).unwrap();
    assert_eq!(document_events(&evs), (1, 1));
    assert!(matches!(evs[0], SaxEvent::StartDocument));
    assert!(matches!(evs[evs.len() - 1], SaxEvent::EndDocument));
    let flat = "<?xml version=\"1.0\" encoding=\"UTF-8\"?><a/>";
    assert_eq!(document_events(&parse_events(flat.to_string()).unwrap()), (1, 1));
}

#[test]
fn bare_name_and_attribute_without_namespace() {
    let xml = "<?xml version=\"1.0\" encoding=\"UTF-8\"?><name a=\"1\"/>";
    let evs = parse_events(xml.to_string()).unwrap();
    match &evs[1] {
        SaxEvent::StartElement { uri, local_name, qualified_name, attributes } => {
            assert_eq!(*uri, None);
            assert_eq!(local_name, "name");
            assert_eq!(qualified_name, "name");
            assert_eq!(attributes.len(), 1);
            assert_eq!(attributes[0].name, "a");
            assert_eq!(attributes[0].value, "1");
            assert_eq!(attributes[0].namespace, None);
        }
        other => panic!("unexpected event {:?}", other),
    }
}

#[test]
fn comment_with_dash_pair_before_close() {
    let closed = "<?xml version=\"1.0\" encoding=\"UTF-8\"?><!--a-b--><r/>";
    assert!(parse_events(closed.to_string()).is_ok());
    let inner = "<?xml version=\"1.0\" encoding=\"UTF-8\"?><!--a--b--><r/>";
    assert_eq!(parse_events(inner.to_string()).unwrap_err(), SaxError::BadCharacter);
    let three = "<?xml version=\"1.0\" encoding=\"UTF-8\"?><!--a---b--><r/>";
    assert_eq!(parse_events(three.to_string()).unwrap_err(), SaxError::BadCharacter);
    let three_closed = "<?xml version=\"1.0\" encoding=\"UTF-8\"?><!--a--><r/>";
    assert!(parse_events(three_closed.to_string()).is_ok());
    let unterminated = "<?xml version=\"1.0\" encoding=\"UTF-8\"?><!--a";
    assert_eq!(parse_events(unterminated.to_string()).unwrap_err(), SaxError::UnexpectedEof);
}

#[test]
fn wrong_prolog_is_unexpected_character() {
    let xml = "<?xml version=\"1.1\" encoding=\"UTF-8\"?><r/>";
    assert!(matches!(
        parse_events(xml.to_string()),
        Err(SaxError::UnexpectedCharacter(_))
    ));
    assert!(matches!(
        parse_events("<r/>".to_string()),
        Err(SaxError::UnexpectedCharacter(_))
    ));
}

#[test]
fn undeclared_prefix_is_reported() {
    let xml = "<?xml version=\"1.0\" encoding=\"UTF-8\"?><x:r/>";
    assert_eq!(
        parse_events(xml.to_string()).unwrap_err(),
        SaxError::UndeclaredNamespacePrefix("x".to_string())
    );
}

#[test]
fn truncated_tag_is_unexpected_eof() {
    let xml = "<?xml version=\"1.0\" encoding=\"UTF-8\"?><root";
    assert_eq!(parse_events(xml.to_string()).unwrap_err(), SaxError::UnexpectedEof);
}

#[test]
fn default_namespace_ends_with_its_element() {
    let mut handler = TestHandler::new();
    let xml = "<?xml version=\"1.0\" encoding=\"UTF-8\"?><a><b xmlns=\"u\"><c><d/></c></b><e/></a>";
    parse_string(xml.to_string(), &mut handler).unwrap();
    assert_eq!(
        handler.elements,
        vec!["<a>", "<u:b xmlns=\"u\">", "<u:c>", "<u:d>", "<e>"]
    );
}

#[test]
fn text_runs_are_reported() {
    let xml = "<?xml version=\"1.0\" encoding=\"UTF-8\"?><a>hello</a>";
    let evs = parse_events(xml.to_string()).unwrap();
    assert!(evs
        .iter()
        .any(|e| matches!(e, SaxEvent::Characters(c) if c.iter().collect::<String>() == "hello")));
}

#[test]
fn unicode_whitespace_between_tags_is_skipped() {
    let xml = "<?xml version=\"1.0\" encoding=\"UTF-8\"?>\u{00A0}<a>\u{2003}<b/></a>";
    let mut handler = TestHandler::new();
    parse_string(xml.to_string(), &mut handler).unwrap();
    assert_eq!(handler.elements, vec!["<a>", "<b>"]);
}
