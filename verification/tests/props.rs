use treexml::events::{Attribute, TreeEvent};
use treexml::{Document, Element, ElementBuilder, TreexmlError, XmlVersion};

#[test]
fn round_trip_through_events() {
    let mut leaf = Element::new("leaf");
    leaf.text = Some("payload".to_owned());
    leaf.attributes.insert("k".to_owned(), "v".to_owned());
    leaf.attributes.insert("k2".to_owned(), "v2".to_owned());

    let mut mid = Element::new("mid");
    mid.cdata = Some("raw <data>".to_owned());
    mid.children.push(leaf);

    let mut root = Element::new("root");
    root.text = Some("t".to_owned());
    root.children.push(mid);
    root.children.push(Element::new("empty"));

    let doc = Document {
        version: XmlVersion::Version11,
        encoding: "UTF-8".to_owned(),
        root: Some(root),
    };

    let events = doc.to_events(true);
    let rebuilt = Document::from_events(&events).unwrap();

    assert_eq!(rebuilt, doc);
}

#[test]
fn round_trip_through_text() {
    let mut child = Element::new("child");
    child.text = Some("a < b & c".to_owned());
    child.attributes.insert("attr".to_owned(), "va'l\"ue".to_owned());

    let mut root = Element::new("root");
    root.children.push(child);
    root.children.push(Element::new("other"));

    let doc = Document { root: Some(root), ..Document::default() };

    let text = doc.to_string().unwrap();
    let rebuilt = Document::parse(text.as_bytes()).unwrap();

    assert_eq!(rebuilt, doc);
}

#[test]
fn children_keep_document_order() {
    let doc = Document::parse(b"<r><a/><b/></r>").unwrap();
    let root = doc.root.unwrap();

    let names: Vec<&String> = root.children.iter().map(|c| &c.name).collect();
    assert_eq!(names, vec!["a", "b"]);
}

#[test]
fn attributes_keep_insertion_order() {
    let mut root = Element::new("root");
    root.attributes.insert("b".to_owned(), "1".to_owned());
    root.attributes.insert("a".to_owned(), "2".to_owned());

    let doc = Document { root: Some(root), ..Document::default() };

    let mut out = vec![];
    doc.write_with(&mut out, false, "", false).unwrap();

    assert_eq!(String::from_utf8(out).unwrap(), "<root b=\"1\" a=\"2\" />");
}

#[test]
fn empty_stream_is_rejected() {
    assert!(matches!(
        Document::parse(b""),
        Err(TreexmlError::ParseError { .. })
    ));
}

#[test]
fn declaration_only_stream_is_rejected() {
    assert!(matches!(
        Document::parse(b"<?xml version=\"1.0\" encoding=\"UTF-8\"?>"),
        Err(TreexmlError::ParseError { .. })
    ));
}

#[test]
fn self_closing_forms_are_equivalent() {
    let spaced = Document::parse(b"<root><child /></root>").unwrap();
    let paired = Document::parse(b"<root><child></child></root>").unwrap();

    assert_eq!(spaced.root.unwrap(), paired.root.unwrap());
}

#[test]
fn builder_events_round_trip() {
    let events = vec![
        TreeEvent::StartDocument { version: XmlVersion::Version11, encoding: "UTF-8".to_owned() },
        TreeEvent::StartElement {
            prefix: None,
            name: "root".to_owned(),
            attributes: vec![Attribute {
                prefix: None,
                name: "k".to_owned(),
                value: "v".to_owned(),
            }],
        },
        TreeEvent::Characters("one".to_owned()),
        TreeEvent::CData("cd".to_owned()),
        TreeEvent::Characters("two".to_owned()),
        TreeEvent::EndElement { prefix: None, name: "root".to_owned() },
    ];

    let doc = Document::from_events(&events).unwrap();
    assert_eq!(doc.version, XmlVersion::Version11);
    let root = doc.root.clone().unwrap();
    assert_eq!(root.text, Some("onetwo".to_owned()));
    assert_eq!(root.cdata, Some("cd".to_owned()));
    assert_eq!(root.attributes.get("k"), Some(&"v".to_owned()));

    let again = doc.to_events(true);
    let rebuilt = Document::from_events(&again).unwrap();
    assert_eq!(rebuilt, doc);
}

#[test]
fn mismatched_close_event_is_fatal() {
    let events = vec![
        TreeEvent::StartElement { prefix: None, name: "root".to_owned(), attributes: vec![] },
        TreeEvent::EndElement { prefix: None, name: "not_root".to_owned() },
    ];

    match Document::from_events(&events).unwrap_err() {
        TreexmlError::ParseError { source } => {
            assert_eq!(source, "Unexpected closing tag: not_root, expected root");
        },
        _ => panic!("Error should have been ParseError"),
    }
}

#[test]
fn events_without_root_are_rejected() {
    let events: Vec<TreeEvent> = vec![];
    match Document::from_events(&events).unwrap_err() {
        TreexmlError::ParseError { source } => {
            assert_eq!(source, "Unexpected end of stream: no root element found");
        },
        _ => panic!("Error should have been ParseError"),
    }
}

#[test]
fn unclosed_events_are_rejected() {
    let events = vec![TreeEvent::StartElement {
        prefix: None,
        name: "root".to_owned(),
        attributes: vec![],
    }];
    match Document::from_events(&events).unwrap_err() {
        TreexmlError::ParseError { source } => {
            assert_eq!(source, "Unexpected end of stream: still inside the root element");
        },
        _ => panic!("Error should have been ParseError"),
    }
}

#[test]
fn prefixes_are_kept_and_attribute_keys_joined() {
    let doc_raw = r#"<x:root xmlns:x="urn:demo"><x:child x:attr="1" plain="2"/></x:root>"#;

    let doc = Document::parse(doc_raw.as_bytes()).unwrap();
    let root = doc.root.unwrap();

    assert_eq!(root.prefix, Some("x".to_owned()));
    assert_eq!(root.name, "root");

    let child = root.find_child(|t| t.name == "child").unwrap();
    assert_eq!(child.prefix, Some("x".to_owned()));
    assert_eq!(child.attributes.get("x:attr"), Some(&"1".to_owned()));
    assert_eq!(child.attributes.get("plain"), Some(&"2".to_owned()));
}

#[test]
fn duplicate_attribute_keys_last_write_wins() {
    let mut root = Element::new("root");
    root.attributes.insert("k".to_owned(), "first".to_owned());
    root.attributes.insert("other".to_owned(), "x".to_owned());
    root.attributes.insert("k".to_owned(), "second".to_owned());

    assert_eq!(root.attributes.get("k"), Some(&"second".to_owned()));

    let doc = Document { root: Some(root), ..Document::default() };
    let mut out = vec![];
    doc.write_with(&mut out, false, "", false).unwrap();
    assert_eq!(
        String::from_utf8(out).unwrap(),
        "<root k=\"second\" other=\"x\" />"
    );
}

#[test]
fn builder_conversions() {
    let e = Element::new("thing");
    let b = ElementBuilder::from(e.clone());
    assert_eq!(b.element(), e);

    let back: Element = Element::from(b);
    assert_eq!(back, e);
}

#[test]
fn error_messages() {
    let not_found = TreexmlError::ElementNotFound { t: "z".to_owned() };
    assert_eq!(not_found.message(), "Element not found: 'z'");

    let bad_value = TreexmlError::ValueFromStr { t: "hello".to_owned() };
    assert_eq!(bad_value.message(), "Value could not be parsed: 'hello'");

    let parse_err = TreexmlError::ParseError { source: "boom".to_owned() };
    assert_eq!(parse_err.message(), "Parse error: 'boom'");

    let write_err = TreexmlError::WriteError { source: "boom".to_owned() };
    assert_eq!(write_err.message(), "Write error: 'boom'");
}

#[test]
fn default_document_and_element() {
    let doc = Document::new();
    assert_eq!(doc.version, XmlVersion::Version10);
    assert_eq!(doc.encoding, "UTF-8");
    assert!(doc.root.is_none());

    let e = Element::default();
    assert_eq!(e.name, "tag");
    assert!(e.prefix.is_none());
    assert!(e.attributes.is_empty());
    assert!(e.children.is_empty());
    assert!(e.text.is_none());
    assert!(e.cdata.is_none());
}
