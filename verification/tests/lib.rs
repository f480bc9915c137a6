use treexml::{Document, Element, XmlVersion};

#[test]
fn lib_no_xml_tag() {
    let doc_raw = r#"
        <root>
            <child></child>
        </root>
        "#;

    let doc = Document::parse(doc_raw.as_bytes()).unwrap();

    assert_eq!(doc.version, XmlVersion::Version10);
    assert_eq!(doc.encoding, "UTF-8".to_owned());
}

#[test]
#[should_panic(expected = "Unexpected end of stream: no root element found")]
fn lib_empty() {
    let doc_raw = "";
    let _ = Document::parse(doc_raw.as_bytes()).unwrap();
}

#[test]
#[should_panic(expected = "Unexpected end of stream: no root element found")]
fn lib_no_root_tag() {
    let doc_raw = r#"
        <?xml version="1.1" encoding="UTF-8"?>
        "#;

    let _ = Document::parse(doc_raw.as_bytes()).unwrap();
}

#[test]
fn lib_self_closing() {
    let doc_raw = r#"
        <root>
            <child />
        </root>
        "#;

    let _ = Document::parse(doc_raw.as_bytes()).unwrap();
}

#[test]
fn lib_self_closing_no_space() {
    let doc_raw = r#"
        <root>
            <child/>
        </root>
        "#;

    let _ = Document::parse(doc_raw.as_bytes()).unwrap();
}

#[test]
#[should_panic(expected = "Unexpected closing tag: not_root, expected root")]
fn lib_mismatched_close() {
    let doc_raw = r#"
        <root></not_root>
        "#;

    let _ = Document::parse(doc_raw.as_bytes()).unwrap();
}

#[test]
#[should_panic(expected = "Unexpected closing tag: ROOT, expected root")]
fn lib_mismatched_case_close() {
    let doc_raw = r#"
        <root></ROOT>
        "#;

    let _ = Document::parse(doc_raw.as_bytes()).unwrap();
}

#[test]
#[should_panic(expected = "Unexpected end of stream: still inside the root element")]
fn lib_unclosed_root() {
    let doc_raw = r#"
        <root>
        "#;

    let _ = Document::parse(doc_raw.as_bytes()).unwrap();
}

#[test]
fn lib_find_child_none() {
    let doc_raw = r#"
        <root></root>
        "#;

    let doc = Document::parse(doc_raw.as_bytes()).unwrap();
    let root = doc.root.unwrap();

    assert_eq!(root.find_child(|t| t.name == "child"), None);
}

#[test]
fn lib_find_child_one() {
    let doc_raw = r#"
        <root>
            <child attr_a="1" />
        </root>
        "#;

    let doc = Document::parse(doc_raw.as_bytes()).unwrap();
    let root = doc.root.unwrap();

    let mut child = Element::new("child");
    child.attributes.insert("attr_a".to_owned(), "1".to_owned());

    assert_eq!(root.find_child(|t| t.name == "child"), Some(&child));
}

#[test]
fn lib_find_child_many() {
    let doc_raw = r#"
        <root>
            <child attr_a="1" />
            <child attr_a="2" />
        </root>
        "#;

    let doc = Document::parse(doc_raw.as_bytes()).unwrap();
    let root = doc.root.unwrap();

    let mut child = Element::new("child");
    child.attributes.insert("attr_a".to_owned(), "1".to_owned());

    assert_eq!(root.find_child(|t| t.name == "child"), Some(&child));
}

#[test]
fn lib_find_child_mut_one() {
    let doc_raw = r#"
        <root>
            <child attr_a="1" />
        </root>
        "#;

    let doc = Document::parse(doc_raw.as_bytes()).unwrap();
    let mut root = doc.root.unwrap();

    {
        let child = root.find_child_mut(|t| t.name == "child").unwrap();
        let attr_a = child.attributes.get_mut(&"attr_a".to_owned()).unwrap();
        *attr_a = "2".to_owned();
    }

    let mut child = Element::new("child");
    child.attributes.insert("attr_a".to_owned(), "2".to_owned());

    assert_eq!(root.find_child(|t| t.name == "child"), Some(&child));
}
