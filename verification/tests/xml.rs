use openxml_office::error::OfficeError;
use openxml_office::xml_deserialize::XmlDeSerializer;
use openxml_office::xml_document::XmlDocument;
use openxml_office::xml_node::XmlNode;
use openxml_office::xml_serialize::XmlSerializer;
use openxml_office::xml_tree::XmlElement;

const PROLOG: &str = "<?xml version=\"1.0\" encoding=\"UTF-8\" standalone=\"yes\"?>";

fn text_of(document: &XmlDocument) -> String {
    String::from_utf8(XmlDeSerializer::xml_tree_to_vec(document).unwrap()).unwrap()
}

fn pair(name: &str, value: &str) -> (String, String) {
    (name.to_string(), value.to_string())
}

#[test]
fn new_element_is_detached_and_empty() {
    let element = XmlElement::new("a".to_string(), Some("urn:x".to_string()));
    assert_eq!(element.get_tag(), "a");
    assert_eq!(element.get_namespace(), &Some("urn:x".to_string()));
    assert_eq!(element.get_id(), 0);
    assert_eq!(element.get_parent_id(), 0);
    assert!(element.get_attribute().is_none());
    assert_eq!(element.get_value(), &None);
    assert_eq!(element.get_first_children(), None);
    assert_eq!(element.get_last_children(), None);
    assert!(element.is_empty_tag());
}

#[test]
fn children_are_listed_by_id_in_the_order_given() {
    let mut element = XmlElement::new("a".to_string(), None);
    element.push_children(4);
    element.push_children(2);
    element.push_children(9);
    assert_eq!(element.get_children(), &vec![4, 2, 9]);
    assert_eq!(element.get_child_count(), 3);
    assert_eq!(element.get_first_children(), Some(4));
    assert_eq!(element.get_last_children(), Some(9));
    assert!(!element.is_empty_tag());
    assert_eq!(element.pop_child_mut(), Some(4));
    assert_eq!(element.get_children(), &vec![2, 9]);
}

#[test]
fn an_empty_list_of_attributes_that_was_given_is_given_back() {
    let mut element = XmlElement::new("a".to_string(), None);
    assert!(element.get_attribute().is_none());
    element.set_attribute(Vec::new());
    assert_eq!(element.get_attribute(), Some(&Vec::new()));
    element.set_attribute(vec![pair("x", "1")]);
    assert_eq!(element.get_attribute(), Some(&vec![pair("x", "1")]));
}

#[test]
fn element_setters_replace_what_was_there() {
    let mut element = XmlElement::new("a".to_string(), None);
    element.set_attribute(vec![pair("x", "1"), pair("y", "2")]);
    element.set_value("text".to_string());
    assert_eq!(element.get_attribute().unwrap().len(), 2);
    assert_eq!(element.get_attribute_value("y"), Some(&"2".to_string()));
    assert_eq!(element.get_attribute_value("z"), None);
    assert_eq!(element.get_value(), &Some("text".to_string()));
    assert!(!element.is_empty_tag());
    element.set_attribute(vec![pair("z", "3")]);
    assert_eq!(element.get_attribute_value("x"), None);
    assert_eq!(element.get_attribute_value("z"), Some(&"3".to_string()));
}

#[test]
fn empty_document_is_only_the_prolog() {
    let document = XmlDocument::new();
    assert_eq!(document.get_root_id(), None);
    assert_eq!(text_of(&document), PROLOG);
}

#[test]
fn ids_grow_and_children_keep_their_order() {
    let mut document = XmlDocument::new();
    let root = document.create_root_mut("root").unwrap();
    assert_eq!(root, 1);
    let a = document.append_child_mut("a", None).unwrap();
    let b = document.append_child_mut("b", Some(root)).unwrap();
    let c = document.insert_child_at_mut("c", 0, None).unwrap();
    let d = document.insert_children_after_tag_mut("d", "a", None).unwrap();
    assert_eq!((a, b, c, d), (2, 3, 4, 5));
    let children = document.get_element(root).unwrap().get_children().clone();
    assert_eq!(children, vec![c, a, d, b]);
    assert_eq!(document.get_element(a).unwrap().get_parent_id(), root);
    assert_eq!(text_of(&document), format!("{}<root><c/><a/><d/><b/></root>", PROLOG));
}

#[test]
fn second_root_is_a_conflict() {
    let mut document = XmlDocument::new();
    document.create_root_mut("root").unwrap();
    assert_eq!(document.create_root_mut("again"), Err(OfficeError::Conflict));
}

#[test]
fn child_of_a_missing_parent_is_not_found() {
    let mut document = XmlDocument::new();
    assert_eq!(document.append_child_mut("a", None), Err(OfficeError::NotFound));
    document.create_root_mut("root").unwrap();
    assert_eq!(document.append_child_mut("a", Some(17)), Err(OfficeError::NotFound));
    assert_eq!(document.set_value_mut(17, "x".to_string()), Err(OfficeError::NotFound));
    assert_eq!(document.set_attribute_mut(17, vec![]), Err(OfficeError::NotFound));
    assert_eq!(document.reorder_children(17, &["a"]), Err(OfficeError::NotFound));
}

#[test]
fn insert_after_tag_without_that_tag_goes_last() {
    let mut document = XmlDocument::new();
    document.create_root_mut("root").unwrap();
    document.append_child_mut("a", None).unwrap();
    document.insert_children_after_tag_mut("b", "missing", None).unwrap();
    document.insert_child_at_mut("c", 99, None).unwrap();
    assert_eq!(text_of(&document), format!("{}<root><a/><b/><c/></root>", PROLOG));
}

#[test]
fn text_is_written_with_attributes_values_and_entities() {
    let mut document = XmlDocument::new();
    let root = document.create_root_mut("root").unwrap();
    document.set_attribute_mut(root, vec![pair("a", "1 < 2"), pair("b", "\"q\" & 'r'")]).unwrap();
    let child = document.append_child_mut("t", None).unwrap();
    document.set_value_mut(child, "x > y & z".to_string()).unwrap();
    document.append_child_mut("e", None).unwrap();
    assert_eq!(
        text_of(&document),
        format!(
            "{}<root a=\"1 &lt; 2\" b=\"&quot;q&quot; &amp; 'r'\"><t>x &gt; y &amp; z</t><e/></root>",
            PROLOG
        )
    );
}

#[test]
fn pop_takes_the_subtree_and_unlists_it() {
    let mut document = XmlDocument::new();
    let root = document.create_root_mut("root").unwrap();
    let a = document.append_child_mut("a", None).unwrap();
    let inner = document.append_child_mut("inner", Some(a)).unwrap();
    let b = document.append_child_mut("b", None).unwrap();
    let popped = document.pop_element_mut(a).unwrap();
    assert_eq!(popped.get_tag(), "a");
    assert_eq!(popped.get_children(), &vec![inner]);
    assert!(document.get_element(a).is_none());
    assert!(document.get_element(inner).is_none());
    assert_eq!(document.get_element(root).unwrap().get_children(), &vec![b]);
    assert!(document.pop_element_mut(a).is_none());
    assert_eq!(text_of(&document), format!("{}<root><b/></root>", PROLOG));
}

#[test]
fn pop_by_tag_takes_every_element_of_that_tag() {
    let mut document = XmlDocument::new();
    document.create_root_mut("root").unwrap();
    let first = document.append_child_mut("x", None).unwrap();
    let keep = document.append_child_mut("y", None).unwrap();
    let nested = document.append_child_mut("x", Some(keep)).unwrap();
    document.append_child_mut("z", Some(first)).unwrap();
    assert_eq!(document.get_element_ids_by_tag("x"), vec![first, nested]);
    let popped = document.pop_elements_by_tag_mut("x").unwrap();
    assert_eq!(popped.len(), 2);
    assert_eq!(popped[0].get_id(), first);
    assert_eq!(popped[1].get_id(), nested);
    assert!(document.pop_elements_by_tag_mut("x").is_none());
    assert_eq!(text_of(&document), format!("{}<root><y/></root>", PROLOG));
}

#[test]
fn popped_root_leaves_a_document_without_root() {
    let mut document = XmlDocument::new();
    let root = document.create_root_mut("root").unwrap();
    document.append_child_mut("a", None).unwrap();
    assert!(document.pop_element_mut(root).is_some());
    assert_eq!(document.get_root_id(), None);
    assert_eq!(text_of(&document), PROLOG);
    assert_eq!(document.create_root_mut("next"), Ok(3));
}

#[test]
fn ids_by_attribute_are_in_increasing_order() {
    let mut document = XmlDocument::new();
    document.create_root_mut("root").unwrap();
    let a = document.append_child_mut("a", None).unwrap();
    let b = document.append_child_mut("b", None).unwrap();
    let c = document.append_child_mut("c", None).unwrap();
    document.set_attribute_mut(a, vec![pair("k", "v")]).unwrap();
    document.set_attribute_mut(b, vec![pair("k", "w")]).unwrap();
    document.set_attribute_mut(c, vec![pair("j", "x"), pair("k", "v")]).unwrap();
    assert_eq!(document.get_element_ids_by_attribute("k", "v"), Some(vec![a, c]));
    assert_eq!(document.get_element_ids_by_attribute("k", "none"), None);
}

#[test]
fn reorder_is_by_rank_and_stable() {
    let mut document = XmlDocument::new();
    let root = document.create_root_mut("root").unwrap();
    for tag in ["c", "u1", "a", "b", "a", "u2", "c"] {
        document.append_child_mut(tag, None).unwrap();
    }
    document.reorder_children(root, &["a", "b", "c"]).unwrap();
    let ids = document.get_element(root).unwrap().get_children().clone();
    assert_eq!(ids, vec![4, 6, 5, 2, 8, 3, 7]);
    assert_eq!(
        text_of(&document),
        format!("{}<root><a/><a/><b/><c/><c/><u1/><u2/></root>", PROLOG)
    );
}

#[test]
fn subtree_goes_in_and_comes_out_unchanged() {
    let mut leaf = XmlNode::new("leaf");
    leaf.push_attribute("k", "v".to_string());
    let mut text = XmlNode::new("text");
    text.value = Some("hello".to_string());
    let mut branch = XmlNode::new("branch");
    branch.push_child(leaf);
    branch.push_child(text);
    let mut document = XmlDocument::new();
    let root = document.create_root_mut("root").unwrap();
    let id = document.append_tree_mut(&branch, None).unwrap();
    assert_eq!(id, 2);
    let copy = document.get_tree(id).unwrap();
    assert_eq!(copy.tag, "branch");
    assert_eq!(copy.children.len(), 2);
    assert_eq!(copy.children[0].attributes, vec![pair("k", "v")]);
    assert_eq!(copy.children[1].value, Some("hello".to_string()));
    assert!(document.get_tree(99).is_none());
    assert_eq!(document.get_child_count(root), 1);
    assert_eq!(
        text_of(&document),
        format!("{}<root><branch><leaf k=\"v\"/><text>hello</text></branch></root>", PROLOG)
    );
}

#[test]
fn reading_takes_declaration_comments_and_entities() {
    let source = "<?xml version=\"1.0\"?>\n<!-- head -->\n<root a = 'x &amp; y' b=\"&#65;&#x42;\">\n  <child/>\n  <!-- inside -->\n  <other k=\"&lt;&gt;&quot;&apos;\">t &amp; u</other>\n</root>\n<!-- tail -->\n";
    let document = XmlSerializer::vec_to_xml_doc_tree(source.as_bytes().to_vec()).unwrap();
    assert_eq!(document.get_root_id(), Some(1));
    let root = document.get_tree(1).unwrap();
    assert_eq!(root.tag, "root");
    assert_eq!(root.attributes, vec![pair("a", "x & y"), pair("b", "AB")]);
    assert_eq!(root.value, None);
    assert_eq!(root.children.len(), 2);
    assert_eq!(root.children[0].tag, "child");
    assert_eq!(root.children[0].value, None);
    assert_eq!(root.children[1].attributes, vec![pair("k", "<>\"'")]);
    assert_eq!(root.children[1].value, Some("t & u".to_string()));
}

#[test]
fn text_beside_children_is_dropped() {
    let source = "<a>before<b/>between<c>kept</c>after</a>";
    let document = XmlSerializer::vec_to_xml_doc_tree(source.as_bytes().to_vec()).unwrap();
    assert_eq!(text_of(&document), format!("{}<a><b/><c>kept</c></a>", PROLOG));
}

#[test]
fn empty_content_is_an_empty_value() {
    let document = XmlSerializer::vec_to_xml_doc_tree(b"<a></a>".to_vec()).unwrap();
    assert_eq!(document.get_tree(1).unwrap().value, Some(String::new()));
    assert_eq!(text_of(&document), format!("{}<a></a>", PROLOG));
}

#[test]
fn text_that_is_no_document_is_refused() {
    for source in [
        "",
        "plain",
        "<a>",
        "<a></b>",
        "<a><b></a></b>",
        "<a x></a>",
        "<a x=1/>",
        "<a x=\"1/>",
        "<a>&unknown;</a>",
        "<a>&#xD800;</a>",
        "<a/><b/>",
        "<a/>trailing",
        "<!-- open <a/>",
        "< a/>",
        "<a><!x/></a>",
        "<a><![CDATA[text]]></a>",
        "<?x?><?y/>",
    ] {
        assert_eq!(
            XmlSerializer::vec_to_xml_doc_tree(source.as_bytes().to_vec()).err(),
            Some(OfficeError::Codec),
            "{}",
            source
        );
    }
    assert_eq!(
        XmlSerializer::vec_to_xml_doc_tree(vec![b'<', b'a', 0xff, b'/', b'>']).err(),
        Some(OfficeError::Codec)
    );
}

#[test]
fn written_text_reads_back_to_the_same_text() {
    let mut document = XmlDocument::new();
    let root = document.create_root_mut("w:root").unwrap();
    document
        .set_attribute_mut(root, vec![pair("xmlns:w", "urn:w"), pair("q", "a\"b<c>d&e'f")])
        .unwrap();
    let a = document.append_child_mut("w:a", None).unwrap();
    document.set_value_mut(a, "1 < 2 && 3 > 2 \u{e9}\u{4e2d}".to_string()).unwrap();
    let b = document.append_child_mut("b", None).unwrap();
    document.append_child_mut("c", Some(b)).unwrap();
    let empty = document.append_child_mut("empty", Some(b)).unwrap();
    document.set_value_mut(empty, String::new()).unwrap();
    let first = XmlDeSerializer::xml_tree_to_vec(&document).unwrap();
    let read = XmlSerializer::vec_to_xml_doc_tree(first.clone()).unwrap();
    let second = XmlDeSerializer::xml_tree_to_vec(&read).unwrap();
    assert_eq!(first, second);
}

#[test]
fn what_is_read_is_written_and_read_again_as_it_is() {
    for source in [
        "<a/>",
        "<a></a>",
        "<a> </a>",
        "<a x='1' y=\"&lt;\"><b>t</b><!-- c --><c/>text</a>",
        "<?xml version=\"1.0\"?>\n<r:a xmlns:r=\"urn:r\"><r:b r:id=\"1\"/></r:a>\n",
    ] {
        let first = XmlSerializer::vec_to_xml_doc_tree(source.as_bytes().to_vec()).unwrap();
        let written = XmlDeSerializer::xml_tree_to_vec(&first).unwrap();
        let second = XmlSerializer::vec_to_xml_doc_tree(written.clone()).unwrap();
        assert_eq!(
            format!("{:?}", first.get_tree(1)),
            format!("{:?}", second.get_tree(1)),
            "{}",
            source
        );
        assert_eq!(XmlDeSerializer::xml_tree_to_vec(&second).unwrap(), written, "{}", source);
    }
}

#[test]
fn qualified_names_get_the_namespace_of_the_nearest_declaration() {
    let source = "<a:root xmlns:a=\"urn:a\" xmlns:d=\"urn:outer\"><a:b/><c xmlns:d=\"urn:d\"><d:e/><x:y/></c><d:f/><plain/></a:root>";
    let document = XmlSerializer::vec_to_xml_doc_tree(source.as_bytes().to_vec()).unwrap();
    let namespace_of = |tag: &str| {
        let id = document.get_element_ids_by_tag(tag)[0];
        document.get_element(id).unwrap().get_namespace().clone()
    };
    assert_eq!(namespace_of("a:root"), Some("urn:a".to_string()));
    assert_eq!(namespace_of("a:b"), Some("urn:a".to_string()));
    assert_eq!(namespace_of("c"), None);
    assert_eq!(namespace_of("d:e"), Some("urn:d".to_string()));
    assert_eq!(namespace_of("x:y"), None);
    assert_eq!(namespace_of("d:f"), Some("urn:outer".to_string()));
    assert_eq!(namespace_of("plain"), None);
    assert_eq!(text_of(&document), format!("{}{}", PROLOG, source));
}
