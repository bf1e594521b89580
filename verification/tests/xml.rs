use std::collections::HashMap;

use pact_models::path_exp::DocPath;
use pact_models::xml_model::{group_children, resolve_namespaces, text_nodes, XmlElement, XmlNode};
use pact_models::xml_query::{resolve_matching_node, resolve_path, XmlResult};

fn element(name: &str, attributes: &[(&str, &str)], children: Vec<XmlNode>) -> XmlElement {
  XmlElement {
    name: name.to_string(),
    namespace: None,
    attributes: attributes.iter().map(|(k, v)| (k.to_string(), v.to_string())).collect(),
    children
  }
}

fn text(t: &str) -> XmlNode {
  XmlNode::Text(t.to_string())
}

/// <config>
///   <name>My Settings</name>
///   <sound>
///     <property name="volume" value="11" />
///     <property name="mixer" value="standard" />
///   </sound>
/// </config>
fn config() -> XmlElement {
  element("config", &[], vec![
    XmlNode::Element(element("name", &[], vec![text("My Settings")])),
    XmlNode::Element(element("sound", &[], vec![
      XmlNode::Element(element("property", &[("name", "volume"), ("value", "11")], vec![])),
      XmlNode::Element(element("property", &[("name", "mixer"), ("value", "standard")], vec![]))
    ]))
  ])
}

/// <a:alligator xmlns:a="urn:alligators" xmlns:n="urn:names" n:name="Mary">
///   <a:favouriteNumbers>
///     <favouriteNumber xmlns="urn:favourite:numbers">1</favouriteNumber>
///   </a:favouriteNumbers>
/// </a:alligator>
fn alligator() -> XmlElement {
  let mut numbers = element("favouriteNumbers", &[], vec![
    XmlNode::Element(XmlElement {
      name: "favouriteNumber".to_string(),
      namespace: Some("urn:favourite:numbers".to_string()),
      attributes: vec![("xmlns".to_string(), "urn:favourite:numbers".to_string())],
      children: vec![text("1")]
    })
  ]);
  numbers.namespace = Some("urn:alligators".to_string());
  let mut root = element("alligator",
    &[("xmlns:a", "urn:alligators"), ("xmlns:n", "urn:names"), ("n:name", "Mary")],
    vec![XmlNode::Element(numbers)]);
  root.namespace = Some("urn:alligators".to_string());
  root
}

fn resolve(root: &XmlElement, path: &str) -> Vec<String> {
  resolve_path(root, &DocPath::new_unwrap(path))
}

#[test]
fn resolve_path_test() {
  let root = config();

  assert!(resolve_path(&root, &DocPath::root()).is_empty());
  assert_eq!(resolve(&root, "$.config"), vec!["/config[0]"]);
  assert_eq!(resolve(&root, "$.config.sound"), vec!["/config[0]/sound[0]"]);
  assert_eq!(resolve(&root, "$.config.sound.property"), vec![
    "/config[0]/sound[0]/property[0]",
    "/config[0]/sound[0]/property[1]"
  ]);
  assert_eq!(resolve(&root, "$.config.sound[0].property[0]"), vec![
    "/config[0]/sound[0]/property[0]"
  ]);
  assert_eq!(resolve(&root, "$.config.*"), vec![
    "/config[0]/name[0]",
    "/config[0]/sound[0]"
  ]);
  assert_eq!(resolve(&root, "$.config[*]"), vec![
    "/config[0]/name[0]",
    "/config[0]/sound[0]"
  ]);
  assert_eq!(resolve(&root, "$.config.sound.property.@name"), vec![
    "/config[0]/sound[0]/property[0]/@name",
    "/config[0]/sound[0]/property[1]/@name"
  ]);
  assert!(resolve(&root, "$.config.sound.property.@other").is_empty());
  assert_eq!(resolve(&root, "$.config.sound.*.@name"), vec![
    "/config[0]/sound[0]/property[0]/@name",
    "/config[0]/sound[0]/property[1]/@name"
  ]);
  assert_eq!(resolve(&root, "$.config.name.#text"), vec!["/config[0]/name[0]/#text"]);
  assert_eq!(resolve(&root, "$.config.*.#text"), vec!["/config[0]/name[0]/#text"]);
  assert!(resolve(&root, "$.config.sound.property.#text").is_empty());
  assert_eq!(resolve(&root, "$.config.sound.property[1].@name"), vec![
    "/config[0]/sound[0]/property[1]/@name"
  ]);
  assert!(resolve(&root, "$.config.sound.property[2].@name").is_empty());
}

#[test]
fn resolve_path_with_xml_namespaces_test() {
  let root = alligator();

  assert!(resolve_path(&root, &DocPath::root()).is_empty());
  assert_eq!(resolve(&root, "$.alligator"), vec!["/alligator[0]"]);
  assert_eq!(resolve(&root, "$['urn:alligators:alligator']"), vec!["/urn:alligators:alligator[0]"]);
  assert_eq!(resolve(&root, "$['urn:alligators:alligator']['@n:name']"),
    vec!["/urn:alligators:alligator[0]/@n:name"]);
  assert_eq!(resolve(&root, "$['urn:alligators:alligator']['@urn:names:name']"),
    vec!["/urn:alligators:alligator[0]/@urn:names:name"]);
}

#[test]
fn resolve_matching_node_test() {
  let root = config();

  assert_eq!(resolve_matching_node(&root, "/config[0]"), Some(XmlResult::ElementNode(root.duplicate())));
  assert_eq!(resolve_matching_node(&root, "/config[1]"), None);

  let sound = match &root.children[1] {
    XmlNode::Element(e) => e.duplicate(),
    _ => panic!("expected the sound element")
  };
  assert_eq!(resolve_matching_node(&root, "/config[0]/sound[0]"), Some(XmlResult::ElementNode(sound.duplicate())));
  assert_eq!(resolve_matching_node(&root, "/config[0]/sound[1]"), None);

  let properties: Vec<XmlElement> = sound.children.iter().filter_map(|c| match c {
    XmlNode::Element(e) => Some(e.duplicate()),
    _ => None
  }).collect();
  assert_eq!(resolve_matching_node(&root, "/config[0]/sound[0]/property[0]"),
    Some(XmlResult::ElementNode(properties[0].duplicate())));
  assert_eq!(resolve_matching_node(&root, "/config[0]/sound[0]/property[1]"),
    Some(XmlResult::ElementNode(properties[1].duplicate())));

  assert_eq!(resolve_matching_node(&root, "/config[0]/sound[0]/property[0]/@name"),
    Some(XmlResult::Attribute("name".to_string(), "volume".to_string())));
  assert_eq!(resolve_matching_node(&root, "/config[0]/sound[0]/property[1]/@name"),
    Some(XmlResult::Attribute("name".to_string(), "mixer".to_string())));
  assert_eq!(resolve_matching_node(&root, "/config[0]/sound[0]/property[1]/@other"), None);

  assert_eq!(resolve_matching_node(&root, "/config[0]/name[0]/#text"),
    Some(XmlResult::TextNode("My Settings".to_string())));
  assert_eq!(resolve_matching_node(&root, "/config[0]/sound[0]/property[0]/#text"), None);
}

fn as_map(pairs: Vec<(String, String)>) -> HashMap<String, String> {
  pairs.into_iter().collect()
}

fn pairs(entries: &[(&str, &str)]) -> Vec<(String, String)> {
  entries.iter().map(|(k, v)| (k.to_string(), v.to_string())).collect()
}

#[test]
fn resolve_namespaces_test() {
  assert_eq!(as_map(resolve_namespaces(&vec![])), HashMap::new());

  let attributes = pairs(&[("a", "b"), ("c", "d")]);
  assert_eq!(as_map(resolve_namespaces(&attributes)), as_map(attributes.clone()));

  let attributes = pairs(&[("n:name", "Mary"), ("xmlns:a", "urn:alligators"), ("xmlns:n", "urn:names")]);
  assert_eq!(as_map(resolve_namespaces(&attributes)), as_map(pairs(&[
    ("n:name", "Mary"),
    ("urn:names:name", "Mary"),
    ("xmlns:a", "urn:alligators"),
    ("xmlns:n", "urn:names")
  ])));
}

#[test]
fn group_children_orders_groups_by_name() {
  let root = element("root", &[], vec![
    XmlNode::Element(element("b", &[], vec![])),
    text("x"),
    XmlNode::Element(element("a", &[("i", "1")], vec![])),
    XmlNode::Element(element("b", &[("i", "2")], vec![])),
    XmlNode::Other,
    XmlNode::Element(element("a", &[("i", "3")], vec![]))
  ]);
  let groups = group_children(&root);
  assert_eq!(groups.len(), 2);
  assert_eq!(groups[0].0, "a");
  assert_eq!(groups[0].1.iter().map(|e| e.attributes[0].1.clone()).collect::<Vec<_>>(), vec!["1", "3"]);
  assert_eq!(groups[1].0, "b");
  assert_eq!(groups[1].1.len(), 2);
  assert_eq!(groups[1].1[1].attributes[0].1, "2");
}

#[test]
fn text_nodes_skips_empty_text_and_elements() {
  let root = element("root", &[], vec![
    text("one"),
    text(""),
    XmlNode::Element(element("child", &[], vec![text("inner")])),
    text("two")
  ]);
  assert_eq!(text_nodes(&root), vec!["one".to_string(), "two".to_string()]);
}

#[test]
fn resolve_path_index_mismatch_removes_the_element() {
  let root = config();
  assert!(resolve(&root, "$.config[1]").is_empty());
  assert_eq!(resolve(&root, "$.config[0].name"), vec!["/config[0]/name[0]"]);
}
