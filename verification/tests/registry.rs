use node_pipeline::context::{get_any, set_any, TypedContext};
use node_pipeline::node::{get_node, Node, NodeFailure, NodeRegistration, NodeRegistry};
use node_pipeline::text::same_text;

type Constructor = fn() -> Box<dyn Node>;

struct Tagger {
    tag: u64,
}

impl Node for Tagger {
    fn execute(
        &self,
        context: &mut TypedContext,
        _input_id: String,
        output_id: String,
    ) -> Result<(), NodeFailure> {
        set_any(context, &output_id, self.tag);
        Ok(())
    }
}

struct Counter {
    runs: std::cell::Cell<u64>,
}

impl Node for Counter {
    fn execute(
        &self,
        context: &mut TypedContext,
        _input_id: String,
        output_id: String,
    ) -> Result<(), NodeFailure> {
        self.runs.set(self.runs.get() + 1);
        set_any(context, &output_id, self.runs.get());
        Ok(())
    }
}

fn make_one() -> Box<dyn Node> {
    Box::new(Tagger { tag: 1 })
}

fn make_two() -> Box<dyn Node> {
    Box::new(Tagger { tag: 2 })
}

fn make_counter() -> Box<dyn Node> {
    Box::new(Counter { runs: std::cell::Cell::new(0) })
}

fn run_tag(node: Box<dyn Node>) -> u64 {
    let mut context = TypedContext::new();
    let outcome = node.execute(&mut context, String::new(), "out".to_string());
    assert!(outcome.is_ok());
    *get_any::<u64>(&context, "out").unwrap()
}

#[test]
fn same_text_compares_characters() {
    assert!(same_text("", ""));
    assert!(same_text("GetInputNode", "GetInputNode"));
    assert!(!same_text("GetInputNode", "GetInputNodes"));
    assert!(!same_text("GetInputNode", "getInputNode"));
    assert!(!same_text("a", ""));
    assert!(same_text("nœud-é", "nœud-é"));
    assert!(!same_text("nœud-é", "nœud-e"));
}

#[test]
fn empty_registry_resolves_nothing() {
    let registry: NodeRegistry<Box<dyn Node>, Constructor> = NodeRegistry::new();
    assert!(get_node(&registry, "GetInputNode").is_none());
    assert!(get_node(&registry, "").is_none());
    assert_eq!(registry.position("GetInputNode"), None);
}

#[test]
fn unregistered_identifier_is_not_found() {
    let mut registry: NodeRegistry<Box<dyn Node>, Constructor> = NodeRegistry::new();
    assert!(get_node(&registry, "NoSuchNode").is_none());
    registry.register(NodeRegistration { class_name: "One", constructor: make_one });
    assert!(get_node(&registry, "NoSuchNode").is_none());
    registry.register(NodeRegistration { class_name: "Two", constructor: make_two });
    registry.register(NodeRegistration { class_name: "Counter", constructor: make_counter });
    assert!(get_node(&registry, "NoSuchNode").is_none());
    assert!(get_node(&registry, "one").is_none());
    assert!(get_node(&registry, "On").is_none());
    assert_eq!(registry.position("NoSuchNode"), None);
}

#[test]
fn registered_identifiers_resolve_to_their_own_nodes() {
    let mut registry: NodeRegistry<Box<dyn Node>, Constructor> = NodeRegistry::new();
    registry.register(NodeRegistration { class_name: "One", constructor: make_one });
    registry.register(NodeRegistration { class_name: "Two", constructor: make_two });

    assert_eq!(registry.position("One"), Some(0));
    assert_eq!(registry.position("Two"), Some(1));
    assert_eq!(run_tag(get_node(&registry, "One").unwrap()), 1);
    assert_eq!(run_tag(get_node(&registry, "Two").unwrap()), 2);
}

#[test]
fn first_registration_wins() {
    let mut registry: NodeRegistry<Box<dyn Node>, Constructor> = NodeRegistry::new();
    registry.register(NodeRegistration { class_name: "Same", constructor: make_one });
    registry.register(NodeRegistration { class_name: "Same", constructor: make_two });

    assert_eq!(registry.position("Same"), Some(0));
    assert_eq!(run_tag(get_node(&registry, "Same").unwrap()), 1);
}

#[test]
fn each_resolution_builds_a_fresh_instance() {
    let mut registry: NodeRegistry<Box<dyn Node>, Constructor> = NodeRegistry::new();
    registry.register(NodeRegistration { class_name: "Counter", constructor: make_counter });

    let first = get_node(&registry, "Counter").unwrap();
    let second = get_node(&registry, "Counter").unwrap();

    let mut context = TypedContext::new();
    assert!(first.execute(&mut context, String::new(), "a".to_string()).is_ok());
    assert!(first.execute(&mut context, String::new(), "a".to_string()).is_ok());
    assert!(second.execute(&mut context, String::new(), "b".to_string()).is_ok());

    assert_eq!(get_any::<u64>(&context, "a"), Some(&2));
    assert_eq!(get_any::<u64>(&context, "b"), Some(&1));
    assert_eq!(run_tag(get_node(&registry, "Counter").unwrap()), 1);
}

fn make_plain_tagger() -> Tagger {
    Tagger { tag: 7 }
}

#[test]
fn registry_of_one_node_type_needs_no_box() {
    let mut registry: NodeRegistry<Tagger, fn() -> Tagger> = NodeRegistry::new();
    registry.register(NodeRegistration { class_name: "Seven", constructor: make_plain_tagger });

    let node = get_node(&registry, "Seven").unwrap();
    assert_eq!(node.tag, 7);
    assert!(get_node(&registry, "Eight").is_none());
}

#[test]
fn boxed_node_does_what_the_node_in_it_does() {
    let boxed: Box<dyn Node> = Box::new(Tagger { tag: 3 });
    let mut context = TypedContext::new();
    let outcome = Node::execute(&boxed, &mut context, String::new(), "out".to_string());
    assert!(outcome.is_ok());
    assert_eq!(get_any::<u64>(&context, "out"), Some(&3));
}
