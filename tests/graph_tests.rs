use dialogue_graph::graph::{CharacterUpdate, NodeUpdate};
use dialogue_graph::types::{
    Connection, ConnectionType, DialogueGraph, NodeData, NodeType, PortType, Position,
    ScriptFragment, VariableType,
};

fn pos(x: f64, y: f64) -> Position {
    Position { x: x.to_bits(), y: y.to_bits() }
}

fn two_nodes() -> (DialogueGraph, String, String) {
    let mut g = DialogueGraph::new("Test Graph");
    let a = g.add_node(NodeType::Dialogue, pos(0.0, 0.0)).id.clone();
    let b = g.add_node(NodeType::Dialogue, pos(100.0, 0.0)).id.clone();
    (g, a, b)
}

#[test]
fn new_graph_is_empty() {
    let g = DialogueGraph::new("My Story");
    assert_eq!(g.name, "My Story");
    assert_eq!(g.technical_name, "My_Story");
    assert!(g.nodes.is_empty() && g.connections.is_empty());
    assert!(g.variables.is_empty() && g.characters.is_empty());
    assert_eq!(g.created_at, g.modified_at);
    assert!(!g.id.is_empty());
}

#[test]
fn node_construction_policy() {
    let mut g = DialogueGraph::new("g");
    let n = g.add_node(NodeType::Condition, pos(1.5, 2.5)).clone();
    assert_eq!(n.input_ports.len(), 1);
    assert_eq!(n.output_ports.len(), 2);
    assert_eq!(n.output_ports[0].label.as_deref(), Some("True"));
    assert_eq!(n.output_ports[1].label.as_deref(), Some("False"));
    assert_eq!(n.output_ports[1].index, 1);
    assert_eq!(n.output_ports[1].port_type, PortType::Output);
    assert_eq!(n.output_ports[0].node_id, n.id);
    assert_eq!(f64::from_bits(n.size.width), 200.0);
    assert_eq!(f64::from_bits(n.size.height), 80.0);
    assert_eq!(f64::from_bits(n.position.x), 1.5);
    assert_eq!(n.color.as_deref(), Some("#10b981"));
    assert!(n.technical_name.starts_with("condition_"));
    assert!(matches!(n.data, NodeData::Condition { ref script } if script.is_condition && script.expression.is_empty()));

    let j = g.add_node(NodeType::Jump, pos(0.0, 0.0)).clone();
    assert_eq!(j.output_ports.len(), 0);
    let b = g.add_node(NodeType::Branch, pos(0.0, 0.0)).clone();
    assert_eq!(b.output_ports.len(), 2);
    assert!(b.output_ports[0].label.is_none());
    let f = g.add_node(NodeType::FlowFragment, pos(0.0, 0.0)).clone();
    assert!(f.technical_name.starts_with("flow_fragment_"));
    assert!(matches!(f.data, NodeData::FlowFragment(ref d) if d.display_name == "Flow Fragment"));
    assert_eq!(g.nodes.len(), 4);
}

#[test]
fn display_names_and_colors() {
    assert_eq!(NodeType::DialogueFragment.display_name(), "Dialogue Fragment");
    assert_eq!(NodeType::FlowFragment.display_name(), "Flow Fragment");
    assert_eq!(NodeType::Hub.default_color(), "#06b6d4");
    assert_eq!(NodeType::Jump.default_color(), "#8b5cf6");
}

#[test]
fn connect_nodes() {
    let (mut g, a, b) = two_nodes();
    assert!(g.can_connect(&a, 0, &b, 0));
    let c = g.add_connection(&a, 0, &b, 0).unwrap().clone();
    assert_eq!(c.from_node_id, a);
    assert_eq!(c.to_node_id, b);
    assert_eq!(c.connection_type, ConnectionType::Flow);
    assert_eq!(g.connections.len(), 1);
}

#[test]
fn self_connection_fails() {
    let (mut g, a, _) = two_nodes();
    assert!(!g.can_connect(&a, 0, &a, 0));
    assert!(g.add_connection(&a, 0, &a, 0).is_none());
    assert!(g.connections.is_empty());
}

#[test]
fn occupied_input_fails() {
    let (mut g, a, b) = two_nodes();
    let c = g.add_node(NodeType::Hub, pos(0.0, 0.0)).id.clone();
    assert!(g.add_connection(&a, 0, &b, 0).is_some());
    assert!(g.add_connection(&a, 0, &b, 0).is_none());
    assert!(g.add_connection(&c, 0, &b, 0).is_none());
    assert_eq!(g.connections.len(), 1);
}

#[test]
fn bad_ports_and_missing_nodes_fail() {
    let (mut g, a, b) = two_nodes();
    assert!(g.add_connection(&a, 1, &b, 0).is_none());
    assert!(g.add_connection(&a, 0, &b, 1).is_none());
    assert!(g.add_connection("nope", 0, &b, 0).is_none());
    assert!(g.add_connection(&a, 0, "nope", 0).is_none());
}

#[test]
fn remove_node_cascades() {
    let mut g = DialogueGraph::new("g");
    let a = g.add_node(NodeType::Hub, pos(0.0, 0.0)).id.clone();
    let b = g.add_node(NodeType::Hub, pos(0.0, 0.0)).id.clone();
    let c = g.add_node(NodeType::Hub, pos(0.0, 0.0)).id.clone();
    let d = g.add_node(NodeType::Hub, pos(0.0, 0.0)).id.clone();
    let ab = g.add_connection(&a, 0, &b, 0).unwrap().id.clone();
    g.add_connection(&b, 0, &c, 0).unwrap();
    let cd = g.add_connection(&c, 0, &d, 0).unwrap().id.clone();
    assert!(g.remove_node(&b));
    assert_eq!(g.nodes.len(), 3);
    let left: Vec<String> = g.connections.iter().map(|c| c.id.clone()).collect();
    assert_eq!(left, vec![cd]);
    assert!(!left.contains(&ab));
    assert!(!g.remove_node(&b));
}

#[test]
fn remove_connection_by_id() {
    let (mut g, a, b) = two_nodes();
    let id = g.add_connection(&a, 0, &b, 0).unwrap().id.clone();
    assert!(!g.remove_connection("other"));
    assert!(g.remove_connection(&id));
    assert!(g.connections.is_empty());
    assert!(g.can_connect(&a, 0, &b, 0));
}

#[test]
fn lookups() {
    let (g, a, _) = two_nodes();
    assert_eq!(g.get_node(&a).unwrap().id, a);
    assert!(g.get_node("missing").is_none());
    assert_eq!(g.node_index(&a), Some(0));
}

#[test]
fn characters() {
    let mut g = DialogueGraph::new("g");
    let c = g.add_character("Old Sailor", "#ff0000").clone();
    assert_eq!(c.technical_name, "Old_Sailor");
    assert_eq!(c.display_name, "Old Sailor");
    assert_eq!(c.color, "#ff0000");
    assert!(g.get_character(&c.id).is_some());
    let upd = CharacterUpdate { display_name: Some("Young Sailor".to_string()), color: None };
    let u = g.update_character(&c.id, upd).unwrap().clone();
    assert_eq!(u.technical_name, "Young_Sailor");
    assert_eq!(u.color, "#ff0000");
    assert_eq!(u.articy_id, c.articy_id);
    let none = CharacterUpdate { display_name: None, color: None };
    assert!(g.update_character("missing", none).is_none());
    assert!(g.remove_character(&c.id));
    assert!(!g.remove_character(&c.id));
    assert!(g.characters.is_empty());
}

#[test]
fn variables() {
    let mut g = DialogueGraph::new("g");
    g.add_variable_namespace("Game");
    let v = g
        .add_variable("Game", "gold", VariableType::Number, serde_json::Value::from(10))
        .unwrap()
        .clone();
    assert_eq!(v.namespace, "Game");
    assert_eq!(v.name, "gold");
    assert_eq!(v.default_value, serde_json::Value::from(10));
    assert!(g.add_variable("Nope", "x", VariableType::Boolean, serde_json::Value::Bool(true)).is_none());
    assert_eq!(g.get_variable_namespace("Game").unwrap().variables.len(), 1);
}

#[test]
fn update_node_fields() {
    let (mut g, a, _) = two_nodes();
    let upd = NodeUpdate {
        position: Some(pos(5.0, 6.0)),
        technical_name: Some("hello".to_string()),
        color: Some("#000000".to_string()),
        data: Some(NodeData::Condition {
            script: ScriptFragment { expression: "x".to_string(), is_condition: true },
        }),
    };
    let n = g.update_node(&a, upd).unwrap().clone();
    assert_eq!(n.technical_name, "hello");
    assert_eq!(n.color.as_deref(), Some("#000000"));
    assert_eq!(f64::from_bits(n.position.y), 6.0);
    assert!(matches!(n.data, NodeData::Dialogue(_)));
    let empty = NodeUpdate { position: None, technical_name: None, color: None, data: None };
    assert!(g.update_node("missing", empty).is_none());
}

#[test]
fn clone_node_copies() {
    let (mut g, a, _) = two_nodes();
    let copy = g.clone_node(&a, pos(50.0, 50.0)).unwrap().clone();
    let orig = g.get_node(&a).unwrap().clone();
    assert_ne!(copy.id, orig.id);
    assert_eq!(copy.technical_name, format!("{}_copy", orig.technical_name));
    assert_eq!(copy.input_ports.len(), orig.input_ports.len());
    assert_eq!(copy.input_ports[0].node_id, copy.id);
    assert_ne!(copy.input_ports[0].id, orig.input_ports[0].id);
    assert_eq!(g.nodes.len(), 3);
    assert!(g.clone_node("missing", pos(0.0, 0.0)).is_none());
}

#[test]
fn ports_can_be_added() {
    let (mut g, a, _) = two_nodes();
    let mut ids = g.id_counter;
    let node = &mut g.nodes[0];
    assert_eq!(node.id, a);
    let p = node.add_output_port(Some("Extra".to_string()), &mut ids).clone();
    assert_eq!(p.index, 1);
    assert_eq!(p.node_id, a);
    let q = node.add_input_port(None, &mut ids).clone();
    assert_eq!(q.index, 1);
    assert_eq!(q.port_type, PortType::Input);
}

#[test]
fn raw_connection_fields() {
    let c = Connection {
        id: "c".to_string(),
        from_node_id: "a".to_string(),
        from_port_index: 0,
        to_node_id: "b".to_string(),
        to_port_index: 0,
        connection_type: ConnectionType::Data,
        label: None,
    };
    assert_eq!(c.connection_type, ConnectionType::Data);
}

#[test]
fn update_node_payload_of_matching_type() {
    let mut g = DialogueGraph::new("g");
    let c = g.add_node(NodeType::Condition, pos(0.0, 0.0)).id.clone();
    let upd = NodeUpdate {
        position: None,
        technical_name: None,
        color: None,
        data: Some(NodeData::Condition {
            script: ScriptFragment { expression: "gold > 3".to_string(), is_condition: true },
        }),
    };
    let n = g.update_node(&c, upd).unwrap().clone();
    assert!(matches!(n.data, NodeData::Condition { ref script } if script.expression == "gold > 3"));
    let copy = g.clone_node(&c, pos(1.0, 1.0)).unwrap().clone();
    assert!(matches!(copy.data, NodeData::Condition { ref script } if script.expression == "gold > 3"));
    assert_eq!(copy.output_ports[0].label.as_deref(), Some("True"));
}

#[test]
fn touch_moves_only_the_stamp() {
    let mut g = DialogueGraph::new("g");
    let created = g.created_at;
    g.touch();
    assert_eq!(g.created_at, created);
    assert!(g.modified_at >= created);
    assert_eq!(g.name, "g");
}

#[test]
fn stamp_sets_the_time() {
    let mut g = DialogueGraph::new("g");
    g.stamp(42);
    assert_eq!(g.modified_at, 42);
    g.touch();
    assert!(g.modified_at > 42);
}

#[test]
fn port_ids_are_distinct() {
    let mut g = DialogueGraph::new("g");
    let n = g.add_node(NodeType::Condition, pos(0.0, 0.0)).clone();
    let mut all: Vec<String> = vec![n.id.clone()];
    all.extend(n.input_ports.iter().map(|p| p.id.clone()));
    all.extend(n.output_ports.iter().map(|p| p.id.clone()));
    let mut sorted = all.clone();
    sorted.sort();
    sorted.dedup();
    assert_eq!(sorted.len(), all.len());
}
