use dialogue_graph::export::{export_for_unreal, map_node_type_to_articy};
use dialogue_graph::types::{
    Connection, ConnectionType, DialogueGraph, JumpData, NodeData, NodeType, Position,
    ScriptFragment, ValidationSeverity,
};
use dialogue_graph::validation::{detect_cycles, validate};

fn origin() -> Position {
    Position { x: 0.0f64.to_bits(), y: 0.0f64.to_bits() }
}

fn codes(list: &[dialogue_graph::types::ValidationError]) -> Vec<String> {
    list.iter().map(|e| e.code.clone()).collect()
}

fn ring() -> (DialogueGraph, Vec<String>) {
    let mut g = DialogueGraph::new("ring");
    let ids: Vec<String> = (0..3).map(|_| g.add_node(NodeType::Hub, origin()).id.clone()).collect();
    g.add_connection(&ids[0], 0, &ids[1], 0).unwrap();
    g.add_connection(&ids[1], 0, &ids[2], 0).unwrap();
    g.add_connection(&ids[2], 0, &ids[0], 0).unwrap();
    (g, ids)
}

#[test]
fn ring_is_flagged() {
    let (g, ids) = ring();
    assert_eq!(detect_cycles(&g), vec![true, true, true]);
    let report = validate(&g);
    assert!(report.is_valid);
    let mut flagged: Vec<String> = report
        .warnings
        .iter()
        .filter(|w| w.code == "CYCLE_DETECTED")
        .map(|w| w.node_id.clone().unwrap())
        .collect();
    flagged.sort();
    let mut expected = ids.clone();
    expected.sort();
    assert_eq!(flagged, expected);
}

#[test]
fn chain_is_not_flagged() {
    let mut g = DialogueGraph::new("chain");
    let ids: Vec<String> = (0..4).map(|_| g.add_node(NodeType::Hub, origin()).id.clone()).collect();
    for k in 0..3 {
        g.add_connection(&ids[k], 0, &ids[k + 1], 0).unwrap();
    }
    assert_eq!(detect_cycles(&g), vec![false; 4]);
    let report = validate(&g);
    assert!(report.warnings.is_empty());
    assert!(report.is_valid);
}

#[test]
fn orphan_empty_dialogue() {
    let mut g = DialogueGraph::new("g");
    let a = g.add_node(NodeType::Dialogue, origin()).id.clone();
    g.add_node(NodeType::Hub, origin());
    let report = validate(&g);
    assert!(report.is_valid);
    assert!(report.errors.is_empty());
    let mine: Vec<String> = report
        .warnings
        .iter()
        .filter(|w| w.node_id.as_deref() == Some(a.as_str()))
        .map(|w| w.code.clone())
        .collect();
    assert_eq!(mine, vec!["ORPHANED_NODE".to_string(), "EMPTY_DIALOGUE".to_string()]);
    let tn = g.nodes[0].technical_name.clone();
    assert_eq!(report.warnings[0].message, format!("Node '{}' is not connected to any other nodes", tn));
    assert_eq!(report.warnings[0].severity, ValidationSeverity::Warning);
}

#[test]
fn single_node_is_not_orphan() {
    let mut g = DialogueGraph::new("g");
    g.add_node(NodeType::Hub, origin());
    let report = validate(&g);
    assert!(report.warnings.is_empty());
}

#[test]
fn per_type_checks() {
    let mut g = DialogueGraph::new("g");
    g.add_node(NodeType::Jump, origin());
    g.add_node(NodeType::Condition, origin());
    g.add_node(NodeType::Instruction, origin());
    let j = g.add_node(NodeType::Jump, origin()).id.clone();
    let idx = g.node_index(&j).unwrap();
    g.nodes[idx].data = NodeData::Jump(JumpData { target_node_id: Some("ghost".to_string()), target_pin_index: None });
    let report = validate(&g);
    assert!(!report.is_valid);
    assert_eq!(codes(&report.errors), vec!["INVALID_JUMP_TARGET".to_string()]);
    let w = codes(&report.warnings);
    assert!(w.contains(&"MISSING_JUMP_TARGET".to_string()));
    assert!(w.contains(&"EMPTY_CONDITION".to_string()));
    assert!(w.contains(&"EMPTY_INSTRUCTION".to_string()));
}

#[test]
fn blank_expression_is_empty() {
    let mut g = DialogueGraph::new("g");
    g.add_node(NodeType::Condition, origin());
    g.nodes[0].data = NodeData::Condition { script: ScriptFragment { expression: " \t ".to_string(), is_condition: true } };
    assert_eq!(codes(&validate(&g).warnings), vec!["EMPTY_CONDITION".to_string()]);
    g.nodes[0].data = NodeData::Condition { script: ScriptFragment { expression: " x ".to_string(), is_condition: true } };
    assert!(validate(&g).warnings.is_empty());
}

#[test]
fn dangling_connections_are_errors() {
    let mut g = DialogueGraph::new("g");
    let a = g.add_node(NodeType::Hub, origin()).id.clone();
    g.connections.push(Connection {
        id: "c1".to_string(),
        from_node_id: "ghost".to_string(),
        from_port_index: 0,
        to_node_id: a.clone(),
        to_port_index: 0,
        connection_type: ConnectionType::Flow,
        label: None,
    });
    g.connections.push(Connection {
        id: "c2".to_string(),
        from_node_id: a.clone(),
        from_port_index: 0,
        to_node_id: "ghost".to_string(),
        to_port_index: 0,
        connection_type: ConnectionType::Flow,
        label: None,
    });
    let report = validate(&g);
    assert!(!report.is_valid);
    assert_eq!(
        codes(&report.errors),
        vec!["INVALID_CONNECTION_SOURCE".to_string(), "INVALID_CONNECTION_TARGET".to_string()]
    );
    assert_eq!(report.errors[0].connection_id.as_deref(), Some("c1"));
    assert_eq!(report.errors[0].message, "Connection references non-existent source node 'ghost'");
}

#[test]
fn branch_exports_as_hub() {
    let mut g = DialogueGraph::new("Export Me");
    let b = g.add_node(NodeType::Branch, origin()).id.clone();
    let nodes_before = g.nodes.len();
    let modified_before = g.modified_at;
    let doc = export_for_unreal(&g);
    assert_eq!(doc.format_version, "1.0");
    assert_eq!(doc.project.name, "Export Me");
    assert_eq!(doc.project.technical_name, "Export_Me");
    assert_eq!(doc.project.guid, g.id);
    assert_eq!(doc.packages.len(), 1);
    assert_eq!(doc.packages[0].name, "Main");
    assert!(doc.packages[0].is_default_package);
    assert_eq!(doc.packages[0].objects.len(), 1);
    assert_eq!(doc.packages[0].objects[0].id, b);
    assert_eq!(doc.packages[0].objects[0].object_type, "Hub");
    assert_eq!(doc.packages[0].objects[0].output_pins.len(), 2);
    assert_eq!(g.nodes.len(), nodes_before);
    assert_eq!(g.modified_at, modified_before);
}

#[test]
fn export_projects_everything() {
    let (mut g, _) = ring();
    g.add_character("Hero", "#fff");
    g.add_variable_namespace("Game");
    g.add_variable("Game", "flag", dialogue_graph::types::VariableType::Boolean, serde_json::Value::Bool(false));
    let doc = export_for_unreal(&g);
    assert_eq!(doc.packages[0].connections.len(), 3);
    assert_eq!(doc.packages[0].connections[0].source_id, g.connections[0].from_node_id);
    assert_eq!(doc.characters[0].technical_name, "Hero");
    assert_eq!(doc.global_variables[0].variables[0].var_type, "Boolean");
    assert_eq!(doc.global_variables[0].variables[0].default_value, serde_json::Value::Bool(false));
}

#[test]
fn external_type_names() {
    assert_eq!(map_node_type_to_articy(NodeType::Branch), "Hub");
    assert_eq!(map_node_type_to_articy(NodeType::DialogueFragment), "DialogueFragment");
    assert_eq!(map_node_type_to_articy(NodeType::Jump), "Jump");
}

#[test]
fn self_connection_is_flagged() {
    let mut g = DialogueGraph::new("g");
    let a = g.add_node(NodeType::Hub, origin()).id.clone();
    let b = g.add_node(NodeType::Hub, origin()).id.clone();
    g.add_connection(&b, 0, &a, 0).unwrap();
    g.connections.push(Connection {
        id: "loop".to_string(),
        from_node_id: a.clone(),
        from_port_index: 0,
        to_node_id: a.clone(),
        to_port_index: 0,
        connection_type: ConnectionType::Flow,
        label: None,
    });
    let flags = detect_cycles(&g);
    assert!(flags[0]);
    let report = validate(&g);
    let flagged: Vec<String> = report
        .warnings
        .iter()
        .filter(|w| w.code == "CYCLE_DETECTED")
        .map(|w| w.node_id.clone().unwrap())
        .collect();
    assert!(flagged.contains(&a));
}

#[test]
fn two_rings_are_both_flagged() {
    let mut g = DialogueGraph::new("g");
    let ids: Vec<String> = (0..4).map(|_| g.add_node(NodeType::Branch, origin()).id.clone()).collect();
    g.add_connection(&ids[0], 0, &ids[1], 0).unwrap();
    g.add_connection(&ids[1], 0, &ids[0], 0).unwrap();
    g.add_connection(&ids[2], 0, &ids[3], 0).unwrap();
    g.add_connection(&ids[3], 0, &ids[2], 0).unwrap();
    assert_eq!(detect_cycles(&g), vec![true; 4]);
}
