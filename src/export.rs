use vstd::prelude::*;
use vstd::string::*;
use crate::graph::{copy_payload, opt_text, same_payload};
use crate::types::{
    Character, Connection, DialogueGraph, Node, NodeData, NodeType, Port, Position, Variable,
    VariableNamespace, VariableType,
};

verus! {

/// The document handed to the game engine.
pub struct UnrealExport {
    pub format_version: String,
    pub project: ProjectInfo,
    pub global_variables: Vec<ExportVariableNamespace>,
    pub characters: Vec<ExportCharacter>,
    pub packages: Vec<ExportPackage>,
}

pub struct ProjectInfo {
    pub name: String,
    pub technical_name: String,
    pub guid: String,
}

pub struct ExportVariableNamespace {
    pub name: String,
    pub description: Option<String>,
    pub variables: Vec<ExportVariable>,
}

pub struct ExportVariable {
    pub name: String,
    pub var_type: String,
    pub default_value: serde_json::Value,
    pub description: Option<String>,
}

pub struct ExportCharacter {
    pub id: String,
    pub technical_name: String,
    pub display_name: String,
    pub color: String,
}

pub struct ExportPackage {
    pub name: String,
    pub is_default_package: bool,
    pub objects: Vec<ExportObject>,
    pub connections: Vec<ExportConnection>,
}

/// A node as the engine sees it; `properties` is the node's payload.
pub struct ExportObject {
    pub id: String,
    pub technical_name: String,
    pub object_type: String,
    pub position: Position,
    pub properties: NodeData,
    pub input_pins: Vec<ExportPin>,
    pub output_pins: Vec<ExportPin>,
}

pub struct ExportPin {
    pub id: String,
    pub index: usize,
    pub label: Option<String>,
}

pub struct ExportConnection {
    pub id: String,
    pub source_id: String,
    pub source_pin: usize,
    pub target_id: String,
    pub target_pin: usize,
}

/// The engine's name for each node type; a branch is a hub there.
pub open spec fn external_type_name(t: NodeType) -> Seq<char> {
    match t {
        NodeType::Dialogue => "Dialogue"@,
        NodeType::DialogueFragment => "DialogueFragment"@,
        NodeType::FlowFragment => "FlowFragment"@,
        NodeType::Branch => "Hub"@,
        NodeType::Condition => "Condition"@,
        NodeType::Instruction => "Instruction"@,
        NodeType::Hub => "Hub"@,
        NodeType::Jump => "Jump"@,
    }
}

/// The name of a variable type's variant.
pub open spec fn variable_type_name(t: VariableType) -> Seq<char> {
    match t {
        VariableType::String => "String"@,
        VariableType::Number => "Number"@,
        VariableType::Boolean => "Boolean"@,
    }
}

pub open spec fn pins_match(pins: Seq<ExportPin>, ports: Seq<Port>) -> bool {
    &&& pins.len() == ports.len()
    &&& forall|i: int|
        0 <= i < pins.len() ==> (#[trigger] pins[i]).id@ == ports[i].id@ && pins[i].index
            == ports[i].index && opt_text(pins[i].label) == opt_text(ports[i].label)
}

pub open spec fn object_matches(o: ExportObject, n: Node) -> bool {
    &&& o.id@ == n.id@
    &&& o.technical_name@ == n.technical_name@
    &&& o.object_type@ == external_type_name(n.node_type)
    &&& o.position == n.position
    &&& same_payload(n.data, o.properties)
    &&& pins_match(o.input_pins@, n.input_ports@)
    &&& pins_match(o.output_pins@, n.output_ports@)
}

pub open spec fn connection_matches(e: ExportConnection, c: Connection) -> bool {
    &&& e.id@ == c.id@
    &&& e.source_id@ == c.from_node_id@
    &&& e.source_pin == c.from_port_index
    &&& e.target_id@ == c.to_node_id@
    &&& e.target_pin == c.to_port_index
}

pub open spec fn character_matches(e: ExportCharacter, c: Character) -> bool {
    &&& e.id@ == c.id@
    &&& e.technical_name@ == c.technical_name@
    &&& e.display_name@ == c.display_name@
    &&& e.color@ == c.color@
}

pub open spec fn variable_matches(e: ExportVariable, v: Variable) -> bool {
    &&& e.name@ == v.name@
    &&& e.var_type@ == variable_type_name(v.variable_type)
    &&& e.default_value == v.default_value
    &&& opt_text(e.description) == opt_text(v.description)
}

pub open spec fn namespace_matches(e: ExportVariableNamespace, ns: VariableNamespace) -> bool {
    &&& e.name@ == ns.name@
    &&& opt_text(e.description) == opt_text(ns.description)
    &&& e.variables@.len() == ns.variables@.len()
    &&& forall|i: int|
        0 <= i < e.variables@.len() ==> variable_matches(
            #[trigger] e.variables@[i],
            ns.variables@[i],
        )
}

/// The export document of `g`: version `1.0`, the project, every variable
/// namespace and character, and one default package `Main` with every node
/// and connection, in the graph's order.
pub open spec fn is_export_of(e: UnrealExport, g: DialogueGraph) -> bool {
    &&& e.format_version@ == "1.0"@
    &&& e.project.name@ == g.name@
    &&& e.project.technical_name@ == g.technical_name@
    &&& e.project.guid@ == g.id@
    &&& e.global_variables@.len() == g.variables@.len()
    &&& forall|i: int|
        0 <= i < e.global_variables@.len() ==> namespace_matches(
            #[trigger] e.global_variables@[i],
            g.variables@[i],
        )
    &&& e.characters@.len() == g.characters@.len()
    &&& forall|i: int|
        0 <= i < e.characters@.len() ==> character_matches(
            #[trigger] e.characters@[i],
            g.characters@[i],
        )
    &&& e.packages@.len() == 1
    &&& e.packages@[0].name@ == "Main"@
    &&& e.packages@[0].is_default_package
    &&& e.packages@[0].objects@.len() == g.nodes@.len()
    &&& forall|i: int|
        0 <= i < g.nodes@.len() ==> object_matches(
            #[trigger] e.packages@[0].objects@[i],
            g.nodes@[i],
        )
    &&& e.packages@[0].connections@.len() == g.connections@.len()
    &&& forall|i: int|
        0 <= i < g.connections@.len() ==> connection_matches(
            #[trigger] e.packages@[0].connections@[i],
            g.connections@[i],
        )
}

/// The engine's name for a node type.
pub fn map_node_type_to_articy(node_type: NodeType) -> (r: String)
    ensures
        r@ == external_type_name(node_type),
{
    match node_type {
        NodeType::Dialogue => String::from_str("Dialogue"),
        NodeType::DialogueFragment => String::from_str("DialogueFragment"),
        NodeType::FlowFragment => String::from_str("FlowFragment"),
        NodeType::Branch => String::from_str("Hub"),
        NodeType::Condition => String::from_str("Condition"),
        NodeType::Instruction => String::from_str("Instruction"),
        NodeType::Hub => String::from_str("Hub"),
        NodeType::Jump => String::from_str("Jump"),
    }
}

fn variable_type_text(t: VariableType) -> (r: String)
    ensures
        r@ == variable_type_name(t),
{
    match t {
        VariableType::String => String::from_str("String"),
        VariableType::Number => String::from_str("Number"),
        VariableType::Boolean => String::from_str("Boolean"),
    }
}

fn export_pins(ports: &Vec<Port>) -> (r: Vec<ExportPin>)
    ensures
        pins_match(r@, ports@),
{
    let mut out: Vec<ExportPin> = Vec::new();
    let mut i: usize = 0;
    while i < ports.len()
        invariant
            i <= ports@.len(),
            out@.len() == i,
            forall|k: int|
                0 <= k < i ==> (#[trigger] out@[k]).id@ == ports@[k].id@ && out@[k].index
                    == ports@[k].index && opt_text(out@[k].label) == opt_text(ports@[k].label),
        decreases ports@.len() - i,
    {
        let p = &ports[i];
        out.push(
            ExportPin {
                id: p.id.clone(),
                index: p.index,
                label: match &p.label {
                    Some(l) => Some(l.clone()),
                    None => None,
                },
            },
        );
        i = i + 1;
    }
    out
}

fn export_object(n: &Node) -> (r: ExportObject)
    ensures
        object_matches(r, *n),
{
    ExportObject {
        id: n.id.clone(),
        technical_name: n.technical_name.clone(),
        object_type: map_node_type_to_articy(n.node_type),
        position: n.position,
        properties: copy_payload(&n.data),
        input_pins: export_pins(&n.input_ports),
        output_pins: export_pins(&n.output_ports),
    }
}

fn export_namespace(ns: &VariableNamespace) -> (r: ExportVariableNamespace)
    ensures
        namespace_matches(r, *ns),
{
    let mut vars: Vec<ExportVariable> = Vec::new();
    let mut i: usize = 0;
    while i < ns.variables.len()
        invariant
            i <= ns.variables@.len(),
            vars@.len() == i,
            forall|k: int| 0 <= k < i ==> variable_matches(#[trigger] vars@[k], ns.variables@[k]),
        decreases ns.variables@.len() - i,
    {
        let v = &ns.variables[i];
        vars.push(
            ExportVariable {
                name: v.name.clone(),
                var_type: variable_type_text(v.variable_type),
                default_value: v.default_value.clone(),
                description: match &v.description {
                    Some(d) => Some(d.clone()),
                    None => None,
                },
            },
        );
        i = i + 1;
    }
    ExportVariableNamespace {
        name: ns.name.clone(),
        description: match &ns.description {
            Some(d) => Some(d.clone()),
            None => None,
        },
        variables: vars,
    }
}

/// Projects the graph into the engine's export document. The graph is only
/// read; nothing is checked, so a graph that fails validation exports too.
pub fn export_for_unreal(graph: &DialogueGraph) -> (r: UnrealExport)
    ensures
        is_export_of(r, *graph),
{
    let mut namespaces: Vec<ExportVariableNamespace> = Vec::new();
    let mut i: usize = 0;
    while i < graph.variables.len()
        invariant
            i <= graph.variables@.len(),
            namespaces@.len() == i,
            forall|k: int|
                0 <= k < i ==> namespace_matches(#[trigger] namespaces@[k], graph.variables@[k]),
        decreases graph.variables@.len() - i,
    {
        namespaces.push(export_namespace(&graph.variables[i]));
        i = i + 1;
    }
    let mut characters: Vec<ExportCharacter> = Vec::new();
    let mut i: usize = 0;
    while i < graph.characters.len()
        invariant
            i <= graph.characters@.len(),
            characters@.len() == i,
            forall|k: int|
                0 <= k < i ==> character_matches(#[trigger] characters@[k], graph.characters@[k]),
        decreases graph.characters@.len() - i,
    {
        let c = &graph.characters[i];
        characters.push(
            ExportCharacter {
                id: c.id.clone(),
                technical_name: c.technical_name.clone(),
                display_name: c.display_name.clone(),
                color: c.color.clone(),
            },
        );
        i = i + 1;
    }
    let mut objects: Vec<ExportObject> = Vec::new();
    let mut i: usize = 0;
    while i < graph.nodes.len()
        invariant
            i <= graph.nodes@.len(),
            objects@.len() == i,
            forall|k: int| 0 <= k < i ==> object_matches(#[trigger] objects@[k], graph.nodes@[k]),
        decreases graph.nodes@.len() - i,
    {
        objects.push(export_object(&graph.nodes[i]));
        i = i + 1;
    }
    let mut connections: Vec<ExportConnection> = Vec::new();
    let mut i: usize = 0;
    while i < graph.connections.len()
        invariant
            i <= graph.connections@.len(),
            connections@.len() == i,
            forall|k: int|
                0 <= k < i ==> connection_matches(#[trigger] connections@[k], graph.connections@[k]),
        decreases graph.connections@.len() - i,
    {
        let c = &graph.connections[i];
        connections.push(
            ExportConnection {
                id: c.id.clone(),
                source_id: c.from_node_id.clone(),
                source_pin: c.from_port_index,
                target_id: c.to_node_id.clone(),
                target_pin: c.to_port_index,
            },
        );
        i = i + 1;
    }
    let mut packages: Vec<ExportPackage> = Vec::new();
    packages.push(
        ExportPackage {
            name: String::from_str("Main"),
            is_default_package: true,
            objects,
            connections,
        },
    );
    UnrealExport {
        format_version: String::from_str("1.0"),
        project: ProjectInfo {
            name: graph.name.clone(),
            technical_name: graph.technical_name.clone(),
            guid: graph.id.clone(),
        },
        global_variables: namespaces,
        characters,
        packages,
    }
}

} // verus!
