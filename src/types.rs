use vstd::prelude::*;

verus! {

/// The kinds of vertex a dialogue graph can hold.
#[derive(Debug, Clone, Copy, PartialEq, Eq, Structural)]
pub enum NodeType {
    Dialogue,
    DialogueFragment,
    Branch,
    Condition,
    Instruction,
    Hub,
    Jump,
    FlowFragment,
}

/// Human-readable name of a node type.
pub open spec fn display_name_of(t: NodeType) -> Seq<char> {
    match t {
        NodeType::Dialogue => "Dialogue"@,
        NodeType::DialogueFragment => "Dialogue Fragment"@,
        NodeType::Branch => "Branch"@,
        NodeType::Condition => "Condition"@,
        NodeType::Instruction => "Instruction"@,
        NodeType::Hub => "Hub"@,
        NodeType::Jump => "Jump"@,
        NodeType::FlowFragment => "Flow Fragment"@,
    }
}

/// Colour a freshly created node of a type is drawn with.
pub open spec fn default_color_of(t: NodeType) -> Seq<char> {
    match t {
        NodeType::Dialogue => "#3b82f6"@,
        NodeType::DialogueFragment => "#3b82f6"@,
        NodeType::Branch => "#f59e0b"@,
        NodeType::Condition => "#10b981"@,
        NodeType::Instruction => "#8b5cf6"@,
        NodeType::Hub => "#06b6d4"@,
        NodeType::Jump => "#8b5cf6"@,
        NodeType::FlowFragment => "#6366f1"@,
    }
}

impl NodeType {
    pub fn display_name(&self) -> (r: &'static str)
        ensures
            r@ == display_name_of(*self),
    {
        match self {
            NodeType::Dialogue => "Dialogue",
            NodeType::DialogueFragment => "Dialogue Fragment",
            NodeType::Branch => "Branch",
            NodeType::Condition => "Condition",
            NodeType::Instruction => "Instruction",
            NodeType::Hub => "Hub",
            NodeType::Jump => "Jump",
            NodeType::FlowFragment => "Flow Fragment",
        }
    }

    pub fn default_color(&self) -> (r: &'static str)
        ensures
            r@ == default_color_of(*self),
    {
        match self {
            NodeType::Dialogue => "#3b82f6",
            NodeType::DialogueFragment => "#3b82f6",
            NodeType::Branch => "#f59e0b",
            NodeType::Condition => "#10b981",
            NodeType::Instruction => "#8b5cf6",
            NodeType::Hub => "#06b6d4",
            NodeType::Jump => "#8b5cf6",
            NodeType::FlowFragment => "#6366f1",
        }
    }
}

#[derive(Debug, Clone, Copy, PartialEq, Eq, Structural)]
pub enum VariableType {
    String,
    Number,
    Boolean,
}

#[derive(Debug, Clone, Copy, PartialEq, Eq, Structural)]
pub enum ConnectionType {
    Flow,
    Data,
}

/// A point on the editor canvas. Each coordinate is kept as the IEEE-754
/// bit pattern of a double: the library carries positions through without
/// doing arithmetic on them.
#[derive(Debug, Clone, Copy, PartialEq, Eq, Structural, Default)]
pub struct Position {
    pub x: u64,
    pub y: u64,
}

/// Width and height of a node, as IEEE-754 bit patterns of doubles.
#[derive(Debug, Clone, Copy, PartialEq, Eq, Structural)]
pub struct Size {
    pub width: u64,
    pub height: u64,
}

#[derive(Debug, Clone, Copy, PartialEq, Eq, Structural)]
pub enum PortType {
    Input,
    Output,
}

/// An attachment point of a node.
#[derive(Debug, Clone)]
pub struct Port {
    pub id: String,
    pub node_id: String,
    pub port_type: PortType,
    pub index: usize,
    pub label: Option<String>,
}

/// A script attached to a condition or an instruction node.
#[derive(Debug, Clone)]
pub struct ScriptFragment {
    pub expression: String,
    pub is_condition: bool,
}

#[derive(Debug, Clone)]
pub struct DialogueData {
    pub speaker: Option<String>,
    pub speaker_id: Option<crate::id::ArticyId>,
    pub text: String,
    pub menu_text: Option<String>,
    pub stage_directions: Option<String>,
    pub auto_transition: bool,
}

#[derive(Debug, Clone)]
pub struct JumpData {
    pub target_node_id: Option<String>,
    pub target_pin_index: Option<usize>,
}

#[derive(Debug, Clone)]
pub struct FlowFragmentData {
    pub display_name: String,
    pub text: Option<String>,
}

#[derive(Debug, Clone)]
pub struct HubData {
    pub display_name: Option<String>,
}

/// Payload of a node; its variant follows the node's type.
#[derive(Debug, Clone)]
pub enum NodeData {
    Dialogue(DialogueData),
    DialogueFragment(DialogueData),
    Branch,
    Condition { script: ScriptFragment },
    Instruction { script: ScriptFragment },
    Hub(HubData),
    Jump(JumpData),
    FlowFragment(FlowFragmentData),
}

/// Whether a payload is the variant that belongs to a node type.
pub open spec fn data_matches(t: NodeType, d: NodeData) -> bool {
    match t {
        NodeType::Dialogue => d is Dialogue,
        NodeType::DialogueFragment => d is DialogueFragment,
        NodeType::Branch => d is Branch,
        NodeType::Condition => d is Condition,
        NodeType::Instruction => d is Instruction,
        NodeType::Hub => d is Hub,
        NodeType::Jump => d is Jump,
        NodeType::FlowFragment => d is FlowFragment,
    }
}

/// A vertex of the dialogue graph.
#[derive(Debug, Clone)]
pub struct Node {
    pub id: String,
    pub technical_name: String,
    pub node_type: NodeType,
    pub position: Position,
    pub size: Size,
    pub input_ports: Vec<Port>,
    pub output_ports: Vec<Port>,
    pub data: NodeData,
    pub color: Option<String>,
    pub parent_id: Option<String>,
    pub metadata: Option<serde_json::Value>,
}

/// A directed edge from an output port to an input port.
#[derive(Debug, Clone)]
pub struct Connection {
    pub id: String,
    pub from_node_id: String,
    pub from_port_index: usize,
    pub to_node_id: String,
    pub to_port_index: usize,
    pub connection_type: ConnectionType,
    pub label: Option<String>,
}

#[derive(Debug, Clone)]
pub struct Variable {
    pub id: String,
    pub namespace: String,
    pub name: String,
    pub variable_type: VariableType,
    pub default_value: serde_json::Value,
    pub description: Option<String>,
}

#[derive(Debug, Clone)]
pub struct VariableNamespace {
    pub name: String,
    pub description: Option<String>,
    pub variables: Vec<Variable>,
}

#[derive(Debug, Clone)]
pub struct Character {
    pub id: String,
    pub articy_id: crate::id::ArticyId,
    pub technical_name: String,
    pub display_name: String,
    pub color: String,
    pub preview_image: Option<String>,
}

/// The whole dialogue graph: the aggregate that owns every entity.
#[derive(Debug, Clone)]
pub struct DialogueGraph {
    pub id: String,
    pub name: String,
    pub technical_name: String,
    pub nodes: Vec<Node>,
    pub connections: Vec<Connection>,
    pub variables: Vec<VariableNamespace>,
    pub characters: Vec<Character>,
    pub created_at: i64,
    pub modified_at: i64,
    pub metadata: Option<serde_json::Value>,
    /// Serial number handed to the next generated identifier.
    pub id_counter: crate::id::IdCounter,
}

#[derive(Debug, Clone, Copy, PartialEq, Eq, Structural)]
pub enum ValidationSeverity {
    Error,
    Warning,
    Info,
}

/// One finding of the validator.
#[derive(Debug, Clone)]
pub struct ValidationError {
    pub node_id: Option<String>,
    pub connection_id: Option<String>,
    pub severity: ValidationSeverity,
    pub message: String,
    pub code: String,
}

#[derive(Debug, Clone)]
pub struct ValidationReport {
    pub is_valid: bool,
    pub errors: Vec<ValidationError>,
    pub warnings: Vec<ValidationError>,
}

/// Declares `serde_json::Value` so that graphs can carry free-form metadata
/// and variable defaults through untouched.
#[verifier::external_type_specification]
#[verifier::external_body]
pub struct ExJsonValue(serde_json::Value);

/// Relies on the `Clone` impl of `serde_json::Value`, which copies the tree.
pub assume_specification[ <serde_json::Value as std::clone::Clone>::clone ](v: &serde_json::Value) -> (r: serde_json::Value)
    ensures
        r == *v,
;

} // verus!
