use vstd::prelude::*;
use vstd::string::*;
use crate::id::{
    generate_id, has_serial, lemma_serials_distinct, lemma_serials_tell_ids_apart, now_millis,
    serial_after, short_id_text, technical_name, to_technical_name, ArticyId, IdCounter,
};
use crate::types::{
    default_color_of, Character, Connection, ConnectionType, DialogueData, DialogueGraph,
    FlowFragmentData, HubData, JumpData, Node, NodeData, NodeType, Port, PortType, Position,
    ScriptFragment, Size, Variable, VariableNamespace, VariableType,
};

verus! {

// ---------------------------------------------------------------------------
// Views and construction policy
// ---------------------------------------------------------------------------

/// The text of an optional string.
pub open spec fn opt_text(o: Option<String>) -> Option<Seq<char>> {
    match o {
        Some(s) => Some(s@),
        None => None,
    }
}

/// Default size of a node of each type (IEEE-754 bit patterns of doubles).
pub open spec fn default_size_of(t: NodeType) -> Size {
    match t {
        NodeType::Dialogue => Size { width: 0x4071_8000_0000_0000, height: 0x405e_0000_0000_0000 },
        NodeType::DialogueFragment => Size {
            width: 0x4070_4000_0000_0000,
            height: 0x4059_0000_0000_0000,
        },
        NodeType::Branch => Size { width: 0x4064_0000_0000_0000, height: 0x4054_0000_0000_0000 },
        NodeType::Condition => Size { width: 0x4069_0000_0000_0000, height: 0x4054_0000_0000_0000 },
        NodeType::Instruction => Size {
            width: 0x4069_0000_0000_0000,
            height: 0x4051_8000_0000_0000,
        },
        NodeType::Hub => Size { width: 0x4061_8000_0000_0000, height: 0x404e_0000_0000_0000 },
        NodeType::Jump => Size { width: 0x4064_0000_0000_0000, height: 0x404e_0000_0000_0000 },
        NodeType::FlowFragment => Size {
            width: 0x4072_c000_0000_0000,
            height: 0x4061_8000_0000_0000,
        },
    }
}

/// Number of output ports a new node of a type starts with.
pub open spec fn output_port_count(t: NodeType) -> nat {
    match t {
        NodeType::Jump => 0,
        NodeType::Branch | NodeType::Condition => 2,
        _ => 1,
    }
}

/// Label of the `i`-th default output port: `True` and `False` on a condition.
pub open spec fn default_output_label(t: NodeType, i: int) -> Option<Seq<char>> {
    if t == NodeType::Condition {
        if i == 0 {
            Some("True"@)
        } else {
            Some("False"@)
        }
    } else {
        None
    }
}

/// Lower-case, underscore-joined name of a node type, the stem of a new
/// node's technical name.
pub open spec fn type_stem(t: NodeType) -> Seq<char> {
    match t {
        NodeType::Dialogue => "dialogue"@,
        NodeType::DialogueFragment => "dialogue_fragment"@,
        NodeType::Branch => "branch"@,
        NodeType::Condition => "condition"@,
        NodeType::Instruction => "instruction"@,
        NodeType::Hub => "hub"@,
        NodeType::Jump => "jump"@,
        NodeType::FlowFragment => "flow_fragment"@,
    }
}

/// The first eight characters of an id (all of it when shorter).
pub open spec fn id_head(id: Seq<char>) -> Seq<char> {
    if id.len() > 8 {
        id.subrange(0, 8)
    } else {
        id
    }
}

pub open spec fn is_empty_dialogue(d: DialogueData) -> bool {
    &&& d.speaker is None
    &&& d.speaker_id is None
    &&& d.text@.len() == 0
    &&& d.menu_text is None
    &&& d.stage_directions is None
    &&& !d.auto_transition
}

/// The payload a new node of type `t` starts with.
pub open spec fn is_initial_payload(t: NodeType, d: NodeData) -> bool {
    match d {
        NodeData::Dialogue(x) => t == NodeType::Dialogue && is_empty_dialogue(x),
        NodeData::DialogueFragment(x) => t == NodeType::DialogueFragment && is_empty_dialogue(x),
        NodeData::Branch => t == NodeType::Branch,
        NodeData::Condition { script } => t == NodeType::Condition && script.expression@.len() == 0
            && script.is_condition,
        NodeData::Instruction { script } => t == NodeType::Instruction
            && script.expression@.len() == 0 && !script.is_condition,
        NodeData::Hub(h) => t == NodeType::Hub && h.display_name is None,
        NodeData::Jump(j) => t == NodeType::Jump && j.target_node_id is None
            && j.target_pin_index is None,
        NodeData::FlowFragment(f) => t == NodeType::FlowFragment && f.display_name@
            == "Flow Fragment"@ && f.text is None,
    }
}

/// Ports of one direction: indices match positions and each names its node.
pub open spec fn ports_wf(ports: Seq<Port>, node_id: Seq<char>, dir: PortType) -> bool {
    forall|i: int|
        0 <= i < ports.len() ==> (#[trigger] ports[i]).index == i && ports[i].node_id@ == node_id
            && ports[i].port_type == dir
}

pub open spec fn node_wf(n: Node) -> bool {
    &&& ports_wf(n.input_ports@, n.id@, PortType::Input)
    &&& ports_wf(n.output_ports@, n.id@, PortType::Output)
    &&& crate::types::data_matches(n.node_type, n.data)
}

/// At most one connection ends at each input port.
pub open spec fn single_producer(cs: Seq<Connection>) -> bool {
    forall|i: int, j: int|
        0 <= i < cs.len() && 0 <= j < cs.len() && i != j ==> !(#[trigger] cs[i].to_node_id@
            == #[trigger] cs[j].to_node_id@ && cs[i].to_port_index == cs[j].to_port_index)
}

pub open spec fn no_self_loops(cs: Seq<Connection>) -> bool {
    forall|i: int| 0 <= i < cs.len() ==> (#[trigger] cs[i]).from_node_id@ != cs[i].to_node_id@
}

/// The structural invariant of a graph.
pub open spec fn graph_wf(g: DialogueGraph) -> bool {
    &&& forall|i: int| 0 <= i < g.nodes@.len() ==> node_wf(#[trigger] g.nodes@[i])
    &&& single_producer(g.connections@)
    &&& no_self_loops(g.connections@)
}

/// The fields that no operation of the graph store changes.
pub open spec fn same_identity(a: DialogueGraph, b: DialogueGraph) -> bool {
    &&& a.id == b.id
    &&& a.name == b.name
    &&& a.technical_name == b.technical_name
    &&& a.created_at == b.created_at
    &&& a.metadata == b.metadata
}

/// Position of the first occurrence of `key` in `keys` at or after `start`, or -1.
pub open spec fn first_from(keys: Seq<Seq<char>>, key: Seq<char>, start: int) -> int
    decreases keys.len() - start,
{
    if start < 0 || start >= keys.len() {
        -1
    } else if keys[start] == key {
        start
    } else {
        first_from(keys, key, start + 1)
    }
}

pub proof fn lemma_first_from(keys: Seq<Seq<char>>, key: Seq<char>, start: int)
    requires
        0 <= start,
    ensures
        first_from(keys, key, start) == -1 ==> forall|j: int|
            start <= j < keys.len() ==> #[trigger] keys[j] != key,
        first_from(keys, key, start) != -1 ==> start <= first_from(keys, key, start) < keys.len()
            && keys[first_from(keys, key, start)] == key && forall|j: int|
            start <= j < first_from(keys, key, start) ==> #[trigger] keys[j] != key,
    decreases keys.len() - start,
{
    if start < keys.len() && keys[start] != key {
        lemma_first_from(keys, key, start + 1);
    }
}

pub open spec fn node_ids(g: DialogueGraph) -> Seq<Seq<char>> {
    g.nodes@.map_values(|n: Node| n.id@)
}

pub open spec fn connection_ids(g: DialogueGraph) -> Seq<Seq<char>> {
    g.connections@.map_values(|c: Connection| c.id@)
}

pub open spec fn character_ids(g: DialogueGraph) -> Seq<Seq<char>> {
    g.characters@.map_values(|c: Character| c.id@)
}

pub open spec fn namespace_names(g: DialogueGraph) -> Seq<Seq<char>> {
    g.variables@.map_values(|ns: VariableNamespace| ns.name@)
}

/// Position of the first node with id `id`, or -1.
pub open spec fn node_slot(g: DialogueGraph, id: Seq<char>) -> int {
    first_from(node_ids(g), id, 0)
}

/// What holds of a node that the construction policy has just built.
pub open spec fn is_new_node(n: Node, t: NodeType, position: Position) -> bool {
    &&& n.node_type == t
    &&& n.position == position
    &&& n.size == default_size_of(t)
    &&& is_initial_payload(t, n.data)
    &&& node_wf(n)
    &&& n.input_ports@.len() == 1
    &&& n.input_ports@[0].label is None
    &&& n.output_ports@.len() == output_port_count(t)
    &&& forall|i: int|
        0 <= i < n.output_ports@.len() ==> opt_text(#[trigger] n.output_ports@[i].label)
            == default_output_label(t, i)
    &&& opt_text(n.color) == Some(default_color_of(t))
    &&& n.parent_id is None
    &&& n.metadata is None
    &&& n.technical_name@ == type_stem(t) + seq!['_'] + id_head(n.id@)
}

/// The ids of a node and of its ports are pairwise distinct.
pub open spec fn port_ids_distinct(n: Node) -> bool {
    &&& forall|a: int| 0 <= a < n.input_ports@.len() ==> (#[trigger] n.input_ports@[a]).id@ != n.id@
    &&& forall|a: int| 0 <= a < n.output_ports@.len() ==> (#[trigger] n.output_ports@[a]).id@ != n.id@
    &&& forall|a: int, b: int|
        0 <= a < n.input_ports@.len() && 0 <= b < n.output_ports@.len() ==> #[trigger] n.input_ports@[a].id@
            != #[trigger] n.output_ports@[b].id@
    &&& forall|a: int, b: int|
        0 <= a < n.input_ports@.len() && 0 <= b < n.input_ports@.len() && a != b ==> #[trigger] n.input_ports@[a].id@
            != #[trigger] n.input_ports@[b].id@
    &&& forall|a: int, b: int|
        0 <= a < n.output_ports@.len() && 0 <= b < n.output_ports@.len() && a != b ==> #[trigger] n.output_ports@[a].id@
            != #[trigger] n.output_ports@[b].id@
}

/// Whether connecting output `from_port` of node `from` to input `to_port`
/// of node `to` is legal: distinct nodes, both present, both ports in range,
/// no identical connection, and the input port still free.
pub open spec fn can_connect_spec(
    g: DialogueGraph,
    from: Seq<char>,
    from_port: usize,
    to: Seq<char>,
    to_port: usize,
) -> bool {
    &&& from != to
    &&& node_slot(g, from) >= 0
    &&& node_slot(g, to) >= 0
    &&& from_port < g.nodes@[node_slot(g, from)].output_ports@.len()
    &&& to_port < g.nodes@[node_slot(g, to)].input_ports@.len()
    &&& !exists|k: int|
        0 <= k < g.connections@.len() && (#[trigger] g.connections@[k]).from_node_id@ == from
            && g.connections@[k].from_port_index == from_port && g.connections@[k].to_node_id@
            == to && g.connections@[k].to_port_index == to_port
    &&& !exists|k: int|
        0 <= k < g.connections@.len() && (#[trigger] g.connections@[k]).to_node_id@ == to
            && g.connections@[k].to_port_index == to_port
}

/// A connection that starts or ends at node `id`.
pub open spec fn touches(c: Connection, id: Seq<char>) -> bool {
    c.from_node_id@ == id || c.to_node_id@ == id
}

// ---------------------------------------------------------------------------
// Helpers
// ---------------------------------------------------------------------------

fn copy_text(s: &String) -> (r: String)
    ensures
        r@ == s@,
{
    s.clone()
}

fn copy_opt_text(o: &Option<String>) -> (r: Option<String>)
    ensures
        opt_text(r) == opt_text(*o),
{
    match o {
        Some(s) => Some(s.clone()),
        None => None,
    }
}

fn type_stem_exec(t: NodeType) -> (r: &'static str)
    ensures
        r@ == type_stem(t),
{
    match t {
        NodeType::Dialogue => "dialogue",
        NodeType::DialogueFragment => "dialogue_fragment",
        NodeType::Branch => "branch",
        NodeType::Condition => "condition",
        NodeType::Instruction => "instruction",
        NodeType::Hub => "hub",
        NodeType::Jump => "jump",
        NodeType::FlowFragment => "flow_fragment",
    }
}

fn default_size(t: NodeType) -> (r: Size)
    ensures
        r == default_size_of(t),
{
    match t {
        NodeType::Dialogue => Size { width: 0x4071_8000_0000_0000, height: 0x405e_0000_0000_0000 },
        NodeType::DialogueFragment => Size {
            width: 0x4070_4000_0000_0000,
            height: 0x4059_0000_0000_0000,
        },
        NodeType::Branch => Size { width: 0x4064_0000_0000_0000, height: 0x4054_0000_0000_0000 },
        NodeType::Condition => Size { width: 0x4069_0000_0000_0000, height: 0x4054_0000_0000_0000 },
        NodeType::Instruction => Size {
            width: 0x4069_0000_0000_0000,
            height: 0x4051_8000_0000_0000,
        },
        NodeType::Hub => Size { width: 0x4061_8000_0000_0000, height: 0x404e_0000_0000_0000 },
        NodeType::Jump => Size { width: 0x4064_0000_0000_0000, height: 0x404e_0000_0000_0000 },
        NodeType::FlowFragment => Size {
            width: 0x4072_c000_0000_0000,
            height: 0x4061_8000_0000_0000,
        },
    }
}

fn empty_dialogue() -> (r: DialogueData)
    ensures
        is_empty_dialogue(r),
{
    DialogueData {
        speaker: None,
        speaker_id: None,
        text: String::new(),
        menu_text: None,
        stage_directions: None,
        auto_transition: false,
    }
}

fn initial_payload(t: NodeType) -> (r: NodeData)
    ensures
        is_initial_payload(t, r),
{
    match t {
        NodeType::Dialogue => NodeData::Dialogue(empty_dialogue()),
        NodeType::DialogueFragment => NodeData::DialogueFragment(empty_dialogue()),
        NodeType::Branch => NodeData::Branch,
        NodeType::Condition => NodeData::Condition {
            script: ScriptFragment { expression: String::new(), is_condition: true },
        },
        NodeType::Instruction => NodeData::Instruction {
            script: ScriptFragment { expression: String::new(), is_condition: false },
        },
        NodeType::Hub => NodeData::Hub(HubData { display_name: None }),
        NodeType::Jump => NodeData::Jump(JumpData { target_node_id: None, target_pin_index: None }),
        NodeType::FlowFragment => NodeData::FlowFragment(
            FlowFragmentData { display_name: String::from_str("Flow Fragment"), text: None },
        ),
    }
}

fn new_port(node_id: &String, dir: PortType, index: usize, label: Option<String>, ids: &mut IdCounter) -> (r: Port)
    ensures
        r.node_id@ == node_id@,
        r.port_type == dir,
        r.index == index,
        r.label == label,
        final(ids).next == crate::id::next_serial(old(ids).next),
        has_serial(r.id@, old(ids).next),
{
    let id = generate_id(ids);
    assert(has_serial(id@, old(ids).next));
    Port { id, node_id: copy_text(node_id), port_type: dir, index, label }
}

// ---------------------------------------------------------------------------
// Nodes
// ---------------------------------------------------------------------------

impl Node {
    /// A node of type `t` at `position`, built by the construction policy:
    /// fresh id, default size and payload, one input port and the type's
    /// output ports, the type's colour, no parent and no metadata.
    pub fn new(node_type: NodeType, position: Position, ids: &mut IdCounter) -> (r: Node)
        ensures
            is_new_node(r, node_type, position),
            exists|t: u64, x: u64| x <= 0xFF_FFFF && r.id@ == short_id_text(t, x, old(ids).next),
            port_ids_distinct(r),
    {
        let ghost c = ids.next;
        let id = generate_id(ids);
        assert(has_serial(id@, c));
        let mut technical = String::from_str(type_stem_exec(node_type));
        technical.push('_');
        let head: usize = if id.as_str().unicode_len() > 8 { 8 } else { id.as_str().unicode_len() };
        let ghost stem = technical@;
        let mut k: usize = 0;
        while k < head
            invariant
                head <= id@.len(),
                head == id_head(id@).len(),
                k <= head,
                technical@ == stem + id@.subrange(0, k as int),
            decreases head - k,
        {
            technical.push(id.as_str().get_char(k));
            k = k + 1;
            assert(technical@ =~= stem + id@.subrange(0, k as int));
        }
        assert(id@.subrange(0, head as int) =~= id_head(id@));
        let size = default_size(node_type);
        let data = initial_payload(node_type);
        let mut input_ports: Vec<Port> = Vec::new();
        assert(serial_after(c, 0) == c);
        assert(ids.next == serial_after(c, 1));
        let p = new_port(&id, PortType::Input, 0, None, ids);
        input_ports.push(p);
        assert(has_serial(input_ports@[0].id@, serial_after(c, 1)));
        assert(serial_after(c, 2) == crate::id::next_serial(serial_after(c, 1)));
        let outputs: usize = match node_type {
            NodeType::Jump => 0,
            NodeType::Branch | NodeType::Condition => 2,
            _ => 1,
        };
        let mut output_ports: Vec<Port> = Vec::new();
        let mut i: usize = 0;
        while i < outputs
            invariant
                outputs == output_port_count(node_type),
                i <= outputs,
                output_ports@.len() == i,
                ports_wf(output_ports@, id@, PortType::Output),
                forall|j: int|
                    0 <= j < i ==> opt_text(#[trigger] output_ports@[j].label)
                        == default_output_label(node_type, j),
                outputs <= 2,
                ids.next == serial_after(c, (2 + i) as nat),
                forall|j: int| 0 <= j < i ==> has_serial(#[trigger] output_ports@[j].id@, serial_after(c, (2 + j) as nat)),
            decreases outputs - i,
        {
            let label = if node_type == NodeType::Condition {
                if i == 0 {
                    Some(String::from_str("True"))
                } else {
                    Some(String::from_str("False"))
                }
            } else {
                None
            };
            let ghost before = output_ports@;
            let p = new_port(&id, PortType::Output, i, label, ids);
            output_ports.push(p);
            proof {
                assert(serial_after(c, (2 + i + 1) as nat) == crate::id::next_serial(serial_after(c, (2 + i) as nat)));
                assert forall|j: int| 0 <= j < i + 1 implies has_serial(#[trigger] output_ports@[j].id@, serial_after(c, (2 + j) as nat)) by {
                    if j < i {
                        assert(output_ports@[j] == before[j]);
                    }
                }
            }
            i = i + 1;
        }
        let r = Node {
            id,
            technical_name: technical,
            node_type,
            position,
            size,
            input_ports,
            output_ports,
            data,
            color: Some(String::from_str(node_type.default_color())),
            parent_id: None,
            metadata: None,
        };
        assert(ports_wf(r.input_ports@, r.id@, PortType::Input));
        assert(ports_wf(r.output_ports@, r.id@, PortType::Output));
        assert(r.technical_name@ == type_stem(node_type) + seq!['_'] + id_head(r.id@));
        proof {
            let ins = r.input_ports@;
            let outs = r.output_ports@;
            assert forall|a: int| 0 <= a < ins.len() implies (#[trigger] ins[a]).id@ != r.id@ by {
                lemma_serials_distinct(c, 0, 1);
                lemma_serials_tell_ids_apart(ins[a].id@, r.id@, serial_after(c, 1), serial_after(c, 0));
            }
            assert forall|a: int| 0 <= a < outs.len() implies (#[trigger] outs[a]).id@ != r.id@ by {
                lemma_serials_distinct(c, 0, (2 + a) as nat);
                lemma_serials_tell_ids_apart(outs[a].id@, r.id@, serial_after(c, (2 + a) as nat), serial_after(c, 0));
            }
            assert forall|a: int, b: int| 0 <= a < ins.len() && 0 <= b < outs.len() implies #[trigger] ins[a].id@ != #[trigger] outs[b].id@ by {
                lemma_serials_distinct(c, 1, (2 + b) as nat);
                lemma_serials_tell_ids_apart(ins[a].id@, outs[b].id@, serial_after(c, 1), serial_after(c, (2 + b) as nat));
            }
            assert forall|a: int, b: int| 0 <= a < outs.len() && 0 <= b < outs.len() && a != b implies #[trigger] outs[a].id@ != #[trigger] outs[b].id@ by {
                if a < b {
                    lemma_serials_distinct(c, (2 + a) as nat, (2 + b) as nat);
                } else {
                    lemma_serials_distinct(c, (2 + b) as nat, (2 + a) as nat);
                }
                lemma_serials_tell_ids_apart(outs[a].id@, outs[b].id@, serial_after(c, (2 + a) as nat), serial_after(c, (2 + b) as nat));
            }
        }
        r
    }

    /// Appends an output port with the next index.
    pub fn add_output_port(&mut self, label: Option<String>, ids: &mut IdCounter) -> (r: &Port)
        ensures
            final(self).output_ports@ == old(self).output_ports@.push(*r),
            r.index == old(self).output_ports@.len(),
            r.node_id@ == old(self).id@,
            r.port_type == PortType::Output,
            r.label == label,
            *final(self) == (Node { output_ports: final(self).output_ports, ..*old(self) }),
            node_wf(*old(self)) ==> node_wf(*final(self)),
    {
        let index = self.output_ports.len();
        let p = new_port(&self.id, PortType::Output, index, label, ids);
        self.output_ports.push(p);
        proof {
            let ps = self.output_ports@;
            assert forall|i: int| 0 <= i < ps.len() - 1 implies ps[i] == old(self).output_ports@[i] by {}
        }
        &self.output_ports[index]
    }

    /// Appends an input port with the next index.
    pub fn add_input_port(&mut self, label: Option<String>, ids: &mut IdCounter) -> (r: &Port)
        ensures
            final(self).input_ports@ == old(self).input_ports@.push(*r),
            r.index == old(self).input_ports@.len(),
            r.node_id@ == old(self).id@,
            r.port_type == PortType::Input,
            r.label == label,
            *final(self) == (Node { input_ports: final(self).input_ports, ..*old(self) }),
            node_wf(*old(self)) ==> node_wf(*final(self)),
    {
        let index = self.input_ports.len();
        let p = new_port(&self.id, PortType::Input, index, label, ids);
        self.input_ports.push(p);
        proof {
            let ps = self.input_ports@;
            assert forall|i: int| 0 <= i < ps.len() - 1 implies ps[i] == old(self).input_ports@[i] by {}
        }
        &self.input_ports[index]
    }
}

impl VariableNamespace {
    /// Appends a variable of this namespace and returns it.
    pub fn add_variable(&mut self, name: &str, var_type: VariableType, default_value: serde_json::Value, ids: &mut IdCounter) -> (r: &Variable)
        ensures
            final(self).variables@ == old(self).variables@.push(*r),
            final(self).name == old(self).name,
            final(self).description == old(self).description,
            r.namespace@ == old(self).name@,
            r.name@ == name@,
            r.variable_type == var_type,
            r.default_value == default_value,
            r.description is None,
            exists|t: u64, x: u64| x <= 0xFF_FFFF && r.id@ == short_id_text(t, x, old(ids).next),
    {
        let variable = Variable {
            id: generate_id(ids),
            namespace: copy_text(&self.name),
            name: name.to_owned(),
            variable_type: var_type,
            default_value,
            description: None,
        };
        self.variables.push(variable);
        let n = self.variables.len();
        &self.variables[n - 1]
    }
}

pub proof fn lemma_node_slot(g: DialogueGraph, id: Seq<char>)
    ensures
        node_slot(g, id) == -1 ==> forall|j: int|
            0 <= j < g.nodes@.len() ==> (#[trigger] g.nodes@[j]).id@ != id,
        node_slot(g, id) != -1 ==> 0 <= node_slot(g, id) < g.nodes@.len() && g.nodes@[node_slot(
            g,
            id,
        )].id@ == id && forall|j: int|
            0 <= j < node_slot(g, id) ==> (#[trigger] g.nodes@[j]).id@ != id,
{
    lemma_first_from(node_ids(g), id, 0);
    assert forall|j: int| 0 <= j < g.nodes@.len() implies node_ids(g)[j] == (
    #[trigger] g.nodes@[j]).id@ by {}
}

pub proof fn lemma_connection_slot(g: DialogueGraph, id: Seq<char>)
    ensures
        first_from(connection_ids(g), id, 0) != -1 ==> 0 <= first_from(connection_ids(g), id, 0)
            < g.connections@.len() && g.connections@[first_from(connection_ids(g), id, 0)].id@
            == id,
{
    lemma_first_from(connection_ids(g), id, 0);
}

pub open spec fn keeps_away_from(id: Seq<char>) -> spec_fn(Connection) -> bool {
    |c: Connection| !touches(c, id)
}

proof fn lemma_filter_single(x: Connection, pred: spec_fn(Connection) -> bool)
    ensures
        seq![x].filter(pred) == (if pred(x) { seq![x] } else { Seq::<Connection>::empty() }),
{
    reveal(Seq::filter);
    assert(seq![x].drop_last() =~= Seq::<Connection>::empty());
    assert(Seq::<Connection>::empty().filter(pred) =~= Seq::<Connection>::empty());
    if pred(x) {
        assert(Seq::<Connection>::empty().push(x) =~= seq![x]);
    }
}

proof fn lemma_remove_keeps_invariants(cs: Seq<Connection>, k: int)
    requires
        0 <= k < cs.len(),
        single_producer(cs),
        no_self_loops(cs),
    ensures
        single_producer(cs.remove(k)),
        no_self_loops(cs.remove(k)),
{
    let r = cs.remove(k);
    assert forall|i: int, j: int|
        0 <= i < r.len() && 0 <= j < r.len() && i != j implies !(#[trigger] r[i].to_node_id@
        == #[trigger] r[j].to_node_id@ && r[i].to_port_index == r[j].to_port_index) by {
        let i2 = if i < k { i } else { i + 1 };
        let j2 = if j < k { j } else { j + 1 };
        assert(r[i] == cs[i2] && r[j] == cs[j2]);
    }
    assert forall|i: int| 0 <= i < r.len() implies (#[trigger] r[i]).from_node_id@
        != r[i].to_node_id@ by {
        let i2 = if i < k { i } else { i + 1 };
        assert(r[i] == cs[i2]);
    }
}

// ---------------------------------------------------------------------------
// Copies and partial updates
// ---------------------------------------------------------------------------

pub open spec fn same_dialogue(a: DialogueData, b: DialogueData) -> bool {
    &&& opt_text(a.speaker) == opt_text(b.speaker)
    &&& a.speaker_id == b.speaker_id
    &&& a.text@ == b.text@
    &&& opt_text(a.menu_text) == opt_text(b.menu_text)
    &&& opt_text(a.stage_directions) == opt_text(b.stage_directions)
    &&& a.auto_transition == b.auto_transition
}

/// Two payloads of the same variant with the same contents.
pub open spec fn same_payload(a: NodeData, b: NodeData) -> bool {
    match a {
        NodeData::Dialogue(x) => b is Dialogue && same_dialogue(x, b->Dialogue_0),
        NodeData::DialogueFragment(x) => b is DialogueFragment && same_dialogue(
            x,
            b->DialogueFragment_0,
        ),
        NodeData::Branch => b is Branch,
        NodeData::Condition { script } => b is Condition && script.expression@
            == b->Condition_script.expression@ && script.is_condition
            == b->Condition_script.is_condition,
        NodeData::Instruction { script } => b is Instruction && script.expression@
            == b->Instruction_script.expression@ && script.is_condition
            == b->Instruction_script.is_condition,
        NodeData::Hub(h) => b is Hub && opt_text(h.display_name) == opt_text(b->Hub_0.display_name),
        NodeData::Jump(j) => b is Jump && opt_text(j.target_node_id) == opt_text(
            b->Jump_0.target_node_id,
        ) && j.target_pin_index == b->Jump_0.target_pin_index,
        NodeData::FlowFragment(f) => b is FlowFragment && f.display_name@
            == b->FlowFragment_0.display_name@ && opt_text(f.text) == opt_text(
            b->FlowFragment_0.text,
        ),
    }
}

fn copy_dialogue(d: &DialogueData) -> (r: DialogueData)
    ensures
        same_dialogue(*d, r),
{
    DialogueData {
        speaker: copy_opt_text(&d.speaker),
        speaker_id: d.speaker_id,
        text: copy_text(&d.text),
        menu_text: copy_opt_text(&d.menu_text),
        stage_directions: copy_opt_text(&d.stage_directions),
        auto_transition: d.auto_transition,
    }
}

pub(crate) fn copy_payload(d: &NodeData) -> (r: NodeData)
    ensures
        same_payload(*d, r),
{
    match d {
        NodeData::Dialogue(x) => NodeData::Dialogue(copy_dialogue(x)),
        NodeData::DialogueFragment(x) => NodeData::DialogueFragment(copy_dialogue(x)),
        NodeData::Branch => NodeData::Branch,
        NodeData::Condition { script } => NodeData::Condition {
            script: ScriptFragment {
                expression: copy_text(&script.expression),
                is_condition: script.is_condition,
            },
        },
        NodeData::Instruction { script } => NodeData::Instruction {
            script: ScriptFragment {
                expression: copy_text(&script.expression),
                is_condition: script.is_condition,
            },
        },
        NodeData::Hub(h) => NodeData::Hub(HubData { display_name: copy_opt_text(&h.display_name) }),
        NodeData::Jump(j) => NodeData::Jump(
            JumpData {
                target_node_id: copy_opt_text(&j.target_node_id),
                target_pin_index: j.target_pin_index,
            },
        ),
        NodeData::FlowFragment(f) => NodeData::FlowFragment(
            FlowFragmentData { display_name: copy_text(&f.display_name), text: copy_opt_text(&f.text) },
        ),
    }
}

/// Copies the ports of one direction for the node `node_id`, each with a
/// fresh id.
fn copy_ports(ports: &Vec<Port>, node_id: &String, dir: PortType, ids: &mut IdCounter) -> (r: Vec<Port>)
    ensures
        r@.len() == ports@.len(),
        ports_wf(r@, node_id@, dir),
        forall|i: int|
            0 <= i < r@.len() ==> opt_text(#[trigger] r@[i].label) == opt_text(ports@[i].label),
{
    let mut out: Vec<Port> = Vec::new();
    let mut i: usize = 0;
    while i < ports.len()
        invariant
            i <= ports@.len(),
            out@.len() == i,
            ports_wf(out@, node_id@, dir),
            forall|k: int|
                0 <= k < i ==> opt_text(#[trigger] out@[k].label) == opt_text(ports@[k].label),
        decreases ports@.len() - i,
    {
        let label = copy_opt_text(&ports[i].label);
        let p = new_port(node_id, dir, i, label, ids);
        out.push(p);
        i = i + 1;
    }
    out
}

/// A sparse update of a node: each field present replaces the node's own.
pub struct NodeUpdate {
    pub position: Option<Position>,
    pub technical_name: Option<String>,
    pub color: Option<String>,
    pub data: Option<NodeData>,
}

/// A sparse update of a character.
pub struct CharacterUpdate {
    pub display_name: Option<String>,
    pub color: Option<String>,
}

/// The node after an update. A payload of another variant than the node's
/// type asks for is ignored.
pub open spec fn updated_node(n: Node, u: NodeUpdate) -> Node {
    Node {
        position: if u.position is Some { u.position->0 } else { n.position },
        technical_name: if u.technical_name is Some { u.technical_name->0 } else { n.technical_name },
        color: if u.color is Some { u.color } else { n.color },
        data: if u.data is Some && crate::types::data_matches(n.node_type, u.data->0) {
            u.data->0
        } else {
            n.data
        },
        ..n
    }
}

fn payload_matches(t: NodeType, d: &NodeData) -> (r: bool)
    ensures
        r == crate::types::data_matches(t, *d),
{
    match t {
        NodeType::Dialogue => matches!(d, NodeData::Dialogue(_)),
        NodeType::DialogueFragment => matches!(d, NodeData::DialogueFragment(_)),
        NodeType::Branch => matches!(d, NodeData::Branch),
        NodeType::Condition => matches!(d, NodeData::Condition { .. }),
        NodeType::Instruction => matches!(d, NodeData::Instruction { .. }),
        NodeType::Hub => matches!(d, NodeData::Hub(_)),
        NodeType::Jump => matches!(d, NodeData::Jump(_)),
        NodeType::FlowFragment => matches!(d, NodeData::FlowFragment(_)),
    }
}

// ---------------------------------------------------------------------------
// The graph store
// ---------------------------------------------------------------------------

impl DialogueGraph {
    /// An empty graph named `name`, stamped with the current time.
    pub fn new(name: &str) -> (r: DialogueGraph)
        ensures
            r.name@ == name@,
            r.technical_name@ == technical_name(name@),
            r.nodes@.len() == 0,
            r.connections@.len() == 0,
            r.variables@.len() == 0,
            r.characters@.len() == 0,
            r.created_at == r.modified_at,
            r.metadata is None,
            r.id_counter.next == 1,
            exists|t: u64, x: u64| x <= 0xFF_FFFF && r.id@ == short_id_text(t, x, 0),
            graph_wf(r),
    {
        let mut ids = IdCounter::new();
        let id = generate_id(&mut ids);
        let now = now_millis();
        DialogueGraph {
            id,
            name: name.to_owned(),
            technical_name: to_technical_name(name),
            nodes: Vec::new(),
            connections: Vec::new(),
            variables: Vec::new(),
            characters: Vec::new(),
            created_at: now,
            modified_at: now,
            metadata: None,
            id_counter: ids,
        }
    }

    /// Sets the modification time to `at` (milliseconds since the Unix epoch).
    pub fn stamp(&mut self, at: i64)
        ensures
            *final(self) == (DialogueGraph { modified_at: at, ..*old(self) }),
    {
        self.modified_at = at;
    }

    /// Stamps the graph with the current time.
    pub fn touch(&mut self)
        ensures
            *final(self) == (DialogueGraph { modified_at: final(self).modified_at, ..*old(self) }),
            final(self).modified_at >= 0,
    {
        let now = now_millis();
        self.stamp(now);
    }

    /// Position of the first node with id `id`.
    pub fn node_index(&self, id: &str) -> (r: Option<usize>)
        ensures
            match r {
                Some(i) => i as int == node_slot(*self, id@) && i < self.nodes@.len()
                    && self.nodes@[i as int].id@ == id@,
                None => node_slot(*self, id@) == -1,
            },
    {
        proof {
            lemma_node_slot(*self, id@);
        }
        let key = id.to_owned();
        let mut i: usize = 0;
        while i < self.nodes.len()
            invariant
                i <= self.nodes@.len(),
                key@ == id@,
                node_slot(*self, id@) == first_from(node_ids(*self), id@, i as int),
            decreases self.nodes@.len() - i,
        {
            if self.nodes[i].id == key {
                return Some(i);
            }
            i = i + 1;
        }
        None
    }

    /// The first node with id `id`.
    pub fn get_node(&self, id: &str) -> (r: Option<&Node>)
        ensures
            match r {
                Some(n) => node_slot(*self, id@) >= 0 && *n == self.nodes@[node_slot(*self, id@)],
                None => node_slot(*self, id@) == -1,
            },
    {
        match self.node_index(id) {
            Some(i) => Some(&self.nodes[i]),
            None => None,
        }
    }

    /// Appends a node built by the construction policy and returns it.
    pub fn add_node(&mut self, node_type: NodeType, position: Position) -> (r: &Node)
        ensures
            final(self).nodes@ == old(self).nodes@.push(*r),
            is_new_node(*r, node_type, position),
            final(self).connections == old(self).connections,
            final(self).variables == old(self).variables,
            final(self).characters == old(self).characters,
            same_identity(*final(self), *old(self)),
            graph_wf(*old(self)) ==> graph_wf(*final(self)),
    {
        let node = Node::new(node_type, position, &mut self.id_counter);
        self.nodes.push(node);
        self.touch();
        let n = self.nodes.len();
        proof {
            assert forall|i: int| 0 <= i < self.nodes@.len() && graph_wf(*old(self)) implies node_wf(
                #[trigger] self.nodes@[i],
            ) by {
                if i < n - 1 {
                    assert(self.nodes@[i] == old(self).nodes@[i]);
                }
            }
        }
        &self.nodes[n - 1]
    }

    /// Whether the connection may be made (see `can_connect_spec`).
    pub fn can_connect(&self, from_node_id: &str, from_port_idx: usize, to_node_id: &str, to_port_idx: usize) -> (r: bool)
        ensures
            r == can_connect_spec(*self, from_node_id@, from_port_idx, to_node_id@, to_port_idx),
    {
        let from_key = from_node_id.to_owned();
        let to_key = to_node_id.to_owned();
        if from_key == to_key {
            return false;
        }
        let from_idx = match self.node_index(from_node_id) {
            Some(i) => i,
            None => return false,
        };
        let to_idx = match self.node_index(to_node_id) {
            Some(i) => i,
            None => return false,
        };
        if from_port_idx >= self.nodes[from_idx].output_ports.len() {
            return false;
        }
        if to_port_idx >= self.nodes[to_idx].input_ports.len() {
            return false;
        }
        let mut k: usize = 0;
        while k < self.connections.len()
            invariant
                k <= self.connections@.len(),
                from_key@ == from_node_id@,
                to_key@ == to_node_id@,
                forall|j: int|
                    0 <= j < k ==> !((#[trigger] self.connections@[j]).to_node_id@ == to_key@
                        && self.connections@[j].to_port_index == to_port_idx),
            decreases self.connections@.len() - k,
        {
            let c = &self.connections[k];
            if c.to_node_id == to_key && c.to_port_index == to_port_idx {
                return false;
            }
            k = k + 1;
        }
        true
    }

    /// Connects output `from_port_idx` of one node to input `to_port_idx` of
    /// another, when `can_connect` allows it; a new flow connection is
    /// appended and returned. Otherwise nothing changes.
    pub fn add_connection(&mut self, from_node_id: &str, from_port_idx: usize, to_node_id: &str, to_port_idx: usize) -> (r: Option<&Connection>)
        ensures
            r is Some <==> can_connect_spec(*old(self), from_node_id@, from_port_idx, to_node_id@, to_port_idx),
            match r {
                Some(c) => {
                    &&& final(self).connections@ == old(self).connections@.push(*c)
                    &&& c.from_node_id@ == from_node_id@
                    &&& c.from_port_index == from_port_idx
                    &&& c.to_node_id@ == to_node_id@
                    &&& c.to_port_index == to_port_idx
                    &&& c.connection_type == ConnectionType::Flow
                    &&& c.label is None
                    &&& exists|t: u64, x: u64| x <= 0xFF_FFFF && c.id@ == short_id_text(t, x, old(self).id_counter.next)
                },
                None => *final(self) == *old(self),
            },
            final(self).nodes == old(self).nodes,
            final(self).variables == old(self).variables,
            final(self).characters == old(self).characters,
            same_identity(*final(self), *old(self)),
            graph_wf(*old(self)) ==> graph_wf(*final(self)),
    {
        if !self.can_connect(from_node_id, from_port_idx, to_node_id, to_port_idx) {
            return None;
        }
        let connection = Connection {
            id: generate_id(&mut self.id_counter),
            from_node_id: from_node_id.to_owned(),
            from_port_index: from_port_idx,
            to_node_id: to_node_id.to_owned(),
            to_port_index: to_port_idx,
            connection_type: ConnectionType::Flow,
            label: None,
        };
        let ghost before = self.connections@;
        self.connections.push(connection);
        self.touch();
        let n = self.connections.len();
        proof {
            let cs = self.connections@;
            assert forall|i: int| 0 <= i < cs.len() - 1 implies !((#[trigger] cs[i]).to_node_id@
                == to_node_id@ && cs[i].to_port_index == to_port_idx) by {
                assert(cs[i] == before[i]);
            }
            if graph_wf(*old(self)) {
                assert forall|i: int, j: int|
                    0 <= i < cs.len() && 0 <= j < cs.len() && i != j implies !(
                    #[trigger] cs[i].to_node_id@ == #[trigger] cs[j].to_node_id@
                        && cs[i].to_port_index == cs[j].to_port_index) by {
                    if i < cs.len() - 1 && j < cs.len() - 1 {
                        assert(cs[i] == before[i] && cs[j] == before[j]);
                    }
                }
                assert forall|i: int| 0 <= i < cs.len() implies (#[trigger] cs[i]).from_node_id@
                    != cs[i].to_node_id@ by {
                    if i < cs.len() - 1 {
                        assert(cs[i] == before[i]);
                    }
                }
            }
        }
        Some(&self.connections[n - 1])
    }

    /// Position of the first connection with id `id`.
    fn connection_index(&self, id: &str) -> (r: Option<usize>)
        ensures
            match r {
                Some(i) => i as int == first_from(connection_ids(*self), id@, 0) && i
                    < self.connections@.len(),
                None => first_from(connection_ids(*self), id@, 0) == -1,
            },
    {
        proof {
            lemma_connection_slot(*self, id@);
        }
        let key = id.to_owned();
        let mut i: usize = 0;
        while i < self.connections.len()
            invariant
                i <= self.connections@.len(),
                key@ == id@,
                first_from(connection_ids(*self), id@, 0) == first_from(connection_ids(*self), id@, i as int),
            decreases self.connections@.len() - i,
        {
            if self.connections[i].id == key {
                return Some(i);
            }
            i = i + 1;
        }
        None
    }

    /// Removes the first connection with id `id`; false when there is none.
    pub fn remove_connection(&mut self, id: &str) -> (r: bool)
        ensures
            r == (first_from(connection_ids(*old(self)), id@, 0) >= 0),
            r ==> final(self).connections@ == old(self).connections@.remove(
                first_from(connection_ids(*old(self)), id@, 0),
            ),
            !r ==> *final(self) == *old(self),
            final(self).nodes == old(self).nodes,
            final(self).variables == old(self).variables,
            final(self).characters == old(self).characters,
            same_identity(*final(self), *old(self)),
            graph_wf(*old(self)) ==> graph_wf(*final(self)),
    {
        match self.connection_index(id) {
            Some(i) => {
                proof {
                    if graph_wf(*old(self)) {
                        lemma_remove_keeps_invariants(self.connections@, i as int);
                    }
                }
                self.connections.remove(i);
                self.touch();
                true
            },
            None => false,
        }
    }

    /// Removes the first node with id `id` and every connection that starts
    /// or ends at that id; false, with nothing changed, when there is none.
    pub fn remove_node(&mut self, id: &str) -> (r: bool)
        ensures
            r == (node_slot(*old(self), id@) >= 0),
            r ==> final(self).nodes@ == old(self).nodes@.remove(node_slot(*old(self), id@)),
            r ==> final(self).connections@ == old(self).connections@.filter(keeps_away_from(id@)),
            !r ==> *final(self) == *old(self),
            final(self).variables == old(self).variables,
            final(self).characters == old(self).characters,
            same_identity(*final(self), *old(self)),
            graph_wf(*old(self)) ==> graph_wf(*final(self)),
    {
        let idx = match self.node_index(id) {
            Some(i) => i,
            None => return false,
        };
        let key = id.to_owned();
        let ghost pred = keeps_away_from(id@);
        let ghost all = self.connections@;
        let ghost wf = graph_wf(*old(self));
        let mut conns: Vec<Connection> = Vec::new();
        std::mem::swap(&mut conns, &mut self.connections);
        let n = conns.len();
        let mut i: usize = n;
        assert(all.subrange(n as int, n as int) =~= Seq::<Connection>::empty());
        proof {
            reveal(Seq::filter);
            assert(Seq::<Connection>::empty().filter(pred) =~= Seq::<Connection>::empty());
        }
        assert(conns@ =~= all.subrange(0, n as int) + all.subrange(n as int, n as int).filter(pred));
        while i > 0
            invariant
                n == all.len(),
                i <= n,
                key@ == id@,
                conns@ == all.subrange(0, i as int) + all.subrange(i as int, n as int).filter(pred),
                pred == keeps_away_from(id@),
                wf ==> single_producer(conns@) && no_self_loops(conns@),
            decreases i,
        {
            let x = &conns[i - 1];
            let hit = x.from_node_id == key || x.to_node_id == key;
            proof {
                let xs = all[i - 1];
                assert(all.subrange(i - 1, n as int) =~= seq![xs] + all.subrange(i as int, n as int));
                Seq::filter_distributes_over_add(seq![xs], all.subrange(i as int, n as int), pred);
                lemma_filter_single(xs, pred);
                assert(conns@[i - 1] == xs);
            }
            if hit {
                proof {
                    if wf {
                        lemma_remove_keeps_invariants(conns@, i - 1);
                    }
                }
                conns.remove(i - 1);
                assert(conns@ =~= all.subrange(0, i - 1) + all.subrange(i - 1, n as int).filter(pred));
            } else {
                assert(conns@ =~= all.subrange(0, i - 1) + all.subrange(i - 1, n as int).filter(pred));
            }
            i = i - 1;
        }
        assert(all.subrange(0, n as int) =~= all);
        self.connections = conns;
        let ghost nodes_before = self.nodes@;
        self.nodes.remove(idx);
        self.touch();
        proof {
            assert forall|k: int| 0 <= k < self.nodes@.len() && wf implies node_wf(
                #[trigger] self.nodes@[k],
            ) by {
                let k2 = if k < idx { k } else { k + 1 };
                assert(self.nodes@[k] == nodes_before[k2]);
            }
        }
        true
    }

    /// Applies the fields present in `update` to the first node with id
    /// `id` and returns it; `None`, with nothing changed, when there is none.
    /// A payload of another variant than the node's type is ignored.
    pub fn update_node(&mut self, id: &str, update: NodeUpdate) -> (r: Option<&Node>)
        ensures
            r is Some <==> node_slot(*old(self), id@) >= 0,
            match r {
                Some(n) => {
                    &&& *n == updated_node(old(self).nodes@[node_slot(*old(self), id@)], update)
                    &&& final(self).nodes@ == old(self).nodes@.update(node_slot(*old(self), id@), *n)
                },
                None => *final(self) == *old(self),
            },
            final(self).connections == old(self).connections,
            final(self).variables == old(self).variables,
            final(self).characters == old(self).characters,
            same_identity(*final(self), *old(self)),
            graph_wf(*old(self)) ==> graph_wf(*final(self)),
    {
        let i = match self.node_index(id) {
            Some(i) => i,
            None => return None,
        };
        let ghost before = self.nodes@;
        let mut node = self.nodes.remove(i);
        let ghost original = node;
        let NodeUpdate { position, technical_name, color, data } = update;
        if let Some(p) = position {
            node.position = p;
        }
        if let Some(t) = technical_name {
            node.technical_name = t;
        }
        if color.is_some() {
            node.color = color;
        }
        if let Some(d) = data {
            if payload_matches(node.node_type, &d) {
                node.data = d;
            }
        }
        assert(node == updated_node(original, update));
        self.nodes.insert(i, node);
        self.touch();
        proof {
            assert(self.nodes@ =~= before.update(i as int, updated_node(original, update)));
            assert forall|k: int| 0 <= k < self.nodes@.len() && graph_wf(*old(self)) implies node_wf(
                #[trigger] self.nodes@[k],
            ) by {
                if k != i {
                    assert(self.nodes@[k] == before[k]);
                } else {
                    assert(node_wf(before[k]));
                }
            }
        }
        Some(&self.nodes[i])
    }

    /// Appends a copy of the first node with id `id` at `position`: a fresh
    /// id, the technical name with `_copy` appended, and fresh ports that
    /// belong to the copy. `None`, with nothing changed, when there is none.
    pub fn clone_node(&mut self, id: &str, position: Position) -> (r: Option<&Node>)
        ensures
            r is Some <==> node_slot(*old(self), id@) >= 0,
            match r {
                Some(n) => {
                    let o = old(self).nodes@[node_slot(*old(self), id@)];
                    &&& final(self).nodes@ == old(self).nodes@.push(*n)
                    &&& n.node_type == o.node_type
                    &&& n.position == position
                    &&& n.size == o.size
                    &&& n.technical_name@ == o.technical_name@ + "_copy"@
                    &&& same_payload(o.data, n.data)
                    &&& opt_text(n.color) == opt_text(o.color)
                    &&& opt_text(n.parent_id) == opt_text(o.parent_id)
                    &&& n.input_ports@.len() == o.input_ports@.len()
                    &&& n.output_ports@.len() == o.output_ports@.len()
                    &&& forall|k: int| 0 <= k < n.input_ports@.len() ==> opt_text(
                        #[trigger] n.input_ports@[k].label,
                    ) == opt_text(o.input_ports@[k].label)
                    &&& forall|k: int| 0 <= k < n.output_ports@.len() ==> opt_text(
                        #[trigger] n.output_ports@[k].label,
                    ) == opt_text(o.output_ports@[k].label)
                    &&& exists|t: u64, x: u64| x <= 0xFF_FFFF && n.id@ == short_id_text(t, x, old(self).id_counter.next)
                    &&& ports_wf(n.input_ports@, n.id@, PortType::Input)
                    &&& ports_wf(n.output_ports@, n.id@, PortType::Output)
                    &&& (graph_wf(*old(self)) ==> node_wf(*n))
                },
                None => *final(self) == *old(self),
            },
            final(self).connections == old(self).connections,
            final(self).variables == old(self).variables,
            final(self).characters == old(self).characters,
            same_identity(*final(self), *old(self)),
            graph_wf(*old(self)) ==> graph_wf(*final(self)),
    {
        let i = match self.node_index(id) {
            Some(i) => i,
            None => return None,
        };
        let ghost wf = graph_wf(*old(self));
        let new_id = generate_id(&mut self.id_counter);
        let o = &self.nodes[i];
        let mut technical = copy_text(&o.technical_name);
        technical.append("_copy");
        let mut ids = self.id_counter;
        let input_ports = copy_ports(&o.input_ports, &new_id, PortType::Input, &mut ids);
        let output_ports = copy_ports(&o.output_ports, &new_id, PortType::Output, &mut ids);
        let copy = Node {
            id: new_id,
            technical_name: technical,
            node_type: o.node_type,
            position,
            size: o.size,
            input_ports,
            output_ports,
            data: copy_payload(&o.data),
            color: copy_opt_text(&o.color),
            parent_id: copy_opt_text(&o.parent_id),
            metadata: o.metadata.clone(),
        };
        self.id_counter = ids;
        self.nodes.push(copy);
        self.touch();
        let n = self.nodes.len();
        proof {
            assert forall|k: int| 0 <= k < self.nodes@.len() && wf implies node_wf(
                #[trigger] self.nodes@[k],
            ) by {
                if k < n - 1 {
                    assert(self.nodes@[k] == old(self).nodes@[k]);
                }
            }
        }
        Some(&self.nodes[n - 1])
    }

    /// Position of the first character with id `id`.
    fn character_index(&self, id: &str) -> (r: Option<usize>)
        ensures
            match r {
                Some(i) => i as int == first_from(character_ids(*self), id@, 0) && i
                    < self.characters@.len() && self.characters@[i as int].id@ == id@,
                None => first_from(character_ids(*self), id@, 0) == -1,
            },
    {
        let key = id.to_owned();
        let mut i: usize = 0;
        while i < self.characters.len()
            invariant
                i <= self.characters@.len(),
                key@ == id@,
                first_from(character_ids(*self), id@, 0) == first_from(character_ids(*self), id@, i as int),
            decreases self.characters@.len() - i,
        {
            if self.characters[i].id == key {
                return Some(i);
            }
            i = i + 1;
        }
        None
    }

    /// Appends a character named `display_name` with a fresh id and
    /// composite id, and returns it.
    pub fn add_character(&mut self, display_name: &str, color: &str) -> (r: &Character)
        ensures
            final(self).characters@ == old(self).characters@.push(*r),
            r.display_name@ == display_name@,
            r.technical_name@ == technical_name(display_name@),
            r.color@ == color@,
            r.preview_image is None,
            exists|t: u64, x: u64| x <= 0xFF_FFFF && r.id@ == short_id_text(t, x, old(self).id_counter.next),
            crate::id::serial_part(r.articy_id) == crate::id::next_serial(old(self).id_counter.next) & 0xFFFF_FFFFu64,
            final(self).nodes == old(self).nodes,
            final(self).connections == old(self).connections,
            final(self).variables == old(self).variables,
            same_identity(*final(self), *old(self)),
            graph_wf(*old(self)) ==> graph_wf(*final(self)),
    {
        let id = generate_id(&mut self.id_counter);
        let articy_id = ArticyId::new(&mut self.id_counter);
        let character = Character {
            id,
            articy_id,
            technical_name: to_technical_name(display_name),
            display_name: display_name.to_owned(),
            color: color.to_owned(),
            preview_image: None,
        };
        self.characters.push(character);
        self.touch();
        let n = self.characters.len();
        &self.characters[n - 1]
    }

    /// The first character with id `id`.
    pub fn get_character(&self, id: &str) -> (r: Option<&Character>)
        ensures
            match r {
                Some(c) => first_from(character_ids(*self), id@, 0) >= 0
                    && *c == self.characters@[first_from(character_ids(*self), id@, 0)],
                None => first_from(character_ids(*self), id@, 0) == -1,
            },
    {
        match self.character_index(id) {
            Some(i) => Some(&self.characters[i]),
            None => None,
        }
    }

    /// Applies the fields present in `update` to the first character with
    /// id `id`; a new display name also renews the technical name.
    pub fn update_character(&mut self, id: &str, update: CharacterUpdate) -> (r: Option<&Character>)
        ensures
            r is Some <==> first_from(character_ids(*old(self)), id@, 0) >= 0,
            match r {
                Some(c) => {
                    let slot = first_from(character_ids(*old(self)), id@, 0);
                    let o = old(self).characters@[slot];
                    &&& final(self).characters@ == old(self).characters@.update(slot, *c)
                    &&& c.id == o.id
                    &&& c.articy_id == o.articy_id
                    &&& c.preview_image == o.preview_image
                    &&& c.display_name@ == (if update.display_name is Some { update.display_name->0@ } else { o.display_name@ })
                    &&& c.technical_name@ == (if update.display_name is Some { technical_name(update.display_name->0@) } else { o.technical_name@ })
                    &&& c.color@ == (if update.color is Some { update.color->0@ } else { o.color@ })
                },
                None => *final(self) == *old(self),
            },
            final(self).nodes == old(self).nodes,
            final(self).connections == old(self).connections,
            final(self).variables == old(self).variables,
            same_identity(*final(self), *old(self)),
            graph_wf(*old(self)) ==> graph_wf(*final(self)),
    {
        let i = match self.character_index(id) {
            Some(i) => i,
            None => return None,
        };
        let ghost before = self.characters@;
        let mut c = self.characters.remove(i);
        let CharacterUpdate { display_name, color } = update;
        if let Some(name) = display_name {
            c.technical_name = to_technical_name(name.as_str());
            c.display_name = name;
        }
        if let Some(col) = color {
            c.color = col;
        }
        self.characters.insert(i, c);
        self.touch();
        assert(self.characters@ =~= before.update(i as int, self.characters@[i as int]));
        Some(&self.characters[i])
    }

    /// Removes the first character with id `id`; false when there is none.
    pub fn remove_character(&mut self, id: &str) -> (r: bool)
        ensures
            r == (first_from(character_ids(*old(self)), id@, 0) >= 0),
            r ==> final(self).characters@ == old(self).characters@.remove(
                first_from(character_ids(*old(self)), id@, 0),
            ),
            !r ==> *final(self) == *old(self),
            final(self).nodes == old(self).nodes,
            final(self).connections == old(self).connections,
            final(self).variables == old(self).variables,
            same_identity(*final(self), *old(self)),
            graph_wf(*old(self)) ==> graph_wf(*final(self)),
    {
        match self.character_index(id) {
            Some(i) => {
                self.characters.remove(i);
                self.touch();
                true
            },
            None => false,
        }
    }

    /// Position of the first variable namespace named `name`.
    fn namespace_index(&self, name: &str) -> (r: Option<usize>)
        ensures
            match r {
                Some(i) => i as int == first_from(namespace_names(*self), name@, 0) && i
                    < self.variables@.len() && self.variables@[i as int].name@ == name@,
                None => first_from(namespace_names(*self), name@, 0) == -1,
            },
    {
        let key = name.to_owned();
        let mut i: usize = 0;
        while i < self.variables.len()
            invariant
                i <= self.variables@.len(),
                key@ == name@,
                first_from(namespace_names(*self), name@, 0) == first_from(namespace_names(*self), name@, i as int),
            decreases self.variables@.len() - i,
        {
            if self.variables[i].name == key {
                return Some(i);
            }
            i = i + 1;
        }
        None
    }

    /// Appends an empty variable namespace named `name` and returns it.
    pub fn add_variable_namespace(&mut self, name: &str) -> (r: &VariableNamespace)
        ensures
            final(self).variables@ == old(self).variables@.push(*r),
            r.name@ == name@,
            r.description is None,
            r.variables@.len() == 0,
            final(self).nodes == old(self).nodes,
            final(self).connections == old(self).connections,
            final(self).characters == old(self).characters,
            same_identity(*final(self), *old(self)),
            graph_wf(*old(self)) ==> graph_wf(*final(self)),
    {
        let ns = VariableNamespace { name: name.to_owned(), description: None, variables: Vec::new() };
        self.variables.push(ns);
        self.touch();
        let n = self.variables.len();
        &self.variables[n - 1]
    }

    /// The first variable namespace named `name`.
    pub fn get_variable_namespace(&self, name: &str) -> (r: Option<&VariableNamespace>)
        ensures
            match r {
                Some(ns) => first_from(namespace_names(*self), name@, 0) >= 0
                    && *ns == self.variables@[first_from(namespace_names(*self), name@, 0)],
                None => first_from(namespace_names(*self), name@, 0) == -1,
            },
    {
        match self.namespace_index(name) {
            Some(i) => Some(&self.variables[i]),
            None => None,
        }
    }

    /// Adds a variable to the first namespace named `namespace` and returns
    /// it; `None`, with nothing changed, when there is no such namespace.
    pub fn add_variable(&mut self, namespace: &str, name: &str, var_type: VariableType, default_value: serde_json::Value) -> (r: Option<&Variable>)
        ensures
            r is Some <==> first_from(namespace_names(*old(self)), namespace@, 0) >= 0,
            match r {
                Some(v) => {
                    let slot = first_from(namespace_names(*old(self)), namespace@, 0);
                    let o = old(self).variables@[slot];
                    &&& final(self).variables@.len() == old(self).variables@.len()
                    &&& forall|k: int| 0 <= k < final(self).variables@.len() && k != slot ==> #[trigger] final(self).variables@[k] == old(self).variables@[k]
                    &&& final(self).variables@[slot].name == o.name
                    &&& final(self).variables@[slot].description == o.description
                    &&& final(self).variables@[slot].variables@ == o.variables@.push(*v)
                    &&& v.namespace@ == namespace@
                    &&& v.name@ == name@
                    &&& v.variable_type == var_type
                    &&& v.default_value == default_value
                    &&& v.description is None
                },
                None => *final(self) == *old(self),
            },
            final(self).nodes == old(self).nodes,
            final(self).connections == old(self).connections,
            final(self).characters == old(self).characters,
            same_identity(*final(self), *old(self)),
            graph_wf(*old(self)) ==> graph_wf(*final(self)),
    {
        let i = match self.namespace_index(namespace) {
            Some(i) => i,
            None => return None,
        };
        let ghost before = self.variables@;
        let mut ns = self.variables.remove(i);
        let mut ids = self.id_counter;
        ns.add_variable(name, var_type, default_value, &mut ids);
        self.id_counter = ids;
        self.variables.insert(i, ns);
        self.touch();
        proof {
            assert forall|k: int| 0 <= k < self.variables@.len() && k != i implies #[trigger] self.variables@[k] == before[k] by {}
        }
        let m = self.variables[i].variables.len();
        Some(&self.variables[i].variables[m - 1])
    }
}

// ---------------------------------------------------------------------------
// Laws of connectivity
// ---------------------------------------------------------------------------

/// A node can never be connected to itself.
pub proof fn lemma_self_connection_rejected(g: DialogueGraph, id: Seq<char>, from_port: usize, to_port: usize)
    ensures
        !can_connect_spec(g, id, from_port, id, to_port),
{
}

/// An input port that a connection already ends at accepts no other
/// connection.
pub proof fn lemma_occupied_input_rejected(
    g: DialogueGraph,
    from: Seq<char>,
    from_port: usize,
    to: Seq<char>,
    to_port: usize,
    k: int,
)
    requires
        0 <= k < g.connections@.len(),
        g.connections@[k].to_node_id@ == to,
        g.connections@[k].to_port_index == to_port,
    ensures
        !can_connect_spec(g, from, from_port, to, to_port),
{
}

/// The connections left after removing node `id` are those that did not
/// touch it: none that remains touches it, and every one that did not
/// touch it remains.
pub proof fn lemma_cascade_removes_exactly(cs: Seq<Connection>, id: Seq<char>)
    ensures
        forall|i: int|
            0 <= i < cs.filter(keeps_away_from(id)).len() ==> !touches(
                #[trigger] cs.filter(keeps_away_from(id))[i],
                id,
            ),
        forall|i: int|
            0 <= i < cs.len() && !touches(cs[i], id) ==> #[trigger] cs.filter(
                keeps_away_from(id),
            ).contains(cs[i]),
{
    broadcast use vstd::seq_lib::group_filter_ensures;
    let pred = keeps_away_from(id);
    assert forall|i: int| 0 <= i < cs.filter(pred).len() implies !touches(
        #[trigger] cs.filter(pred)[i],
        id,
    ) by {
        cs.lemma_filter_pred(pred, i);
    }
    assert forall|i: int| 0 <= i < cs.len() && !touches(cs[i], id) implies #[trigger] cs.filter(
        pred,
    ).contains(cs[i]) by {
        cs.lemma_filter_contains(pred, i);
    }
}

} // verus!
