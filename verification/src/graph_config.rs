//! The layout of a data transformation graph: which operations become which graph nodes,
//! which pins the connections use, and which operations run which module.

use vstd::prelude::*;

use crate::text::{chars_of, lemma_less_irreflexive, lemma_less_total, lemma_less_transitive, seq_less, str_equals, str_less};
use crate::token_map::TokenMap;

verus! {

/// The kind of an operation in a graph definition.
#[derive(PartialEq, Eq, Structural, Debug, Clone, Copy)]
pub enum OperationKind {
    Source,
    Sink,
    Mapper,
    Filter,
    Branch,
    Concatenate,
    Accumulate,
    Delay,
}

/// An operation of a graph definition.
pub struct GraphModule {
    pub name: String,
    pub operation_type: OperationKind,
    pub module: Option<String>,
}

/// Which output of a branch a connection leaves from.
#[derive(PartialEq, Eq, Structural, Debug, Clone, Copy)]
pub enum BranchArm {
    True,
    False,
}

/// Where a connection leaves from.
pub struct ConnectionFrom {
    pub name: String,
    pub arm: Option<BranchArm>,
}

/// Where a connection arrives.
pub struct ConnectionTo {
    pub name: String,
}

/// A connection between two operations.
pub struct GraphConnection {
    pub from: ConnectionFrom,
    pub to: ConnectionTo,
}

/// A graph definition: its operations and the connections between them.
pub struct GraphDefinition {
    pub operations: Vec<GraphModule>,
    pub connections: Vec<GraphConnection>,
}

/// A node of the graph layout.
pub struct GraphNode {
    pub id: String,
    pub operator: OperationKind,
}

/// A connection of the graph layout, from an output pin to an input pin.
pub struct PinConnection {
    pub from_id: String,
    pub output_pin: usize,
    pub to_id: String,
    pub input_pin: usize,
}

/// The layout of a graph: the module of each operation that runs one, the nodes (each once,
/// in the order of their ids), and the connections in the order of the definition.
///
/// The nodes are a `Vec` kept in the order of their ids, the order in which a `BTreeSet` of
/// nodes gives them back. A `BTreeSet` of a struct orders by a derived `Ord`, which Verus
/// does not read, so nothing could be proved of the order it gives; kept by hand, the order
/// and the absence of repeats are stated and proved.
pub struct GraphLayout {
    pub module_names: TokenMap,
    pub nodes: Vec<GraphNode>,
    pub connections: Vec<PinConnection>,
}

/// The operation named `name`: the last one of that name.
pub open spec fn operation_named(ops: Seq<GraphModule>, name: Seq<char>) -> Option<GraphModule>
    decreases ops.len(),
{
    if ops.len() == 0 {
        None
    } else if ops.last().name@ == name {
        Some(ops.last())
    } else {
        operation_named(ops.drop_last(), name)
    }
}

/// Operations of this kind run a module.
pub open spec fn runs_module(k: OperationKind) -> bool {
    k is Mapper || k is Filter || k is Branch || k is Accumulate || k is Delay
}

/// The connection joins operations that exist, leaves no sink, enters no source, and every
/// operation it joins that runs a module names one.
pub open spec fn connection_ok(ops: Seq<GraphModule>, c: GraphConnection) -> bool {
    match (operation_named(ops, c.from.name@), operation_named(ops, c.to.name@)) {
        (Some(f), Some(t)) => {
            &&& !(f.operation_type is Sink)
            &&& runs_module(f.operation_type) ==> f.module is Some
            &&& !(t.operation_type is Source)
            &&& runs_module(t.operation_type) ==> t.module is Some
        },
        _ => false,
    }
}

/// Every connection of the definition is fine: the layout can be made.
pub open spec fn graph_ok(def: GraphDefinition) -> bool {
    forall|i: int| 0 <= i < def.connections@.len() ==> connection_ok(def.operations@, #[trigger] def.connections@[i])
}

/// The module that the operation named `name` runs.
pub open spec fn module_of(ops: Seq<GraphModule>, name: Seq<char>) -> Seq<char> {
    operation_named(ops, name)->Some_0.module->Some_0@
}

/// The kind of the operation named `name`.
pub open spec fn kind_of(ops: Seq<GraphModule>, name: Seq<char>) -> OperationKind {
    operation_named(ops, name)->Some_0.operation_type
}

/// `m` with the module of the operation named `name`, where it runs one.
pub open spec fn with_module(ops: Seq<GraphModule>, m: Map<Seq<char>, Seq<char>>, name: Seq<char>) -> Map<Seq<char>, Seq<char>> {
    if runs_module(kind_of(ops, name)) {
        m.insert(name, module_of(ops, name))
    } else {
        m
    }
}

/// The modules that the layout names for the connections `conns`, each connection adding
/// its source and then its destination.
pub open spec fn layout_modules(ops: Seq<GraphModule>, conns: Seq<GraphConnection>) -> Map<Seq<char>, Seq<char>>
    decreases conns.len(),
{
    if conns.len() == 0 {
        Map::empty()
    } else {
        let c = conns.last();
        with_module(ops, with_module(ops, layout_modules(ops, conns.drop_last()), c.from.name@), c.to.name@)
    }
}

/// The node for the operation named `name`.
pub open spec fn node_for(ops: Seq<GraphModule>, name: Seq<char>) -> (Seq<char>, OperationKind) {
    (name, kind_of(ops, name))
}

/// The nodes of the layout: one for each operation that a connection joins.
pub open spec fn layout_nodes(ops: Seq<GraphModule>, conns: Seq<GraphConnection>) -> Set<(Seq<char>, OperationKind)> {
    Set::new(
        |n: (Seq<char>, OperationKind)|
            exists|i: int|
                0 <= i < conns.len() && (n == node_for(ops, (#[trigger] conns[i]).from.name@) || n == node_for(
                    ops,
                    conns[i].to.name@,
                )),
    )
}

/// The output pin that a connection leaves from: 1 for the `True` arm of a branch, else 0.
pub open spec fn output_pin_of(k: OperationKind, arm: Option<BranchArm>) -> usize {
    if k is Branch && arm == Some(BranchArm::True) {
        1
    } else {
        0
    }
}

/// The layout connection for a definition connection.
pub open spec fn layout_connection(ops: Seq<GraphModule>, c: GraphConnection) -> (Seq<char>, usize, Seq<char>, usize) {
    (c.from.name@, output_pin_of(kind_of(ops, c.from.name@), c.from.arm), c.to.name@, 0)
}

/// The view of a layout node.
pub open spec fn node_view(n: GraphNode) -> (Seq<char>, OperationKind) {
    (n.id@, n.operator)
}

/// The view of a layout connection.
pub open spec fn pin_connection_view(p: PinConnection) -> (Seq<char>, usize, Seq<char>, usize) {
    (p.from_id@, p.output_pin, p.to_id@, p.input_pin)
}

/// Pushing onto a sequence adds the element to its set.
proof fn lemma_push_to_set<A>(s: Seq<A>, x: A)
    ensures
        s.push(x).to_set() == s.to_set().insert(x),
{
    let t = s.push(x);
    assert forall|y: A| #[trigger] t.to_set().contains(y) <==> s.to_set().insert(x).contains(y) by {
        if t.contains(y) {
            let j = choose|j: int| 0 <= j < t.len() && t[j] == y;
            if j < s.len() {
                assert(s[j] == y);
            }
        }
        if s.contains(y) {
            let j = choose|j: int| 0 <= j < s.len() && s[j] == y;
            assert(t[j] == y);
        }
        if y == x {
            assert(t[s.len() as int] == x);
        }
    }
    assert(t.to_set() =~= s.to_set().insert(x));
}

/// The index of the last operation named `name`.
fn find_operation(ops: &Vec<GraphModule>, name: &String) -> (r: Option<usize>)
    ensures
        match r {
            Some(i) => i < ops@.len() && operation_named(ops@, name@) == Some(ops@[i as int]),
            None => operation_named(ops@, name@) is None,
        },
{
    let mut i = ops.len();
    proof {
        assert(ops@.take(i as int) =~= ops@);
    }
    while i > 0
        invariant
            i <= ops@.len(),
            operation_named(ops@, name@) == operation_named(ops@.take(i as int), name@),
        decreases i,
    {
        let j = i - 1;
        proof {
            assert(ops@.take(i as int).drop_last() =~= ops@.take(j as int));
            assert(ops@.take(i as int).last() == ops@[j as int]);
        }
        if ops[j].name == *name {
            return Some(j);
        }
        i = j;
    }
    None
}

/// The nodes come in the order of their ids.
pub open spec fn ids_increasing(nodes: Seq<GraphNode>) -> bool {
    forall|a: int, b: int| 0 <= a < b < nodes.len() ==> seq_less(nodes[a].id@, nodes[b].id@)
}

/// Each node carries the kind of the operation its id names.
pub open spec fn nodes_of(ops: Seq<GraphModule>, nodes: Seq<GraphNode>) -> bool {
    forall|p: int| 0 <= p < nodes.len() ==> (#[trigger] nodes[p]).operator == kind_of(ops, nodes[p].id@)
}

/// Inserting into a sequence adds the element to its set.
proof fn lemma_insert_to_set<A>(s: Seq<A>, i: int, x: A)
    requires
        0 <= i <= s.len(),
    ensures
        s.insert(i, x).to_set() == s.to_set().insert(x),
{
    let t = s.insert(i, x);
    s.insert_ensures(i, x);
    assert forall|y: A| #[trigger] t.to_set().contains(y) <==> s.to_set().insert(x).contains(y) by {
        if t.contains(y) {
            let j = choose|j: int| 0 <= j < t.len() && t[j] == y;
            if j < i {
                assert(s[j] == y);
            } else if j > i {
                assert(t[(j - 1) + 1] == s[j - 1]);
            }
        }
        if s.contains(y) {
            let j = choose|j: int| 0 <= j < s.len() && s[j] == y;
            if j < i {
                assert(t[j] == y);
            } else {
                assert(t[j + 1] == y);
            }
        }
        if y == x {
            assert(t[i] == x);
        }
    }
    assert(t.to_set() =~= s.to_set().insert(x));
}

/// Adds a node, in the order of ids, unless the layout has it already.
fn add_node(nodes: &mut Vec<GraphNode>, id: &String, operator: OperationKind, Ghost(ops): Ghost<Seq<GraphModule>>)
    requires
        ids_increasing(old(nodes)@),
        nodes_of(ops, old(nodes)@),
        operator == kind_of(ops, id@),
    ensures
        ids_increasing(final(nodes)@),
        nodes_of(ops, final(nodes)@),
        final(nodes)@.map_values(|n: GraphNode| node_view(n)).to_set() == old(nodes)@.map_values(
            |n: GraphNode| node_view(n),
        ).to_set().insert((id@, operator)),
{
    let ghost before = nodes@;
    let mut i: usize = 0;
    while i < nodes.len() && str_less(nodes[i].id.as_str(), id.as_str())
        invariant
            nodes@ == before,
            i <= before.len(),
            forall|j: int| 0 <= j < i ==> seq_less(#[trigger] before[j].id@, id@),
        decreases before.len() - i,
    {
        i = i + 1;
    }
    if i < nodes.len() && str_equals(nodes[i].id.as_str(), id.as_str()) {
        proof {
            let s = before.map_values(|n: GraphNode| node_view(n));
            assert(before[i as int].operator == kind_of(ops, before[i as int].id@));
            assert(s[i as int] == (id@, operator));
            assert(s.to_set() =~= s.to_set().insert((id@, operator)));
        }
        return;
    }
    proof {
        if i < before.len() {
            lemma_less_total(before[i as int].id@, id@);
            assert forall|j: int| i <= j < before.len() implies seq_less(id@, #[trigger] before[j].id@) by {
                if j > i {
                    lemma_less_transitive(id@, before[i as int].id@, before[j].id@);
                }
            }
        }
    }
    let node = GraphNode { id: id.clone(), operator };
    nodes.insert(i, node);
    proof {
        before.insert_ensures(i as int, node);
        let t = nodes@;
        assert forall|a: int, b: int| 0 <= a < b < t.len() implies seq_less(t[a].id@, t[b].id@) by {
            if b < i {
                assert(t[a] == before[a] && t[b] == before[b]);
            } else if b == i {
                assert(t[a] == before[a]);
            } else if a < i {
                assert(t[a] == before[a]);
                assert(t[(b - 1) + 1] == before[b - 1]);
                lemma_less_transitive(before[a].id@, id@, before[b - 1].id@);
            } else if a == i {
                assert(t[(b - 1) + 1] == before[b - 1]);
            } else {
                assert(t[(a - 1) + 1] == before[a - 1]);
                assert(t[(b - 1) + 1] == before[b - 1]);
            }
        }
        assert forall|p: int| 0 <= p < t.len() implies (#[trigger] t[p]).operator == kind_of(ops, t[p].id@) by {
            if p < i {
                assert(t[p] == before[p]);
            } else if p > i {
                assert(t[(p - 1) + 1] == before[p - 1]);
            }
        }
        let sv = before.map_values(|n: GraphNode| node_view(n));
        let tv = t.map_values(|n: GraphNode| node_view(n));
        sv.insert_ensures(i as int, (id@, operator));
        assert(tv =~= sv.insert(i as int, (id@, operator))) by {
            assert forall|j: int| 0 <= j < tv.len() implies tv[j] == sv.insert(i as int, (id@, operator))[j] by {
                if j > i {
                    assert(t[(j - 1) + 1] == before[j - 1]);
                    assert(sv.insert(i as int, (id@, operator))[(j - 1) + 1] == sv[j - 1]);
                }
            }
        }
        lemma_insert_to_set(sv, i as int, (id@, operator));
    }
}

/// Lays out a graph definition: for each connection, in order, the operation it leaves and
/// the one it enters become nodes (each node once, the nodes in the order of their ids), the
/// modules of those that run one are
/// recorded by operation name, and the connection joins the source's output pin (1 for the
/// `True` arm of a branch, else 0) to input pin 0 of the destination.
pub fn make_graph_config(config_graph: GraphDefinition) -> (r: GraphLayout)
    requires
        graph_ok(config_graph),
    ensures
        r.module_names@ == layout_modules(config_graph.operations@, config_graph.connections@),
        r.nodes@.map_values(|n: GraphNode| node_view(n)).to_set() == layout_nodes(
            config_graph.operations@,
            config_graph.connections@,
        ),
        forall|a: int, b: int| 0 <= a < b < r.nodes@.len() ==> node_view(r.nodes@[a]) != node_view(r.nodes@[b]),
        ids_increasing(r.nodes@),
        r.connections@.map_values(|p: PinConnection| pin_connection_view(p)) == config_graph.connections@.map_values(
            |c: GraphConnection| layout_connection(config_graph.operations@, c),
        ),
{
    let ghost ops = config_graph.operations@;
    let ghost conns = config_graph.connections@;
    let mut module_names = TokenMap::new();
    let mut nodes: Vec<GraphNode> = Vec::new();
    let mut connections: Vec<PinConnection> = Vec::new();
    let mut i: usize = 0;
    while i < config_graph.connections.len()
        invariant
            ops == config_graph.operations@,
            conns == config_graph.connections@,
            graph_ok(config_graph),
            i <= conns.len(),
            module_names@ == layout_modules(ops, conns.take(i as int)),
            nodes@.map_values(|n: GraphNode| node_view(n)).to_set() == layout_nodes(ops, conns.take(i as int)),
            ids_increasing(nodes@),
            nodes_of(ops, nodes@),
            connections@.map_values(|p: PinConnection| pin_connection_view(p)) == conns.take(i as int).map_values(
                |c: GraphConnection| layout_connection(ops, c),
            ),
        decreases conns.len() - i,
    {
        let c = &config_graph.connections[i];
        assert(connection_ok(ops, conns[i as int]));
        let fi = find_operation(&config_graph.operations, &c.from.name).unwrap();
        let ti = find_operation(&config_graph.operations, &c.to.name).unwrap();
        let f = &config_graph.operations[fi];
        let t = &config_graph.operations[ti];
        let ghost before_modules = module_names@;
        let ghost before_nodes = nodes@.map_values(|n: GraphNode| node_view(n)).to_set();
        let ghost before_connections = connections@.map_values(|p: PinConnection| pin_connection_view(p));

        // The operation the connection leaves
        assert(kind_of(ops, c.from.name@) == f.operation_type);
        add_node(&mut nodes, &c.from.name, f.operation_type, Ghost(ops));
        let output_pin: usize = match f.operation_type {
            OperationKind::Branch => {
                match c.from.arm {
                    Some(BranchArm::True) => 1,
                    _ => 0,
                }
            },
            _ => 0,
        };
        if f.operation_type == OperationKind::Mapper || f.operation_type == OperationKind::Filter
            || f.operation_type == OperationKind::Branch || f.operation_type == OperationKind::Accumulate
            || f.operation_type == OperationKind::Delay {
            let module = f.module.as_ref().unwrap();
            module_names.insert(c.from.name.clone(), module.clone());
        }
        let ghost mid_modules = module_names@;

        // The operation the connection enters
        assert(kind_of(ops, c.to.name@) == t.operation_type);
        add_node(&mut nodes, &c.to.name, t.operation_type, Ghost(ops));
        if t.operation_type == OperationKind::Mapper || t.operation_type == OperationKind::Filter
            || t.operation_type == OperationKind::Branch || t.operation_type == OperationKind::Accumulate
            || t.operation_type == OperationKind::Delay {
            let module = t.module.as_ref().unwrap();
            module_names.insert(c.to.name.clone(), module.clone());
        }
        connections.push(
            PinConnection {
                from_id: c.from.name.clone(),
                output_pin,
                to_id: c.to.name.clone(),
                input_pin: 0,
            },
        );
        proof {
            let tk = conns.take(i as int);
            let tk1 = conns.take(i + 1);
            assert(tk1.drop_last() =~= tk);
            assert(tk1.last() == conns[i as int]);
            assert(mid_modules == with_module(ops, before_modules, c.from.name@));
            assert(module_names@ == with_module(ops, mid_modules, c.to.name@));
            assert(layout_nodes(ops, tk1) =~= layout_nodes(ops, tk).insert(node_for(ops, c.from.name@)).insert(
                node_for(ops, c.to.name@),
            )) by {
                assert forall|n: (Seq<char>, OperationKind)| layout_nodes(ops, tk1).contains(n) implies layout_nodes(
                    ops,
                    tk,
                ).insert(node_for(ops, c.from.name@)).insert(node_for(ops, c.to.name@)).contains(n) by {
                    let j = choose|j: int|
                        0 <= j < tk1.len() && (n == node_for(ops, (#[trigger] tk1[j]).from.name@) || n == node_for(
                            ops,
                            tk1[j].to.name@,
                        ));
                    if j < i {
                        assert(tk[j] == tk1[j]);
                    }
                }
                assert forall|n: (Seq<char>, OperationKind)| layout_nodes(ops, tk).insert(
                    node_for(ops, c.from.name@),
                ).insert(node_for(ops, c.to.name@)).contains(n) implies layout_nodes(ops, tk1).contains(n) by {
                    if layout_nodes(ops, tk).contains(n) {
                        let j = choose|j: int|
                            0 <= j < tk.len() && (n == node_for(ops, (#[trigger] tk[j]).from.name@) || n == node_for(
                                ops,
                                tk[j].to.name@,
                            ));
                        assert(tk1[j] == tk[j]);
                    } else {
                        assert(tk1[i as int] == conns[i as int]);
                    }
                }
            }
            assert(kind_of(ops, c.from.name@) == f.operation_type);
            assert(pin_connection_view(connections@.last()) == layout_connection(ops, conns[i as int]));
            assert(connections@.map_values(|p: PinConnection| pin_connection_view(p)) =~= before_connections.push(
                layout_connection(ops, conns[i as int]),
            ));
            assert(tk1.map_values(|c: GraphConnection| layout_connection(ops, c)) =~= tk.map_values(
                |c: GraphConnection| layout_connection(ops, c),
            ).push(layout_connection(ops, conns[i as int])));
        }
        i = i + 1;
    }
    proof {
        assert(conns.take(conns.len() as int) =~= conns);
        assert forall|a: int, b: int| 0 <= a < b < nodes@.len() implies node_view(nodes@[a]) != node_view(
            nodes@[b],
        ) by {
            lemma_less_irreflexive(nodes@[a].id@);
        }
    }
    GraphLayout { module_names, nodes, connections }
}

/// The operation `name` is joined by one of the connections `conns`.
pub open spec fn is_joined(conns: Seq<GraphConnection>, name: Seq<char>) -> bool {
    exists|i: int| 0 <= i < conns.len() && ((#[trigger] conns[i]).from.name@ == name || conns[i].to.name@ == name)
}

/// The modules listed for `conns` are exactly those of the joined operations that run one.
proof fn lemma_layout_modules(ops: Seq<GraphModule>, conns: Seq<GraphConnection>)
    ensures
        forall|k: Seq<char>|
            #[trigger] layout_modules(ops, conns).contains_key(k) <==> is_joined(conns, k) && runs_module(kind_of(ops, k)),
        forall|k: Seq<char>|
            #[trigger] layout_modules(ops, conns).contains_key(k) ==> layout_modules(ops, conns)[k] == module_of(ops, k),
    decreases conns.len(),
{
    if conns.len() > 0 {
        let d = conns.drop_last();
        let c = conns.last();
        lemma_layout_modules(ops, d);
        assert forall|k: Seq<char>| #[trigger] is_joined(conns, k) <==> is_joined(d, k) || k == c.from.name@ || k == c.to.name@ by {
            if is_joined(conns, k) {
                let i = choose|i: int| 0 <= i < conns.len() && ((#[trigger] conns[i]).from.name@ == k || conns[i].to.name@ == k);
                if i < d.len() {
                    assert(d[i] == conns[i]);
                }
            }
            if is_joined(d, k) {
                let i = choose|i: int| 0 <= i < d.len() && ((#[trigger] d[i]).from.name@ == k || d[i].to.name@ == k);
                assert(conns[i] == d[i]);
            }
            if k == c.from.name@ || k == c.to.name@ {
                assert(conns[conns.len() - 1] == c);
            }
        }
        let ld = layout_modules(ops, d);
        let l1 = with_module(ops, ld, c.from.name@);
        let l = with_module(ops, l1, c.to.name@);
        assert(layout_modules(ops, conns) == l);
        assert forall|k: Seq<char>| #[trigger] l.contains_key(k) <==> is_joined(conns, k) && runs_module(kind_of(ops, k)) by {
            assert(is_joined(conns, k) <==> is_joined(d, k) || k == c.from.name@ || k == c.to.name@);
            assert(ld.contains_key(k) <==> is_joined(d, k) && runs_module(kind_of(ops, k)));
        }
        assert forall|k: Seq<char>| #[trigger] l.contains_key(k) implies l[k] == module_of(ops, k) by {
            assert(ld.contains_key(k) ==> ld[k] == module_of(ops, k));
        }
    } else {
        assert forall|k: Seq<char>| !#[trigger] is_joined(conns, k) by {}
    }
}

/// The layout lists a module for exactly the operations that its connections join and that
/// run a module, and the module listed for each is the one its operation names.
pub proof fn law_layout_lists_modules_of_joined_operations(def: GraphDefinition)
    ensures
        forall|k: Seq<char>|
            #[trigger] layout_modules(def.operations@, def.connections@).contains_key(k) <==> is_joined(
                def.connections@,
                k,
            ) && runs_module(kind_of(def.operations@, k)),
        forall|k: Seq<char>|
            #[trigger] layout_modules(def.operations@, def.connections@).contains_key(k) ==> layout_modules(
                def.operations@,
                def.connections@,
            )[k] == module_of(def.operations@, k),
{
    lemma_layout_modules(def.operations@, def.connections@);
}

/// Every connection of the layout joins two of its nodes.
pub proof fn law_layout_connections_join_nodes(def: GraphDefinition)
    ensures
        forall|i: int|
            0 <= i < def.connections@.len() ==> {
                let c = layout_connection(def.operations@, #[trigger] def.connections@[i]);
                &&& layout_nodes(def.operations@, def.connections@).contains((c.0, kind_of(def.operations@, c.0)))
                &&& layout_nodes(def.operations@, def.connections@).contains((c.2, kind_of(def.operations@, c.2)))
            },
{
    let ops = def.operations@;
    let conns = def.connections@;
    assert forall|i: int| 0 <= i < conns.len() implies {
        let c = layout_connection(ops, #[trigger] conns[i]);
        &&& layout_nodes(ops, conns).contains((c.0, kind_of(ops, c.0)))
        &&& layout_nodes(ops, conns).contains((c.2, kind_of(ops, c.2)))
    } by {
        assert(node_for(ops, conns[i].from.name@) == (conns[i].from.name@, kind_of(ops, conns[i].from.name@)));
        assert(node_for(ops, conns[i].to.name@) == (conns[i].to.name@, kind_of(ops, conns[i].to.name@)));
    }
}

/// Whether every connection of the definition is fine, so that it can be laid out.
pub fn graph_definition_is_valid(config_graph: &GraphDefinition) -> (r: bool)
    ensures
        r == graph_ok(*config_graph),
{
    let ghost ops = config_graph.operations@;
    let ghost conns = config_graph.connections@;
    let mut i: usize = 0;
    while i < config_graph.connections.len()
        invariant
            ops == config_graph.operations@,
            conns == config_graph.connections@,
            i <= conns.len(),
            forall|j: int| 0 <= j < i ==> connection_ok(ops, #[trigger] conns[j]),
        decreases conns.len() - i,
    {
        let c = &config_graph.connections[i];
        let fi = find_operation(&config_graph.operations, &c.from.name);
        let ti = find_operation(&config_graph.operations, &c.to.name);
        match (fi, ti) {
            (Some(fi), Some(ti)) => {
                let f = &config_graph.operations[fi];
                let t = &config_graph.operations[ti];
                if f.operation_type == OperationKind::Sink || t.operation_type == OperationKind::Source {
                    return false;
                }
                let f_runs = f.operation_type == OperationKind::Mapper || f.operation_type == OperationKind::Filter
                    || f.operation_type == OperationKind::Branch || f.operation_type == OperationKind::Accumulate
                    || f.operation_type == OperationKind::Delay;
                let t_runs = t.operation_type == OperationKind::Mapper || t.operation_type == OperationKind::Filter
                    || t.operation_type == OperationKind::Branch || t.operation_type == OperationKind::Accumulate
                    || t.operation_type == OperationKind::Delay;
                if (f_runs && f.module.is_none()) || (t_runs && t.module.is_none()) {
                    return false;
                }
            },
            _ => {
                return false;
            },
        }
        i = i + 1;
    }
    true
}

/// The name that a module is subscribed by: its text up to the first `':'`.
pub open spec fn subscription_name(module: Seq<char>) -> Seq<char> {
    module.take(crate::connector_configuration::first_index_of(module, ':'))
}

/// The modules to subscribe to, taken from the operations that name one, in order.
pub open spec fn subscriptions(ops: Seq<GraphModule>) -> Seq<Seq<char>>
    decreases ops.len(),
{
    if ops.len() == 0 {
        Seq::empty()
    } else {
        let rest = subscriptions(ops.drop_last());
        match ops.last().module {
            Some(m) => rest.push(subscription_name(m@)),
            None => rest,
        }
    }
}

/// The modules to subscribe to: for each operation that names a module, in order, the
/// module's name up to its first `':'`.
pub fn modules_to_subscribe(config_graph: &GraphDefinition) -> (r: Vec<String>)
    ensures
        r@.map_values(|s: String| s@) == subscriptions(config_graph.operations@),
{
    let ghost ops = config_graph.operations@;
    let mut r: Vec<String> = Vec::new();
    let mut i: usize = 0;
    while i < config_graph.operations.len()
        invariant
            ops == config_graph.operations@,
            i <= ops.len(),
            r@.map_values(|s: String| s@) == subscriptions(ops.take(i as int)),
        decreases ops.len() - i,
    {
        proof {
            assert(ops.take(i + 1).drop_last() =~= ops.take(i as int));
            assert(ops.take(i + 1).last() == ops[i as int]);
        }
        match &config_graph.operations[i].module {
            Some(name) => {
                let v = chars_of(name.as_str());
                let mut j: usize = 0;
                while j < v.len() && v[j] != ':'
                    invariant
                        v@ == name@,
                        j <= v@.len(),
                        forall|k: int| 0 <= k < j ==> #[trigger] name@[k] != ':',
                    decreases v@.len() - j,
                {
                    j = j + 1;
                }
                proof {
                    crate::connector_configuration::lemma_first_index_at(name@, ':', j as int);
                }
                let prefix = name.as_str().substring_char(0, j);
                let ghost before = r@.map_values(|s: String| s@);
                r.push(prefix.to_owned());
                proof {
                    assert(r@.map_values(|s: String| s@) =~= before.push(subscription_name(name@)));
                }
            },
            None => {},
        }
        i = i + 1;
    }
    proof {
        assert(ops.take(ops.len() as int) =~= ops);
    }
    r
}

// ---------------------------------------------------------------------------------------
// Laws stated over the kinds of operation themselves
// ---------------------------------------------------------------------------------------

/// The operations that run a module are the mappers, filters, branches, accumulators and
/// delays: for each operation that a connection joins (from or to), the layout lists the module it names
/// where it is of one of those kinds, and lists nothing for a source, a sink or a
/// concatenation.
pub proof fn law_layout_records_modules_by_kind(def: GraphDefinition)
    ensures
        forall|n: Seq<char>|
            #[trigger] is_joined(def.connections@, n) && operation_named(def.operations@, n) is Some ==> {
                let op = operation_named(def.operations@, n)->Some_0;
                let k = op.operation_type;
                let m = layout_modules(def.operations@, def.connections@);
                &&& (k == OperationKind::Mapper || k == OperationKind::Filter || k == OperationKind::Branch || k
                    == OperationKind::Accumulate || k == OperationKind::Delay) && op.module is Some
                    ==> m.contains_key(n) && m[n] == op.module->Some_0@
                &&& (k == OperationKind::Source || k == OperationKind::Sink || k == OperationKind::Concatenate)
                    ==> !m.contains_key(n)
            },
{
    let ops = def.operations@;
    let conns = def.connections@;
    lemma_layout_modules(ops, conns);
    assert forall|n: Seq<char>| #[trigger] is_joined(conns, n) && operation_named(ops, n) is Some implies {
        let op = operation_named(ops, n)->Some_0;
        let k = op.operation_type;
        let m = layout_modules(ops, conns);
        &&& (k == OperationKind::Mapper || k == OperationKind::Filter || k == OperationKind::Branch || k
            == OperationKind::Accumulate || k == OperationKind::Delay) && op.module is Some ==> m.contains_key(n)
            && m[n] == op.module->Some_0@
        &&& (k == OperationKind::Source || k == OperationKind::Sink || k == OperationKind::Concatenate)
            ==> !m.contains_key(n)
    } by {
        assert(layout_modules(ops, conns).contains_key(n) <==> is_joined(conns, n) && runs_module(kind_of(ops, n)));
    }
}

/// A graph definition that can be laid out joins only operations that exist, leaves no sink,
/// enters no source, and every mapper, filter, branch, accumulator or delay that it joins
/// names its module.
pub proof fn law_valid_graph_names_modules(def: GraphDefinition)
    requires
        graph_ok(def),
    ensures
        forall|i: int|
            0 <= i < def.connections@.len() ==> {
                let c = #[trigger] def.connections@[i];
                let f = operation_named(def.operations@, c.from.name@);
                let t = operation_named(def.operations@, c.to.name@);
                &&& f is Some && t is Some
                &&& f->Some_0.operation_type != OperationKind::Sink
                &&& t->Some_0.operation_type != OperationKind::Source
                &&& forall|op: GraphModule|
                    (f == Some(op) || t == Some(op)) && (op.operation_type == OperationKind::Mapper
                        || op.operation_type == OperationKind::Filter || op.operation_type == OperationKind::Branch
                        || op.operation_type == OperationKind::Accumulate || op.operation_type
                        == OperationKind::Delay) ==> op.module is Some
            },
{
    assert forall|i: int| 0 <= i < def.connections@.len() implies {
        let c = #[trigger] def.connections@[i];
        let f = operation_named(def.operations@, c.from.name@);
        let t = operation_named(def.operations@, c.to.name@);
        &&& f is Some && t is Some
        &&& f->Some_0.operation_type != OperationKind::Sink
        &&& t->Some_0.operation_type != OperationKind::Source
        &&& forall|op: GraphModule|
            (f == Some(op) || t == Some(op)) && (op.operation_type == OperationKind::Mapper || op.operation_type
                == OperationKind::Filter || op.operation_type == OperationKind::Branch || op.operation_type
                == OperationKind::Accumulate || op.operation_type == OperationKind::Delay) ==> op.module is Some
    } by {
        assert(connection_ok(def.operations@, def.connections@[i]));
    }
}

/// Every connection of the layout leaves its source's output pin (1 for the `True` arm of a
/// branch, 0 otherwise) and enters input pin 0 of its destination, whatever the kind of the
/// destination.
pub proof fn law_layout_connection_pins(ops: Seq<GraphModule>, c: GraphConnection)
    ensures
        layout_connection(ops, c).0 == c.from.name@,
        layout_connection(ops, c).1 == (if kind_of(ops, c.from.name@) == OperationKind::Branch && c.from.arm
            == Some(BranchArm::True) {
            1usize
        } else {
            0usize
        }),
        layout_connection(ops, c).2 == c.to.name@,
        layout_connection(ops, c).3 == 0,
{
}

/// The text of a module up to its first `':'`: a prefix of the module without `':'`, followed
/// by `':'` where the module is longer.
pub proof fn law_subscription_name_is_name_part(module: Seq<char>)
    ensures
        ({
            let t = subscription_name(module);
            &&& t.len() <= module.len()
            &&& t == module.subrange(0, t.len() as int)
            &&& forall|j: int| 0 <= j < t.len() ==> #[trigger] t[j] != ':'
            &&& t.len() < module.len() ==> module[t.len() as int] == ':'
        }),
{
    lemma_first_index_facts(module);
    let i = crate::connector_configuration::first_index_of(module, ':');
    assert(subscription_name(module) =~= module.subrange(0, i));
}

/// `first_index_of` is the index of the first `':'`, or the length where there is none.
proof fn lemma_first_index_facts(m: Seq<char>)
    ensures
        0 <= crate::connector_configuration::first_index_of(m, ':') <= m.len(),
        forall|j: int| 0 <= j < crate::connector_configuration::first_index_of(m, ':') ==> #[trigger] m[j] != ':',
        crate::connector_configuration::first_index_of(m, ':') < m.len() ==> m[crate::connector_configuration::first_index_of(
            m,
            ':',
        )] == ':',
    decreases m.len(),
{
    if m.len() > 0 && m[0] != ':' {
        let d = m.drop_first();
        lemma_first_index_facts(d);
        assert forall|j: int| 0 <= j < crate::connector_configuration::first_index_of(m, ':') implies #[trigger] m[j]
            != ':' by {
            if j > 0 {
                assert(m[j] == d[j - 1]);
            }
        }
    }
}

/// The modules to subscribe to are one entry for each operation that names a module, in the
/// order of the operations (the first one included), each the module's text up to its first
/// `':'`.
pub proof fn law_subscriptions_one_per_module(ops: Seq<GraphModule>)
    ensures
        subscriptions(ops) == ops.filter(|o: GraphModule| o.module is Some).map_values(
            |o: GraphModule| subscription_name(o.module->Some_0@),
        ),
    decreases ops.len(),
{
    let keep = |o: GraphModule| o.module is Some;
    let name = |o: GraphModule| subscription_name(o.module->Some_0@);
    if ops.len() == 0 {
        reveal_with_fuel(Seq::filter, 1);
        assert(ops.filter(keep).map_values(name) =~= Seq::<Seq<char>>::empty());
    } else {
        let d = ops.drop_last();
        law_subscriptions_one_per_module(d);
        assert(d.push(ops.last()) =~= ops);
        d.lemma_filter_push(ops.last(), keep);
        if keep(ops.last()) {
            assert(d.filter(keep).push(ops.last()).map_values(name) =~= d.filter(keep).map_values(name).push(
                name(ops.last()),
            ));
        }
    }
}

/// The nodes of the layout are the operations that the connections join, each with the kind
/// that the definition gives the operation of that name.
pub proof fn law_layout_nodes_are_joined_operations(def: GraphDefinition)
    ensures
        forall|x: (Seq<char>, OperationKind)|
            #[trigger] layout_nodes(def.operations@, def.connections@).contains(x) <==> (is_joined(
                def.connections@,
                x.0,
            ) && x.1 == operation_named(def.operations@, x.0)->Some_0.operation_type),
{
    let ops = def.operations@;
    let conns = def.connections@;
    assert forall|x: (Seq<char>, OperationKind)| #[trigger] layout_nodes(ops, conns).contains(x) <==> (is_joined(
        conns,
        x.0,
    ) && x.1 == operation_named(ops, x.0)->Some_0.operation_type) by {
        if is_joined(conns, x.0) && x.1 == operation_named(ops, x.0)->Some_0.operation_type {
            let i = choose|i: int| 0 <= i < conns.len() && ((#[trigger] conns[i]).from.name@ == x.0 || conns[i].to.name@ == x.0);
            assert(x == node_for(ops, x.0));
        }
        if layout_nodes(ops, conns).contains(x) {
            let i = choose|i: int|
                0 <= i < conns.len() && (x == node_for(ops, (#[trigger] conns[i]).from.name@) || x == node_for(
                    ops,
                    conns[i].to.name@,
                ));
            assert(is_joined(conns, x.0));
        }
    }
}

} // verus!
