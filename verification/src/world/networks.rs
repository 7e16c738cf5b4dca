pub mod network;

use vstd::prelude::*;
use crate::screen::gui::format_units::{format_unit, spec_format_unit};
use crate::world::networks::network::{
    first_at, lemma_build_then_remove_restores, lemma_capacity_bounded, lemma_count_tiles_bounded,
    lemma_count_two_tiles_bounded, lemma_first_at_unique, networkable_nodes, position_index,
    positions_of, spec_has_amounts, spec_is_adjacent, spec_material_composition,
    spec_network_connected, spec_storage_capacity, storage_capacity, Addition, Grams, Liters,
    Network, NetworkView, Node, Replacement, MATERIAL_NEEDED_FOR_A_MACHINE, MAX_NETWORK_NODES,
    MAX_STORAGE_PER_STORAGE_MACHINE, MAX_STORED_AMOUNT, SPACESHIP_INITIAL_STORAGE, WALL_WEIGHT,
};
use crate::world::world_map::cell::{is_networkable, spec_is_networkable, TileType};
use crate::world::world_map::cell_index::CellIndex;
use crate::world::world_map::transform_cells::TransformationFailure;

verus! {

/// The networks of machines: the ship's network, and those not connected to it.
pub struct Networks {
    pub ship_position: CellIndex,
    pub ship_network: Network,
    pub unconnected_networks: Vec<Network>,
    pub air_cleaned: Liters,
}

/// The networks as the contracts see them.
pub struct NetworksView {
    pub ship_position: CellIndex,
    pub ship_network: NetworkView,
    pub unconnected: Seq<NetworkView>,
    pub air_cleaned: int,
}

/// The views of a sequence of networks.
pub open spec fn views(nets: Seq<Network>) -> Seq<NetworkView> {
    nets.map_values(|n: Network| n@)
}

impl View for Networks {
    type V = NetworksView;

    open spec fn view(&self) -> NetworksView {
        NetworksView {
            ship_position: self.ship_position,
            ship_network: self.ship_network@,
            unconnected: views(self.unconnected_networks@),
            air_cleaned: self.air_cleaned as int,
        }
    }
}

/// Whether a node of the network stands next to the cell.
pub open spec fn adjacent_to(n: NetworkView, cell: CellIndex) -> bool {
    exists|k: int| 0 <= k < n.nodes.len() && #[trigger] spec_is_adjacent(n.nodes[k].position, cell)
}

/// Whether one of the networks stands next to the cell.
pub open spec fn any_adjacent(nets: Seq<NetworkView>, cell: CellIndex) -> bool {
    exists|i: int| 0 <= i < nets.len() && #[trigger] adjacent_to(nets[i], cell)
}

/// The network with `node` added if it is a machine or a wire, spending nothing.
pub open spec fn added_free(n: NetworkView, node: Node) -> NetworkView {
    NetworkView {
        nodes: if spec_is_networkable(node.tile) {
            n.nodes.push(node)
        } else {
            n.nodes
        },
        ..n
    }
}

/// The network with the machines and wires of `other` taken in, and not its store.
pub open spec fn joined(n: NetworkView, other: NetworkView) -> NetworkView {
    NetworkView { nodes: n.nodes + networkable_nodes(other.nodes), ..n }
}

/// The network with the nodes of `other` added one by one, spending the material of each.
pub open spec fn added_all(n: NetworkView, nodes: Seq<Node>) -> NetworkView
    decreases nodes.len(),
{
    if nodes.len() == 0 {
        n
    } else {
        added_all(n, nodes.drop_last()).added(nodes.last())
    }
}

/// Number of nodes of the networks.
pub open spec fn nodes_in(nets: Seq<NetworkView>) -> int
    decreases nets.len(),
{
    if nets.len() == 0 {
        0
    } else {
        nodes_in(nets.drop_last()) + nets.last().nodes.len()
    }
}

/// Whether every node of the network is a machine or a wire.
pub open spec fn machines_only(n: NetworkView) -> bool {
    forall|k: int| 0 <= k < n.nodes.len() ==> spec_is_networkable(#[trigger] n.nodes[k].tile)
}

/// Whether every node of the networks is a machine or a wire.
pub open spec fn all_machines(nets: Seq<NetworkView>) -> bool {
    forall|i: int| 0 <= i < nets.len() ==> machines_only(#[trigger] nets[i])
}

/// The ship's network after taking in, from the last to the first, the networks next to the
/// cell (spending the material of their nodes, or not); and the networks left.
pub open spec fn absorbed(ship: NetworkView, nets: Seq<NetworkView>, cell: CellIndex, spend: bool) -> (
    NetworkView,
    Seq<NetworkView>,
)
    decreases nets.len(),
{
    if nets.len() == 0 {
        (ship, nets)
    } else {
        let last = nets.last();
        let rest = nets.drop_last();
        if adjacent_to(last, cell) {
            absorbed(
                if spend {
                    added_all(ship, last.nodes)
                } else {
                    joined(ship, last)
                },
                rest,
                cell,
                spend,
            )
        } else {
            let r = absorbed(ship, rest, cell, spend);
            (r.0, r.1.push(last))
        }
    }
}

/// Adding machines one by one appends them and spends the material of each.
pub proof fn lemma_added_all_machines(n: NetworkView, nodes: Seq<Node>)
    requires
        machines_only(NetworkView { nodes, stored_resources: 0 }),
    ensures
        added_all(n, nodes) == (NetworkView {
            nodes: n.nodes + nodes,
            stored_resources: n.stored_resources - MATERIAL_NEEDED_FOR_A_MACHINE * nodes.len(),
        }),
    decreases nodes.len(),
{
    if nodes.len() > 0 {
        let rest = nodes.drop_last();
        assert forall|k: int| 0 <= k < rest.len() implies spec_is_networkable(#[trigger] rest[k].tile) by {
            assert(rest[k] == nodes[k]);
        }
        lemma_added_all_machines(n, rest);
        assert(spec_is_networkable(nodes[nodes.len() - 1].tile));
        assert(n.nodes + rest.push(nodes.last()) =~= n.nodes + nodes) by {
            assert(rest.push(nodes.last()) =~= nodes);
        }
        assert((n.nodes + rest).push(nodes.last()) =~= n.nodes + nodes);
    }
}

/// The networks without the last have the nodes of all but the last's.
proof fn lemma_views_drop_last(nets: Seq<Network>)
    requires
        nets.len() > 0,
    ensures
        views(nets.drop_last()) == views(nets).drop_last(),
        views(nets).last() == nets.last()@,
{
    assert(views(nets.drop_last()) =~= views(nets).drop_last());
}

/// Adds the nodes one by one, spending their material.
fn add_all(ship: &mut Network, nodes: &Vec<Node>)
    requires
        machines_only(NetworkView { nodes: nodes@, stored_resources: 0 }),
        old(ship).nodes@.len() + nodes@.len() <= MAX_NETWORK_NODES,
        -MAX_STORED_AMOUNT + MATERIAL_NEEDED_FOR_A_MACHINE * nodes@.len() <= old(ship).stored_resources
            <= MAX_STORED_AMOUNT,
    ensures
        final(ship)@ == added_all(old(ship)@, nodes@),
{
    let ghost start = ship@;
    let mut k: usize = 0;
    while k < nodes.len()
        invariant
            k <= nodes@.len(),
            machines_only(NetworkView { nodes: nodes@, stored_resources: 0 }),
            start.nodes.len() + nodes@.len() <= MAX_NETWORK_NODES,
            -MAX_STORED_AMOUNT + MATERIAL_NEEDED_FOR_A_MACHINE * nodes@.len() <= start.stored_resources
                <= MAX_STORED_AMOUNT,
            ship@ == added_all(start, nodes@.take(k as int)),
        decreases nodes@.len() - k,
    {
        let node = nodes[k];
        proof {
            let pre = nodes@.take(k as int);
            assert forall|j: int| 0 <= j < pre.len() implies spec_is_networkable(#[trigger] pre[j].tile) by {
                assert(pre[j] == nodes@[j]);
            }
            lemma_added_all_machines(start, pre);
            assert(spec_is_networkable(nodes@[k as int].tile));
            assert(nodes@.take(k + 1).drop_last() =~= pre);
        }
        ship.add(node);
        k = k + 1;
    }
    assert(nodes@.take(nodes@.len() as int) =~= nodes@);
}

/// Keeping the machines and wires of nodes that are all machines or wires keeps them all.
pub proof fn lemma_networkable_nodes_of_machines(nodes: Seq<Node>)
    requires
        machines_only(NetworkView { nodes, stored_resources: 0 }),
    ensures
        networkable_nodes(nodes) == nodes,
    decreases nodes.len(),
{
    if nodes.len() > 0 {
        let rest = nodes.drop_last();
        assert forall|k: int| 0 <= k < rest.len() implies spec_is_networkable(#[trigger] rest[k].tile) by {
            assert(rest[k] == nodes[k]);
        }
        lemma_networkable_nodes_of_machines(rest);
        assert(spec_is_networkable(nodes[nodes.len() - 1].tile));
        assert(rest.push(nodes.last()) =~= nodes);
        rest.lemma_filter_push(nodes.last(), |n: Node| spec_is_networkable(n.tile));
    } else {
        reveal(Seq::filter);
        assert(nodes.filter(|n: Node| spec_is_networkable(n.tile)) =~= nodes);
    }
}

/// The nodes of the networks, with the last network's counted last.
proof fn lemma_nodes_in_nonnegative(nets: Seq<NetworkView>)
    ensures
        nodes_in(nets) >= 0,
    decreases nets.len(),
{
    if nets.len() > 0 {
        lemma_nodes_in_nonnegative(nets.drop_last());
    }
}

/// The machines of networks without the last are machines of the networks.
proof fn lemma_all_machines_drop_last(nets: Seq<NetworkView>)
    requires
        nets.len() > 0,
        all_machines(nets),
    ensures
        all_machines(nets.drop_last()),
        machines_only(nets.last()),
{
    assert forall|i: int| 0 <= i < nets.drop_last().len() implies machines_only(#[trigger] nets.drop_last()[i]) by {
        assert(nets.drop_last()[i] == nets[i]);
    }
}

/// Takes into the ship's network, from the last to the first, the networks next to the cell.
fn absorb(ship: &mut Network, nets: &mut Vec<Network>, cell: CellIndex, spend: bool)
    requires
        all_machines(views(old(nets)@)),
        machines_only(old(ship)@),
        old(ship).nodes@.len() + nodes_in(views(old(nets)@)) <= MAX_NETWORK_NODES,
        -MAX_STORED_AMOUNT + MATERIAL_NEEDED_FOR_A_MACHINE * nodes_in(views(old(nets)@))
            <= old(ship).stored_resources <= MAX_STORED_AMOUNT,
    ensures
        (final(ship)@, views(final(nets)@)) == absorbed(old(ship)@, views(old(nets)@), cell, spend),
        machines_only(final(ship)@),
        all_machines(views(final(nets)@)),
    decreases old(nets)@.len(),
{
    if nets.len() == 0 {
        return;
    }
    let ghost before = nets@;
    proof {
        lemma_views_drop_last(before);
        lemma_all_machines_drop_last(views(before));
        lemma_nodes_in_nonnegative(views(before).drop_last());
    }
    let last = nets.pop().unwrap();
    if last.is_adjacent(cell) {
        if spend {
            proof {
                assert(machines_only(NetworkView { nodes: last.nodes@, stored_resources: 0 }));
                lemma_added_all_machines(ship@, last.nodes@);
            }
            add_all(ship, &last.nodes);
        } else {
            proof {
                assert(machines_only(last@));
                lemma_networkable_nodes_of_machines(last.nodes@);
            }
            ship.join(last);
        }
        proof {
            assert forall|k: int| 0 <= k < ship@.nodes.len() implies spec_is_networkable(#[trigger] ship@.nodes[k].tile) by {
                if k >= old(ship)@.nodes.len() {
                    assert(ship@.nodes[k] == before.last().nodes@[k - old(ship)@.nodes.len()]);
                }
            }
        }
        absorb(ship, nets, cell, spend);
    } else {
        absorb(ship, nets, cell, spend);
        proof {
            assert(views(nets@.push(last)) =~= views(nets@).push(last@));
        }
        nets.push(last);
        proof {
            assert forall|i: int| 0 <= i < views(nets@).len() implies machines_only(#[trigger] views(nets@)[i]) by {
                if i < views(nets@).len() - 1 {
                    assert(views(nets@)[i] == views(nets@.drop_last())[i]);
                }
            }
        }
    }
}

/// The network with the networks of `tail` joined in, in order.
pub open spec fn joined_all(n: NetworkView, tail: Seq<NetworkView>) -> NetworkView
    decreases tail.len(),
{
    if tail.len() == 0 {
        n
    } else {
        joined(joined_all(n, tail.drop_last()), tail.last())
    }
}

/// The network with `node` added, spending its material or not.
pub open spec fn finished(n: NetworkView, node: Node, spend: bool) -> NetworkView {
    if spend {
        n.added(node)
    } else {
        added_free(n, node)
    }
}

/// The networks after joining all those next to the cell into the first of them, taking in
/// the others in order after `tail` (networks already taken out, that come after them), and
/// then adding `node` to it.
pub open spec fn merged(
    nets: Seq<NetworkView>,
    cell: CellIndex,
    tail: Seq<NetworkView>,
    node: Node,
    spend: bool,
) -> Seq<NetworkView>
    decreases nets.len(),
{
    if nets.len() == 0 {
        nets
    } else {
        let last = nets.last();
        let rest = nets.drop_last();
        if adjacent_to(last, cell) {
            if any_adjacent(rest, cell) {
                merged(rest, cell, seq![last] + tail, node, spend)
            } else {
                rest.push(finished(joined_all(last, tail), node, spend))
            }
        } else {
            merged(rest, cell, tail, node, spend).push(last)
        }
    }
}

/// Whether every network stores between `-limit` and `limit`.
pub open spec fn stores_within(nets: Seq<NetworkView>, limit: int) -> bool {
    forall|i: int| 0 <= i < nets.len() ==> -limit <= #[trigger] nets[i].stored_resources <= limit
}

/// Joining networks adds up their nodes.
proof fn lemma_joined_all_len(n: NetworkView, tail: Seq<NetworkView>)
    requires
        all_machines(tail),
    ensures
        joined_all(n, tail).nodes.len() == n.nodes.len() + nodes_in(tail),
        joined_all(n, tail).stored_resources == n.stored_resources,
        machines_only(n) ==> machines_only(joined_all(n, tail)),
    decreases tail.len(),
{
    if tail.len() > 0 {
        lemma_all_machines_drop_last(tail);
        lemma_joined_all_len(n, tail.drop_last());
        let prev = joined_all(n, tail.drop_last());
        lemma_networkable_nodes_of_machines(tail.last().nodes);
        assert(machines_only(NetworkView { nodes: tail.last().nodes, stored_resources: 0 }));
        if machines_only(n) {
            assert forall|k: int| 0 <= k < joined_all(n, tail).nodes.len() implies spec_is_networkable(
                #[trigger] joined_all(n, tail).nodes[k].tile,
            ) by {
                if k >= prev.nodes.len() {
                    assert(joined_all(n, tail).nodes[k] == tail.last().nodes[k - prev.nodes.len()]);
                } else {
                    assert(joined_all(n, tail).nodes[k] == prev.nodes[k]);
                }
            }
        }
    }
}

/// Counting the nodes of networks with one more at the end.
proof fn lemma_nodes_in_push(nets: Seq<NetworkView>, n: NetworkView)
    ensures
        nodes_in(nets.push(n)) == nodes_in(nets) + n.nodes.len(),
{
    assert(nets.push(n).drop_last() =~= nets);
}

/// Counting the nodes of networks with one more at the front.
proof fn lemma_nodes_in_prepend(n: NetworkView, nets: Seq<NetworkView>)
    ensures
        nodes_in(seq![n] + nets) == n.nodes.len() + nodes_in(nets),
    decreases nets.len(),
{
    if nets.len() > 0 {
        lemma_nodes_in_prepend(n, nets.drop_last());
        assert((seq![n] + nets).drop_last() =~= seq![n] + nets.drop_last());
        assert((seq![n] + nets).last() == nets.last());
    } else {
        assert(seq![n] + nets =~= seq![n]);
        assert(seq![n].drop_last() =~= Seq::<NetworkView>::empty());
        assert(nodes_in(Seq::<NetworkView>::empty()) == 0);
        assert(seq![n].last() == n);
        assert(nodes_in(seq![n]) == nodes_in(seq![n].drop_last()) + seq![n].last().nodes.len());
    }
}

/// The machines of networks with one more at the end.
proof fn lemma_all_machines_push(nets: Seq<NetworkView>, n: NetworkView)
    requires
        all_machines(nets),
        machines_only(n),
    ensures
        all_machines(nets.push(n)),
{
    assert forall|i: int| 0 <= i < nets.push(n).len() implies machines_only(#[trigger] nets.push(n)[i]) by {
        if i < nets.len() {
            assert(nets.push(n)[i] == nets[i]);
        }
    }
}

/// Merging keeps every node, adds the new one, and keeps every store within its bounds (the
/// network that takes the node may spend its material).
proof fn lemma_merged_counts(
    nets: Seq<NetworkView>,
    cell: CellIndex,
    tail: Seq<NetworkView>,
    node: Node,
    spend: bool,
    limit: int,
)
    requires
        all_machines(nets),
        all_machines(tail),
        any_adjacent(nets, cell),
        stores_within(nets, limit),
        stores_within(tail, limit),
        limit >= 0,
    ensures
        nodes_in(merged(nets, cell, tail, node, spend)) == nodes_in(nets) + nodes_in(tail) + if spec_is_networkable(
            node.tile,
        ) {
            1int
        } else {
            0int
        },
        all_machines(merged(nets, cell, tail, node, spend)),
        stores_within(merged(nets, cell, tail, node, spend), limit + WALL_WEIGHT),
        !spend ==> stores_within(merged(nets, cell, tail, node, spend), limit),
    decreases nets.len(),
{
    let last = nets.last();
    let rest = nets.drop_last();
    lemma_all_machines_drop_last(nets);
    assert(stores_within(rest, limit)) by {
        assert forall|i: int| 0 <= i < rest.len() implies -limit <= #[trigger] rest[i].stored_resources <= limit by {
            assert(rest[i] == nets[i]);
        }
    }
    assert(-limit <= last.stored_resources <= limit) by {
        assert(last == nets[nets.len() - 1]);
    }
    if adjacent_to(last, cell) {
        if any_adjacent(rest, cell) {
            let t2 = seq![last] + tail;
            assert(all_machines(t2)) by {
                assert forall|i: int| 0 <= i < t2.len() implies machines_only(#[trigger] t2[i]) by {
                    if i > 0 {
                        assert(t2[i] == tail[i - 1]);
                    }
                }
            }
            assert(stores_within(t2, limit)) by {
                assert forall|i: int| 0 <= i < t2.len() implies -limit <= #[trigger] t2[i].stored_resources <= limit by {
                    if i > 0 {
                        assert(t2[i] == tail[i - 1]);
                    }
                }
            }
            lemma_merged_counts(rest, cell, t2, node, spend, limit);
            lemma_nodes_in_prepend(last, tail);
        } else {
            lemma_joined_all_len(last, tail);
            let kept = joined_all(last, tail);
            let fin = finished(kept, node, spend);
            assert(machines_only(fin)) by {
                assert forall|k: int| 0 <= k < fin.nodes.len() implies spec_is_networkable(#[trigger] fin.nodes[k].tile) by {
                    if k < kept.nodes.len() {
                        assert(fin.nodes[k] == kept.nodes[k]);
                    }
                }
            }
            lemma_nodes_in_push(rest, fin);
            lemma_all_machines_push(rest, fin);
            let out = rest.push(fin);
            assert forall|i: int| 0 <= i < out.len() implies -(limit + WALL_WEIGHT) <= #[trigger] out[i].stored_resources
                <= limit + WALL_WEIGHT && (!spend ==> -limit <= out[i].stored_resources <= limit) by {
                if i < rest.len() {
                    assert(out[i] == rest[i]);
                }
            }
        }
    } else {
        assert(any_adjacent(rest, cell)) by {
            let i = choose|i: int| 0 <= i < nets.len() && #[trigger] adjacent_to(nets[i], cell);
            assert(i != nets.len() - 1);
            assert(rest[i] == nets[i]);
        }
        lemma_merged_counts(rest, cell, tail, node, spend, limit);
        let m = merged(rest, cell, tail, node, spend);
        lemma_nodes_in_push(m, last);
        lemma_all_machines_push(m, last);
        let out = m.push(last);
        assert forall|i: int| 0 <= i < out.len() implies -(limit + WALL_WEIGHT) <= #[trigger] out[i].stored_resources
            <= limit + WALL_WEIGHT && (!spend ==> -limit <= out[i].stored_resources <= limit) by {
            if i < m.len() {
                assert(out[i] == m[i]);
            }
        }
    }
}

/// Most nodes all the networks hold together for their accounts to stay exact: more than the
/// cells of the largest map the game makes (64 cells on each side, 262 144 cells), each of which
/// holds one node at most.
pub const MAX_NETWORKS_NODES: usize = 300_000;

/// Largest amount of material a network stores, or owes, for its accounts to stay exact: what
/// the networks can store when all their nodes are storage machines
/// (`MAX_STORAGE_PER_STORAGE_MACHINE * MAX_NETWORKS_NODES`).
pub const NETWORK_STORE_LIMIT: Grams = 3_000_000_000_000;

/// Whether one of the networks stands next to the cell.
fn any_adjacent_exec(nets: &Vec<Network>, cell: CellIndex) -> (result: bool)
    ensures
        result == any_adjacent(views(nets@), cell),
{
    let mut k: usize = 0;
    while k < nets.len()
        invariant
            k <= nets@.len(),
            forall|i: int| 0 <= i < k ==> !#[trigger] adjacent_to(views(nets@)[i], cell),
        decreases nets@.len() - k,
    {
        assert(views(nets@)[k as int] == nets@[k as int]@);
        if nets[k].is_adjacent(cell) {
            assert(adjacent_to(views(nets@)[k as int], cell));
            return true;
        }
        assert(!adjacent_to(views(nets@)[k as int], cell));
        k = k + 1;
    }
    false
}

/// The nodes of the first networks are no more than those of all of them.
proof fn lemma_nodes_in_take(s: Seq<NetworkView>, j: int)
    requires
        0 <= j <= s.len(),
    ensures
        0 <= nodes_in(s.take(j)) <= nodes_in(s),
    decreases s.len(),
{
    lemma_nodes_in_nonnegative(s.take(j));
    if j < s.len() {
        lemma_nodes_in_take(s.drop_last(), j);
        assert(s.drop_last().take(j) =~= s.take(j));
    } else {
        assert(s.take(j) =~= s);
    }
}

/// Joins the networks next to the cell into the first of them, in order, then `tail` (held
/// last first), then adds `node` to it.
fn merge(nets: &mut Vec<Network>, cell: CellIndex, tail: &mut Vec<Network>, node: Node, spend: bool)
    requires
        any_adjacent(views(old(nets)@), cell),
        all_machines(views(old(nets)@)),
        all_machines(views(old(tail)@).reverse()),
        stores_within(views(old(nets)@), NETWORK_STORE_LIMIT as int),
        stores_within(views(old(tail)@).reverse(), NETWORK_STORE_LIMIT as int),
        nodes_in(views(old(nets)@)) + nodes_in(views(old(tail)@).reverse()) < MAX_NETWORKS_NODES,
        spec_has_amounts(node.tile),
    ensures
        views(final(nets)@) == merged(
            views(old(nets)@),
            cell,
            views(old(tail)@).reverse(),
            node,
            spend,
        ),
    decreases old(nets)@.len(),
{
    let ghost before = nets@;
    let ghost t0 = views(tail@).reverse();
    proof {
        lemma_views_drop_last(before);
        lemma_all_machines_drop_last(views(before));
        lemma_nodes_in_nonnegative(views(before).drop_last());
        lemma_nodes_in_nonnegative(t0);
        assert(views(before).last() == before.last()@);
        assert(-NETWORK_STORE_LIMIT <= views(before)[views(before).len() - 1].stored_resources <= NETWORK_STORE_LIMIT);
        assert(stores_within(views(before).drop_last(), NETWORK_STORE_LIMIT as int)) by {
            assert forall|i: int| 0 <= i < views(before).drop_last().len() implies -NETWORK_STORE_LIMIT
                <= #[trigger] views(before).drop_last()[i].stored_resources <= NETWORK_STORE_LIMIT by {
                assert(views(before).drop_last()[i] == views(before)[i]);
            }
        }
    }
    let last = nets.pop().unwrap();
    if last.is_adjacent(cell) {
        if any_adjacent_exec(nets, cell) {
            let ghost tail_before = tail@;
            tail.push(last);
            proof {
                assert(views(tail@).reverse() =~= seq![last@] + t0);
                lemma_nodes_in_prepend(last@, t0);
                let t1 = seq![last@] + t0;
                assert forall|i: int| 0 <= i < t1.len() implies machines_only(#[trigger] t1[i])
                    && -NETWORK_STORE_LIMIT <= t1[i].stored_resources <= NETWORK_STORE_LIMIT by {
                    if i > 0 {
                        assert(t1[i] == t0[i - 1]);
                    }
                }
            }
            merge(nets, cell, tail, node, spend);
        } else {
            let mut kept = last;
            let ghost len0 = tail@.len();
            let ghost tail0 = tail@;
            proof {
                assert(joined_all(last@, t0.take(0)) == last@) by {
                    assert(t0.take(0).len() == 0);
                }
                lemma_nodes_in_take(t0, 0);
            }
            while tail.len() > 0
                invariant
                    len0 == tail0.len(),
                    t0 == views(tail0).reverse(),
                    tail@.len() <= len0,
                    tail@ == tail0.take(tail@.len() as int),
                    kept@ == joined_all(last@, t0.take(len0 - tail@.len())),
                    all_machines(t0),
                    stores_within(t0, NETWORK_STORE_LIMIT as int),
                    last@.nodes.len() + nodes_in(t0) < MAX_NETWORKS_NODES,
                    -NETWORK_STORE_LIMIT <= last@.stored_resources <= NETWORK_STORE_LIMIT,
                decreases tail@.len(),
            {
                let ghost j = len0 - tail@.len();
                let other = tail.pop().unwrap();
                proof {
                    assert(t0[j] == other@);
                    assert(t0.take(j + 1) =~= t0.take(j).push(t0[j]));
                    assert(t0.take(j + 1).drop_last() =~= t0.take(j));
                    assert(all_machines(t0.take(j))) by {
                        assert forall|i: int| 0 <= i < t0.take(j).len() implies machines_only(#[trigger] t0.take(j)[i]) by {
                            assert(t0.take(j)[i] == t0[i]);
                        }
                    }
                    lemma_joined_all_len(last@, t0.take(j));
                    lemma_nodes_in_take(t0, j + 1);
                    lemma_nodes_in_push(t0.take(j), t0[j]);
                    assert(tail@ =~= tail0.take(tail@.len() as int));
                }
                kept.join(other);
            }
            proof {
                assert(t0.take(len0 as int) =~= t0);
                lemma_joined_all_len(last@, t0);
            }
            if spend {
                kept.add(node);
            } else {
                kept.add_no_spend(node);
            }
            proof {
                assert(views(nets@.push(kept)) =~= views(nets@).push(kept@));
            }
            nets.push(kept);
        }
    } else {
        proof {
            assert(any_adjacent(views(nets@), cell)) by {
                let i = choose|i: int| 0 <= i < views(before).len() && #[trigger] adjacent_to(views(before)[i], cell);
                assert(views(before)[views(before).len() - 1] == last@);
                assert(!adjacent_to(last@, cell));
                assert(i != views(before).len() - 1);
                assert(views(nets@)[i] == views(before)[i]);
            }
        }
        merge(nets, cell, tail, node, spend);
        proof {
            assert(views(nets@.push(last)) =~= views(nets@).push(last@));
        }
        nets.push(last);
    }
}

/// Whether the networks leave room for `extra` more nodes within the limits that keep their
/// accounts exact, and hold machines and wires only.
pub open spec fn fits(v: NetworksView, extra: int) -> bool {
    &&& v.ship_network.nodes.len() + nodes_in(v.unconnected) + extra <= MAX_NETWORKS_NODES
    &&& machines_only(v.ship_network)
    &&& all_machines(v.unconnected)
    &&& -NETWORK_STORE_LIMIT <= v.ship_network.stored_resources <= NETWORK_STORE_LIMIT
    &&& stores_within(v.unconnected, NETWORK_STORE_LIMIT as int)
}

/// Whether the networks have no more nodes in all than the limit that keeps their count exact.
pub open spec fn node_count_within(v: NetworksView) -> bool {
    v.ship_network.nodes.len() + nodes_in(v.unconnected) <= MAX_NETWORKS_NODES
}

/// An empty network that stores nothing.
pub open spec fn empty_network() -> NetworkView {
    NetworkView { nodes: Seq::empty(), stored_resources: 0 }
}

/// The networks after putting `node` back among them, spending nothing: into the ship's
/// network (which takes in the networks next to the node) if it is the ship's cell or next to
/// that network; else into the networks next to it, joined into the first of them; else into a
/// network of its own.
pub open spec fn placed(v: NetworksView, node: Node) -> NetworksView {
    let cell = node.position;
    if cell == v.ship_position || adjacent_to(v.ship_network, cell) {
        let r = absorbed(added_free(v.ship_network, node), v.unconnected, cell, false);
        NetworksView { ship_network: r.0, unconnected: r.1, ..v }
    } else if any_adjacent(v.unconnected, cell) {
        NetworksView { unconnected: merged(v.unconnected, cell, Seq::empty(), node, false), ..v }
    } else {
        NetworksView { unconnected: v.unconnected.push(added_free(empty_network(), node)), ..v }
    }
}

/// The networks after putting the nodes back among them one by one, in order.
pub open spec fn re_added(v: NetworksView, nodes: Seq<Node>) -> NetworksView
    decreases nodes.len(),
{
    if nodes.len() == 0 {
        v
    } else {
        placed(re_added(v, nodes.drop_last()), nodes.last())
    }
}

/// Taking in networks without spending keeps every node and every store.
proof fn lemma_absorbed_free_counts(ship: NetworkView, nets: Seq<NetworkView>, cell: CellIndex)
    requires
        machines_only(ship),
        all_machines(nets),
        stores_within(nets, NETWORK_STORE_LIMIT as int),
    ensures
        ({
            let r = absorbed(ship, nets, cell, false);
            &&& r.0.nodes.len() + nodes_in(r.1) == ship.nodes.len() + nodes_in(nets)
            &&& r.0.stored_resources == ship.stored_resources
            &&& machines_only(r.0)
            &&& all_machines(r.1)
            &&& stores_within(r.1, NETWORK_STORE_LIMIT as int)
        }),
    decreases nets.len(),
{
    if nets.len() > 0 {
        let last = nets.last();
        let rest = nets.drop_last();
        lemma_all_machines_drop_last(nets);
        assert(stores_within(rest, NETWORK_STORE_LIMIT as int)) by {
            assert forall|i: int| 0 <= i < rest.len() implies -NETWORK_STORE_LIMIT <= #[trigger] rest[i].stored_resources
                <= NETWORK_STORE_LIMIT by {
                assert(rest[i] == nets[i]);
            }
        }
        if adjacent_to(last, cell) {
            lemma_networkable_nodes_of_machines(last.nodes);
            assert(machines_only(NetworkView { nodes: last.nodes, stored_resources: 0 }));
            let j = joined(ship, last);
            assert(machines_only(j)) by {
                assert forall|k: int| 0 <= k < j.nodes.len() implies spec_is_networkable(#[trigger] j.nodes[k].tile) by {
                    if k >= ship.nodes.len() {
                        assert(j.nodes[k] == last.nodes[k - ship.nodes.len()]);
                    } else {
                        assert(j.nodes[k] == ship.nodes[k]);
                    }
                }
            }
            lemma_absorbed_free_counts(j, rest, cell);
        } else {
            lemma_absorbed_free_counts(ship, rest, cell);
            let r = absorbed(ship, rest, cell, false);
            lemma_nodes_in_push(r.1, last);
            lemma_all_machines_push(r.1, last);
            assert(-NETWORK_STORE_LIMIT <= last.stored_resources <= NETWORK_STORE_LIMIT) by {
                assert(last == nets[nets.len() - 1]);
            }
            assert forall|i: int| 0 <= i < r.1.push(last).len() implies -NETWORK_STORE_LIMIT
                <= #[trigger] r.1.push(last)[i].stored_resources <= NETWORK_STORE_LIMIT by {
                if i < r.1.len() {
                    assert(r.1.push(last)[i] == r.1[i]);
                }
            }
        }
    }
}

/// Putting a machine back keeps the networks within their limits, with one node more.
proof fn lemma_placed_fits(v: NetworksView, node: Node, extra: int)
    requires
        fits(v, extra + 1),
        spec_is_networkable(node.tile),
        extra >= 0,
    ensures
        fits(placed(v, node), extra),
{
    let cell = node.position;
    lemma_nodes_in_nonnegative(v.unconnected);
    if cell == v.ship_position || adjacent_to(v.ship_network, cell) {
        let s1 = added_free(v.ship_network, node);
        assert(machines_only(s1)) by {
            assert forall|k: int| 0 <= k < s1.nodes.len() implies spec_is_networkable(#[trigger] s1.nodes[k].tile) by {
                if k < v.ship_network.nodes.len() {
                    assert(s1.nodes[k] == v.ship_network.nodes[k]);
                }
            }
        }
        lemma_absorbed_free_counts(s1, v.unconnected, cell);
    } else if any_adjacent(v.unconnected, cell) {
        lemma_merged_counts(v.unconnected, cell, Seq::empty(), node, false, NETWORK_STORE_LIMIT as int);
        assert(nodes_in(Seq::<NetworkView>::empty()) == 0);
    } else {
        let fresh = added_free(empty_network(), node);
        assert(machines_only(fresh)) by {
            assert(fresh.nodes =~= seq![node]);
        }
        lemma_nodes_in_push(v.unconnected, fresh);
        lemma_all_machines_push(v.unconnected, fresh);
        let u = v.unconnected.push(fresh);
        assert forall|i: int| 0 <= i < u.len() implies -NETWORK_STORE_LIMIT <= #[trigger] u[i].stored_resources
            <= NETWORK_STORE_LIMIT by {
            if i < v.unconnected.len() {
                assert(u[i] == v.unconnected[i]);
            }
        }
    }
}

impl Networks {
    /// Puts a node back among the networks, spending nothing; see `placed`.
    fn place(&mut self, node: Node)
        requires
            fits(old(self)@, 1),
            spec_is_networkable(node.tile),
        ensures
            final(self)@ == placed(old(self)@, node),
    {
        let cell = node.position;
        proof {
            lemma_nodes_in_nonnegative(self@.unconnected);
        }
        if cell == self.ship_position || self.ship_network.is_adjacent(cell) {
            self.ship_network.add_no_spend(node);
            proof {
                let s1 = self.ship_network@;
                assert(machines_only(s1)) by {
                    assert forall|k: int| 0 <= k < s1.nodes.len() implies spec_is_networkable(#[trigger] s1.nodes[k].tile) by {
                        if k < old(self)@.ship_network.nodes.len() {
                            assert(s1.nodes[k] == old(self)@.ship_network.nodes[k]);
                        }
                    }
                }
            }
            absorb(&mut self.ship_network, &mut self.unconnected_networks, cell, false);
        } else if any_adjacent_exec(&self.unconnected_networks, cell) {
            let mut tail: Vec<Network> = Vec::new();
            proof {
                assert(views(tail@).reverse() =~= Seq::<NetworkView>::empty());
                assert(nodes_in(Seq::<NetworkView>::empty()) == 0);
            }
            merge(&mut self.unconnected_networks, cell, &mut tail, node, false);
        } else {
            let mut network = Network::new();
            network.add_no_spend(node);
            proof {
                assert(views(self.unconnected_networks@.push(network)) =~= views(
                    self.unconnected_networks@,
                ).push(network@));
            }
            self.unconnected_networks.push(network);
        }
    }

    /// Puts the nodes back among the networks one by one, spending nothing; see `re_added`.
    fn re_add(&mut self, nodes: Vec<Node>)
        requires
            fits(old(self)@, nodes@.len() as int),
            machines_only(NetworkView { nodes: nodes@, stored_resources: 0 }),
        ensures
            final(self)@ == re_added(old(self)@, nodes@),
    {
        let ghost start = self@;
        let mut k: usize = 0;
        while k < nodes.len()
            invariant
                k <= nodes@.len(),
                machines_only(NetworkView { nodes: nodes@, stored_resources: 0 }),
                self@ == re_added(start, nodes@.take(k as int)),
                fits(self@, nodes@.len() - k),
            decreases nodes@.len() - k,
        {
            let node = nodes[k];
            proof {
                assert(nodes@.take(k + 1).drop_last() =~= nodes@.take(k as int));
                assert(spec_is_networkable(nodes@[k as int].tile));
                lemma_placed_fits(self@, node, nodes@.len() - k - 1);
            }
            self.place(node);
            k = k + 1;
        }
        assert(nodes@.take(nodes@.len() as int) =~= nodes@);
    }
}

/// Why a replacement failed, if it did; a split is no failure.
pub open spec fn spec_refusal_of(r: Replacement) -> Option<TransformationFailure> {
    match r {
        Replacement::Regular | Replacement::NotPresent | Replacement::SplitNetwork => None,
        Replacement::NotEnoughMaterial => Some(TransformationFailure::NotEnoughMaterial),
        Replacement::NotEnoughStorage => Some(TransformationFailure::NotEnoughStorage),
        Replacement::Forbidden => Some(TransformationFailure::CanNotDeconstructShip),
    }
}

/// Whether a node of the network stands on the cell.
pub open spec fn holds(n: NetworkView, cell: CellIndex) -> bool {
    exists|k: int| first_at(n.nodes, cell, k)
}

/// Whether `i` is the first of the networks with a node on the cell.
pub open spec fn first_holder_at(nets: Seq<NetworkView>, cell: CellIndex, i: int) -> bool {
    &&& 0 <= i < nets.len()
    &&& holds(nets[i], cell)
    &&& forall|j: int| 0 <= j < i ==> !holds(#[trigger] nets[j], cell)
}

/// The first of the networks with a node on the cell, or the number of networks if none has.
pub open spec fn first_holder(nets: Seq<NetworkView>, cell: CellIndex) -> int {
    if exists|i: int| first_holder_at(nets, cell, i) {
        choose|i: int| first_holder_at(nets, cell, i)
    } else {
        nets.len() as int
    }
}

/// The networks after building `new_machine` where `old_tile` was, on a cell that no network
/// holds: the ship's network pays for it and must have room for what it will store. Next to the
/// ship's network, a wall only spends material; a machine or a wire gives back the material of
/// what was there, then (if at least the material of a machine is stored) joins the ship's
/// network, which takes in the networks next to it. On the ship's cell it joins the ship's
/// network. Elsewhere it joins the networks next to it, or else starts a network of its own,
/// given the material of one machine (if that leaves it room and material).
pub open spec fn spec_add_new(v: NetworksView, cell: CellIndex, new_machine: TileType, old_tile: TileType) -> (
    NetworksView,
    Option<TransformationFailure>,
) {
    let ship = v.ship_network;
    let storage = ship.future_storage(new_machine, old_tile);
    let node = Node { position: cell, tile: new_machine };
    if storage > ship.storage_capacity() + spec_storage_capacity(new_machine) {
        (v, Some(TransformationFailure::NotEnoughStorage))
    } else if storage < 0 {
        (v, Some(TransformationFailure::NotEnoughMaterial))
    } else if adjacent_to(ship, cell) {
        if !spec_is_networkable(new_machine) {
            (
                NetworksView {
                    ship_network: NetworkView {
                        stored_resources: ship.stored_resources - spec_material_composition(new_machine),
                        ..ship
                    },
                    ..v
                },
                None,
            )
        } else {
            let regained = NetworkView {
                stored_resources: ship.stored_resources + spec_material_composition(old_tile),
                ..ship
            };
            if regained.stored_resources >= MATERIAL_NEEDED_FOR_A_MACHINE {
                let r = absorbed(regained.added(node), v.unconnected, cell, true);
                (NetworksView { ship_network: r.0, unconnected: r.1, ..v }, None)
            } else {
                (
                    NetworksView { ship_network: regained, ..v },
                    Some(TransformationFailure::NotEnoughMaterial),
                )
            }
        }
    } else if cell == v.ship_position {
        (NetworksView { ship_network: ship.added(node), ..v }, None)
    } else if any_adjacent(v.unconnected, cell) {
        (NetworksView { unconnected: merged(v.unconnected, cell, Seq::empty(), node, true), ..v }, None)
    } else {
        let fresh = NetworkView { nodes: Seq::empty(), stored_resources: MATERIAL_NEEDED_FOR_A_MACHINE as int };
        let fresh_storage = fresh.future_storage(new_machine, old_tile);
        if fresh_storage > spec_storage_capacity(new_machine) || fresh_storage < 0 {
            (v, None)
        } else {
            let funded = NetworkView {
                stored_resources: fresh.stored_resources + spec_material_composition(old_tile),
                ..fresh
            };
            (NetworksView { unconnected: v.unconnected.push(funded.added(node)), ..v }, None)
        }
    }
}

/// The networks after putting `new_machine` in place of the node on the cell, and what came of
/// it. A network with a node on the cell replaces it (the ship's first, then the others in
/// order); taking away a machine that splits a network removes it and puts the rest of that
/// network back node by node; a network left empty is dropped. `NotPresent` says that no network
/// holds the cell, and then nothing changed.
pub open spec fn spec_replaced_in(v: NetworksView, cell: CellIndex, new_machine: TileType) -> (
    NetworksView,
    Replacement,
) {
    let (ship1, r) = v.ship_network.replaced(cell, new_machine);
    if r == Replacement::SplitNetwork {
        (
            re_added(
                NetworksView {
                    ship_network: NetworkView { nodes: Seq::empty(), stored_resources: ship1.stored_resources },
                    ..v
                },
                ship1.nodes.drop_last(),
            ),
            r,
        )
    } else if r == Replacement::Regular {
        (NetworksView { ship_network: ship1, ..v }, r)
    } else if r != Replacement::NotPresent {
        (v, r)
    } else {
        let i = first_holder(v.unconnected, cell);
        if i < v.unconnected.len() {
            let (n1, r2) = v.unconnected[i].replaced(cell, new_machine);
            let others = v.unconnected.remove(i);
            if r2 == Replacement::SplitNetwork {
                (re_added(NetworksView { unconnected: others, ..v }, n1.nodes.drop_last()), r2)
            } else if r2 == Replacement::Regular {
                (
                    NetworksView {
                        unconnected: if n1.nodes.len() == 0 {
                            others
                        } else {
                            others.insert(i, n1)
                        },
                        ..v
                    },
                    r2,
                )
            } else {
                (v, r2)
            }
        } else {
            (v, Replacement::NotPresent)
        }
    }
}

/// The networks after building `new_machine` where `old_tile` was, and why it could not be
/// built, if it could not: a network that holds the cell replaces its node there (see
/// `spec_replaced_in`); where none does, see `spec_add_new`.
pub open spec fn spec_add(v: NetworksView, cell: CellIndex, new_machine: TileType, old_tile: TileType) -> (
    NetworksView,
    Option<TransformationFailure>,
) {
    let (w, r) = spec_replaced_in(v, cell, new_machine);
    if r == Replacement::NotPresent {
        spec_add_new(v, cell, new_machine, old_tile)
    } else {
        (w, spec_refusal_of(r))
    }
}

/// Only one network is the first to hold a cell.
proof fn lemma_first_holder_unique(nets: Seq<NetworkView>, cell: CellIndex, i: int)
    requires
        first_holder_at(nets, cell, i),
    ensures
        first_holder(nets, cell) == i,
{
    let j = first_holder(nets, cell);
    assert(first_holder_at(nets, cell, j));
    if j < i {
        assert(!holds(nets[j], cell));
    } else if i < j {
        assert(!holds(nets[i], cell));
    }
}

/// With no network holding the cell, the first holder is past the last network.
proof fn lemma_first_holder_absent(nets: Seq<NetworkView>, cell: CellIndex)
    requires
        forall|j: int| 0 <= j < nets.len() ==> !holds(#[trigger] nets[j], cell),
    ensures
        first_holder(nets, cell) == nets.len(),
{
    assert(!exists|i: int| first_holder_at(nets, cell, i)) by {
        if exists|i: int| first_holder_at(nets, cell, i) {
            let i = choose|i: int| first_holder_at(nets, cell, i);
            assert(!holds(nets[i], cell));
        }
    }
}

/// Taking a network out of a sequence takes its nodes out of the count, which held them.
proof fn lemma_nodes_in_remove(nets: Seq<NetworkView>, i: int)
    requires
        0 <= i < nets.len(),
    ensures
        nodes_in(nets.remove(i)) + nets[i].nodes.len() == nodes_in(nets),
    decreases nets.len(),
{
    if i == nets.len() - 1 {
        assert(nets.remove(i) =~= nets.drop_last());
    } else {
        lemma_nodes_in_remove(nets.drop_last(), i);
        assert(nets.remove(i).drop_last() =~= nets.drop_last().remove(i));
        assert(nets.remove(i).last() == nets.last());
        assert(nets.drop_last()[i] == nets[i]);
    }
}

/// Replacing keeps a network of machines and wires one of machines and wires, and leaves its
/// store as it was or as the replacement's accounts make it.
proof fn lemma_replaced_machines(n: NetworkView, cell: CellIndex, new_machine: TileType)
    requires
        machines_only(n),
    ensures
        machines_only(n.replaced(cell, new_machine).0),
        n.replaced(cell, new_machine).0.nodes.len() <= n.nodes.len(),
{
    let k = position_index(n.nodes, cell);
    let r = n.replaced(cell, new_machine).0;
    if k < n.nodes.len() {
        assert forall|j: int| 0 <= j < r.nodes.len() implies spec_is_networkable(#[trigger] r.nodes[j].tile) by {
            let remaining = n.nodes.update(k, n.nodes.last()).drop_last();
            if j < remaining.len() && r.nodes[j] == remaining[j] {
                if j == k {
                    assert(remaining[j] == n.nodes[n.nodes.len() - 1]);
                } else {
                    assert(remaining[j] == n.nodes[j]);
                }
            } else if r.nodes == n.nodes.update(k, Node { position: cell, tile: new_machine }) {
                if j != k {
                    assert(r.nodes[j] == n.nodes[j]);
                }
            } else {
                assert(r.nodes[j] == n.nodes[j] || r.nodes[j] == n.nodes[k] || r.nodes[j] == n.nodes[n.nodes.len() - 1]);
            }
        }
    }
}

/// A network of the sequence has no more nodes than all of them.
proof fn lemma_nodes_in_each(nets: Seq<NetworkView>, i: int)
    requires
        0 <= i < nets.len(),
    ensures
        nets[i].nodes.len() <= nodes_in(nets),
{
    lemma_nodes_in_remove(nets, i);
    lemma_nodes_in_nonnegative(nets.remove(i));
}

/// Why a replacement failed, if it did; see `spec_refusal_of`.
fn refusal_of(r: Replacement) -> (result: Option<TransformationFailure>)
    ensures
        result == spec_refusal_of(r),
{
    match r {
        Replacement::NotEnoughMaterial => Some(TransformationFailure::NotEnoughMaterial),
        Replacement::NotEnoughStorage => Some(TransformationFailure::NotEnoughStorage),
        Replacement::Forbidden => Some(TransformationFailure::CanNotDeconstructShip),
        _ => None,
    }
}

/// The first of the networks with a node on the cell, or the number of networks if none has.
fn first_holder_exec(nets: &Vec<Network>, cell: CellIndex) -> (result: usize)
    ensures
        result == first_holder(views(nets@), cell),
        result <= nets@.len(),
{
    let mut i: usize = 0;
    while i < nets.len()
        invariant
            i <= nets@.len(),
            forall|j: int| 0 <= j < i ==> !holds(#[trigger] views(nets@)[j], cell),
        decreases nets@.len() - i,
    {
        assert(views(nets@)[i as int] == nets@[i as int]@);
        let found = nets[i].get_node(cell);
        if found.is_some() {
            assert(holds(views(nets@)[i as int], cell)) by {
                let k = choose|k: int| first_at(nets@[i as int].nodes@, cell, k) && nets@[i as int].nodes@[k] == found.unwrap();
                assert(first_at(views(nets@)[i as int].nodes, cell, k));
            }
            proof {
                lemma_first_holder_unique(views(nets@), cell, i as int);
            }
            return i;
        }
        assert(!holds(views(nets@)[i as int], cell)) by {
            if holds(views(nets@)[i as int], cell) {
                let k = choose|k: int| first_at(nets@[i as int].nodes@, cell, k);
                assert(nets@[i as int].nodes@[k].position == cell);
            }
        }
        i = i + 1;
    }
    proof {
        lemma_first_holder_absent(views(nets@), cell);
    }
    i
}

impl Networks {
    /// Builds `new_machine` where `old_tile` was, on a cell that no network holds; see
    /// `spec_add_new`.
    fn add_new(&mut self, cell_index: CellIndex, new_machine: TileType, old_tile: TileType) -> (result:
        Option<TransformationFailure>)
        requires
            fits(old(self)@, 1),
            spec_has_amounts(new_machine),
            spec_has_amounts(old_tile),
        ensures
            (final(self)@, result) == spec_add_new(old(self)@, cell_index, new_machine, old_tile),
    {
        let ghost v = self@;
        proof {
            lemma_nodes_in_nonnegative(v.unconnected);
            lemma_capacity_bounded(v.ship_network);
        }
        let (regained, spent, storage, _capacity) = Network::predict_storage(
            new_machine,
            old_tile,
            &self.ship_network,
        );
        let capacity = self.ship_network.get_storage_capacity() + storage_capacity(new_machine);
        if storage > capacity {
            return Some(TransformationFailure::NotEnoughStorage);
        }
        if storage < 0 {
            return Some(TransformationFailure::NotEnoughMaterial);
        }
        let node = Node { position: cell_index, tile: new_machine };
        if self.ship_network.is_adjacent(cell_index) {
            if !is_networkable(new_machine) {
                self.ship_network.stored_resources = self.ship_network.stored_resources - spent;
                return None;
            }
            self.ship_network.stored_resources = self.ship_network.stored_resources + regained;
            if self.ship_network.stored_resources >= MATERIAL_NEEDED_FOR_A_MACHINE {
                self.ship_network.add(node);
                proof {
                    let s1 = self.ship_network@;
                    assert(machines_only(s1)) by {
                        assert forall|k: int| 0 <= k < s1.nodes.len() implies spec_is_networkable(
                            #[trigger] s1.nodes[k].tile,
                        ) by {
                            if k < v.ship_network.nodes.len() {
                                assert(s1.nodes[k] == v.ship_network.nodes[k]);
                            }
                        }
                    }
                    assert(MATERIAL_NEEDED_FOR_A_MACHINE * nodes_in(v.unconnected) <= 30_000_000_000)
                        by (nonlinear_arith)
                        requires
                            0 <= nodes_in(v.unconnected) <= MAX_NETWORKS_NODES,
                            MATERIAL_NEEDED_FOR_A_MACHINE == 100_000,
                            MAX_NETWORKS_NODES == 300_000,
                    ;
                }
                absorb(&mut self.ship_network, &mut self.unconnected_networks, cell_index, true);
                return None;
            }
            return Some(TransformationFailure::NotEnoughMaterial);
        }
        if cell_index == self.ship_position {
            self.ship_network.add(node);
            return None;
        }
        if any_adjacent_exec(&self.unconnected_networks, cell_index) {
            let mut tail: Vec<Network> = Vec::new();
            proof {
                assert(views(tail@).reverse() =~= Seq::<NetworkView>::empty());
                assert(nodes_in(Seq::<NetworkView>::empty()) == 0);
            }
            merge(&mut self.unconnected_networks, cell_index, &mut tail, node, true);
            return None;
        }
        let mut fresh = Network::new_with_storage(MATERIAL_NEEDED_FOR_A_MACHINE);
        let (regained_here, _spent_here, fresh_storage, _fresh_capacity) = Network::predict_storage(
            new_machine,
            old_tile,
            &fresh,
        );
        if fresh_storage > storage_capacity(new_machine) || fresh_storage < 0 {
            return None;
        }
        fresh.stored_resources = fresh.stored_resources + regained_here;
        fresh.add(node);
        proof {
            assert(views(self.unconnected_networks@.push(fresh)) =~= views(
                self.unconnected_networks@,
            ).push(fresh@));
        }
        self.unconnected_networks.push(fresh);
        None
    }
}

impl Networks {
    /// Puts `new_machine` in place of the node on the cell, in the network that holds it; see
    /// `spec_replaced_in`.
    pub fn replace_if_present(&mut self, cell_index: CellIndex, new_machine: TileType) -> (result:
        Replacement)
        requires
            fits(old(self)@, 1),
            spec_has_amounts(new_machine),
        ensures
            (final(self)@, result) == spec_replaced_in(old(self)@, cell_index, new_machine),
    {
        let ghost v = self@;
        proof {
            lemma_nodes_in_nonnegative(v.unconnected);
            lemma_replaced_machines(v.ship_network, cell_index, new_machine);
        }
        let r = self.ship_network.replace_if_present(cell_index, new_machine);
        match r {
            Replacement::SplitNetwork => {
                let ghost ship1 = self.ship_network@;
                let mut taken = Network::new_with_storage(self.ship_network.stored_resources);
                std::mem::swap(&mut taken, &mut self.ship_network);
                let _ = taken.nodes.pop();
                proof {
                    assert(taken.nodes@ =~= ship1.nodes.drop_last());
                    assert forall|k: int| 0 <= k < taken.nodes@.len() implies spec_is_networkable(
                        #[trigger] taken.nodes@[k].tile,
                    ) by {
                        assert(taken.nodes@[k] == ship1.nodes[k]);
                    }
                }
                self.re_add(taken.nodes);
                return r;
            },
            Replacement::NotPresent => {},
            _ => {
                return r;
            },
        }
        let i = first_holder_exec(&self.unconnected_networks, cell_index);
        if i == self.unconnected_networks.len() {
            return Replacement::NotPresent;
        }
        proof {
            assert(views(self.unconnected_networks@)[i as int] == self.unconnected_networks@[i as int]@);
            lemma_nodes_in_each(v.unconnected, i as int);
            lemma_nodes_in_remove(v.unconnected, i as int);
            assert(machines_only(v.unconnected[i as int]));
            lemma_replaced_machines(v.unconnected[i as int], cell_index, new_machine);
        }
        let mut net = self.unconnected_networks.remove(i);
        let ghost others = views(self.unconnected_networks@);
        proof {
            assert(others =~= v.unconnected.remove(i as int));
            assert(all_machines(others)) by {
                assert forall|j: int| 0 <= j < others.len() implies machines_only(#[trigger] others[j]) by {
                    if j < i {
                        assert(others[j] == v.unconnected[j]);
                    } else {
                        assert(others[j] == v.unconnected[j + 1]);
                    }
                }
            }
            assert(stores_within(others, NETWORK_STORE_LIMIT as int)) by {
                assert forall|j: int| 0 <= j < others.len() implies -NETWORK_STORE_LIMIT
                    <= #[trigger] others[j].stored_resources <= NETWORK_STORE_LIMIT by {
                    if j < i {
                        assert(others[j] == v.unconnected[j]);
                    } else {
                        assert(others[j] == v.unconnected[j + 1]);
                    }
                }
            }
        }
        let r2 = net.replace_if_present(cell_index, new_machine);
        match r2 {
            Replacement::SplitNetwork => {
                let ghost n1 = net@;
                let _ = net.nodes.pop();
                proof {
                    assert(net.nodes@ =~= n1.nodes.drop_last());
                    assert forall|k: int| 0 <= k < net.nodes@.len() implies spec_is_networkable(
                        #[trigger] net.nodes@[k].tile,
                    ) by {
                        assert(net.nodes@[k] == n1.nodes[k]);
                    }
                }
                self.re_add(net.nodes);
                r2
            },
            Replacement::Regular => {
                if net.len() > 0 {
                    proof {
                        assert(views(self.unconnected_networks@.insert(i as int, net)) =~= others.insert(
                            i as int,
                            net@,
                        ));
                    }
                    self.unconnected_networks.insert(i, net);
                }
                r2
            },
            _ => {
                proof {
                    assert(views(self.unconnected_networks@.insert(i as int, net)) =~= v.unconnected);
                }
                self.unconnected_networks.insert(i, net);
                r2
            },
        }
    }

    /// Builds `new_machine` where `old_tile` was on the cell, and says why it could not be
    /// built, if it could not; see `spec_add`.
    pub fn add_with_reason(&mut self, cell_index: CellIndex, new_machine: TileType, old_tile: TileType) -> (result:
        Option<TransformationFailure>)
        requires
            fits(old(self)@, 1),
            spec_has_amounts(new_machine),
            spec_has_amounts(old_tile),
        ensures
            (final(self)@, result) == spec_add(old(self)@, cell_index, new_machine, old_tile),
    {
        let r = self.replace_if_present(cell_index, new_machine);
        if r == Replacement::NotPresent {
            self.add_new(cell_index, new_machine, old_tile)
        } else {
            refusal_of(r)
        }
    }

    /// Builds `new_machine` where `old_tile` was on the cell; whether it could be built.
    pub fn add(&mut self, cell_index: CellIndex, new_machine: TileType, old_tile: TileType) -> (result: bool)
        requires
            fits(old(self)@, 1),
            spec_has_amounts(new_machine),
            spec_has_amounts(old_tile),
        ensures
            final(self)@ == spec_add(old(self)@, cell_index, new_machine, old_tile).0,
            result == (spec_add(old(self)@, cell_index, new_machine, old_tile).1 is None),
    {
        self.add_with_reason(cell_index, new_machine, old_tile).is_none()
    }
}

/// The sum of `f` over the networks.
pub open spec fn total(nets: Seq<NetworkView>, f: spec_fn(NetworkView) -> int) -> int
    decreases nets.len(),
{
    if nets.len() == 0 {
        0
    } else {
        total(nets.drop_last(), f) + f(nets.last())
    }
}

/// The air that the networks clean in one update.
pub open spec fn air_cleaned_in(nets: Seq<NetworkView>) -> int {
    total(nets, |n: NetworkView| n.air_cleaned_speed())
}

/// The material that the networks store.
pub open spec fn stored_in(nets: Seq<NetworkView>) -> int {
    total(nets, |n: NetworkView| n.stored_resources)
}

/// The material that the networks can store.
pub open spec fn capacity_in(nets: Seq<NetworkView>) -> int {
    total(nets, |n: NetworkView| n.storage_capacity())
}

/// A network cleans at most one unit of air per node.
proof fn lemma_air_bounded(n: NetworkView)
    ensures
        0 <= n.air_cleaned_speed() <= n.nodes.len(),
{
    lemma_count_tiles_bounded(n.nodes, seq![TileType::MachineAirCleaner]);
}

/// A network stores at most what a storage machine stores, per node.
proof fn lemma_capacity_per_node(n: NetworkView)
    ensures
        0 <= n.storage_capacity() <= MAX_STORAGE_PER_STORAGE_MACHINE * n.nodes.len(),
{
    lemma_count_tiles_bounded(n.nodes, seq![TileType::MachineStorage]);
    lemma_count_tiles_bounded(n.nodes, seq![TileType::MachineShip]);
    lemma_count_two_tiles_bounded(n.nodes, TileType::MachineStorage, TileType::MachineShip);
    let a = n.count(seq![TileType::MachineStorage]);
    let b = n.count(seq![TileType::MachineShip]);
    let l = n.nodes.len() as int;
    assert(0 <= a * 10_000_000 + b * 1_000_000 + (l - a - b) * 1_000_000 <= 10_000_000 * l)
        by (nonlinear_arith)
        requires
            0 <= a,
            0 <= b,
            a + b <= l,
    ;
}

/// Each step of a sum over the first networks adds the next one.
proof fn lemma_total_step(nets: Seq<NetworkView>, f: spec_fn(NetworkView) -> int, i: int)
    requires
        0 <= i < nets.len(),
    ensures
        total(nets.take(i + 1), f) == total(nets.take(i), f) + f(nets[i]),
{
    assert(nets.take(i + 1).drop_last() =~= nets.take(i));
}

impl Networks {
    /// The networks of a ship at `ship_position`: its own network, holding the ship and the
    /// material it starts with, and no other.
    pub fn new(ship_position: CellIndex) -> (result: Networks)
        ensures
            result@ == (NetworksView {
                ship_position,
                ship_network: NetworkView {
                    nodes: seq![Node { position: ship_position, tile: TileType::MachineShip }],
                    stored_resources: SPACESHIP_INITIAL_STORAGE as int,
                },
                unconnected: Seq::empty(),
                air_cleaned: 0,
            }),
            fits(result@, 1),
    {
        let mut network = Network::new_with_storage(SPACESHIP_INITIAL_STORAGE);
        network.add_no_spend(Node { position: ship_position, tile: TileType::MachineShip });
        let result = Networks {
            ship_position,
            ship_network: network,
            unconnected_networks: Vec::new(),
            air_cleaned: 0,
        };
        proof {
            assert(result@.ship_network.nodes =~= seq![Node { position: ship_position, tile: TileType::MachineShip }]);
            assert(views(result.unconnected_networks@) =~= Seq::<NetworkView>::empty());
            assert(nodes_in(Seq::<NetworkView>::empty()) == 0);
        }
        result
    }

    /// The networks of a ship at the origin.
    pub fn new_default() -> (result: Networks)
        ensures
            result@ == Networks::new_spec(CellIndex { x: 0, y: 0, z: 0 }),
            fits(result@, 1),
    {
        Self::new(CellIndex::new(0, 0, 0))
    }

    /// The view of `Networks::new(ship_position)`.
    pub open spec fn new_spec(ship_position: CellIndex) -> NetworksView {
        NetworksView {
            ship_position,
            ship_network: NetworkView {
                nodes: seq![Node { position: ship_position, tile: TileType::MachineShip }],
                stored_resources: SPACESHIP_INITIAL_STORAGE as int,
            },
            unconnected: Seq::empty(),
            air_cleaned: 0,
        }
    }

    /// Number of networks, the ship's included.
    pub fn len(&self) -> (result: usize)
        requires
            self.unconnected_networks@.len() < usize::MAX,
        ensures
            result == self.unconnected_networks@.len() + 1,
    {
        self.unconnected_networks.len() + 1
    }

    /// Number of nodes of all the networks, less the ship.
    pub fn get_non_ship_machine_count(&self) -> (result: i32)
        requires
            node_count_within(self@),
        ensures
            result == self@.ship_network.nodes.len() + nodes_in(self@.unconnected) - 1,
    {
        let ghost nets = views(self.unconnected_networks@);
        proof {
            lemma_nodes_in_nonnegative(nets);
        }
        let mut machines: i32 = self.ship_network.len() as i32;
        let mut i: usize = 0;
        while i < self.unconnected_networks.len()
            invariant
                nets == views(self.unconnected_networks@),
                i <= nets.len(),
                machines == self@.ship_network.nodes.len() + nodes_in(nets.take(i as int)),
                self@.ship_network.nodes.len() + nodes_in(nets) <= MAX_NETWORKS_NODES,
            decreases nets.len() - i,
        {
            proof {
                assert(nets.take(i + 1).drop_last() =~= nets.take(i as int));
                assert(nets.take(i + 1).last() == nets[i as int]);
                assert(nets[i as int] == self.unconnected_networks@[i as int]@);
                lemma_nodes_in_take(nets, i + 1);
                lemma_nodes_in_nonnegative(nets.take(i as int));
            }
            let count = self.unconnected_networks[i].len();
            assert(count == nets[i as int].nodes.len());
            assert(nodes_in(nets.take(i + 1)) == nodes_in(nets.take(i as int)) + count);
            machines = machines + count as i32;
            i = i + 1;
        }
        proof {
            assert(nets.take(nets.len() as int) =~= nets);
        }
        machines - 1
    }

    /// Whether the ship's node is the only node of all the networks: whether they hold one node
    /// in all.
    pub fn only_ship_left(&self) -> (result: bool)
        ensures
            result == (self@.ship_network.nodes.len() + nodes_in(self@.unconnected) == 1),
    {
        let ghost nets = views(self.unconnected_networks@);
        proof {
            lemma_nodes_in_nonnegative(nets);
        }
        let mut total: usize = self.ship_network.nodes.len();
        if total > 1 {
            return false;
        }
        let mut i: usize = 0;
        while i < self.unconnected_networks.len()
            invariant
                nets == views(self.unconnected_networks@),
                i <= nets.len(),
                total <= 1,
                total == self@.ship_network.nodes.len() + nodes_in(nets.take(i as int)),
            decreases nets.len() - i,
        {
            proof {
                assert(nets.take(i + 1).drop_last() =~= nets.take(i as int));
                assert(nets.take(i + 1).last() == nets[i as int]);
                assert(nets[i as int] == self.unconnected_networks@[i as int]@);
                lemma_nodes_in_take(nets, i + 1);
                lemma_nodes_in_nonnegative(nets.take(i as int));
            }
            let n = self.unconnected_networks[i].nodes.len();
            assert(nodes_in(nets.take(i + 1)) == nodes_in(nets.take(i as int)) + n);
            if n > 1 - total {
                return false;
            }
            total = total + n;
            i = i + 1;
        }
        proof {
            assert(nets.take(nets.len() as int) =~= nets);
        }
        total == 1
    }

    /// Counts the air that the networks clean in one update.
    pub fn update(&mut self)
        requires
            fits(old(self)@, 0),
            old(self).air_cleaned + MAX_NETWORKS_NODES <= Liters::MAX,
        ensures
            final(self)@ == (NetworksView {
                air_cleaned: old(self)@.air_cleaned + old(self)@.ship_network.air_cleaned_speed()
                    + air_cleaned_in(old(self)@.unconnected),
                ..old(self)@
            }),
    {
        let ghost nets = views(self.unconnected_networks@);
        let ghost f = |n: NetworkView| n.air_cleaned_speed();
        proof {
            lemma_nodes_in_nonnegative(nets);
            lemma_air_bounded(self.ship_network@);
        }
        let mut air_cleaned: Liters = self.ship_network.get_air_cleaned_speed();
        let mut i: usize = 0;
        while i < self.unconnected_networks.len()
            invariant
                nets == views(self.unconnected_networks@),
                f == (|n: NetworkView| n.air_cleaned_speed()),
                i <= nets.len(),
                air_cleaned == self@.ship_network.air_cleaned_speed() + total(nets.take(i as int), f),
                0 <= air_cleaned <= self@.ship_network.nodes.len() + nodes_in(nets.take(i as int)),
                self@.ship_network.nodes.len() + nodes_in(nets) <= MAX_NETWORKS_NODES,
                stores_within(nets, NETWORK_STORE_LIMIT as int),
            decreases nets.len() - i,
        {
            proof {
                lemma_total_step(nets, f, i as int);
                assert(nets.take(i + 1).drop_last() =~= nets.take(i as int));
                assert(nets.take(i + 1).last() == nets[i as int]);
                assert(nets[i as int] == self.unconnected_networks@[i as int]@);
                lemma_nodes_in_each(nets, i as int);
                lemma_nodes_in_take(nets, i + 1);
                lemma_air_bounded(nets[i as int]);
                assert(-NETWORK_STORE_LIMIT <= nets[i as int].stored_resources <= NETWORK_STORE_LIMIT);
            }
            let produced = self.unconnected_networks[i].get_air_cleaned_speed();
            air_cleaned = air_cleaned + produced;
            i = i + 1;
        }
        proof {
            assert(nets.take(nets.len() as int) =~= nets);
            assert(f =~= (|n: NetworkView| n.air_cleaned_speed()));
        }
        self.air_cleaned = self.air_cleaned + air_cleaned;
    }

    /// The air cleaned since the count started.
    pub fn get_total_air_cleaned(&self) -> (result: Liters)
        ensures
            result == self.air_cleaned,
    {
        self.air_cleaned
    }

    /// The air cleaned since the count started, as the game shows it.
    pub fn get_total_air_cleaned_str(&self) -> (result: String)
        ensures
            result@ == spec_format_unit(self.air_cleaned as int, "L"@),
    {
        format_unit(self.get_total_air_cleaned(), "L")
    }

    /// Sets the count of the air cleaned.
    pub fn set_production(&mut self, air_cleaned: Liters)
        ensures
            final(self)@ == (NetworksView { air_cleaned: air_cleaned as int, ..old(self)@ }),
    {
        self.air_cleaned = air_cleaned;
    }

    /// Starts the count of the air cleaned again.
    pub fn reset_production(&mut self)
        ensures
            final(self)@ == (NetworksView { air_cleaned: 0, ..old(self)@ }),
    {
        self.air_cleaned = 0;
    }

    /// Drops the networks not connected to the ship, and starts the count of the air cleaned
    /// again.
    pub fn clear(&mut self)
        ensures
            final(self)@ == (NetworksView { unconnected: Seq::empty(), air_cleaned: 0, ..old(self)@ }),
    {
        self.unconnected_networks.clear();
        self.reset_production();
        proof {
            assert(views(self.unconnected_networks@) =~= Seq::<NetworkView>::empty());
        }
    }
}

/// The node on the cell: in the ship's network first, then in the first other network that
/// holds it.
pub open spec fn node_at(v: NetworksView, cell: CellIndex) -> Option<Node> {
    if holds(v.ship_network, cell) {
        Some(v.ship_network.nodes[position_index(v.ship_network.nodes, cell)])
    } else {
        let i = first_holder(v.unconnected, cell);
        if i < v.unconnected.len() {
            Some(v.unconnected[i].nodes[position_index(v.unconnected[i].nodes, cell)])
        } else {
            None
        }
    }
}

/// What `get_node` finds is the node of the first place on the cell.
proof fn lemma_found_node(n: NetworkView, cell: CellIndex, found: Option<Node>)
    requires
        match found {
            Some(node) => exists|k: int| first_at(n.nodes, cell, k) && n.nodes[k] == node,
            None => forall|i: int| 0 <= i < n.nodes.len() ==> #[trigger] n.nodes[i].position != cell,
        },
    ensures
        found is Some <==> holds(n, cell),
        found is Some ==> found == Some(n.nodes[position_index(n.nodes, cell)]),
{
    match found {
        Some(node) => {
            let k = choose|k: int| first_at(n.nodes, cell, k) && n.nodes[k] == node;
            lemma_first_at_unique(n.nodes, cell, k);
        },
        None => {
            if holds(n, cell) {
                let k = choose|k: int| first_at(n.nodes, cell, k);
                assert(n.nodes[k].position == cell);
            }
        },
    }
}

impl Networks {
    /// Whether the networks leave room for one more node within the limits that keep their
    /// accounts exact, and hold machines and wires only.
    pub fn has_room(&self) -> (result: bool)
        ensures
            result == fits(self@, 1),
    {
        let ghost nets = views(self.unconnected_networks@);
        proof {
            lemma_nodes_in_nonnegative(nets);
        }
        if !machines_only_exec(&self.ship_network) {
            return false;
        }
        if self.ship_network.stored_resources < -NETWORK_STORE_LIMIT
            || self.ship_network.stored_resources > NETWORK_STORE_LIMIT {
            return false;
        }
        let ship_nodes = self.ship_network.nodes.len();
        if ship_nodes >= MAX_NETWORKS_NODES {
            return false;
        }
        let mut count: usize = ship_nodes;
        let mut i: usize = 0;
        while i < self.unconnected_networks.len()
            invariant
                nets == views(self.unconnected_networks@),
                i <= nets.len(),
                count == self@.ship_network.nodes.len() + nodes_in(nets.take(i as int)),
                count < MAX_NETWORKS_NODES,
                all_machines(nets.take(i as int)),
                stores_within(nets.take(i as int), NETWORK_STORE_LIMIT as int),
            decreases nets.len() - i,
        {
            proof {
                assert(nets.take(i + 1).drop_last() =~= nets.take(i as int));
                assert(nets.take(i + 1).last() == nets[i as int]);
                assert(nets[i as int] == self.unconnected_networks@[i as int]@);
                lemma_nodes_in_take(nets, i + 1);
                lemma_nodes_in_nonnegative(nets.take(i as int));
            }
            let network = &self.unconnected_networks[i];
            let n = network.nodes.len();
            if n >= MAX_NETWORKS_NODES - count {
                proof {
                    assert(nodes_in(nets.take(i + 1)) == nodes_in(nets.take(i as int)) + n);
                }
                return false;
            }
            if !machines_only_exec(network) {
                proof {
                    assert(!machines_only(nets[i as int]));
                }
                return false;
            }
            if network.stored_resources < -NETWORK_STORE_LIMIT || network.stored_resources > NETWORK_STORE_LIMIT {
                proof {
                    assert(!(-NETWORK_STORE_LIMIT <= nets[i as int].stored_resources <= NETWORK_STORE_LIMIT));
                }
                return false;
            }
            proof {
                assert(nodes_in(nets.take(i + 1)) == nodes_in(nets.take(i as int)) + n);
                let t = nets.take(i + 1);
                assert forall|j: int| 0 <= j < t.len() implies machines_only(#[trigger] t[j])
                    && -NETWORK_STORE_LIMIT <= t[j].stored_resources <= NETWORK_STORE_LIMIT by {
                    if j < i {
                        assert(t[j] == nets.take(i as int)[j]);
                    }
                }
            }
            count = count + n;
            i = i + 1;
        }
        proof {
            assert(nets.take(nets.len() as int) =~= nets);
        }
        true
    }

    /// The material that all the networks store.
    pub fn get_stored_resources(&self) -> (result: Grams)
        requires
            fits(self@, 0),
            self@.unconnected.len() <= MAX_NETWORKS_NODES,
        ensures
            result == self@.ship_network.stored_resources + stored_in(self@.unconnected),
    {
        let ghost nets = views(self.unconnected_networks@);
        let ghost g = |n: NetworkView| n.stored_resources;
        let mut stored: Grams = self.ship_network.get_stored_resources();
        let mut i: usize = 0;
        while i < self.unconnected_networks.len()
            invariant
                nets == views(self.unconnected_networks@),
                g == (|n: NetworkView| n.stored_resources),
                i <= nets.len() <= MAX_NETWORKS_NODES,
                stored == self@.ship_network.stored_resources + total(nets.take(i as int), g),
                -3_000_000_000_000 * (i + 1) <= stored <= 3_000_000_000_000 * (i + 1),
                stores_within(nets, NETWORK_STORE_LIMIT as int),
            decreases nets.len() - i,
        {
            proof {
                lemma_total_step(nets, g, i as int);
                assert(nets[i as int] == self.unconnected_networks@[i as int]@);
                assert(-NETWORK_STORE_LIMIT <= nets[i as int].stored_resources <= NETWORK_STORE_LIMIT);
            }
            let here = self.unconnected_networks[i].get_stored_resources();
            assert(here == nets[i as int].stored_resources);
            stored = stored + here;
            i = i + 1;
        }
        proof {
            assert(nets.take(nets.len() as int) =~= nets);
            assert(g =~= (|n: NetworkView| n.stored_resources));
        }
        stored
    }

    /// The material that all the networks can store.
    pub fn get_storage_capacity(&self) -> (result: Grams)
        requires
            fits(self@, 0),
        ensures
            result == self@.ship_network.storage_capacity() + capacity_in(self@.unconnected),
    {
        let ghost nets = views(self.unconnected_networks@);
        let ghost g = |n: NetworkView| n.storage_capacity();
        proof {
            lemma_nodes_in_nonnegative(nets);
            lemma_capacity_per_node(self.ship_network@);
        }
        let mut capacity: Grams = self.ship_network.get_storage_capacity();
        let mut i: usize = 0;
        while i < self.unconnected_networks.len()
            invariant
                nets == views(self.unconnected_networks@),
                g == (|n: NetworkView| n.storage_capacity()),
                i <= nets.len(),
                capacity == self@.ship_network.storage_capacity() + total(nets.take(i as int), g),
                0 <= capacity <= MAX_STORAGE_PER_STORAGE_MACHINE * (self@.ship_network.nodes.len()
                    + nodes_in(nets.take(i as int))),
                self@.ship_network.nodes.len() + nodes_in(nets) <= MAX_NETWORKS_NODES,
                stores_within(nets, NETWORK_STORE_LIMIT as int),
            decreases nets.len() - i,
        {
            proof {
                lemma_total_step(nets, g, i as int);
                assert(nets.take(i + 1).drop_last() =~= nets.take(i as int));
                assert(nets.take(i + 1).last() == nets[i as int]);
                assert(nets[i as int] == self.unconnected_networks@[i as int]@);
                lemma_nodes_in_each(nets, i as int);
                lemma_nodes_in_take(nets, i + 1);
                lemma_capacity_per_node(nets[i as int]);
                assert(-NETWORK_STORE_LIMIT <= nets[i as int].stored_resources <= NETWORK_STORE_LIMIT);
                let a = self@.ship_network.nodes.len() + nodes_in(nets.take(i as int));
                let b = nets[i as int].nodes.len() as int;
                assert(MAX_STORAGE_PER_STORAGE_MACHINE * a + MAX_STORAGE_PER_STORAGE_MACHINE * b
                    == MAX_STORAGE_PER_STORAGE_MACHINE * (a + b)) by (nonlinear_arith);
                assert(MAX_STORAGE_PER_STORAGE_MACHINE * (a + b) <= 10_000_000 * 300_000) by (nonlinear_arith)
                    requires
                        0 <= a + b <= 300_000,
                        MAX_STORAGE_PER_STORAGE_MACHINE == 10_000_000,
                ;
            }
            capacity = capacity + self.unconnected_networks[i].get_storage_capacity();
            i = i + 1;
        }
        proof {
            assert(nets.take(nets.len() as int) =~= nets);
            assert(g =~= (|n: NetworkView| n.storage_capacity()));
        }
        capacity
    }

    /// The node on the cell, if a network holds one; see `node_at`.
    pub fn get(&self, position: CellIndex) -> (result: Option<Node>)
        ensures
            result == node_at(self@, position),
    {
        let found = self.ship_network.get_node(position);
        proof {
            lemma_found_node(self.ship_network@, position, found);
        }
        if found.is_some() {
            return found;
        }
        let i = first_holder_exec(&self.unconnected_networks, position);
        if i < self.unconnected_networks.len() {
            let found = self.unconnected_networks[i].get_node(position);
            proof {
                assert(views(self.unconnected_networks@)[i as int] == self.unconnected_networks@[i as int]@);
                assert(first_holder_at(views(self.unconnected_networks@), position, i as int));
                lemma_found_node(self.unconnected_networks@[i as int]@, position, found);
            }
            found
        } else {
            None
        }
    }

    /// Whether the ship's network has a node on the cell.
    pub fn is_in_ship_network(&self, position: CellIndex) -> (result: bool)
        ensures
            result == holds(self@.ship_network, position),
    {
        let found = self.ship_network.get_node(position);
        proof {
            lemma_found_node(self.ship_network@, position, found);
        }
        found.is_some()
    }

    /// Whether a node of the ship's network stands next to the cell.
    pub fn is_adjacent_to_ship_network(&self, cell_index: CellIndex) -> (result: bool)
        ensures
            result == adjacent_to(self@.ship_network, cell_index),
    {
        let result = self.ship_network.is_adjacent(cell_index);
        proof {
            if result {
                let k = choose|k: int| 0 <= k < self.ship_network.nodes@.len() && #[trigger] spec_is_adjacent(
                    self.ship_network.nodes@[k].position,
                    cell_index,
                );
                assert(spec_is_adjacent(self@.ship_network.nodes[k].position, cell_index));
            } else if adjacent_to(self@.ship_network, cell_index) {
                let k = choose|k: int| 0 <= k < self@.ship_network.nodes.len() && #[trigger] spec_is_adjacent(
                    self@.ship_network.nodes[k].position,
                    cell_index,
                );
                assert(spec_is_adjacent(self.ship_network.nodes@[k].position, cell_index));
            }
        }
        result
    }

    /// Whether a node of another network stands next to the cell.
    pub fn is_adjacent_to_unconnected_networks(&self, cell_index: CellIndex) -> (result: bool)
        ensures
            result == any_adjacent(self@.unconnected, cell_index),
    {
        any_adjacent_exec(&self.unconnected_networks, cell_index)
    }
}

/// Whether every node of the network is a machine or a wire.
fn machines_only_exec(network: &Network) -> (result: bool)
    ensures
        result == machines_only(network@),
{
    let mut k: usize = 0;
    while k < network.nodes.len()
        invariant
            k <= network.nodes@.len(),
            forall|j: int| 0 <= j < k ==> spec_is_networkable(#[trigger] network.nodes@[j].tile),
        decreases network.nodes@.len() - k,
    {
        if !is_networkable(network.nodes[k].tile) {
            return false;
        }
        k = k + 1;
    }
    true
}

/// Taking in the networks next to a cell takes in none when none is next to it.
proof fn lemma_absorbed_none(ship: NetworkView, nets: Seq<NetworkView>, cell: CellIndex, spend: bool)
    requires
        !any_adjacent(nets, cell),
    ensures
        absorbed(ship, nets, cell, spend) == (ship, nets),
    decreases nets.len(),
{
    if nets.len() > 0 {
        let rest = nets.drop_last();
        assert(!adjacent_to(nets[nets.len() - 1], cell));
        assert(!any_adjacent(rest, cell)) by {
            if any_adjacent(rest, cell) {
                let i = choose|i: int| 0 <= i < rest.len() && #[trigger] adjacent_to(rest[i], cell);
                assert(rest[i] == nets[i]);
            }
        }
        lemma_absorbed_none(ship, rest, cell, spend);
        assert(rest.push(nets.last()) =~= nets);
    }
}

/// Building a machine or a wire where there was air, on a cell that no network holds, next to
/// a connected ship's network that stores at least the material of a machine and no more than
/// it can, and away from the other networks; then taking it away again: both succeed, and the
/// networks are as they were, the material spent given back.
pub proof fn lemma_build_then_remove_restores_networks(v: NetworksView, cell: CellIndex, machine: TileType)
    requires
        spec_is_networkable(machine),
        machine != TileType::MachineShip,
        adjacent_to(v.ship_network, cell),
        !any_adjacent(v.unconnected, cell),
        forall|k: int| 0 <= k < v.ship_network.nodes.len() ==> #[trigger] v.ship_network.nodes[k].position != cell,
        forall|i: int, k: int|
            0 <= i < v.unconnected.len() && 0 <= k < v.unconnected[i].nodes.len()
                ==> #[trigger] v.unconnected[i].nodes[k].position != cell,
        spec_network_connected(positions_of(v.ship_network.nodes)),
        MATERIAL_NEEDED_FOR_A_MACHINE <= v.ship_network.stored_resources <= v.ship_network.storage_capacity(),
    ensures
        spec_add(v, cell, machine, TileType::Air).1 is None,
        spec_add(spec_add(v, cell, machine, TileType::Air).0, cell, TileType::Air, machine) == (v, None::<
            TransformationFailure,
        >),
{
    let ship = v.ship_network;
    let node = Node { position: cell, tile: machine };
    crate::world::networks::network::lemma_position_index_absent(ship.nodes, cell);
    assert forall|j: int| 0 <= j < v.unconnected.len() implies !holds(#[trigger] v.unconnected[j], cell) by {
        if holds(v.unconnected[j], cell) {
            let k = choose|k: int| first_at(v.unconnected[j].nodes, cell, k);
            assert(v.unconnected[j].nodes[k].position == cell);
        }
    }
    lemma_first_holder_absent(v.unconnected, cell);
    lemma_absorbed_none(ship.added(node), v.unconnected, cell, true);
    let v1 = NetworksView { ship_network: ship.added(node), ..v };
    assert(spec_add(v, cell, machine, TileType::Air) == (v1, None::<TransformationFailure>));
    lemma_capacity_push(ship, node);
    assert(ship.tried_add(node, TileType::Air).1 == Addition::Added);
    assert(ship.tried_add(node, TileType::Air).0 == ship.added(node));
    lemma_build_then_remove_restores(ship, node);
    assert(NetworksView { ship_network: ship, ..v1 } == v);
}

/// A network with one more machine or wire can store what that node stores more.
proof fn lemma_capacity_push(n: NetworkView, node: Node)
    requires
        spec_is_networkable(node.tile),
    ensures
        n.added(node).storage_capacity() == n.storage_capacity() + spec_storage_capacity(node.tile),
{
    crate::world::networks::network::lemma_count_tiles_push(n.nodes, node, seq![TileType::MachineStorage]);
    crate::world::networks::network::lemma_count_tiles_push(n.nodes, node, seq![TileType::MachineShip]);
    assert(seq![TileType::MachineStorage].contains(node.tile) == (node.tile == TileType::MachineStorage)) by {
        if node.tile == TileType::MachineStorage {
            assert(seq![TileType::MachineStorage][0] == node.tile);
        }
    }
    assert(seq![TileType::MachineShip].contains(node.tile) == (node.tile == TileType::MachineShip)) by {
        if node.tile == TileType::MachineShip {
            assert(seq![TileType::MachineShip][0] == node.tile);
        }
    }
}

/// Putting nodes back keeps the ship's place and the count of the air cleaned.
proof fn lemma_re_added_keeps_counts(v: NetworksView, nodes: Seq<Node>)
    ensures
        re_added(v, nodes).air_cleaned == v.air_cleaned,
        re_added(v, nodes).ship_position == v.ship_position,
    decreases nodes.len(),
{
    if nodes.len() > 0 {
        lemma_re_added_keeps_counts(v, nodes.drop_last());
    }
}

/// Building, replacing or taking away a machine, even one whose removal splits a network, keeps
/// the ship's place and the count of the air cleaned.
pub proof fn lemma_add_keeps_air_cleaned(v: NetworksView, cell: CellIndex, new_machine: TileType, old_tile: TileType)
    ensures
        spec_add(v, cell, new_machine, old_tile).0.air_cleaned == v.air_cleaned,
        spec_add(v, cell, new_machine, old_tile).0.ship_position == v.ship_position,
{
    let ship1 = v.ship_network.replaced(cell, new_machine).0;
    lemma_re_added_keeps_counts(
        NetworksView {
            ship_network: NetworkView { nodes: Seq::empty(), stored_resources: ship1.stored_resources },
            ..v
        },
        ship1.nodes.drop_last(),
    );
    let i = first_holder(v.unconnected, cell);
    if 0 <= i < v.unconnected.len() {
        let n1 = v.unconnected[i].replaced(cell, new_machine).0;
        lemma_re_added_keeps_counts(NetworksView { unconnected: v.unconnected.remove(i), ..v }, n1.nodes.drop_last());
    }
}

} // verus!
