//! Routing resolver: translates a route descriptor into an internal routing
//! decision, computing slot indexes for key-addressed routes and attaching a
//! reply-aggregation policy to multi-node broadcasts.

use vstd::prelude::*;

verus! {

/// Sub-target of a slot-addressed route.
#[derive(Clone, Copy, Debug, PartialEq, Eq, Structural)]
pub enum SlotTarget {
    Primary,
    ReplicaRequired,
}

/// A route descriptor as decoded from the externally owned wire schema.
/// Absence of a descriptor altogether means "use default routing".
#[derive(Debug, PartialEq, Eq)]
pub enum RouteDescriptor {
    Random,
    AllNodes,
    AllPrimaries,
    /// Route to the node owning the slot computed from this key.
    SlotKey { key: Vec<u8>, target: SlotTarget },
    /// Route to the node owning this explicit slot index.
    SlotId { id: u16, target: SlotTarget },
    /// Route to the node at this address. The port is kept as the wire's
    /// signed value; resolution checks it fits an unsigned 16-bit range.
    ByAddress { host: String, port: i32 },
}

/// Policy for combining the per-node replies of a broadcast command into one
/// logical result.
#[derive(Clone, Copy, Debug, PartialEq, Eq, Structural)]
pub enum AggregatePolicy {
    OneSucceeded,
    FirstSucceededNonEmptyOrAllEmpty,
    AllSucceeded,
    LogicalAnd,
    Min,
    Sum,
    ArrayMin,
    CombineArrays,
    Special,
    CombineMaps,
}

/// The resolver's answer: which node or nodes service the command.
#[derive(Debug, PartialEq, Eq)]
pub enum RoutingDecision {
    /// Any single node, chosen at random.
    RandomNode,
    /// The single node owning a slot.
    SlotRoute { slot: u16, target: SlotTarget },
    /// The single node at an explicit address.
    AddressedNode { host: String, port: u16 },
    /// Broadcast to every node.
    AllNodes { policy: Option<AggregatePolicy> },
    /// Broadcast to every primary.
    AllPrimaries { policy: Option<AggregatePolicy> },
}

/// The slot index the cluster assigns to a key: a pure function of the key
/// bytes alone.
pub uninterp spec fn slot_of(key: Seq<u8>) -> u16;

/// Relies on the cluster slot computation `redis::cluster_topology::get_slot`:
/// a hash of the key bytes (honouring hashtag braces), reduced modulo the
/// 16384-slot space, depending on the key bytes alone.
#[verifier::external_body]
fn key_slot(key: &[u8]) -> (r: u16)
    ensures
        r == slot_of(key@),
        r < 16384,
{
    redis::cluster_topology::get_slot(key)
}

/// The reply-aggregation policy the cluster routing table declares for a
/// command name: a pure function of the name bytes alone; absent for
/// commands without a declared policy.
pub uninterp spec fn policy_of(command_name: Seq<u8>) -> Option<AggregatePolicy>;

/// Relies on `redis::cluster_routing::ResponsePolicy::for_command`, a fixed
/// table from command name to aggregation policy, depending on the name
/// bytes alone; each table entry is restated one-for-one.
#[verifier::external_body]
fn response_policy_for(command_name: &[u8]) -> (r: Option<AggregatePolicy>)
    ensures
        r == policy_of(command_name@),
{
    redis::cluster_routing::ResponsePolicy::for_command(command_name).map(|p| match p {
        redis::cluster_routing::ResponsePolicy::OneSucceeded => AggregatePolicy::OneSucceeded,
        redis::cluster_routing::ResponsePolicy::FirstSucceededNonEmptyOrAllEmpty => AggregatePolicy::FirstSucceededNonEmptyOrAllEmpty,
        redis::cluster_routing::ResponsePolicy::AllSucceeded => AggregatePolicy::AllSucceeded,
        redis::cluster_routing::ResponsePolicy::AggregateLogical(redis::cluster_routing::LogicalAggregateOp::And) => AggregatePolicy::LogicalAnd,
        redis::cluster_routing::ResponsePolicy::Aggregate(redis::cluster_routing::AggregateOp::Min) => AggregatePolicy::Min,
        redis::cluster_routing::ResponsePolicy::Aggregate(redis::cluster_routing::AggregateOp::Sum) => AggregatePolicy::Sum,
        redis::cluster_routing::ResponsePolicy::AggregateArray(redis::cluster_routing::ArrayAggregateOp::Min) => AggregatePolicy::ArrayMin,
        redis::cluster_routing::ResponsePolicy::CombineArrays => AggregatePolicy::CombineArrays,
        redis::cluster_routing::ResponsePolicy::Special => AggregatePolicy::Special,
        redis::cluster_routing::ResponsePolicy::CombineMaps => AggregatePolicy::CombineMaps,
    })
}

/// The policy attached to a broadcast, given the command name if one is
/// known: absent when no command name is available.
pub open spec fn broadcast_policy_spec(name: Option<Seq<u8>>) -> Option<AggregatePolicy> {
    match name {
        Some(n) => policy_of(n),
        None => None,
    }
}

/// Whether a descriptor resolves to a decision at all: every defined variant
/// does, except an address whose port exceeds the unsigned 16-bit range.
pub open spec fn route_resolvable(d: RouteDescriptor) -> bool {
    match d {
        RouteDescriptor::ByAddress { host, port } => 0 <= port <= 65535,
        _ => true,
    }
}

/// Relates a descriptor (and the command name, for broadcast policies) to
/// the decision resolution produces for it.
pub open spec fn resolves_to(
    d: RouteDescriptor,
    name: Option<Seq<u8>>,
    r: RoutingDecision,
) -> bool {
    match d {
        RouteDescriptor::Random => r is RandomNode,
        RouteDescriptor::AllNodes => r matches RoutingDecision::AllNodes { policy }
            && policy == broadcast_policy_spec(name),
        RouteDescriptor::AllPrimaries => r matches RoutingDecision::AllPrimaries { policy }
            && policy == broadcast_policy_spec(name),
        RouteDescriptor::SlotKey { key, target } => r matches RoutingDecision::SlotRoute {
            slot,
            target: t,
        } && slot == slot_of(key@) && t == target,
        RouteDescriptor::SlotId { id, target } => r matches RoutingDecision::SlotRoute {
            slot,
            target: t,
        } && slot == id && t == target,
        RouteDescriptor::ByAddress { host, port } => r matches RoutingDecision::AddressedNode {
            host: h,
            port: p,
        } && h@ == host@ && 0 <= port <= 65535 && p == port as u16,
    }
}

/// Resolves a route descriptor to a routing decision.
///
/// Absence of a descriptor defers to default routing (`None`). Every defined
/// variant resolves to a decision, with one deliberate exception: an address
/// route whose port does not fit an unsigned 16-bit value silently resolves
/// to default routing instead of failing. Broadcast decisions carry the
/// reply-aggregation policy declared for the command name, if any.
pub fn resolve(route: Option<RouteDescriptor>, command_name: Option<&Vec<u8>>) -> (r: Option<
    RoutingDecision,
>)
    ensures
        r is Some <==> (route matches Some(d) && route_resolvable(d)),
        route matches Some(d) ==> (r matches Some(decision) ==> resolves_to(
            d,
            match command_name {
                Some(n) => Some(n@),
                None => None,
            },
            decision,
        )),
{
    let route = match route {
        Some(d) => d,
        None => {
            return None;
        },
    };
    match route {
        RouteDescriptor::Random => Some(RoutingDecision::RandomNode),
        RouteDescriptor::AllNodes => Some(
            RoutingDecision::AllNodes { policy: lookup_policy(command_name) },
        ),
        RouteDescriptor::AllPrimaries => Some(
            RoutingDecision::AllPrimaries { policy: lookup_policy(command_name) },
        ),
        RouteDescriptor::SlotKey { key, target } => Some(
            RoutingDecision::SlotRoute { slot: key_slot(key.as_slice()), target },
        ),
        RouteDescriptor::SlotId { id, target } => Some(
            RoutingDecision::SlotRoute { slot: id, target },
        ),
        RouteDescriptor::ByAddress { host, port } => {
            if 0 <= port && port <= 65535 {
                Some(RoutingDecision::AddressedNode { host, port: port as u16 })
            } else {
                // Out-of-range port: fall back to default routing rather
                // than surfacing an error.
                None
            }
        },
    }
}

/// The aggregation policy for the command, when its name is known.
fn lookup_policy(command_name: Option<&Vec<u8>>) -> (r: Option<AggregatePolicy>)
    ensures
        r == broadcast_policy_spec(
            match command_name {
                Some(n) => Some(n@),
                None => None,
            },
        ),
{
    match command_name {
        Some(name) => response_policy_for(name.as_slice()),
        None => None,
    }
}

} // verus!
