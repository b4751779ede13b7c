use glide_ffi::routing::{
    resolve, AggregatePolicy, RouteDescriptor, RoutingDecision, SlotTarget,
};

#[test]
fn absent_descriptor_defers_to_default_routing() {
    assert_eq!(resolve(None, None), None);
}

#[test]
fn random_resolves_to_a_single_random_node() {
    let decision = resolve(Some(RouteDescriptor::Random), None).unwrap();
    assert_eq!(decision, RoutingDecision::RandomNode);
}

#[test]
fn broadcasts_resolve_with_declared_policy() {
    // DBSIZE declares a sum aggregation for its broadcast replies.
    let name = b"DBSIZE".to_vec();
    let decision = resolve(Some(RouteDescriptor::AllPrimaries), Some(&name)).unwrap();
    assert_eq!(
        decision,
        RoutingDecision::AllPrimaries { policy: Some(AggregatePolicy::Sum) }
    );

    // SCRIPT EXISTS aggregates with a logical and.
    let name = b"SCRIPT EXISTS".to_vec();
    let decision = resolve(Some(RouteDescriptor::AllNodes), Some(&name)).unwrap();
    assert_eq!(
        decision,
        RoutingDecision::AllNodes { policy: Some(AggregatePolicy::LogicalAnd) }
    );

    // GET declares no aggregation policy.
    let name = b"GET".to_vec();
    let decision = resolve(Some(RouteDescriptor::AllNodes), Some(&name)).unwrap();
    assert_eq!(decision, RoutingDecision::AllNodes { policy: None });

    // Without a command name there is nothing to attach.
    let decision = resolve(Some(RouteDescriptor::AllNodes), None).unwrap();
    assert_eq!(decision, RoutingDecision::AllNodes { policy: None });
}

#[test]
fn slot_key_route_targets_the_keys_slot() {
    let decision = resolve(
        Some(RouteDescriptor::SlotKey { key: b"foo".to_vec(), target: SlotTarget::Primary }),
        None,
    )
    .unwrap();
    // The cluster assigns key "foo" to slot 12182.
    assert_eq!(
        decision,
        RoutingDecision::SlotRoute { slot: 12182, target: SlotTarget::Primary }
    );

    let decision = resolve(
        Some(RouteDescriptor::SlotKey { key: b"bar".to_vec(), target: SlotTarget::ReplicaRequired }),
        None,
    )
    .unwrap();
    assert_eq!(
        decision,
        RoutingDecision::SlotRoute { slot: 5061, target: SlotTarget::ReplicaRequired }
    );
}

#[test]
fn slot_key_honours_hashtag_braces() {
    let slot_of = |key: &[u8]| match resolve(
        Some(RouteDescriptor::SlotKey { key: key.to_vec(), target: SlotTarget::Primary }),
        None,
    )
    .unwrap()
    {
        RoutingDecision::SlotRoute { slot, .. } => slot,
        other => panic!("expected a slot route, got {:?}", other),
    };
    // Keys sharing a hashtag land on the same slot.
    assert_eq!(slot_of(b"{user1000}.following"), slot_of(b"{user1000}.followers"));
    assert_eq!(slot_of(b"{user1000}.following"), slot_of(b"user1000"));
}

#[test]
fn slot_id_routes_by_explicit_slot() {
    let decision = resolve(
        Some(RouteDescriptor::SlotId { id: 42, target: SlotTarget::ReplicaRequired }),
        None,
    )
    .unwrap();
    assert_eq!(
        decision,
        RoutingDecision::SlotRoute { slot: 42, target: SlotTarget::ReplicaRequired }
    );
}

#[test]
fn by_address_validates_the_port_range() {
    let decision = resolve(
        Some(RouteDescriptor::ByAddress { host: "node1.example".to_string(), port: 6379 }),
        None,
    )
    .unwrap();
    assert_eq!(
        decision,
        RoutingDecision::AddressedNode { host: "node1.example".to_string(), port: 6379 }
    );

    // An out-of-range port silently falls back to default routing.
    assert_eq!(
        resolve(
            Some(RouteDescriptor::ByAddress { host: "node1.example".to_string(), port: 65536 }),
            None,
        ),
        None
    );
    assert_eq!(
        resolve(
            Some(RouteDescriptor::ByAddress { host: "node1.example".to_string(), port: -1 }),
            None,
        ),
        None
    );

    // The boundary port still resolves.
    let decision = resolve(
        Some(RouteDescriptor::ByAddress { host: "h".to_string(), port: 65535 }),
        None,
    )
    .unwrap();
    assert_eq!(
        decision,
        RoutingDecision::AddressedNode { host: "h".to_string(), port: 65535 }
    );
}
