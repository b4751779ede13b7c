use glide_ffi::dispatch::{
    create_client, free_connection_response, CallbackInvocation, ClientAdapter, CompletionOutcome,
    ConnectionResponse, ErrorClass,
};
use glide_ffi::response::{CommandResponse, RespValue};
use glide_ffi::routing::{RouteDescriptor, RoutingDecision};
use glide_ffi::scan::ClusterScanCursor;

const GET: u32 = 1504;

#[test]
fn create_yields_exactly_one_of_handle_or_error() {
    match create_client(Ok(())) {
        ConnectionResponse::Connected(adapter) => {
            assert_eq!(adapter.refs, 1);
            assert_eq!(adapter.dispatched, 0);
        }
        ConnectionResponse::ConnectionError(_) => panic!("expected a handle"),
    }
    match create_client(Err("connection refused".to_string())) {
        ConnectionResponse::Connected(_) => panic!("expected an error"),
        ConnectionResponse::ConnectionError(message) => {
            assert_eq!(message, "connection refused");
        }
    }
}

#[test]
fn freeing_a_connection_response_reports_a_contained_error() {
    assert!(!free_connection_response(create_client(Ok(()))));
    assert!(free_connection_response(create_client(Err("boom".to_string()))));
}

#[test]
fn simple_get_success_carries_the_string_node() {
    let mut adapter = ClientAdapter::new();
    let args = vec![b"foo".to_vec()];
    let plan = adapter.command(1, GET, &args, None, Some(&b"GET".to_vec()));
    assert_eq!(plan.token, 1);
    assert_eq!(plan.request_type, GET);
    assert_eq!(plan.args, vec![b"foo".to_vec()]);
    assert_eq!(plan.route, None);
    assert!(adapter.is_pending(1));

    // The store holds "bar" under "foo": success with a string node.
    let (cb, teardown) = adapter
        .complete(1, CompletionOutcome::Value(RespValue::BulkBytes(b"bar".to_vec())))
        .unwrap();
    match cb {
        CallbackInvocation::Success { token, tree } => {
            assert_eq!(token, 1);
            assert_eq!(tree, CommandResponse::Str(b"bar".to_vec()));
        }
        other => panic!("expected the success callback, got {:?}", other),
    }
    // The operation's reference is released; the creator's remains.
    assert!(!teardown);
    assert!(!adapter.is_pending(1));
    assert!(adapter.is_completed(1));
}

#[test]
fn simple_get_on_a_missing_key_carries_the_null_node() {
    let mut adapter = ClientAdapter::new();
    let args = vec![b"missing".to_vec()];
    adapter.command(1, GET, &args, None, Some(&b"GET".to_vec()));
    let (cb, _) = adapter.complete(1, CompletionOutcome::Value(RespValue::Nil)).unwrap();
    match cb {
        CallbackInvocation::Success { token, tree } => {
            assert_eq!(token, 1);
            assert_eq!(tree, CommandResponse::Null);
        }
        other => panic!("expected the success callback, got {:?}", other),
    }
}

#[test]
fn command_resolves_routing_for_the_plan() {
    let mut adapter = ClientAdapter::new();
    let args = vec![b"foo".to_vec()];
    let plan = adapter.command(9, GET, &args, Some(RouteDescriptor::Random), None);
    assert_eq!(plan.route, Some(RoutingDecision::RandomNode));
}

#[test]
fn failures_carry_message_and_classification() {
    let mut adapter = ClientAdapter::new();
    let args = vec![b"foo".to_vec()];
    adapter.command(4, GET, &args, None, None);
    let (cb, _) = adapter
        .complete(
            4,
            CompletionOutcome::Error {
                message: "read timed out".to_string(),
                class: ErrorClass::Timeout,
            },
        )
        .unwrap();
    match cb {
        CallbackInvocation::Failure { token, message, class } => {
            assert_eq!(token, 4);
            assert_eq!(message, "read timed out");
            assert!(matches!(class, ErrorClass::Timeout));
        }
        other => panic!("expected the failure callback, got {:?}", other),
    }
}

#[test]
fn an_unrepresentable_value_is_fatal_not_a_callback() {
    let mut adapter = ClientAdapter::new();
    let args = vec![b"foo".to_vec()];
    adapter.command(4, GET, &args, None, None);
    assert!(adapter.complete(4, CompletionOutcome::Value(RespValue::Unsupported)).is_err());
    // No callback fired: the operation is still accounted as in flight.
    assert!(adapter.is_pending(4));
    assert!(!adapter.is_completed(4));
}

#[test]
fn n_concurrent_operations_complete_exactly_once_each() {
    let mut adapter = ClientAdapter::new();
    let args = vec![b"k".to_vec()];
    for token in [10u64, 11, 12] {
        adapter.command(token, GET, &args, None, None);
    }
    assert_eq!(adapter.dispatched, 3);
    assert_eq!(adapter.refs, 4);

    // Completions arrive in a different order than dispatch order.
    let mut seen = Vec::new();
    for token in [11u64, 12, 10] {
        let (cb, _) = adapter
            .complete(token, CompletionOutcome::Value(RespValue::Int(token as i64)))
            .unwrap();
        match cb {
            CallbackInvocation::Success { token: t, .. } => seen.push(t),
            other => panic!("expected the success callback, got {:?}", other),
        }
    }
    seen.sort();
    assert_eq!(seen, vec![10, 11, 12]);
    assert_eq!(adapter.completed.len(), 3);
    assert_eq!(adapter.pending.len(), 0);
    assert_eq!(adapter.refs, 1);
}

#[test]
fn teardown_happens_when_the_last_reference_is_released() {
    let mut adapter = ClientAdapter::new();
    let args = vec![b"k".to_vec()];
    adapter.command(7, GET, &args, None, None);

    // Closing the handle does not wait for the in-flight operation.
    assert!(!adapter.close_client());
    // The operation's own completion releases the last reference.
    let (_, teardown) = adapter
        .complete(7, CompletionOutcome::Value(RespValue::Okay))
        .unwrap();
    assert!(teardown);
    assert_eq!(adapter.refs, 0);
}

#[test]
fn scan_dispatch_parses_filters_and_registers_the_operation() {
    let mut adapter = ClientAdapter::new();
    let cursor = ClusterScanCursor::new_cluster_cursor(Some("0".to_string()));
    let args = vec![
        b"MATCH".to_vec(),
        b"foo*".to_vec(),
        b"COUNT".to_vec(),
        b"100".to_vec(),
    ];
    let plan = adapter.request_cluster_scan(2, &cursor, &args).unwrap();
    assert_eq!(plan.args.match_pattern, Some(b"foo*".to_vec()));
    assert_eq!(plan.args.count, 100);
    assert!(adapter.is_pending(2));
}

#[test]
fn malformed_scan_count_invokes_the_failure_callback() {
    let mut adapter = ClientAdapter::new();
    let cursor = ClusterScanCursor::new_cluster_cursor(Some("0".to_string()));
    let args = vec![b"COUNT".to_vec(), b"abc".to_vec()];
    let cb = adapter.request_cluster_scan(3, &cursor, &args).unwrap_err();
    match cb {
        CallbackInvocation::Failure { token, message, class } => {
            assert_eq!(token, 3);
            assert!(message.contains("COUNT"));
            assert!(message.contains("unsigned integer"));
            assert!(matches!(class, ErrorClass::Unspecified));
        }
        other => panic!("expected the failure callback, got {:?}", other),
    }
    // The operation completed immediately: its one callback has fired.
    assert!(!adapter.is_pending(3));
    assert!(adapter.is_completed(3));
    assert_eq!(adapter.dispatched, 1);
}

#[test]
fn credential_updates_normalize_the_secret() {
    let mut adapter = ClientAdapter::new();
    let plan = adapter.update_connection_password(5, "rotated-secret".to_string(), true);
    assert_eq!(plan.token, 5);
    assert_eq!(plan.secret, Some("rotated-secret".to_string()));
    assert!(plan.immediate_auth);

    let plan = adapter.update_connection_password(6, String::new(), false);
    assert_eq!(plan.secret, None);
    assert!(!plan.immediate_auth);
}
