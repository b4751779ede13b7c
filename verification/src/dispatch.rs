//! Async dispatch engine and handle lifecycle: one shared handle per client,
//! a reference taken per in-flight operation, and exactly one completion
//! callback per dispatched operation.

use vstd::prelude::*;

use crate::response::{marshals_to, representable, valkey_value_to_command_response};
use crate::response::{CommandResponse, MarshalError, RespValue};
use crate::routing::{resolve, route_resolvable, resolves_to, RouteDescriptor, RoutingDecision};
use crate::scan::{
    byte_rows, count_valid, effective_count, effective_filter, is_scan_keyword, kw_value,
    match_kw, opt_bytes_view, parse_cluster_scan_args, scan_state_for, type_kw, type_valid,
    ClusterScanCursor, ScanPlan, ScanRegistry,
};

verus! {

/// Coarse classification of a command failure, mirroring the external
/// client's error taxonomy.
#[derive(Clone, Copy, Debug, PartialEq, Eq, Structural)]
pub enum ErrorClass {
    Unspecified,
    ExecAbort,
    Timeout,
    Disconnect,
    CircuitBreakerOpen,
}

/// What the external client reported for one finished operation: a value, or
/// a classified error.
#[derive(Debug)]
pub enum CompletionOutcome {
    Value(RespValue),
    Error { message: String, class: ErrorClass },
}

/// The one callback an operation's completion fires: success with the
/// marshalled tree (ownership transferred to the receiver), or failure with
/// a message and classification.
#[derive(Debug)]
pub enum CallbackInvocation {
    Success { token: u64, tree: CommandResponse },
    Failure { token: u64, message: String, class: ErrorClass },
}

/// A command ready to enqueue: the correlation token, the type tag, owned
/// copies of the argument bytes, and the resolved routing decision.
#[derive(Debug)]
pub struct CommandPlan {
    pub token: u64,
    pub request_type: u32,
    pub args: Vec<Vec<u8>>,
    pub route: Option<RoutingDecision>,
}

/// A credential update ready to enqueue.
#[derive(Debug)]
pub struct CredentialUpdatePlan {
    pub token: u64,
    /// The new secret; an empty secret means "clear the credential".
    pub secret: Option<String>,
    /// Whether to re-authenticate existing connections immediately.
    pub immediate_auth: bool,
}

pub open spec fn tokens_disjoint(a: Seq<u64>, b: Seq<u64>) -> bool {
    forall|t: u64| #[trigger] a.contains(t) ==> !b.contains(t)
}

/// The shared handle over one client: a reference count governing teardown,
/// the tokens of in-flight operations, the tokens already completed, and the
/// scan-state registry supplied at creation.
pub struct ClientAdapter {
    /// Shared reference count: one for the creator, one per in-flight
    /// operation. The handle is torn down when it reaches zero.
    pub refs: u64,
    /// Correlation tokens of operations dispatched but not yet completed.
    pub pending: Vec<u64>,
    /// Correlation tokens whose one completion callback has fired.
    pub completed: Vec<u64>,
    /// Total operations ever dispatched on this handle.
    pub dispatched: u64,
    /// Scan progress registry threaded through scan operations.
    pub registry: ScanRegistry,
}

impl ClientAdapter {
    /// The dispatch protocol invariant: no token is in flight twice, none is
    /// completed twice, none is both, and every dispatched operation is
    /// accounted for as either in flight or completed.
    pub open spec fn inv(&self) -> bool {
        &&& self.pending@.no_duplicates()
        &&& self.completed@.no_duplicates()
        &&& tokens_disjoint(self.pending@, self.completed@)
        &&& self.pending@.len() + self.completed@.len() == self.dispatched
        &&& self.registry.wf()
    }

    /// A fresh handle: one reference (the creator's), nothing in flight.
    pub fn new() -> (r: Self)
        ensures
            r.inv(),
            r.refs == 1,
            r.pending@.len() == 0,
            r.completed@.len() == 0,
            r.dispatched == 0,
            r.registry.entries@.len() == 0,
    {
        ClientAdapter {
            refs: 1,
            pending: Vec::new(),
            completed: Vec::new(),
            dispatched: 0,
            registry: ScanRegistry::new(),
        }
    }

    /// Whether an operation with this token is currently in flight.
    pub fn is_pending(&self, token: u64) -> (r: bool)
        ensures
            r == self.pending@.contains(token),
    {
        contains_token(&self.pending, token)
    }

    /// Whether an operation with this token has already completed.
    pub fn is_completed(&self, token: u64) -> (r: bool)
        ensures
            r == self.completed@.contains(token),
    {
        contains_token(&self.completed, token)
    }

    /// Registers a dispatched operation: the token joins the in-flight set
    /// and the operation takes its own reference on the handle.
    fn begin_operation(&mut self, token: u64)
        requires
            old(self).inv(),
            old(self).refs > 0,
            old(self).refs < u64::MAX,
            old(self).dispatched < u64::MAX,
            !old(self).pending@.contains(token),
            !old(self).completed@.contains(token),
        ensures
            final(self).inv(),
            final(self).pending@ == old(self).pending@.push(token),
            final(self).completed@ == old(self).completed@,
            final(self).dispatched == old(self).dispatched + 1,
            final(self).refs == old(self).refs + 1,
            final(self).registry == old(self).registry,
    {
        self.pending.push(token);
        self.refs = self.refs + 1;
        self.dispatched = self.dispatched + 1;
        proof {
            let prev = old(self).pending@;
            let cur = self.pending@;
            assert(cur == prev.push(token));
            assert forall|a: int, b: int|
                0 <= a < b < cur.len() implies cur[a] != cur[b] by {
                if b < cur.len() - 1 {
                    assert(cur[a] == prev[a] && cur[b] == prev[b]);
                } else {
                    assert(cur[a] == prev[a] && cur[b] == token);
                    assert(prev.contains(prev[a]));
                }
            }
            assert forall|t: u64| #[trigger] cur.contains(t) implies !self.completed@.contains(
                t,
            ) by {
                let k = choose|k: int| 0 <= k < cur.len() && cur[k] == t;
                if k < cur.len() - 1 {
                    assert(prev[k] == t);
                    assert(prev.contains(t));
                }
            }
        }
    }

    /// Dispatches a command: builds the plan from the type tag plus a flat
    /// ordered list of byte-string arguments (copied before returning, as
    /// the boundary contract demands), resolves routing, and registers the
    /// operation. Non-blocking: the caller enqueues the returned plan.
    pub fn command(
        &mut self,
        token: u64,
        request_type: u32,
        args: &Vec<Vec<u8>>,
        route: Option<RouteDescriptor>,
        command_name: Option<&Vec<u8>>,
    ) -> (plan: CommandPlan)
        requires
            old(self).inv(),
            old(self).refs > 0,
            old(self).refs < u64::MAX,
            old(self).dispatched < u64::MAX,
            !old(self).pending@.contains(token),
            !old(self).completed@.contains(token),
        ensures
            final(self).inv(),
            final(self).pending@ == old(self).pending@.push(token),
            final(self).completed@ == old(self).completed@,
            final(self).dispatched == old(self).dispatched + 1,
            final(self).refs == old(self).refs + 1,
            final(self).registry == old(self).registry,
            plan.token == token,
            plan.request_type == request_type,
            plan.args@.len() == args@.len(),
            forall|i: int| 0 <= i < args@.len() ==> #[trigger] plan.args@[i]@ == args@[i]@,
            plan.route is Some <==> (route matches Some(d) && route_resolvable(d)),
            route matches Some(d) ==> (plan.route matches Some(decision) ==> resolves_to(
                d,
                match command_name {
                    Some(n) => Some(n@),
                    None => None,
                },
                decision,
            )),
    {
        let owned_args = copy_rows(args);
        let routing = resolve(route, command_name);
        self.begin_operation(token);
        CommandPlan { token, request_type, args: owned_args, route: routing }
    }

    /// Dispatches a scan step: parses the filter arguments and resumes from
    /// the registered progress for the cursor's token. A filter failure
    /// completes the operation immediately with its one failure callback;
    /// otherwise the operation is registered and the caller enqueues the
    /// returned plan.
    pub fn request_cluster_scan(
        &mut self,
        token: u64,
        cursor: &ClusterScanCursor,
        args: &Vec<Vec<u8>>,
    ) -> (r: Result<ScanPlan, CallbackInvocation>)
        requires
            old(self).inv(),
            old(self).refs > 0,
            old(self).refs < u64::MAX,
            old(self).dispatched < u64::MAX,
            !old(self).pending@.contains(token),
            !old(self).completed@.contains(token),
            args@.len() > 0 ==> !is_scan_keyword(byte_rows(args@)[args@.len() - 1]),
        ensures
            final(self).inv(),
            r is Ok <==> (count_valid(byte_rows(args@)) && type_valid(byte_rows(args@))),
            r matches Ok(plan) ==> {
                &&& final(self).pending@ == old(self).pending@.push(token)
                &&& final(self).completed@ == old(self).completed@
                &&& final(self).dispatched == old(self).dispatched + 1
                &&& final(self).refs == old(self).refs + 1
                &&& final(self).registry == old(self).registry
                &&& opt_bytes_view(plan.args.match_pattern) == effective_filter(
                    kw_value(byte_rows(args@), match_kw()),
                )
                &&& opt_bytes_view(plan.args.object_type) == effective_filter(
                    kw_value(byte_rows(args@), type_kw()),
                )
                &&& plan.args.count == effective_count(byte_rows(args@))
                &&& old(self).registry.contains_token(cursor.token_spec()) ==> old(
                    self,
                ).registry.has_entry(cursor.token_spec(), plan.state)
            },
            r matches Err(cb) ==> {
                &&& final(self).pending@ == old(self).pending@
                &&& final(self).completed@ == old(self).completed@.push(token)
                &&& final(self).dispatched == old(self).dispatched + 1
                &&& final(self).refs == old(self).refs
                &&& final(self).registry == old(self).registry
                &&& cb matches CallbackInvocation::Failure { token: t, message, class } && t
                    == token && class is Unspecified
            },
    {
        match parse_cluster_scan_args(args) {
            Ok(scan_args) => {
                let state = scan_state_for(&self.registry, cursor.get_cursor());
                self.begin_operation(token);
                Ok(ScanPlan { state, args: scan_args })
            },
            Err(e) => {
                self.complete_immediately(token);
                let message = e.message().to_owned();
                Err(CallbackInvocation::Failure { token, message, class: ErrorClass::Unspecified })
            },
        }
    }

    /// Dispatches a credential update: an empty secret clears the stored
    /// credential rather than setting an empty one.
    pub fn update_connection_password(
        &mut self,
        token: u64,
        secret: String,
        immediate_auth: bool,
    ) -> (plan: CredentialUpdatePlan)
        requires
            old(self).inv(),
            old(self).refs > 0,
            old(self).refs < u64::MAX,
            old(self).dispatched < u64::MAX,
            !old(self).pending@.contains(token),
            !old(self).completed@.contains(token),
        ensures
            final(self).inv(),
            final(self).pending@ == old(self).pending@.push(token),
            final(self).completed@ == old(self).completed@,
            final(self).dispatched == old(self).dispatched + 1,
            final(self).refs == old(self).refs + 1,
            final(self).registry == old(self).registry,
            plan.token == token,
            plan.immediate_auth == immediate_auth,
            secret@.len() > 0 ==> (plan.secret matches Some(s) && s@ == secret@),
            secret@.len() == 0 ==> plan.secret is None,
    {
        let secret_option = if secret.as_str().is_empty() {
            None
        } else {
            Some(secret)
        };
        self.begin_operation(token);
        CredentialUpdatePlan { token, secret: secret_option, immediate_auth }
    }

    /// Records an operation that completed without ever being enqueued: it
    /// counts as dispatched and completed in one step, so its single
    /// (failure) callback stays the only one it will ever get.
    fn complete_immediately(&mut self, token: u64)
        requires
            old(self).inv(),
            old(self).dispatched < u64::MAX,
            !old(self).pending@.contains(token),
            !old(self).completed@.contains(token),
        ensures
            final(self).inv(),
            final(self).pending@ == old(self).pending@,
            final(self).completed@ == old(self).completed@.push(token),
            final(self).dispatched == old(self).dispatched + 1,
            final(self).refs == old(self).refs,
            final(self).registry == old(self).registry,
    {
        self.completed.push(token);
        self.dispatched = self.dispatched + 1;
        proof {
            let prev = old(self).completed@;
            let cur = self.completed@;
            assert forall|a: int, b: int|
                0 <= a < b < cur.len() implies cur[a] != cur[b] by {
                if b < cur.len() - 1 {
                    assert(cur[a] == prev[a] && cur[b] == prev[b]);
                } else {
                    assert(cur[a] == prev[a] && cur[b] == token);
                    assert(prev.contains(prev[a]));
                }
            }
            assert forall|t: u64| #[trigger] self.pending@.contains(t) implies !cur.contains(
                t,
            ) by {
                if cur.contains(t) {
                    let k = choose|k: int| 0 <= k < cur.len() && cur[k] == t;
                    if k < cur.len() - 1 {
                        assert(prev[k] == t);
                        assert(prev.contains(t));
                    }
                }
            }
        }
    }

    /// Completes an in-flight operation: the token leaves the in-flight set
    /// exactly once, joins the completed set, the operation's reference is
    /// released, and exactly one callback invocation is produced - success
    /// with the marshalled tree for a value, failure with the message and
    /// classification for an error. A value this boundary cannot represent
    /// is a fatal condition: no callback fires and the handle is unchanged.
    #[verifier::loop_isolation(false)]
    pub fn complete(&mut self, token: u64, outcome: CompletionOutcome) -> (r: Result<
        (CallbackInvocation, bool),
        MarshalError,
    >)
        requires
            old(self).inv(),
            old(self).refs > 0,
            old(self).pending@.contains(token),
        ensures
            r is Ok <==> match outcome {
                CompletionOutcome::Value(v) => representable(v),
                CompletionOutcome::Error { .. } => true,
            },
            r is Err ==> *final(self) == *old(self),
            r matches Ok((cb, teardown)) ==> {
                &&& final(self).inv()
                &&& exists|i: int|
                    0 <= i < old(self).pending@.len() && old(self).pending@[i] == token
                        && final(self).pending@ == old(self).pending@.remove(i)
                &&& final(self).completed@ == old(self).completed@.push(token)
                &&& final(self).dispatched == old(self).dispatched
                &&& final(self).refs == old(self).refs - 1
                &&& final(self).registry == old(self).registry
                &&& (teardown <==> final(self).refs == 0)
                &&& match outcome {
                    CompletionOutcome::Value(v) => cb matches CallbackInvocation::Success {
                        token: t,
                        tree,
                    } && t == token && marshals_to(v, tree),
                    CompletionOutcome::Error { message, class } => cb
                        matches CallbackInvocation::Failure {
                        token: t,
                        message: m,
                        class: c,
                    } && t == token && m == message && c == class,
                }
            },
    {
        let cb = match outcome {
            CompletionOutcome::Value(v) => {
                match valkey_value_to_command_response(&v) {
                    Ok(tree) => CallbackInvocation::Success { token, tree },
                    Err(e) => {
                        return Err(e);
                    },
                }
            },
            CompletionOutcome::Error { message, class } => CallbackInvocation::Failure {
                token,
                message,
                class,
            },
        };
        let n = self.pending.len();
        for i in 0..n
            invariant
                n == self.pending@.len(),
                *self == *old(self),
                forall|j: int| 0 <= j < i ==> self.pending@[j] != token,
        {
            if self.pending[i] == token {
                self.pending.remove(i);
                self.completed.push(token);
                self.refs = self.refs - 1;
                let teardown = self.refs == 0;
                proof {
                    let prev = old(self).pending@;
                    let cur = self.pending@;
                    assert(cur == prev.remove(i as int));
                    prev.remove_ensures(i as int);
                    assert forall|a: int, b: int|
                        0 <= a < b < cur.len() implies cur[a] != cur[b] by {
                        if a < i && b < i {
                            assert(cur[a] == prev[a] && cur[b] == prev[b]);
                        } else if a < i {
                            assert(cur[a] == prev[a] && cur[b] == prev[b + 1]);
                        } else {
                            assert(cur[a] == prev[a + 1] && cur[b] == prev[b + 1]);
                        }
                    }
                    let prevc = old(self).completed@;
                    let curc = self.completed@;
                    assert(curc == prevc.push(token));
                    assert forall|a: int, b: int|
                        0 <= a < b < curc.len() implies curc[a] != curc[b] by {
                        if b < curc.len() - 1 {
                            assert(curc[a] == prevc[a] && curc[b] == prevc[b]);
                        } else {
                            assert(curc[a] == prevc[a] && curc[b] == token);
                            assert(prevc.contains(prevc[a]));
                            assert(prev.contains(token));
                        }
                    }
                    assert forall|t: u64| #[trigger] cur.contains(t) implies !curc.contains(
                        t,
                    ) by {
                        let k = choose|k: int| 0 <= k < cur.len() && cur[k] == t;
                        if k < i {
                            assert(prev[k] == t);
                        } else {
                            assert(prev[k + 1] == t);
                        }
                        assert(prev.contains(t));
                        if curc.contains(t) {
                            let m = choose|m: int| 0 <= m < curc.len() && curc[m] == t;
                            if m < curc.len() - 1 {
                                assert(prevc[m] == t);
                                assert(prevc.contains(t));
                            } else {
                                // t == token: but token left the in-flight
                                // set, and it occurred there only once.
                                assert(prev[i as int] == token);
                                if k < i {
                                    assert(prev[k] != prev[i as int]);
                                } else {
                                    assert(prev[k + 1] != prev[i as int]);
                                }
                            }
                        }
                    }
                }
                return Ok((cb, teardown));
            }
        }
        proof {
            assert(!old(self).pending@.contains(token));
            assert(false);
        }
        unreached()
    }

    /// Releases the creator's reference, exactly once per successfully
    /// created handle. Does not wait for in-flight operations: each holds
    /// its own reference, so teardown happens only when the last reference
    /// is released.
    pub fn close_client(&mut self) -> (teardown: bool)
        requires
            old(self).inv(),
            old(self).refs > 0,
        ensures
            final(self).inv(),
            final(self).refs == old(self).refs - 1,
            (teardown <==> final(self).refs == 0),
            final(self).pending@ == old(self).pending@,
            final(self).completed@ == old(self).completed@,
            final(self).dispatched == old(self).dispatched,
            final(self).registry == old(self).registry,
    {
        self.refs = self.refs - 1;
        self.refs == 0
    }
}

/// Completion exactly-once law: on any handle satisfying the dispatch
/// invariant, the completed tokens are pairwise distinct and together with
/// the in-flight tokens account for every dispatched operation - so once
/// nothing is in flight, dispatching N operations has fired exactly N
/// callbacks, one per distinct correlation token, in no guaranteed order.
pub proof fn lemma_completion_exactly_once(a: ClientAdapter)
    requires
        a.inv(),
    ensures
        a.completed@.no_duplicates(),
        a.pending@.len() + a.completed@.len() == a.dispatched,
        a.pending@.len() == 0 ==> a.completed@.len() == a.dispatched,
{
}

fn contains_token(tokens: &Vec<u64>, token: u64) -> (r: bool)
    ensures
        r == tokens@.contains(token),
{
    let n = tokens.len();
    for i in 0..n
        invariant
            n == tokens@.len(),
            forall|j: int| 0 <= j < i ==> tokens@[j] != token,
    {
        if tokens[i] == token {
            return true;
        }
    }
    false
}

/// Copies every argument byte-string into storage this layer owns.
#[verifier::loop_isolation(false)]
fn copy_rows(args: &Vec<Vec<u8>>) -> (out: Vec<Vec<u8>>)
    ensures
        out@.len() == args@.len(),
        forall|i: int| 0 <= i < args@.len() ==> #[trigger] out@[i]@ == args@[i]@,
{
    let mut out: Vec<Vec<u8>> = Vec::new();
    let n = args.len();
    for i in 0..n
        invariant
            out@.len() == i,
            forall|j: int| 0 <= j < i ==> #[trigger] out@[j]@ == args@[j]@,
    {
        out.push(crate::response::copy_bytes(&args[i]));
    }
    out
}

/// The result of creating a client: exactly one of a live handle or a
/// textual error - never both, never partial.
pub enum ConnectionResponse {
    Connected(ClientAdapter),
    ConnectionError(String),
}

/// Builds the connection result from the outcome of the synchronous
/// connection attempt: a fresh handle holding its creator's single
/// reference on success, the textual error on failure.
pub fn create_client(connect_outcome: Result<(), String>) -> (r: ConnectionResponse)
    ensures
        connect_outcome is Ok ==> (r matches ConnectionResponse::Connected(a) && a.inv() && a.refs
            == 1 && a.pending@.len() == 0 && a.completed@.len() == 0 && a.dispatched == 0
            && a.registry.entries@.len() == 0),
        connect_outcome matches Err(m) ==> (r matches ConnectionResponse::ConnectionError(msg)
            && msg == m),
{
    match connect_outcome {
        Ok(()) => ConnectionResponse::Connected(ClientAdapter::new()),
        Err(message) => ConnectionResponse::ConnectionError(message),
    }
}

/// Releases a connection result, exactly once: ownership of the handle or
/// of the error message ends here. Reports whether an error message was
/// released.
pub fn free_connection_response(response: ConnectionResponse) -> (had_error: bool)
    ensures
        had_error <==> response is ConnectionError,
{
    match response {
        ConnectionResponse::Connected(_) => false,
        ConnectionResponse::ConnectionError(_) => true,
    }
}

} // verus!
