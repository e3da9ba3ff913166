//! The dispatcher: what is done with one request, step by step.

use crate::descriptor::{
    first_fault, lemma_first_fault_from, payload_fits, rule_fault, validate_arguments,
    validate_payload, DescriptorModel, ViolationModel,
};
use crate::error::{ErrorKind, ErrorModel, InvocationError, InvocationResult, ResultModel};
use crate::registry::Registry;
use crate::router::{returned_view, Invocation, LifecycleState, Router, RouterFailure};
use crate::session::SessionStore;
use crate::text::copy_text;
use crate::value::{fields_view, lookup, Field, FieldModel, Value, ValueModel};
use vstd::prelude::*;
use vstd::string::*;

verus! {

/// The time that a call gets where nothing else is configured, in
/// milliseconds.
pub const DEFAULT_TIMEOUT_MS: u64 = 30000;

/// One call of a tool, as the client asks for it.
#[derive(Debug, PartialEq)]
pub struct InvocationRequest {
    /// The client's own mark for the request; the answer carries it.
    pub request_id: String,
    pub tool_name: String,
    pub arguments: Vec<Field>,
}

/// What an `InvocationRequest` is.
pub struct RequestModel {
    pub request_id: Seq<char>,
    pub tool_name: Seq<char>,
    pub arguments: Seq<FieldModel>,
}

impl View for InvocationRequest {
    type V = RequestModel;

    open spec fn view(&self) -> RequestModel {
        RequestModel {
            request_id: self.request_id@,
            tool_name: self.tool_name@,
            arguments: fields_view(self.arguments@),
        }
    }
}

/// What an accepted call needs to be carried out.
#[derive(Clone, Copy, Debug, PartialEq, Eq, Structural)]
pub struct Ticket {
    /// The place of the owning router among the registered routers.
    pub router: usize,
    /// The place of the tool among the registered tools.
    pub tool: usize,
    /// Whether the router works on the caller's session.
    pub stateful: bool,
    /// The time by which the router has to answer, in milliseconds.
    pub deadline_ms: u64,
}

/// What the dispatcher decides on a request before any router runs.
#[derive(Debug, PartialEq)]
pub enum Plan {
    /// The request is answered with this error; no router is called.
    Reject(InvocationError),
    /// The owning router is to be called.
    Invoke(Ticket),
}

/// What a `Plan` is.
pub enum PlanModel {
    Reject(ErrorModel),
    Invoke(Ticket),
}

impl View for Plan {
    type V = PlanModel;

    open spec fn view(&self) -> PlanModel {
        match *self {
            Plan::Reject(e) => PlanModel::Reject(e@),
            Plan::Invoke(t) => PlanModel::Invoke(t),
        }
    }
}

/// How the call of a router ended.
#[derive(Debug, PartialEq)]
pub enum Outcome {
    /// The router answered in time, with a payload or a failure.
    Returned(Result<Value, RouterFailure>),
    /// The deadline passed first.
    Expired,
}

/// What an `Outcome` is.
pub enum OutcomeModel {
    Payload(ValueModel),
    Failed(Seq<char>),
    Expired,
}

impl View for Outcome {
    type V = OutcomeModel;

    open spec fn view(&self) -> OutcomeModel {
        match *self {
            Outcome::Returned(Ok(v)) => OutcomeModel::Payload(v@),
            Outcome::Returned(Err(f)) => OutcomeModel::Failed(f.message@),
            Outcome::Expired => OutcomeModel::Expired,
        }
    }
}

/// The time by which a call that starts at `now_ms` has to end: the
/// timeout later, or the end of time where that is beyond it.
pub open spec fn deadline_after(now_ms: u64, timeout_ms: u64) -> u64 {
    if now_ms + timeout_ms > u64::MAX {
        u64::MAX
    } else {
        (now_ms + timeout_ms) as u64
    }
}

/// The time by which a call that starts at `now_ms` has to end.
pub fn deadline_for(now_ms: u64, timeout_ms: u64) -> (r: u64)
    ensures
        r == deadline_after(now_ms, timeout_ms),
        r >= now_ms,
{
    if timeout_ms > u64::MAX - now_ms {
        u64::MAX
    } else {
        now_ms + timeout_ms
    }
}

/// Whether the deadline has passed at `now_ms`.
pub fn expired(deadline_ms: u64, now_ms: u64) -> (r: bool)
    ensures
        r == (now_ms >= deadline_ms),
{
    now_ms >= deadline_ms
}

/// The error for a tool that no router owns.
pub open spec fn unknown_tool(tool_name: Seq<char>) -> ErrorModel {
    ErrorModel {
        kind: ErrorKind::UnknownTool,
        message: "no router owns a tool of this name"@,
        detail: Some(tool_name),
    }
}

/// The error for arguments that break a rule of the schema.
pub open spec fn invalid_arguments(v: ViolationModel) -> ErrorModel {
    ErrorModel { kind: ErrorKind::InvalidArguments, message: v.reason.sentence(), detail: Some(v.field) }
}

/// The answer to a request whose call ended with `outcome`. A payload goes
/// out only where it fits the tool's output schema; a payload that does
/// not, and a failure that the router reports, are errors of the router;
/// a deadline that passed is a timeout.
pub open spec fn conclude_spec(
    descriptor: DescriptorModel,
    request_id: Seq<char>,
    outcome: OutcomeModel,
) -> ResultModel {
    ResultModel {
        request_id,
        outcome: match outcome {
            OutcomeModel::Payload(v) => if payload_fits(descriptor.output_schema, v) {
                Ok(v)
            } else {
                Err(
                    ErrorModel {
                        kind: ErrorKind::RouterInternalError,
                        message: "the payload does not fit the output schema"@,
                        detail: Some(descriptor.name),
                    },
                )
            },
            OutcomeModel::Failed(message) => Err(
                ErrorModel { kind: ErrorKind::RouterInternalError, message, detail: None },
            ),
            OutcomeModel::Expired => Err(
                ErrorModel {
                    kind: ErrorKind::Timeout,
                    message: "the router did not answer before the deadline"@,
                    detail: None,
                },
            ),
        },
    }
}

/// How a call ended that the router returned from.
pub open spec fn outcome_of(result: Result<ValueModel, Seq<char>>) -> OutcomeModel {
    match result {
        Ok(v) => OutcomeModel::Payload(v),
        Err(message) => OutcomeModel::Failed(message),
    }
}

/// What the owning router is asked to do for a request.
pub open spec fn invocation_of(call: RequestModel, session: Seq<char>, ticket: Ticket) -> Invocation {
    Invocation {
        tool_name: call.tool_name,
        arguments: call.arguments,
        session,
        deadline_ms: ticket.deadline_ms,
    }
}

/// Whether a router that takes calls may return `result` for `call`. A
/// stateful router works on the caller's store. Any other works on an
/// empty store of its own, and the caller's store stays as it was.
pub open spec fn performed<R: Router>(
    before: R,
    after: R,
    call: Invocation,
    stateful: bool,
    store_before: Map<(Seq<char>, Seq<char>), ValueModel>,
    store_after: Map<(Seq<char>, Seq<char>), ValueModel>,
    result: Result<ValueModel, Seq<char>>,
) -> bool {
    if stateful {
        before.answers(&after, call, store_before, store_after, result)
    } else {
        store_after == store_before && exists|scratch: Map<(Seq<char>, Seq<char>), ValueModel>| #[trigger]
            before.answers(
                &after,
                call,
                Map::<(Seq<char>, Seq<char>), ValueModel>::empty(),
                scratch,
                result,
            )
    }
}

/// Whether handing `call` to a router may give `result`. A router that is
/// not ready is not called: it fails, and nothing changes. A ready router
/// is called once.
pub open spec fn router_call<R: Router>(
    before: R,
    after: R,
    call: Invocation,
    stateful: bool,
    store_before: Map<(Seq<char>, Seq<char>), ValueModel>,
    store_after: Map<(Seq<char>, Seq<char>), ValueModel>,
    result: Result<ValueModel, Seq<char>>,
) -> bool {
    if before.lifecycle() != LifecycleState::Ready {
        &&& after == before
        &&& store_after == store_before
        &&& result == Err::<ValueModel, Seq<char>>("the router is not ready"@)
    } else {
        performed(before, after, call, stateful, store_before, store_after, result)
    }
}

/// Whether `answer` is the conclusion of handing `call` to the owning
/// router.
pub open spec fn dispatched<R: Router>(
    before: R,
    after: R,
    call: Invocation,
    stateful: bool,
    store_before: Map<(Seq<char>, Seq<char>), ValueModel>,
    store_after: Map<(Seq<char>, Seq<char>), ValueModel>,
    descriptor: DescriptorModel,
    request_id: Seq<char>,
    answer: ResultModel,
) -> bool {
    exists|result: Result<ValueModel, Seq<char>>| #[trigger]
        router_call(before, after, call, stateful, store_before, store_after, result) && answer
            == conclude_spec(descriptor, request_id, outcome_of(result))
}

/// Hands a call to its router. A router that is not ready is not called;
/// a stateful router works on `store`, any other on an empty store of its
/// own.
pub fn call_router<R: Router>(
    router: &mut R,
    ticket: &Ticket,
    request: &InvocationRequest,
    session: &str,
    store: &mut SessionStore,
) -> (r: Result<Value, RouterFailure>)
    requires
        old(store).wf(),
    ensures
        final(store).wf(),
        router_call(
            *old(router),
            *final(router),
            invocation_of(request@, session@, *ticket),
            ticket.stateful,
            old(store)@,
            final(store)@,
            returned_view(r),
        ),
{
    if !router.state().takes_calls() {
        Err(RouterFailure::new("the router is not ready"))
    } else if ticket.stateful {
        router.invoke(
            request.tool_name.as_str(),
            &request.arguments,
            session,
            store,
            ticket.deadline_ms,
        )
    } else {
        let mut scratch = SessionStore::new();
        router.invoke(
            request.tool_name.as_str(),
            &request.arguments,
            session,
            &mut scratch,
            ticket.deadline_ms,
        )
    }
}

/// The dispatcher: a registry that no longer changes, and the time that
/// each call gets.
pub struct Dispatcher {
    registry: Registry,
    timeout_ms: u64,
}

impl Dispatcher {
    /// The registry that the dispatcher resolves against.
    pub closed spec fn registry(&self) -> Registry {
        self.registry
    }

    /// The time that each call gets, in milliseconds.
    pub closed spec fn timeout(&self) -> u64 {
        self.timeout_ms
    }

    /// The registry is well formed and takes no more routers.
    pub open spec fn wf(&self) -> bool {
        self.registry().wf() && self.registry().is_sealed()
    }

    /// What is decided on a request at `now_ms`: an unknown tool is
    /// rejected first; then arguments that break the tool's input schema;
    /// else the owning router is to be called, by the deadline.
    pub open spec fn plan_spec(&self, request: RequestModel, now_ms: u64) -> PlanModel {
        match self.registry().tool_index(request.tool_name) {
            None => PlanModel::Reject(unknown_tool(request.tool_name)),
            Some(i) => match first_fault(self.registry().tools()[i].input_schema, request.arguments) {
                Some(v) => PlanModel::Reject(invalid_arguments(v)),
                None => PlanModel::Invoke(
                    Ticket {
                        router: self.registry().owners()[i] as usize,
                        tool: i as usize,
                        stateful: self.registry().routers()[self.registry().owners()[i]].stateful,
                        deadline_ms: deadline_after(now_ms, self.timeout()),
                    },
                ),
            },
        }
    }

    /// A request for a name that no router registered is rejected as an
    /// unknown tool, whatever its arguments.
    pub proof fn lemma_unknown_tool_rejected(&self, request: RequestModel, now_ms: u64)
        requires
            !self.registry().names().contains(request.tool_name),
        ensures
            self.plan_spec(request, now_ms) == PlanModel::Reject(unknown_tool(request.tool_name)),
            unknown_tool(request.tool_name).kind == ErrorKind::UnknownTool,
    {
    }

    /// A request for a registered tool whose arguments lack a field that
    /// the input schema requires is rejected for its arguments.
    pub proof fn lemma_missing_field_rejected(&self, request: RequestModel, now_ms: u64, rule: int)
        requires
            self.registry().names().contains(request.tool_name),
            0 <= rule < self.registry().tools()[self.registry().tool_index(
                request.tool_name,
            ).unwrap()].input_schema.len(),
            self.registry().tools()[self.registry().tool_index(
                request.tool_name,
            ).unwrap()].input_schema[rule].required,
            lookup(
                request.arguments,
                self.registry().tools()[self.registry().tool_index(
                    request.tool_name,
                ).unwrap()].input_schema[rule].name,
            ) is None,
        ensures
            self.plan_spec(request, now_ms) matches PlanModel::Reject(e) && e.kind
                == ErrorKind::InvalidArguments,
    {
        let i = self.registry().tool_index(request.tool_name).unwrap();
        let schema = self.registry().tools()[i].input_schema;
        lemma_first_fault_from(schema, request.arguments, 0);
        if first_fault(schema, request.arguments) is None {
            assert(rule_fault(schema[rule], request.arguments) is None);
        }
    }

    /// A call whose deadline passed is answered with a timeout, whatever
    /// the tool.
    pub proof fn lemma_expired_is_timeout(descriptor: DescriptorModel, request_id: Seq<char>)
        ensures
            conclude_spec(descriptor, request_id, OutcomeModel::Expired).request_id == request_id,
            conclude_spec(descriptor, request_id, OutcomeModel::Expired).outcome matches Err(e)
                && e.kind == ErrorKind::Timeout,
    {
    }

    /// Every error that the dispatcher answers with blames the request or
    /// the server, and a payload goes out only where it fits the schema.
    pub proof fn lemma_conclusions(descriptor: DescriptorModel, request_id: Seq<char>, outcome: OutcomeModel)
        ensures
            match conclude_spec(descriptor, request_id, outcome).outcome {
                Ok(v) => outcome == OutcomeModel::Payload(v) && payload_fits(descriptor.output_schema, v),
                Err(e) => e.kind.blames_server(),
            },
    {
    }

    /// A dispatcher over `registry`, which from now on takes no routers.
    pub fn new(registry: Registry, timeout_ms: u64) -> (r: Dispatcher)
        requires
            registry.wf(),
        ensures
            r.wf(),
            r.timeout() == timeout_ms,
            r.registry().tools() == registry.tools(),
            r.registry().owners() == registry.owners(),
            r.registry().routers() == registry.routers(),
            r.registry().advertised() == registry.advertised(),
    {
        let mut registry = registry;
        registry.seal();
        Dispatcher { registry, timeout_ms }
    }

    /// The registry that the dispatcher resolves against.
    pub fn registry_ref(&self) -> (r: &Registry)
        ensures
            *r == self.registry(),
    {
        &self.registry
    }

    /// The time that each call gets, in milliseconds.
    pub fn timeout_ms(&self) -> (r: u64)
        ensures
            r == self.timeout(),
    {
        self.timeout_ms
    }

    /// Decides what is done with a request, before any router runs.
    pub fn plan(&self, request: &InvocationRequest, now_ms: u64) -> (p: Plan)
        requires
            self.wf(),
        ensures
            p@ == self.plan_spec(request@, now_ms),
            !self.registry().names().contains(request.tool_name@) ==> p@ == PlanModel::Reject(
                unknown_tool(request.tool_name@),
            ),
            p matches Plan::Invoke(t) ==> t.tool < self.registry().tools().len() && t.router
                < self.registry().routers().len(),
    {
        match self.registry.find_tool(request.tool_name.as_str()) {
            None => Plan::Reject(
                InvocationError::about(
                    ErrorKind::UnknownTool,
                    "no router owns a tool of this name",
                    request.tool_name.as_str(),
                ),
            ),
            Some(i) => {
                let descriptor = self.registry.descriptor(i);
                match validate_arguments(&descriptor.input_schema, &request.arguments) {
                    Err(v) => Plan::Reject(
                        InvocationError {
                            kind: ErrorKind::InvalidArguments,
                            message: copy_text(v.reason.text()),
                            detail: Some(v.field),
                        },
                    ),
                    Ok(_) => {
                        let router: usize = self.registry.owner(i);
                        let stateful: bool = self.registry.router(router).stateful;
                        Plan::Invoke(
                            Ticket {
                                router,
                                tool: i,
                                stateful,
                                deadline_ms: deadline_for(now_ms, self.timeout_ms),
                            },
                        )
                    },
                }
            },
        }
    }

    /// Turns the end of a call into the answer to its request.
    pub fn conclude(&self, ticket: &Ticket, request_id: &str, outcome: Outcome) -> (r: InvocationResult)
        requires
            ticket.tool < self.registry().tools().len(),
        ensures
            r@ == conclude_spec(self.registry().tools()[ticket.tool as int], request_id@, outcome@),
    {
        let descriptor = self.registry.descriptor(ticket.tool);
        let outcome: Result<Value, InvocationError> = match outcome {
            Outcome::Returned(Ok(payload)) => {
                if validate_payload(&descriptor.output_schema, &payload) {
                    Ok(payload)
                } else {
                    Err(
                        InvocationError::about(
                            ErrorKind::RouterInternalError,
                            "the payload does not fit the output schema",
                            descriptor.name.as_str(),
                        ),
                    )
                }
            },
            Outcome::Returned(Err(failure)) => Err(
                InvocationError {
                    kind: ErrorKind::RouterInternalError,
                    message: failure.message,
                    detail: None,
                },
            ),
            Outcome::Expired => Err(
                InvocationError::plain(
                    ErrorKind::Timeout,
                    "the router did not answer before the deadline",
                ),
            ),
        };
        InvocationResult { request_id: copy_text(request_id), outcome }
    }

    /// Answers a request whose plan is to reject it.
    pub fn reject(request_id: &str, error: InvocationError) -> (r: InvocationResult)
        ensures
            r@ == (ResultModel { request_id: request_id@, outcome: Err(error@) }),
    {
        InvocationResult { request_id: copy_text(request_id), outcome: Err(error) }
    }

    /// Carries a request through with routers that answer at once: plans
    /// it, hands it to the owning router, and concludes. A request that is
    /// rejected touches neither a router nor the store, and no router but
    /// the owning one is touched in any case.
    pub fn dispatch<R: Router>(
        &self,
        routers: &mut Vec<R>,
        store: &mut SessionStore,
        session: &str,
        request: &InvocationRequest,
        now_ms: u64,
    ) -> (r: InvocationResult)
        requires
            self.wf(),
            old(store).wf(),
            old(routers)@.len() == self.registry().routers().len(),
        ensures
            final(store).wf(),
            final(routers)@.len() == old(routers)@.len(),
            r@.request_id == request.request_id@,
            self.plan_spec(request@, now_ms) matches PlanModel::Reject(e) ==> r@.outcome == Err::<
                ValueModel,
                ErrorModel,
            >(e),
            self.plan_spec(request@, now_ms) is Reject ==> final(routers)@ == old(routers)@,
            self.plan_spec(request@, now_ms) is Reject ==> final(store)@ == old(store)@,
            self.plan_spec(request@, now_ms) matches PlanModel::Invoke(t) ==> dispatched(
                old(routers)@[t.router as int],
                final(routers)@[t.router as int],
                invocation_of(request@, session@, t),
                t.stateful,
                old(store)@,
                final(store)@,
                self.registry().tools()[t.tool as int],
                request.request_id@,
                r@,
            ),
            self.plan_spec(request@, now_ms) matches PlanModel::Invoke(t) ==> forall|j: int|
                0 <= j < old(routers)@.len() && j != t.router ==> final(routers)@[j] == old(routers)@[j],
    {
        match self.plan(request, now_ms) {
            Plan::Reject(error) => {
                assert(self.plan_spec(request@, now_ms) == PlanModel::Reject(error@));
                Dispatcher::reject(request.request_id.as_str(), error)
            },
            Plan::Invoke(ticket) => {
                assert(self.plan_spec(request@, now_ms) == PlanModel::Invoke(ticket));
                let returned = call_router(
                    &mut routers[ticket.router],
                    &ticket,
                    request,
                    session,
                    store,
                );
                let ghost result = returned_view(returned);
                let r = self.conclude(&ticket, request.request_id.as_str(), Outcome::Returned(returned));
                proof {
                    assert(Outcome::Returned(returned)@ == outcome_of(result));
                    assert(router_call(
                        old(routers)@[ticket.router as int],
                        routers@[ticket.router as int],
                        invocation_of(request@, session@, ticket),
                        ticket.stateful,
                        old(store)@,
                        store@,
                        result,
                    ));
                    assert(forall|j: int|
                        0 <= j < old(routers)@.len() && j != ticket.router ==> routers@[j] == old(
                            routers,
                        )@[j]);
                }
                r
            },
        }
    }
}

} // verus!
