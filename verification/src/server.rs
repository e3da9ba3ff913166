//! A server over routers that answer at once: registry, dispatcher,
//! session store and endpoint together.

use crate::descriptor::DescriptorModel;
use crate::dispatcher::{dispatched, invocation_of, Dispatcher, PlanModel, RequestModel};
use crate::endpoint::{
    refuse_frame, undecodable, Endpoint, Request, RequestKind, Response, ResponseModel, Step,
};
use crate::error::ErrorModel;
use crate::registry::{
    lemma_refusal_persists, lemma_refused_or_registered, refusal_after, tools_after, Registry,
    RegistryError, RouterModel,
};
use crate::router::Router;
use crate::session::SessionStore;
use crate::value::ValueModel;
use crate::wire::{decode_request, encode_response, parse_request, wire_response};
use vstd::pervasive::unreached;
use vstd::prelude::*;

verus! {

/// What each router advertises, in the order of the routers.
pub open spec fn batches_of<R: Router>(routers: Seq<R>) -> Seq<Seq<DescriptorModel>> {
    routers.map_values(|x: R| x.advertised())
}

/// What the registry keeps of each router, in the order of the routers.
pub open spec fn records_of<R: Router>(routers: Seq<R>) -> Seq<RouterModel> {
    routers.map_values(|x: R| RouterModel { id: x.name(), stateful: x.keeps_state() })
}

/// Whether `response` answers the call as the dispatcher decides. A
/// rejected call gets its error and touches nothing. Any other gets the
/// conclusion of what its owning router did, and no other router is
/// touched.
pub open spec fn answers_call<R: Router>(
    dispatcher: Dispatcher,
    call: RequestModel,
    session: Seq<char>,
    now_ms: u64,
    response: ResponseModel,
    routers_before: Seq<R>,
    routers_after: Seq<R>,
    store_before: Map<(Seq<char>, Seq<char>), ValueModel>,
    store_after: Map<(Seq<char>, Seq<char>), ValueModel>,
) -> bool {
    match response {
        ResponseModel::Tools { .. } => false,
        ResponseModel::Answer(result) => {
            &&& result.request_id == call.request_id
            &&& routers_after.len() == routers_before.len()
            &&& match dispatcher.plan_spec(call, now_ms) {
                PlanModel::Reject(e) => {
                    &&& result.outcome == Err::<ValueModel, ErrorModel>(e)
                    &&& store_after == store_before
                    &&& routers_after == routers_before
                },
                PlanModel::Invoke(t) => {
                    &&& dispatched(
                        routers_before[t.router as int],
                        routers_after[t.router as int],
                        invocation_of(call, session, t),
                        t.stateful,
                        store_before,
                        store_after,
                        dispatcher.registry().tools()[t.tool as int],
                        call.request_id,
                        result,
                    )
                    &&& forall|j: int|
                        0 <= j < routers_before.len() && j != t.router ==> routers_after[j]
                            == routers_before[j]
                },
            }
        },
    }
}

/// Whether `bytes` are, as it is written, a response that answers the
/// call as the dispatcher decides.
pub open spec fn writes_answer<R: Router>(
    bytes: Seq<u8>,
    dispatcher: Dispatcher,
    call: RequestModel,
    session: Seq<char>,
    now_ms: u64,
    routers_before: Seq<R>,
    routers_after: Seq<R>,
    store_before: Map<(Seq<char>, Seq<char>), ValueModel>,
    store_after: Map<(Seq<char>, Seq<char>), ValueModel>,
) -> bool {
    exists|response: ResponseModel| #[trigger]
        answers_call(
            dispatcher,
            call,
            session,
            now_ms,
            response,
            routers_before,
            routers_after,
            store_before,
            store_after,
        ) && bytes == wire_response(response)
}

/// The routers, what is known of their tools, and what they keep.
pub struct Server<R: Router> {
    dispatcher: Dispatcher,
    routers: Vec<R>,
    store: SessionStore,
    endpoint: Endpoint,
}

impl<R: Router> Server<R> {
    /// The dispatcher.
    pub closed spec fn dispatcher(&self) -> Dispatcher {
        self.dispatcher
    }

    /// The routers, in the order of registration.
    pub closed spec fn routers(&self) -> Seq<R> {
        self.routers@
    }

    /// What the sessions hold.
    pub closed spec fn store(&self) -> Map<(Seq<char>, Seq<char>), ValueModel> {
        self.store@
    }

    /// The parts are well formed, each router has its record, and no call
    /// awaits its answer.
    pub closed spec fn wf(&self) -> bool {
        &&& self.dispatcher.wf()
        &&& self.store.wf()
        &&& self.endpoint.wf()
        &&& self.endpoint@ == Set::<Seq<char>>::empty()
        &&& self.routers@.len() == self.dispatcher.registry().routers().len()
    }

    /// Registers the routers in order and begins to serve. Where a router
    /// advertises a name that is taken, no server comes to be, and the
    /// first such name is reported. Else the server knows the tools of
    /// each router, in the order of the routers.
    pub fn build(routers: Vec<R>, timeout_ms: u64) -> (r: Result<Server<R>, RegistryError>)
        ensures
            match refusal_after(batches_of(routers@)) {
                Some(fault) => r matches Err(e) && e@ == fault,
                None => {
                    &&& r matches Ok(server)
                    &&& server.wf()
                    &&& server.routers() == routers@
                    &&& server.dispatcher().timeout() == timeout_ms
                    &&& server.dispatcher().registry().advertised() == batches_of(routers@)
                    &&& server.dispatcher().registry().routers() == records_of(routers@)
                    &&& tools_after(batches_of(routers@)) == Some(
                        server.dispatcher().registry().tools(),
                    )
                    &&& server.store() == Map::<(Seq<char>, Seq<char>), ValueModel>::empty()
                },
            },
    {
        let mut registry = Registry::new();
        let n: usize = routers.len();
        let ghost batches = batches_of(routers@);
        let ghost records = records_of(routers@);
        let mut i: usize = 0;
        proof {
            assert(batches.take(0) =~= registry.advertised());
            assert(records.take(0) =~= registry.routers());
        }
        while i < n
            invariant
                n == routers@.len(),
                i <= n,
                batches == batches_of(routers@),
                records == records_of(routers@),
                registry.wf(),
                !registry.is_sealed(),
                registry.advertised() == batches.take(i as int),
                registry.routers() == records.take(i as int),
            decreases n - i,
        {
            let id = routers[i].id();
            let tools = routers[i].list_tools();
            let stateful: bool = routers[i].stateful();
            proof {
                registry.lemma_tools_are_owned();
                assert(batches.take(i + 1).drop_last() =~= batches.take(i as int));
                assert(batches.take(i + 1).last() == batches[i as int]);
            }
            match registry.register(id.as_str(), stateful, &tools) {
                Ok(_) => {
                    proof {
                        assert(batches.take(i + 1) =~= batches.take(i as int).push(batches[i as int]));
                        assert(records.take(i + 1) =~= records.take(i as int).push(records[i as int]));
                    }
                },
                Err(e) => {
                    proof {
                        assert(refusal_after(batches.take(i + 1)) == Some(e@));
                        lemma_refused_or_registered(batches.take(i + 1));
                        lemma_refusal_persists(batches, i + 1);
                    }
                    return Err(e);
                },
            }
            i = i + 1;
        }
        proof {
            assert(batches.take(n as int) =~= batches);
            assert(records.take(n as int) =~= records);
            registry.lemma_tools_are_owned();
            lemma_refused_or_registered(batches);
        }
        let dispatcher = Dispatcher::new(registry, timeout_ms);
        Ok(Server { dispatcher, routers, store: SessionStore::new(), endpoint: Endpoint::new() })
    }

    /// The dispatcher.
    pub fn dispatcher_ref(&self) -> (r: &Dispatcher)
        ensures
            *r == self.dispatcher(),
    {
        &self.dispatcher
    }

    /// The router at `index`.
    pub fn router(&self, index: usize) -> (r: &R)
        requires
            index < self.routers().len(),
        ensures
            *r == self.routers()[index as int],
    {
        &self.routers[index]
    }

    /// The number of routers.
    pub fn router_count(&self) -> (n: usize)
        ensures
            n == self.routers().len(),
    {
        self.routers.len()
    }

    /// The session store.
    pub fn sessions(&self) -> (r: &SessionStore)
        ensures
            r@ == self.store(),
    {
        &self.store
    }

    /// Answers one request. Every request gets one answer, and the answer
    /// carries the id of the request. The list of tools comes from the
    /// registry and touches nothing; a call is answered as the dispatcher
    /// decides, and only its owning router is touched.
    pub fn handle(&mut self, session: &str, request: Request, now_ms: u64) -> (r: Response)
        requires
            old(self).wf(),
        ensures
            final(self).wf(),
            final(self).dispatcher() == old(self).dispatcher(),
            final(self).routers().len() == old(self).routers().len(),
            r@.id() == request@.id(),
            request@ matches RequestKind::ListTools { id } ==> {
                &&& r@ == (ResponseModel::Tools { id, tools: old(self).dispatcher().registry().tools() })
                &&& final(self).store() == old(self).store()
                &&& final(self).routers() == old(self).routers()
            },
            request@ matches RequestKind::CallTool(call) ==> answers_call(
                old(self).dispatcher(),
                call,
                session@,
                now_ms,
                r@,
                old(self).routers(),
                final(self).routers(),
                old(self).store(),
                final(self).store(),
            ),
    {
        match self.endpoint.receive(self.dispatcher.registry_ref(), request) {
            Step::Reply(response) => response,
            Step::Dispatch(call) => {
                let ghost waiting = self.endpoint@;
                let result = self.dispatcher.dispatch(
                    &mut self.routers,
                    &mut self.store,
                    session,
                    &call,
                    now_ms,
                );
                let ghost answer = result@;
                match self.endpoint.complete(result) {
                    Some(response) => {
                        proof {
                            assert(self.endpoint@ =~= old(self).endpoint@);
                            assert(response@ == ResponseModel::Answer(answer));
                            if old(self).dispatcher.plan_spec(call@, now_ms) is Reject {
                                assert(self.routers@ =~= old(self).routers@);
                            }
                        }
                        response
                    },
                    None => {
                        proof {
                            assert(waiting.contains(call.request_id@));
                        }
                        unreached()
                    },
                }
            },
        }
    }

    /// Answers the body of one frame with the body of another. A body
    /// that is no request is answered with a transport error and reaches
    /// neither the dispatcher nor a router; a request is handled, and the
    /// answer written with its id.
    pub fn respond(&mut self, session: &str, body: &[u8], now_ms: u64) -> (r: Vec<u8>)
        requires
            old(self).wf(),
        ensures
            final(self).wf(),
            final(self).dispatcher() == old(self).dispatcher(),
            final(self).routers().len() == old(self).routers().len(),
            parse_request(body@) is None ==> {
                &&& r@ == wire_response(ResponseModel::Answer(undecodable()))
                &&& final(self).store() == old(self).store()
                &&& final(self).routers() == old(self).routers()
            },
            parse_request(body@) matches Some(RequestKind::ListTools { id }) ==> {
                &&& r@ == wire_response(
                    ResponseModel::Tools { id, tools: old(self).dispatcher().registry().tools() },
                )
                &&& final(self).store() == old(self).store()
                &&& final(self).routers() == old(self).routers()
            },
            parse_request(body@) matches Some(RequestKind::CallTool(call)) ==> writes_answer(
                r@,
                old(self).dispatcher(),
                call,
                session@,
                now_ms,
                old(self).routers(),
                final(self).routers(),
                old(self).store(),
                final(self).store(),
            ),
    {
        match decode_request(body) {
            None => encode_response(&refuse_frame()),
            Some(request) => {
                let ghost asked = request@;
                let response = self.handle(session, request, now_ms);
                let r = encode_response(&response);
                proof {
                    assert(r@ == wire_response(response@));
                    match asked {
                        RequestKind::CallTool(call) => {
                            assert(answers_call(
                                old(self).dispatcher(),
                                call,
                                session@,
                                now_ms,
                                response@,
                                old(self).routers(),
                                self.routers(),
                                old(self).store(),
                                self.store(),
                            ));
                        },
                        RequestKind::ListTools { .. } => {},
                    }
                }
                r
            },
        }
    }
}

} // verus!
