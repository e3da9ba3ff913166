//! The endpoint: frames on the wire, and which requests await an answer.

use crate::descriptor::{DescriptorModel, ToolDescriptor};
use crate::dispatcher::{InvocationRequest, RequestModel};
use crate::error::{ErrorKind, ErrorModel, InvocationError, InvocationResult, ResultModel};
use crate::registry::{descriptors_view, Registry};
use crate::text::{copy_text, same_text};
use vstd::prelude::*;
use vstd::string::*;

verus! {

/// The longest body that a frame may carry, in bytes.
pub const MAX_FRAME_LEN: usize = 1048576;

/// The number that four bytes denote, the most significant first.
pub open spec fn be32(b0: u8, b1: u8, b2: u8, b3: u8) -> nat {
    (b0 as nat) * 16777216 + (b1 as nat) * 65536 + (b2 as nat) * 256 + (b3 as nat)
}

/// The four bytes that denote `n`, the most significant first.
pub open spec fn be32_bytes(n: nat) -> Seq<u8> {
    seq![
        ((n / 16777216) % 256) as u8,
        ((n / 65536) % 256) as u8,
        ((n / 256) % 256) as u8,
        (n % 256) as u8,
    ]
}

/// A body as it goes over the wire: its length in four bytes, then the
/// body.
pub open spec fn frame_of(body: Seq<u8>) -> Seq<u8> {
    be32_bytes(body.len()) + body
}

/// What the front of a buffer holds.
pub enum Framing {
    /// Not yet a whole frame: more bytes are needed.
    Incomplete,
    /// A frame longer than `MAX_FRAME_LEN`: the stream is refused.
    Oversized,
    /// A whole frame: its body and what follows it.
    Frame { body: Seq<u8>, rest: Seq<u8> },
}

/// Reads the frame at the front of `buffer`.
pub open spec fn parse_frame(buffer: Seq<u8>) -> Framing {
    if buffer.len() < 4 {
        Framing::Incomplete
    } else {
        let n = be32(buffer[0], buffer[1], buffer[2], buffer[3]) as int;
        if n > MAX_FRAME_LEN {
            Framing::Oversized
        } else if buffer.len() < 4 + n {
            Framing::Incomplete
        } else {
            Framing::Frame { body: buffer.subrange(4, 4 + n), rest: buffer.skip(4 + n) }
        }
    }
}

/// Where the frame at the front of a buffer lies.
#[derive(Clone, Copy, Debug, PartialEq, Eq, Structural)]
pub enum FrameBounds {
    /// Not yet a whole frame: more bytes are needed.
    Incomplete,
    /// A frame longer than `MAX_FRAME_LEN`: the stream is refused.
    Oversized,
    /// The body lies from `start` up to `end`; the next frame begins at
    /// `end`.
    Frame { start: usize, end: usize },
}

/// Finds the frame at the front of `buffer`.
pub fn next_frame(buffer: &[u8]) -> (r: FrameBounds)
    ensures
        match parse_frame(buffer@) {
            Framing::Incomplete => r == FrameBounds::Incomplete,
            Framing::Oversized => r == FrameBounds::Oversized,
            Framing::Frame { body, rest } => r matches FrameBounds::Frame { start, end } && start == 4
                && end <= buffer@.len() && body == buffer@.subrange(4, end as int) && rest
                == buffer@.skip(end as int),
        },
{
    if buffer.len() < 4 {
        return FrameBounds::Incomplete;
    }
    let n: u64 = (buffer[0] as u64) * 16777216 + (buffer[1] as u64) * 65536 + (buffer[2] as u64) * 256
        + (buffer[3] as u64);
    if n > MAX_FRAME_LEN as u64 {
        return FrameBounds::Oversized;
    }
    let n: usize = n as usize;
    if buffer.len() - 4 < n {
        return FrameBounds::Incomplete;
    }
    FrameBounds::Frame { start: 4, end: 4 + n }
}

/// Puts a body into a frame.
pub fn encode_frame(body: &[u8]) -> (r: Vec<u8>)
    requires
        body@.len() <= MAX_FRAME_LEN,
    ensures
        r@ == frame_of(body@),
{
    let n: usize = body.len();
    let mut out: Vec<u8> = Vec::new();
    out.push(((n / 16777216) % 256) as u8);
    out.push(((n / 65536) % 256) as u8);
    out.push(((n / 256) % 256) as u8);
    out.push((n % 256) as u8);
    proof {
        assert(out@ =~= be32_bytes(n as nat) + body@.take(0));
    }
    let mut i: usize = 0;
    while i < n
        invariant
            n == body@.len(),
            i <= n,
            out@ == be32_bytes(n as nat) + body@.take(i as int),
        decreases n - i,
    {
        out.push(body[i]);
        proof {
            assert(body@.take(i + 1) =~= body@.take(i as int).push(body@[i as int]));
            assert(out@ =~= be32_bytes(n as nat) + body@.take(i + 1));
        }
        i = i + 1;
    }
    proof {
        assert(body@.take(n as int) =~= body@);
    }
    out
}

/// A frame is read back as the body that was put into it, and what stood
/// behind the frame is what follows.
pub proof fn lemma_frame_round_trip(body: Seq<u8>, rest: Seq<u8>)
    requires
        body.len() <= MAX_FRAME_LEN,
    ensures
        parse_frame(frame_of(body) + rest) == (Framing::Frame { body, rest }),
{
    let n = body.len() as int;
    let buffer = frame_of(body) + rest;
    assert(buffer[0] == be32_bytes(n as nat)[0]);
    assert(buffer[1] == be32_bytes(n as nat)[1]);
    assert(buffer[2] == be32_bytes(n as nat)[2]);
    assert(buffer[3] == be32_bytes(n as nat)[3]);
    assert(be32(buffer[0], buffer[1], buffer[2], buffer[3]) == n);
    assert(buffer.subrange(4, 4 + n) =~= body);
    assert(buffer.skip(4 + n) =~= rest);
}

/// What a client asks for.
#[derive(Debug, PartialEq)]
pub enum Request {
    /// The list of all tools.
    ListTools { id: String },
    /// One call of a tool.
    CallTool(InvocationRequest),
}

/// What a `Request` is.
pub enum RequestKind {
    ListTools { id: Seq<char> },
    CallTool(RequestModel),
}

impl View for Request {
    type V = RequestKind;

    open spec fn view(&self) -> RequestKind {
        match *self {
            Request::ListTools { id } => RequestKind::ListTools { id: id@ },
            Request::CallTool(r) => RequestKind::CallTool(r@),
        }
    }
}

/// What a client is answered.
#[derive(Debug, PartialEq)]
pub enum Response {
    /// The list of all tools.
    Tools { id: String, tools: Vec<ToolDescriptor> },
    /// The payload or the error of one call.
    Answer(InvocationResult),
}

/// What a `Response` is.
pub enum ResponseModel {
    Tools { id: Seq<char>, tools: Seq<DescriptorModel> },
    Answer(ResultModel),
}

impl View for Response {
    type V = ResponseModel;

    open spec fn view(&self) -> ResponseModel {
        match *self {
            Response::Tools { id, tools } => ResponseModel::Tools {
                id: id@,
                tools: descriptors_view(tools@),
            },
            Response::Answer(r) => ResponseModel::Answer(r@),
        }
    }
}

impl ResponseModel {
    /// The id of the request that this answers.
    pub open spec fn id(self) -> Seq<char> {
        match self {
            ResponseModel::Tools { id, tools } => id,
            ResponseModel::Answer(r) => r.request_id,
        }
    }
}

impl RequestKind {
    /// The id that the client gave the request.
    pub open spec fn id(self) -> Seq<char> {
        match self {
            RequestKind::ListTools { id } => id,
            RequestKind::CallTool(call) => call.request_id,
        }
    }
}

impl Response {
    /// The id of the request that this answers.
    pub open spec fn id(self) -> Seq<char> {
        self@.id()
    }

    /// The id of the request that this answers.
    pub fn request_id(&self) -> (r: &str)
        ensures
            r@ == self.id(),
    {
        match self {
            Response::Tools { id, .. } => id.as_str(),
            Response::Answer(r) => r.request_id.as_str(),
        }
    }
}

/// What the endpoint does with a request.
#[derive(Debug, PartialEq)]
pub enum Step {
    /// The answer is known at once and goes out.
    Reply(Response),
    /// The call awaits its answer and goes to the dispatcher.
    Dispatch(InvocationRequest),
}

/// The error for a call whose id another call in flight has.
pub open spec fn id_in_flight(id: Seq<char>) -> ResultModel {
    ResultModel {
        request_id: id,
        outcome: Err(
            ErrorModel {
                kind: ErrorKind::TransportError,
                message: "a request with this id awaits its answer"@,
                detail: None,
            },
        ),
    }
}

/// The answer to a frame that could not be decoded. It carries no id, for
/// none could be read.
pub fn refuse_frame() -> (r: Response)
    ensures
        r@ == ResponseModel::Answer(undecodable()),
{
    Response::Answer(
        InvocationResult {
            request_id: String::new(),
            outcome: Err(
                InvocationError::plain(ErrorKind::TransportError, "the frame could not be decoded"),
            ),
        },
    )
}

/// The error for a frame that could not be decoded.
pub open spec fn undecodable() -> ResultModel {
    ResultModel {
        request_id: Seq::<char>::empty(),
        outcome: Err(
            ErrorModel {
                kind: ErrorKind::TransportError,
                message: "the frame could not be decoded"@,
                detail: None,
            },
        ),
    }
}

/// Whether some id of `ids` is `id`.
pub open spec fn listed(ids: Seq<String>, id: Seq<char>) -> bool {
    exists|i: int| 0 <= i < ids.len() && (#[trigger] ids[i])@ == id
}

/// No id occurs twice.
pub open spec fn distinct(ids: Seq<String>) -> bool {
    forall|i: int, j: int| 0 <= i < j < ids.len() ==> (#[trigger] ids[i])@ != (#[trigger] ids[j])@
}

/// Distinct ids are as many as the list is long.
pub proof fn lemma_count(ids: Seq<String>)
    requires
        distinct(ids),
    ensures
        Set::new(|id: Seq<char>| listed(ids, id)).finite(),
        Set::new(|id: Seq<char>| listed(ids, id)).len() == ids.len(),
    decreases ids.len(),
{
    let all = Set::new(|id: Seq<char>| listed(ids, id));
    if ids.len() == 0 {
        assert(all =~= Set::<Seq<char>>::empty());
    } else {
        let rest = ids.drop_last();
        let last = ids.last();
        let fewer = Set::new(|id: Seq<char>| listed(rest, id));
        assert forall|i: int, j: int| 0 <= i < j < rest.len() implies (#[trigger] rest[i])@ != (
        #[trigger] rest[j])@ by {
            assert(rest[i] == ids[i] && rest[j] == ids[j]);
        }
        lemma_count(rest);
        if listed(rest, last@) {
            let p = choose|p: int| 0 <= p < rest.len() && (#[trigger] rest[p])@ == last@;
            assert(rest[p] == ids[p]);
            assert(ids[p]@ != ids[ids.len() - 1]@);
        }
        assert forall|x: Seq<char>| #[trigger] all.contains(x) == fewer.insert(last@).contains(x) by {
            if listed(ids, x) {
                let p = choose|p: int| 0 <= p < ids.len() && (#[trigger] ids[p])@ == x;
                if p < rest.len() {
                    assert(rest[p] == ids[p]);
                    assert(listed(rest, x));
                }
            }
            if listed(rest, x) {
                let p = choose|p: int| 0 <= p < rest.len() && (#[trigger] rest[p])@ == x;
                assert(ids[p] == rest[p]);
                assert(listed(ids, x));
            }
            if x == last@ {
                assert(ids[ids.len() - 1]@ == x);
                assert(listed(ids, x));
            }
        }
        assert(all =~= fewer.insert(last@));
    }
}

/// The endpoint: the ids of the calls that await their answer.
#[derive(Debug)]
pub struct Endpoint {
    in_flight: Vec<String>,
}

impl View for Endpoint {
    type V = Set<Seq<char>>;

    closed spec fn view(&self) -> Set<Seq<char>> {
        Set::new(|id: Seq<char>| listed(self.in_flight@, id))
    }
}

impl Endpoint {
    /// No id awaits two answers.
    pub closed spec fn wf(&self) -> bool {
        distinct(self.in_flight@)
    }

    /// An endpoint on which no call awaits its answer.
    pub fn new() -> (r: Endpoint)
        ensures
            r.wf(),
            r@ == Set::<Seq<char>>::empty(),
    {
        let r = Endpoint { in_flight: Vec::new() };
        assert(r@ =~= Set::<Seq<char>>::empty());
        r
    }

    /// The number of calls that await their answer.
    pub fn pending(&self) -> (n: usize)
        requires
            self.wf(),
        ensures
            self@.finite(),
            n == self@.len(),
    {
        proof {
            lemma_count(self.in_flight@);
        }
        self.in_flight.len()
    }

    fn find(&self, id: &str) -> (r: Option<usize>)
        ensures
            match r {
                Some(i) => i < self.in_flight@.len() && self.in_flight@[i as int]@ == id@,
                None => !listed(self.in_flight@, id@),
            },
    {
        let n: usize = self.in_flight.len();
        let mut i: usize = 0;
        while i < n
            invariant
                n == self.in_flight@.len(),
                i <= n,
                forall|j: int| 0 <= j < i ==> (#[trigger] self.in_flight@[j])@ != id@,
            decreases n - i,
        {
            if same_text(self.in_flight[i].as_str(), id) {
                return Some(i);
            }
            i = i + 1;
        }
        None
    }

    /// Whether a call with this id awaits its answer.
    pub fn awaits(&self, id: &str) -> (r: bool)
        ensures
            r == self@.contains(id@),
    {
        match self.find(id) {
            Some(i) => {
                assert(listed(self.in_flight@, id@));
                true
            },
            None => false,
        }
    }

    /// Takes a request in. The list of tools is answered at once, from the
    /// registry. A call goes on to the dispatcher and from then on awaits
    /// its answer; a call whose id another call in flight has is refused
    /// at once and changes nothing.
    pub fn receive(&mut self, registry: &Registry, request: Request) -> (r: Step)
        requires
            old(self).wf(),
            registry.wf(),
        ensures
            final(self).wf(),
            match request@ {
                RequestKind::ListTools { id } => {
                    &&& r matches Step::Reply(response)
                    &&& response@ == (ResponseModel::Tools { id, tools: registry.tools() })
                    &&& final(self)@ == old(self)@
                },
                RequestKind::CallTool(call) => if old(self)@.contains(call.request_id) {
                    &&& r matches Step::Reply(response)
                    &&& response@ == ResponseModel::Answer(id_in_flight(call.request_id))
                    &&& final(self)@ == old(self)@
                } else {
                    &&& r matches Step::Dispatch(passed)
                    &&& passed@ == call
                    &&& final(self)@ == old(self)@.insert(call.request_id)
                },
            },
    {
        match request {
            Request::ListTools { id } => Step::Reply(
                Response::Tools { id, tools: registry.list_all_tools() },
            ),
            Request::CallTool(call) => {
                if self.awaits(call.request_id.as_str()) {
                    Step::Reply(
                        Response::Answer(
                            InvocationResult {
                                request_id: call.request_id,
                                outcome: Err(
                                    InvocationError::plain(
                                        ErrorKind::TransportError,
                                        "a request with this id awaits its answer",
                                    ),
                                ),
                            },
                        ),
                    )
                } else {
                    let ghost before = self.in_flight@;
                    let id = copy_text(call.request_id.as_str());
                    self.in_flight.push(id);
                    proof {
                        let after = self.in_flight@;
                        let n = before.len() as int;
                        assert forall|i: int, j: int| 0 <= i < j < after.len() implies (
                        #[trigger] after[i])@ != (#[trigger] after[j])@ by {
                            if j == n {
                                assert(after[i] == before[i]);
                                if before[i]@ == call.request_id@ {
                                    assert(listed(before, call.request_id@));
                                }
                            } else {
                                assert(after[i] == before[i] && after[j] == before[j]);
                            }
                        }
                        assert forall|x: Seq<char>| #[trigger] self@.contains(x) == old(self)@.insert(
                            call.request_id@,
                        ).contains(x) by {
                            if listed(after, x) {
                                let i = choose|i: int| 0 <= i < after.len() && (#[trigger] after[i])@ == x;
                                if i < n {
                                    assert(before[i] == after[i]);
                                    assert(listed(before, x));
                                }
                            }
                            if listed(before, x) {
                                let i = choose|i: int| 0 <= i < before.len() && (#[trigger] before[i])@
                                    == x;
                                assert(after[i] == before[i]);
                                assert(listed(after, x));
                            }
                            if x == call.request_id@ {
                                assert(after[n]@ == x);
                                assert(listed(after, x));
                            }
                        }
                        assert(self@ =~= old(self)@.insert(call.request_id@));
                    }
                    Step::Dispatch(call)
                }
            },
        }
    }

    /// Takes the answer to a call. It goes out if the call awaits it, and
    /// then the call awaits nothing more; an answer that no call awaits,
    /// such as one that comes after its call was answered, is dropped.
    pub fn complete(&mut self, result: InvocationResult) -> (r: Option<Response>)
        requires
            old(self).wf(),
        ensures
            final(self).wf(),
            final(self)@ == old(self)@.remove(result.request_id@),
            !final(self)@.contains(result.request_id@),
            match r {
                Some(response) => old(self)@.contains(result.request_id@) && response@
                    == ResponseModel::Answer(result@),
                None => !old(self)@.contains(result.request_id@),
            },
    {
        match self.find(result.request_id.as_str()) {
            Some(i) => {
                let ghost before = self.in_flight@;
                self.in_flight.remove(i);
                proof {
                    let after = self.in_flight@;
                    let id = result.request_id@;
                    assert(listed(before, id));
                    assert forall|a: int, b: int| 0 <= a < b < after.len() implies (#[trigger] after[a])@
                        != (#[trigger] after[b])@ by {
                        let a0 = if a < i {
                            a
                        } else {
                            a + 1
                        };
                        let b0 = if b < i {
                            b
                        } else {
                            b + 1
                        };
                        assert(after[a] == before[a0] && after[b] == before[b0]);
                    }
                    assert forall|x: Seq<char>| #[trigger] self@.contains(x) == old(self)@.remove(
                        id,
                    ).contains(x) by {
                        if listed(after, x) {
                            let p = choose|p: int| 0 <= p < after.len() && (#[trigger] after[p])@ == x;
                            let p0 = if p < i {
                                p
                            } else {
                                p + 1
                            };
                            assert(after[p] == before[p0]);
                            assert(listed(before, x));
                            if x == id {
                                if p0 < i {
                                    assert(before[p0]@ != before[i as int]@);
                                } else {
                                    assert(before[i as int]@ != before[p0]@);
                                }
                            }
                        }
                        if listed(before, x) && x != id {
                            let q = choose|q: int| 0 <= q < before.len() && (#[trigger] before[q])@ == x;
                            let q1 = if q < i {
                                q
                            } else {
                                q - 1
                            };
                            assert(after[q1] == before[q]);
                            assert(listed(after, x));
                        }
                    }
                    assert(self@ =~= old(self)@.remove(id));
                }
                Some(Response::Answer(result))
            },
            None => {
                assert(self@ =~= old(self)@.remove(result.request_id@));
                None
            },
        }
    }

    /// An answer that comes after its call was answered finds no call that
    /// awaits it: no request is answered twice.
    pub proof fn lemma_answered_once(in_flight: Set<Seq<char>>, id: Seq<char>)
        ensures
            !in_flight.remove(id).contains(id),
            forall|other: Seq<char>|
                other != id ==> in_flight.remove(id).contains(other) == in_flight.contains(other),
    {
    }
}

} // verus!
