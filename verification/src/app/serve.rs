//! Serving requests.
use vstd::prelude::*;
use vstd::string::StringSliceAdditionalSpecFns;

use super::answer::Answer;
use super::echo::{policy_total, EchoCheck, EchoDecision, EchoPolicy};
use super::error::Error;
use super::inbound::{
    assembled, bad_length, bad_option_request, bad_options, rx_slots, selected, selections_valid,
    unreadable_length, valid_q_selections, InboundBody,
};
use super::notify::{observe_counted, observers_set, registers_at, rows_after, ObservePlan};
use super::path::{uri_path_fault, PathError};
use super::owned::subscribed_still;
use super::reactor::{
    calm, lemma_calm_same, lemma_calm_trans, lemma_pins_stay, lemma_sends_one, lemma_sends_trans,
    sends_to, tended, Core,
};
use super::reply::BlockOpt;
use super::request::{Request, RequestView};
use super::respond::{answered, separated};
use super::response::{bare_response, titled_problem, Response, ResponseView};
use super::routing::Method;
use super::site::{catalog_capacity, route_at, LinkFormatScratch, Site};
use crate::error::ValueError;
use crate::message::echo::{echo_option_of, echo_result};
use crate::message::fields::{block_option, first_value, observes_with, values_of};
use crate::message::wire::MessageView;
use crate::message::{BlockValue, Code, Echo, NoResponse, ParsedMessage};
use crate::storage::blocks::{rx_bodies_changed, rx_body_dropped};
use crate::storage::endpoint::Endpoint;
use crate::storage::io::DatagramIo;

verus! {

/// What serving a request of a peer leaves alone: incoming datagrams, and
/// everything of this side's own calls. Whatever is sent goes to that peer.
pub open spec fn attended<T>(a: Core<T>, b: Core<T>, peer: Endpoint) -> bool {
    &&& calm(a.engine, b.engine)
    &&& b.engine.store.rx == a.engine.store.rx
    &&& b.engine.exchanges == a.engine.exchanges
    &&& b.engine.store.observe == a.engine.store.observe || subscribed_still(
        a.engine.store.observe.rows@,
        b.engine.store.observe.rows@,
    )
    &&& b.inbox == a.inbox
    &&& b.lives == a.lives
    &&& sends_to(a.port.log@, b.port.log@, peer)
}

proof fn lemma_attended_trans<T>(a: Core<T>, b: Core<T>, c: Core<T>, peer: Endpoint)
    requires
        attended(a, b, peer),
        attended(b, c, peer),
    ensures
        attended(a, c, peer),
{
    lemma_calm_trans(a.engine, b.engine, c.engine);
    lemma_sends_trans(a.port.log@, b.port.log@, c.port.log@, peer);
    super::reactor::lemma_watched_trans(a, b, c);
}

proof fn lemma_attended_bodies<T>(a: Core<T>, b: Core<T>, peer: Endpoint)
    requires
        rx_bodies_changed(a.engine, b.engine),
        b.inbox == a.inbox,
        b.lives == a.lives,
        b.port.log@ == a.port.log@,
    ensures
        attended(a, b, peer),
{
    lemma_calm_same(a.engine, b.engine);
    lemma_sends_one(a.port.log@, b.port.log@, peer);
}

/// Which answers the sender of a request wants; an unreadable wish counts as
/// none.
pub open spec fn wanted_answers(m: MessageView) -> NoResponse {
    match first_value(m.options, 258) {
        Some(v) => match NoResponse::of_octets(v) {
            Ok(n) => n,
            Err(_) => NoResponse { mask: 0 },
        },
        None => NoResponse { mask: 0 },
    }
}

/// The block of an ordered upload that the answer acknowledges.
pub open spec fn uploaded_block(m: MessageView) -> Option<BlockOpt> {
    match block_option(m.options, 27) {
        Some(Ok(value)) => Some(BlockOpt { value, q_block: false, size2: None }),
        _ => None,
    }
}

/// Is this what an answer needs to know of a request, apart from its blocks?
pub open spec fn for_message(answer: Answer, m: MessageView, peer: Endpoint) -> bool {
    &&& answer.dest == peer
    &&& answer.ty == m.ty
    &&& answer.mid.raw == m.id
    &&& answer.token@ == m.token
    &&& answer.no_response == wanted_answers(m)
    &&& answer.request == m.code
}

/// Is this what the full answer to a request needs to know of it?
pub open spec fn full_answer(answer: Answer, m: MessageView, peer: Endpoint) -> bool {
    &&& for_message(answer, m, peer)
    &&& answer.block1 == uploaded_block(m)
    &&& answer.block2 == match block_option(m.options, 23) {
        Some(Ok(b)) => Some(b),
        _ => None,
    }
    &&& answer.selections@.len() == values_of(m.options, 31).len()
    &&& forall|i: int|
        0 <= i < answer.selections@.len() ==> selected(m, i) == Ok::<BlockValue, ValueError>(
            #[trigger] answer.selections@[i],
        )
}

/// Is this an answer without blocks of its own, that acknowledges this block?
pub open spec fn bare_answer(answer: Answer, block1: Option<BlockOpt>) -> bool {
    answer.block1 == block1 && answer.block2.is_none() && answer.selections@.len() == 0
}

/// The block that the refusal of a request for its options acknowledges.
pub open spec fn refused_block(m: MessageView) -> Option<BlockOpt> {
    if wants_proxy(m) || bad_options(m) {
        None
    } else {
        uploaded_block(m)
    }
}

/// Does a request ask this server to act as a proxy?
pub open spec fn wants_proxy(m: MessageView) -> bool {
    first_value(m.options, 35).is_some() || first_value(m.options, 39).is_some()
}

/// The answer to a request that is refused for its options alone.
pub open spec fn option_refusal(m: MessageView) -> Option<ResponseView> {
    if wants_proxy(m) {
        Some(
            titled_problem(
                Code::PROXYING_NOT_SUPPORTED,
                "Proxying Not Supported".spec_bytes(),
            ),
        )
    } else if bad_options(m) {
        Some(titled_problem(Code::BAD_OPTION, "Bad Option".spec_bytes()))
    } else if bad_length(m) || !selections_valid(m) {
        Some(bare_response(Code::BAD_REQUEST))
    } else {
        None
    }
}

/// The answer to a request that an Echo policy does not accept.
pub open spec fn echo_refusal(d: EchoDecision) -> Option<ResponseView> {
    let base = ResponseView {
        max_age: Some(0),
        ..titled_problem(Code::UNAUTHORIZED, "Unauthorized".spec_bytes())
    };
    match d {
        EchoDecision::Accept => None,
        EchoDecision::Reject => Some(base),
        EchoDecision::Challenge(e) => Some(ResponseView { echo: Some(e@), ..base }),
    }
}

/// The title of an answer that refuses a block.
pub open spec fn refusal_title(code: Code) -> Seq<u8> {
    if code == Code::REQUEST_ENTITY_INCOMPLETE {
        "Request Entity Incomplete".spec_bytes()
    } else if code == Code::REQUEST_ENTITY_TOO_LARGE {
        "Request Entity Too Large".spec_bytes()
    } else {
        "Block Transfer Rejected".spec_bytes()
    }
}

/// What a request means for observations.
pub open spec fn plan_of<const N: usize>(site: Site<N>, m: MessageView, plan: ObservePlan) -> bool {
    let route = route_at(site.entries@, values_of(m.options, 11));
    &&& plan.register == observes_with(m, 0)
    &&& plan.deregister == observes_with(m, 1)
    &&& plan.delete == (Method::of_code(m.code) == Some(Method::Delete))
    &&& plan.token@ == m.token
    &&& match route {
        Some(i) => plan.resource == Some(i as usize) && plan.has_source
            == site.entries@[i].methods.source().is_some(),
        None => plan.resource.is_none() && !plan.has_source,
    }
}

/// No observation is touched.
pub open spec fn idle_plan(plan: ObservePlan) -> bool {
    !plan.register && !plan.deregister && !plan.delete && !plan.has_source
        && plan.resource.is_none()
}

/// May a request that is let through be answered like this?
///
/// A path that is not text or has an empty segment is a bad request; one that
/// has too many is found nowhere; any other is up to the routes.
pub open spec fn handled<const N: usize>(
    site: Site<N>,
    m: MessageView,
    peer: Endpoint,
    body: Option<Seq<u8>>,
    r: ResponseView,
    plan: ObservePlan,
) -> bool {
    match uri_path_fault(values_of(m.options, 11)) {
        Some(PathError::TooLong) => r == titled_problem(Code::NOT_FOUND, "Not Found".spec_bytes())
            && idle_plan(plan),
        Some(_) => r == titled_problem(Code::BAD_REQUEST, "Bad Request".spec_bytes()) && idle_plan(
            plan,
        ),
        None => {
            &&& plan_of(site, m, plan)
            &&& exists|req: Request<'_>, response: Response<'static>|
                {
                    &&& req@ == (RequestView {
                        message: m,
                        path: values_of(m.options, 11),
                        peer,
                        body,
                    })
                    &&& #[trigger] site.answers(req, catalog_capacity(N as int), response)
                    &&& response@ == r
                }
        },
    }
}

/// The body that a handler sees.
pub open spec fn handler_body<T>(a: Core<T>, body: InboundBody) -> Option<Seq<u8>> {
    match body {
        InboundBody::Complete(id) => Some(a.engine.rx_body(id)),
        _ => None,
    }
}

/// What is sent of a handler's answer, once observations are seen to.
pub open spec fn answer_observed<T>(
    a: Core<T>,
    peer: Endpoint,
    plan: ObservePlan,
    r: ResponseView,
) -> ResponseView {
    ResponseView {
        observe: if registers_at(a.engine.store.observe.rows@, plan, peer, r).is_some() {
            Some(0)
        } else {
            None
        },
        ..r
    }
}

/// What running a handler and sending its answer does.
pub open spec fn handler_run<T: DatagramIo, const N: usize>(
    a: Core<T>,
    b: Core<T>,
    site: Site<N>,
    m: MessageView,
    answer: Answer,
    body: InboundBody,
    now_ms: u64,
    res: Result<(), Error<T::Error>>,
) -> bool {
    exists|r: ResponseView, plan: ObservePlan|
        {
            &&& #[trigger] handled(site, m, answer.dest, handler_body(a, body), r, plan)
            &&& match r.fault {
                Some(e) => res == Err::<(), Error<T::Error>>(Error::Response(e)) && b == a,
                None => {
                    let out = answer_observed(a, answer.dest, plan, r);
                    let rows = rows_after(
                        a.engine.store.observe.rows@,
                        plan,
                        answer.dest,
                        r,
                        now_ms,
                    );
                    exists|c: Core<T>|
                        {
                            &&& #[trigger] observers_set(
                                a,
                                c,
                                rows,
                                observe_counted(
                                    a.engine.metrics,
                                    a.engine.store.observe.rows@,
                                    plan,
                                    answer.dest,
                                    r,
                                ),
                            )
                            &&& if r.separate {
                                separated(c, b, answer, out, now_ms, res)
                            } else {
                                answered(c, b, answer, out, now_ms, res)
                            }
                            &&& b.engine.store.observe == c.engine.store.observe
                        }
                },
            }
        }
}

/// What serving the body of a request leads to.
pub open spec fn body_served<T: DatagramIo, const N: usize>(
    a: Core<T>,
    b: Core<T>,
    site: Site<N>,
    m: MessageView,
    answer: Answer,
    body: InboundBody,
    now_ms: u64,
    res: Result<(), Error<T::Error>>,
) -> bool {
    match body {
        InboundBody::Continue => if first_value(m.options, 19).is_some() {
            exists|acks: Answer|
                for_message(acks, m, answer.dest) && bare_answer(acks, None)
                    && #[trigger] answered(a, b, acks, bare_response(Code::CONTINUE), now_ms, res)
        } else {
            answered(a, b, answer, bare_response(Code::CONTINUE), now_ms, res)
        },
        InboundBody::Wait(None) => res.is_ok() && b == a,
        InboundBody::Wait(Some(value)) => exists|acks: Answer|
            for_message(acks, m, answer.dest) && bare_answer(
                acks,
                Some(BlockOpt { value, q_block: true, size2: None }),
            ) && #[trigger] answered(a, b, acks, bare_response(Code::CONTINUE), now_ms, res),
        InboundBody::Refused(code) => answered(
            a,
            b,
            answer,
            titled_problem(code, refusal_title(code)),
            now_ms,
            res,
        ),
        _ => handler_run(a, b, site, m, answer, body, now_ms, res),
    }
}

/// May the policy decide like this on a request?
pub open spec fn decided(
    policy: Option<Box<dyn EchoPolicy>>,
    m: MessageView,
    peer: Endpoint,
    now_ms: u64,
    d: EchoDecision,
) -> bool {
    match policy {
        None => d is Accept,
        Some(p) => exists|check: EchoCheck|
            {
                &&& echo_result(check.echo) == echo_option_of(m.options)
                &&& check.peer == peer
                &&& check.now_ms == now_ms
                &&& !check.oscore_protected
                &&& #[trigger] p.gives(check, d)
            },
    }
}

/// What serving a request does.
///
/// It is refused for its options, or by the Echo policy, or else admitted. What
/// came in of bodies stays as it is when a request is refused.
pub open spec fn request_served<T: DatagramIo, const N: usize>(
    a: Core<T>,
    b: Core<T>,
    site: Site<N>,
    policy: Option<Box<dyn EchoPolicy>>,
    m: MessageView,
    peer: Endpoint,
    now_ms: u64,
    res: Result<(), Error<T::Error>>,
) -> bool {
    match option_refusal(m) {
        Some(r) => exists|answer: Answer|
            for_message(answer, m, peer) && bare_answer(answer, refused_block(m))
                && #[trigger] answered(a, b, answer, r, now_ms, res) && rx_slots(b.engine)
                == rx_slots(a.engine) && b.engine.store.observe == a.engine.store.observe,
        None => exists|answer: Answer, d: EchoDecision|
            {
                &&& #[trigger] full_answer(answer, m, peer)
                &&& #[trigger] decided(policy, m, peer, now_ms, d)
                &&& match echo_refusal(d) {
                    Some(r) => answered(a, b, answer, r, now_ms, res) && rx_slots(b.engine)
                        == rx_slots(a.engine) && b.engine.store.observe == a.engine.store.observe,
                    None => admitted(a, b, site, m, answer, now_ms, res),
                }
            },
    }
}

/// What serving a request does that is not refused: its body is taken in, and
/// the request handled when that is whole. The body is let go.
#[verifier::opaque]
pub open spec fn admitted<T: DatagramIo, const N: usize>(
    a: Core<T>,
    b: Core<T>,
    site: Site<N>,
    m: MessageView,
    answer: Answer,
    now_ms: u64,
    res: Result<(), Error<T::Error>>,
) -> bool {
    exists|c: Core<T>, e: Core<T>, body: InboundBody|
        {
            &&& c == (Core { engine: c.engine, ..a })
            &&& #[trigger] assembled(a.engine, c.engine, m, answer.dest, now_ms, body)
            &&& #[trigger] body_served(c, e, site, m, answer, body, now_ms, res)
            &&& rx_slots(e.engine) == rx_slots(c.engine)
            &&& body is Plain || body is Complete || e.engine.store.observe
                == c.engine.store.observe
            &&& body_freed(e, b, body)
        }
}

/// The body of a handled request is let go; everything else stays.
pub open spec fn body_freed<T>(a: Core<T>, b: Core<T>, body: InboundBody) -> bool {
    &&& b == (Core { engine: b.engine, ..a })
    &&& rx_body_dropped(
        a.engine,
        b.engine,
        match body {
            InboundBody::Complete(id) => Some(id),
            _ => None,
        },
    )
}

/// The answer to a request that an Echo policy does not accept.
pub fn unauthorized_echo(decision: EchoDecision) -> (r: Response<'static>)
    requires
        !(decision is Accept),
    ensures
        echo_refusal(decision) == Some(r@),
{
    let response = Response::problem(Code::UNAUTHORIZED).title("Unauthorized").max_age(0);
    match decision {
        EchoDecision::Challenge(challenge) => response.echo(challenge),
        _ => response,
    }
}

fn wanted(parsed: &ParsedMessage<'_>) -> (n: NoResponse)
    ensures
        n == wanted_answers(parsed@),
{
    match parsed.no_response() {
        Some(Ok(n)) => n,
        _ => NoResponse::interested(),
    }
}

/// What an answer without blocks needs to know of a request.
fn plain_answer(parsed: &ParsedMessage<'_>, peer: Endpoint, block1: Option<BlockOpt>) -> (answer:
    Answer)
    requires
        block1 matches Some(b) ==> b.value.valid(),
    ensures
        answer.wf(),
        for_message(answer, parsed@, peer),
        bare_answer(answer, block1),
{
    Answer {
        dest: peer,
        ty: parsed.ty(),
        mid: parsed.message_id(),
        token: parsed.token(),
        no_response: wanted(parsed),
        block2: None,
        selections: Vec::new(),
        block1,
        request: parsed.code(),
    }
}

fn uploaded(parsed: &ParsedMessage<'_>) -> (b: Option<BlockOpt>)
    ensures
        b == uploaded_block(parsed@),
        b matches Some(o) ==> o.value.valid(),
{
    match parsed.block1() {
        Some(Ok(value)) => Some(BlockOpt { value, q_block: false, size2: None }),
        _ => None,
    }
}

fn observe_plan<const N: usize>(site: &Site<N>, request: &Request<'_>) -> (plan: ObservePlan)
    requires
        request@.path == values_of(request@.message.options, 11),
    ensures
        plan_of(*site, request@.message, plan),
{
    let delete: bool = match request.method() {
        Some(Method::Delete) => true,
        _ => false,
    };
    ObservePlan {
        register: request.is_observe_register(),
        deregister: request.is_observe_deregister(),
        delete,
        has_source: site.has_observe_source(request.path()),
        token: request.token(),
        resource: site.observe_resource(request.path()),
    }
}

impl<T: DatagramIo> Core<T> {
    /// What the routes answer to a request, and what that means for
    /// observations.
    fn ask_handler<const N: usize>(
        &self,
        site: &Site<N>,
        parsed: ParsedMessage<'_>,
        peer: Endpoint,
        body: InboundBody,
    ) -> (out: (Response<'static>, ObservePlan))
        requires
            self.wf(),
            site.wf(),
            body matches InboundBody::Complete(id) ==> self.engine.rx_transfer(id).is_some(),
        ensures
            handled(*site, parsed@, peer, handler_body(*self, body), out.0@, out.1),
    {
        let ghost m = parsed@;
        let whole: Option<&[u8]> = match body {
            InboundBody::Complete(id) => self.engine.rx_body_payload(id),
            _ => None,
        };
        match Request::from_decoded(parsed, peer, whole) {
            Ok(request) => {
                let mut catalog = LinkFormatScratch::<N>::new();
                let plan = observe_plan(site, &request);
                let ghost req = request;
                let response = site.dispatch(request, catalog.as_mut());
                assert(site.answers(req, catalog_capacity(N as int), response));
                assert(req@ == (RequestView {
                    message: m,
                    path: values_of(m.options, 11),
                    peer,
                    body: handler_body(*self, body),
                }));
                (response, plan)
            },
            Err(PathError::TooLong) => (
                Response::problem(Code::NOT_FOUND).title("Not Found"),
                ObservePlan::idle(),
            ),
            Err(_) => (
                Response::problem(Code::BAD_REQUEST).title("Bad Request"),
                ObservePlan::idle(),
            ),
        }
    }

    /// Run the handler of a request, and send its answer.
    fn run_handler<const N: usize>(
        &mut self,
        site: &Site<N>,
        parsed: ParsedMessage<'_>,
        answer: &Answer,
        body: InboundBody,
        now_ms: u64,
    ) -> (r: Result<(), Error<T::Error>>)
        requires
            old(self).wf(),
            site.wf(),
            answer.wf(),
            body matches InboundBody::Complete(id) ==> old(self).engine.rx_transfer(id).is_some(),
        ensures
            final(self).wf(),
            tended(*old(self), *final(self), answer.dest),
            handler_run(*old(self), *final(self), *site, parsed@, *answer, body, now_ms, r),
    {
        let ghost first = *self;
        let ghost m = parsed@;
        let (response, plan) = self.ask_handler(site, parsed, answer.dest, body);
        let ghost asked = response@;
        assert(handled(*site, m, answer.dest, handler_body(first, body), asked, plan));
        match response.validate() {
            Ok(()) => {},
            Err(e) => {
                proof {
                    super::reactor::lemma_served_same(first, *self, answer.dest);
                }
                return Err(Error::Response(e));
            },
        }
        let out = self.apply_observe(answer.dest, response, plan, now_ms);
        let ghost second = *self;
        let r = if out.is_separate() {
            let r = self.send_separate(answer, &out, now_ms);
            assert(separated(second, *self, *answer, out@, now_ms, r));
            r
        } else {
            self.send_response(answer, &out, now_ms)
        };
        proof {
            super::reactor::lemma_tended_trans(first, second, *self, answer.dest);
            assert(out@ == answer_observed(first, answer.dest, plan, asked));
        }
        r
    }

    /// Answer a request as the state of its body demands.
    fn serve_body<const N: usize>(
        &mut self,
        site: &Site<N>,
        parsed: ParsedMessage<'_>,
        answer: &Answer,
        body: InboundBody,
        now_ms: u64,
    ) -> (r: Result<(), Error<T::Error>>)
        requires
            old(self).wf(),
            site.wf(),
            answer.wf(),
            for_message(*answer, parsed@, answer.dest),
            body matches InboundBody::Complete(id) ==> old(self).engine.rx_transfer(id).is_some(),
            body matches InboundBody::Wait(Some(b)) ==> b.valid(),
        ensures
            final(self).wf(),
            tended(*old(self), *final(self), answer.dest),
            body_served(*old(self), *final(self), *site, parsed@, *answer, body, now_ms, r),
            body is Plain || body is Complete || final(self).engine.store.observe == old(
                self,
            ).engine.store.observe,
    {
        match body {
            InboundBody::Continue => {
                let ghost first = *self;
                let more = Response::new(Code::CONTINUE);
                if parsed.q_block1().is_some() {
                    let acks = plain_answer(&parsed, answer.dest, None);
                    let r = self.send_response(&acks, &more, now_ms);
                    assert(answered(first, *self, acks, bare_response(Code::CONTINUE), now_ms, r));
                    r
                } else {
                    self.send_response(answer, &more, now_ms)
                }
            },
            InboundBody::Wait(None) => {
                proof {
                    super::reactor::lemma_served_same(*self, *self, answer.dest);
                }
                Ok(())
            },
            InboundBody::Wait(Some(value)) => {
                let ghost first = *self;
                let acks = plain_answer(
                    &parsed,
                    answer.dest,
                    Some(BlockOpt { value, q_block: true, size2: None }),
                );
                let done = Response::new(Code::CONTINUE);
                let r = self.send_response(&acks, &done, now_ms);
                assert(answered(first, *self, acks, bare_response(Code::CONTINUE), now_ms, r));
                r
            },
            InboundBody::Refused(code) => {
                let title = match code {
                    Code::REQUEST_ENTITY_INCOMPLETE => "Request Entity Incomplete",
                    Code::REQUEST_ENTITY_TOO_LARGE => "Request Entity Too Large",
                    _ => "Block Transfer Rejected",
                };
                self.send_response(answer, &Response::problem(code).title(title), now_ms)
            },
            body => self.run_handler(site, parsed, answer, body, now_ms),
        }
    }

    /// Refuse a request for its options alone.
    fn refuse(
        &mut self,
        parsed: &ParsedMessage<'_>,
        peer: Endpoint,
        block1: Option<BlockOpt>,
        response: &Response<'_>,
        now_ms: u64,
    ) -> (r: Result<(), Error<T::Error>>)
        requires
            old(self).wf(),
            block1 matches Some(b) ==> b.value.valid(),
        ensures
            final(self).wf(),
            tended(*old(self), *final(self), peer),
            final(self).engine.store.observe == old(self).engine.store.observe,
            exists|answer: Answer|
                for_message(answer, parsed@, peer) && bare_answer(answer, block1)
                    && #[trigger] answered(
                    *old(self),
                    *final(self),
                    answer,
                    response@,
                    now_ms,
                    r,
                ),
    {
        let ghost first = *self;
        let answer = plain_answer(parsed, peer, block1);
        let r = self.send_response(&answer, response, now_ms);
        assert(answered(first, *self, answer, response@, now_ms, r));
        r
    }

    /// Serve a request that is not refused.
    fn admit_request<const N: usize>(
        &mut self,
        site: &Site<N>,
        parsed: ParsedMessage<'_>,
        answer: &Answer,
        now_ms: u64,
    ) -> (r: Result<(), Error<T::Error>>)
        requires
            old(self).wf(),
            site.wf(),
            answer.wf(),
            for_message(*answer, parsed@, answer.dest),
            !bad_options(parsed@),
        ensures
            final(self).wf(),
            attended(*old(self), *final(self), answer.dest),
            admitted(*old(self), *final(self), *site, parsed@, *answer, now_ms, r),
    {
        let ghost first = *self;
        let ghost m = parsed@;
        let body = self.engine.assemble_inbound_body(&parsed, answer.dest, now_ms);
        let ghost second = *self;
        proof {
            lemma_attended_bodies(first, second, answer.dest);
            lemma_pins_stay(first.engine, second.engine);
            reveal(admitted);
            assert(assembled(first.engine, second.engine, m, answer.dest, now_ms, body));
        }
        let r = self.serve_body(site, parsed, answer, body, now_ms);
        let ghost third = *self;
        proof {
            lemma_attended_trans(first, second, third, answer.dest);
            assert(body_served(second, third, *site, m, *answer, body, now_ms, r));
        }
        if let InboundBody::Complete(id) = body {
            self.engine.release_rx_body(id);
        }
        proof {
            lemma_attended_bodies(third, *self, answer.dest);
            lemma_attended_trans(first, third, *self, answer.dest);
            lemma_pins_stay(third.engine, self.engine);
            assert(body_freed(third, *self, body));
        }
        r
    }

    /// Serve a request.
    pub fn serve_request<const N: usize>(
        &mut self,
        site: &Site<N>,
        policy: &Option<Box<dyn EchoPolicy>>,
        parsed: ParsedMessage<'_>,
        peer: Endpoint,
        now_ms: u64,
    ) -> (r: Result<(), Error<T::Error>>)
        requires
            old(self).wf(),
            site.wf(),
            policy matches Some(p) ==> policy_total(&**p),
        ensures
            final(self).wf(),
            attended(*old(self), *final(self), peer),
            request_served(*old(self), *final(self), *site, *policy, parsed@, peer, now_ms, r),
    {
        let ghost first = *self;
        let ghost m = parsed@;
        if parsed.proxy_uri().is_some() || parsed.proxy_scheme().is_some() {
            let response = Response::problem(Code::PROXYING_NOT_SUPPORTED).title(
                "Proxying Not Supported",
            );
            return self.refuse(&parsed, peer, None, &response, now_ms);
        }
        if bad_option_request(&parsed) {
            let response = Response::problem(Code::BAD_OPTION).title("Bad Option");
            return self.refuse(&parsed, peer, None, &response, now_ms);
        }
        let block1 = uploaded(&parsed);
        if unreadable_length(&parsed) {
            let response = Response::bad_request();
            return self.refuse(&parsed, peer, block1, &response, now_ms);
        }
        let selections = match valid_q_selections(&parsed) {
            Some(selections) => selections,
            None => {
                let response = Response::bad_request();
                return self.refuse(&parsed, peer, block1, &response, now_ms);
            },
        };
        let block2 = match parsed.block2() {
            Some(Ok(b)) => Some(b),
            _ => None,
        };
        let answer = Answer { block2, selections, ..plain_answer(&parsed, peer, block1) };
        assert(full_answer(answer, m, peer));
        let decision = match policy {
            None => EchoDecision::Accept,
            Some(p) => {
                let check = EchoCheck {
                    echo: Echo::from_message(&parsed),
                    peer,
                    now_ms,
                    oscore_protected: false,
                };
                assert(policy_total(&**p));
                assert(p.accepts(check));
                let ghost asked = check;
                let d = p.decide(check);
                assert(p.gives(asked, d));
                d
            },
        };
        assert(decided(*policy, m, peer, now_ms, decision));
        let accepted: bool = match &decision {
            EchoDecision::Accept => true,
            _ => false,
        };
        if !accepted {
            let response = unauthorized_echo(decision);
            return self.send_response(&answer, &response, now_ms);
        }
        self.admit_request(site, parsed, &answer, now_ms)
    }
}

} // verus!
