//! The app, and how it is built.
use std::marker::PhantomData;
use vstd::prelude::*;

use super::calls::{kept_response, Call, CallFailure, ReplyMeta};
use super::dedup::pins_ok;
use super::echo::{decides_like, policy_total, EchoPolicy};
use super::ending::{call_failed, failed_row, observing, quiet};
use super::error::Error;
use super::identity::{drawn, drawn_from, AppIds, Draw, IdentityError, RandomSource, Source};
use super::inbox::{ClientInbox, ClientLives};
use super::notify::{broadcast, round_done};
use super::outbound::{identified, unnamed};
use super::path::{segments_of, texts_of, IntoPath};
use super::poll::{polled, turned};
use super::owned::{
    lemma_failure_kept, lemma_gone_owned, lemma_idle_owned, lemma_observers_owned, lemma_same_owned,
    lemma_tended_owned, lives_kept, owned, subscribed_still,
};
use super::reactor::{lemma_calm_same, lemma_pins_stay, Core};
use super::response::{Response, ResponseView, RESPONSE_BODY};
use super::routing::MethodRouter;
use super::site::{route_at, routed, Site};
use crate::bytes::{copy_prefix, prefix};
use crate::error::BuildError;
use crate::message::value::uint_value;
use crate::message::MessageId;
use crate::storage::blocks::rx_body_dropped;
use crate::storage::builder::{build_fault, EngineBuilder, Expected, Missing, Present};
use crate::storage::capacities::Capacities;
use crate::storage::endpoint::SlotId;
use crate::storage::engine::Engine;
use crate::storage::io::{Attempt, DatagramIo, Port};
use crate::storage::memory::{Memory, MemoryProfile, Storage};
use crate::storage::metrics::Metrics;
use crate::storage::observe::{observer_count, signalled, with_rows};
use crate::storage::profiles;
use crate::storage::table::without;

verus! {

/// A CoAP endpoint: bounded memory, a transport, and routes.
///
/// [`App::poll`] is its reactor. Requests of its own start with [`App::get`]
/// and the like.
pub struct App<P: MemoryProfile, T, const N: usize, const BLOCK_WISE: bool> {
    /// The state of the reactor.
    pub core: Core<T>,
    /// The routes.
    pub routes: Site<N>,
    /// The Echo policy.
    pub policy: Option<Box<dyn EchoPolicy>>,
    /// The reply that was fetched last.
    pub held: Option<ReplyMeta>,
    /// The body that was fetched last.
    pub assembled: Vec<u8>,
    /// The profile that sized the memory.
    pub profile: PhantomData<P>,
}

/// An app that is being built.
pub struct AppBuilder<P: MemoryProfile, Block, const N: usize, const BLOCK_WISE: bool> {
    /// The routes.
    pub site: Site<N>,
    /// The Echo policy.
    pub echo_policy: Option<Box<dyn EchoPolicy>>,
    /// Where identities come from.
    pub identity: Option<Source>,
    /// What has been set.
    pub state: PhantomData<(P, Block)>,
}

impl App<profiles::Default, (), 8, false> {
    /// Start from a memory profile.
    pub fn profile<P: MemoryProfile>() -> (b: AppBuilder<P, Missing, 8, false>)
        ensures
            b.wf(),
            b.site.entries@.len() == 0,
            !b.site.well_known,
            b.echo_policy.is_none(),
            b.identity.is_none(),
    {
        AppBuilder { site: Site::new(), echo_policy: None, identity: None, state: PhantomData }
    }
}

/// The sizes that an app's memory must have.
pub open spec fn profile_sizes<P: MemoryProfile>(block_wise: bool) -> Capacities {
    if block_wise {
        Capacities::of_profile::<P>().block_wise::<P>()
    } else {
        Capacities::of_profile::<P>()
    }
}

/// What is wrong with a profile.
pub open spec fn profile_fault<P: MemoryProfile>(block_wise: bool) -> Option<BuildError> {
    build_fault(
        Expected {
            rx_datagram: Some((P::RX_DATAGRAM_SLOTS, P::RX_DATAGRAM_BYTES)),
            tx_datagram: Some((P::TX_DATAGRAM_SLOTS, P::TX_DATAGRAM_BYTES)),
            dedup: Some(P::DEDUP_ENTRIES),
            observe: Some(P::OBSERVE_ENTRIES),
            rx_body: Some((P::RX_BODY_SLOTS, P::RX_BODY_BYTES)),
            tx_body: Some((P::TX_BODY_SLOTS, P::TX_BODY_BYTES)),
            bodies_from_profile: true,
        },
        profile_sizes::<P>(block_wise),
        block_wise,
    )
}

impl<P: MemoryProfile, Block, const N: usize, const BLOCK_WISE: bool> AppBuilder<
    P,
    Block,
    N,
    BLOCK_WISE,
> {
    /// Are the routes in order, and can the policy be asked anything?
    pub open spec fn wf(&self) -> bool {
        &&& self.site.wf()
        &&& self.echo_policy matches Some(p) ==> policy_total(&*p)
        &&& self.identity matches Some(s) ==> s.wf()
    }

    /// Set how many routes there may be; before the first route.
    pub fn routes<const M: usize>(self) -> (b: AppBuilder<P, Block, M, BLOCK_WISE>)
        requires
            self.wf(),
            self.site.entries@.len() == 0,
        ensures
            b.wf(),
            b.site.entries@.len() == 0,
            b.site.well_known == self.site.well_known,
            b.echo_policy == self.echo_policy,
            b.identity == self.identity,
    {
        let well_known: bool = self.site.has_well_known_core();
        AppBuilder {
            site: Site { entries: Vec::new(), well_known },
            echo_policy: self.echo_policy,
            identity: self.identity,
            state: PhantomData,
        }
    }

    /// Add a route.
    pub fn route<Q: IntoPath>(self, path: Q, methods: MethodRouter) -> (b: Self)
        requires
            self.wf(),
            methods.wf(),
            self.site.routable(path),
        ensures
            b.wf(),
            routed(self.site, b.site, segments_of(path)->Ok_0, methods),
            b.echo_policy == self.echo_policy,
            b.identity == self.identity,
    {
        let mut b = self;
        let _ = b.site.route(path, methods);
        b
    }

    /// Add a route by its slash-separated path.
    pub fn route_path(self, path: &'static str, methods: MethodRouter) -> (b: Self)
        requires
            self.wf(),
            methods.wf(),
            self.site.routable(path),
        ensures
            b.wf(),
            routed(self.site, b.site, segments_of(path)->Ok_0, methods),
            b.echo_policy == self.echo_policy,
            b.identity == self.identity,
    {
        let mut b = self;
        let _ = b.site.route_path(path, methods);
        b
    }

    /// Serve a catalog of the routes.
    pub fn well_known_core(self) -> (b: Self)
        requires
            self.wf(),
        ensures
            b.wf(),
            b.site == (Site::<N> { well_known: true, ..self.site }),
            b.echo_policy == self.echo_policy,
            b.identity == self.identity,
    {
        let mut b = self;
        let _ = b.site.well_known_core();
        b
    }

    /// Draw tokens, the first message identifier and timeouts from a source.
    pub fn randomness<S: RandomSource + 'static>(self, source: S) -> (b: Self)
        requires
            self.wf(),
        ensures
            b.wf(),
            b.identity matches Some(s) && s is Random && forall|n: usize, r: Option<Seq<u8>>|
                #[trigger]
                drawn(s, n, r) ==> drawn_from(&source, n, r),
            b.site == self.site,
            b.echo_policy == self.echo_policy,
    {
        let mut b = self;
        b.identity = Some(Source::random(source));
        b
    }

    /// Count tokens and message identifiers up; for tests.
    pub fn deterministic_for_tests(self) -> (b: Self)
        requires
            self.wf(),
        ensures
            b.wf(),
            b == (AppBuilder::<P, Block, N, BLOCK_WISE> { identity: Some(Source::Test), ..self }),
    {
        let mut b = self;
        b.identity = Some(Source::Test);
        b
    }

    /// Set the Echo policy.
    pub fn echo_policy<E: EchoPolicy + 'static>(self, policy: E) -> (b: Self)
        requires
            self.wf(),
            policy_total(&policy),
        ensures
            b.wf(),
            decides_like(b.echo_policy, &policy),
            b.site == self.site,
            b.identity == self.identity,
    {
        let mut b = self;
        b.echo_policy = Some(Box::new(policy));
        b
    }
}

impl<P: MemoryProfile, const N: usize, const PREV: bool> AppBuilder<P, Missing, N, PREV> {
    /// Turn block-wise transfer on or off.
    pub fn block_wise<const ENABLED: bool>(self) -> (b: AppBuilder<P, Present, N, ENABLED>)
        requires
            self.wf(),
        ensures
            b.wf(),
            b.site == self.site,
            b.echo_policy == self.echo_policy,
            b.identity == self.identity,
    {
        AppBuilder {
            site: self.site,
            echo_policy: self.echo_policy,
            identity: self.identity,
            state: PhantomData,
        }
    }
}

impl<P: MemoryProfile, const N: usize, const BLOCK_WISE: bool> AppBuilder<
    P,
    Present,
    N,
    BLOCK_WISE,
> {
    /// Bind the app to a transport.
    ///
    /// Without a source of identities, or when the source or the profile is
    /// unfit, this is refused.
    pub fn bind<T>(self, io: T) -> (r: Result<App<P, T, N, BLOCK_WISE>, BuildError>)
        requires
            self.wf(),
        ensures
            match profile_fault::<P>(BLOCK_WISE) {
                Some(e) => r == Err::<App<P, T, N, BLOCK_WISE>, BuildError>(e),
                None => match self.identity {
                    None => r == Err::<App<P, T, N, BLOCK_WISE>, BuildError>(
                        BuildError::RandomnessRequired,
                    ),
                    Some(s) => match r {
                        Ok(app) => if s is Test {
                            app.core.ids.next_mid == 1 && app.core.ids.draws@.len() == 0
                        } else {
                            exists|b: Seq<u8>| #[trigger]
                                drawn(s, 2, Some(b)) && app.core.ids.next_mid == uint_value(b)
                                    && app.core.ids.draws@ == seq![Draw { n: 2, r: Some(b) }]
                        },
                        Err(e) => s is Random && drawn(s, 2, None) && e
                            == BuildError::RandomnessUnavailable,
                    },
                },
            },
            r matches Ok(app) ==> {
                &&& app.wf()
                &&& app.routes == self.site
                &&& app.policy == self.echo_policy
                &&& app.core.port.io == io
                &&& app.core.port.log@ == Seq::<Attempt>::empty()
                &&& app.core.engine.store.has_sizes(profile_sizes::<P>(BLOCK_WISE))
                &&& app.core.engine.store.is_fresh()
                &&& app.core.engine.idle()
                &&& app.core.engine.metrics == Metrics::none()
                &&& Some(app.core.ids.source) == self.identity
                &&& app.core.ids.issued == 0
                &&& app.core.ids.test_token == 0
                &&& app.core.ids.jitter == 0
                &&& app.core.ids.last_mid_ms == 0
                &&& app.core.closed.is_none()
                &&& forall|k: int|
                    0 <= k < app.core.inbox.rows.rows@.len() ==> (
                    #[trigger] app.core.inbox.rows.rows@[k]).is_none()
                &&& forall|k: int|
                    0 <= k < app.core.lives.rows.rows@.len() ==> (
                    #[trigger] app.core.lives.rows.rows@[k]).is_none()
                &&& app.held.is_none()
            },
    {
        let built = if BLOCK_WISE {
            EngineBuilder::new().profile::<P>().block_wise(true).build(
                Memory::<P>::with_block_wise(),
            )
        } else {
            EngineBuilder::new().profile::<P>().block_wise(false).build(Memory::<P>::new())
        };
        let engine = match built {
            Ok(engine) => engine,
            Err(e) => return Err(e),
        };
        let ids = match AppIds::new(self.identity) {
            Ok(ids) => ids,
            Err(e) => return Err(e),
        };
        let core = Core {
            engine,
            port: Port::new(io),
            ids,
            inbox: ClientInbox::new(),
            lives: ClientLives::new(),
            closed: None,
        };
        proof {
            reveal(pins_ok);
            lemma_idle_owned(core);
        }
        Ok(
            App {
                core,
                routes: self.site,
                policy: self.echo_policy,
                held: None,
                assembled: Vec::new(),
                profile: PhantomData,
            },
        )
    }
}

impl<P: MemoryProfile, T, const N: usize, const BLOCK_WISE: bool> App<P, T, N, BLOCK_WISE> {
    /// Is the app in order?
    pub open spec fn wf(&self) -> bool {
        &&& self.core.wf()
        &&& owned(self.core)
        &&& self.routes.wf()
        &&& self.policy matches Some(p) ==> policy_total(&*p)
    }

    /// Everything but the reactor's state is the same.
    pub open spec fn same_setup(&self, other: &Self) -> bool {
        self.routes == other.routes && self.policy == other.policy
    }

    /// Add a route.
    pub fn route<Q: IntoPath>(&mut self, path: Q, methods: MethodRouter) -> (s: &mut Self)
        requires
            old(self).wf(),
            methods.wf(),
            old(self).routes.routable(path),
        ensures
            *final(self) == *final(s),
            s.wf(),
            s.core == old(self).core,
            s.policy == old(self).policy,
            routed(old(self).routes, s.routes, segments_of(path)->Ok_0, methods),
    {
        let _ = self.routes.route(path, methods);
        self
    }

    /// Add a route by its slash-separated path.
    pub fn route_path(&mut self, path: &'static str, methods: MethodRouter) -> (s: &mut Self)
        requires
            old(self).wf(),
            methods.wf(),
            old(self).routes.routable(path),
        ensures
            *final(self) == *final(s),
            s.wf(),
            s.core == old(self).core,
            s.policy == old(self).policy,
            routed(old(self).routes, s.routes, segments_of(path)->Ok_0, methods),
    {
        let _ = self.routes.route_path(path, methods);
        self
    }

    /// Serve a catalog of the routes.
    pub fn well_known_core(&mut self) -> (s: &mut Self)
        requires
            old(self).wf(),
        ensures
            *final(self) == *final(s),
            s.wf(),
            s.core == old(self).core,
            s.policy == old(self).policy,
            s.routes == (Site::<N> { well_known: true, ..old(self).routes }),
    {
        let _ = self.routes.well_known_core();
        self
    }

    /// Set the Echo policy.
    pub fn echo_policy<E: EchoPolicy + 'static>(&mut self, policy: E) -> (s: &mut Self)
        requires
            old(self).wf(),
            policy_total(&policy),
        ensures
            *final(self) == *final(s),
            s.wf(),
            s.core == old(self).core,
            s.routes == old(self).routes,
            decides_like(s.policy, &policy),
    {
        self.policy = Some(Box::new(policy));
        self
    }

    /// The routes.
    pub fn site(&mut self) -> (s: &mut Site<N>)
        ensures
            *s == old(self).routes,
            *final(self) == (App::<P, T, N, BLOCK_WISE> { routes: *final(s), ..*old(self) }),
    {
        &mut self.routes
    }

    /// Pools and tables.
    pub fn engine(&self) -> (e: &Engine)
        ensures
            *e == self.core.engine,
    {
        &self.core.engine
    }

    /// Pools and tables.
    pub fn engine_mut(&mut self) -> (e: &mut Engine)
        ensures
            *e == old(self).core.engine,
            *final(self) == (App::<P, T, N, BLOCK_WISE> {
                core: Core { engine: *final(e), ..old(self).core },
                ..*old(self)
            }),
    {
        &mut self.core.engine
    }

    /// A copy of the counters.
    pub fn metrics(&self) -> (m: Metrics)
        ensures
            m == self.core.engine.metrics,
    {
        self.core.engine.metrics()
    }

    /// Set the counters to zero.
    pub fn reset_metrics(&mut self)
        requires
            old(self).wf(),
        ensures
            final(self).wf(),
            *final(self) == (App::<P, T, N, BLOCK_WISE> {
                core: Core {
                    engine: Engine { metrics: Metrics::none(), ..old(self).core.engine },
                    ..old(self).core
                },
                ..*old(self)
            }),
    {
        let ghost before = self.core;
        self.core.engine.reset_metrics();
        proof {
            lemma_calm_same(before.engine, self.core.engine);
            lemma_pins_stay(before.engine, self.core.engine);
            lemma_same_owned(before, self.core);
        }
    }

    /// The transport.
    pub fn transport(&self) -> (io: &T)
        ensures
            *io == self.core.port.io,
    {
        &self.core.port.io
    }

    /// The transport.
    pub fn transport_mut(&mut self) -> (io: &mut T)
        ensures
            *io == old(self).core.port.io,
            *final(self) == (App::<P, T, N, BLOCK_WISE> {
                core: Core {
                    port: Port { io: *final(io), ..old(self).core.port },
                    ..old(self).core
                },
                ..*old(self)
            }),
            old(self).wf() ==> final(self).wf(),
    {
        proof {
            let core = self.core;
            assert forall|x: T|
                owned(core) implies #[trigger] owned(
                Core { port: Port { io: x, ..core.port }, ..core },
            ) by {
                lemma_same_owned(core, Core { port: Port { io: x, ..core.port }, ..core });
            }
        }
        &mut self.core.port.io
    }

    /// Give the transport back.
    pub fn into_io(self) -> (io: T)
        ensures
            io == self.core.port.io,
    {
        self.core.port.io
    }

    /// Take a message identifier out of the app's sequence, for a message that
    /// the caller sends by other means.
    pub fn next_message_id(&mut self, now_ms: u64) -> (r: Result<MessageId, IdentityError>)
        requires
            old(self).wf(),
        ensures
            final(self).wf(),
            *final(self) == (App::<P, T, N, BLOCK_WISE> {
                core: Core { ids: final(self).core.ids, ..old(self).core },
                ..*old(self)
            }),
            match r {
                Ok(mid) => mid.raw == old(self).core.ids.next_mid && !old(
                    self).core.ids.exhausted(old(self).core.engine, now_ms) && identified(
                    old(self).core,
                    final(self).core,
                    now_ms,
                ),
                Err(e) => unnamed(old(self).core, final(self).core, now_ms, e),
            },
    {
        let ghost before = self.core;
        let r = self.core.ids.next_for(&self.core.engine, now_ms);
        proof {
            lemma_same_owned(before, self.core);
        }
        r
    }

    /// Mark the observers of a route: they are notified by [`App::poll`]. Tells
    /// how many there are.
    pub fn signal(&mut self, path: &[&str]) -> (n: usize)
        requires
            old(self).wf(),
        ensures
            final(self).wf(),
            ({
                let resource = match route_at(old(self).routes.entries@, texts_of(path@)) {
                    Some(i) => Some(i as usize),
                    None => None,
                };
                &&& n == observer_count(old(self).core.engine.store.observe.rows@, resource)
                &&& with_rows(old(self).core.engine, final(self).core.engine)
                &&& forall|i: int|
                    0 <= i < old(self).core.engine.store.observe.rows@.len() ==> #[trigger] final(
                        self).core.engine.store.observe.rows@[i] == signalled(
                        old(self).core.engine.store.observe.rows@[i],
                        resource,
                        false,
                    )
            }),
            final(self).routes == old(self).routes,
            final(self).core == (Core {
                engine: final(self).core.engine,
                ..old(self).core
            }),
    {
        let ghost before = self.core;
        let resource: Option<usize> = self.routes.observe_resource(path);
        let n: usize = self.core.engine.signal_observe_resource(resource);
        proof {
            lemma_calm_same(before.engine, self.core.engine);
            lemma_pins_stay(before.engine, self.core.engine);
            assert(subscribed_still(
                before.engine.store.observe.rows@,
                self.core.engine.store.observe.rows@,
            )) by {
                reveal(subscribed_still);
            }
            lemma_observers_owned(before, self.core);
        }
        n
    }
}

/// The response that a fetched reply stands for.
pub open spec fn fetched(meta: ReplyMeta, body: Option<Seq<u8>>) -> ResponseView {
    match body {
        Some(b) => ResponseView { body: Some(b), ..kept_response(meta) },
        None => kept_response(meta),
    }
}

/// Nothing of a reply is left, nor, unless it observes, of its call; nothing
/// else changed.
pub open spec fn reply_gone<T>(a: Core<T>, b: Core<T>, call: Call) -> bool {
    &&& b == (Core { engine: b.engine, inbox: b.inbox, lives: b.lives, ..a })
    &&& rx_body_dropped(a.engine, b.engine, a.inbox.row(call)->0.body)
    &&& b.inbox.rows.rows@ == without(a.inbox.rows.rows@, call.key())
    &&& b.lives.rows.rows@ == if observing(a.engine, call) {
        a.lives.rows.rows@
    } else {
        without(a.lives.rows.rows@, call.key())
    }
}

/// The body that goes with a reply: at most [`RESPONSE_BODY`] bytes of it.
pub open spec fn reply_body(e: Engine, body: Option<SlotId>) -> Option<Seq<u8>> {
    match body {
        Some(id) => if e.rx_transfer(id).is_some() {
            Some(prefix(e.rx_body(id), RESPONSE_BODY as nat))
        } else {
            None
        },
        None => None,
    }
}

impl<T> Core<T> {
    /// Fetch what became of a call.
    pub fn take_reply(&mut self, call: Call) -> (r: Option<(
        Result<ReplyMeta, CallFailure>,
        Option<Vec<u8>>,
    )>)
        requires
            old(self).wf(),
        ensures
            final(self).wf(),
            owned(*old(self)) ==> owned(*final(self)),
            quiet(*old(self), *final(self)),
            r.is_some() == old(self).inbox.has(call),
            r.is_none() ==> *final(self) == *old(self),
            r matches Some(x) ==> {
                let row = old(self).inbox.row(call)->0;
                &&& reply_gone(*old(self), *final(self), call)
                &&& x.0 == row.meta
                &&& x.0 matches Ok(m) ==> m.wf()
                &&& (match x.1 {
                    Some(b) => Some(b@),
                    None => None,
                }) == reply_body(old(self).engine, row.body)
            },
    {
        let ghost first = *self;
        proof {
            lemma_calm_same(first.engine, first.engine);
            crate::storage::table::lemma_find_row(first.inbox.rows.rows@, call.key());
        }
        let (meta, body) = match self.inbox.take(call) {
            Some(x) => x,
            None => return None,
        };
        if !self.client_observe_live(call) {
            self.lives.remove(call);
        }
        let bytes: Option<Vec<u8>> = match body {
            Some(id) => {
                let copied = match self.engine.rx_body_payload(id) {
                    Some(b) => Some(copy_prefix(b, RESPONSE_BODY)),
                    None => None,
                };
                self.engine.release_rx_body(id);
                copied
            },
            None => None,
        };
        proof {
            lemma_calm_same(first.engine, self.engine);
            lemma_pins_stay(first.engine, self.engine);
            lemma_gone_owned(first, *self, call);
        }
        Some((meta, bytes))
    }
}

impl<P: MemoryProfile, T, const N: usize, const BLOCK_WISE: bool> App<P, T, N, BLOCK_WISE> {
    /// Fetch what became of a call: its response, or why there is none.
    ///
    /// `None` means that it is not known yet, or was fetched already.
    pub fn take_response(&mut self, call: Call) -> (r: Option<Result<Response<'_>, CallFailure>>)
        requires
            old(self).wf(),
        ensures
            r.is_some() == old(self).core.inbox.has(call),
            r matches Some(x) ==> match old(self).core.inbox.row(call)->0.meta {
                Err(e) => x matches Err(f) && f == e,
                Ok(meta) => x matches Ok(response) && response@ == fetched(
                    meta,
                    reply_body(old(self).core.engine, old(self).core.inbox.row(call)->0.body),
                ),
            },
            final(self).wf(),
            final(self).same_setup(old(self)),
            quiet(old(self).core, final(self).core),
            r.is_none() ==> final(self).core == old(self).core,
            r.is_some() ==> reply_gone(old(self).core, final(self).core, call),
    {
        let (meta, body) = match self.core.take_reply(call) {
            Some(x) => x,
            None => return None,
        };
        let whole: bool = body.is_some();
        self.assembled = match body {
            Some(b) => b,
            None => Vec::new(),
        };
        match meta {
            Err(e) => {
                self.held = None;
                Some(Err(e))
            },
            Ok(meta) => {
                self.held = Some(meta);
                match &self.held {
                    Some(kept) => {
                        let response = kept.response();
                        if whole {
                            Some(Ok(response.with_assembled(self.assembled.as_slice())))
                        } else {
                            Some(Ok(response))
                        }
                    },
                    None => None,
                }
            },
        }
    }

    /// Cancel a call that is under way; its outcome is
    /// [`CallFailure::Cancelled`]. Nothing is sent.
    pub fn cancel(&mut self, call: Call) -> (b: bool)
        requires
            old(self).wf(),
        ensures
            final(self).wf(),
            final(self).same_setup(old(self)),
            lives_kept(old(self).core, final(self).core),
            b == (old(self).core.lives.row(call).is_some() && (!old(self).core.inbox.has(call)
                || observing(old(self).core.engine, call))),
            b ==> call_failed(
                old(self).core,
                final(self).core,
                call,
                CallFailure::Cancelled,
                true,
            ),
            b ==> final(self).core.inbox.row(call) == Some(
                failed_row(call, CallFailure::Cancelled),
            ),
            !b ==> *final(self) == *old(self),
    {
        let ghost before = self.core;
        let b: bool = self.core.cancel_call(call);
        proof {
            if b {
                lemma_failure_kept(before, self.core, call, CallFailure::Cancelled, true);
            }
        }
        b
    }
}

impl<P: MemoryProfile, T: DatagramIo, const N: usize, const BLOCK_WISE: bool> App<
    P,
    T,
    N,
    BLOCK_WISE,
> {
    /// One turn of the reactor, at the caller's time.
    pub fn poll(&mut self, now_ms: u64) -> (r: Result<(), Error<T::Error>>)
        requires
            old(self).wf(),
        ensures
            final(self).wf(),
            final(self).same_setup(old(self)),
            lives_kept(old(self).core, final(self).core),
            turned(old(self).core, final(self).core),
            polled(
                old(self).core,
                final(self).core,
                old(self).routes,
                old(self).policy,
                now_ms,
                r,
            ),
    {
        self.core.poll_engine(&self.routes, &self.policy, now_ms)
    }

    /// Send a representation to the observers of a route; tells how many were
    /// sent it.
    pub fn notify(&mut self, now_ms: u64, path: &[&str], response: Response<'static>) -> (r: Result<
        usize,
        Error<T::Error>,
    >)
        requires
            old(self).wf(),
        ensures
            final(self).wf(),
            final(self).same_setup(old(self)),
            lives_kept(old(self).core, final(self).core),
            broadcast(old(self).core, final(self).core),
            match response@.fault {
                Some(e) => r == Err::<usize, Error<T::Error>>(Error::Response(e)) && final(
                    self).core == old(self).core,
                None => round_done(
                    old(self).core,
                    final(self).core,
                    match route_at(old(self).routes.entries@, texts_of(path@)) {
                        Some(i) => Some(i as usize),
                        None => None,
                    },
                    response@,
                    now_ms,
                    r,
                ),
            },
    {
        let resource: Option<usize> = self.routes.observe_resource(path);
        let ghost before = self.core;
        let r = self.core.notify_engine(resource, &response, now_ms);
        proof {
            lemma_tended_owned(before, self.core);
        }
        r
    }
}

} // verus!
