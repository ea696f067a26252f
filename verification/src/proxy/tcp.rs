//! The listener: who is let in, and which protocol a client speaks.

use std::sync::Arc;
use std::time::Duration;

use tokio::sync::{Semaphore, TryAcquireError};
use vstd::prelude::*;

use crate::common::auth::AuthManager;
use crate::common::config::{
    default_buffer_size, default_connect_timeout, default_max_connections,
};
use crate::net::conn::BufferedConnection;
use crate::proxy::http::{HttpProxy, HttpProxyError};

verus! {

/// `tokio::sync::Semaphore`, carried as it is.
#[verifier::external_type_specification]
#[verifier::external_body]
pub struct ExSemaphore(tokio::sync::Semaphore);

/// `tokio::sync::TryAcquireError`, carried as it is.
#[verifier::external_type_specification]
#[verifier::external_body]
pub struct ExTryAcquireError(tokio::sync::TryAcquireError);

/// How many permits a semaphore has to give.
pub uninterp spec fn free_permits(semaphore: Semaphore) -> nat;

/// Whether a semaphore was closed: then it gives no permits, whatever it has.
pub uninterp spec fn is_shut(semaphore: Semaphore) -> bool;

/// `tokio::sync::Semaphore::new` makes an open semaphore with as many permits as it is told. It
/// panics where that is more than an eighth of the largest `usize`.
pub assume_specification[ tokio::sync::Semaphore::new ](permits: usize) -> (r:
    tokio::sync::Semaphore)
    requires
        permits <= usize::MAX / 8,
    ensures
        free_permits(r) == permits,
        !is_shut(r),
;

/// Calls `tokio::sync::Semaphore::available_permits`, which says how many permits there are to give
/// and changes nothing. The caller is the only one who has the semaphore, so nobody else takes or
/// gives permits meanwhile.
#[verifier::external_body]
fn count_permits(semaphore: &mut Semaphore) -> (r: usize)
    ensures
        r == free_permits(*old(semaphore)),
        free_permits(*final(semaphore)) == free_permits(*old(semaphore)),
        is_shut(*final(semaphore)) == is_shut(*old(semaphore)),
{
    semaphore.available_permits()
}

/// Calls `tokio::sync::Semaphore::try_acquire`, and `tokio::sync::SemaphorePermit::forget` on the
/// permit, so that the semaphore has one less to give from then on. It succeeds exactly where the
/// semaphore is open and has a permit to give. The caller is the only one who has the semaphore, so
/// nobody else takes or gives permits meanwhile.
#[verifier::external_body]
fn take_permit(semaphore: &mut Semaphore) -> (r: Result<(), TryAcquireError>)
    ensures
        r is Ok <==> !is_shut(*old(semaphore)) && free_permits(*old(semaphore)) > 0,
        free_permits(*final(semaphore)) == if r is Ok {
            free_permits(*old(semaphore)) - 1
        } else {
            free_permits(*old(semaphore)) as int
        },
        is_shut(*final(semaphore)) == is_shut(*old(semaphore)),
{
    match semaphore.try_acquire() {
        Ok(permit) => Ok(permit.forget()),
        Err(error) => Err(error),
    }
}

/// Calls `tokio::sync::Semaphore::add_permits` with one permit: the semaphore has one more to give
/// from then on. It panics where that is more than an eighth of the largest `usize`. The caller is
/// the only one who has the semaphore, so nobody waits for the permit.
#[verifier::external_body]
fn give_permit(semaphore: &mut Semaphore)
    requires
        free_permits(*old(semaphore)) < usize::MAX / 8,
    ensures
        free_permits(*final(semaphore)) == free_permits(*old(semaphore)) + 1,
        is_shut(*final(semaphore)) == is_shut(*old(semaphore)),
{
    semaphore.add_permits(1)
}

/// The duration of a number of seconds.
pub uninterp spec fn seconds(secs: u64) -> Duration;

/// `std::time::Duration::from_secs` gives the duration of a number of seconds.
pub assume_specification[ std::time::Duration::from_secs ](secs: u64) -> (r: std::time::Duration)
    ensures
        r == seconds(secs),
;

/// Why a client was not served.
#[derive(Debug)]
pub enum TcpProxyError {
    /// The client sent nothing.
    NoDataReceived,
    /// The client's first byte is not one that a known protocol begins with.
    UnsupportedProtocol(u8),
    /// The HTTP proxy did not serve the client.
    HttpProxyError(HttpProxyError),
}

impl From<HttpProxyError> for TcpProxyError {
    fn from(error: HttpProxyError) -> (r: Self) {
        TcpProxyError::HttpProxyError(error)
    }
}

impl vstd::std_specs::convert::FromSpecImpl<HttpProxyError> for TcpProxyError {
    open spec fn obeys_from_spec() -> bool {
        true
    }

    open spec fn from_spec(error: HttpProxyError) -> Self {
        TcpProxyError::HttpProxyError(error)
    }
}

/// The protocol that a first byte begins.
pub enum ProtocolView {
    Socks5,
    Http,
}

/// The protocol that a first byte begins: SOCKS5 with its version number, HTTP with an ASCII
/// letter, as every method does.
pub open spec fn protocol_of(first: u8) -> Option<ProtocolView> {
    if first == 0x05 {
        Some(ProtocolView::Socks5)
    } else if 0x41 <= first <= 0x5a || 0x61 <= first <= 0x7a {
        Some(ProtocolView::Http)
    } else {
        None
    }
}

/// Who serves a client.
pub enum Protocol {
    /// A SOCKS5 proxy with these accounts and this time to connect to a target.
    Socks5(Arc<AuthManager>, Duration),
    /// This HTTP proxy.
    Http(HttpProxy),
}

/// What came of waiting.
#[derive(Clone, Copy)]
pub enum AcceptEvent {
    /// A client has connected.
    Accepted,
    /// A client that was served is done, well or not.
    Ended,
    /// Waiting for a client failed.
    Failed,
    /// The proxy was told to stop.
    Interrupted,
}

/// On which terms a client is served.
pub struct Terms {
    /// Who may log in.
    pub auth_manager: Arc<AuthManager>,
    /// How many bytes one read asks for at most.
    pub buffer_size: usize,
    /// How long connecting to a target may take.
    pub connect_timeout: Duration,
    /// The base path for relative paths.
    pub base_path: Option<Arc<String>>,
}

/// What to do next.
pub enum AcceptStep {
    /// Serve the client, and say when it is done.
    Serve(Terms),
    /// Drop the client: there are as many as there may be.
    Reject,
    /// Wait for what comes next.
    Wait,
    /// Wait for this many milliseconds, and then for what comes next.
    Pause(u64),
    /// Stop.
    Stop,
}

/// What to do next, without the terms.
pub enum AcceptView {
    Serve,
    Reject,
    Wait,
    Pause(u64),
    Stop,
}

impl View for AcceptStep {
    type V = AcceptView;

    open spec fn view(&self) -> AcceptView {
        match self {
            AcceptStep::Serve(_) => AcceptView::Serve,
            AcceptStep::Reject => AcceptView::Reject,
            AcceptStep::Wait => AcceptView::Wait,
            AcceptStep::Pause(millis) => AcceptView::Pause(*millis),
            AcceptStep::Stop => AcceptView::Stop,
        }
    }
}

/// What is done on `event` where `served` clients are being served and `limit` may be.
pub open spec fn accepting(limit: nat, served: nat, event: AcceptEvent) -> AcceptView {
    match event {
        AcceptEvent::Accepted => if served < limit {
            AcceptView::Serve
        } else {
            AcceptView::Reject
        },
        AcceptEvent::Ended => AcceptView::Wait,
        AcceptEvent::Failed => AcceptView::Pause(100),
        AcceptEvent::Interrupted => AcceptView::Stop,
    }
}

/// How many clients are being served after `event`. An end that no client has changes nothing.
pub open spec fn served_then(limit: nat, served: nat, event: AcceptEvent) -> nat {
    match event {
        AcceptEvent::Accepted => if served < limit {
            served + 1
        } else {
            served
        },
        AcceptEvent::Ended => if served > 0 {
            (served - 1) as nat
        } else {
            0
        },
        _ => served,
    }
}

/// How many clients are being served after `events`, where none was before.
pub open spec fn served_after(limit: nat, events: Seq<AcceptEvent>) -> nat
    decreases events.len(),
{
    if events.len() == 0 {
        0
    } else {
        served_then(limit, served_after(limit, events.drop_last()), events.last())
    }
}

/// At no moment are more clients being served than may be. One that connects while that many are is
/// dropped, and one that connects otherwise is served.
pub proof fn law_never_more_than_the_limit(limit: nat, events: Seq<AcceptEvent>)
    ensures
        served_after(limit, events) <= limit,
        accepting(limit, served_after(limit, events), AcceptEvent::Accepted) == (
        if served_after(limit, events) == limit {
            AcceptView::Reject
        } else {
            AcceptView::Serve
        }),
    decreases events.len(),
{
    if events.len() > 0 {
        law_never_more_than_the_limit(limit, events.drop_last());
    }
}

/// A client that is done frees its place: whoever connects next is served.
pub proof fn law_an_end_frees_a_place(limit: nat, events: Seq<AcceptEvent>)
    requires
        served_after(limit, events) > 0,
    ensures
        served_after(limit, events.push(AcceptEvent::Ended)) == served_after(limit, events) - 1,
        accepting(
            limit,
            served_after(limit, events.push(AcceptEvent::Ended)),
            AcceptEvent::Accepted,
        ) == AcceptView::Serve,
{
    law_never_more_than_the_limit(limit, events);
    assert(events.push(AcceptEvent::Ended).drop_last() =~= events);
}

/// A client that is dropped takes no place.
pub proof fn law_a_dropped_client_takes_no_place(limit: nat, events: Seq<AcceptEvent>)
    requires
        accepting(limit, served_after(limit, events), AcceptEvent::Accepted) == AcceptView::Reject,
    ensures
        served_after(limit, events.push(AcceptEvent::Accepted)) == served_after(limit, events),
{
    assert(events.push(AcceptEvent::Accepted).drop_last() =~= events);
}

/// The listener.
pub struct TcpProxy {
    auth_manager: Arc<AuthManager>,
    buffer_size: usize,
    semaphore: Semaphore,
    max_connections: usize,
    connect_timeout: Duration,
    base_path: Option<Arc<String>>,
}

impl Default for TcpProxy {
    /// A listener with the default settings and without accounts.
    fn default() -> (r: Self)
        ensures
            r.is_sound(),
            r.accounts() == Map::<Seq<char>, Seq<char>>::empty(),
            r.read_size() == 4096,
            r.limit() == 1024,
            r.served() == 0,
            r.patience() == seconds(10),
            r.base() is None,
    {
        TcpProxy::new(
            Arc::new(AuthManager::default()),
            default_buffer_size(),
            default_max_connections(),
            Duration::from_secs(default_connect_timeout()),
        )
    }
}

impl TcpProxy {
    /// The semaphore has the permits that nobody is served under.
    pub closed spec fn is_sound(&self) -> bool {
        &&& self.max_connections <= usize::MAX / 8
        &&& free_permits(self.semaphore) <= self.max_connections
        &&& !is_shut(self.semaphore)
    }

    /// The password hash of each user.
    pub closed spec fn accounts(&self) -> Map<Seq<char>, Seq<char>> {
        self.auth_manager@
    }

    /// How many bytes one read asks for at most.
    pub closed spec fn read_size(&self) -> usize {
        self.buffer_size
    }

    /// How many clients may be served at a time.
    pub closed spec fn limit(&self) -> nat {
        self.max_connections as nat
    }

    /// How many clients are being served.
    pub closed spec fn served(&self) -> nat {
        (self.max_connections - free_permits(self.semaphore)) as nat
    }

    /// How long connecting to a target may take.
    pub closed spec fn patience(&self) -> Duration {
        self.connect_timeout
    }

    /// The base path for relative paths.
    pub closed spec fn base(&self) -> Option<Arc<String>> {
        self.base_path
    }

    /// `terms` are those of this listener.
    pub open spec fn serves_on(&self, terms: Terms) -> bool {
        &&& terms.auth_manager@ == self.accounts()
        &&& terms.buffer_size == self.read_size()
        &&& terms.connect_timeout == self.patience()
        &&& terms.base_path == self.base()
    }

    /// `self` differs from `other` in how many clients are being served at most.
    pub open spec fn same_settings(&self, other: &Self) -> bool {
        &&& self.accounts() == other.accounts()
        &&& self.read_size() == other.read_size()
        &&& self.limit() == other.limit()
        &&& self.patience() == other.patience()
        &&& self.base() == other.base()
    }

    /// A listener that serves up to `max_connections` clients at a time.
    pub fn new(
        auth_manager: Arc<AuthManager>,
        buffer_size: usize,
        max_connections: usize,
        connect_timeout: Duration,
    ) -> (r: Self)
        requires
            max_connections <= usize::MAX / 8,
        ensures
            r.is_sound(),
            r.accounts() == auth_manager@,
            r.read_size() == buffer_size,
            r.limit() == max_connections,
            r.served() == 0,
            r.patience() == connect_timeout,
            r.base() is None,
    {
        TcpProxy {
            auth_manager,
            buffer_size,
            semaphore: Semaphore::new(max_connections),
            max_connections,
            connect_timeout,
            base_path: None,
        }
    }

    /// Sets the base path for relative paths.
    pub fn set_base_path(&mut self, base_path: String)
        ensures
            final(self).base() == Some(Arc::new(base_path)),
            final(self).accounts() == old(self).accounts(),
            final(self).read_size() == old(self).read_size(),
            final(self).limit() == old(self).limit(),
            final(self).served() == old(self).served(),
            final(self).patience() == old(self).patience(),
            final(self).is_sound() == old(self).is_sound(),
    {
        self.base_path = Some(Arc::new(base_path));
    }

    fn terms(&self) -> (terms: Terms)
        ensures
            self.serves_on(terms),
    {
        Terms {
            auth_manager: self.auth_manager.clone(),
            buffer_size: self.buffer_size,
            connect_timeout: self.connect_timeout,
            base_path: match &self.base_path {
                Some(path) => Some(path.clone()),
                None => None,
            },
        }
    }

    /// Says what to do after waiting.
    pub fn run(&mut self, event: AcceptEvent) -> (step: AcceptStep)
        requires
            old(self).is_sound(),
        ensures
            final(self).is_sound(),
            step@ == accepting(old(self).limit(), old(self).served(), event),
            step matches AcceptStep::Serve(terms) ==> final(self).serves_on(terms),
            final(self).served() == served_then(old(self).limit(), old(self).served(), event),
            final(self).same_settings(old(self)),
    {
        match event {
            AcceptEvent::Accepted => match take_permit(&mut self.semaphore) {
                Ok(_) => AcceptStep::Serve(self.terms()),
                Err(_) => AcceptStep::Reject,
            },
            AcceptEvent::Ended => {
                if count_permits(&mut self.semaphore) < self.max_connections {
                    give_permit(&mut self.semaphore);
                }
                AcceptStep::Wait
            },
            AcceptEvent::Failed => AcceptStep::Pause(100),
            AcceptEvent::Interrupted => AcceptStep::Stop,
        }
    }

    /// Finds out who serves a client, from what the first read delivered. The bytes stay in the
    /// buffer for whoever does.
    pub fn handle_connection<S>(
        conn: &mut BufferedConnection<S>,
        received: &[u8],
        terms: Terms,
    ) -> (r: Result<Protocol, TcpProxyError>)
        ensures
            final(conn)@ == old(conn)@ + received@,
            final(conn).same_link(old(conn)),
            received@.len() == 0 ==> r == Err::<Protocol, TcpProxyError>(
                TcpProxyError::NoDataReceived,
            ),
            received@.len() > 0 ==> match protocol_of(final(conn)@[0]) {
                None => r == Err::<Protocol, TcpProxyError>(
                    TcpProxyError::UnsupportedProtocol(final(conn)@[0]),
                ),
                Some(ProtocolView::Socks5) => r matches Ok(Protocol::Socks5(manager, timeout))
                    && manager@ == terms.auth_manager@ && timeout == terms.connect_timeout,
                Some(ProtocolView::Http) => r matches Ok(Protocol::Http(proxy))
                    && proxy.accounts() == terms.auth_manager@ && proxy.read_size()
                    == terms.buffer_size && proxy.patience() == terms.connect_timeout
                    && proxy.base() == terms.base_path && !proxy.upgrades(),
            },
    {
        let bytes_read: usize = conn.read(received);
        if bytes_read == 0 || !conn.has_data() {
            return Err(TcpProxyError::NoDataReceived);
        }
        let ghost all = conn@;
        let front = match conn.read_from_buffer(1) {
            Some(front) => front,
            None => {
                return Err(TcpProxyError::NoDataReceived);
            },
        };
        conn.unread(front.as_slice());
        assert(conn@ =~= all);
        let first: u8 = front[0];
        if first == 0x05 {
            Ok(Protocol::Socks5(terms.auth_manager, terms.connect_timeout))
        } else if (0x41 <= first && first <= 0x5a) || (0x61 <= first && first <= 0x7a) {
            let proxy = match terms.base_path {
                Some(path) => HttpProxy::new_with_base_path(
                    terms.auth_manager,
                    terms.buffer_size,
                    terms.connect_timeout,
                    path,
                ),
                None => HttpProxy::new(
                    terms.auth_manager,
                    terms.buffer_size,
                    terms.connect_timeout,
                ),
            };
            Ok(Protocol::Http(proxy))
        } else {
            Err(TcpProxyError::UnsupportedProtocol(first))
        }
    }
}

/// Who is served takes a place, and nobody else does: what is not a client that is served or done
/// leaves the number of clients as it is.
pub proof fn law_a_served_client_takes_a_place(
    limit: nat,
    events: Seq<AcceptEvent>,
    event: AcceptEvent,
)
    ensures
        accepting(limit, served_after(limit, events), AcceptEvent::Accepted) == AcceptView::Serve
            ==> served_after(limit, events.push(AcceptEvent::Accepted)) == served_after(
            limit,
            events,
        ) + 1,
        event is Failed || event is Interrupted ==> served_after(limit, events.push(event))
            == served_after(limit, events),
        served_after(limit, Seq::empty()) == 0,
{
    assert(events.push(AcceptEvent::Accepted).drop_last() =~= events);
    assert(events.push(event).drop_last() =~= events);
}

/// The loop goes on until it is told to stop: only an interrupt stops it, a failure makes it pause
/// for a tenth of a second, and only a new client is served or dropped.
pub proof fn law_only_an_interrupt_stops(limit: nat, served: nat, event: AcceptEvent)
    ensures
        accepting(limit, served, event) is Stop <==> event is Interrupted,
        event is Failed ==> accepting(limit, served, event) == AcceptView::Pause(100),
        event is Ended ==> accepting(limit, served, event) is Wait,
        event is Accepted ==> (accepting(limit, served, event) is Serve <==> served < limit),
        event is Accepted ==> (accepting(limit, served, event) is Reject <==> served >= limit),
{
}

/// SOCKS5 clients begin with the byte 5, HTTP clients with an ASCII letter, and no others are known.
pub proof fn law_first_byte_tells_the_protocol(first: u8)
    ensures
        protocol_of(first) == Some(ProtocolView::Socks5) <==> first == 5,
        protocol_of(first) == Some(ProtocolView::Http) <==> ('A' as u8 <= first <= 'Z' as u8 || 'a' as
            u8 <= first <= 'z' as u8),
{
}

/// A client is served on the listener's own terms, and an event changes none of them.
pub proof fn law_terms_are_the_listeners(proxy: TcpProxy, other: TcpProxy, terms: Terms)
    ensures
        proxy.serves_on(terms) <==> {
            &&& terms.auth_manager@ == proxy.accounts()
            &&& terms.buffer_size == proxy.read_size()
            &&& terms.connect_timeout == proxy.patience()
            &&& terms.base_path == proxy.base()
        },
        proxy.same_settings(&other) <==> {
            &&& proxy.accounts() == other.accounts()
            &&& proxy.read_size() == other.read_size()
            &&& proxy.limit() == other.limit()
            &&& proxy.patience() == other.patience()
            &&& proxy.base() == other.base()
        },
{
}

/// A step's view says which step it is.
pub proof fn law_step_view(terms: Terms, millis: u64)
    ensures
        AcceptStep::Serve(terms)@ == AcceptView::Serve,
        AcceptStep::Reject@ == AcceptView::Reject,
        AcceptStep::Wait@ == AcceptView::Wait,
        AcceptStep::Pause(millis)@ == AcceptView::Pause(millis),
        AcceptStep::Stop@ == AcceptView::Stop,
{
}

} // verus!
