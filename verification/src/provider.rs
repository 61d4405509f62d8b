//! Bookkeeping of the sending side's progress display: which peers are
//! connected, and which of their requests are in flight, each with a
//! display handle of the caller's choice.

use std::collections::BTreeMap;
use vstd::prelude::*;

verus! {

broadcast use {vstd::laws_cmp::group_laws_cmp, vstd::std_specs::btree::group_btree_axioms};

/// One connected peer: its short endpoint id and its requests in flight.
pub struct Connection<B> {
    pub endpoint_id: String,
    pub requests: BTreeMap<u64, B>,
}

/// The model of a connection: the endpoint id's text and the map from
/// request id to display handle.
pub open spec fn connection_view<B>(c: Connection<B>) -> (Seq<char>, Map<u64, B>) {
    (c.endpoint_id@, c.requests@)
}

/// Connections by connection id.
pub struct ConnectionTracker<B> {
    connections: BTreeMap<u64, Connection<B>>,
}

impl<B> View for ConnectionTracker<B> {
    type V = Map<u64, (Seq<char>, Map<u64, B>)>;

    closed spec fn view(&self) -> Self::V {
        self.connections@.map_values(|c: Connection<B>| connection_view(c))
    }
}

/// The endpoint id that a connection is shown with: the short id, or `?`
/// when the peer's id is not known.
pub open spec fn shown_endpoint_id(endpoint_id: Option<String>) -> Seq<char> {
    match endpoint_id {
        Some(id) => id@,
        None => "?"@,
    }
}

/// The model of connections by id.
pub type Connections<B> = Map<u64, (Seq<char>, Map<u64, B>)>;

/// The connections after a request starts on connection `c`.
pub open spec fn after_request_started<B>(m: Connections<B>, c: u64, r: u64, h: B) -> Connections<
    B,
> {
    if m.contains_key(c) {
        m.insert(c, (m[c].0, m[c].1.insert(r, h)))
    } else {
        m
    }
}

/// The connections after request `r` on connection `c` completes.
pub open spec fn after_request_finished<B>(m: Connections<B>, c: u64, r: u64) -> Connections<B> {
    if m.contains_key(c) {
        m.insert(c, (m[c].0, m[c].1.remove(r)))
    } else {
        m
    }
}

impl<B> ConnectionTracker<B> {
    /// No connection.
    pub fn new() -> (t: Self)
        ensures
            t@ == Map::<u64, (Seq<char>, Map<u64, B>)>::empty(),
    {
        let t = ConnectionTracker { connections: BTreeMap::new() };
        assert(t@ =~= Map::<u64, (Seq<char>, Map<u64, B>)>::empty());
        t
    }

    /// A peer connected: it is tracked with no request in flight, replacing
    /// any earlier connection with the same id.
    pub fn connected(&mut self, connection_id: u64, endpoint_id: Option<String>)
        ensures
            final(self)@ == old(self)@.insert(
                connection_id,
                (shown_endpoint_id(endpoint_id), Map::<u64, B>::empty()),
            ),
    {
        let shown = match endpoint_id {
            Some(id) => id,
            None => "?".to_owned(),
        };
        let requests: BTreeMap<u64, B> = BTreeMap::new();
        let c = Connection { endpoint_id: shown, requests };
        let _ = self.connections.insert(connection_id, c);
        assert(self@ =~= old(self)@.insert(
            connection_id,
            (shown_endpoint_id(endpoint_id), Map::<u64, B>::empty()),
        ));
    }

    /// A connection closed: it is no longer tracked, and its requests in
    /// flight are handed back so that their displays can be cleared.
    pub fn closed(&mut self, connection_id: u64) -> (r: Option<BTreeMap<u64, B>>)
        ensures
            final(self)@ == old(self)@.remove(connection_id),
            match r {
                Some(requests) => old(self)@.contains_key(connection_id) && requests@ == old(
                    self,
                )@[connection_id].1,
                None => !old(self)@.contains_key(connection_id),
            },
    {
        let removed = self.connections.remove(&connection_id);
        assert(self@ =~= old(self)@.remove(connection_id));
        match removed {
            Some(c) => Some(c.requests),
            None => None,
        }
    }

    /// A request started on a connection: when the connection is tracked,
    /// the request is recorded with its display handle (replacing any with
    /// the same id) and the connection's endpoint id is given back; for an
    /// unknown connection nothing changes and `None` comes back.
    pub fn request_started(&mut self, connection_id: u64, request_id: u64, handle: B) -> (r:
        Option<String>)
        ensures
            final(self)@ == after_request_started(old(self)@, connection_id, request_id, handle),
            old(self)@.contains_key(connection_id) ==> (r matches Some(id) && id@ == old(
                self,
            )@[connection_id].0),
            !old(self)@.contains_key(connection_id) ==> r is None,
    {
        match self.connections.remove(&connection_id) {
            None => {
                assert(self.connections@ =~= old(self).connections@);
                assert(self@ =~= old(self)@);
                None
            },
            Some(c) => {
                let Connection { endpoint_id, mut requests } = c;
                let _ = requests.insert(request_id, handle);
                let shown = endpoint_id.clone();
                let _ = self.connections.insert(connection_id, Connection { endpoint_id, requests });
                assert(self@ =~= old(self)@.insert(
                    connection_id,
                    (
                        old(self)@[connection_id].0,
                        old(self)@[connection_id].1.insert(request_id, handle),
                    ),
                ));
                Some(shown)
            },
        }
    }

    /// A request completed or was aborted: it is no longer tracked on its
    /// connection. Nothing changes for an unknown connection.
    pub fn request_finished(&mut self, connection_id: u64, request_id: u64)
        ensures
            final(self)@ == after_request_finished(old(self)@, connection_id, request_id),
    {
        match self.connections.remove(&connection_id) {
            None => {
                assert(self.connections@ =~= old(self).connections@);
                assert(self@ =~= old(self)@);
            },
            Some(c) => {
                let Connection { endpoint_id, mut requests } = c;
                let _ = requests.remove(&request_id);
                let _ = self.connections.insert(connection_id, Connection { endpoint_id, requests });
                assert(self@ =~= old(self)@.insert(
                    connection_id,
                    (old(self)@[connection_id].0, old(self)@[connection_id].1.remove(request_id)),
                ));
            },
        }
    }
}

/// An update of one request in flight, with the hash type `H` of the blob
/// being sent.
pub enum RequestEvent<H> {
    /// Sending of the blob at this index of the request, of this size, began.
    Started { index: u64, size: u64, hash: H },
    /// Sending reached this offset.
    Progress(u64),
    /// The request completed.
    Completed,
    /// The request was aborted.
    Aborted,
}

/// What a request's display does on an update.
pub enum RequestDisplay<H> {
    /// Show which blob is being sent, and set the bar's length to its size.
    Describe { index: u64, size: u64, hash: H },
    /// Move the bar to this offset.
    SetPosition(u64),
    /// Nothing: the request is no longer tracked (its bar is cleared when
    /// the update stream ends).
    Untracked,
}

impl<B> ConnectionTracker<B> {
    /// Takes one update of request `request_id` on connection
    /// `connection_id`: a start or progress is shown on the request's bar and
    /// changes nothing here; a completion or abort stops tracking the
    /// request.
    pub fn request_update<H>(
        &mut self,
        connection_id: u64,
        request_id: u64,
        event: RequestEvent<H>,
    ) -> (d: RequestDisplay<H>)
        ensures
            match event {
                RequestEvent::Started { index, size, hash } => d == (RequestDisplay::Describe {
                    index,
                    size,
                    hash,
                }) && final(self)@ == old(self)@,
                RequestEvent::Progress(offset) => d == RequestDisplay::<H>::SetPosition(offset)
                    && final(self)@ == old(self)@,
                RequestEvent::Completed => d is Untracked && final(self)@
                    == after_request_finished(old(self)@, connection_id, request_id),
                RequestEvent::Aborted => d is Untracked && final(self)@ == after_request_finished(
                    old(self)@,
                    connection_id,
                    request_id,
                ),
            },
    {
        match event {
            RequestEvent::Started { index, size, hash } => RequestDisplay::Describe {
                index,
                size,
                hash,
            },
            RequestEvent::Progress(offset) => RequestDisplay::SetPosition(offset),
            RequestEvent::Completed => {
                self.request_finished(connection_id, request_id);
                RequestDisplay::Untracked
            },
            RequestEvent::Aborted => {
                self.request_finished(connection_id, request_id);
                RequestDisplay::Untracked
            },
        }
    }
}

/// Law: a request that starts and then finishes leaves the connections as
/// they were, when no request with that id was in flight on the connection.
pub proof fn law_finish_undoes_start<B>(m: Connections<B>, c: u64, r: u64, h: B)
    requires
        m.contains_key(c) ==> !m[c].1.contains_key(r),
    ensures
        after_request_finished(after_request_started(m, c, r, h), c, r) == m,
{
    if m.contains_key(c) {
        assert(m[c].1.insert(r, h).remove(r) =~= m[c].1);
        let m2 = after_request_started(m, c, r, h);
        assert(m2[c] == (m[c].0, m[c].1.insert(r, h)));
        assert(after_request_finished(m2, c, r) =~= m);
    }
}

/// Law: the requests that closing a freshly connected peer hands back are
/// exactly the ones started on it since it connected.
pub proof fn law_close_hands_back_started<B>(
    m: Connections<B>,
    c: u64,
    id: Seq<char>,
    r1: u64,
    h1: B,
    r2: u64,
    h2: B,
)
    ensures
        ({
            let m1 = m.insert(c, (id, Map::<u64, B>::empty()));
            let m3 = after_request_started(after_request_started(m1, c, r1, h1), c, r2, h2);
            &&& m3.contains_key(c)
            &&& m3[c].1 == Map::<u64, B>::empty().insert(r1, h1).insert(r2, h2)
            &&& m3[c].0 == id
            &&& m3.remove(c) == m.remove(c)
        }),
{
    let m1 = m.insert(c, (id, Map::<u64, B>::empty()));
    let m2 = after_request_started(m1, c, r1, h1);
    let m3 = after_request_started(m2, c, r2, h2);
    assert(m3.remove(c) =~= m.remove(c));
}

/// Law: once a connection has closed, later updates for it change nothing.
pub proof fn law_closed_connection_ignores_updates<B>(m: Connections<B>, c: u64, r: u64, h: B)
    ensures
        after_request_started(m.remove(c), c, r, h) == m.remove(c),
        after_request_finished(m.remove(c), c, r) == m.remove(c),
{
}

} // verus!
