//! The decisions of a node on the discovery plane: what it answers to each
//! datagram and what it remembers of the authorities it hears from. Sending,
//! receiving, clocks and fresh random identifiers are the caller's; every
//! handler takes the time and hands back the message to send, if any.

use vstd::prelude::*;
use crate::node::{
    candidates_view, constant_time_equal, cookie_for, version_ranges_overlap,
    DiscoveryCookieIssuer, LocalAuthorityAdvertisement, DISCOVERY_COOKIE_BUCKET_SECONDS,
    DISCOVERY_RESPONSE_TTL_SECONDS, MAX_DISCOVERED_AUTHORITIES,
};
use crate::text::{copy_string, str_eq};
use crate::wire::{
    discovery_decoded, DiscoveryChallenge, DiscoveryChallengeView, DiscoveryMessage,
    DiscoveryMessageView, DiscoveryProbe, DiscoveryProbeView, DiscoveryQuery, DiscoveryQueryView,
    DiscoveryResponse, DiscoveryResponseView, DISCOVERY_WIRE_VERSION,
};

verus! {

/// How long a probe's answers are accepted, in milliseconds.
pub const DISCOVERY_PROBE_INTERVAL_MILLIS: u64 = 42000;

/// The probe this node sent last.
pub struct ActiveProbe {
    pub request_id: [u8; 16],
    pub client_nonce: [u8; 16],
    pub created_at_millis: u64,
}

/// What a node keeps for discovery.
pub struct DiscoveryState {
    pub local_authority: Option<LocalAuthorityAdvertisement>,
    pub cookie_issuer: DiscoveryCookieIssuer,
    pub active_probe: Option<ActiveProbe>,
    pub discovered_authorities: Vec<(String, DiscoveryResponse)>,
}

/// The entries of `s` that have not expired at `now`, in order.
pub open spec fn unexpired(s: Seq<(Seq<char>, DiscoveryResponseView)>, now: u64) -> Seq<
    (Seq<char>, DiscoveryResponseView),
>
    decreases s.len(),
{
    if s.len() == 0 {
        s
    } else if s.last().1.expires_at_unix_seconds > now {
        unexpired(s.drop_last(), now).push(s.last())
    } else {
        unexpired(s.drop_last(), now)
    }
}

/// The index of the entry for `source` in `s`.
pub open spec fn source_index(s: Seq<(Seq<char>, DiscoveryResponseView)>, source: Seq<char>) -> Option<
    int,
>
    decreases s.len(),
{
    if s.len() == 0 {
        None
    } else if s.last().0 == source {
        Some(s.len() - 1)
    } else {
        source_index(s.drop_last(), source)
    }
}

/// The entry that `source_index` finds is the last one for `source`; it
/// finds none where no entry is for `source`.
proof fn lemma_source_index_is_last(s: Seq<(Seq<char>, DiscoveryResponseView)>, source: Seq<char>)
    ensures
        match source_index(s, source) {
            Some(i) => 0 <= i < s.len() && s[i].0 == source && forall|j: int|
                i < j < s.len() ==> (#[trigger] s[j]).0 != source,
            None => forall|j: int| 0 <= j < s.len() ==> (#[trigger] s[j]).0 != source,
        },
    decreases s.len(),
{
    if s.len() > 0 {
        lemma_source_index_is_last(s.drop_last(), source);
        if s.last().0 != source {
            assert forall|j: int| 0 <= j < s.len() - 1 implies s[j] == s.drop_last()[j] by {}
        }
    }
}

/// Finding the entry for `source` goes by the last entry whose source it
/// is, and nothing else.
proof fn lemma_source_index_found(s: Seq<(Seq<char>, DiscoveryResponseView)>, source: Seq<char>, i: int)
    requires
        0 <= i < s.len(),
        s[i].0 == source,
        forall|j: int| i < j < s.len() ==> (#[trigger] s[j]).0 != source,
    ensures
        source_index(s, source) == Some(i),
    decreases s.len(),
{
    if i < s.len() - 1 {
        lemma_source_index_found(s.drop_last(), source, i);
    }
}

/// A response accepted from a source is what is then remembered for that
/// source, and the call reports a change exactly when the entry it had
/// for that source (among the unexpired ones) was another, or it had
/// none: a response is accepted when it is unexpired, its versions admit
/// this node's, it answers the active probe, and the source is known or
/// there is room for it.
pub proof fn lemma_accepted_response_is_remembered(
    st: DiscoveryState,
    source: Seq<char>,
    response: DiscoveryResponseView,
    now: u64,
)
    requires
        response.expires_at_unix_seconds > now,
        response.min_wire_version <= DISCOVERY_WIRE_VERSION,
        DISCOVERY_WIRE_VERSION <= response.max_wire_version,
        st.active_probe matches Some(active) && active.request_id@ == response.request_id,
    ensures
        ({
            let kept = unexpired(candidates_view(st.discovered_authorities@), now);
            let after = authorities_after(st, source, response, now);
            let known = exists|j: int| 0 <= j < kept.len() && (#[trigger] kept[j]).0 == source;
            (known || kept.len() < MAX_DISCOVERED_AUTHORITIES) ==> {
                &&& exists|i: int| 0 <= i < after.len() && #[trigger] after[i] == (source, response)
                &&& source_index(after, source) matches Some(i) && after[i].1 == response
                &&& response_changes(st, source, response, now) == !(exists|j: int|
                    0 <= j < kept.len() && (#[trigger] kept[j]) == (source, response) && forall|k: int|
                        j < k < kept.len() ==> (#[trigger] kept[k]).0 != source)
            }
        }),
{
    let kept = unexpired(candidates_view(st.discovered_authorities@), now);
    let after = authorities_after(st, source, response, now);
    lemma_source_index_is_last(kept, source);
    match source_index(kept, source) {
        Some(i) => {
            assert(after == kept.update(i, (source, response)));
            assert(after[i] == (source, response));
            lemma_source_index_found(after, source, i);
            if response_changes(st, source, response, now) {
                assert(kept[i].1 != response);
                assert forall|j: int| 0 <= j < kept.len() && kept[j] == (source, response) implies !(forall|k: int|
                    j < k < kept.len() ==> (#[trigger] kept[k]).0 != source) by {
                    if j < i {
                        assert(kept[i].0 == source);
                    } else if j > i {
                    } else {
                    }
                }
            } else {
                assert(kept[i] == (source, response));
            }
        },
        None => {
            let known = exists|j: int| 0 <= j < kept.len() && (#[trigger] kept[j]).0 == source;
            if kept.len() < MAX_DISCOVERED_AUTHORITIES {
                assert(after == kept.push((source, response)));
                assert(after[kept.len() as int] == (source, response));
                lemma_source_index_found(after, source, kept.len() as int);
            }
        },
    }
}

/// The challenge that answers `probe` from `source` at `now`, where this
/// node is an authority and speaks the probe's version.
pub open spec fn probe_answer(
    st: DiscoveryState,
    source: Seq<char>,
    probe: DiscoveryProbeView,
    now: u64,
) -> Option<DiscoveryMessageView> {
    if st.local_authority is None || !(probe.min_wire_version <= DISCOVERY_WIRE_VERSION
        && DISCOVERY_WIRE_VERSION <= probe.max_wire_version) {
        None
    } else {
        Some(
            DiscoveryMessageView::Challenge(
                DiscoveryChallengeView {
                    request_id: probe.request_id,
                    cookie: cookie_for(
                        st.cookie_issuer.key@,
                        source,
                        probe.request_id,
                        probe.client_nonce,
                        now / DISCOVERY_COOKIE_BUCKET_SECONDS,
                    ),
                },
            ),
        )
    }
}

/// The query that answers `challenge` at `now_millis`, where it answers
/// the active probe while that is fresh.
pub open spec fn challenge_answer(
    st: DiscoveryState,
    challenge: DiscoveryChallengeView,
    now_millis: u64,
) -> Option<DiscoveryMessageView> {
    match st.active_probe {
        Some(active) => if active.request_id@ == challenge.request_id && (if now_millis
            >= active.created_at_millis {
            now_millis - active.created_at_millis
        } else {
            0
        }) <= DISCOVERY_PROBE_INTERVAL_MILLIS {
            Some(
                DiscoveryMessageView::Query(
                    DiscoveryQueryView {
                        request_id: challenge.request_id,
                        client_nonce: active.client_nonce@,
                        cookie: challenge.cookie,
                    },
                ),
            )
        } else {
            None
        },
        None => None,
    }
}

/// Whether `cookie` is the cookie of the current or the previous bucket.
pub open spec fn cookie_recent(
    key: Seq<u8>,
    source: Seq<char>,
    request_id: Seq<u8>,
    client_nonce: Seq<u8>,
    cookie: Seq<u8>,
    now: u64,
) -> bool {
    let bucket = now / DISCOVERY_COOKIE_BUCKET_SECONDS;
    cookie == cookie_for(key, source, request_id, client_nonce, bucket) || cookie == cookie_for(
        key,
        source,
        request_id,
        client_nonce,
        if bucket == 0 {
            0
        } else {
            (bucket - 1) as u64
        },
    )
}

/// The response that answers `query` from `source` at `now`, where this
/// node is an authority and the query echoes a recent cookie.
pub open spec fn query_answer(
    st: DiscoveryState,
    source: Seq<char>,
    query: DiscoveryQueryView,
    now: u64,
) -> Option<DiscoveryMessageView> {
    match st.local_authority {
        Some(a) => if cookie_recent(
            st.cookie_issuer.key@,
            source,
            query.request_id,
            query.client_nonce,
            query.cookie,
            now,
        ) {
            Some(
                DiscoveryMessageView::Response(
                    DiscoveryResponseView {
                        request_id: query.request_id,
                        node_id: a.node_id@,
                        quic_endpoint: a.quic_endpoint@,
                        authority_fingerprint: a.authority_fingerprint@,
                        min_wire_version: DISCOVERY_WIRE_VERSION,
                        max_wire_version: DISCOVERY_WIRE_VERSION,
                        capabilities: Seq::empty(),
                        expires_at_unix_seconds: (now + DISCOVERY_RESPONSE_TTL_SECONDS) as u64,
                    },
                ),
            )
        } else {
            None
        },
        None => None,
    }
}

/// The authorities known after hearing `response` from `source` at `now`:
/// a response that is unexpired, of this version and answers the active
/// probe replaces the source's entry among the unexpired ones, or joins
/// them while there is room; anything else changes nothing.
pub open spec fn authorities_after(
    st: DiscoveryState,
    source: Seq<char>,
    response: DiscoveryResponseView,
    now: u64,
) -> Seq<(Seq<char>, DiscoveryResponseView)> {
    let known = candidates_view(st.discovered_authorities@);
    let kept = unexpired(known, now);
    if response.expires_at_unix_seconds <= now || !(response.min_wire_version
        <= DISCOVERY_WIRE_VERSION && DISCOVERY_WIRE_VERSION <= response.max_wire_version) {
        known
    } else if !(st.active_probe matches Some(active) && active.request_id@ == response.request_id) {
        known
    } else {
        match source_index(kept, source) {
            Some(i) => kept.update(i, (source, response)),
            None => if kept.len() >= MAX_DISCOVERED_AUTHORITIES {
                kept
            } else {
                kept.push((source, response))
            },
        }
    }
}

/// Whether hearing `response` from `source` changed what is known of it.
pub open spec fn response_changes(
    st: DiscoveryState,
    source: Seq<char>,
    response: DiscoveryResponseView,
    now: u64,
) -> bool {
    let kept = unexpired(candidates_view(st.discovered_authorities@), now);
    &&& response.expires_at_unix_seconds > now
    &&& response.min_wire_version <= DISCOVERY_WIRE_VERSION
    &&& DISCOVERY_WIRE_VERSION <= response.max_wire_version
    &&& st.active_probe matches Some(active) && active.request_id@ == response.request_id
    &&& match source_index(kept, source) {
        Some(i) => kept[i].1 != response,
        None => kept.len() < MAX_DISCOVERED_AUTHORITIES,
    }
}

/// Whether two responses are the same.
pub fn same_response(a: &DiscoveryResponse, b: &DiscoveryResponse) -> (r: bool)
    ensures
        r == (a@ == b@),
{
    if !constant_time_equal(&a.request_id, &b.request_id) || !str_eq(
        a.node_id.as_str(),
        b.node_id.as_str(),
    ) || !str_eq(a.quic_endpoint.as_str(), b.quic_endpoint.as_str()) || !constant_time_equal(
        &a.authority_fingerprint,
        &b.authority_fingerprint,
    ) || a.min_wire_version != b.min_wire_version || a.max_wire_version != b.max_wire_version
        || a.expires_at_unix_seconds != b.expires_at_unix_seconds || a.capabilities.len()
        != b.capabilities.len() {
        assert(a@.capabilities.len() != b@.capabilities.len() ==> a@ != b@);
        return false;
    }
    let mut i: usize = 0;
    while i < a.capabilities.len()
        invariant
            i <= a.capabilities@.len(),
            a.capabilities@.len() == b.capabilities@.len(),
            forall|j: int| 0 <= j < i ==> a.capabilities@[j] == b.capabilities@[j],
        decreases a.capabilities@.len() - i,
    {
        if a.capabilities[i] != b.capabilities[i] {
            assert(a@.capabilities[i as int] != b@.capabilities[i as int]);
            return false;
        }
        i = i + 1;
    }
    assert(a@.capabilities =~= b@.capabilities);
    true
}

fn copy_response(r: &DiscoveryResponse) -> (c: DiscoveryResponse)
    ensures
        c@ == r@,
{
    let mut capabilities: Vec<u16> = Vec::new();
    let mut i: usize = 0;
    while i < r.capabilities.len()
        invariant
            i <= r.capabilities@.len(),
            capabilities@ == r.capabilities@.subrange(0, i as int),
        decreases r.capabilities@.len() - i,
    {
        capabilities.push(r.capabilities[i]);
        i = i + 1;
        assert(capabilities@ =~= r.capabilities@.subrange(0, i as int));
    }
    assert(r.capabilities@.subrange(0, i as int) =~= r.capabilities@);
    DiscoveryResponse {
        request_id: r.request_id,
        node_id: copy_string(&r.node_id),
        quic_endpoint: copy_string(&r.quic_endpoint),
        authority_fingerprint: r.authority_fingerprint,
        min_wire_version: r.min_wire_version,
        max_wire_version: r.max_wire_version,
        capabilities,
        expires_at_unix_seconds: r.expires_at_unix_seconds,
    }
}

impl DiscoveryState {
    /// A node with no probe out and no authorities known.
    pub fn new(local_authority: Option<LocalAuthorityAdvertisement>, cookie_issuer: DiscoveryCookieIssuer) -> (r: Self)
        ensures
            r.local_authority == local_authority,
            r.cookie_issuer == cookie_issuer,
            r.active_probe is None,
            r.discovered_authorities@.len() == 0,
    {
        DiscoveryState {
            local_authority,
            cookie_issuer,
            active_probe: None,
            discovered_authorities: Vec::new(),
        }
    }

    /// Drops the authorities whose responses have expired at `now`.
    fn prune(&mut self, now: u64)
        ensures
            candidates_view(final(self).discovered_authorities@) == unexpired(
                candidates_view(old(self).discovered_authorities@),
                now,
            ),
            final(self).local_authority == old(self).local_authority,
            final(self).cookie_issuer == old(self).cookie_issuer,
            final(self).active_probe == old(self).active_probe,
    {
        let ghost all = candidates_view(self.discovered_authorities@);
        let mut remaining = Vec::new();
        std::mem::swap(&mut remaining, &mut self.discovered_authorities);
        let ghost src = remaining@;
        let n = remaining.len();
        let mut k: usize = 0;
        while remaining.len() > 0
            invariant
                k <= src.len(),
                n == src.len(),
                all == candidates_view(src),
                remaining@ == src.subrange(k as int, src.len() as int),
                candidates_view(self.discovered_authorities@) == unexpired(
                    candidates_view(src.subrange(0, k as int)),
                    now,
                ),
                self.local_authority == old(self).local_authority,
                self.cookie_issuer == old(self).cookie_issuer,
                self.active_probe == old(self).active_probe,
            decreases remaining@.len(),
        {
            let entry = remaining.remove(0);
            let ghost prefix = src.subrange(0, k + 1);
            proof {
                assert(candidates_view(prefix).drop_last() =~= candidates_view(src.subrange(0, k as int)));
                assert(candidates_view(prefix).last() == (entry.0@, entry.1@));
            }
            if entry.1.expires_at_unix_seconds > now {
                let ghost before = self.discovered_authorities@;
                self.discovered_authorities.push(entry);
                assert(candidates_view(self.discovered_authorities@) =~= candidates_view(before).push(
                    (entry.0@, entry.1@),
                ));
            }
            k = k + 1;
        }
        assert(src.subrange(0, k as int) =~= src);
    }

    /// The index of the entry for `source`.
    fn find_source(&self, source: &str) -> (r: Option<usize>)
        ensures
            match r {
                Some(i) => source_index(candidates_view(self.discovered_authorities@), source@)
                    == Some(i as int) && i < self.discovered_authorities@.len(),
                None => source_index(candidates_view(self.discovered_authorities@), source@) is None,
            },
    {
        let ghost s = candidates_view(self.discovered_authorities@);
        let mut i: usize = self.discovered_authorities.len();
        assert(s.subrange(0, i as int) =~= s);
        while i > 0
            invariant
                i <= s.len(),
                s == candidates_view(self.discovered_authorities@),
                source_index(s, source@) == source_index(s.subrange(0, i as int), source@),
            decreases i,
        {
            let ghost p = s.subrange(0, i as int);
            assert(p.drop_last() =~= s.subrange(0, i - 1));
            assert(p.last() == s[i - 1]);
            if str_eq(self.discovered_authorities[i - 1].0.as_str(), source) {
                return Some(i - 1);
            }
            i = i - 1;
        }
        assert(s.subrange(0, 0) =~= Seq::<(Seq<char>, DiscoveryResponseView)>::empty());
        None
    }

    /// Answers a probe from `source` at `now` with a source-bound cookie,
    /// where this node is an authority that speaks the probe's version.
    pub fn handle_discovery_probe(&self, source: &str, probe: &DiscoveryProbe, now: u64) -> (r: Option<
        DiscoveryMessage,
    >)
        ensures
            match r {
                Some(m) => probe_answer(*self, source@, probe@, now) == Some(m@),
                None => probe_answer(*self, source@, probe@, now) is None,
            },
    {
        if self.local_authority.is_none() || !version_ranges_overlap(
            probe.min_wire_version,
            probe.max_wire_version,
            DISCOVERY_WIRE_VERSION,
            DISCOVERY_WIRE_VERSION,
        ) {
            return None;
        }
        let cookie = self.cookie_issuer.issue(source, &probe.request_id, &probe.client_nonce, now);
        Some(DiscoveryMessage::Challenge(DiscoveryChallenge { request_id: probe.request_id, cookie }))
    }

    /// Answers a challenge to the active probe, while that is fresh at
    /// `now_millis`, with a query echoing the probe's nonce and the cookie.
    pub fn handle_discovery_challenge(&self, challenge: &DiscoveryChallenge, now_millis: u64) -> (r:
        Option<DiscoveryMessage>)
        ensures
            match r {
                Some(m) => challenge_answer(*self, challenge@, now_millis) == Some(m@),
                None => challenge_answer(*self, challenge@, now_millis) is None,
            },
    {
        match &self.active_probe {
            Some(active) => {
                let elapsed = if now_millis >= active.created_at_millis {
                    now_millis - active.created_at_millis
                } else {
                    0
                };
                if constant_time_equal(&active.request_id, &challenge.request_id) && elapsed
                    <= DISCOVERY_PROBE_INTERVAL_MILLIS {
                    Some(
                        DiscoveryMessage::Query(
                            DiscoveryQuery {
                                request_id: challenge.request_id,
                                client_nonce: active.client_nonce,
                                cookie: challenge.cookie,
                            },
                        ),
                    )
                } else {
                    None
                }
            },
            None => None,
        }
    }

    /// Answers a query from `source` at `now` with this node's authority
    /// response, where the query echoes a recent cookie for that source.
    pub fn handle_discovery_query(&self, source: &str, query: &DiscoveryQuery, now: u64) -> (r: Option<
        DiscoveryMessage,
    >)
        requires
            now <= u64::MAX - DISCOVERY_RESPONSE_TTL_SECONDS,
        ensures
            match r {
                Some(m) => query_answer(*self, source@, query@, now) == Some(m@),
                None => query_answer(*self, source@, query@, now) is None,
            },
    {
        let authority = match &self.local_authority {
            Some(a) => a,
            None => {
                return None;
            },
        };
        if !self.cookie_issuer.validate(source, &query.request_id, &query.client_nonce, &query.cookie, now) {
            return None;
        }
        let response = DiscoveryResponse {
            request_id: query.request_id,
            node_id: copy_string(&authority.node_id),
            quic_endpoint: copy_string(&authority.quic_endpoint),
            authority_fingerprint: authority.authority_fingerprint,
            min_wire_version: DISCOVERY_WIRE_VERSION,
            max_wire_version: DISCOVERY_WIRE_VERSION,
            capabilities: Vec::new(),
            expires_at_unix_seconds: now + DISCOVERY_RESPONSE_TTL_SECONDS,
        };
        assert(response@.capabilities =~= Seq::<u16>::empty());
        Some(DiscoveryMessage::Response(response))
    }

    /// Remembers a response from `source` heard at `now`; whether what is
    /// known of the source changed.
    pub fn handle_discovery_response(&mut self, source: &str, response: &DiscoveryResponse, now: u64) -> (r:
        bool)
        ensures
            candidates_view(final(self).discovered_authorities@) == authorities_after(
                *old(self),
                source@,
                response@,
                now,
            ),
            r == response_changes(*old(self), source@, response@, now),
            final(self).local_authority == old(self).local_authority,
            final(self).cookie_issuer == old(self).cookie_issuer,
            final(self).active_probe == old(self).active_probe,
    {
        if response.expires_at_unix_seconds <= now || !version_ranges_overlap(
            response.min_wire_version,
            response.max_wire_version,
            DISCOVERY_WIRE_VERSION,
            DISCOVERY_WIRE_VERSION,
        ) {
            return false;
        }
        let matches_active = match &self.active_probe {
            Some(active) => constant_time_equal(&active.request_id, &response.request_id),
            None => false,
        };
        if !matches_active {
            return false;
        }
        self.prune(now);
        match self.find_source(source) {
            Some(i) => {
                let changed = !same_response(&self.discovered_authorities[i].1, response);
                let ghost before = self.discovered_authorities@;
                self.discovered_authorities.set(i, (String::from_str(source), copy_response(response)));
                assert(candidates_view(self.discovered_authorities@) =~= candidates_view(before).update(
                    i as int,
                    (source@, response@),
                ));
                changed
            },
            None => {
                if self.discovered_authorities.len() >= MAX_DISCOVERED_AUTHORITIES {
                    return false;
                }
                let ghost before = self.discovered_authorities@;
                self.discovered_authorities.push((String::from_str(source), copy_response(response)));
                assert(candidates_view(self.discovered_authorities@) =~= candidates_view(before).push(
                    (source@, response@),
                ));
                true
            },
        }
    }

    /// Starts a probe with fresh identifiers at `now_millis` (`now` in
    /// seconds), forgetting expired authorities; the probe to broadcast.
    pub fn start_probe(&mut self, request_id: [u8; 16], client_nonce: [u8; 16], now_millis: u64, now: u64) -> (r:
        DiscoveryMessage)
        ensures
            r@ == DiscoveryMessageView::Probe(
                DiscoveryProbeView {
                    request_id: request_id@,
                    client_nonce: client_nonce@,
                    min_wire_version: DISCOVERY_WIRE_VERSION,
                    max_wire_version: DISCOVERY_WIRE_VERSION,
                },
            ),
            final(self).active_probe == Some(
                ActiveProbe { request_id, client_nonce, created_at_millis: now_millis },
            ),
            candidates_view(final(self).discovered_authorities@) == unexpired(
                candidates_view(old(self).discovered_authorities@),
                now,
            ),
            final(self).local_authority == old(self).local_authority,
            final(self).cookie_issuer == old(self).cookie_issuer,
    {
        self.active_probe = Some(ActiveProbe { request_id, client_nonce, created_at_millis: now_millis });
        self.prune(now);
        DiscoveryMessage::Probe(
            DiscoveryProbe {
                request_id,
                client_nonce,
                min_wire_version: DISCOVERY_WIRE_VERSION,
                max_wire_version: DISCOVERY_WIRE_VERSION,
            },
        )
    }

    /// Handles one datagram from `source`: frames from this node's own
    /// addresses and frames that do not decode are dropped; probes,
    /// challenges and queries may be answered; responses are remembered.
    pub fn handle_frame(
        &mut self,
        source: &str,
        from_self: bool,
        frame: &[u8],
        now: u64,
        now_millis: u64,
    ) -> (r: Option<DiscoveryMessage>)
        requires
            now <= u64::MAX - DISCOVERY_RESPONSE_TTL_SECONDS,
        ensures
            from_self ==> r is None && *final(self) == *old(self),
            !from_self && discovery_decoded(frame@) is None ==> r is None && *final(self) == *old(self),
            !from_self ==> match discovery_decoded(frame@) {
                Some(DiscoveryMessageView::Probe(p)) => *final(self) == *old(self) && match r {
                    Some(m) => probe_answer(*old(self), source@, p, now) == Some(m@),
                    None => probe_answer(*old(self), source@, p, now) is None,
                },
                Some(DiscoveryMessageView::Challenge(c)) => *final(self) == *old(self) && match r {
                    Some(m) => challenge_answer(*old(self), c, now_millis) == Some(m@),
                    None => challenge_answer(*old(self), c, now_millis) is None,
                },
                Some(DiscoveryMessageView::Query(q)) => *final(self) == *old(self) && match r {
                    Some(m) => query_answer(*old(self), source@, q, now) == Some(m@),
                    None => query_answer(*old(self), source@, q, now) is None,
                },
                Some(DiscoveryMessageView::Response(resp)) => {
                    &&& r is None
                    &&& candidates_view(final(self).discovered_authorities@) == authorities_after(
                        *old(self),
                        source@,
                        resp,
                        now,
                    )
                    &&& final(self).active_probe == old(self).active_probe
                },
                None => true,
            },
    {
        if from_self {
            return None;
        }
        let message = match DiscoveryMessage::decode(frame) {
            Ok(message) => message,
            Err(_) => {
                return None;
            },
        };
        match message {
            DiscoveryMessage::Probe(probe) => self.handle_discovery_probe(source, &probe, now),
            DiscoveryMessage::Challenge(challenge) => self.handle_discovery_challenge(&challenge, now_millis),
            DiscoveryMessage::Query(query) => self.handle_discovery_query(source, &query, now),
            DiscoveryMessage::Response(response) => {
                self.handle_discovery_response(source, &response, now);
                None
            },
        }
    }
}

} // verus!
