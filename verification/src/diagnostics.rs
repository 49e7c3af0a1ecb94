//! What is known of the traffic and the pings to each peer.

use rustc_hash::FxHashMap;
use std::collections::VecDeque;
use vstd::prelude::*;

use crate::classify::{classify_net_msg, net_category};
use crate::clock::{duration_since, elapsed, Moment, Nanos, PING_INTERVAL, PING_TIMEOUT};
use crate::fx::{new_peers, peer_mut, peer_of, peers_of, put_peer};
use crate::message::{NetMsg, OmniPeerId, Reliability};
use crate::ranking::{first_entries, ranked, TrafficSummary};
use crate::traffic::{
    bucket_views, can_record, can_report, has_room, is_top, lists_totals, pruned, record_message, recorded,
    report_top, totals_fit, Bucket, BucketView,
};

verus! {

/// A ping that has not been answered.
#[derive(Debug, Clone, Copy, PartialEq, Eq, Structural)]
pub struct PendingPing {
    pub nonce: u64,
    pub sent_at: Moment,
}

/// What the answered pings say about a peer.
#[derive(Debug, Clone, Copy, PartialEq, Eq, Structural)]
pub struct PingSummary {
    /// How long the last answered ping took.
    pub rtt: Option<Nanos>,
    /// How long ago that answer came.
    pub last_seen_ago: Option<Nanos>,
}

impl Default for PingSummary {
    fn default() -> (summary: Self)
        ensures
            summary == (PingSummary { rtt: None, last_seen_ago: None }),
    {
        PingSummary { rtt: None, last_seen_ago: None }
    }
}

/// What is known of one peer.
#[derive(Debug)]
pub struct PeerDiagnostics {
    pub buckets: VecDeque<Bucket>,
    pub pending_ping: Option<PendingPing>,
    pub last_rtt: Option<Nanos>,
    pub last_pong_at: Option<Moment>,
}

/// What is known of one peer, as a value.
pub struct PeerView {
    pub buckets: Seq<BucketView>,
    pub pending_ping: Option<PendingPing>,
    pub last_rtt: Option<Nanos>,
    pub last_pong_at: Option<Moment>,
}

impl View for PeerDiagnostics {
    type V = PeerView;

    open spec fn view(&self) -> PeerView {
        PeerView {
            buckets: bucket_views(self.buckets@),
            pending_ping: self.pending_ping,
            last_rtt: self.last_rtt,
            last_pong_at: self.last_pong_at,
        }
    }
}

/// What is known before anything was recorded.
pub open spec fn fresh_diagnostics() -> DiagnosticsView {
    DiagnosticsView { peers: Map::empty(), next_ping_nonce: 1 }
}

/// A peer of which nothing is known.
pub open spec fn unknown_peer() -> PeerView {
    PeerView { buckets: seq![], pending_ping: None, last_rtt: None, last_pong_at: None }
}

impl Default for PeerDiagnostics {
    fn default() -> (stats: Self)
        ensures
            stats@ == unknown_peer(),
    {
        let stats = PeerDiagnostics {
            buckets: VecDeque::new(),
            pending_ping: None,
            last_rtt: None,
            last_pong_at: None,
        };
        assert(stats@.buckets =~= seq![]);
        stats
    }
}

/// Traffic and pings of every peer.
#[derive(Debug)]
pub struct OutgoingDiagnostics {
    peers: FxHashMap<u64, PeerDiagnostics>,
    next_ping_nonce: u64,
}

/// Traffic and pings of every peer, as a value.
pub struct DiagnosticsView {
    pub peers: Map<u64, PeerView>,
    pub next_ping_nonce: u64,
}

/// What is known of each peer, as values.
spec fn peer_views(peers: Map<u64, PeerDiagnostics>) -> Map<u64, PeerView> {
    peers.map_values(|stats: PeerDiagnostics| stats@)
}

/// Entering a peer and taking values commute; entering a peer as it is changes nothing;
/// of two entries for one peer the later counts.
proof fn lemma_peer_views_insert(peers: Map<u64, PeerDiagnostics>, peer: u64)
    ensures
        forall|stats: PeerDiagnostics| #[trigger]
            peer_views(peers.insert(peer, stats)) == peer_views(peers).insert(peer, stats@),
        peers.contains_key(peer) ==> peer_views(peers).insert(peer, peers[peer]@) == peer_views(
            peers,
        ),
        forall|first: PeerView, second: PeerView| #[trigger]
            peer_views(peers).insert(peer, first).insert(peer, second) == peer_views(peers).insert(
                peer,
                second,
            ),
{
    if peers.contains_key(peer) {
        assert(peer_views(peers).insert(peer, peers[peer]@) =~= peer_views(peers));
    }
    assert forall|first: PeerView, second: PeerView| #[trigger]
        peer_views(peers).insert(peer, first).insert(peer, second) == peer_views(peers).insert(
            peer,
            second,
        ) by {
        assert(peer_views(peers).insert(peer, first).insert(peer, second) =~= peer_views(
            peers,
        ).insert(peer, second));
    }
    assert forall|stats: PeerDiagnostics| #[trigger]
        peer_views(peers.insert(peer, stats)) == peer_views(peers).insert(peer, stats@) by {
        assert(peer_views(peers.insert(peer, stats)) =~= peer_views(peers).insert(peer, stats@));
    }
}

impl View for OutgoingDiagnostics {
    type V = DiagnosticsView;

    closed spec fn view(&self) -> DiagnosticsView {
        DiagnosticsView {
            peers: peer_views(peers_of(self.peers)),
            next_ping_nonce: self.next_ping_nonce,
        }
    }
}

impl DiagnosticsView {
    /// What is known of `peer`.
    pub open spec fn peer(self, peer: OmniPeerId) -> PeerView {
        if self.peers.contains_key(peer.0) {
            self.peers[peer.0]
        } else {
            unknown_peer()
        }
    }

    /// The same, but for what is known of `peer`.
    pub open spec fn with_peer(self, peer: OmniPeerId, stats: PeerView) -> DiagnosticsView {
        DiagnosticsView { peers: self.peers.insert(peer.0, stats), ..self }
    }

    /// After a message of `len` bytes to `peer` was recorded at `now`.
    pub open spec fn after_record(
        self,
        now: Moment,
        peer: OmniPeerId,
        category: Seq<char>,
        reliability: Reliability,
        len: nat,
    ) -> DiagnosticsView {
        let stats = self.peer(peer);
        match reliability {
            Reliability::Unreliable => self,
            Reliability::Reliable => self.with_peer(
                peer,
                PeerView { buckets: recorded(stats.buckets, now, category, len), ..stats },
            ),
        }
    }

    /// After a report on `peer` was made at `now`.
    pub open spec fn after_report(self, peer: OmniPeerId, now: Moment) -> DiagnosticsView {
        if self.peers.contains_key(peer.0) {
            let stats = self.peer(peer);
            self.with_peer(peer, PeerView { buckets: pruned(stats.buckets, now), ..stats })
        } else {
            self
        }
    }

    /// Whether a ping to `peer` has gone unanswered for less than the interval.
    pub open spec fn awaits_pong(self, peer: OmniPeerId, now: Moment) -> bool {
        self.peer(peer).pending_ping matches Some(pending) && elapsed(now, pending.sent_at)
            < PING_INTERVAL
    }

    /// After a ping to `peer` was begun at `now`.
    pub open spec fn after_ping(self, peer: OmniPeerId, now: Moment) -> DiagnosticsView {
        let pending = PendingPing { nonce: self.next_ping_nonce, sent_at: now };
        DiagnosticsView {
            next_ping_nonce: next_nonce(self.next_ping_nonce),
            ..self.with_peer(
                peer,
                PeerView { pending_ping: Some(pending), ..self.peer(peer) },
            )
        }
    }

    /// What comes of beginning a ping to `peer` at `now`: its nonce, or nothing while an
    /// earlier one is awaited.
    pub open spec fn ping_outcome(self, peer: OmniPeerId, now: Moment) -> Option<u64> {
        if self.awaits_pong(peer, now) {
            None
        } else {
            Some(self.next_ping_nonce)
        }
    }

    /// After a ping to `peer` was begun at `now`, or refused.
    pub open spec fn after_begin_ping(self, peer: OmniPeerId, now: Moment) -> DiagnosticsView {
        if self.awaits_pong(peer, now) {
            self
        } else {
            self.after_ping(peer, now)
        }
    }

    /// Whether `nonce` answers the ping to `peer` that is pending.
    pub open spec fn answers(self, peer: OmniPeerId, nonce: u64) -> bool {
        self.peer(peer).pending_ping matches Some(pending) && pending.nonce == nonce
    }

    /// After a pong of `peer` came in at `now`.
    pub open spec fn after_pong(
        self,
        peer: OmniPeerId,
        nonce: u64,
        now: Moment,
    ) -> DiagnosticsView {
        if self.answers(peer, nonce) {
            let stats = self.peer(peer);
            self.with_peer(
                peer,
                PeerView {
                    pending_ping: None,
                    last_rtt: Some(elapsed(now, stats.pending_ping->0.sent_at)),
                    last_pong_at: Some(now),
                    ..stats
                },
            )
        } else {
            self
        }
    }

    /// What the answered pings say about `peer` at `now`.
    pub open spec fn summary(self, peer: OmniPeerId, now: Moment) -> PingSummary {
        let stats = self.peer(peer);
        PingSummary {
            rtt: stats.last_rtt,
            last_seen_ago: match stats.last_pong_at {
                Some(at) => Some(elapsed(now, at)),
                None => None,
            },
        }
    }
}

/// The nonce that follows `nonce`; the last one is followed by zero.
pub open spec fn next_nonce(nonce: u64) -> u64 {
    if nonce == u64::MAX {
        0
    } else {
        (nonce + 1) as u64
    }
}

impl Default for OutgoingDiagnostics {
    fn default() -> (diagnostics: Self)
        ensures
            diagnostics@ == fresh_diagnostics(),
    {
        let diagnostics = OutgoingDiagnostics { peers: new_peers(), next_ping_nonce: 1 };
        assert(diagnostics@.peers =~= Map::empty());
        diagnostics
    }
}

impl OutgoingDiagnostics {
    /// Looks up what is known of `peer`, to change it. A peer of which nothing is known
    /// is entered first.
    fn known_peer(&mut self, peer: OmniPeerId) -> (stats: &mut PeerDiagnostics)
        ensures
            stats@ == old(self)@.peer(peer),
            final(self)@ == old(self)@.with_peer(peer, final(stats)@),
    {
        proof {
            lemma_peer_views_insert(peers_of(self.peers), peer.0);
        }
        if peer_of(&self.peers, peer.0).is_none() {
            put_peer(&mut self.peers, peer.0, PeerDiagnostics::default());
        }
        proof {
            lemma_peer_views_insert(peers_of(self.peers), peer.0);
        }
        peer_mut(&mut self.peers, peer.0).unwrap()
    }

    /// Counts a message to `peer`, if it is sent reliably.
    pub fn record_at(
        &mut self,
        now: Moment,
        peer: OmniPeerId,
        msg: &NetMsg,
        reliability: Reliability,
        encoded_len: usize,
    )
        requires
            reliability is Reliable ==> has_room(
                old(self)@.peer(peer).buckets,
                now,
                net_category(*msg),
                encoded_len as nat,
            ),
        ensures
            final(self)@ == old(self)@.after_record(
                now,
                peer,
                net_category(*msg),
                reliability,
                encoded_len as nat,
            ),
    {
        if reliability != Reliability::Reliable {
            return ;
        }
        let stats = self.known_peer(peer);
        record_message(&mut stats.buckets, now, classify_net_msg(msg), encoded_len as u64);
    }

    /// Tells whether a message to `peer` can be counted at `now`: it can unless a counter
    /// would leave its range.
    pub fn can_record_at(
        &self,
        now: Moment,
        peer: OmniPeerId,
        msg: &NetMsg,
        encoded_len: usize,
    ) -> (room: bool)
        ensures
            room == has_room(
                self@.peer(peer).buckets,
                now,
                net_category(*msg),
                encoded_len as nat,
            ),
    {
        let category = classify_net_msg(msg);
        match peer_of(&self.peers, peer.0) {
            Some(stats) => can_record(&stats.buckets, now, category, encoded_len as u64),
            None => can_record(
                &PeerDiagnostics::default().buckets,
                now,
                category,
                encoded_len as u64,
            ),
        }
    }

    /// Reports the `limit` categories of reliable traffic to `peer` that took the most
    /// bytes in the window that ends at `now`, the largest first. What is older is
    /// forgotten.
    ///
    /// Categories with the same number of bytes come in no particular order, and where
    /// the limit falls among them, which of them are left out is open.
    pub fn top_reliable(
        &mut self,
        peer: OmniPeerId,
        now: Moment,
        limit: usize,
    ) -> (top: Vec<TrafficSummary>)
        requires
            totals_fit(pruned(old(self)@.peer(peer).buckets, now)),
        ensures
            final(self)@ == old(self)@.after_report(peer, now),
            is_top(top@, pruned(old(self)@.peer(peer).buckets, now), limit as nat),
    {
        proof {
            lemma_peer_views_insert(peers_of(self.peers), peer.0);
        }
        let Some(stats) = peer_mut(&mut self.peers, peer.0) else {
            assert(lists_totals(seq![], seq![]));
            assert(first_entries(ranked(seq![]), limit as nat) =~= seq![]);
            return Vec::new();
        };
        report_top(&mut stats.buckets, now, limit)
    }

    /// Tells whether a report on `peer` can be made at `now`: it can unless a total would
    /// leave the range of a counter.
    pub fn can_report_at(&self, peer: OmniPeerId, now: Moment) -> (in_range: bool)
        ensures
            in_range == totals_fit(pruned(self@.peer(peer).buckets, now)),
    {
        match peer_of(&self.peers, peer.0) {
            Some(stats) => can_report(&stats.buckets, now),
            None => true,
        }
    }

    /// Begins a ping to `peer` and gives its nonce, unless an earlier one has gone
    /// unanswered for less than the interval. An older one is given up.
    pub fn begin_ping(&mut self, peer: OmniPeerId, now: Moment) -> (begun: Option<u64>)
        ensures
            begun == old(self)@.ping_outcome(peer, now),
            final(self)@ == old(self)@.after_begin_ping(peer, now),
    {
        let nonce = self.next_ping_nonce;
        proof {
            lemma_peer_views_insert(peers_of(self.peers), peer.0);
        }
        let stats = self.known_peer(peer);
        if let Some(pending) = stats.pending_ping {
            if duration_since(now, pending.sent_at) < PING_INTERVAL {
                return None;
            }
        }
        stats.pending_ping = Some(PendingPing { nonce, sent_at: now });
        self.next_ping_nonce = nonce.wrapping_add(1);
        Some(nonce)
    }

    /// Takes in a pong of `peer`. One that does not answer the pending ping is ignored.
    pub fn record_pong(&mut self, peer: OmniPeerId, nonce: u64, now: Moment)
        ensures
            final(self)@ == old(self)@.after_pong(peer, nonce, now),
    {
        proof {
            lemma_peer_views_insert(peers_of(self.peers), peer.0);
        }
        let Some(stats) = peer_mut(&mut self.peers, peer.0) else {
            return ;
        };
        let Some(pending) = stats.pending_ping else {
            return ;
        };
        if pending.nonce != nonce {
            return ;
        }
        stats.last_rtt = Some(duration_since(now, pending.sent_at));
        stats.last_pong_at = Some(now);
        stats.pending_ping = None;
    }

    /// Says what the answered pings tell about `peer` at `now`.
    pub fn ping_summary(&self, peer: OmniPeerId, now: Moment) -> (summary: PingSummary)
        ensures
            summary == self@.summary(peer, now),
    {
        let Some(stats) = peer_of(&self.peers, peer.0) else {
            return PingSummary::default();
        };
        PingSummary {
            rtt: stats.last_rtt,
            last_seen_ago: match stats.last_pong_at {
                Some(last_pong_at) => Some(duration_since(now, last_pong_at)),
                None => None,
            },
        }
    }

    /// How long a peer may leave pings unanswered before it counts as timed out.
    pub fn ping_timeout() -> (timeout: Nanos)
        ensures
            timeout == PING_TIMEOUT,
    {
        PING_TIMEOUT
    }
}

} // verus!
