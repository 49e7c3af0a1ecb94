use entangled_net::classify::classify_net_msg;
use entangled_net::clock::{duration_since, BUCKET_SPAN, PING_INTERVAL, PING_TIMEOUT, WINDOW};
use entangled_net::diagnostics::{OutgoingDiagnostics, PingSummary};
use entangled_net::message::{
    destinations_for, Destination, EntityUpdate, NetMsg, OmniPeerId, ProxyToWorldSync, Reliability,
    RemoteDes, RemoteMessage, WorldNetMessage,
};
use entangled_net::ranking::{rank, TrafficSummary};
use entangled_net::traffic::{can_record, can_report, prune_old, record_message, report_top};
use entangled_net::traffic_laws::MAX_BUCKETS;
use std::collections::VecDeque;

const NOW: u128 = 1_000_000_000_000_000;

fn millis(count: u128) -> u128 {
    count * 1_000_000
}

fn secs(count: u128) -> u128 {
    count * 1_000_000_000
}

fn position() -> NetMsg {
    NetMsg::PlayerPosition(1, 2, false, true)
}

fn map_data() -> NetMsg {
    NetMsg::MapData(Default::default())
}

fn summary(category: &'static str, messages: u64, bytes: u64) -> TrafficSummary {
    TrafficSummary { category, messages, bytes }
}

#[test]
fn classifies_high_volume_latest_state_messages() {
    assert_eq!(classify_net_msg(&NetMsg::Ping(1)), "Ping");
    assert_eq!(classify_net_msg(&NetMsg::Pong(1)), "Pong");
    assert_eq!(
        classify_net_msg(&NetMsg::PlayerPosition(1, 2, false, true)),
        "PlayerPosition"
    );
    assert_eq!(
        classify_net_msg(&NetMsg::RemoteMsg(RemoteMessage::RemoteDes(
            RemoteDes::EntityUpdate(vec![EntityUpdate::SetHp(1.0f32.to_bits())])
        ))),
        "RemoteDes::EntityUpdate"
    );
    assert_eq!(
        classify_net_msg(&NetMsg::WorldMessage(WorldNetMessage::ChunkPacket {
            chunkpacket: Vec::new()
        })),
        "World::ChunkPacket"
    );
}

#[test]
fn classifies_large_initial_sync_messages() {
    assert_eq!(
        classify_net_msg(&NetMsg::MapData(Default::default())),
        "MapData"
    );
    assert_eq!(
        classify_net_msg(&NetMsg::MatData(Default::default())),
        "MatData"
    );
    assert_eq!(
        classify_net_msg(&NetMsg::ForwardProxyToWorldSync(ProxyToWorldSync::Updates(
            vec![]
        ))),
        "ForwardProxyToWorldSync"
    );
}

#[test]
fn tracks_recent_reliable_bytes_per_peer() {
    let mut stats = OutgoingDiagnostics::default();
    let peer = OmniPeerId(7);
    let now = NOW;
    stats.record_at(
        now,
        peer,
        &NetMsg::PlayerPosition(1, 2, false, true),
        Reliability::Reliable,
        10,
    );
    stats.record_at(
        now + millis(10),
        peer,
        &NetMsg::MapData(Default::default()),
        Reliability::Unreliable,
        200,
    );
    stats.record_at(
        now + millis(20),
        peer,
        &NetMsg::MapData(Default::default()),
        Reliability::Reliable,
        30,
    );

    let top = stats.top_reliable(peer, now + millis(30), 4);
    assert_eq!(top[0].category, "MapData");
    assert_eq!(top[0].bytes, 30);
    assert_eq!(top[1].category, "PlayerPosition");
    assert_eq!(top[1].messages, 1);
}

#[test]
fn expires_old_reliable_buckets() {
    let mut stats = OutgoingDiagnostics::default();
    let peer = OmniPeerId(9);
    let now = NOW;
    stats.record_at(
        now - secs(20),
        peer,
        &NetMsg::PlayerPosition(1, 2, false, true),
        Reliability::Reliable,
        10,
    );
    stats.record_at(
        now,
        peer,
        &NetMsg::MapData(Default::default()),
        Reliability::Reliable,
        30,
    );

    let top = stats.top_reliable(peer, now, 4);
    assert_eq!(top.len(), 1);
    assert_eq!(top[0].category, "MapData");
}

#[test]
fn expands_destinations_for_peer_specific_accounting() {
    let peers = destinations_for(
        &Destination::Peers(vec![OmniPeerId(1), OmniPeerId(2)]),
        OmniPeerId(9),
    );
    assert_eq!(peers, vec![OmniPeerId(1), OmniPeerId(2)]);

    let host = destinations_for(&Destination::Host, OmniPeerId(9));
    assert_eq!(host, vec![OmniPeerId(9)]);
}

#[test]
fn tracks_application_level_ping_round_trips() {
    let mut stats = OutgoingDiagnostics::default();
    let peer = OmniPeerId(7);
    let now = NOW;

    let nonce = stats.begin_ping(peer, now).unwrap();
    assert!(stats.begin_ping(peer, now + millis(100)).is_none());

    stats.record_pong(peer, nonce + 1, now + millis(50));
    assert_eq!(
        stats.ping_summary(peer, now + millis(50)),
        PingSummary::default()
    );

    stats.record_pong(peer, nonce, now + millis(42));
    let summary = stats.ping_summary(peer, now + millis(100));
    assert_eq!(summary.rtt, Some(millis(42)));
    assert_eq!(summary.last_seen_ago, Some(millis(58)));
}

#[test]
fn replaces_stale_pending_ping_after_interval() {
    let mut stats = OutgoingDiagnostics::default();
    let peer = OmniPeerId(8);
    let now = NOW;

    let first = stats.begin_ping(peer, now).unwrap();
    let second = stats.begin_ping(peer, now + secs(2)).unwrap();

    assert_ne!(first, second);
    stats.record_pong(peer, first, now + secs(2) + millis(30));
    assert_eq!(
        stats.ping_summary(peer, now + secs(2) + millis(30)),
        PingSummary::default()
    );

    stats.record_pong(peer, second, now + secs(2) + millis(40));
    assert_eq!(
        stats
            .ping_summary(peer, now + secs(2) + millis(40))
            .rtt,
        Some(millis(40))
    );
}

#[test]
fn a_later_time_counts_as_no_time_ago() {
    assert_eq!(duration_since(5, 2), 3);
    assert_eq!(duration_since(2, 5), 0);
    assert_eq!(WINDOW, secs(10));
    assert_eq!(BUCKET_SPAN, secs(1));
    assert_eq!(PING_INTERVAL, secs(1));
    assert_eq!(PING_TIMEOUT, secs(5));
    assert_eq!(OutgoingDiagnostics::ping_timeout(), secs(5));
}

#[test]
fn names_single_peers_and_no_peer_for_a_broadcast() {
    let one = destinations_for(&Destination::Peer(OmniPeerId(3)), OmniPeerId(9));
    assert_eq!(one, vec![OmniPeerId(3)]);
    let all = destinations_for(&Destination::Broadcast, OmniPeerId(9));
    assert_eq!(all, Vec::<OmniPeerId>::new());
}

#[test]
fn adds_up_one_category_over_several_buckets() {
    let mut stats = OutgoingDiagnostics::default();
    let peer = OmniPeerId(1);
    stats.record_at(NOW, peer, &position(), Reliability::Reliable, 10);
    stats.record_at(NOW + millis(999), peer, &position(), Reliability::Reliable, 20);
    stats.record_at(NOW + millis(1000), peer, &position(), Reliability::Reliable, 40);
    stats.record_at(NOW + millis(5000), peer, &map_data(), Reliability::Reliable, 1);
    assert_eq!(
        stats.top_reliable(peer, NOW + millis(5000), 9),
        vec![summary("PlayerPosition", 3, 70), summary("MapData", 1, 1)]
    );
}

#[test]
fn forgets_a_bucket_once_it_is_older_than_the_window() {
    let mut stats = OutgoingDiagnostics::default();
    let peer = OmniPeerId(1);
    stats.record_at(NOW, peer, &position(), Reliability::Reliable, 10);
    stats.record_at(NOW + secs(1), peer, &map_data(), Reliability::Reliable, 20);
    assert_eq!(
        stats.top_reliable(peer, NOW + secs(10), 9),
        vec![summary("MapData", 1, 20), summary("PlayerPosition", 1, 10)]
    );
    assert_eq!(
        stats.top_reliable(peer, NOW + secs(10) + 1, 9),
        vec![summary("MapData", 1, 20)]
    );
    assert_eq!(stats.top_reliable(peer, NOW + secs(11) + 1, 9), vec![]);
}

#[test]
fn a_message_counts_from_the_opening_of_its_bucket() {
    let mut stats = OutgoingDiagnostics::default();
    let peer = OmniPeerId(1);
    stats.record_at(NOW, peer, &position(), Reliability::Reliable, 10);
    stats.record_at(NOW + millis(900), peer, &map_data(), Reliability::Reliable, 20);
    assert_eq!(stats.top_reliable(peer, NOW + secs(10), 9).len(), 2);
    assert_eq!(stats.top_reliable(peer, NOW + secs(10) + 1, 9).len(), 0);
}

#[test]
fn a_clock_that_goes_back_keeps_the_last_bucket_open() {
    let mut stats = OutgoingDiagnostics::default();
    let peer = OmniPeerId(1);
    stats.record_at(NOW, peer, &position(), Reliability::Reliable, 10);
    stats.record_at(NOW - secs(30), peer, &position(), Reliability::Reliable, 20);
    assert_eq!(
        stats.top_reliable(peer, NOW + secs(10), 9),
        vec![summary("PlayerPosition", 2, 30)]
    );
}

#[test]
fn keeps_to_the_limit_of_a_report() {
    let mut stats = OutgoingDiagnostics::default();
    let peer = OmniPeerId(1);
    stats.record_at(NOW, peer, &position(), Reliability::Reliable, 10);
    stats.record_at(NOW, peer, &map_data(), Reliability::Reliable, 30);
    stats.record_at(NOW, peer, &NetMsg::Welcome, Reliability::Reliable, 20);
    assert_eq!(
        stats.top_reliable(peer, NOW, 2),
        vec![summary("MapData", 1, 30), summary("Welcome", 1, 20)]
    );
    assert_eq!(stats.top_reliable(peer, NOW, 0), vec![]);
}

#[test]
fn a_report_on_an_unknown_peer_is_empty() {
    let mut stats = OutgoingDiagnostics::default();
    stats.record_at(NOW, OmniPeerId(1), &position(), Reliability::Reliable, 10);
    assert_eq!(stats.top_reliable(OmniPeerId(2), NOW, 9), vec![]);
    assert!(stats.can_report_at(OmniPeerId(2), NOW));
    assert_eq!(
        stats.top_reliable(OmniPeerId(1), NOW, 9),
        vec![summary("PlayerPosition", 1, 10)]
    );
}

#[test]
fn a_report_changes_no_later_report() {
    let mut stats = OutgoingDiagnostics::default();
    let peer = OmniPeerId(1);
    stats.record_at(NOW, peer, &position(), Reliability::Reliable, 10);
    stats.record_at(NOW + secs(4), peer, &map_data(), Reliability::Reliable, 7);
    let first = stats.top_reliable(peer, NOW + secs(5), 9);
    assert_eq!(stats.top_reliable(peer, NOW + secs(5), 9), first);
    assert_eq!(
        stats.top_reliable(peer, NOW + secs(12), 9),
        vec![summary("MapData", 1, 7)]
    );
}

#[test]
fn tells_when_a_counter_is_full() {
    let mut stats = OutgoingDiagnostics::default();
    let peer = OmniPeerId(1);
    assert!(stats.can_record_at(NOW, peer, &position(), usize::MAX));
    stats.record_at(NOW, peer, &position(), Reliability::Reliable, usize::MAX - 5);
    assert!(stats.can_record_at(NOW, peer, &position(), 5));
    assert!(!stats.can_record_at(NOW, peer, &position(), 6));
    assert!(stats.can_record_at(NOW, peer, &map_data(), usize::MAX));
    assert!(stats.can_record_at(NOW + secs(1), peer, &position(), usize::MAX));
    stats.record_at(NOW + secs(1), peer, &position(), Reliability::Reliable, 6);
    assert!(!stats.can_report_at(peer, NOW + secs(10)));
    assert!(stats.can_report_at(peer, NOW + secs(10) + 1));
    assert_eq!(
        stats.top_reliable(peer, NOW + secs(10) + 1, 9),
        vec![summary("PlayerPosition", 1, 6)]
    );
}

#[test]
fn pings_one_peer_while_another_is_awaited() {
    let mut stats = OutgoingDiagnostics::default();
    assert_eq!(stats.begin_ping(OmniPeerId(1), NOW), Some(1));
    assert_eq!(stats.begin_ping(OmniPeerId(2), NOW), Some(2));
    assert_eq!(stats.begin_ping(OmniPeerId(1), NOW + secs(1) - 1), None);
    assert_eq!(stats.begin_ping(OmniPeerId(1), NOW + secs(1)), Some(3));
    stats.record_pong(OmniPeerId(2), 2, NOW + millis(5));
    assert_eq!(
        stats.ping_summary(OmniPeerId(2), NOW + millis(9)),
        PingSummary {
            rtt: Some(millis(5)),
            last_seen_ago: Some(millis(4))
        }
    );
    assert_eq!(
        stats.ping_summary(OmniPeerId(1), NOW + millis(9)),
        PingSummary::default()
    );
    assert_eq!(stats.begin_ping(OmniPeerId(2), NOW + millis(6)), Some(4));
}

#[test]
fn an_answer_counts_once() {
    let mut stats = OutgoingDiagnostics::default();
    let peer = OmniPeerId(1);
    let nonce = stats.begin_ping(peer, NOW).unwrap();
    stats.record_pong(OmniPeerId(5), nonce, NOW + millis(1));
    stats.record_pong(peer, nonce, NOW + millis(3));
    stats.record_pong(peer, nonce, NOW + millis(8));
    assert_eq!(stats.ping_summary(peer, NOW + millis(8)).rtt, Some(millis(3)));
    assert_eq!(
        stats.ping_summary(OmniPeerId(5), NOW),
        PingSummary::default()
    );
}

#[test]
fn traffic_leaves_pings_alone() {
    let mut stats = OutgoingDiagnostics::default();
    let peer = OmniPeerId(1);
    let nonce = stats.begin_ping(peer, NOW).unwrap();
    stats.record_at(NOW, peer, &position(), Reliability::Reliable, 10);
    stats.top_reliable(peer, NOW, 9);
    stats.record_pong(peer, nonce, NOW + millis(3));
    assert_eq!(stats.ping_summary(peer, NOW + millis(3)).rtt, Some(millis(3)));
    assert_eq!(
        stats.top_reliable(peer, NOW, 9),
        vec![summary("PlayerPosition", 1, 10)]
    );
}

#[test]
fn ranks_by_bytes_and_keeps_the_order_of_equals() {
    let summaries = vec![
        summary("a", 1, 5),
        summary("b", 2, 9),
        summary("c", 3, 5),
        summary("d", 4, 9),
        summary("e", 5, 0),
    ];
    assert_eq!(
        rank(summaries.clone(), 9),
        vec![
            summary("b", 2, 9),
            summary("d", 4, 9),
            summary("a", 1, 5),
            summary("c", 3, 5),
            summary("e", 5, 0),
        ]
    );
    assert_eq!(rank(summaries, 3).len(), 3);
    assert_eq!(rank(Vec::new(), 3), vec![]);
}

#[test]
fn keeps_few_buckets_however_long_it_runs() {
    let mut buckets = VecDeque::new();
    for step in 0..200 {
        let now = NOW + millis(700) * step;
        assert!(can_record(&buckets, now, "Ping", 1));
        record_message(&mut buckets, now, "Ping", 1);
        assert!(buckets.len() <= MAX_BUCKETS);
    }
    let mut buckets = VecDeque::new();
    for step in 0..200 {
        record_message(&mut buckets, NOW + secs(1) * step, "Ping", 1);
    }
    assert_eq!(buckets.len(), MAX_BUCKETS);
    assert_eq!(buckets[0].at, NOW + secs(189));
    assert_eq!(buckets[10].at, NOW + secs(199));
}

#[test]
fn drops_only_what_is_older_than_the_window() {
    let mut buckets = VecDeque::new();
    for step in 0..5 {
        record_message(&mut buckets, NOW + secs(2) * step, "Ping", 3);
    }
    assert_eq!(buckets.len(), 5);
    prune_old(&mut buckets, NOW + secs(12));
    assert_eq!(buckets.len(), 4);
    assert!(can_report(&buckets, NOW + secs(12)));
    assert_eq!(
        report_top(&mut buckets, NOW + secs(13), 9),
        vec![summary("Ping", 3, 9)]
    );
    assert_eq!(buckets.len(), 3);
    assert_eq!(buckets[0].at, NOW + secs(4));
    assert_eq!(buckets[0].counter("Ping").messages, 1);
    assert_eq!(buckets[0].counter("Ping").bytes, 3);
    assert_eq!(buckets[0].counter("Pong").messages, 0);
}

#[test]
fn never_gives_a_nonce_twice() {
    let mut stats = OutgoingDiagnostics::default();
    let mut nonces = Vec::new();
    for step in 0..50 {
        let peer = OmniPeerId((step % 3) as u64);
        let nonce = stats.begin_ping(peer, NOW + secs(1) * step).unwrap();
        assert!(!nonces.contains(&nonce));
        nonces.push(nonce);
    }
    assert_eq!(nonces[0], 1);
    assert_eq!(nonces[49], 50);
}

#[test]
fn reports_at_one_time_agree_as_far_as_the_shorter_reaches() {
    let mut stats = OutgoingDiagnostics::default();
    let peer = OmniPeerId(1);
    stats.record_at(NOW, peer, &position(), Reliability::Reliable, 10);
    stats.record_at(NOW, peer, &map_data(), Reliability::Reliable, 30);
    stats.record_at(NOW, peer, &NetMsg::Welcome, Reliability::Reliable, 10);
    stats.record_at(NOW, peer, &NetMsg::Kick, Reliability::Reliable, 20);
    let full = stats.top_reliable(peer, NOW, usize::MAX);
    assert_eq!(full.len(), 4);
    for limit in 0..6 {
        let top = stats.top_reliable(peer, NOW, limit);
        assert_eq!(top.len(), limit.min(4));
        for (i, entry) in top.iter().enumerate() {
            assert_eq!(entry.bytes, full[i].bytes);
            assert!(full.contains(entry));
            assert!(entry.messages >= 1);
        }
        for left_out in full.iter().filter(|entry| !top.contains(entry)) {
            assert!(top.iter().all(|entry| left_out.bytes <= entry.bytes));
        }
    }
}

#[test]
fn a_message_raises_its_own_category_alone() {
    let mut stats = OutgoingDiagnostics::default();
    let peer = OmniPeerId(1);
    stats.record_at(NOW, peer, &position(), Reliability::Reliable, 10);
    stats.record_at(NOW, peer, &map_data(), Reliability::Reliable, 30);
    stats.top_reliable(peer, NOW + secs(2), usize::MAX);
    stats.record_at(NOW + secs(2), peer, &position(), Reliability::Reliable, 5);
    stats.record_at(NOW + secs(2), peer, &NetMsg::Kick, Reliability::Reliable, 1);
    assert_eq!(
        stats.top_reliable(peer, NOW + secs(2), usize::MAX),
        vec![
            summary("MapData", 1, 30),
            summary("PlayerPosition", 2, 15),
            summary("Kick", 1, 1)
        ]
    );
}

#[test]
fn sums_up_a_whole_window_of_messages() {
    let mut stats = OutgoingDiagnostics::default();
    let peer = OmniPeerId(1);
    for step in 0..100 {
        let now = NOW + millis(100) * step;
        stats.record_at(now, peer, &position(), Reliability::Reliable, step as usize);
        stats.record_at(now, peer, &NetMsg::Kick, Reliability::Unreliable, 1000);
        stats.record_at(now, OmniPeerId(2), &NetMsg::Kick, Reliability::Reliable, 1000);
        if step % 2 == 0 {
            stats.record_at(now, peer, &map_data(), Reliability::Reliable, 3);
        }
    }
    assert_eq!(
        stats.top_reliable(peer, NOW + secs(10), 150),
        vec![summary("PlayerPosition", 100, 4950), summary("MapData", 50, 150)]
    );
}

#[test]
fn bucket_ages_follow_the_clock() {
    let mut buckets = VecDeque::new();
    for step in 0..300 {
        let now = NOW + millis(370) * step;
        record_message(&mut buckets, now, "Ping", 1);
        let newest = buckets[buckets.len() - 1].at;
        assert!(now - buckets[0].at <= WINDOW);
        assert!(now - newest < BUCKET_SPAN);
        for i in 1..buckets.len() {
            assert!(buckets[i - 1].at + BUCKET_SPAN <= buckets[i].at);
        }
    }
}

#[test]
fn a_refused_ping_uses_up_no_nonce() {
    let mut stats = OutgoingDiagnostics::default();
    assert_eq!(stats.begin_ping(OmniPeerId(1), NOW), Some(1));
    assert_eq!(stats.begin_ping(OmniPeerId(1), NOW + 1), None);
    assert_eq!(stats.begin_ping(OmniPeerId(1), NOW - secs(3)), None);
    assert_eq!(stats.begin_ping(OmniPeerId(2), NOW + 2), Some(2));
    stats.record_pong(OmniPeerId(1), 2, NOW + 3);
    assert_eq!(stats.begin_ping(OmniPeerId(1), NOW + 4), None);
    stats.record_pong(OmniPeerId(1), 1, NOW + 5);
    assert_eq!(stats.begin_ping(OmniPeerId(1), NOW + 6), Some(3));
}

#[test]
fn what_was_answered_stays_known() {
    let mut stats = OutgoingDiagnostics::default();
    let peer = OmniPeerId(1);
    let nonce = stats.begin_ping(peer, NOW).unwrap();
    stats.record_pong(peer, nonce, NOW + millis(4));
    let known = stats.ping_summary(peer, NOW + secs(9));
    assert_eq!(known.rtt, Some(millis(4)));
    assert_eq!(known.last_seen_ago, Some(secs(9) - millis(4)));
    stats.begin_ping(peer, NOW + secs(1));
    stats.record_pong(peer, nonce, NOW + secs(2));
    stats.record_at(NOW, peer, &position(), Reliability::Reliable, 10);
    stats.top_reliable(peer, NOW, 9);
    assert_eq!(stats.ping_summary(peer, NOW + secs(9)), known);
}
