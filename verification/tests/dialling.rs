use sound_push_core::addr::Address;
use sound_push_core::error::EngineError;
use sound_push_core::net::{
    race_schedule, sort_candidates, Candidate, DialRace, Endpoint, MAX_CANDIDATES,
};

fn v4(a: u8, b: u8, c: u8, d: u8, port: u16, rank: u8) -> Candidate {
    let ip = u32::from_be_bytes([a, b, c, d]);
    Candidate {
        endpoint: Endpoint { ip: Address::V4(ip), port, flowinfo: 0, scope_id: 0 },
        rank,
    }
}

fn v6(ip: u128, port: u16, scope_id: u32, rank: u8) -> Candidate {
    Candidate { endpoint: Endpoint { ip: Address::V6(ip), port, flowinfo: 0, scope_id }, rank }
}

#[test]
fn unscoped_link_local_is_dropped() {
    let link_local: u128 = 0xfe80_0000_0000_0000_b023_04ff_feac_9b4b;
    let mut a = vec![
        v6(link_local, 5, 0, 3),
        v6(link_local, 5, 18, 3),
        v4(192, 168, 0, 2, 5, 1),
    ];
    sort_candidates(&mut a, false);
    assert_eq!(a.len(), 2);
    assert!(!a
        .iter()
        .any(|x| matches!(x.endpoint.ip, Address::V6(_)) && x.endpoint.scope_id == 0));
}

#[test]
fn candidates_are_ordered_best_first_and_loopback_last() {
    let lan = v4(192, 168, 1, 4, 47650, 0);
    let vpn = v4(10, 8, 0, 2, 47650, 2);
    let other = v4(172, 16, 0, 9, 47650, 2);
    let lo = v4(127, 0, 0, 1, 47650, 0);
    let lo6 = v6(1, 47650, 0, 0);
    let mut a = vec![lo, vpn, lan, other, lo6];
    sort_candidates(&mut a, true);
    // Equal ranks keep their order; loopback (either family) comes after every network.
    assert_eq!(a, vec![lan, vpn, other, lo, lo6]);

    let mut b = vec![lo, vpn, lan, lo6];
    sort_candidates(&mut b, false);
    assert_eq!(b, vec![lan, vpn]);
}

#[test]
fn candidates_without_a_port_are_dropped_and_repeats_removed() {
    let lan = v4(192, 168, 1, 4, 47650, 0);
    let no_port = v4(192, 168, 1, 5, 0, 0);
    let mut a = vec![lan, no_port, lan, lan];
    sort_candidates(&mut a, false);
    assert_eq!(a, vec![lan]);
    let mut empty: Vec<Candidate> = Vec::new();
    sort_candidates(&mut empty, true);
    assert!(empty.is_empty());
}

#[test]
fn all_failed_reports_the_best_candidates_error_and_races_at_most_eight() {
    let schedule = race_schedule(12);
    assert_eq!(schedule.len(), MAX_CANDIDATES);
    assert_eq!(schedule, vec![0, 250, 500, 750, 1000, 1250, 1500, 1750]);
    // The best candidate fails long after the others, and still owns the error.
    let mut race = DialRace::new();
    for i in 1..MAX_CANDIDATES {
        race.failed(i, EngineError::AudioDevice(format!("10.0.0.{}:1", i + 1)));
    }
    race.failed(0, EngineError::AudioDevice("10.0.0.1:1".into()));
    assert_eq!(race.outcome(), EngineError::AudioDevice("10.0.0.1:1".into()));
}

#[test]
fn no_candidates_is_unreachable() {
    assert!(race_schedule(0).is_empty());
    assert_eq!(DialRace::new().outcome(), EngineError::Unreachable);
}

#[test]
fn a_later_failure_of_a_worse_candidate_does_not_replace_the_kept_one() {
    let mut race = DialRace::new();
    race.failed(2, EngineError::FirewallBlocked);
    race.failed(5, EngineError::NetworkBlocked);
    race.failed(2, EngineError::Cancelled);
    assert_eq!(race.outcome(), EngineError::FirewallBlocked);
    assert_eq!(race_schedule(3), vec![0, 250, 500]);
}
