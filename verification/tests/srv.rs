//! SRV records and the choice among them.

use hickory_resolver::proto::rr::rdata::{A, SRV};
use hickory_resolver::proto::rr::{Name, RData, Record};
use lite_mc_ping::resolve::{direct, lookup_name, resolved_address};
use lite_mc_ping::srv::{
    collect_srv, pick_at, pick_srv, resolve_srv, srv_from_fields, srv_from_record, srv_query,
    SrvRecord,
};
use lite_mc_ping::{PingOptions, ServerAddress};
use rand::rngs::StdRng;
use rand::SeedableRng;

fn seeded() -> StdRng {
    StdRng::seed_from_u64(0x5EED)
}

fn rec(priority: u16, weight: u16, port: u16, target: &str) -> SrvRecord {
    SrvRecord {
        priority,
        weight,
        port,
        target: target.to_string(),
    }
}

#[test]
fn empty_records_yield_none() {
    assert_eq!(pick_srv(vec![], &mut seeded()), None);
}

#[test]
fn single_record_wins() {
    let picked = pick_srv(vec![rec(10, 5, 123, "mc.example.com")], &mut seeded());
    assert_eq!(picked, Some(rec(10, 5, 123, "mc.example.com")));
}

#[test]
fn lowest_priority_group_wins() {
    let pool = vec![
        rec(10, 0, 1, "a.example.com"),
        rec(5, 0, 2, "b.example.com"),
        rec(5, 0, 3, "c.example.com"),
    ];
    let picked = pick_srv(pool, &mut seeded()).unwrap();
    assert_eq!(picked.priority, 5);
}

#[test]
fn uniform_choice_with_zero_weights() {
    let pool = vec![
        rec(1, 0, 1, "a.example.com"),
        rec(1, 0, 2, "b.example.com"),
        rec(1, 0, 3, "c.example.com"),
    ];
    let picked = pick_srv(pool, &mut seeded()).unwrap();
    assert_eq!(picked.priority, 1);
    assert!([1, 2, 3].contains(&picked.port));
}

#[test]
fn weighted_choice_stays_in_lowest_priority_pool() {
    // Weight 1 : 3, so the pick must be one of the two lowest-priority records,
    // not fixed to a hand-computed rng sequence.
    let pool = vec![rec(1, 1, 1, "a.example.com"), rec(1, 3, 2, "b.example.com")];
    let picked = pick_srv(pool, &mut seeded()).unwrap();
    assert_eq!(picked.priority, 1);
    assert!([1, 2].contains(&picked.port));
}

#[test]
fn root_target_skipped_by_collector() {
    let rec = Record::from_rdata(
        Name::from_ascii("_minecraft._tcp.example.com").unwrap(),
        60,
        RData::SRV(SRV::new(1, 0, 25565, Name::root())),
    );
    // Root target (RFC 2782 "service not available") is skipped.
    assert!(srv_from_record(&rec.data).is_none());
}

#[test]
fn srv_data_becomes_a_record() {
    let data = RData::SRV(SRV::new(
        1,
        2,
        25566,
        Name::from_ascii("mc.example.com.").unwrap(),
    ));
    assert_eq!(
        srv_from_record(&data),
        Some(rec(1, 2, 25566, "mc.example.com"))
    );
}

#[test]
fn other_data_makes_no_record() {
    assert_eq!(srv_from_record(&RData::A(A::new(192, 0, 2, 1))), None);
}

#[test]
fn trailing_dots_are_trimmed() {
    assert_eq!(
        srv_from_fields(1, 2, 3, false, "a.b..").unwrap().target,
        "a.b"
    );
    assert_eq!(srv_from_fields(1, 2, 3, false, "..").unwrap().target, "");
    assert_eq!(srv_from_fields(1, 2, 3, true, "."), None);
}

#[test]
fn answers_are_collected_in_order() {
    let name = |text: &str| Name::from_ascii(text).unwrap();
    let answers = [
        RData::SRV(SRV::new(3, 0, 1, name("a.example."))),
        RData::A(A::new(192, 0, 2, 1)),
        RData::SRV(SRV::new(1, 0, 2, Name::root())),
        RData::SRV(SRV::new(2, 7, 3, name("b.example."))),
    ];
    let answers: Vec<&RData> = answers.iter().collect();
    assert_eq!(
        collect_srv(&answers),
        vec![rec(3, 0, 1, "a.example"), rec(2, 7, 3, "b.example")]
    );
    assert_eq!(
        resolve_srv(&answers, &mut seeded()),
        Some(rec(2, 7, 3, "b.example"))
    );
    assert_eq!(resolve_srv(&vec![answers[1], answers[2]], &mut seeded()), None);
}

#[test]
fn each_record_has_its_weight_in_points() {
    let records = || {
        vec![
            rec(9, 50, 0, "z"),
            rec(2, 1, 1, "a"),
            rec(2, 0, 2, "b"),
            rec(5, 9, 0, "y"),
            rec(2, 3, 3, "c"),
        ]
    };
    let ports: Vec<u16> = (0..4)
        .map(|point| pick_at(records(), point).unwrap().port)
        .collect();
    assert_eq!(ports, [1, 3, 3, 3]);
}

#[test]
fn zero_weights_are_drawn_evenly() {
    let records = || vec![rec(2, 0, 1, "a"), rec(3, 9, 0, "z"), rec(2, 0, 2, "b")];
    assert_eq!(pick_at(records(), 0).unwrap().port, 1);
    assert_eq!(pick_at(records(), 1).unwrap().port, 2);
    assert_eq!(pick_at(vec![], 0), None);
}

#[test]
fn draws_reach_every_weighted_record() {
    let mut rng = seeded();
    let mut seen = [0u32; 3];
    for _ in 0..1000 {
        let records = vec![rec(1, 1, 0, "a"), rec(1, 0, 1, "b"), rec(1, 3, 2, "c")];
        seen[pick_srv(records, &mut rng).unwrap().port as usize] += 1;
    }
    assert!(seen[0] > 100 && seen[0] < 450, "{seen:?}");
    assert_eq!(seen[1], 0);
    assert_eq!(seen[0] + seen[2], 1000);
    let mut even = [0u32; 2];
    for _ in 0..1000 {
        let records = vec![rec(1, 0, 0, "a"), rec(1, 0, 1, "b")];
        even[pick_srv(records, &mut rng).unwrap().port as usize] += 1;
    }
    assert!(even[0] > 350 && even[1] > 350, "{even:?}");
}

#[test]
fn queries_are_fully_qualified() {
    assert_eq!(
        srv_query("mc.example.com"),
        "_minecraft._tcp.mc.example.com."
    );
    assert_eq!(
        srv_query("mc.example.com."),
        "_minecraft._tcp.mc.example.com."
    );
}

#[test]
fn lookups_are_made_only_where_they_apply() {
    let options = PingOptions::default();
    let bare: ServerAddress = "mc.example.com".parse().unwrap();
    assert_eq!(
        lookup_name(&bare, &options),
        Some("_minecraft._tcp.mc.example.com.".to_string())
    );
    let off = PingOptions {
        use_srv: false,
        ..PingOptions::default()
    };
    assert_eq!(lookup_name(&bare, &off), None);
    for complete in ["mc.example.com:25565", "192.0.2.1", "[::1]"] {
        let address: ServerAddress = complete.parse().unwrap();
        assert_eq!(lookup_name(&address, &options), None, "{complete}");
    }
}

/// An explicit port is an address in its own right: resolution must not consult
/// SRV, which could only contradict the caller.
#[test]
fn explicit_port_is_used_as_given() {
    let address: ServerAddress = "mc233.cn:1234".parse().unwrap();
    assert_eq!(lookup_name(&address, &PingOptions::default()), None);
    let resolved = resolved_address(&address, None);
    assert_eq!(resolved.host, "mc233.cn");
    assert_eq!(resolved.port, 1234);
    assert!(!resolved.used_srv);
}

#[test]
fn records_redirect_and_their_absence_falls_back() {
    let address: ServerAddress = "mc.example.com".parse().unwrap();
    let resolved = resolved_address(&address, Some(rec(1, 1, 25570, "node.example.com")));
    assert_eq!(resolved.host, "node.example.com");
    assert_eq!(resolved.port, 25570);
    assert!(resolved.used_srv);
    let resolved = resolved_address(&address, None);
    assert_eq!(resolved, direct(&address));
    assert_eq!(resolved.host, "mc.example.com");
    assert_eq!(resolved.port, 25565);
    assert!(!resolved.used_srv);
}
