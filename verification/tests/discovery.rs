use agent_id_cli::activity::{ActivityState, ActivityStateValue};
use agent_id_cli::discovery::{listing_line, prune_cutoff, select_prunable, DiscoverQuery};
use agent_id_cli::error::RegistryError;
use agent_id_cli::registry::{Assignment, Summary};
use agent_id_cli::timestamp::Timestamp;

fn at(secs: i64) -> Timestamp {
    Timestamp { secs, nanos: 0 }
}

fn record(session: &str, realm: &str, updated: i64) -> Assignment {
    Assignment {
        version: 1,
        session_id: session.to_string(),
        name: format!("Fern Oak of {realm}"),
        slug: format!("fern-oak-{}", realm.to_ascii_lowercase()),
        first_name: "Fern".to_string(),
        family_name: "Oak".to_string(),
        realm: realm.to_string(),
        created_at: at(0),
        updated_at: at(updated),
        summary: None,
        state: None,
        cwd: None,
        extensions: vec![],
    }
}

fn sessions(list: &[Assignment]) -> Vec<&str> {
    list.iter().map(|a| a.session_id.as_str()).collect()
}

#[test]
fn discover_lists_recent_assignments() {
    let now = at(10 * 3600);
    let found = vec![
        record("discover-one", "Darkwood", 9 * 3600),
        record("discover-two", "Darkwood", 9 * 3600 + 5),
        record("old", "Darkwood", 3600),
        record("elsewhere", "Ironvale", 9 * 3600 + 1),
    ];

    let query = DiscoverQuery::new(None, Some("Darkwood"), false, now).unwrap();
    let listed = query.select(found, 1);
    assert_eq!(listed.len(), 1);
    assert_eq!(listed[0].realm, "Darkwood");
    assert_eq!(listed[0].session_id, "discover-two");

    let found = vec![
        record("discover-one", "Darkwood", 9 * 3600),
        record("discover-two", "Darkwood", 9 * 3600 + 5),
        record("old", "Darkwood", 3600),
    ];
    let query = DiscoverQuery::new(Some(1), None, false, now).unwrap();
    assert_eq!(query.cutoff, Some(at(9 * 3600)));
    let listed = query.select(found, 20);
    assert_eq!(listed.len(), 2);
    assert!(!listed[0].updated_at.is_before(&listed[1].updated_at));
}

#[test]
fn discovery_orders_newest_first_and_keeps_ties_in_order() {
    let found = vec![
        record("a", "Darkwood", 5),
        record("b", "Darkwood", 9),
        record("c", "Darkwood", 5),
        record("d", "Darkwood", 7),
    ];
    let query = DiscoverQuery::new(None, None, false, at(100)).unwrap();
    assert_eq!(sessions(&query.select(found, 0)), vec!["b", "d", "a", "c"]);
}

#[test]
fn discovery_hides_stopped_assignments_unless_asked() {
    let mut stopped = record("stopped", "Darkwood", 5);
    stopped.state = Some(ActivityState { value: ActivityStateValue::Stopped, updated_at: at(5) });
    let mut idle = record("idle", "Darkwood", 4);
    idle.state = Some(ActivityState { value: ActivityStateValue::Idle, updated_at: at(4) });
    let query = DiscoverQuery::new(None, None, false, at(100)).unwrap();
    assert_eq!(sessions(&query.select(vec![stopped, idle], 0)), vec!["idle"]);

    let mut stopped = record("stopped", "Darkwood", 5);
    stopped.state = Some(ActivityState { value: ActivityStateValue::Stopped, updated_at: at(5) });
    let query = DiscoverQuery::new(None, None, true, at(100)).unwrap();
    assert_eq!(sessions(&query.select(vec![stopped], 0)), vec!["stopped"]);
}

#[test]
fn discovery_rejects_bad_filters() {
    assert_eq!(
        DiscoverQuery::new(Some(-1), None, false, at(0)).unwrap_err(),
        RegistryError::NegativeRecent
    );
    assert_eq!(
        DiscoverQuery::new(None, Some("dark wood"), false, at(0)).unwrap_err(),
        RegistryError::InvalidComponent { kind: "realm".to_string() }
    );
    let query = DiscoverQuery::new(None, Some(" darkwood "), false, at(0)).unwrap();
    assert_eq!(query.realm.as_deref(), Some("Darkwood"));
}

#[test]
fn listing_lines_show_what_is_recorded() {
    let mut a = record("summary-session", "Darkwood", 5);
    assert_eq!(
        listing_line(&a, "2024-01-01T00:00:00Z"),
        "Fern Oak of Darkwood\tsummary-session\tupdated:2024-01-01T00:00:00Z"
    );
    a.summary = Some(Summary { text: "Implementing activity summaries".to_string(), updated_at: at(5) });
    a.state = Some(ActivityState { value: ActivityStateValue::Working, updated_at: at(5) });
    a.cwd = Some("/work".to_string());
    let line = listing_line(&a, "T");
    assert!(line.contains("summary:Implementing activity summaries"));
    assert_eq!(
        line,
        "Fern Oak of Darkwood\tsummary-session\tupdated:T\tstate:working\tcwd:/work\tsummary:Implementing activity summaries"
    );
}

#[test]
fn prune_defaults_to_apply_and_dry_run_previews() {
    let cutoff = prune_cutoff("2100-01-01T00:00:00Z").unwrap();
    assert_eq!(cutoff, Timestamp { secs: 4_102_444_800, nanos: 0 });
    let found = vec![record("prune-session", "Darkwood", 1_700_000_000), record("future", "Darkwood", 4_102_444_801)];
    let removed = select_prunable(found, cutoff);
    assert_eq!(sessions(&removed), vec!["prune-session"]);

    let offset = prune_cutoff("2024-01-01T01:00:00.5+01:00").unwrap();
    assert_eq!(offset, Timestamp { secs: 1_704_067_200, nanos: 500_000_000 });
    assert_eq!(
        prune_cutoff("yesterday").unwrap_err(),
        RegistryError::InvalidTimestamp { text: "yesterday".to_string() }
    );
}

#[test]
fn a_limit_keeps_the_newest_entries() {
    let found = || {
        vec![
            record("a", "Darkwood", 5),
            record("b", "Darkwood", 9),
            record("c", "Darkwood", 5),
            record("d", "Darkwood", 7),
            record("e", "Darkwood", 1),
        ]
    };
    let query = DiscoverQuery::new(None, None, false, at(100)).unwrap();
    let full = query.select(found(), 0);
    for limit in 1..8 {
        let part = query.select(found(), limit);
        assert_eq!(part.len(), limit.min(full.len()));
        assert_eq!(sessions(&part), sessions(&full[..part.len()]));
    }
    assert_eq!(sessions(&query.select(found(), 3)), vec!["b", "d", "a"]);
}
