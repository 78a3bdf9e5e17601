use std::path::PathBuf;

use agent_id_cli::error::RegistryError;
use agent_id_cli::registry::{
    choose_session, configured_realm, owned_by, plan_lookup, realm_from_seed, realm_seed,
    Allocation, Assignment, Candidate, Claim, LookupStep, Registry, RegistryPath, ATTEMPTS,
};
use agent_id_cli::timestamp::Timestamp;

fn at(secs: i64) -> Timestamp {
    Timestamp { secs, nanos: 0 }
}

fn first_candidate(session_id: &str, family: Option<&str>, realm: &str) -> (Allocation, Candidate) {
    let mut allocation = Allocation::new(session_id, family, realm).unwrap();
    let candidate = allocation.next_candidate().unwrap();
    (allocation, candidate)
}

fn allocate(session_id: &str, family: Option<&str>, realm: &str, now: Timestamp) -> Assignment {
    let (allocation, candidate) = first_candidate(session_id, family, realm);
    allocation.assign(candidate, now)
}

/// Runs a lookup plan against an in-memory registry: the sessions that have
/// an assignment, and the claims of slugs.
fn lookup_in(
    input: &str,
    sessions: &[Assignment],
    claims: &[(String, String)],
) -> Result<String, RegistryError> {
    let plan = plan_lookup(input)?;
    for step in &plan.steps {
        match step {
            LookupStep::Session(id) => {
                if let Some(a) = sessions.iter().find(|a| &a.session_id == id) {
                    return Ok(a.session_id.clone());
                }
            }
            LookupStep::NameClaim(slug) => {
                if let Some((_, owner)) = claims.iter().find(|(s, _)| s == slug) {
                    return Ok(owner.clone());
                }
            }
        }
    }
    Err(RegistryError::NotFound { input: plan.input })
}

#[test]
fn generated_identity_has_canonical_parts() {
    let assignment = allocate("session-1", Some("Oak"), "Darkwood", at(1_700_000_000));

    assert_eq!(assignment.family_name, "Oak");
    assert_eq!(assignment.realm, "Darkwood");
    assert_eq!(
        assignment.slug,
        format!("{}-oak-darkwood", assignment.first_name.to_ascii_lowercase())
    );
    assert_eq!(assignment.name, format!("{} Oak of Darkwood", assignment.first_name));
}

#[test]
fn session_id_is_the_registry_filename() {
    let root = PathBuf::from("/tmp/agent-id-root");
    let registry = Registry::new(root.clone());
    let joined = |path: RegistryPath| path.parts.iter().fold(path.root, |p, part| p.join(part));
    let session = registry.session_path("session-visible");
    assert_eq!(session.root, root);
    assert_eq!(session.parts, vec!["by-session".to_string(), "session-visible.json".to_string()]);
    assert_eq!(joined(session), root.join("by-session/session-visible.json"));
    assert_eq!(registry.root(), &root);
    let claim = registry.claim_path("fern-oak-darkwood");
    assert_eq!(claim.parts, vec!["by-name".to_string(), "fern-oak-darkwood".to_string()]);
    assert_eq!(joined(claim), root.join("by-name/fern-oak-darkwood"));
    assert_eq!(joined(registry.sessions_dir()), root.join("by-session"));
    assert_eq!(joined(registry.names_dir()), root.join("by-name"));
}

#[test]
fn unsafe_session_ids_are_rejected() {
    let error = agent_id_cli::naming::validate_session_id("../escape").unwrap_err();
    assert!(error.message().contains("filename-safe"));
}

#[test]
fn lookup_accepts_session_name_and_slug() {
    let assignment = allocate("session-lookup", Some("Oak"), "Darkwood", at(1_700_000_000));
    let sessions = vec![allocate("session-lookup", Some("Oak"), "Darkwood", at(1_700_000_000))];
    let claims = vec![(assignment.slug.clone(), assignment.session_id.clone())];

    assert_eq!(lookup_in(&assignment.session_id, &sessions, &claims).unwrap(), "session-lookup");
    assert_eq!(lookup_in(&assignment.name, &sessions, &claims).unwrap(), "session-lookup");
    assert_eq!(lookup_in(&assignment.slug, &sessions, &claims).unwrap(), "session-lookup");
}

#[test]
fn registering_a_session_updates_existing_identity() {
    let first = allocate("session-1", None, "Darkwood", at(100));
    let second = allocate("session-1", None, "Darkwood", at(100)).refreshed(at(200));

    assert_eq!(second.name, first.name);
    assert_eq!(second.session_id, first.session_id);
    assert_eq!(second.created_at, first.created_at);
    assert!(!second.updated_at.is_before(&first.updated_at));
    assert_eq!(second.updated_at, at(200));
}

#[test]
fn lookup_requires_a_registered_session() {
    let error = lookup_in("missing", &[], &[]).unwrap_err();
    assert!(error.message().contains("no identity found"));
    assert_eq!(
        error.message(),
        "no identity found for 'missing'; lookup accepts a session ID, canonical name, or slug"
    );
}

#[test]
fn allocation_is_deterministic_per_session() {
    let (_, a) = first_candidate("session-x", None, "Darkwood");
    let (_, b) = first_candidate("session-x", None, "darkwood");
    assert_eq!(a, b);
    assert_eq!(a.attempt, 0);
    let (_, c) = first_candidate("session-y", None, "Darkwood");
    let (_, d) = first_candidate("session-z", None, "Darkwood");
    assert!(a.name != c.name || a.name != d.name);
}

#[test]
fn allocation_moves_through_attempts() {
    let mut allocation = Allocation::new("session-2", None, "Darkwood").unwrap();
    let first = allocation.next_candidate().unwrap();
    let second = allocation.next_candidate().unwrap();
    assert!(second.attempt > first.attempt);
    assert!(first.attempt < ATTEMPTS);
    assert_eq!(allocation.realm(), "Darkwood");
}

#[test]
fn allocation_normalizes_realm_and_family() {
    let (allocation, candidate) = first_candidate("s", Some("  o'NEIL "), "  dark-WOOD ");
    assert_eq!(allocation.realm(), "Dark-wood");
    assert_eq!(candidate.family_name, "O'neil");
    assert!(candidate.name.ends_with(" O'neil of Dark-wood"));
    assert!(candidate.slug.ends_with("-o-neil-dark-wood"));
}

#[test]
fn allocation_rejects_bad_components() {
    let realm = Allocation::new("s", None, "Dark wood").unwrap_err();
    assert_eq!(realm, RegistryError::InvalidComponent { kind: "realm".to_string() });
    assert_eq!(realm.message(), "realm must contain only letters, apostrophes, or hyphens");
    let family = Allocation::new("s", Some("0ak"), "Darkwood").unwrap_err();
    assert_eq!(family, RegistryError::InvalidComponent { kind: "family name".to_string() });
    let both = Allocation::new("s", Some("0ak"), "-x").unwrap_err();
    assert_eq!(both, RegistryError::InvalidComponent { kind: "realm".to_string() });
}

#[test]
fn allocated_parts_are_valid_components() {
    for session in ["a", "b", "c", "session-1", "session-2", "env-session"] {
        let assignment = allocate(session, None, "Darkwood", at(5));
        assert_eq!(assignment.version, 1);
        assert_eq!(assignment.session_id, session);
        assert_eq!(assignment.created_at, at(5));
        assert_eq!(assignment.updated_at, at(5));
        assert!(assignment.summary.is_none() && assignment.state.is_none() && assignment.cwd.is_none());
        assert!(assignment.extensions.is_empty());
        assert_ne!(assignment.first_name, assignment.family_name);
        assert_eq!(
            agent_id_cli::naming::normalize_component(&assignment.first_name, "first name").unwrap(),
            assignment.first_name
        );
    }
}

#[test]
fn claims_of_other_sessions_are_not_kept() {
    assert_eq!(Claim::of_existing("session-1\n", "session-1"), Claim::Owned);
    assert_eq!(Claim::of_existing("session-2\n", "session-1"), Claim::Other);
    assert_eq!(Claim::of_existing("", "session-1"), Claim::Other);
    assert!(Claim::Claimed.keeps_name());
    assert!(Claim::Owned.keeps_name());
    assert!(!Claim::Other.keeps_name());
}

#[test]
fn lookup_plan_order() {
    let plan = plan_lookup("  Fern Oak of Darkwood ").unwrap();
    assert_eq!(plan.input, "Fern Oak of Darkwood");
    assert_eq!(plan.steps, vec![LookupStep::NameClaim("fern-oak-darkwood".to_string())]);

    let plan = plan_lookup("Fern-Oak-Darkwood").unwrap();
    assert_eq!(
        plan.steps,
        vec![
            LookupStep::Session("Fern-Oak-Darkwood".to_string()),
            LookupStep::NameClaim("fern-oak-darkwood".to_string()),
        ]
    );

    let plan = plan_lookup("a.b").unwrap();
    assert_eq!(plan.steps, vec![LookupStep::Session("a.b".to_string())]);

    let error = plan_lookup("   ").unwrap_err();
    assert_eq!(error.message(), "lookup identifier cannot be empty");
}

#[test]
fn stored_entries_must_belong_to_the_session() {
    let assignment = allocate("session-1", None, "Darkwood", at(1));
    let error = owned_by(assignment, "session-2").unwrap_err();
    assert_eq!(
        error.message(),
        "identity registry entry does not belong to session session-2"
    );
    let assignment = allocate("session-1", None, "Darkwood", at(1));
    assert!(owned_by(assignment, "session-1").is_ok());
}

#[test]
fn legacy_session_environment_names_are_ignored() {
    let error = choose_session(None, None).unwrap_err();
    assert_eq!(error, RegistryError::NoSession);
    assert!(error.message().contains("no session ID found"));
}

#[test]
fn commands_discover_session_id_from_environment() {
    let session_id = choose_session(None, Some("env-session")).unwrap();
    assert_eq!(session_id, "env-session");
    let registered = allocate(&session_id, Some("Oak"), "Darkwood", at(1));
    let looked_up = lookup_in(&session_id, &[allocate("env-session", Some("Oak"), "Darkwood", at(1))], &[]);
    assert_eq!(looked_up.unwrap(), registered.session_id);
}

#[test]
fn register_and_lookup_print_the_same_name() {
    let registered = allocate("session-1", Some("Oak"), "Darkwood", at(1));
    assert!(registered.name.ends_with(" Oak of Darkwood"), "{:?}", registered.name);
    let stored = vec![allocate("session-1", Some("Oak"), "Darkwood", at(1))];
    let found = lookup_in("session-1", &stored, &[]).unwrap();
    let looked_up = stored.iter().find(|a| a.session_id == found).unwrap();
    assert_eq!(looked_up.name, registered.name);
}

#[test]
fn register_returns_and_updates_an_existing_identity() {
    let first = allocate("session-3", None, "Darkwood", at(1_000));
    let second = allocate("session-3", None, "Darkwood", at(1_000)).refreshed(at(1_001));
    assert_eq!(second.name, first.name);
    assert_eq!(second.created_at, first.created_at);
    assert!(!second.updated_at.is_before(&first.updated_at));
}

#[test]
fn lookup_fails_before_registration() {
    let error = lookup_in("missing", &[], &[]).unwrap_err();
    assert!(error.message().contains("no identity found"));
}

#[test]
fn session_comes_from_argument_then_environment() {
    assert_eq!(choose_session(Some(" s1 "), Some("env")).unwrap(), "s1");
    assert_eq!(choose_session(Some("   "), Some(" env ")).unwrap(), "env");
    assert_eq!(choose_session(None, Some("env-session")).unwrap(), "env-session");
    assert!(choose_session(None, Some(" ")).is_err());
}

#[test]
fn realm_comes_from_argument_then_environment() {
    assert_eq!(configured_realm(Some("darkwood"), Some("Ironvale")).unwrap().unwrap(), "Darkwood");
    assert_eq!(configured_realm(Some(" "), Some(" ironVALE ")).unwrap().unwrap(), "Ironvale");
    assert!(configured_realm(None, None).is_none());
    assert!(configured_realm(Some("bad realm"), None).unwrap().is_err());
}

#[test]
fn automatic_realm_comes_from_the_bundled_list() {
    let seed = realm_seed(1_234_567_890_123, 42, "host");
    assert_eq!(seed, "1234567890123:42:host");
    let realm = realm_from_seed(&seed).unwrap();
    assert!(agent_id_cli::names::candidate_realms().contains(&realm.as_str()));
    assert_eq!(realm_from_seed(&seed).unwrap(), realm);
}

#[test]
fn proposed_first_and_family_names_differ() {
    for session in ["a", "b", "c", "d", "e", "f", "g", "h", "session-1", "session-2"] {
        let mut allocation = Allocation::new(session, None, "Darkwood").unwrap();
        for _ in 0..5 {
            let candidate = allocation.next_candidate().unwrap();
            assert_ne!(candidate.first_name, candidate.family_name);
        }
    }
}

#[test]
fn equal_requests_propose_equal_names() {
    let mut one = Allocation::new("session-eq", Some("Oak"), "Darkwood").unwrap();
    let mut two = Allocation::new("session-eq", Some(" oak"), "DARKWOOD").unwrap();
    for _ in 0..3 {
        let a = one.next_candidate().unwrap();
        let b = two.next_candidate().unwrap();
        assert_eq!(a, b);
    }
}

#[test]
fn lookup_finds_a_name_in_any_case_and_spacing() {
    let assignment = allocate("session-case", Some("Oak"), "Darkwood", at(3));
    let sessions = vec![allocate("session-case", Some("Oak"), "Darkwood", at(3))];
    let claims = vec![(assignment.slug.clone(), assignment.session_id.clone())];
    let variants = [
        assignment.name.to_uppercase(),
        assignment.name.replace(' ', "   "),
        format!("  {}  ", assignment.slug.to_uppercase()),
        format!("\t{}\n", assignment.name.to_lowercase()),
    ];
    for input in variants {
        assert_eq!(lookup_in(&input, &sessions, &claims), Ok("session-case".to_string()));
    }
}
