use agent_id_cli::activity::{ActivityState, ActivityStateValue};
use agent_id_cli::cli::{AnnotateArgs, LookupArgs, RegisterArgs};
use agent_id_cli::error::RegistryError;
use agent_id_cli::hashing::{be_u64_at, digest_text, pick_index};
use agent_id_cli::names::{candidate_realms, family_names, first_names, unique_words};
use agent_id_cli::naming::normalize_component;
use agent_id_cli::prime::{generate, COMMAND_REFERENCE, PRELUDE};
use agent_id_cli::text::{decimal_chars, trim_str};
use agent_id_cli::timestamp::Timestamp;

#[test]
fn external_states_are_recognised() {
    assert_eq!(ActivityStateValue::from_external("working"), ActivityStateValue::Working);
    assert_eq!(ActivityStateValue::from_external("idle"), ActivityStateValue::Idle);
    assert_eq!(ActivityStateValue::from_external("waiting"), ActivityStateValue::Waiting);
    assert_eq!(ActivityStateValue::from_external("blocked"), ActivityStateValue::Blocked);
    assert_eq!(ActivityStateValue::from_external("stopped"), ActivityStateValue::Stopped);
    assert_eq!(ActivityStateValue::from_external("Working"), ActivityStateValue::Unknown);
    assert_eq!(ActivityStateValue::from_external(""), ActivityStateValue::Unknown);
    for v in [
        ActivityStateValue::Working,
        ActivityStateValue::Idle,
        ActivityStateValue::Waiting,
        ActivityStateValue::Blocked,
        ActivityStateValue::Stopped,
        ActivityStateValue::Unknown,
    ] {
        assert_eq!(ActivityStateValue::from_external(v.as_str()), v);
        assert_eq!(v.to_string(), v.as_str());
    }
}

#[test]
fn activity_states_keep_their_time() {
    let t = Timestamp { secs: 7, nanos: 8 };
    let s = ActivityState::unknown(t);
    assert_eq!(s.value, ActivityStateValue::Unknown);
    assert_eq!(s.updated_at, t);
    let s = ActivityState::from_external("blocked", t);
    assert_eq!(s.value, ActivityStateValue::Blocked);
    assert_eq!(s.updated_at, t);
}

#[test]
fn explicit_arguments_prefer_the_positional_one() {
    let args = RegisterArgs {
        session: Some("a".to_string()),
        session_id: Some("b".to_string()),
        family: None,
        realm: None,
        json: false,
    };
    assert_eq!(args.explicit_session(), Some("a"));
    let args = LookupArgs { input: None, session_id: Some("b".to_string()), json: false };
    assert_eq!(args.explicit_input(), Some("b"));
    let args = LookupArgs { input: None, session_id: None, json: true };
    assert_eq!(args.explicit_input(), None);
    let args = AnnotateArgs {
        session: None,
        session_id: Some("c".to_string()),
        summary: None,
        clear_summary: false,
        state: None,
        clear_state: false,
        cwd: None,
        clear_cwd: false,
        extensions: vec![],
        clear_extensions: vec![],
        json: false,
    };
    assert_eq!(args.explicit_session(), Some("c"));
}

#[test]
fn unique_words_keep_first_occurrences() {
    let data = "  Fern \nMoss\r\n\n  \nFern\nMoss\nSage";
    assert_eq!(unique_words(data), vec!["Fern", "Moss", "Sage"]);
    assert!(unique_words("").is_empty());
    assert!(unique_words("\n \n").is_empty());
}

#[test]
fn bundled_names_are_valid_components() {
    let firsts = first_names();
    let families = family_names();
    let realms = candidate_realms();
    assert!(firsts.len() > 20 && families.len() > 20 && realms.len() > 5);
    for (kind, list) in [("first name", &firsts), ("family name", &families), ("realm", &realms)] {
        for word in list.iter() {
            assert_eq!(normalize_component(word, kind).unwrap(), *word);
        }
    }
    assert!(families.contains(&"Oak"));
    assert!(realms.contains(&"Darkwood"));
}

#[test]
fn prime_json_contains_the_command_contract() {
    let documentation = generate(false);
    assert!(documentation.contains("agent-id register"));
    assert!(documentation.contains("agent-id lookup"));
    assert!(documentation.contains("agent-id annotate"));
    assert_eq!(documentation, format!("{PRELUDE}{COMMAND_REFERENCE}"));
    let prelude = generate(true);
    assert_eq!(prelude, PRELUDE);
    assert!(!prelude.contains("## Commands"));
    assert!(prelude.starts_with("# agent-id"));
}

#[test]
fn digests_are_sha256() {
    let d = digest_text("abc");
    assert_eq!(d.len(), 32);
    assert_eq!(
        d[..4],
        [0xba, 0x78, 0x16, 0xbf]
    );
    assert_eq!(be_u64_at(&d, 0), 0xba7816bf8f01cfea);
    assert_eq!(pick_index(10, 3), 1);
    assert_eq!(pick_index(0xba7816bf8f01cfea, 7), (0xba7816bf8f01cfea_u64 % 7) as usize);
}

#[test]
fn numbers_are_rendered_in_decimal() {
    let s: String = decimal_chars(0).into_iter().collect();
    assert_eq!(s, "0");
    let s: String = decimal_chars(100_000).into_iter().collect();
    assert_eq!(s, "100000");
    let s: String = decimal_chars(u128::MAX).into_iter().collect();
    assert_eq!(s, u128::MAX.to_string());
}

#[test]
fn trimming_removes_unicode_whitespace() {
    assert_eq!(trim_str("\u{2003} a b \u{85}\t"), "a b");
    assert_eq!(trim_str("   "), "");
}

#[test]
fn hours_are_subtracted_in_seconds() {
    let now = Timestamp { secs: 1_000_000, nanos: 5 };
    assert_eq!(now.hours_before(2), Timestamp { secs: 1_000_000 - 7200, nanos: 5 });
    assert!(Timestamp { secs: 1, nanos: 0 }.is_before(&Timestamp { secs: 1, nanos: 1 }));
    assert!(!Timestamp { secs: 2, nanos: 0 }.is_before(&Timestamp { secs: 1, nanos: 9 }));
}

#[test]
fn error_messages_name_their_subject() {
    assert_eq!(
        RegistryError::Exhausted { realm: "Darkwood".to_string() }.message(),
        "exhausted available names for realm Darkwood"
    );
    assert_eq!(
        RegistryError::NotRegistered { session_id: "s".to_string() }.message(),
        "no identity registered for session s; run `agent-id register s`"
    );
    assert_eq!(RegistryError::NegativeRecent.message(), "--recent must be non-negative");
    assert_eq!(RegistryError::EmptyNameLists.message(), "name lists are empty");
    assert_eq!(RegistryError::NoRealmCandidates.message(), "bundled realm candidate list is empty");
}
