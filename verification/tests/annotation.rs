use agent_id_cli::activity::{ActivityState, ActivityStateValue};
use agent_id_cli::annotation::{annotate, collapse_whitespace, parse_extension};
use agent_id_cli::cli::AnnotateArgs;
use agent_id_cli::error::RegistryError;
use agent_id_cli::registry::{Assignment, Extension, Summary};
use agent_id_cli::timestamp::Timestamp;

fn at(secs: i64) -> Timestamp {
    Timestamp { secs, nanos: 0 }
}

fn registered() -> Assignment {
    Assignment {
        version: 1,
        session_id: "summary-session".to_string(),
        name: "Fern Oak of Darkwood".to_string(),
        slug: "fern-oak-darkwood".to_string(),
        first_name: "Fern".to_string(),
        family_name: "Oak".to_string(),
        realm: "Darkwood".to_string(),
        created_at: at(10),
        updated_at: at(10),
        summary: None,
        state: None,
        cwd: None,
        extensions: vec![],
    }
}

fn no_changes() -> AnnotateArgs {
    AnnotateArgs {
        session: None,
        session_id: None,
        summary: None,
        clear_summary: false,
        state: None,
        clear_state: false,
        cwd: None,
        clear_cwd: false,
        extensions: vec![],
        clear_extensions: vec![],
        json: false,
    }
}

#[test]
fn annotate_updates_discovers_and_clears_summary() {
    let mut args = no_changes();
    args.summary = Some("  Implementing\n  activity summaries  ".to_string());
    let annotated = annotate(registered(), &args, at(20)).unwrap();
    let summary = annotated.summary.as_ref().unwrap();
    assert_eq!(summary.text, "Implementing activity summaries");
    assert!(!summary.updated_at.is_before(&registered().updated_at));
    assert_eq!(annotated.name, registered().name);
    assert_eq!(annotated.created_at, registered().created_at);
    assert_eq!(annotated.updated_at, at(20));

    let mut args = no_changes();
    args.clear_summary = true;
    let cleared = annotate(annotated, &args, at(30)).unwrap();
    assert_eq!(cleared.summary, None);
    assert_eq!(cleared.name, registered().name);
    assert_eq!(cleared.created_at, registered().created_at);
}

#[test]
fn annotate_sets_and_clears_state_and_cwd() {
    let mut args = no_changes();
    args.state = Some(ActivityStateValue::Waiting);
    args.cwd = Some(" /home/agent/work ".to_string());
    let a = annotate(registered(), &args, at(20)).unwrap();
    assert_eq!(a.state, Some(ActivityState { value: ActivityStateValue::Waiting, updated_at: at(20) }));
    assert_eq!(a.cwd.as_deref(), Some("/home/agent/work"));

    let mut args = no_changes();
    args.clear_state = true;
    args.clear_cwd = true;
    let b = annotate(a, &args, at(21)).unwrap();
    assert_eq!(b.state, None);
    assert_eq!(b.cwd, None);
}

#[test]
fn annotate_records_extensions() {
    let mut args = no_changes();
    args.extensions = vec!["omp = {\"turns\": 3}".to_string(), "other=true".to_string()];
    let a = annotate(registered(), &args, at(20)).unwrap();
    assert_eq!(
        a.extensions,
        vec![
            Extension { owner: "omp".to_string(), json: "{\"turns\": 3}".to_string() },
            Extension { owner: "other".to_string(), json: "true".to_string() },
        ]
    );

    let mut args = no_changes();
    args.extensions = vec!["omp=[1]".to_string()];
    args.clear_extensions = vec![" other ".to_string()];
    let b = annotate(a, &args, at(21)).unwrap();
    assert_eq!(b.extensions, vec![Extension { owner: "omp".to_string(), json: "[1]".to_string() }]);
}

#[test]
fn annotate_refuses_bad_values() {
    let mut args = no_changes();
    args.summary = Some(" \n ".to_string());
    assert_eq!(
        annotate(registered(), &args, at(1)).unwrap_err(),
        RegistryError::Empty { kind: "summary".to_string() }
    );
    let mut args = no_changes();
    args.cwd = Some("  ".to_string());
    assert_eq!(
        annotate(registered(), &args, at(1)).unwrap_err().message(),
        "working directory cannot be empty"
    );
    let mut args = no_changes();
    args.extensions = vec!["ok=1".to_string(), "missing".to_string(), "=2".to_string()];
    assert_eq!(
        annotate(registered(), &args, at(1)).unwrap_err(),
        RegistryError::InvalidExtension { argument: "missing".to_string() }
    );
}

#[test]
fn extension_arguments_split_at_the_first_equals() {
    assert_eq!(
        parse_extension("a={\"b\":\"c=d\"}"),
        Some(("a".to_string(), "{\"b\":\"c=d\"}".to_string()))
    );
    assert_eq!(parse_extension("a=not json"), None);
    assert_eq!(parse_extension(" =1"), None);
    assert_eq!(parse_extension("a"), None);
}

#[test]
fn summaries_collapse_whitespace() {
    assert_eq!(collapse_whitespace("  a \t b\n\nc "), "a b c");
    assert_eq!(collapse_whitespace(""), "");
    let s = Summary { text: collapse_whitespace("x  y"), updated_at: at(0) };
    assert_eq!(s.text, "x y");
}
