use agent_id_cli::error::RegistryError;
use agent_id_cli::naming::{
    canonical_name, canonical_name_slug, is_slug, lookup_slugs, normalize_component,
    require_nonempty, session_file_name, slug, title_word, validate_session_id,
};

#[test]
fn session_ids_are_trimmed_and_checked() {
    assert_eq!(validate_session_id("  abc-1_2.3 ").unwrap(), "abc-1_2.3");
    assert_eq!(validate_session_id(".").unwrap_err(), RegistryError::UnsafeSessionId);
    assert_eq!(validate_session_id("..").unwrap_err(), RegistryError::UnsafeSessionId);
    assert_eq!(validate_session_id("a/b").unwrap_err(), RegistryError::UnsafeSessionId);
    assert_eq!(validate_session_id("...").unwrap(), "...");
    let empty = validate_session_id(" \t\n").unwrap_err();
    assert_eq!(empty.message(), "session ID cannot be empty");
    assert_eq!(
        validate_session_id("é").unwrap_err().message(),
        "session ID must be a filename-safe value using letters, digits, '.', '_' or '-'"
    );
}

#[test]
fn blank_values_are_refused() {
    assert_eq!(require_nonempty("  x ", "thing").unwrap(), "x");
    assert_eq!(require_nonempty("\u{3000}", "thing").unwrap_err().message(), "thing cannot be empty");
}

#[test]
fn components_are_title_cased() {
    assert_eq!(normalize_component("  oak ", "family name").unwrap(), "Oak");
    assert_eq!(normalize_component("DARKWOOD", "realm").unwrap(), "Darkwood");
    assert_eq!(normalize_component("o'neil-SMITH", "family name").unwrap(), "O'neil-smith");
    for bad in ["", " ", "-oak", "oak-", "'oak", "o k", "oak1", "é"] {
        assert_eq!(
            normalize_component(bad, "realm").unwrap_err(),
            RegistryError::InvalidComponent { kind: "realm".to_string() }
        );
    }
}

#[test]
fn title_word_uppercases_the_first_character() {
    assert_eq!(title_word("fERN"), "Fern");
    assert_eq!(title_word(""), "");
    assert_eq!(title_word("ßaB"), "SSab");
    assert_eq!(title_word("élan"), "Élan");
}

#[test]
fn slugs_join_lowercased_parts() {
    assert_eq!(slug("Fern", "Oak", "Darkwood"), "fern-oak-darkwood");
    assert_eq!(slug("O'neil", "Dark wood", "A_b"), "o-neil-dark-wood-a-b");
    assert!(is_slug("fern-oak-darkwood"));
    assert!(is_slug("Fern9"));
    assert!(!is_slug("-fern"));
    assert!(!is_slug("fern-"));
    assert!(!is_slug(""));
    assert!(!is_slug("fern oak"));
}

#[test]
fn canonical_names_map_to_slugs() {
    assert_eq!(canonical_name("Fern", "Oak", "Darkwood"), "Fern Oak of Darkwood");
    assert_eq!(canonical_name_slug("fern  oak OF\tdarkwood").unwrap(), "fern-oak-darkwood");
    assert_eq!(canonical_name_slug("Fern Oak of Darkwood").unwrap(), "fern-oak-darkwood");
    assert!(canonical_name_slug("Fern Oak in Darkwood").is_none());
    assert!(canonical_name_slug("Fern Oak of").is_none());
    assert!(canonical_name_slug("Fern Oak of Dark wood").is_none());
    assert!(canonical_name_slug("F3rn Oak of Darkwood").is_none());
}

#[test]
fn lookup_slugs_come_from_slug_then_name() {
    assert_eq!(lookup_slugs(" Fern-Oak-Darkwood "), vec!["fern-oak-darkwood".to_string()]);
    assert_eq!(lookup_slugs("Fern Oak of Darkwood"), vec!["fern-oak-darkwood".to_string()]);
    assert!(lookup_slugs("not a name").is_empty());
}

#[test]
fn session_files_are_json() {
    assert_eq!(session_file_name("session-1"), "session-1.json");
}

#[test]
fn lookup_slugs_ignore_case_and_spacing() {
    let slug = vec!["fern-oak-darkwood".to_string()];
    assert_eq!(lookup_slugs("FERN OAK OF DARKWOOD"), slug);
    assert_eq!(lookup_slugs("  fern \t oak\n of   darkWOOD  "), slug);
    assert_eq!(lookup_slugs("\u{3000}FERN-OAK-DARKWOOD\t"), slug);
    assert!(lookup_slugs("fern oak of dark wood").is_empty());
}
