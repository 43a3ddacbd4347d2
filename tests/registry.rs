use upman::registry::{ClearOutcome, Registry, RegistryError};

fn texts(r: &Registry) -> Vec<String> {
    r.list().into_iter().map(|(_, t)| t).collect()
}

fn registry_of(entries: &[&str]) -> Registry {
    let mut r = Registry::new();
    for e in entries {
        r.add(e, None).unwrap();
    }
    r
}

#[test]
fn add_to_empty_then_list() {
    let mut r = Registry::new();
    assert_eq!(r.add("echo hi", None), Ok(()));
    assert_eq!(r.list(), vec![(1, "echo hi".to_string())]);
}

#[test]
fn add_without_position_appends() {
    let mut r = registry_of(&["echo a", "echo b"]);
    r.add("echo c", None).unwrap();
    assert_eq!(r.len(), 3);
    assert_eq!(r.list()[2], (3, "echo c".to_string()));
}

#[test]
fn add_at_first_position() {
    let mut r = registry_of(&["echo a", "echo b"]);
    r.add("echo z", Some(1)).unwrap();
    assert_eq!(texts(&r), vec!["echo z", "echo a", "echo b"]);
}

#[test]
fn add_at_middle_and_last_positions() {
    let mut r = registry_of(&["echo a", "echo b"]);
    r.add("echo m", Some(2)).unwrap();
    assert_eq!(texts(&r), vec!["echo a", "echo m", "echo b"]);
    r.add("echo n", Some(4)).unwrap();
    assert_eq!(texts(&r), vec!["echo a", "echo m", "echo b", "echo n"]);
}

#[test]
fn add_past_end_appends() {
    let mut r = registry_of(&["echo a"]);
    r.add("echo z", Some(99)).unwrap();
    assert_eq!(texts(&r), vec!["echo a", "echo z"]);
}

#[test]
fn add_position_zero_is_rejected() {
    let mut r = registry_of(&["echo a"]);
    assert_eq!(
        r.add("echo z", Some(0)),
        Err(RegistryError::PositionOutOfBounds { requested: 0, length: 1 })
    );
    assert_eq!(texts(&r), vec!["echo a"]);
}

#[test]
fn add_invalid_text_is_rejected() {
    let mut r = registry_of(&["echo a"]);
    assert_eq!(r.add("", None), Err(RegistryError::InvalidCommand));
    assert_eq!(r.add("echo a\necho b", Some(1)), Err(RegistryError::InvalidCommand));
    assert_eq!(texts(&r), vec!["echo a"]);
}

#[test]
fn remove_middle_position() {
    let mut r = registry_of(&["echo a", "echo b", "echo c"]);
    assert_eq!(r.remove_by_position(2), Ok("echo b".to_string()));
    assert_eq!(texts(&r), vec!["echo a", "echo c"]);
}

#[test]
fn remove_position_too_high() {
    let mut r = registry_of(&["echo a"]);
    assert_eq!(
        r.remove_by_position(5),
        Err(RegistryError::PositionOutOfBounds { requested: 5, length: 1 })
    );
    assert_eq!(texts(&r), vec!["echo a"]);
}

#[test]
fn remove_position_zero_and_empty() {
    let mut r = registry_of(&["echo a"]);
    assert_eq!(
        r.remove_by_position(0),
        Err(RegistryError::PositionOutOfBounds { requested: 0, length: 1 })
    );
    let mut e = Registry::new();
    assert_eq!(
        e.remove_by_position(1),
        Err(RegistryError::PositionOutOfBounds { requested: 1, length: 0 })
    );
    assert_eq!(texts(&r), vec!["echo a"]);
}

#[test]
fn remove_by_name_exact_first_match() {
    let mut r = registry_of(&["echo a", "echo b", "echo a"]);
    assert_eq!(r.find("echo a"), Some(1));
    assert_eq!(r.remove_by_name("echo a"), Ok(1));
    assert_eq!(texts(&r), vec!["echo b", "echo a"]);
}

#[test]
fn remove_by_name_absent() {
    let mut r = registry_of(&["echo a", "echo b"]);
    assert_eq!(r.remove_by_name("echo"), Err(RegistryError::NotFound));
    assert_eq!(r.remove_by_name("echo a "), Err(RegistryError::NotFound));
    assert_eq!(texts(&r), vec!["echo a", "echo b"]);
}

#[test]
fn clear_declined_keeps_contents() {
    let contents = "$ echo a\n$ echo b\n";
    let mut r = Registry::from_contents(contents);
    assert_eq!(r.clear(false), ClearOutcome::Cancelled);
    assert_eq!(r.contents(), contents);
}

#[test]
fn clear_confirmed_empties() {
    let mut r = registry_of(&["echo a", "echo b"]);
    assert_eq!(r.clear(true), ClearOutcome::Cleared);
    assert_eq!(r.len(), 0);
    assert_eq!(r.contents(), "");
}

#[test]
fn non_entry_lines_are_ignored() {
    let r = Registry::from_contents("# note\n\n$ echo a\n   \n$\n$ \necho b\n$ echo c");
    assert_eq!(r.list(), vec![(1, "echo a".to_string()), (2, "echo c".to_string())]);
    let mut r = r;
    assert_eq!(r.remove_by_position(2), Ok("echo c".to_string()));
}

#[test]
fn contents_round_trip() {
    let r = registry_of(&["echo a", "ls -la", "x  y"]);
    let c = r.contents();
    assert_eq!(c, "$ echo a\n$ ls -la\n$ x  y\n");
    assert_eq!(texts(&Registry::from_contents(&c)), texts(&r));
}

#[test]
fn empty_file_is_empty_registry() {
    assert_eq!(Registry::from_contents("").len(), 0);
    assert_eq!(Registry::new().contents(), "");
}
