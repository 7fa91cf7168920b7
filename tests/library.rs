use proxy::db::{get_initial_db_json, load_store, save_text, store_to_json, DBError};
use proxy::debug::{
    get_blank_row, get_bottom_bar, get_content_rows, get_row_from_valid_content, get_top_bar,
    render,
};
use proxy::relay::{shell_for, Relay, RelayAction, RelayEvent, RelayPhase};
use proxy::resolve::{
    add_alias, build_command_line, key_from_file_name, key_from_path, listing, resolve_command,
    ResolveError,
};
use proxy::store::AliasStore;

fn pairs(store: &AliasStore) -> Vec<(String, String)> {
    store.list()
}

fn owned(items: &[(&str, &str)]) -> Vec<(String, String)> {
    items.iter().map(|(k, v)| (k.to_string(), v.to_string())).collect()
}

#[test]
fn top_bar_has_title_and_width() {
    let bar = get_top_bar();
    assert_eq!(bar.len(), 75);
    assert_eq!(bar, format!("+--- PROXY {}+", "-".repeat(63)));
}

#[test]
fn bottom_bar_and_blank_row() {
    assert_eq!(get_bottom_bar(), format!("+{}+", "-".repeat(73)));
    assert_eq!(get_blank_row(), format!("|{}|", " ".repeat(73)));
}

#[test]
fn row_pads_content_to_width() {
    let row = get_row_from_valid_content("hello".to_string());
    assert_eq!(row, format!("|   hello{}|", " ".repeat(65)));
    assert_eq!(row.len(), 75);
}

#[test]
fn content_rows_split_lines_and_trim() {
    let rows = get_content_rows("  one\ntwo\n\n".to_string());
    let expected = format!(
        "{}\n{}",
        get_row_from_valid_content("one".to_string()),
        get_row_from_valid_content("two".to_string())
    );
    assert_eq!(rows, expected);
}

#[test]
fn content_rows_wrap_at_space() {
    // 60 letters, a space, then 20 letters: the break falls on the space.
    let first = "a".repeat(60);
    let second = "b".repeat(20);
    let rows = get_content_rows(format!("{} {}", first, second));
    let expected = format!(
        "{}\n{}",
        get_row_from_valid_content(first.clone()),
        get_row_from_valid_content(second.clone())
    );
    assert_eq!(rows, expected);
}

#[test]
fn content_rows_hard_break_without_space() {
    let line = "x".repeat(100);
    let rows = get_content_rows(line);
    let expected = format!(
        "{}\n{}",
        get_row_from_valid_content("x".repeat(67)),
        get_row_from_valid_content("x".repeat(33))
    );
    assert_eq!(rows, expected);
}

#[test]
fn content_rows_space_outside_window_is_ignored() {
    // The only space sits 30 characters before the limit, beyond the look-back window.
    let line = format!("{} {}", "c".repeat(37), "d".repeat(50));
    let rows = get_content_rows(line.clone());
    let expected = format!(
        "{}\n{}",
        get_row_from_valid_content(line[..67].to_string()),
        get_row_from_valid_content(line[67..].to_string())
    );
    assert_eq!(rows, expected);
}

#[test]
fn render_frames_message() {
    let text = render("hi".to_string());
    let expected = format!(
        "\n{}\n{}\n{}\n{}\n{}\n\n",
        get_top_bar(),
        get_blank_row(),
        get_row_from_valid_content("hi".to_string()),
        get_blank_row(),
        get_bottom_bar()
    );
    assert_eq!(text, expected);
}

#[test]
fn initial_db_text_is_versioned_and_empty() {
    let text = get_initial_db_json();
    assert_eq!(
        text,
        "\n        {\n            \"db_version\": 1,\n            \"cmds\": {}\n        }\n    "
    );
    let store = load_store(&text).ok().unwrap();
    assert_eq!(store.len(), 0);
}

#[test]
fn empty_text_loads_empty_store() {
    let store = load_store("").ok().unwrap();
    assert!(pairs(&store).is_empty());
}

#[test]
fn load_reads_aliases_in_order() {
    let text = r#"{"db_version":1,"cmds":{"foo":"/usr/bin/foo.sh","bar":"/opt/bar"}}"#;
    let store = load_store(text).ok().unwrap();
    assert_eq!(pairs(&store), owned(&[("foo", "/usr/bin/foo.sh"), ("bar", "/opt/bar")]));
}

#[test]
fn load_rejects_text_that_is_not_json() {
    assert!(matches!(load_store("{not json"), Err(DBError::JsonError(_))));
}

#[test]
fn load_rejects_wrong_shape() {
    assert!(matches!(load_store("[1, 2]"), Err(DBError::Malformed)));
    assert!(matches!(load_store(r#"{"db_version":1}"#), Err(DBError::Malformed)));
    assert!(matches!(load_store(r#"{"cmds":[]}"#), Err(DBError::Malformed)));
    assert!(matches!(load_store(r#"{"cmds":{"a":"/x","b":3}}"#), Err(DBError::Malformed)));
}

#[test]
fn listing_is_stable_after_load() {
    let text = r#"{"db_version":1,"cmds":{"a":"/x","b":"/y"}}"#;
    let store = load_store(text).ok().unwrap();
    let first = store.list();
    let second = store.list();
    assert_eq!(first, second);
    assert_eq!(first, owned(&[("a", "/x"), ("b", "/y")]));
}

#[test]
fn save_then_load_gives_same_table() {
    let text = r#"{"db_version":1,"cmds":{"a":"/x","b":"/y \"q\""}}"#;
    let store = load_store(text).ok().unwrap();
    let saved = save_text(&store);
    assert_eq!(saved, r#"{"db_version":1,"cmds":{"a":"/x","b":"/y \"q\""}}"#);
    let again = load_store(&saved).ok().unwrap();
    assert_eq!(pairs(&again), pairs(&store));
}

#[test]
fn store_json_has_version_and_cmds() {
    let mut store = AliasStore::new();
    store.upsert("k".to_string(), "/p".to_string());
    let v = store_to_json(&store);
    assert_eq!(v["db_version"].as_u64(), Some(1));
    assert_eq!(v["cmds"]["k"].as_str(), Some("/p"));
}

#[test]
fn upsert_overwrites_in_place() {
    let mut store = AliasStore::new();
    store.upsert("z".to_string(), "/z".to_string());
    store.upsert("a".to_string(), "/x".to_string());
    store.upsert("a".to_string(), "/y".to_string());
    assert_eq!(pairs(&store), owned(&[("z", "/z"), ("a", "/y")]));
    assert_eq!(store.get("a"), Some("/y".to_string()));
}

#[test]
fn remove_deletes_only_that_key() {
    let mut store = AliasStore::new();
    store.upsert("a".to_string(), "/x".to_string());
    store.upsert("b".to_string(), "/y".to_string());
    store.remove("a");
    assert_eq!(pairs(&store), owned(&[("b", "/y")]));
    store.remove("missing");
    assert_eq!(pairs(&store), owned(&[("b", "/y")]));
}

#[test]
fn resolve_miss_reports_alias_not_found() {
    let store = AliasStore::new();
    match resolve_command(&store, "nope", &vec!["x".to_string()]) {
        Err(ResolveError::AliasNotFound(k)) => assert_eq!(k, "nope"),
        Ok(_) => panic!("an absent alias resolved"),
    }
}

#[test]
fn resolve_builds_command_line() {
    let mut store = AliasStore::new();
    store.upsert("foo".to_string(), "/usr/bin/foo.sh".to_string());
    let args = vec!["-v".to_string(), "a b".to_string()];
    match resolve_command(&store, "foo", &args) {
        Ok(line) => assert_eq!(line, "/usr/bin/foo.sh -v a b"),
        Err(_) => panic!("a present alias did not resolve"),
    }
    match resolve_command(&store, "foo", &Vec::new()) {
        Ok(line) => assert_eq!(line, "/usr/bin/foo.sh "),
        Err(_) => panic!("a present alias did not resolve"),
    }
}

#[test]
fn command_line_joins_with_single_spaces() {
    let args = vec!["1".to_string(), "2".to_string(), "3".to_string()];
    assert_eq!(build_command_line("run", &args), "run 1 2 3");
}

#[test]
fn key_derivation_drops_last_extension() {
    assert_eq!(key_from_path("/usr/bin/foo.sh"), Some("foo".to_string()));
    assert_eq!(key_from_path("/usr/bin/foo"), Some("foo".to_string()));
    assert_eq!(key_from_path("/"), None);
    assert_eq!(key_from_file_name("a.tar.gz"), "a.tar");
    assert_eq!(key_from_file_name(".bashrc"), "");
    assert_eq!(key_from_file_name("plain"), "plain");
}

#[test]
fn add_alias_uses_derived_key() {
    let mut store = AliasStore::new();
    assert_eq!(add_alias(&mut store, "/usr/bin/foo.sh"), Some("foo".to_string()));
    assert_eq!(add_alias(&mut store, "/opt/foo"), Some("foo".to_string()));
    assert_eq!(pairs(&store), owned(&[("foo", "/opt/foo")]));
    assert_eq!(add_alias(&mut store, "/"), None);
    assert_eq!(store.len(), 1);
}

#[test]
fn listing_text() {
    let mut store = AliasStore::new();
    assert_eq!(listing(&store), "No proxies registered");
    store.upsert("a".to_string(), "/x".to_string());
    store.upsert("b".to_string(), "/y".to_string());
    assert_eq!(listing(&store), "a: /x\nb: /y\n");
}

#[test]
fn shell_choice_per_platform() {
    assert_eq!(shell_for(true), ("cmd".to_string(), "/C".to_string()));
    assert_eq!(shell_for(false), ("sh".to_string(), "-c".to_string()));
}

#[test]
fn relay_shows_output_before_echo_and_delivers_early_input() {
    let mut relay = Relay::new();
    // The user types before the child has finished writing "ab".
    let mut shown: Vec<u8> = Vec::new();
    let mut sent: Vec<String> = Vec::new();
    let events = vec![
        RelayEvent::ChildByte(b'a'),
        RelayEvent::InputLine("hi\n".to_string()),
        RelayEvent::ChildByte(b'b'),
        RelayEvent::ChildByte(b'h'),
        RelayEvent::ChildByte(b'i'),
        RelayEvent::ChildByte(b'\n'),
    ];
    for e in events {
        match relay.step(e) {
            RelayAction::Show(b) => shown.push(b),
            RelayAction::Send(l) => sent.push(l),
            _ => panic!("unexpected action while relaying"),
        }
    }
    assert_eq!(shown, b"abhi\n".to_vec());
    assert_eq!(sent, vec!["hi\n".to_string()]);
    assert_eq!(relay.phase, RelayPhase::Relaying);
}

#[test]
fn relay_ignores_end_of_input() {
    let mut relay = Relay::new();
    assert!(matches!(relay.step(RelayEvent::InputLine(String::new())), RelayAction::Idle));
    assert!(matches!(relay.step(RelayEvent::ChildByte(b'x')), RelayAction::Show(b'x')));
}

#[test]
fn relay_reports_exit_status_once() {
    let mut relay = Relay::new();
    assert!(matches!(relay.step(RelayEvent::ChildByte(b'a')), RelayAction::Show(b'a')));
    assert!(matches!(relay.step(RelayEvent::ChildClosed), RelayAction::AwaitExit));
    assert!(matches!(relay.step(RelayEvent::InputLine("late\n".to_string())), RelayAction::Idle));
    assert!(matches!(relay.step(RelayEvent::ChildExited(3)), RelayAction::Finish(3)));
    assert!(relay.is_done());
    assert!(matches!(relay.step(RelayEvent::ChildExited(3)), RelayAction::Idle));
    assert!(matches!(relay.step(RelayEvent::ChildByte(b'z')), RelayAction::Idle));
}
