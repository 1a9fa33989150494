use group_adder::ledger::{encode_ledger, load_ledger, merge_and_save, merge_entries};

fn strings(v: &[&str]) -> Vec<String> {
    v.iter().map(|s| s.to_string()).collect()
}

#[test]
fn load_ledger_reads_json_list_once_each() {
    assert_eq!(load_ledger("[\"1\", \"2\", \"1\"]"), strings(&["1", "2"]));
}

#[test]
fn load_ledger_treats_malformed_or_missing_as_empty() {
    assert!(load_ledger("").is_empty());
    assert!(load_ledger("{not json").is_empty());
    assert!(load_ledger("[1, 2]").is_empty());
}

#[test]
fn encode_ledger_is_pretty_json() {
    assert_eq!(encode_ledger(&strings(&["1", "2"])), "[\n  \"1\",\n  \"2\"\n]");
    assert_eq!(encode_ledger(&vec![]), "[]");
}

#[test]
fn merge_entries_appends_new_once() {
    let merged = merge_entries(strings(&["a", "b"]), &strings(&["b", "c", "c", "a", "d"]));
    assert_eq!(merged, strings(&["a", "b", "c", "d"]));
}

#[test]
fn merge_and_save_is_idempotent() {
    let first = merge_and_save("[\"1\"]", &strings(&["2", "2"]));
    assert_eq!(first.entries, strings(&["1", "2"]));
    assert_eq!(first.total(), 2);
    let second = merge_and_save(&first.text, &strings(&["2", "2"]));
    assert_eq!(second.entries, strings(&["1", "2"]));
    assert_eq!(second.total(), 2);
    assert_eq!(second.text, first.text);
}

#[test]
fn merge_and_save_into_missing_file() {
    let saved = merge_and_save("", &strings(&["9", "8"]));
    assert_eq!(saved.entries, strings(&["9", "8"]));
    assert_eq!(saved.text, "[\n  \"9\",\n  \"8\"\n]");
    assert_eq!(saved.total(), 2);
}

#[test]
fn merge_and_save_with_no_new_entries_keeps_total() {
    let saved = merge_and_save("[\"1\", \"2\"]", &vec![]);
    assert_eq!(saved.entries, strings(&["1", "2"]));
    assert_eq!(saved.total(), 2);
}
