use chrono::TimeZone;
use model_audit::logs::UsageTable;
use model_audit::manifest::ModelIndex;

fn lines(ls: &[&str]) -> Vec<Vec<u8>> {
    ls.iter().map(|l| l.as_bytes().to_vec()).collect()
}

const HASH_A: &str = "deadbeefdeadbeefdeadbeefdeadbeefdeadbeefdeadbeefdeadbeefdeadbeef";
const HASH_B: &str = "abc123abc123abc123abc123abc123abc123abc123abc123abc123abc123abc1";

fn load_line(hash: &str) -> String {
    format!(
        "llama_model_loader: loaded meta data with 20 kv pairs from /models/blobs/sha256-{}",
        hash
    )
}

fn millis(ts: &str) -> i64 {
    chrono::DateTime::parse_from_rfc3339(ts).unwrap().timestamp_millis()
}

#[test]
fn deleted_fallback_name_and_count() {
    let idx = ModelIndex::new();
    let mut table = UsageTable::new();
    let ls = lines(&[&load_line(HASH_A), "noise", &load_line(HASH_A)]);
    table.correlate_file(&idx, &ls, 7_000);
    assert_eq!(table.entries.len(), 1);
    let u = &table.entries[0];
    assert_eq!(String::from_utf8(u.name.clone()).unwrap(), "deadbeef...-deleted");
    assert_eq!(u.size, 0);
    assert_eq!(u.usage_count, 2);
    assert_eq!(u.last_used, 7_000);
}

#[test]
fn timestamp_monotonic_aggregation() {
    let t1 = "2024-01-02T01:00:00Z";
    let t2 = "2024-01-02T02:00:00Z";
    let t3 = "2024-01-02T03:00:00Z";
    let idx = ModelIndex::new();
    let mut table = UsageTable::new();
    let ls = lines(&[
        &format!("time={}", t2),
        &load_line(HASH_A),
        &format!("time={}", t1),
        &load_line(HASH_A),
        &format!("time={}", t3),
        &load_line(HASH_A),
    ]);
    table.correlate_file(&idx, &ls, 0);
    assert_eq!(table.entries.len(), 1);
    assert_eq!(table.entries[0].usage_count, 3);
    assert_eq!(table.entries[0].last_used, millis(t3));
}

#[test]
fn resolved_name_and_size_come_from_index() {
    let mut idx = ModelIndex::new();
    idx.insert(HASH_B.as_bytes().to_vec(), b"llama3:8b".to_vec(), 4096);
    let mut table = UsageTable::new();
    let ls = lines(&[&load_line(HASH_B)]);
    table.correlate_file(&idx, &ls, 5);
    assert_eq!(table.entries.len(), 1);
    assert_eq!(String::from_utf8(table.entries[0].name.clone()).unwrap(), "llama3:8b");
    assert_eq!(table.entries[0].size, 4096);
    assert_eq!(table.entries[0].usage_count, 1);
}

#[test]
fn slash_date_line_moves_cursor() {
    let idx = ModelIndex::new();
    let mut table = UsageTable::new();
    let ls = lines(&["2024/06/15 10:20:30 some router message", &load_line(HASH_A)]);
    table.correlate_file(&idx, &ls, 0);
    let naive = chrono::NaiveDateTime::parse_from_str("2024/06/15 10:20:30", "%Y/%m/%d %H:%M:%S")
        .unwrap();
    let expected = chrono::Local
        .from_local_datetime(&naive)
        .earliest()
        .unwrap()
        .timestamp_millis();
    assert_eq!(table.entries[0].last_used, expected);
}

#[test]
fn time_line_with_trailing_text_does_not_move_cursor() {
    let idx = ModelIndex::new();
    let mut table = UsageTable::new();
    let ls = lines(&["time=2024-01-02T01:00:00Z level=INFO", &load_line(HASH_A)]);
    table.correlate_file(&idx, &ls, 42);
    assert_eq!(table.entries[0].last_used, 42);
}

#[test]
fn malformed_hash_token_is_ignored() {
    let idx = ModelIndex::new();
    let mut table = UsageTable::new();
    let ls = lines(&[
        "llama_model_loader: loaded meta data from sha256-tooshort",
        "llama_model_loader: loaded meta data from sha256-DEADBEEFDEADBEEFDEADBEEFDEADBEEFDEADBEEFDEADBEEFDEADBEEFDEADBEEF",
        "llama_model_loader: loaded meta data but no token at all",
    ]);
    table.correlate_file(&idx, &ls, 0);
    assert!(table.entries.is_empty());
}

#[test]
fn events_accumulate_across_files() {
    let idx = ModelIndex::new();
    let mut table = UsageTable::new();
    let first = lines(&[&format!("time={}", "2024-01-02T01:00:00Z"), &load_line(HASH_A)]);
    let second = lines(&[&format!("time={}", "2024-01-03T01:00:00Z"), &load_line(HASH_A)]);
    table.correlate_file(&idx, &first, 0);
    table.correlate_file(&idx, &second, 0);
    assert_eq!(table.entries.len(), 1);
    assert_eq!(table.entries[0].usage_count, 2);
    assert_eq!(table.entries[0].last_used, millis("2024-01-03T01:00:00Z"));
}

#[test]
fn earlier_timestamp_does_not_lower_last_used() {
    let idx = ModelIndex::new();
    let mut table = UsageTable::new();
    let ls = lines(&[
        &format!("time={}", "2024-01-05T00:00:00Z"),
        &load_line(HASH_A),
        &format!("time={}", "2024-01-01T00:00:00Z"),
        &load_line(HASH_A),
    ]);
    table.correlate_file(&idx, &ls, 0);
    assert_eq!(table.entries[0].last_used, millis("2024-01-05T00:00:00Z"));
    assert_eq!(table.entries[0].usage_count, 2);
}
