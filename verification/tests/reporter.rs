use model_audit::logs::{ModelUsage, UsageTable};
use model_audit::manifest::ModelIndex;
use model_audit::report::{
    build_report, format_size, partition_usages, sort_unlogged, sort_usages, split_names,
    unlogged_rows, usage_is_deleted,
};

fn usage(name: &str, last_used: i64, usage_count: u64, size: u64) -> ModelUsage {
    ModelUsage { name: name.as_bytes().to_vec(), last_used, usage_count, size }
}

fn s(bytes: &[u8]) -> String {
    String::from_utf8(bytes.to_vec()).unwrap()
}

#[test]
fn size_formats_gib_boundary_as_gb() {
    assert_eq!(s(&format_size(1073741824)), "1.0 GB");
}

#[test]
fn size_below_gib_boundary_formats_in_mb() {
    assert_eq!(s(&format_size(1073741823)), "1024.0 MB");
}

#[test]
fn size_formats_exact_values() {
    assert_eq!(s(&format_size(0)), "0.0 MB");
    assert_eq!(s(&format_size(524288)), "0.5 MB");
    assert_eq!(s(&format_size(1048576)), "1.0 MB");
    assert_eq!(s(&format_size(4831838208)), "4.5 GB");
}

#[test]
fn size_rounds_ties_to_even() {
    assert_eq!(s(&format_size(262144)), "0.2 MB");
}

#[test]
fn deleted_suffix_partitions_usages() {
    let mut table = UsageTable::new();
    table.entries.push(usage("llama3:8b", 10, 1, 100));
    table.entries.push(usage("deadbeef...-deleted", 20, 2, 0));
    let (active, deleted) = partition_usages(&table);
    assert_eq!(active.len(), 1);
    assert_eq!(deleted.len(), 1);
    assert_eq!(s(&active[0].name), "llama3:8b");
    assert_eq!(s(&deleted[0].name), "deadbeef...-deleted");
    assert!(!usage_is_deleted(&active[0]));
    assert!(usage_is_deleted(&deleted[0]));
}

#[test]
fn sort_orders_by_last_used_descending() {
    let v = vec![usage("a:1", 10, 1, 0), usage("b:1", 30, 1, 0), usage("c:1", 20, 1, 0)];
    let r = sort_usages(&v);
    let names: Vec<String> = r.iter().map(|u| s(&u.name)).collect();
    assert_eq!(names, vec!["b:1", "c:1", "a:1"]);
}

#[test]
fn sort_ties_break_by_usage_count_descending() {
    let v = vec![usage("low:1", 10, 2, 0), usage("high:1", 10, 5, 0)];
    let r = sort_usages(&v);
    let names: Vec<String> = r.iter().map(|u| s(&u.name)).collect();
    assert_eq!(names, vec!["high:1", "low:1"]);
}

#[test]
fn split_names_on_comma_space() {
    let parts = split_names(b"llama3:8b, llama3:latest");
    let parts: Vec<String> = parts.iter().map(|p| s(p)).collect();
    assert_eq!(parts, vec!["llama3:8b", "llama3:latest"]);
    let single = split_names(b"mistral:7b");
    assert_eq!(single.len(), 1);
}

#[test]
fn unlogged_matches_sub_names_of_joined_entries() {
    let mut idx = ModelIndex::new();
    idx.insert(b"abc".to_vec(), b"llama3:8b".to_vec(), 100);
    idx.insert(b"abc".to_vec(), b"llama3:latest".to_vec(), 100);
    let mut table = UsageTable::new();
    table.entries.push(usage("llama3:8b", 10, 1, 100));
    let rows = unlogged_rows(&idx, &table);
    assert_eq!(rows.len(), 1);
    assert_eq!(s(&rows[0].name), "llama3:latest");
    assert_eq!(rows[0].size, 100);
}

#[test]
fn unlogged_matches_sub_names_of_joined_usage() {
    let mut idx = ModelIndex::new();
    idx.insert(b"abc".to_vec(), b"llama3:8b".to_vec(), 100);
    let mut table = UsageTable::new();
    table.entries.push(usage("llama3:8b, llama3:latest", 10, 1, 100));
    let rows = unlogged_rows(&idx, &table);
    assert!(rows.is_empty());
}

#[test]
fn unlogged_sorts_by_name_ascending() {
    let mut idx = ModelIndex::new();
    idx.insert(b"h1".to_vec(), b"zeta:1".to_vec(), 1);
    idx.insert(b"h2".to_vec(), b"alpha:1".to_vec(), 2);
    let table = UsageTable::new();
    let rows = sort_unlogged(&unlogged_rows(&idx, &table));
    let names: Vec<String> = rows.iter().map(|r| s(&r.name)).collect();
    assert_eq!(names, vec!["alpha:1", "zeta:1"]);
}

#[test]
fn empty_deleted_table_is_suppressed() {
    let mut idx = ModelIndex::new();
    idx.insert(b"abc".to_vec(), b"llama3:8b".to_vec(), 2147483648);
    let mut table = UsageTable::new();
    table.entries.push(usage("llama3:8b", 10, 3, 2147483648));
    let report = s(&build_report(&idx, &table));
    assert!(report.contains("Active Models:"));
    assert!(!report.contains("Deleted Models:"));
    assert!(!report.contains("Unlogged Models:"));
}

#[test]
fn empty_active_table_is_suppressed() {
    let idx = ModelIndex::new();
    let mut table = UsageTable::new();
    table.entries.push(usage("deadbeef...-deleted", 10, 1, 0));
    let report = s(&build_report(&idx, &table));
    assert!(!report.contains("Active Models:"));
    assert!(report.contains("Deleted Models:"));
}

#[test]
fn fully_empty_report_is_one_blank_line() {
    let idx = ModelIndex::new();
    let table = UsageTable::new();
    let report = build_report(&idx, &table);
    assert_eq!(report, b"\n".to_vec());
}

#[test]
fn report_layout_has_headers_and_columns() {
    let mut idx = ModelIndex::new();
    idx.insert(b"abc".to_vec(), b"llama3:8b".to_vec(), 2147483648);
    idx.insert(b"def".to_vec(), b"mistral:7b".to_vec(), 1048576);
    let mut table = UsageTable::new();
    table.entries.push(usage("llama3:8b", 10, 3, 2147483648));
    table.entries.push(usage("deadbeef...-deleted", 20, 1, 0));
    let report = s(&build_report(&idx, &table));
    let active_pos = report.find("Active Models:").unwrap();
    let unlogged_pos = report.find("Unlogged Models:").unwrap();
    let deleted_pos = report.find("Deleted Models:").unwrap();
    assert!(active_pos < unlogged_pos && unlogged_pos < deleted_pos);
    assert!(report.contains("Model"));
    assert!(report.contains("Last Used"));
    assert!(report.contains("Usage Count"));
    assert!(report.contains("Size"));
    assert!(report.contains("2.0 GB"));
    assert!(report.contains("mistral:7b"));
    assert!(report.contains("1.0 MB"));
    assert!(report.ends_with("\n"));
}
