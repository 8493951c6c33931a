use git_sweep::parse::{
    contains_str, exclude_skips, list_local_merged, list_remote_candidates, merged_verdict,
    parse_skips, split_on, strip_remote_prefix, trim_str,
};
use git_sweep::text::str_eq;

fn strings(xs: &[&str]) -> Vec<String> {
    xs.iter().map(|s| s.to_string()).collect()
}

#[test]
fn parse_skips_trims_and_drops_empty() {
    assert_eq!(parse_skips(" a, ,b ,"), strings(&["a", "b"]));
}

#[test]
fn parse_skips_empty_input() {
    assert_eq!(parse_skips(""), strings(&[]));
    assert_eq!(parse_skips(" , ,,"), strings(&[]));
}

#[test]
fn parse_skips_single_and_duplicates() {
    assert_eq!(parse_skips("feature-x"), strings(&["feature-x"]));
    assert_eq!(parse_skips("a,a, a"), strings(&["a", "a", "a"]));
    assert_eq!(parse_skips("\tone ,\ntwo"), strings(&["one", "two"]));
}

#[test]
fn split_on_keeps_segments_verbatim() {
    assert_eq!(split_on("a,b,,c", ','), strings(&["a", "b", "", "c"]));
    assert_eq!(split_on("", ','), strings(&[""]));
    assert_eq!(split_on(",", ','), strings(&["", ""]));
}

#[test]
fn trim_str_both_ends() {
    assert_eq!(trim_str("  x y\t\r\n"), "x y");
    assert_eq!(trim_str("   "), "");
    assert_eq!(trim_str("plain"), "plain");
}

#[test]
fn str_eq_exact() {
    assert!(str_eq("abc", "abc"));
    assert!(!str_eq("abc", "abd"));
    assert!(!str_eq("abc", "abcd"));
    assert!(str_eq("", ""));
}

#[test]
fn contains_str_exact_membership() {
    let v = strings(&["a", "bb"]);
    assert!(contains_str(&v, "a"));
    assert!(contains_str(&v, "bb"));
    assert!(!contains_str(&v, "b"));
}

#[test]
fn exclusion_filter_removes_baseline_and_skips() {
    let names = strings(&["a", "master", "b", "skipme", "a"]);
    let skips = strings(&["skipme"]);
    let once = exclude_skips(&names, "master", &skips);
    assert_eq!(once, strings(&["a", "b", "a"]));
}

#[test]
fn exclusion_filter_idempotent_and_order_preserving() {
    let names = strings(&["z", "y", "master", "x", "y"]);
    let skips = strings(&["y", "nothere"]);
    let once = exclude_skips(&names, "master", &skips);
    let twice = exclude_skips(&once, "master", &skips);
    assert_eq!(once, strings(&["z", "x"]));
    assert_eq!(twice, once);
}

#[test]
fn remote_candidates_strip_prefix_and_reserved() {
    let out = "origin/feature-a\norigin/master\norigin/HEAD\nother/x\n  origin/feature-b \n\n";
    let cands = list_remote_candidates(out, "origin", "master");
    assert_eq!(cands, strings(&["feature-a", "feature-b"]));
}

#[test]
fn remote_candidates_empty_output() {
    assert_eq!(list_remote_candidates("", "origin", "master"), strings(&[]));
}

#[test]
fn strip_remote_prefix_exact_match_only() {
    assert_eq!(strip_remote_prefix("origin/dev", "origin"), Some("dev".to_string()));
    assert_eq!(strip_remote_prefix("origin2/dev", "origin"), None);
    assert_eq!(strip_remote_prefix("origin", "origin"), None);
    assert_eq!(strip_remote_prefix("origin/", "origin"), Some("".to_string()));
}

#[test]
fn local_merged_strips_marker_and_baseline() {
    let out = "  old-1\n* develop\n  old-2\n";
    let merged = list_local_merged(out, "develop");
    assert_eq!(merged, strings(&["old-1", "old-2"]));
}

#[test]
fn local_merged_marker_on_baseline_line() {
    assert_eq!(list_local_merged("* master\n", "master"), strings(&[]));
    assert_eq!(list_local_merged("* keepme\n", "master"), strings(&["keepme"]));
}

#[test]
fn merge_classifier_verdicts() {
    // empty comparison output from a successful run: merged
    assert!(merged_verdict(true, ""));
    // commits not yet applied to the baseline: not merged
    assert!(!merged_verdict(true, "+ 1a2b3c some commit\n"));
    // a failed comparison excludes the candidate instead of aborting
    assert!(!merged_verdict(false, ""));
    assert!(!merged_verdict(false, "anything"));
}
