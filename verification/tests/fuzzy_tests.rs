use manifest::fuzzy::{fuzzy, lenient, match_str, Fuzz, FuzzyError, MatchType, DEFAULT_MATCH_TYPES};
use manifest::table::Table;

fn strings(items: &[&str]) -> Vec<String> {
    items.iter().map(|s| s.to_string()).collect()
}

fn numbered(keys: &[&str]) -> Table<String> {
    let mut table = Table::new();
    for (i, key) in keys.iter().enumerate() {
        table.insert(key.to_string(), format!("value {}", i));
    }
    table
}

fn keys_of(table: &Table<String>) -> Vec<String> {
    table.as_slice().iter().map(|e| e.0.clone()).collect()
}

#[test]
fn exact_match_wins_over_looser_matches() {
    let items = strings(&["git", "git-core", "github-cli"]);
    let kept = fuzzy(items).include_only(&strings(&["git"]));
    assert_eq!(kept, strings(&["git"]));
}

#[test]
fn prefix_match_wins_over_substring_match() {
    let items = strings(&["apple", "snapple"]);
    let kept = fuzzy(items).include_only(&strings(&["app"]));
    assert_eq!(kept, strings(&["apple"]));
}

#[test]
fn prefix_is_tried_when_nothing_matches_exactly() {
    let items = strings(&["apple", "banana"]);
    let kept = fuzzy(items).include_only(&strings(&["app"]));
    assert_eq!(kept, strings(&["apple"]));
}

#[test]
fn substring_is_tried_last() {
    let items = strings(&["snapple", "banana"]);
    let kept = fuzzy(items).include_only(&strings(&["app"]));
    assert_eq!(kept, strings(&["snapple"]));
}

#[test]
fn case_is_ignored_before_prefixes_are_tried() {
    let items = strings(&["Git", "git-core"]);
    let kept = fuzzy(items).include_only(&strings(&["git"]));
    assert_eq!(kept, strings(&["Git"]));
}

#[test]
fn the_cascade_is_for_the_whole_collection() {
    // `vim` matches exactly, so `htop-extra` is not looked for by prefix.
    let items = strings(&["vim", "htop-extra"]);
    let kept = fuzzy(items).include_only(&strings(&["vim", "htop"]));
    assert_eq!(kept, strings(&["vim"]));
}

#[test]
fn patterns_are_alternatives() {
    let items = strings(&["jq", "vim", "htop"]);
    let kept = fuzzy(items).include_only(&strings(&["htop", "jq"]));
    assert_eq!(kept, strings(&["jq", "htop"]));
}

#[test]
fn nothing_is_kept_where_no_strategy_matches() {
    let items = strings(&["jq", "vim"]);
    let kept = fuzzy(items).include_only(&strings(&["emacs"]));
    assert!(kept.is_empty());
}

#[test]
fn wildcard_keeps_everything() {
    let items = strings(&["b", "a", "c"]);
    assert_eq!(fuzzy(items.clone()).include_only(&strings(&["*"])), items);
    assert_eq!(fuzzy(items.clone()).include_only(&strings(&["zzz", "*"])), items);
}

#[test]
fn wildcard_excludes_everything() {
    let items = strings(&["b", "a", "c"]);
    assert!(fuzzy(items.clone()).exclude(&strings(&["*"])).is_empty());
    assert!(fuzzy(items).exclude(&strings(&["a", "*"])).is_empty());
}

#[test]
fn no_patterns_keep_everything() {
    let items = strings(&["b", "a", "c"]);
    assert_eq!(fuzzy(items.clone()).include_only(&[]), items);
}

#[test]
fn no_patterns_exclude_everything() {
    let items = strings(&["b", "a", "c"]);
    assert!(fuzzy(items).exclude(&[]).is_empty());
}

#[test]
fn a_star_inside_a_pattern_is_no_wildcard() {
    let items = strings(&["git", "g*t"]);
    assert_eq!(fuzzy(items).include_only(&strings(&["g*t"])), strings(&["g*t"]));
}

#[test]
fn exclude_leaves_what_does_not_match() {
    let items = strings(&["git", "git-core", "github-cli"]);
    let left = fuzzy(items).exclude(&strings(&["git"]));
    assert_eq!(left, strings(&["git-core", "github-cli"]));
}

#[test]
fn exclude_falls_back_when_everything_matches() {
    // Both items match `git` exactly or by prefix; only under `Exact` is
    // anything left.
    let items = strings(&["git", "git"]);
    assert!(fuzzy(items).exclude(&strings(&["git"])).is_empty());
    let items = strings(&["git", "Git"]);
    assert_eq!(fuzzy(items).exclude(&strings(&["git"])), strings(&["Git"]));
}

#[test]
fn the_two_calls_can_settle_on_different_strategies() {
    // Selecting finds nothing exact and goes on to ignore case; excluding
    // is content with the exact pass. The item is in both results.
    let items = strings(&["Git"]);
    let patterns = strings(&["git"]);
    assert_eq!(fuzzy(items.clone()).include_only(&patterns), items);
    assert_eq!(fuzzy(items.clone()).exclude(&patterns), items);
}

#[test]
fn the_two_results_part_the_items_where_one_strategy_decides() {
    let items = strings(&["jq", "vim", "htop", "git"]);
    let patterns = strings(&["vim", "git"]);
    let kept = fuzzy(items.clone()).include_only(&patterns);
    let left = fuzzy(items.clone()).exclude(&patterns);
    assert_eq!(kept, strings(&["vim", "git"]));
    assert_eq!(left, strings(&["jq", "htop"]));
    for item in &items {
        assert_ne!(kept.contains(item), left.contains(item));
    }
}

#[test]
fn defuzz_gives_the_collection_back() {
    let items = strings(&["b", "a"]);
    assert_eq!(fuzzy(items.clone()).defuzz(), items);
    let table = numbered(&["b", "a"]);
    assert_eq!(fuzzy(table.clone()).defuzz(), table);
}

#[test]
fn maps_are_filtered_by_key() {
    let table = numbered(&["scottidler/aka", "scottidler/nvim", "other/aka"]);
    let kept = fuzzy(table.clone()).include_only(&strings(&["scottidler"]));
    assert_eq!(keys_of(&kept), strings(&["scottidler/aka", "scottidler/nvim"]));
    assert_eq!(kept.get("scottidler/aka"), table.get("scottidler/aka"));
    assert_eq!(kept.get("scottidler/nvim"), table.get("scottidler/nvim"));
}

#[test]
fn map_values_play_no_part() {
    let mut table = Table::new();
    table.insert("foo".to_string(), "bar".to_string());
    table.insert("baz".to_string(), "foo".to_string());
    let kept = fuzzy(table).include_only(&strings(&["foo"]));
    assert_eq!(keys_of(&kept), strings(&["foo"]));
}

#[test]
fn maps_exclude_by_key() {
    let table = numbered(&["foo", "bar", "baz"]);
    let left = fuzzy(table).exclude(&strings(&["bar"]));
    assert_eq!(keys_of(&left), strings(&["baz", "foo"]));
}

#[test]
fn exclude_is_decided_by_the_first_strategy_that_leaves_anything() {
    // No item is `ba` exactly, so the exact pass leaves all of them and
    // decides: the looser strategies, under which `bar` and `baz` would
    // go, are not tried.
    let items = strings(&["foo", "bar", "baz"]);
    assert_eq!(fuzzy(items.clone()).exclude(&strings(&["ba"])), items);
}

#[test]
fn maps_and_the_wildcard() {
    let table = numbered(&["foo", "bar"]);
    assert_eq!(fuzzy(table.clone()).include_only(&strings(&["*"])), table);
    assert!(fuzzy(table.clone()).exclude(&strings(&["*"])).is_empty());
    assert_eq!(fuzzy(table.clone()).include_only(&[]), table);
    assert!(fuzzy(table).exclude(&[]).is_empty());
}

#[test]
fn exact_strategy() {
    assert!(match_str("git", "git", MatchType::Exact));
    assert!(!match_str("git", "Git", MatchType::Exact));
    assert!(!match_str("git", "gi", MatchType::Exact));
    assert!(match_str("", "", MatchType::Exact));
}

#[test]
fn ignore_case_strategy_folds_ascii_only() {
    assert!(match_str("GitHub", "github", MatchType::IgnoreCase));
    assert!(match_str("a-Z_0", "A-z_0", MatchType::IgnoreCase));
    assert!(!match_str("git", "gi", MatchType::IgnoreCase));
    assert!(!match_str("\u{c9}", "\u{e9}", MatchType::IgnoreCase));
    assert!(!match_str("@", "`", MatchType::IgnoreCase));
    assert!(!match_str("[", "{", MatchType::IgnoreCase));
}

#[test]
fn prefix_strategy() {
    assert!(match_str("git-core", "git", MatchType::Prefix));
    assert!(match_str("git", "", MatchType::Prefix));
    assert!(!match_str("legit", "git", MatchType::Prefix));
    assert!(!match_str("gi", "git", MatchType::Prefix));
}

#[test]
fn suffix_strategy() {
    assert!(match_str("legit", "git", MatchType::Suffix));
    assert!(match_str("git", "", MatchType::Suffix));
    assert!(!match_str("git-core", "git", MatchType::Suffix));
    assert!(!match_str("it", "git", MatchType::Suffix));
}

#[test]
fn contains_strategy() {
    assert!(match_str("legit-core", "git", MatchType::Contains));
    assert!(match_str("git", "git", MatchType::Contains));
    assert!(match_str("git", "", MatchType::Contains));
    assert!(match_str("", "", MatchType::Contains));
    assert!(!match_str("gi-t", "git", MatchType::Contains));
    assert!(!match_str("", "g", MatchType::Contains));
}

#[test]
fn plain_strategies_agree_with_the_standard_library() {
    let texts = ["", "a", "A", "ab", "aB", "ba", "aba", "abab", "\u{e9}a", "a\u{e9}", "\u{1f600}"];
    for item in texts {
        for pattern in texts {
            assert_eq!(match_str(item, pattern, MatchType::Exact), item == pattern);
            assert_eq!(
                match_str(item, pattern, MatchType::IgnoreCase),
                item.eq_ignore_ascii_case(pattern)
            );
            assert_eq!(match_str(item, pattern, MatchType::Prefix), item.starts_with(pattern));
            assert_eq!(match_str(item, pattern, MatchType::Suffix), item.ends_with(pattern));
            assert_eq!(match_str(item, pattern, MatchType::Contains), item.contains(pattern));
        }
    }
}

#[test]
fn glob_strategy() {
    assert!(match_str("git", "g*t", MatchType::Glob));
    assert!(match_str("cat", "c?t", MatchType::Glob));
    assert!(match_str("kitteh", "k[!e]tteh", MatchType::Glob));
    assert!(!match_str("git-core", "g?t", MatchType::Glob));
    assert!(!match_str("legit", "git", MatchType::Glob));
}

#[test]
fn glob_pattern_that_does_not_compile_matches_nothing() {
    assert!(!match_str("abc[def", "abc[def", MatchType::Glob));
    assert!(!match_str("a", "a**b", MatchType::Glob));
    assert!(!match_str("", "***", MatchType::Glob));
}

#[test]
fn regex_strategy_searches_anywhere() {
    assert!(match_str("legit-core", "git", MatchType::Regex));
    assert!(match_str("git", "^g.t$", MatchType::Regex));
    assert!(!match_str("legit", "^git", MatchType::Regex));
    assert!(match_str("python3.11", r"\d+\.\d+", MatchType::Regex));
}

#[test]
fn regex_that_does_not_compile_matches_nothing() {
    assert!(!match_str("foo(bar", "foo(bar", MatchType::Regex));
    assert!(!match_str("a", "[", MatchType::Regex));
}

#[test]
fn an_engine_failure_counts_as_no_match() {
    assert!(lenient::<String>(Ok(true)));
    assert!(!lenient::<String>(Ok(false)));
    assert!(!lenient(Err("no such pattern".to_string())));
}

#[test]
fn default_cascade_order() {
    assert_eq!(
        DEFAULT_MATCH_TYPES,
        [MatchType::Exact, MatchType::IgnoreCase, MatchType::Prefix, MatchType::Contains]
    );
}

#[test]
fn fuzzy_error_shows_its_message() {
    let error = FuzzyError("bad pattern".to_string());
    assert_eq!(error.to_string(), "FuzzyError: bad pattern");
    assert_eq!(error.0, "bad pattern");
}
