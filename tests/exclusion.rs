use cosmic_ctl::config::parse_configuration_path;
use cosmic_ctl::exclude::{expand_pattern, normalize_pattern, split_string_respect_braces, ExclusionMatcher, GlobPattern};
use cosmic_ctl::reset::{confirmed, select_for_reset};

fn strings(v: &[&str]) -> Vec<String> {
    v.iter().map(|s| s.to_string()).collect()
}

#[test]
fn split_absent_list_is_empty() {
    assert_eq!(split_string_respect_braces(None), Vec::<String>::new());
}

#[test]
fn split_keeps_commas_inside_braces() {
    let r = split_string_respect_braces(Some("A/{v1/{x,y},v2/x}, B ,C/v2".to_string()));
    assert_eq!(r, strings(&["A/{v1/{x,y},v2/x}", "B", "C/v2"]));
}

#[test]
fn split_drops_empty_pieces_and_trims() {
    let r = split_string_respect_braces(Some(",,a, ,b,".to_string()));
    assert_eq!(r, strings(&["a", "", "b"]));
}

#[test]
fn split_with_unbalanced_closing_brace() {
    let r = split_string_respect_braces(Some("a},b,c".to_string()));
    assert_eq!(r, strings(&["a},b,c"]));
}

#[test]
fn brace_pattern_expands_to_three_literals() {
    let r = expand_pattern("A/{v1/{x,y},v2/x}");
    assert_eq!(r, strings(&["A/v1/x", "A/v1/y", "A/v2/x"]));
}

#[test]
fn malformed_braces_stay_literal() {
    let r = expand_pattern("A/{v1");
    assert_eq!(r, strings(&["A/{v1"]));
}

#[test]
fn normalisation_by_slash_count() {
    assert_eq!(normalize_pattern("A"), "A/**");
    assert_eq!(normalize_pattern("A/v1"), "A/v1/*");
    assert_eq!(normalize_pattern("A/v1/x"), "A/v1/x");
    assert_eq!(normalize_pattern("A/v1/x/y"), "A/v1/x/y");
}

#[test]
fn bare_component_excludes_every_version() {
    let m = ExclusionMatcher::new(Some("A".to_string()));
    assert!(m.is_excluded("A/v1/x"));
    assert!(m.is_excluded("A/v2/y"));
    assert!(!m.is_excluded("B/v1/x"));
    assert!(!m.is_excluded("AB/v1/x"));
}

#[test]
fn component_and_version_excludes_direct_entries_only() {
    let m = ExclusionMatcher::new(Some("A/v1".to_string()));
    assert!(m.is_excluded("A/v1/x"));
    assert!(m.is_excluded("A/v1/y"));
    assert!(!m.is_excluded("A/v2/x"));
}

#[test]
fn wildcard_in_entry_segment() {
    let m = ExclusionMatcher::new(Some("A/v1/auto*".to_string()));
    assert!(m.is_excluded("A/v1/autotile"));
    assert!(m.is_excluded("A/v1/autotile_behavior"));
    assert!(!m.is_excluded("A/v1/gaps"));
}

#[test]
fn brace_expansion_with_wildcards() {
    let m = ExclusionMatcher::new(Some("A/{v1/auto*,v2/gap*}".to_string()));
    assert!(m.is_excluded("A/v1/autotile"));
    assert!(m.is_excluded("A/v2/gaps"));
    assert!(!m.is_excluded("A/v1/gaps"));
    assert!(!m.is_excluded("A/v2/autotile"));
}

#[test]
fn invalid_glob_is_dropped_with_a_diagnostic() {
    let m = ExclusionMatcher::new(Some("A/v1/[x,B".to_string()));
    assert_eq!(m.diagnostics().len(), 1);
    assert!(m.diagnostics()[0].starts_with("Invalid exclude pattern 'A/v1/[x'"));
    assert!(!m.is_excluded("A/v1/[x"));
    assert!(m.is_excluded("B/v7/z"));
}

#[test]
fn glob_pattern_reports_compile_errors() {
    assert!(GlobPattern::new("a/[".to_string()).is_err());
    let g = GlobPattern::new("a/*".to_string()).ok().unwrap();
    assert!(g.matches("a/b"));
    assert!(!g.matches("b/a"));
}

#[test]
fn reset_keeps_exactly_the_excluded_entry() {
    let paths = strings(&[
        "/home/u/.config/cosmic/A/v1/x",
        "/home/u/.config/cosmic/A/v1/y",
        "/home/u/.config/cosmic/A/v2/x",
        "/home/u/.config/cosmic/stray",
    ]);
    let m = ExclusionMatcher::new(Some("A/v1/x".to_string()));
    let r = select_for_reset(&paths, &m);
    assert_eq!(
        r,
        vec![
            ("A".to_string(), 1, "y".to_string()),
            ("A".to_string(), 2, "x".to_string()),
        ]
    );
}

#[test]
fn reset_without_exclusions_selects_every_entry() {
    let paths = strings(&["/c/cosmic/A/v1/x", "/c/cosmic/B/v3/z"]);
    let m = ExclusionMatcher::new(None);
    let r = select_for_reset(&paths, &m);
    assert_eq!(r.len(), 2);
    assert_eq!(parse_configuration_path(&paths[1]), Some(("B".to_string(), 3, "z".to_string())));
}

#[test]
fn confirmation_answers() {
    assert!(confirmed("y"));
    assert!(confirmed("  Y\n"));
    assert!(!confirmed("yes"));
    assert!(!confirmed("n"));
    assert!(!confirmed(""));
}

#[test]
fn non_ascii_patterns_stay_literal() {
    assert_eq!(expand_pattern("\u{e9}{a,b}"), strings(&["\u{e9}{a,b}"]));
    assert_eq!(expand_pattern("caf\u{e9}/v1"), strings(&["caf\u{e9}/v1"]));
    let m = ExclusionMatcher::new(Some("caf\u{e9}/v1".to_string()));
    assert!(m.diagnostics().is_empty());
    assert!(m.is_excluded("caf\u{e9}/v1/x"));
    assert!(!m.is_excluded("caf\u{e9}/v2/x"));
    assert!(!m.is_excluded("cafe/v1/x"));
}

#[test]
fn split_examples_with_spaces_and_nesting() {
    let r = split_string_respect_braces(Some("a, {b,c} ,,d".to_string()));
    assert_eq!(r, strings(&["a", "{b,c}", "d"]));
    let r = split_string_respect_braces(Some("A/{v1/{x,y},v2/x}".to_string()));
    assert_eq!(r, strings(&["A/{v1/{x,y},v2/x}"]));
}

#[test]
fn diagnostic_quotes_the_normalised_pattern() {
    let m = ExclusionMatcher::new(Some("[x".to_string()));
    assert_eq!(m.diagnostics().len(), 1);
    assert!(m.diagnostics()[0].starts_with("Invalid exclude pattern '[x/**'"));
}

#[test]
fn malformed_or_escaped_braces_stay_literal() {
    for p in ["A/{v1}{", "{}{", "{a,}{", "{}{\\},", "A/{v1,v2", "A/v1}", "{0..3}", "A/\\{x,y}"] {
        assert_eq!(expand_pattern(p), strings(&[p]));
    }
    let m = ExclusionMatcher::new(Some("A/{v1}{".to_string()));
    assert!(!m.is_excluded("A/v1/x"));
}

#[test]
fn plain_patterns_are_not_expanded() {
    assert_eq!(expand_pattern("A"), strings(&["A"]));
    assert_eq!(expand_pattern("A/v1"), strings(&["A/v1"]));
    assert_eq!(expand_pattern("{a,b}/v1"), strings(&["a/v1", "b/v1"]));
}
