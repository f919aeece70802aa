use triagebot_assign::config::{AssignConfig, Team, Teams};
use triagebot_assign::github::{FileDiff, Issue, User};
use triagebot_assign::owners::{count_changed_lines, count_slashes, find_reviewers_from_diff};
use triagebot_assign::resolve::{
    candidate_reviewers_from_names, find_reviewer_from_names, FindReviewerError,
};
use triagebot_assign::select::{choose_reviewer, pick_at};
use triagebot_assign::text::{eq_ignore_case, strip_or_keep, trim_start_matches};

fn s(x: &str) -> String {
    x.to_string()
}

fn names(xs: &[&str]) -> Vec<String> {
    xs.iter().map(|x| x.to_string()).collect()
}

fn issue(author: &str, assignees: &[&str]) -> Issue {
    Issue {
        number: 1,
        title: s("A change"),
        user: User { login: s(author) },
        labels: vec![],
        assignees: assignees.iter().map(|a| User { login: s(a) }).collect(),
        repository_url: s("https://api.github.com/repos/rust-lang/rust"),
        organization: s("rust-lang"),
        is_pr: true,
        is_open: true,
        body: s(""),
    }
}

fn config(
    owners: &[(&str, &[&str])],
    groups: &[(&str, &[&str])],
    vacation: &[&str],
) -> AssignConfig {
    AssignConfig {
        owners: owners.iter().map(|(k, v)| (s(k), names(v))).collect(),
        adhoc_groups: groups.iter().map(|(k, v)| (s(k), names(v))).collect(),
        users_on_vacation: names(vacation),
        contributing_url: None,
    }
}

fn teams(ts: &[(&str, &[&str])]) -> Teams {
    Teams {
        teams: ts.iter().map(|(k, v)| Team { name: s(k), members: names(v) }).collect(),
    }
}

fn file(path: &str, diff: &str) -> FileDiff {
    FileDiff { path: s(path), diff: s(diff) }
}

fn sorted(mut v: Vec<String>) -> Vec<String> {
    v.sort();
    v
}

#[test]
fn diff_prefers_most_changed_owner() {
    let cfg = config(&[("compiler/", &["alice"]), ("docs/", &["bob"])], &[], &[]);
    let diff = vec![
        file("compiler/a.rs", "@@ -1,0 +1,5 @@\n+a\n+b\n+c\n+d\n+e\n"),
        file("docs/b.md", "@@ -1,0 +1,1 @@\n+x\n"),
    ];
    assert_eq!(find_reviewers_from_diff(&cfg, &diff).ok(), Some(names(&["alice"])));
}

#[test]
fn diff_headers_are_not_counted() {
    assert_eq!(count_changed_lines("--- a/x\n+++ b/x\n@@ -1 +1 @@\n-old\n+new\n context\n"), 2);
    assert_eq!(count_changed_lines(""), 0);
    assert_eq!(count_changed_lines("+\n-\n++\n"), 3);
    assert_eq!(count_slashes("compiler/rustc_ast/"), 2);
}

#[test]
fn diff_deepest_pattern_wins_for_a_file() {
    let cfg = config(
        &[("compiler/", &["alice"]), ("compiler/rustc_ast/", &["carol"])],
        &[],
        &[],
    );
    let diff = vec![file("compiler/rustc_ast/src/lib.rs", "+x\n+y\n")];
    assert_eq!(find_reviewers_from_diff(&cfg, &diff).ok(), Some(names(&["carol"])));
}

#[test]
fn diff_ties_union_sorted_and_deduplicated() {
    let cfg = config(
        &[("library/", &["zed", "amy"]), ("src/", &["amy", "bob"])],
        &[],
        &[],
    );
    let diff = vec![file("library/a.rs", "+1\n"), file("src/b.rs", "-2\n")];
    assert_eq!(
        find_reviewers_from_diff(&cfg, &diff).ok(),
        Some(names(&["amy", "bob", "zed"]))
    );
}

#[test]
fn diff_without_match_is_empty() {
    let cfg = config(&[("compiler/", &["alice"])], &[], &[]);
    let diff = vec![file("tests/ui/a.rs", "+x\n")];
    assert_eq!(find_reviewers_from_diff(&cfg, &diff).ok(), Some(vec![]));
    assert_eq!(find_reviewers_from_diff(&cfg, &[]).ok(), Some(vec![]));
}

#[test]
fn diff_bad_pattern_is_a_configuration_error() {
    let cfg = config(&[("compiler/[z-a]", &["alice"])], &[], &[]);
    let diff = vec![file("compiler/a.rs", "+x\n")];
    match find_reviewers_from_diff(&cfg, &diff) {
        Err(e) => assert_eq!(e.pattern, "compiler/[z-a]"),
        Ok(_) => panic!("expected a configuration error"),
    }
}

#[test]
fn diff_owner_order_does_not_matter() {
    let a = config(&[("compiler/", &["x", "y", "z"]), ("docs/", &["w"])], &[], &[]);
    let b = config(&[("compiler/", &["z", "x", "y"]), ("docs/", &["w"])], &[], &[]);
    let diff = vec![file("compiler/a.rs", "+1\n+2\n"), file("docs/b.md", "+1\n")];
    assert_eq!(
        find_reviewers_from_diff(&a, &diff).ok(),
        find_reviewers_from_diff(&b, &diff).ok()
    );
    assert_eq!(find_reviewers_from_diff(&a, &diff).ok(), Some(names(&["x", "y", "z"])));
}

#[test]
fn team_with_only_the_author_is_all_filtered() {
    let t = teams(&[("compiler", &["alice"])]);
    let cfg = config(&[], &[], &[]);
    let r = candidate_reviewers_from_names(&t, &cfg, &issue("alice", &[]), &names(&["t-compiler"]));
    assert_eq!(
        r,
        Err(FindReviewerError::AllReviewersFiltered {
            initial: names(&["t-compiler"]),
            filtered: names(&["alice"]),
        })
    );
}

#[test]
fn ghost_always_resolves_to_ghost() {
    let t = teams(&[]);
    let cfg = config(&[], &[], &["ghost"]);
    let is = issue("ghost", &["ghost"]);
    assert_eq!(find_reviewer_from_names(&t, &cfg, &is, &names(&["ghost"])), Ok(s("ghost")));
    assert_eq!(
        candidate_reviewers_from_names(&t, &cfg, &is, &names(&["@ghost"])),
        Ok(names(&["ghost"]))
    );
}

#[test]
fn unknown_qualified_team_is_not_found() {
    let t = teams(&[("compiler", &["alice"])]);
    let cfg = config(&[], &[("fallback", &["bob"])], &[]);
    assert_eq!(
        find_reviewer_from_names(&t, &cfg, &issue("carol", &[]), &names(&["rust-lang/nope"])),
        Err(FindReviewerError::TeamNotFound(s("rust-lang/nope")))
    );
    assert_eq!(
        find_reviewer_from_names(&t, &cfg, &issue("carol", &[]), &names(&["foo/bar"])),
        Err(FindReviewerError::TeamNotFound(s("foo/bar")))
    );
}

#[test]
fn cyclic_groups_end() {
    let t = teams(&[]);
    let cfg = config(&[], &[("a", &["b", "ann"]), ("b", &["a", "ben"])], &[]);
    let r = candidate_reviewers_from_names(&t, &cfg, &issue("zoe", &[]), &names(&["a"])).unwrap();
    assert_eq!(sorted(r), names(&["ann", "ben"]));
    let only = config(&[], &[("a", &["b"]), ("b", &["a"])], &[]);
    assert_eq!(
        candidate_reviewers_from_names(&t, &only, &issue("zoe", &[]), &names(&["a"])),
        Err(FindReviewerError::NoReviewer { initial: names(&["a"]) })
    );
}

#[test]
fn filters_author_vacation_and_assigned() {
    let t = teams(&[("libs", &["Amy", "bob", "cat", "dan"])]);
    let cfg = config(&[], &[], &["BOB"]);
    let is = issue("amy", &["Cat"]);
    let r = candidate_reviewers_from_names(&t, &cfg, &is, &names(&["rust-lang/libs"]));
    assert_eq!(r, Ok(names(&["dan"])));
    let none = candidate_reviewers_from_names(&t, &cfg, &is, &names(&["bob"]));
    assert_eq!(
        none,
        Err(FindReviewerError::AllReviewersFiltered {
            initial: names(&["bob"]),
            filtered: names(&["bob"]),
        })
    );
}

#[test]
fn org_prefixed_group_and_deduplication() {
    let t = teams(&[("infra", &["ann", "ben"])]);
    let cfg = config(&[], &[("helpers", &["ann", "infra"])], &[]);
    let r = candidate_reviewers_from_names(
        &t,
        &cfg,
        &issue("zoe", &[]),
        &names(&["rust-lang/helpers"]),
    )
    .unwrap();
    assert_eq!(sorted(r), names(&["ann", "ben"]));
}

#[test]
fn chosen_reviewer_is_a_candidate() {
    let c = names(&["ann", "ben", "cat"]);
    for _ in 0..20 {
        assert!(c.contains(&choose_reviewer(&c)));
    }
    assert_eq!(choose_reviewer(&names(&["solo"])), "solo");
    let t = teams(&[("infra", &["ann", "ben"])]);
    let cfg = config(&[], &[], &[]);
    let r = find_reviewer_from_names(&t, &cfg, &issue("zoe", &[]), &names(&["infra"])).unwrap();
    assert!(r == "ann" || r == "ben");
}

#[test]
fn string_helpers() {
    assert!(eq_ignore_case("Alice", "aLICE"));
    assert!(!eq_ignore_case("Alice", "Alicia"));
    assert_eq!(strip_or_keep("@bob", "@"), "bob");
    assert_eq!(strip_or_keep("bob", "@"), "bob");
    assert_eq!(trim_start_matches("t-t-lang", "t-"), "lang");
}

#[test]
fn candidates_are_deduplicated_ignoring_case() {
    let t = teams(&[("infra", &["Ann", "ben"])]);
    let cfg = config(&[], &[], &[]);
    let r = candidate_reviewers_from_names(&t, &cfg, &issue("zoe", &[]), &names(&["ann", "infra", "BEN"]));
    assert_eq!(r, Ok(names(&["BEN", "Ann"])));
}

#[test]
fn pick_at_takes_the_given_index() {
    let c = names(&["ann", "ben", "cat"]);
    assert_eq!(pick_at(&c, 0), "ann");
    assert_eq!(pick_at(&c, 2), "cat");
}
