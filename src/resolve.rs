//! Expanding requested names into concrete assignees.
use vstd::prelude::*;
use crate::text::{views, strip, same_login, strip_or_keep, contains_char, eq_ignore_case, concat, requested_team, trim_start_matches};
use crate::config::{AssignConfig, Teams, key_index, entry_names};
use crate::github::Issue;
use crate::select::choose_reviewer;

verus! {

/// Why no assignee could be determined.
#[derive(Debug, PartialEq)]
pub enum FindReviewerError {
    /// A `/`-qualified name that is neither a group nor a team.
    TeamNotFound(String),
    /// The requested names resolved to nobody.
    NoReviewer { initial: Vec<String> },
    /// Every candidate was excluded; `filtered` lists them.
    AllReviewersFiltered { initial: Vec<String>, filtered: Vec<String> },
    /// No assignee has capacity for another pull request.
    NoReviewerHasCapacity,
    /// The requested assignee has no capacity for another pull request.
    ReviewerHasNoCapacity { username: String },
    /// The requested assignee is on vacation.
    ReviewerOnVacation { username: String },
    /// The requested assignee wrote the pull request.
    ReviewerIsPrAuthor { username: String },
    /// The requested assignee is already assigned.
    ReviewerAlreadyAssigned { username: String },
}

/// A `FindReviewerError` over character sequences.
pub enum ReviewerErrorView {
    TeamNotFound(Seq<char>),
    NoReviewer { initial: Seq<Seq<char>> },
    AllReviewersFiltered { initial: Seq<Seq<char>>, filtered: Seq<Seq<char>> },
    NoReviewerHasCapacity,
    ReviewerHasNoCapacity { username: Seq<char> },
    ReviewerOnVacation { username: Seq<char> },
    ReviewerIsPrAuthor { username: Seq<char> },
    ReviewerAlreadyAssigned { username: Seq<char> },
}

impl View for FindReviewerError {
    type V = ReviewerErrorView;

    open spec fn view(&self) -> ReviewerErrorView {
        match self {
            FindReviewerError::TeamNotFound(t) => ReviewerErrorView::TeamNotFound(t@),
            FindReviewerError::NoReviewer { initial } => ReviewerErrorView::NoReviewer {
                initial: views(initial@),
            },
            FindReviewerError::AllReviewersFiltered { initial, filtered } =>
                ReviewerErrorView::AllReviewersFiltered {
                initial: views(initial@),
                filtered: views(filtered@),
            },
            FindReviewerError::NoReviewerHasCapacity => ReviewerErrorView::NoReviewerHasCapacity,
            FindReviewerError::ReviewerHasNoCapacity { username } =>
                ReviewerErrorView::ReviewerHasNoCapacity { username: username@ },
            FindReviewerError::ReviewerOnVacation { username } =>
                ReviewerErrorView::ReviewerOnVacation { username: username@ },
            FindReviewerError::ReviewerIsPrAuthor { username } =>
                ReviewerErrorView::ReviewerIsPrAuthor { username: username@ },
            FindReviewerError::ReviewerAlreadyAssigned { username } =>
                ReviewerErrorView::ReviewerAlreadyAssigned { username: username@ },
        }
    }
}

/// A candidate is excluded when it wrote the issue, is on vacation, or is
/// already assigned, comparing logins without regard to case.
pub open spec fn excluded(config: AssignConfig, issue: Issue, name: Seq<char>) -> bool {
    same_login(name, issue.user.login@) || config.vacationing(name) || issue.has_assignee(name)
}

/// Some element of `s` is the login `x`, ignoring case.
pub open spec fn has_login(s: Seq<Seq<char>>, x: Seq<char>) -> bool {
    exists|i: int| 0 <= i < s.len() && same_login(s[i], x)
}

/// No two elements of `s` are the same login, ignoring case.
pub open spec fn distinct_logins(s: Seq<Seq<char>>) -> bool {
    forall|i: int, j: int| 0 <= i < j < s.len() ==> !same_login(s[i], s[j])
}

/// `s` with `x` added at the end unless it already holds that login.
pub open spec fn insert_new(s: Seq<Seq<char>>, x: Seq<char>) -> Seq<Seq<char>> {
    if has_login(s, x) {
        s
    } else {
        s.push(x)
    }
}

/// Goes through the first `k` members: each excluded one is recorded in the
/// second list; each other one is appended to the first list, only once
/// where `dedup` holds.
pub open spec fn sort_members(
    config: AssignConfig,
    issue: Issue,
    members: Seq<Seq<char>>,
    k: int,
    kept: Seq<Seq<char>>,
    filtered: Seq<Seq<char>>,
    dedup: bool,
) -> (Seq<Seq<char>>, Seq<Seq<char>>)
    decreases k,
{
    if k <= 0 {
        (kept, filtered)
    } else {
        let (a, f) = sort_members(config, issue, members, k - 1, kept, filtered, dedup);
        let m = members[k - 1];
        if excluded(config, issue, m) {
            (a, f.push(m))
        } else if dedup {
            (insert_new(a, m), f)
        } else {
            (a.push(m), f)
        }
    }
}

/// Where a resolution stands: the names still to expand, which groups have
/// been expanded, the candidates so far and the names excluded so far.
pub struct ResolveState {
    pub stack: Seq<Seq<char>>,
    pub seen: Seq<bool>,
    pub cands: Seq<Seq<char>>,
    pub filtered: Seq<Seq<char>>,
}

/// The number of groups not yet expanded.
pub open spec fn count_false(s: Seq<bool>) -> nat
    decreases s.len(),
{
    if s.len() == 0 {
        0
    } else {
        count_false(s.drop_last()) + if s.last() {
            0nat
        } else {
            1nat
        }
    }
}

pub proof fn lemma_count_false_update(s: Seq<bool>, i: int)
    requires
        0 <= i < s.len(),
        !s[i],
    ensures
        count_false(s.update(i, true)) + 1 == count_false(s),
    decreases s.len(),
{
    let u = s.update(i, true);
    if i < s.len() - 1 {
        assert(u.drop_last() =~= s.drop_last().update(i, true));
        lemma_count_false_update(s.drop_last(), i);
    } else {
        assert(u.drop_last() =~= s.drop_last());
    }
}

/// The organization prefix that a group name may carry.
pub open spec fn org_prefix(issue: Issue) -> Seq<char> {
    issue.organization@.push('/')
}

/// Handles the name on top of the stack.
pub open spec fn resolve_step(
    teams: Teams,
    config: AssignConfig,
    issue: Issue,
    st: ResolveState,
) -> Result<ResolveState, ReviewerErrorView> {
    let stack = st.stack.drop_last();
    let n = strip(st.stack.last(), "@"@);
    if n == "ghost"@ {
        Ok(ResolveState { stack, cands: insert_new(st.cands, n), ..st })
    } else {
        let gi = key_index(config.group_keys(), strip(n, org_prefix(issue)));
        if gi >= 0 {
            if gi < st.seen.len() && !st.seen[gi] {
                let members = entry_names(config.adhoc_groups@, gi);
                let (s2, f2) = sort_members(
                    config,
                    issue,
                    members,
                    members.len() as int,
                    stack,
                    st.filtered,
                    false,
                );
                Ok(ResolveState { stack: s2, seen: st.seen.update(gi, true), cands: st.cands, filtered: f2 })
            } else {
                Ok(ResolveState { stack, ..st })
            }
        } else {
            let ti = key_index(teams.keys(), requested_team(strip(n, "rust-lang/"@)));
            if ti >= 0 {
                let members = teams.members_of(ti);
                let (c2, f2) = sort_members(
                    config,
                    issue,
                    members,
                    members.len() as int,
                    st.cands,
                    st.filtered,
                    true,
                );
                Ok(ResolveState { stack, seen: st.seen, cands: c2, filtered: f2 })
            } else if n.contains('/') {
                Err(ReviewerErrorView::TeamNotFound(n))
            } else if excluded(config, issue, n) {
                Ok(ResolveState { stack, filtered: st.filtered.push(n), ..st })
            } else {
                Ok(ResolveState { stack, cands: insert_new(st.cands, n), ..st })
            }
        }
    }
}

pub proof fn lemma_step_decreases(teams: Teams, config: AssignConfig, issue: Issue, st: ResolveState)
    requires
        st.stack.len() > 0,
        resolve_step(teams, config, issue, st) is Ok,
    ensures
        ({
            let nx = resolve_step(teams, config, issue, st)->Ok_0;
            count_false(nx.seen) < count_false(st.seen) || (count_false(nx.seen) == count_false(
                st.seen,
            ) && nx.stack.len() < st.stack.len())
        }),
{
    let n = strip(st.stack.last(), "@"@);
    let gi = key_index(config.group_keys(), strip(n, org_prefix(issue)));
    if n != "ghost"@ && gi >= 0 && gi < st.seen.len() && !st.seen[gi] {
        lemma_count_false_update(st.seen, gi);
    }
}

/// Handles names until the stack is empty or a name cannot be resolved.
pub open spec fn resolve_loop(
    teams: Teams,
    config: AssignConfig,
    issue: Issue,
    st: ResolveState,
) -> Result<ResolveState, ReviewerErrorView>
    decreases count_false(st.seen), st.stack.len(),
    via resolve_loop_decreases
{
    if st.stack.len() == 0 {
        Ok(st)
    } else {
        match resolve_step(teams, config, issue, st) {
            Ok(nx) => resolve_loop(teams, config, issue, nx),
            Err(e) => Err(e),
        }
    }
}

#[via_fn]
proof fn resolve_loop_decreases(teams: Teams, config: AssignConfig, issue: Issue, st: ResolveState) {
    if st.stack.len() != 0 {
        if resolve_step(teams, config, issue, st) is Ok {
            lemma_step_decreases(teams, config, issue, st);
        }
    }
}

pub open spec fn initial_state(config: AssignConfig, names: Seq<Seq<char>>) -> ResolveState {
    ResolveState {
        stack: names,
        seen: Seq::new(config.adhoc_groups@.len(), |i: int| false),
        cands: Seq::empty(),
        filtered: Seq::empty(),
    }
}

/// The candidates that `names` resolve to, in the order they were found, or
/// the reason why there are none.
pub open spec fn resolve_outcome(
    teams: Teams,
    config: AssignConfig,
    issue: Issue,
    names: Seq<Seq<char>>,
) -> Result<Seq<Seq<char>>, ReviewerErrorView> {
    match resolve_loop(teams, config, issue, initial_state(config, names)) {
        Err(e) => Err(e),
        Ok(st) => if st.cands.len() > 0 {
            Ok(st.cands)
        } else if st.filtered.len() == 0 {
            Err(ReviewerErrorView::NoReviewer { initial: names })
        } else {
            Err(ReviewerErrorView::AllReviewersFiltered { initial: names, filtered: st.filtered })
        },
    }
}

/// The view of a resolution result.
pub open spec fn outcome_view(r: Result<Vec<String>, FindReviewerError>) -> Result<
    Seq<Seq<char>>,
    ReviewerErrorView,
> {
    match r {
        Ok(v) => Ok(views(v@)),
        Err(e) => Err(e@),
    }
}

/// The state that the resolver's variables stand for.
pub open spec fn state_of(
    stack: Seq<String>,
    seen: Seq<bool>,
    cands: Seq<String>,
    filtered: Seq<String>,
) -> ResolveState {
    ResolveState { stack: views(stack), seen, cands: views(cands), filtered: views(filtered) }
}

/// Whether `name` must not be assigned: it wrote the issue, is on vacation
/// or is already assigned.
pub fn is_excluded(config: &AssignConfig, issue: &Issue, name: &str) -> (r: bool)
    ensures
        r == excluded(*config, *issue, name@),
{
    eq_ignore_case(name, issue.user.login.as_str()) || config.is_on_vacation(name)
        || issue.contain_assignee(name)
}

/// Whether `v` holds `s`.
pub fn contains_name(v: &Vec<String>, s: &String) -> (r: bool)
    ensures
        r == views(v@).contains(s@),
{
    let mut i: usize = 0;
    while i < v.len()
        invariant
            0 <= i <= v@.len(),
            forall|j: int| 0 <= j < i ==> v@[j]@ != s@,
        decreases v@.len() - i,
    {
        if v[i] == *s {
            assert(views(v@)[i as int] == s@);
            return true;
        }
        i = i + 1;
    }
    assert(!views(v@).contains(s@)) by {
        if views(v@).contains(s@) {
            let j = choose|j: int| 0 <= j < views(v@).len() && views(v@)[j] == s@;
            assert(v@[j]@ == s@);
        }
    }
    false
}

/// Whether `v` holds the login `s`, ignoring case.
pub fn contains_login(v: &Vec<String>, s: &String) -> (r: bool)
    ensures
        r == has_login(views(v@), s@),
{
    let mut i: usize = 0;
    while i < v.len()
        invariant
            0 <= i <= v@.len(),
            forall|j: int| 0 <= j < i ==> !same_login(v@[j]@, s@),
        decreases v@.len() - i,
    {
        if eq_ignore_case(v[i].as_str(), s.as_str()) {
            assert(same_login(views(v@)[i as int], s@));
            return true;
        }
        i = i + 1;
    }
    false
}

/// Appends `s` to `v` unless `v` already holds that login.
pub fn push_new(v: &mut Vec<String>, s: String)
    ensures
        views(final(v)@) == insert_new(views(old(v)@), s@),
        distinct_logins(views(old(v)@)) ==> distinct_logins(views(final(v)@)),
{
    if !contains_login(v, &s) {
        let ghost before = v@;
        v.push(s);
        assert(views(v@) =~= views(before).push(s@));
    }
}

/// Sorts `members` into the names kept, appended to `kept` (each only once
/// where `dedup` holds), and the names excluded, appended to `filtered`.
pub fn sort_members_into(
    config: &AssignConfig,
    issue: &Issue,
    members: &Vec<String>,
    kept: &mut Vec<String>,
    filtered: &mut Vec<String>,
    dedup: bool,
)
    ensures
        (views(final(kept)@), views(final(filtered)@)) == sort_members(
            *config,
            *issue,
            views(members@),
            members@.len() as int,
            views(old(kept)@),
            views(old(filtered)@),
            dedup,
        ),
        dedup && distinct_logins(views(old(kept)@)) ==> distinct_logins(views(final(kept)@)),
{
    let ghost kept0 = views(kept@);
    let ghost filtered0 = views(filtered@);
    let mut k: usize = 0;
    while k < members.len()
        invariant
            0 <= k <= members@.len(),
            (views(kept@), views(filtered@)) == sort_members(
                *config,
                *issue,
                views(members@),
                k as int,
                kept0,
                filtered0,
                dedup,
            ),
            dedup && distinct_logins(kept0) ==> distinct_logins(views(kept@)),
        decreases members@.len() - k,
    {
        let m = members[k].clone();
        assert(views(members@)[k as int] == m@);
        if is_excluded(config, issue, m.as_str()) {
            let ghost before = filtered@;
            filtered.push(m);
            assert(views(filtered@) =~= views(before).push(views(members@)[k as int]));
        } else if dedup {
            push_new(kept, m);
        } else {
            let ghost before = kept@;
            kept.push(m);
            assert(views(kept@) =~= views(before).push(views(members@)[k as int]));
        }
        k = k + 1;
    }
}

/// Expands `names` (users, `@user`, ad-hoc groups, teams, each optionally
/// qualified by the organization, teams also by `t-` or `T-`) into the
/// candidates that may be assigned,
/// expanding each group at most once, so that cyclic group definitions end.
///
/// Every resolution ends; a successful one holds at least one candidate, and
/// a failing one is a missing team, no assignee, or all assignees filtered.
pub fn candidate_reviewers_from_names(
    teams: &Teams,
    config: &AssignConfig,
    issue: &Issue,
    names: &[String],
) -> (r: Result<Vec<String>, FindReviewerError>)
    requires
        teams.wf(),
        config.wf(),
    ensures
        outcome_view(r) == resolve_outcome(*teams, *config, *issue, views(names@)),
        r matches Ok(c) ==> c@.len() > 0,
        r matches Ok(c) ==> distinct_logins(views(c@)),
        r matches Err(e) ==> (e is TeamNotFound || e is NoReviewer || e is AllReviewersFiltered),
{
    let ghost init = initial_state(*config, views(names@));
    let mut stack: Vec<String> = Vec::new();
    let mut i: usize = 0;
    while i < names.len()
        invariant
            0 <= i <= names@.len(),
            views(stack@) == views(names@).take(i as int),
        decreases names@.len() - i,
    {
        let ghost before = stack@;
        let x = names[i].clone();
        stack.push(x);
        assert(views(stack@) =~= views(before).push(names@[i as int]@));
        assert(views(stack@) =~= views(names@).take(i + 1));
        i = i + 1;
    }
    assert(views(names@).take(names@.len() as int) =~= views(names@));
    let mut seen: Vec<bool> = Vec::new();
    let mut g: usize = 0;
    while g < config.adhoc_groups.len()
        invariant
            0 <= g <= config.adhoc_groups@.len(),
            seen@ == Seq::new(g as nat, |i: int| false),
        decreases config.adhoc_groups@.len() - g,
    {
        seen.push(false);
        assert(seen@ =~= Seq::new((g + 1) as nat, |i: int| false));
        g = g + 1;
    }
    let mut cands: Vec<String> = Vec::new();
    let mut filtered: Vec<String> = Vec::new();
    assert(views(cands@) =~= Seq::<Seq<char>>::empty());
    assert(views(filtered@) =~= Seq::<Seq<char>>::empty());
    assert(state_of(stack@, seen@, cands@, filtered@) == init);
    let org = concat(issue.organization.as_str(), "/");
    proof {
        reveal_strlit("/");
    }
    assert(org@ =~= org_prefix(*issue));
    let ghost_name: String = "ghost".to_owned();
    while stack.len() > 0
        invariant
            teams.wf(),
            config.wf(),
            seen@.len() == config.adhoc_groups@.len(),
            org@ == org_prefix(*issue),
            ghost_name@ == "ghost"@,
            init == initial_state(*config, views(names@)),
            distinct_logins(views(cands@)),
            resolve_loop(*teams, *config, *issue, state_of(stack@, seen@, cands@, filtered@))
                == resolve_loop(*teams, *config, *issue, init),
        decreases count_false(seen@), stack@.len(),
    {
        let ghost st = state_of(stack@, seen@, cands@, filtered@);
        let ghost next = resolve_step(*teams, *config, *issue, st);
        let raw = stack.pop().unwrap();
        assert(views(stack@) =~= st.stack.drop_last());
        let n = strip_or_keep(raw.as_str(), "@");
        if n == ghost_name {
            push_new(&mut cands, n);
        } else {
            let gname = strip_or_keep(n.as_str(), org.as_str());
            match config.find_group(&gname) {
                Some(gi) => {
                    if !seen[gi] {
                        sort_members_into(
                            config,
                            issue,
                            &config.adhoc_groups[gi].1,
                            &mut stack,
                            &mut filtered,
                            false,
                        );
                        seen.set(gi, true);
                    }
                },
                None => {
                    let full = strip_or_keep(n.as_str(), "rust-lang/");
                    let short = trim_start_matches(full.as_str(), "t-");
                    let tname = trim_start_matches(short.as_str(), "T-");
                    match teams.find(&tname) {
                        Some(ti) => {
                            sort_members_into(
                                config,
                                issue,
                                &teams.teams[ti].members,
                                &mut cands,
                                &mut filtered,
                                true,
                            );
                        },
                        None => {
                            if contains_char(n.as_str(), '/') {
                                assert(next == Err::<ResolveState, ReviewerErrorView>(
                                    ReviewerErrorView::TeamNotFound(n@)));
                                assert(resolve_loop(*teams, *config, *issue, st) == next);
                                assert(resolve_loop(*teams, *config, *issue, init) == next);
                                assert(resolve_outcome(*teams, *config, *issue, views(names@)) == Err::<Seq<Seq<char>>, ReviewerErrorView>(next->Err_0));
                                let r = FindReviewerError::TeamNotFound(n);
                                assert(outcome_view(Err(r)) == Err::<Seq<Seq<char>>, ReviewerErrorView>(next->Err_0));
                                return Err(r);
                            }
                            if is_excluded(config, issue, n.as_str()) {
                                let ghost before = filtered@;
                                filtered.push(n);
                                assert(views(filtered@) =~= views(before).push(n@));
                            } else {
                                push_new(&mut cands, n);
                            }
                        },
                    }
                },
            }
        }
        assert(next == Ok::<ResolveState, ReviewerErrorView>(state_of(stack@, seen@, cands@, filtered@)));
        proof {
            lemma_step_decreases(*teams, *config, *issue, st);
        }
    }
    let ghost fin = state_of(stack@, seen@, cands@, filtered@);
    if cands.len() > 0 {
        Ok(cands)
    } else {
        let mut initial: Vec<String> = Vec::new();
        let mut j: usize = 0;
        while j < names.len()
            invariant
                0 <= j <= names@.len(),
                views(initial@) == views(names@).take(j as int),
            decreases names@.len() - j,
        {
            let ghost before = initial@;
            let x = names[j].clone();
            initial.push(x);
            assert(views(initial@) =~= views(before).push(names@[j as int]@));
            assert(views(initial@) =~= views(names@).take(j + 1));
            j = j + 1;
        }
        assert(views(names@).take(names@.len() as int) =~= views(names@));
        if filtered.len() == 0 {
            Err(FindReviewerError::NoReviewer { initial })
        } else {
            Err(FindReviewerError::AllReviewersFiltered { initial, filtered })
        }
    }
}

/// The assignee that `names` resolve to: `ghost` where the candidates hold
/// it, otherwise a random candidate; or why there is none.
pub fn find_reviewer_from_names(
    teams: &Teams,
    config: &AssignConfig,
    issue: &Issue,
    names: &[String],
) -> (r: Result<String, FindReviewerError>)
    requires
        teams.wf(),
        config.wf(),
    ensures
        match resolve_outcome(*teams, *config, *issue, views(names@)) {
            Ok(c) => r matches Ok(s) && (if c.contains("ghost"@) {
                s@ == "ghost"@
            } else {
                c.contains(s@)
            }),
            Err(e) => r matches Err(f) && f@ == e,
        },
{
    match candidate_reviewers_from_names(teams, config, issue, names) {
        Ok(candidates) => {
            let ghost_name: String = "ghost".to_owned();
            if contains_name(&candidates, &ghost_name) {
                Ok(ghost_name)
            } else {
                Ok(choose_reviewer(&candidates))
            }
        },
        Err(e) => Err(e),
    }
}

proof fn lemma_loop_errors(teams: Teams, config: AssignConfig, issue: Issue, st: ResolveState)
    ensures
        resolve_loop(teams, config, issue, st) matches Err(e) ==> e is TeamNotFound,
    decreases count_false(st.seen), st.stack.len(),
{
    if st.stack.len() != 0 {
        if resolve_step(teams, config, issue, st) is Ok {
            lemma_step_decreases(teams, config, issue, st);
            lemma_loop_errors(teams, config, issue, resolve_step(teams, config, issue, st)->Ok_0);
        }
    }
}

/// Resolution always ends, also where ad-hoc groups name each other in a
/// cycle: with at least one candidate, or with a missing team, no assignee,
/// or all assignees filtered.
pub proof fn lemma_resolution_ends(
    teams: Teams,
    config: AssignConfig,
    issue: Issue,
    names: Seq<Seq<char>>,
)
    ensures
        resolve_outcome(teams, config, issue, names) matches Ok(c) ==> c.len() > 0,
        resolve_outcome(teams, config, issue, names) matches Err(e) ==> (e is TeamNotFound
            || e is NoReviewer || e is AllReviewersFiltered),
{
    lemma_loop_errors(teams, config, issue, initial_state(config, names));
}

/// Requesting `ghost` always yields exactly `ghost`, whoever wrote the
/// issue, is assigned or is on vacation.
pub proof fn lemma_ghost_resolves(teams: Teams, config: AssignConfig, issue: Issue)
    ensures
        resolve_outcome(teams, config, issue, seq!["ghost"@]) == Ok::<
            Seq<Seq<char>>,
            ReviewerErrorView,
        >(seq!["ghost"@]),
{
    reveal_strlit("ghost");
    reveal_strlit("@");
    let init = initial_state(config, seq!["ghost"@]);
    assert("@"@ =~= seq!['@']);
    assert("ghost"@ =~= seq!['g', 'h', 'o', 's', 't']);
    assert("ghost"@.take(1)[0] == 'g');
    assert(!crate::text::starts_with("ghost"@, "@"@));
    assert(strip(init.stack.last(), "@"@) == "ghost"@);
    assert(insert_new(Seq::<Seq<char>>::empty(), "ghost"@) =~= seq!["ghost"@]);
    let nx = resolve_step(teams, config, issue, init)->Ok_0;
    assert(nx.stack =~= Seq::<Seq<char>>::empty());
    assert(resolve_loop(teams, config, issue, nx) == Ok::<ResolveState, ReviewerErrorView>(nx));
}

/// A requested name with a `/` that is neither an ad-hoc group nor a team
/// fails the resolution with `TeamNotFound`, naming it.
pub proof fn lemma_unknown_team_not_found(
    teams: Teams,
    config: AssignConfig,
    issue: Issue,
    name: Seq<char>,
)
    requires
        strip(name, "@"@).contains('/'),
        key_index(config.group_keys(), strip(strip(name, "@"@), org_prefix(issue))) == -1,
        key_index(teams.keys(), requested_team(strip(strip(name, "@"@), "rust-lang/"@))) == -1,
    ensures
        resolve_outcome(teams, config, issue, seq![name]) == Err::<
            Seq<Seq<char>>,
            ReviewerErrorView,
        >(ReviewerErrorView::TeamNotFound(strip(name, "@"@))),
{
    reveal_strlit("ghost");
    assert("ghost"@ =~= seq!['g', 'h', 'o', 's', 't']);
    assert(!"ghost"@.contains('/'));
    let init = initial_state(config, seq![name]);
    assert(init.stack.last() == name);
}

/// The number of names that a resolution takes off the stack.
pub open spec fn resolve_pops(teams: Teams, config: AssignConfig, issue: Issue, st: ResolveState) -> nat
    decreases count_false(st.seen), st.stack.len(),
    via resolve_pops_decreases
{
    if st.stack.len() == 0 {
        0
    } else {
        match resolve_step(teams, config, issue, st) {
            Ok(nx) => 1 + resolve_pops(teams, config, issue, nx),
            Err(_) => 1,
        }
    }
}

#[via_fn]
proof fn resolve_pops_decreases(teams: Teams, config: AssignConfig, issue: Issue, st: ResolveState) {
    if st.stack.len() != 0 {
        if resolve_step(teams, config, issue, st) is Ok {
            lemma_step_decreases(teams, config, issue, st);
        }
    }
}

/// The total size of the first `k` groups not yet expanded.
pub open spec fn unseen_size(config: AssignConfig, seen: Seq<bool>, k: int) -> nat
    decreases k,
{
    if k <= 0 {
        0
    } else {
        unseen_size(config, seen, k - 1) + if !seen[k - 1] {
            entry_names(config.adhoc_groups@, k - 1).len()
        } else {
            0
        }
    }
}

proof fn lemma_unseen_size_update(config: AssignConfig, seen: Seq<bool>, g: int, k: int)
    requires
        0 <= g < seen.len(),
        !seen[g],
        k <= seen.len(),
    ensures
        g < k ==> unseen_size(config, seen.update(g, true), k) + entry_names(config.adhoc_groups@, g).len()
            == unseen_size(config, seen, k),
        g >= k ==> unseen_size(config, seen.update(g, true), k) == unseen_size(config, seen, k),
    decreases k,
{
    if k > 0 {
        lemma_unseen_size_update(config, seen, g, k - 1);
    }
}

proof fn lemma_sort_members_len(
    config: AssignConfig,
    issue: Issue,
    members: Seq<Seq<char>>,
    k: int,
    kept: Seq<Seq<char>>,
    filtered: Seq<Seq<char>>,
)
    requires
        0 <= k,
    ensures
        sort_members(config, issue, members, k, kept, filtered, false).0.len() <= kept.len() + k,
    decreases k,
{
    if k > 0 {
        lemma_sort_members_len(config, issue, members, k - 1, kept, filtered);
    }
}

proof fn lemma_pops_bound(teams: Teams, config: AssignConfig, issue: Issue, st: ResolveState)
    requires
        st.seen.len() == config.adhoc_groups@.len(),
    ensures
        resolve_pops(teams, config, issue, st) <= st.stack.len() + unseen_size(
            config,
            st.seen,
            st.seen.len() as int,
        ),
    decreases count_false(st.seen), st.stack.len(),
{
    if st.stack.len() != 0 {
        if resolve_step(teams, config, issue, st) is Ok {
            let nx = resolve_step(teams, config, issue, st)->Ok_0;
            lemma_step_decreases(teams, config, issue, st);
            let n = strip(st.stack.last(), "@"@);
            let gi = key_index(config.group_keys(), strip(n, org_prefix(issue)));
            if n != "ghost"@ && gi >= 0 && gi < st.seen.len() && !st.seen[gi] {
                let members = entry_names(config.adhoc_groups@, gi);
                lemma_sort_members_len(
                    config,
                    issue,
                    members,
                    members.len() as int,
                    st.stack.drop_last(),
                    st.filtered,
                );
                lemma_unseen_size_update(config, st.seen, gi, st.seen.len() as int);
            }
            lemma_pops_bound(teams, config, issue, nx);
        }
    }
}

/// The total number of members listed over all ad-hoc groups.
pub open spec fn group_sizes(config: AssignConfig) -> nat {
    unseen_size(config, Seq::new(config.adhoc_groups@.len(), |i: int| false), config.adhoc_groups@.len() as int)
}

/// However the ad-hoc groups name each other, cycles included, a resolution
/// takes at most as many names off its stack as were requested plus the
/// members listed over all groups: each group is expanded once.
pub proof fn lemma_resolution_pops_bounded(
    teams: Teams,
    config: AssignConfig,
    issue: Issue,
    names: Seq<Seq<char>>,
)
    ensures
        resolve_pops(teams, config, issue, initial_state(config, names)) <= names.len() + group_sizes(config),
{
    lemma_pops_bound(teams, config, issue, initial_state(config, names));
}

/// A `/`-qualified name (once `@` is taken off) denotes an ad-hoc group or a team.
pub open spec fn qualified_known(teams: Teams, config: AssignConfig, issue: Issue, name: Seq<char>) -> bool {
    let m = strip(name, "@"@);
    m.contains('/') ==> (key_index(config.group_keys(), strip(m, org_prefix(issue))) >= 0
        || key_index(teams.keys(), requested_team(strip(m, "rust-lang/"@))) >= 0)
}

/// Every `/`-qualified member of every ad-hoc group is known.
pub open spec fn groups_qualified_known(teams: Teams, config: AssignConfig, issue: Issue) -> bool {
    forall|g: int, k: int|
        0 <= g < config.adhoc_groups@.len() && 0 <= k < entry_names(config.adhoc_groups@, g).len()
            ==> qualified_known(teams, config, issue, #[trigger] entry_names(config.adhoc_groups@, g)[k])
}

proof fn lemma_sort_members_from(
    config: AssignConfig,
    issue: Issue,
    members: Seq<Seq<char>>,
    k: int,
    kept: Seq<Seq<char>>,
    filtered: Seq<Seq<char>>,
)
    requires
        0 <= k <= members.len(),
    ensures
        forall|x: Seq<char>|
            sort_members(config, issue, members, k, kept, filtered, false).0.contains(x) ==> (
            kept.contains(x) || members.contains(x)),
    decreases k,
{
    if k > 0 {
        lemma_sort_members_from(config, issue, members, k - 1, kept, filtered);
        let prev = sort_members(config, issue, members, k - 1, kept, filtered, false).0;
        assert forall|x: Seq<char>|
            sort_members(config, issue, members, k, kept, filtered, false).0.contains(x) implies (
            kept.contains(x) || members.contains(x)) by {
            let r = sort_members(config, issue, members, k, kept, filtered, false).0;
            let i = choose|i: int| 0 <= i < r.len() && r[i] == x;
            if i < prev.len() {
                assert(prev[i] == x);
            } else {
                assert(members[k - 1] == x);
            }
        }
    }
}

proof fn lemma_no_team_not_found(teams: Teams, config: AssignConfig, issue: Issue, st: ResolveState)
    requires
        groups_qualified_known(teams, config, issue),
        forall|i: int| 0 <= i < st.stack.len() ==> qualified_known(teams, config, issue, #[trigger] st.stack[i]),
    ensures
        resolve_loop(teams, config, issue, st) is Ok,
    decreases count_false(st.seen), st.stack.len(),
{
    if st.stack.len() != 0 {
        assert(qualified_known(teams, config, issue, st.stack[st.stack.len() - 1]));
        let n = strip(st.stack.last(), "@"@);
        let gi = key_index(config.group_keys(), strip(n, org_prefix(issue)));
        let nx = resolve_step(teams, config, issue, st)->Ok_0;
        if n != "ghost"@ && gi >= 0 && gi < st.seen.len() && !st.seen[gi] {
            let members = entry_names(config.adhoc_groups@, gi);
            assert(gi < config.adhoc_groups@.len()) by {
                assert(config.group_keys().len() == config.adhoc_groups@.len());
            }
            lemma_sort_members_from(config, issue, members, members.len() as int, st.stack.drop_last(), st.filtered);
            assert forall|i: int| 0 <= i < nx.stack.len() implies qualified_known(teams, config, issue, #[trigger] nx.stack[i]) by {
                assert(nx.stack.contains(nx.stack[i]));
                if st.stack.drop_last().contains(nx.stack[i]) {
                    let j = choose|j: int| 0 <= j < st.stack.drop_last().len() && st.stack.drop_last()[j] == nx.stack[i];
                    assert(st.stack[j] == nx.stack[i]);
                } else {
                    let k = choose|k: int| 0 <= k < members.len() && members[k] == nx.stack[i];
                    assert(qualified_known(teams, config, issue, entry_names(config.adhoc_groups@, gi)[k]));
                }
            }
        } else {
            assert forall|i: int| 0 <= i < nx.stack.len() implies qualified_known(teams, config, issue, #[trigger] nx.stack[i]) by {
                assert(nx.stack[i] == st.stack[i]);
            }
        }
        lemma_step_decreases(teams, config, issue, st);
        lemma_no_team_not_found(teams, config, issue, nx);
    }
}

/// Where every `/`-qualified name, requested or listed in an ad-hoc group,
/// denotes a group or a team, resolution ends with candidates, nobody found or
/// all filtered, also through cycles of groups: never with a missing team.
pub proof fn lemma_known_names_resolve(
    teams: Teams,
    config: AssignConfig,
    issue: Issue,
    names: Seq<Seq<char>>,
)
    requires
        groups_qualified_known(teams, config, issue),
        forall|i: int| 0 <= i < names.len() ==> qualified_known(teams, config, issue, #[trigger] names[i]),
    ensures
        resolve_outcome(teams, config, issue, names) matches Ok(c) ==> c.len() > 0,
        resolve_outcome(teams, config, issue, names) matches Err(e) ==> (e is NoReviewer
            || e is AllReviewersFiltered),
{
    lemma_no_team_not_found(teams, config, issue, initial_state(config, names));
}

} // verus!
