//! Decisions of pull request and issue assignment: who to assign, what to
//! post, and what to ask of the tracker.
use vstd::prelude::*;
use crate::text::{views, same_login, eq_ignore_case, concat, requested_team, trim_start_matches};
use crate::config::{AssignConfig, Teams, entry_names, key_index};
use crate::github::{Issue, FileDiff, User};
use crate::resolve::{ReviewerErrorView, resolve_outcome, find_reviewer_from_names, lemma_ghost_resolves};
use crate::owners::{
    all_compile,
    diff_proposal_of,
    matchable_path,
    diff_size,
    find_reviewers_from_diff,
};
use crate::messages::{message_spec, vacation_warning, vacation_warning_spec, rv, rv_word, concat3};

verus! {

/// Marker that a newly opened pull request is to be auto-assigned.
pub struct AssignInput {}

/// Auto-assignment applies to a pull request that was just opened, in a
/// repository whose configuration has ownership rules.
pub fn parse_input(config: Option<&AssignConfig>, opened: bool, is_pr: bool) -> (r: Option<
    AssignInput,
>)
    ensures
        r is Some <==> (config matches Some(c) && c.owners@.len() > 0 && opened && is_pr),
{
    match config {
        None => None,
        Some(c) => if c.owners.len() == 0 || !opened || !is_pr {
            None
        } else {
            Some(AssignInput {})
        },
    }
}

/// Whether `assignee` names the pull request's author, ignoring case.
pub fn is_self_assign(assignee: &str, pr_author: &str) -> (r: bool)
    ensures
        r == same_login(assignee@, pr_author@),
{
    eq_ignore_case(assignee, pr_author)
}

/// `s` is the candidate picked from the outcome: `ghost` where the candidates
/// hold it, else one of the candidates.
pub open spec fn picked(o: Result<Seq<Seq<char>>, ReviewerErrorView>, s: Seq<char>) -> bool {
    o matches Ok(c) && if c.contains("ghost"@) {
        s == "ghost"@
    } else {
        c.contains(s)
    }
}

/// The members of the group named `fallback`, if there is one.
pub open spec fn fallback_names(config: AssignConfig) -> Option<Seq<Seq<char>>> {
    let gi = key_index(config.group_keys(), "fallback"@);
    if gi >= 0 {
        Some(entry_names(config.adhoc_groups@, gi))
    } else {
        None
    }
}

/// What the stages after a request in the opening text choose: a candidate
/// of the files' proposal where it is non-empty and resolves, else one of the
/// `fallback` group where it resolves, else nobody.
pub open spec fn later_choice(
    teams: Teams,
    config: AssignConfig,
    issue: Issue,
    diff: Seq<FileDiff>,
    a: Option<Seq<char>>,
) -> bool {
    let d = diff_proposal_of(config.owners@, diff);
    if all_compile(config.owners@, diff) && d.len() > 0 && resolve_outcome(
        teams,
        config,
        issue,
        d,
    ) is Ok {
        a matches Some(x) && picked(resolve_outcome(teams, config, issue, d), x)
    } else if fallback_names(config) is Some && resolve_outcome(
        teams,
        config,
        issue,
        fallback_names(config)->Some_0,
    ) is Ok {
        a matches Some(x) && picked(
            resolve_outcome(teams, config, issue, fallback_names(config)->Some_0),
            x,
        )
    } else {
        a is None
    }
}

/// Who a new pull request goes to and where that came from.
pub struct AssigneeChoice {
    /// The assignee, if one was found.
    pub assignee: Option<String>,
    /// The assignee was requested with `r?` in the opening text.
    pub from_comment: bool,
    /// The explanation to post where that request could not be served.
    pub error_comment: Option<String>,
}

/// Chooses the assignee of a new pull request: the one that its opening text
/// requests (the author themself directly), else one proposed by the files it
/// changes, else one of the `fallback` group.
pub fn determine_assignee(
    teams: &Teams,
    config: &AssignConfig,
    issue: &Issue,
    diff: &[FileDiff],
    requested: Option<String>,
) -> (r: AssigneeChoice)
    requires
        teams.wf(),
        config.wf(),
        forall|f: int| 0 <= f < diff@.len() ==> matchable_path(#[trigger] diff@[f].path@),
        diff_size(diff@) <= u64::MAX,
    ensures
        r.from_comment ==> requested is Some,
        requested is None ==> r.error_comment is None,
        requested matches Some(n) ==> ({
            let out = resolve_outcome(*teams, *config, *issue, seq![n@]);
            if same_login(n@, issue.user.login@) {
                r.from_comment && r.error_comment is None && (r.assignee matches Some(a) && a@ == n@)
            } else if out is Ok {
                r.from_comment && r.error_comment is None && (r.assignee matches Some(a) && picked(out, a@))
            } else {
                !r.from_comment && (r.error_comment matches Some(m) && m@ == message_spec(
                    out->Err_0,
                ))
            }
        }),
        !r.from_comment ==> later_choice(
            *teams,
            *config,
            *issue,
            diff@,
            match r.assignee {
                Some(x) => Some(x@),
                None => None,
            },
        ),
{
    let mut error_comment: Option<String> = None;
    if let Some(name) = requested {
        if is_self_assign(name.as_str(), issue.user.login.as_str()) {
            return AssigneeChoice { assignee: Some(name), from_comment: true, error_comment: None };
        }
        let names = vec![name];
        assert(views(names@) =~= seq![name@]);
        match find_reviewer_from_names(teams, config, issue, names.as_slice()) {
            Ok(a) => {
                return AssigneeChoice { assignee: Some(a), from_comment: true, error_comment: None };
            },
            Err(e) => {
                error_comment = Some(e.message());
            },
        }
    }
    let diff_ok = match find_reviewers_from_diff(config, diff) {
        Ok(c) => {
            if c.len() > 0 {
                match find_reviewer_from_names(teams, config, issue, c.as_slice()) {
                    Ok(a) => {
                        return AssigneeChoice { assignee: Some(a), from_comment: false, error_comment };
                    },
                    Err(_) => {},
                }
            }
            true
        },
        Err(_) => false,
    };
    let fallback: String = "fallback".to_owned();
    match config.find_group(&fallback) {
        Some(gi) => {
            let members = &config.adhoc_groups[gi].1;
            match find_reviewer_from_names(teams, config, issue, members.as_slice()) {
                Ok(a) => {
                    return AssigneeChoice { assignee: Some(a), from_comment: false, error_comment };
                },
                Err(_) => {},
            }
        },
        None => {},
    }
    AssigneeChoice { assignee: None, from_comment: false, error_comment }
}

/// What to do about a newly opened pull request.
pub struct NewPrPlan {
    /// The explanation of a request in the opening text that could not be served.
    pub error_comment: Option<String>,
    /// Who to assign.
    pub assign: Option<String>,
    /// The welcome comment to post.
    pub welcome: Option<String>,
}

pub open spec fn welcome_spec(assignee: Option<Seq<char>>, bot: Seq<char>, author: Seq<char>) -> Seq<
    char,
> {
    match assignee {
        Some(a) => "r? @"@ + a + "\n\n"@ + bot + " has assigned @"@ + a
            + ".\nThey will have a look at your PR within the next two weeks and either "@ + rv()
            + " your PR or reassign to another "@ + rv() + "er.\n\nUse `r?` to explicitly pick a "@
            + rv() + "er"@,
        None => "@"@ + author + ": no appropriate "@ + rv() + "er found, use `r?` to override"@,
    }
}

/// The welcome comment for a pull request whose assignee was not requested
/// in its opening text.
pub fn welcome_message(assignee: &Option<String>, bot: &str, author: &str) -> (r: String)
    ensures
        r@ == welcome_spec(
            match assignee {
                Some(a) => Some(a@),
                None => None,
            },
            bot@,
            author@,
        ),
{
    let w = rv_word();
    match assignee {
        Some(a) => {
            let s1 = concat3("r? @", a.as_str(), "\n\n");
            let s2 = concat3(s1.as_str(), bot, " has assigned @");
            let s3 = concat3(
                s2.as_str(),
                a.as_str(),
                ".\nThey will have a look at your PR within the next two weeks and either ",
            );
            let s4 = concat3(s3.as_str(), w.as_str(), " your PR or reassign to another ");
            let s5 = concat3(s4.as_str(), w.as_str(), "er.\n\nUse `r?` to explicitly pick a ");
            concat3(s5.as_str(), w.as_str(), "er")
        },
        None => {
            let s1 = concat3("@", author, ": no appropriate ");
            concat3(s1.as_str(), w.as_str(), "er found, use `r?` to override")
        },
    }
}

/// Plans the handling of a new pull request: nothing where it was opened
/// with an assignee or where `ghost` was chosen; otherwise assign the choice
/// and welcome, unless the assignee was requested in the opening text.
pub fn plan_new_pr(issue: &Issue, choice: AssigneeChoice, bot: &str) -> (r: NewPrPlan)
    ensures
        issue.assignees@.len() > 0 ==> r.error_comment is None && r.assign is None
            && r.welcome is None,
        issue.assignees@.len() == 0 ==> r.error_comment == choice.error_comment,
        (issue.assignees@.len() == 0 && (choice.assignee matches Some(a) && a@ == "ghost"@)) ==> (
        r.assign is None && r.welcome is None),
        (issue.assignees@.len() == 0 && !(choice.assignee matches Some(a) && a@ == "ghost"@)) ==> (
        r.assign == choice.assignee && (if choice.from_comment {
            r.welcome is None
        } else {
            r.welcome matches Some(w) && w@ == welcome_spec(
                match choice.assignee {
                    Some(a) => Some(a@),
                    None => None,
                },
                bot@,
                issue.user.login@,
            )
        })),
{
    if issue.assignees.len() > 0 {
        return NewPrPlan { error_comment: None, assign: None, welcome: None };
    }
    let ghost_name: String = "ghost".to_owned();
    let is_ghost = match &choice.assignee {
        Some(a) => *a == ghost_name,
        None => false,
    };
    if is_ghost {
        return NewPrPlan { error_comment: choice.error_comment, assign: None, welcome: None };
    }
    let welcome = if !choice.from_comment {
        Some(welcome_message(&choice.assignee, bot, issue.user.login.as_str()))
    } else {
        None
    };
    NewPrPlan { error_comment: choice.error_comment, assign: choice.assignee, welcome }
}

/// Whether assigning `username` asks anything of the tracker: not where
/// they are already assigned, as when the same event comes again.
pub fn needs_assignment(issue: &Issue, username: &str) -> (r: bool)
    ensures
        r == !issue.has_assignee(username@),
{
    !issue.contain_assignee(username)
}

pub open spec fn failure_comment_spec(username: Seq<char>, error: Seq<char>) -> Seq<char> {
    "Failed to set assignee to `"@ + username + "`: "@ + error
        + "\n\n> **Note**: Only org members with at least the repository \"read\" role, users with write permissions, or people who have commented on the PR may be assigned."@
}

/// The comment posted where the tracker refused to assign `username`.
pub fn assignment_failure_comment(username: &str, error: &str) -> (r: String)
    ensures
        r@ == failure_comment_spec(username@, error@),
{
    let a = concat("Failed to set assignee to `", username);
    let b = concat(a.as_str(), "`: ");
    let c = concat(b.as_str(), error);
    concat(
        c.as_str(),
        "\n\n> **Note**: Only org members with at least the repository \"read\" role, users with write permissions, or people who have commented on the PR may be assigned.",
    )
}

pub open spec fn claim_comment_spec(user: Seq<char>, url: Seq<char>) -> Seq<char> {
    "This issue has been assigned to @"@ + user + " via [this comment]("@ + url + ")."@
}

/// The comment that records who claimed an issue, where the tracker could
/// only assign the bot.
pub fn claim_comment(user: &str, url: &str) -> (r: String)
    ensures
        r@ == claim_comment_spec(user@, url@),
{
    let a = concat("This issue has been assigned to @", user);
    let b = concat(a.as_str(), " via [this comment](");
    let c = concat(b.as_str(), url);
    concat(c.as_str(), ").")
}

/// An assignment command of a comment.
pub enum AssignCommand {
    /// Claim the item for the commenter.
    Own,
    /// Assign the given user.
    User { username: String },
    /// Give up the assignment.
    Release,
    /// `r?`: ask for an assignee among a user, group or team.
    ReviewName { name: String },
}

/// What a command on a pull request asks for.
pub enum PrAction {
    Ignore,
    /// Post this text and stop.
    Comment(String),
    /// Assign this user.
    Assign(String),
    /// Resolve this requested name into a candidate to assign.
    RequestReview(String),
}

/// Decides on a command on a pull request. Commands of the bot itself are
/// ignored; a closed pull request takes none; a pull request keeps an
/// assignee, so a release is ignored; a user on vacation is assigned only by
/// themself; `r?` is left to the opening handler on a new pull request and
/// ignored where no ownership rules are configured.
pub fn pr_command_action(
    config: &AssignConfig,
    issue: &Issue,
    commenter: &str,
    bot: &str,
    opened_event: bool,
    cmd: AssignCommand,
) -> (r: PrAction)
    ensures
        commenter@ == bot@ ==> r is Ignore,
        (commenter@ != bot@ && !issue.is_open) ==> (r matches PrAction::Comment(m) && m@
            == "Assignment is not allowed on a closed PR."@),
        (commenter@ != bot@ && issue.is_open) ==> match cmd {
            AssignCommand::Own => r matches PrAction::Assign(u) && u@ == commenter@,
            AssignCommand::User { username } => if config.vacationing(username@) && !same_login(
                commenter@,
                username@,
            ) {
                r matches PrAction::Comment(m) && m@ == vacation_warning_spec(username@)
            } else {
                r matches PrAction::Assign(u) && u@ == username@
            },
            AssignCommand::Release => r is Ignore,
            AssignCommand::ReviewName { name } => if config.owners@.len() == 0 || opened_event {
                r is Ignore
            } else if same_login(name@, commenter@) {
                r matches PrAction::Assign(u) && u@ == name@
            } else {
                r matches PrAction::RequestReview(n) && n@ == name@
            },
        },
{
    if commenter.to_owned() == bot.to_owned() {
        return PrAction::Ignore;
    }
    if !issue.is_open {
        return PrAction::Comment("Assignment is not allowed on a closed PR.".to_owned());
    }
    match cmd {
        AssignCommand::Own => PrAction::Assign(commenter.to_owned()),
        AssignCommand::User { username } => {
            if config.is_on_vacation(username.as_str()) && !eq_ignore_case(commenter, username.as_str()) {
                PrAction::Comment(vacation_warning(username.as_str()))
            } else {
                PrAction::Assign(username)
            }
        },
        AssignCommand::Release => PrAction::Ignore,
        AssignCommand::ReviewName { name } => {
            if config.owners.len() == 0 || opened_event {
                PrAction::Ignore
            } else if is_self_assign(name.as_str(), commenter) {
                PrAction::Assign(name)
            } else {
                PrAction::RequestReview(name)
            }
        },
    }
}

/// What a request by name on a pull request comes to.
pub struct ReviewPlan {
    /// The team label to add first, where the name is a team's.
    pub label: Option<String>,
    /// The assignee, or the explanation to post.
    pub outcome: Result<String, String>,
}

/// Plans a request by name for `name` on a pull request: label the team's
/// label where `name` is a team, then resolve it into a candidate to assign.
pub fn review_request(teams: &Teams, config: &AssignConfig, issue: &Issue, name: &str) -> (r:
    ReviewPlan)
    requires
        teams.wf(),
        config.wf(),
    ensures
        ({
            let t = requested_team(name@);
            &&& (key_index(teams.keys(), t) >= 0 <==> r.label is Some)
            &&& (r.label matches Some(l) ==> l@ == "T-"@ + t)
            &&& match resolve_outcome(*teams, *config, *issue, seq![t]) {
                Ok(c) => r.outcome matches Ok(a) && picked(Ok(c), a@),
                Err(e) => r.outcome matches Err(m) && m@ == message_spec(e),
            }
        }),
{
    let t1 = trim_start_matches(name, "t-");
    let team_name = trim_start_matches(t1.as_str(), "T-");
    let label = match teams.find(&team_name) {
        Some(_) => Some(concat("T-", team_name.as_str())),
        None => None,
    };
    let names = vec![team_name];
    assert(views(names@) =~= seq![requested_team(name@)]);
    let outcome = match find_reviewer_from_names(teams, config, issue, names.as_slice()) {
        Ok(a) => Ok(a),
        Err(e) => Err(e.message()),
    };
    ReviewPlan { label, outcome }
}

/// What a command on a plain issue asks for.
pub enum IssueAction {
    Ignore,
    /// Refuse with this error.
    Fail(String),
    /// Remove every assignee and clear the claim.
    RemoveAll,
    /// Remove this assignee and clear the claim.
    RemoveOne(String),
    /// Record the claim of this user and assign them.
    Claim(String),
}

/// Decides on a command on a plain issue, given who holds the recorded
/// claim. Only team members assign others; the claimant or a team member
/// releases a claim; without a claim, an assignee releases themself.
pub fn issue_command_action(
    issue: &Issue,
    commenter: &str,
    bot: &str,
    is_team_member: bool,
    claimed_by: Option<String>,
    cmd: AssignCommand,
) -> (r: IssueAction)
    ensures
        commenter@ == bot@ ==> r is Ignore,
        commenter@ != bot@ ==> match cmd {
            AssignCommand::Own => if issue.has_assignee(commenter@) {
                r is Ignore
            } else {
                r matches IssueAction::Claim(u) && u@ == commenter@
            },
            AssignCommand::User { username } => if !is_team_member && username@ != commenter@ {
                r matches IssueAction::Fail(m) && m@ == "Only Rust team members can assign other users"@
            } else if issue.has_assignee(username@) {
                r is Ignore
            } else {
                r matches IssueAction::Claim(u) && u@ == username@
            },
            AssignCommand::Release => match claimed_by {
                Some(cur) => if cur@ == commenter@ || is_team_member {
                    r is RemoveAll
                } else {
                    r matches IssueAction::Fail(m) && m@ == "Cannot release another user's assignment"@
                },
                None => if issue.has_assignee(commenter@) {
                    r matches IssueAction::RemoveOne(u) && u@ == commenter@
                } else {
                    r matches IssueAction::Fail(m) && m@ == "Cannot release unassigned issue"@
                },
            },
            AssignCommand::ReviewName { .. } => r matches IssueAction::Fail(m) && m@
                == "r? is only allowed on PRs."@,
        },
{
    let me: String = commenter.to_owned();
    if me == bot.to_owned() {
        return IssueAction::Ignore;
    }
    let to_assign = match cmd {
        AssignCommand::Own => me,
        AssignCommand::User { username } => {
            if !is_team_member && username != me {
                return IssueAction::Fail("Only Rust team members can assign other users".to_owned());
            }
            username
        },
        AssignCommand::Release => {
            match claimed_by {
                Some(cur) => {
                    if cur == me || is_team_member {
                        return IssueAction::RemoveAll;
                    } else {
                        return IssueAction::Fail(
                            "Cannot release another user's assignment".to_owned(),
                        );
                    }
                },
                None => {
                    if issue.contain_assignee(commenter) {
                        return IssueAction::RemoveOne(me);
                    } else {
                        return IssueAction::Fail("Cannot release unassigned issue".to_owned());
                    }
                },
            }
        },
        AssignCommand::ReviewName { .. } => {
            return IssueAction::Fail("r? is only allowed on PRs.".to_owned());
        },
    };
    if issue.contain_assignee(to_assign.as_str()) {
        IssueAction::Ignore
    } else {
        IssueAction::Claim(to_assign)
    }
}

/// Once `user` has been assigned, assigning them again asks nothing more of
/// the tracker (`needs_assignment` is false): a repeated event makes one
/// change at most.
pub proof fn lemma_assignment_idempotent(before: Issue, after: Issue, user: String)
    requires
        after.assignees@ == before.assignees@.push(User { login: user }),
    ensures
        after.has_assignee(user@),
{
    assert(after.assignees@[before.assignees@.len() as int].login@ == user@);
}

/// What the tracker answered to an assignment.
pub enum AssignOutcome {
    Assigned,
    /// The user lacks the permission to be assigned in this repository.
    InvalidAssignee,
    /// Any other failure, with its description.
    Failed(String),
}

/// What follows an assignment attempt.
pub enum FollowUp {
    Done,
    /// Assign the bot instead and record the intended owner with this text.
    AssignBot { claim: String },
    /// Post this text.
    Comment(String),
}

/// Decides what follows an attempt to assign `username`: where the tracker
/// refuses the user, the bot is assigned and the user recorded as the owner
/// by a claim that points at `url`; any other failure is reported in a
/// comment, without a retry.
pub fn after_assignment(outcome: AssignOutcome, username: &str, url: &str) -> (r: FollowUp)
    ensures
        match outcome {
            AssignOutcome::Assigned => r is Done,
            AssignOutcome::InvalidAssignee => r matches FollowUp::AssignBot { claim } && claim@
                == claim_comment_spec(username@, url@),
            AssignOutcome::Failed(e) => r matches FollowUp::Comment(m) && m@ == failure_comment_spec(
                username@,
                e@,
            ),
        },
{
    match outcome {
        AssignOutcome::Assigned => FollowUp::Done,
        AssignOutcome::InvalidAssignee => FollowUp::AssignBot { claim: claim_comment(username, url) },
        AssignOutcome::Failed(e) => FollowUp::Comment(assignment_failure_comment(username, e.as_str())),
    }
}

/// What the tracker answered to adding a label.
pub enum LabelOutcome {
    Added,
    /// The label does not exist in the repository.
    UnknownLabels,
    /// Any other failure, with its description.
    Failed(String),
}

/// Whether handling goes on after adding a team label: it does where the
/// label was added or does not exist; any other failure stops it with that
/// error.
pub fn after_label(outcome: LabelOutcome) -> (r: Result<(), String>)
    ensures
        match outcome {
            LabelOutcome::Added => r is Ok,
            LabelOutcome::UnknownLabels => r is Ok,
            LabelOutcome::Failed(e) => r matches Err(m) && m@ == e@,
        },
{
    match outcome {
        LabelOutcome::Added => Ok(()),
        LabelOutcome::UnknownLabels => Ok(()),
        LabelOutcome::Failed(e) => Err(e),
    }
}

/// A request for `ghost` in the opening text resolves, and the only
/// assignee it can give is `ghost`, whatever the filters say.
pub proof fn lemma_ghost_request(teams: Teams, config: AssignConfig, issue: Issue, a: Seq<char>)
    ensures
        resolve_outcome(teams, config, issue, seq!["ghost"@]) is Ok,
        picked(resolve_outcome(teams, config, issue, seq!["ghost"@]), a) ==> a == "ghost"@,
{
    lemma_ghost_resolves(teams, config, issue);
    assert(seq!["ghost"@].contains("ghost"@)) by {
        assert(seq!["ghost"@][0] == "ghost"@);
    }
}

} // verus!
