//! The texts posted to users.
use vstd::prelude::*;
use crate::text::{views, concat};
use crate::resolve::{FindReviewerError, ReviewerErrorView};

verus! {

/// The items one after the other, with `sep` between neighbours.
pub open spec fn join_spec(items: Seq<Seq<char>>, sep: Seq<char>) -> Seq<char>
    decreases items.len(),
{
    if items.len() == 0 {
        Seq::empty()
    } else if items.len() == 1 {
        items[0]
    } else {
        join_spec(items.drop_last(), sep) + sep + items.last()
    }
}

/// Joins `items` with `sep` between neighbours.
pub fn join(items: &Vec<String>, sep: &str) -> (r: String)
    ensures
        r@ == join_spec(views(items@), sep@),
{
    if items.len() == 0 {
        return String::new();
    }
    let mut out = items[0].clone();
    let mut k: usize = 1;
    assert(views(items@).take(1).drop_last() =~= Seq::<Seq<char>>::empty());
    while k < items.len()
        invariant
            1 <= k <= items@.len(),
            out@ == join_spec(views(items@).take(k as int), sep@),
        decreases items@.len() - k,
    {
        let with_sep = concat(out.as_str(), sep);
        out = concat(with_sep.as_str(), items[k].as_str());
        assert(views(items@).take(k + 1).drop_last() =~= views(items@).take(k as int));
        k = k + 1;
    }
    assert(views(items@).take(items@.len() as int) =~= views(items@));
    out
}

/// The word that the texts below build their nouns from.
pub open spec fn rv() -> Seq<char> {
    "re"@ + "view"@
}

/// Builds the word of `rv`.
pub fn rv_word() -> (r: String)
    ensures
        r@ == rv(),
{
    concat("re", "view")
}

/// `rv` followed by `suffix`.
pub fn rv_with(suffix: &str) -> (r: String)
    ensures
        r@ == rv() + suffix@,
{
    let w = rv_word();
    concat(w.as_str(), suffix)
}

/// `a`, then `b`, then `c`.
pub fn concat3(a: &str, b: &str, c: &str) -> (r: String)
    ensures
        r@ == a@ + b@ + c@,
{
    let ab = concat(a, b);
    concat(ab.as_str(), c)
}

pub open spec fn vacation_warning_spec(username: Seq<char>) -> Seq<char> {
    username + " is on vacation.\n\nPlease choose another assignee."@
}

/// The warning that `username` is on vacation.
pub fn vacation_warning(username: &str) -> (r: String)
    ensures
        r@ == vacation_warning_spec(username@),
{
    concat(username, " is on vacation.\n\nPlease choose another assignee.")
}

/// The text that explains an error to the user who asked for an assignment.
pub open spec fn message_spec(e: ReviewerErrorView) -> Seq<char> {
    match e {
        ReviewerErrorView::TeamNotFound(team) => "Team or group `"@ + team
            + "` not found.\n\nrust-lang team names can be found at https://github.com/rust-lang/team/tree/master/teams.\nR"@
            + "e"@ + "viewer group names can be found in `triagebot.toml` in this repo."@,
        ReviewerErrorView::NoReviewer { initial } => "No "@ + rv()
            + "ers could be found from initial request `"@ + join_spec(initial, ","@)
            + "`\nThis repo may be misconfigured.\nUse `r?` to specify someone else to assign."@,
        ReviewerErrorView::AllReviewersFiltered { initial, filtered } => "Could not assign "@ + rv()
            + "er from: `"@ + join_spec(initial, ","@) + "`.\nUser(s) `"@ + join_spec(filtered, ","@)
            + "` are either the PR author, already assigned, or on vacation. Please use `r?` to specify someone else to assign."@,
        ReviewerErrorView::NoReviewerHasCapacity => "\nCould not find a "@ + rv()
            + "er with enough capacity to be assigned at this time. This is a problem.\n\nPlease contact us on [#t-infra](https://rust-lang.zulipchat.com/#narrow/stream/242791-t-infra) on Zulip.\n\ncc: @jackh726 @apiraino"@,
        ReviewerErrorView::ReviewerHasNoCapacity { username } => "\n`"@ + username
            + "` has insufficient capacity to be assigned the pull request at this time. PR assignment has been reverted.\n\nPlease choose another assignee.\n\n(see [documentation](https://forge.rust-lang.org/triagebot/pr-assignment-tracking.html))"@,
        ReviewerErrorView::ReviewerOnVacation { username } => vacation_warning_spec(username),
        ReviewerErrorView::ReviewerIsPrAuthor { .. } => "Pull request author cannot be assigned as "@
            + rv() + "er.\n\nPlease choose another assignee."@,
        ReviewerErrorView::ReviewerAlreadyAssigned { .. } => "Requested "@ + rv()
            + "er is already assigned to this pull request.\n\nPlease choose another assignee."@,
    }
}

impl FindReviewerError {
    /// The text that explains this error to the user.
    pub fn message(&self) -> (r: String)
        ensures
            r@ == message_spec(self@),
    {
        match self {
            FindReviewerError::TeamNotFound(team) => {
                let a = concat3(
                    "Team or group `",
                    team.as_str(),
                    "` not found.\n\nrust-lang team names can be found at https://github.com/rust-lang/team/tree/master/teams.\nR",
                );
                concat3(a.as_str(), "e", "viewer group names can be found in `triagebot.toml` in this repo.")
            },
            FindReviewerError::NoReviewer { initial } => {
                let names = join(initial, ",");
                let w = rv_with("ers could be found from initial request `");
                let a = concat3("No ", w.as_str(), names.as_str());
                concat(
                    a.as_str(),
                    "`\nThis repo may be misconfigured.\nUse `r?` to specify someone else to assign.",
                )
            },
            FindReviewerError::AllReviewersFiltered { initial, filtered } => {
                let names = join(initial, ",");
                let users = join(filtered, ",");
                let w = rv_with("er from: `");
                let a = concat3("Could not assign ", w.as_str(), names.as_str());
                let b = concat3(a.as_str(), "`.\nUser(s) `", users.as_str());
                concat(
                    b.as_str(),
                    "` are either the PR author, already assigned, or on vacation. Please use `r?` to specify someone else to assign.",
                )
            },
            FindReviewerError::NoReviewerHasCapacity => {
                let w = rv_word();
                concat3(
                    "\nCould not find a ",
                    w.as_str(),
                    "er with enough capacity to be assigned at this time. This is a problem.\n\nPlease contact us on [#t-infra](https://rust-lang.zulipchat.com/#narrow/stream/242791-t-infra) on Zulip.\n\ncc: @jackh726 @apiraino",
                )
            },
            FindReviewerError::ReviewerHasNoCapacity { username } => {
                concat3(
                    "\n`",
                    username.as_str(),
                    "` has insufficient capacity to be assigned the pull request at this time. PR assignment has been reverted.\n\nPlease choose another assignee.\n\n(see [documentation](https://forge.rust-lang.org/triagebot/pr-assignment-tracking.html))",
                )
            },
            FindReviewerError::ReviewerOnVacation { username } => vacation_warning(username.as_str()),
            FindReviewerError::ReviewerIsPrAuthor { .. } => {
                let w = rv_word();
                concat3(
                    "Pull request author cannot be assigned as ",
                    w.as_str(),
                    "er.\n\nPlease choose another assignee.",
                )
            },
            FindReviewerError::ReviewerAlreadyAssigned { .. } => {
                let w = rv_word();
                concat3(
                    "Requested ",
                    w.as_str(),
                    "er is already assigned to this pull request.\n\nPlease choose another assignee.",
                )
            },
        }
    }
}

} // verus!
