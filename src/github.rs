//! The tracker's view of users, labels, issues and comments.
use vstd::prelude::*;
use crate::text::{same_login, eq_ignore_case};

verus! {

/// A tracker account.
pub struct User {
    pub login: String,
}

/// A label that an issue may carry.
#[derive(Clone)]
pub struct Label {
    pub name: String,
}

/// A snapshot of an issue or pull request, read at resolution time.
pub struct Issue {
    pub number: u64,
    pub title: String,
    /// The author.
    pub user: User,
    pub labels: Vec<Label>,
    pub assignees: Vec<User>,
    /// The repository's API address.
    pub repository_url: String,
    /// The organization that owns the repository.
    pub organization: String,
    pub is_pr: bool,
    pub is_open: bool,
    /// The opening text.
    pub body: String,
}

/// A comment on an issue.
pub struct Comment {
    pub body: String,
    pub user: User,
}

impl Issue {
    /// The logins of the current assignees.
    pub open spec fn assignee_logins(&self) -> Seq<Seq<char>> {
        self.assignees@.map_values(|u: User| u.login@)
    }

    /// `user` is among the assignees, ignoring case.
    pub open spec fn has_assignee(&self, user: Seq<char>) -> bool {
        exists|i: int| 0 <= i < self.assignees@.len() && same_login(self.assignees@[i].login@, user)
    }

    pub fn labels(&self) -> (r: &[Label])
        ensures
            r@ == self.labels@,
    {
        self.labels.as_slice()
    }

    /// Whether `user` is already assigned, ignoring case.
    pub fn contain_assignee(&self, user: &str) -> (r: bool)
        ensures
            r == self.has_assignee(user@),
    {
        let mut i: usize = 0;
        while i < self.assignees.len()
            invariant
                0 <= i <= self.assignees@.len(),
                forall|j: int| 0 <= j < i ==> !same_login(self.assignees@[j].login@, user@),
            decreases self.assignees@.len() - i,
        {
            if eq_ignore_case(self.assignees[i].login.as_str(), user) {
                return true;
            }
            i = i + 1;
        }
        false
    }
}

} // verus!

verus! {

/// One changed file of a pull request and its unified diff.
pub struct FileDiff {
    pub path: String,
    pub diff: String,
}

} // verus!
