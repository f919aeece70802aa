//! Assignment configuration and the team directory snapshot.
use vstd::prelude::*;
use crate::text::{views, same_login, eq_ignore_case};

verus! {

/// No key occurs twice.
pub open spec fn unique_keys(keys: Seq<Seq<char>>) -> bool {
    forall|i: int, j: int|
        0 <= i < keys.len() && 0 <= j < keys.len() && keys[i] == keys[j] ==> i == j
}

/// The position of `k` among `keys`, or -1 where it is absent.
pub open spec fn key_index(keys: Seq<Seq<char>>, k: Seq<char>) -> int {
    if exists|i: int| 0 <= i < keys.len() && keys[i] == k {
        choose|i: int| 0 <= i < keys.len() && keys[i] == k
    } else {
        -1
    }
}

/// A list of names keyed by a name: an ownership pattern or a group.
pub type Entry = (String, Vec<String>);

pub open spec fn entry_keys(e: Seq<Entry>) -> Seq<Seq<char>> {
    e.map_values(|x: Entry| x.0@)
}

pub open spec fn entry_names(e: Seq<Entry>, i: int) -> Seq<Seq<char>> {
    views(e[i].1@)
}

/// A team of the directory and the logins of its direct members.
pub struct Team {
    pub name: String,
    pub members: Vec<String>,
}

/// The team directory at the time of a resolution.
pub struct Teams {
    pub teams: Vec<Team>,
}

impl Teams {
    pub open spec fn keys(&self) -> Seq<Seq<char>> {
        self.teams@.map_values(|t: Team| t.name@)
    }

    pub open spec fn members_of(&self, i: int) -> Seq<Seq<char>> {
        views(self.teams@[i].members@)
    }

    /// Team names are unique.
    pub open spec fn wf(&self) -> bool {
        unique_keys(self.keys())
    }

    /// The position of the team named `name`, if any.
    pub fn find(&self, name: &String) -> (r: Option<usize>)
        requires
            self.wf(),
        ensures
            match r {
                Some(i) => i as int == key_index(self.keys(), name@) && i < self.teams@.len(),
                None => key_index(self.keys(), name@) == -1,
            },
    {
        let mut i: usize = 0;
        while i < self.teams.len()
            invariant
                self.wf(),
                0 <= i <= self.teams@.len(),
                forall|j: int| 0 <= j < i ==> self.keys()[j] != name@,
            decreases self.teams@.len() - i,
        {
            if self.teams[i].name == *name {
                assert(self.keys()[i as int] == name@);
                return Some(i);
            }
            i = i + 1;
        }
        assert(!exists|j: int| 0 <= j < self.keys().len() && self.keys()[j] == name@);
        None
    }
}

/// Assignment settings of a repository.
pub struct AssignConfig {
    /// Path patterns, in gitignore syntax, and the names that own them.
    pub owners: Vec<Entry>,
    /// Named groups of assignees.
    pub adhoc_groups: Vec<Entry>,
    /// Users who are not to be assigned for now.
    pub users_on_vacation: Vec<String>,
    /// Where the contribution guide lives, if anywhere.
    pub contributing_url: Option<String>,
}

impl AssignConfig {
    /// Owner patterns and group names are unique.
    pub open spec fn wf(&self) -> bool {
        unique_keys(entry_keys(self.owners@)) && unique_keys(entry_keys(self.adhoc_groups@))
    }

    pub open spec fn group_keys(&self) -> Seq<Seq<char>> {
        entry_keys(self.adhoc_groups@)
    }

    pub open spec fn vacationing(&self, user: Seq<char>) -> bool {
        exists|i: int|
            0 <= i < self.users_on_vacation@.len() && same_login(self.users_on_vacation@[i]@, user)
    }

    /// Whether `user` is on the vacation list, ignoring case.
    pub fn is_on_vacation(&self, user: &str) -> (r: bool)
        ensures
            r == self.vacationing(user@),
    {
        let mut i: usize = 0;
        while i < self.users_on_vacation.len()
            invariant
                0 <= i <= self.users_on_vacation@.len(),
                forall|j: int| 0 <= j < i ==> !same_login(self.users_on_vacation@[j]@, user@),
            decreases self.users_on_vacation@.len() - i,
        {
            if eq_ignore_case(self.users_on_vacation[i].as_str(), user) {
                return true;
            }
            i = i + 1;
        }
        false
    }

    /// The position of the group named `name`, if any.
    pub fn find_group(&self, name: &String) -> (r: Option<usize>)
        requires
            self.wf(),
        ensures
            match r {
                Some(i) => i as int == key_index(self.group_keys(), name@) && i
                    < self.adhoc_groups@.len(),
                None => key_index(self.group_keys(), name@) == -1,
            },
    {
        let mut i: usize = 0;
        while i < self.adhoc_groups.len()
            invariant
                self.wf(),
                0 <= i <= self.adhoc_groups@.len(),
                forall|j: int| 0 <= j < i ==> self.group_keys()[j] != name@,
            decreases self.adhoc_groups@.len() - i,
        {
            if self.adhoc_groups[i].0 == *name {
                assert(self.group_keys()[i as int] == name@);
                return Some(i);
            }
            i = i + 1;
        }
        assert(!exists|j: int| 0 <= j < self.group_keys().len() && self.group_keys()[j] == name@);
        None
    }
}

} // verus!
