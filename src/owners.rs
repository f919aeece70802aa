//! Candidate owners of a pull request, from the files that it changes.
use vstd::prelude::*;
use vstd::assert_sets_equal;
use crate::text::{views, starts_with, strip, to_chars};
use crate::config::{AssignConfig, Entry, entry_keys, entry_names};
use crate::github::FileDiff;

verus! {

/// What gitignore matching says of `path` under the single pattern
/// `pattern` (rooted at `/`, the path or any of its parents): `None` where the
/// pattern does not compile.
pub uninterp spec fn gitignore_match(pattern: Seq<char>, path: Seq<char>) -> Option<bool>;

/// A path that the matcher accepts: once a leading `./` and the root are
/// taken off, it must not still begin at the root.
pub open spec fn matchable_path(path: Seq<char>) -> bool {
    !starts_with(strip(path, "./"@), "///"@)
}

/// Whether the matcher accepts `path`.
pub fn matchable_path_exec(path: &str) -> (r: bool)
    ensures
        r == matchable_path(path@),
{
    let rest = crate::text::strip_or_keep(path, "./");
    crate::text::strip_prefix(rest.as_str(), "///").is_none()
}

/// Relies on `ignore::gitignore::GitignoreBuilder` (`new("/")`, `add_line`,
/// `build`) and `Gitignore::matched_path_or_any_parents(path, false)`: whether
/// the one-line gitignore made of `pattern` ignores `path`, or `None` where the
/// pattern does not compile. The matcher asserts that the path, stripped of
/// `./` and of the root, is no longer rooted.
#[verifier::external_body]
fn pattern_matches(pattern: &str, path: &str) -> (r: Option<bool>)
    requires
        matchable_path(path@),
    ensures
        r == gitignore_match(pattern@, path@),
{
    let mut builder = ignore::gitignore::GitignoreBuilder::new("/");
    match builder.add_line(None, pattern) {
        Err(_) => None,
        Ok(b) => match b.build() {
            Err(_) => None,
            Ok(g) => Some(g.matched_path_or_any_parents(path, false).is_ignore()),
        },
    }
}

/// The number of times `c` occurs among the first `n` characters of `s`.
pub open spec fn char_count(s: Seq<char>, c: char, n: int) -> nat
    decreases n,
{
    if n <= 0 {
        0
    } else {
        char_count(s, c, n - 1) + if s[n - 1] == c {
            1nat
        } else {
            0nat
        }
    }
}

/// The number of `/`-separated segments of a pattern.
pub open spec fn pattern_depth(p: Seq<char>) -> nat {
    char_count(p, '/', p.len() as int) + 1
}

/// Position `p` of `s` begins a line.
pub open spec fn line_start(s: Seq<char>, p: int) -> bool {
    p == 0 || s[p - 1] == '\n'
}

/// The line at `p` is an added line (`+`, not `+++`) or a removed line
/// (`-`, not `---`).
pub open spec fn changed_at(s: Seq<char>, p: int) -> bool {
    let c = s[p];
    (c == '+' || c == '-') && !(s.len() - p > 2 && s[p + 1] == c && s[p + 2] == c)
}

/// The number of changed lines that begin among the first `n` characters.
pub open spec fn changed_before(s: Seq<char>, n: int) -> nat
    decreases n,
{
    if n <= 0 {
        0
    } else {
        changed_before(s, n - 1) + if line_start(s, n - 1) && changed_at(s, n - 1) {
            1nat
        } else {
            0nat
        }
    }
}

/// The number of added and removed lines of a diff, headers left out.
pub open spec fn changed_lines(s: Seq<char>) -> nat {
    changed_before(s, s.len() as int)
}

pub proof fn lemma_changed_before_bound(s: Seq<char>, n: int)
    requires
        0 <= n,
    ensures
        changed_before(s, n) <= n,
    decreases n,
{
    if n > 0 {
        lemma_changed_before_bound(s, n - 1);
    }
}

/// Counts the added and removed lines of a diff.
pub fn count_changed_lines(diff: &str) -> (r: u64)
    ensures
        r == changed_lines(diff@),
{
    let s = to_chars(diff);
    let mut count: u64 = 0;
    let mut p: usize = 0;
    while p < s.len()
        invariant
            s@ == diff@,
            0 <= p <= s@.len(),
            count == changed_before(s@, p as int),
            changed_before(s@, p as int) <= p,
        decreases s@.len() - p,
    {
        let start = p == 0 || s[p - 1] == '\n';
        let c = s[p];
        let changed = (c == '+' || c == '-') && !(s.len() - p > 2 && s[p + 1] == c && s[p + 2] == c);
        if start && changed {
            count = count + 1;
        }
        p = p + 1;
    }
    count
}

/// Counts the `/` characters of a pattern: one less than its segments.
pub fn count_slashes(pattern: &str) -> (r: usize)
    ensures
        r + 1 == pattern_depth(pattern@),
{
    let s = to_chars(pattern);
    let mut count: usize = 0;
    let mut p: usize = 0;
    while p < s.len()
        invariant
            s@ == pattern@,
            0 <= p <= s@.len(),
            count == char_count(s@, '/', p as int),
            count <= p,
        decreases s@.len() - p,
    {
        if s[p] == '/' {
            count = count + 1;
        }
        p = p + 1;
    }
    count
}

/// An ownership pattern that does not compile.
pub struct ConfigurationError {
    pub pattern: String,
}

/// The `i`th ownership pattern compiles against `path`.
pub open spec fn pattern_compiles(owners: Seq<Entry>, i: int, path: Seq<char>) -> bool {
    gitignore_match(entry_keys(owners)[i], path) is Some
}

/// The `i`th ownership pattern matches `path` or one of its parents.
pub open spec fn owner_matches(owners: Seq<Entry>, i: int, path: Seq<char>) -> bool {
    gitignore_match(entry_keys(owners)[i], path) == Some(true)
}

/// The `i`th pattern matches `path` and no matching pattern is deeper.
pub open spec fn longest_match(owners: Seq<Entry>, i: int, path: Seq<char>) -> bool {
    &&& owner_matches(owners, i, path)
    &&& forall|j: int|
        0 <= j < owners.len() && owner_matches(owners, j, path) ==> pattern_depth(
            entry_keys(owners)[j],
        ) <= pattern_depth(entry_keys(owners)[i])
}

/// What one file adds to the weight of the `i`th pattern: one for being
/// touched and one per changed line, where the pattern is among the deepest
/// that match it.
pub open spec fn file_weight(owners: Seq<Entry>, f: FileDiff, i: int) -> nat {
    if longest_match(owners, i, f.path@) {
        1 + changed_lines(f.diff@)
    } else {
        0
    }
}

/// The weight of the `i`th pattern over all files.
pub open spec fn owner_weight(owners: Seq<Entry>, files: Seq<FileDiff>, i: int) -> nat
    decreases files.len(),
{
    if files.len() == 0 {
        0
    } else {
        owner_weight(owners, files.drop_last(), i) + file_weight(owners, files.last(), i)
    }
}

/// One more than the length of each diff, summed: a bound on every weight.
pub open spec fn diff_size(files: Seq<FileDiff>) -> nat
    decreases files.len(),
{
    if files.len() == 0 {
        0
    } else {
        diff_size(files.drop_last()) + 1 + files.last().diff@.len()
    }
}

/// Every ownership pattern compiles against every changed path.
pub open spec fn all_compile(owners: Seq<Entry>, files: Seq<FileDiff>) -> bool {
    forall|f: int, i: int|
        0 <= f < files.len() && 0 <= i < owners.len() ==> (pattern_compiles(owners, i, files[f].path@))
}

/// The `i`th pattern has a positive weight that no other pattern exceeds.
pub open spec fn winning(owners: Seq<Entry>, files: Seq<FileDiff>, i: int) -> bool {
    &&& owner_weight(owners, files, i) > 0
    &&& forall|j: int|
        0 <= j < owners.len() ==> owner_weight(owners, files, j) <= owner_weight(owners, files, i)
}

/// The names listed for the winning patterns.
pub open spec fn diff_owner_names(owners: Seq<Entry>, files: Seq<FileDiff>) -> Set<Seq<char>> {
    Set::new(
        |n: Seq<char>|
            exists|i: int|
                0 <= i < owners.len() && winning(owners, files, i) && entry_names(owners, i).contains(n),
    )
}

pub proof fn lemma_weight_bound(owners: Seq<Entry>, files: Seq<FileDiff>, i: int)
    ensures
        owner_weight(owners, files, i) <= diff_size(files),
    decreases files.len(),
{
    if files.len() > 0 {
        lemma_weight_bound(owners, files.drop_last(), i);
        let d = files.last().diff@;
        lemma_changed_before_bound(d, d.len() as int);
    }
}

pub proof fn lemma_diff_size_prefix(files: Seq<FileDiff>, k: int)
    requires
        0 <= k <= files.len(),
    ensures
        diff_size(files.take(k)) <= diff_size(files),
    decreases files.len(),
{
    if k == files.len() {
        assert(files.take(k) =~= files);
    } else {
        assert(files.take(k) =~= files.drop_last().take(k));
        lemma_diff_size_prefix(files.drop_last(), k);
    }
}

/// Which ownership patterns match `path`, or the first pattern that does not
/// compile.
fn path_matches(owners: &Vec<Entry>, path: &String) -> (r: Result<Vec<bool>, ConfigurationError>)
    requires
        matchable_path(path@),
    ensures
        match r {
            Ok(m) => {
                &&& m@.len() == owners@.len()
                &&& forall|i: int| 0 <= i < owners@.len() ==> pattern_compiles(owners@, i, path@)
                &&& forall|i: int| 0 <= i < owners@.len() ==> m@[i] == owner_matches(owners@, i, path@)
            },
            Err(e) => exists|i: int|
                0 <= i < owners@.len() && !pattern_compiles(owners@, i, path@)
                    && e.pattern@ == entry_keys(owners@)[i],
        },
{
    let mut m: Vec<bool> = Vec::new();
    let mut i: usize = 0;
    while i < owners.len()
        invariant
            matchable_path(path@),
            0 <= i <= owners@.len(),
            m@.len() == i,
            forall|j: int| 0 <= j < i ==> pattern_compiles(owners@, j, path@),
            forall|j: int| 0 <= j < i ==> m@[j] == owner_matches(owners@, j, path@),
        decreases owners@.len() - i,
    {
        assert(entry_keys(owners@)[i as int] == owners@[i as int].0@);
        let r = pattern_matches(owners[i].0.as_str(), path.as_str());
        if r.is_none() {
            return Err(ConfigurationError { pattern: owners[i].0.clone() });
        }
        let b = r.unwrap();
        let ghost before = m@;
        m.push(b);
        assert forall|j: int| 0 <= j < i + 1 implies (pattern_compiles(owners@, j, path@)
            && m@[j] == owner_matches(owners@, j, path@)) by {
            if j < i {
                assert(m@[j] == before[j]);
            }
        }
        i = i + 1;
    }
    Ok(m)
}

/// The weight of every ownership pattern over the changed files, or the
/// first pattern that does not compile.
fn owner_weights(owners: &Vec<Entry>, diff: &[FileDiff]) -> (r: Result<Vec<u64>, ConfigurationError>)
    requires
        forall|f: int| 0 <= f < diff@.len() ==> matchable_path(#[trigger] diff@[f].path@),
        diff_size(diff@) <= u64::MAX,
    ensures
        match r {
            Ok(c) => all_compile(owners@, diff@) && c@.len() == owners@.len() && forall|i: int|
                0 <= i < owners@.len() ==> c@[i] == owner_weight(owners@, diff@, i),
            Err(e) => exists|f: int, i: int|
                0 <= f < diff@.len() && 0 <= i < owners@.len() && !pattern_compiles(owners@, i, diff@[f].path@) && e.pattern@ == entry_keys(owners@)[i],
        },
{
    let mut slashes: Vec<usize> = Vec::new();
    let mut counts: Vec<u64> = Vec::new();
    let mut i: usize = 0;
    while i < owners.len()
        invariant
            0 <= i <= owners@.len(),
            slashes@.len() == i,
            counts@.len() == i,
            forall|j: int| 0 <= j < i ==> slashes@[j] + 1 == pattern_depth(entry_keys(owners@)[j]),
            forall|j: int| 0 <= j < i ==> counts@[j] == 0,
        decreases owners@.len() - i,
    {
        assert(entry_keys(owners@)[i as int] == owners@[i as int].0@);
        slashes.push(count_slashes(owners[i].0.as_str()));
        counts.push(0);
        i = i + 1;
    }
    let mut fi: usize = 0;
    while fi < diff.len()
        invariant
            forall|f: int| 0 <= f < diff@.len() ==> matchable_path(#[trigger] diff@[f].path@),
            diff_size(diff@) <= u64::MAX,
            0 <= fi <= diff@.len(),
            slashes@.len() == owners@.len(),
            counts@.len() == owners@.len(),
            forall|j: int|
                0 <= j < owners@.len() ==> slashes@[j] + 1 == pattern_depth(entry_keys(owners@)[j]),
            forall|j: int|
                0 <= j < owners@.len() ==> counts@[j] == owner_weight(owners@, diff@.take(fi as int), j),
            forall|f: int, j: int|
                0 <= f < fi && 0 <= j < owners@.len() ==> (pattern_compiles(owners@, j, diff@[f].path@)),
        decreases diff@.len() - fi,
    {
        let file = &diff[fi];
        let m = match path_matches(owners, &file.path) {
            Ok(m) => m,
            Err(e) => {
                return Err(e);
            },
        };
        let ghost path = file.path@;
        let mut maxd: usize = 0;
        let mut any: bool = false;
        let mut k: usize = 0;
        while k < owners.len()
            invariant
                0 <= k <= owners@.len(),
                fi < diff@.len(),
                path == diff@[fi as int].path@,
                m@.len() == owners@.len(),
                slashes@.len() == owners@.len(),
                forall|j: int| 0 <= j < owners@.len() ==> pattern_compiles(owners@, j, path),
                forall|j: int| 0 <= j < owners@.len() ==> m@[j] == owner_matches(owners@, j, path),
                forall|j: int| 0 <= j < k && m@[j] ==> slashes@[j] <= maxd,
                any ==> exists|j: int| 0 <= j < k && m@[j] && (slashes@[j] == maxd),
                !any ==> forall|j: int| 0 <= j < k ==> !m@[j],
            decreases owners@.len() - k,
        {
            if m[k] && (!any || slashes[k] > maxd) {
                maxd = slashes[k];
                any = true;
            }
            k = k + 1;
        }
        let lines = count_changed_lines(file.diff.as_str());
        let ghost prev = diff@.take(fi as int);
        let ghost next = diff@.take(fi + 1);
        proof {
            assert(next.len() == fi + 1);
            assert(next.drop_last() =~= prev);
            assert(next.last() == diff@[fi as int]);
            lemma_diff_size_prefix(diff@, fi + 1);
        }
        let mut k: usize = 0;
        while k < owners.len()
            invariant
                0 <= k <= owners@.len(),
                fi < diff@.len(),
                diff_size(next) <= u64::MAX,
                next.len() > 0,
                next.drop_last() == prev,
                next.last() == diff@[fi as int],
                path == diff@[fi as int].path@,
                lines == changed_lines(diff@[fi as int].diff@),
                m@.len() == owners@.len(),
                slashes@.len() == owners@.len(),
                counts@.len() == owners@.len(),
                forall|j: int|
                    0 <= j < owners@.len() ==> slashes@[j] + 1 == pattern_depth(entry_keys(owners@)[j]),
                forall|j: int| 0 <= j < owners@.len() ==> pattern_compiles(owners@, j, path),
                forall|j: int| 0 <= j < owners@.len() ==> m@[j] == owner_matches(owners@, j, path),
                forall|j: int| 0 <= j < owners@.len() && m@[j] ==> slashes@[j] <= maxd,
                any ==> exists|j: int| 0 <= j < owners@.len() && m@[j] && (slashes@[j] == maxd),
                !any ==> forall|j: int| 0 <= j < owners@.len() ==> !m@[j],
                forall|j: int| 0 <= j < k ==> counts@[j] == owner_weight(owners@, next, j),
                forall|j: int| k <= j < owners@.len() ==> counts@[j] == owner_weight(owners@, prev, j),
            decreases owners@.len() - k,
        {
            let ghost longest = longest_match(owners@, k as int, path);
            assert(longest <==> (m@[k as int] && (slashes@[k as int] == maxd))) by {
                if m@[k as int] && (slashes@[k as int] == maxd) {
                    assert forall|j: int|
                        0 <= j < owners@.len() && owner_matches(owners@, j, path) implies pattern_depth(
                        entry_keys(owners@)[j],
                    ) <= pattern_depth(entry_keys(owners@)[k as int]) by {
                        assert(m@[j]);
                    }
                }
                if longest {
                    assert(m@[k as int]);
                    assert(any);
                    let j0 = choose|j: int| 0 <= j < owners@.len() && m@[j] && (slashes@[j] == maxd);
                    assert(owner_matches(owners@, j0, path));
                    assert(pattern_depth(entry_keys(owners@)[j0]) <= pattern_depth(
                        entry_keys(owners@)[k as int],
                    ));
                    assert(slashes@[k as int] <= maxd);
                }
            }
            proof {
                lemma_weight_bound(owners@, next, k as int);
            }
            assert(owner_weight(owners@, next, k as int) == owner_weight(owners@, prev, k as int)
                + file_weight(owners@, diff@[fi as int], k as int));
            if m[k] && slashes[k] == maxd {
                counts.set(k, counts[k] + 1 + lines);
            }
            k = k + 1;
        }
        proof {
            assert forall|f: int, j: int|
                0 <= f < fi + 1 && 0 <= j < owners@.len() implies (pattern_compiles(owners@, j, diff@[f].path@)) by {}
        }
        fi = fi + 1;
    }
    assert(diff@.take(diff@.len() as int) =~= diff@);
    Ok(counts)
}

/// Code-point order on character sequences, which is the byte order of
/// their UTF-8 encodings.
pub open spec fn str_lt(a: Seq<char>, b: Seq<char>) -> bool
    decreases a.len(),
{
    if b.len() == 0 {
        false
    } else if a.len() == 0 {
        true
    } else if a[0] != b[0] {
        (a[0] as u32) < (b[0] as u32)
    } else {
        str_lt(a.drop_first(), b.drop_first())
    }
}

/// No element is smaller than one before it.
pub open spec fn sorted_names(s: Seq<Seq<char>>) -> bool {
    forall|i: int, j: int| 0 <= i < j < s.len() ==> !str_lt(s[j], s[i])
}

/// No two neighbours are equal.
pub open spec fn no_adjacent_repeats(s: Seq<Seq<char>>) -> bool {
    forall|i: int| 0 <= i < s.len() - 1 ==> #[trigger] s[i] != s[i + 1]
}

proof fn lemma_str_lt_irreflexive(a: Seq<char>)
    ensures
        !str_lt(a, a),
    decreases a.len(),
{
    if a.len() > 0 {
        lemma_str_lt_irreflexive(a.drop_first());
    }
}

proof fn lemma_str_lt_total(a: Seq<char>, b: Seq<char>)
    ensures
        a != b ==> str_lt(a, b) || str_lt(b, a),
        !(str_lt(a, b) && str_lt(b, a)),
    decreases a.len(),
{
    if a.len() > 0 && b.len() > 0 {
        lemma_str_lt_total(a.drop_first(), b.drop_first());
        if a[0] != b[0] {
            vstd::utf8::char_u32_cast(a[0], a[0] as u32);
            vstd::utf8::char_u32_cast(b[0], b[0] as u32);
        }
        if a[0] == b[0] && a != b {
            assert(a =~= seq![a[0]] + a.drop_first());
            assert(b =~= seq![b[0]] + b.drop_first());
        }
    } else if a.len() == 0 && b.len() == 0 {
        assert(a =~= b);
    }
}

proof fn lemma_str_lt_transitive(a: Seq<char>, b: Seq<char>, c: Seq<char>)
    requires
        str_lt(a, b),
        str_lt(b, c),
    ensures
        str_lt(a, c),
    decreases a.len(),
{
    if a.len() > 0 && a[0] == b[0] && b[0] == c[0] {
        lemma_str_lt_transitive(a.drop_first(), b.drop_first(), c.drop_first());
    }
}

/// Every element is smaller than every later one.
pub open spec fn strictly_sorted(s: Seq<Seq<char>>) -> bool {
    forall|i: int, j: int| 0 <= i < j < s.len() ==> str_lt(s[i], s[j])
}

proof fn lemma_strictly_sorted(s: Seq<Seq<char>>)
    requires
        sorted_names(s),
        no_adjacent_repeats(s),
    ensures
        strictly_sorted(s),
{
    assert forall|i: int, j: int| 0 <= i < j < s.len() implies str_lt(s[i], s[j]) by {
        lemma_strictly_sorted_from(s, i, j);
    }
}

proof fn lemma_strictly_sorted_from(s: Seq<Seq<char>>, i: int, j: int)
    requires
        sorted_names(s),
        no_adjacent_repeats(s),
        0 <= i < j < s.len(),
    ensures
        str_lt(s[i], s[j]),
    decreases j - i,
{
    lemma_str_lt_total(s[i], s[i + 1]);
    assert(s[i] != s[i + 1]);
    assert(!str_lt(s[i + 1], s[i]));
    if i + 1 < j {
        lemma_strictly_sorted_from(s, i + 1, j);
        lemma_str_lt_transitive(s[i], s[i + 1], s[j]);
    }
}

/// Two lists sorted without repeats that hold the same names are equal.
pub proof fn lemma_sorted_unique(a: Seq<Seq<char>>, b: Seq<Seq<char>>)
    requires
        sorted_names(a),
        no_adjacent_repeats(a),
        sorted_names(b),
        no_adjacent_repeats(b),
        a.to_set() == b.to_set(),
    ensures
        a == b,
{
    lemma_strictly_sorted(a);
    lemma_strictly_sorted(b);
    lemma_strict_unique(a, b);
}

proof fn lemma_strict_unique(a: Seq<Seq<char>>, b: Seq<Seq<char>>)
    requires
        strictly_sorted(a),
        strictly_sorted(b),
        a.to_set() == b.to_set(),
    ensures
        a == b,
    decreases a.len(),
{
    if a.len() == 0 {
        if b.len() > 0 {
            assert(a.to_set().contains(b[0]));
        }
        assert(a =~= b);
    } else {
        if b.len() == 0 {
            assert(b.to_set().contains(a[0]));
        }
        assert(b.to_set().contains(a[0]));
        assert(a.to_set().contains(b[0]));
        if a[0] != b[0] {
            let k = choose|k: int| 0 <= k < b.len() && b[k] == a[0];
            let m = choose|m: int| 0 <= m < a.len() && a[m] == b[0];
            assert(str_lt(b[0], a[0]));
            assert(str_lt(a[0], b[0]));
            lemma_str_lt_total(a[0], b[0]);
        }
        let ra = a.drop_first();
        let rb = b.drop_first();
        assert forall|x: Seq<char>| ra.to_set().contains(x) <==> rb.to_set().contains(x) by {
            if ra.to_set().contains(x) {
                let i = choose|i: int| 0 <= i < ra.len() && ra[i] == x;
                assert(a[i + 1] == x);
                assert(b.to_set().contains(x));
                let k = choose|k: int| 0 <= k < b.len() && b[k] == x;
                if k == 0 {
                    lemma_str_lt_irreflexive(a[0]);
                }
                assert(rb[k - 1] == x);
            }
            if rb.to_set().contains(x) {
                let i = choose|i: int| 0 <= i < rb.len() && rb[i] == x;
                assert(b[i + 1] == x);
                assert(a.to_set().contains(x));
                let k = choose|k: int| 0 <= k < a.len() && a[k] == x;
                if k == 0 {
                    lemma_str_lt_irreflexive(b[0]);
                }
                assert(ra[k - 1] == x);
            }
        }
        assert(ra.to_set() =~= rb.to_set());
        lemma_strict_unique(ra, rb);
        assert(a =~= seq![a[0]] + ra);
        assert(b =~= seq![b[0]] + rb);
    }
}

/// Relies on `slice::sort` over `String`s, which orders strings by their
/// bytes: the same strings, in ascending order.
#[verifier::external_body]
fn sort_names(v: &mut Vec<String>)
    ensures
        views(final(v)@).to_multiset() == views(old(v)@).to_multiset(),
        sorted_names(views(final(v)@)),
{
    v.sort()
}

/// The names listed for the winning patterns among the first `i`.
pub open spec fn winner_names_upto(owners: Seq<Entry>, files: Seq<FileDiff>, i: int) -> Set<Seq<char>>
    decreases i,
{
    if i <= 0 {
        Set::empty()
    } else {
        winner_names_upto(owners, files, i - 1) + if winning(owners, files, i - 1) {
            entry_names(owners, i - 1).to_set()
        } else {
            Set::empty()
        }
    }
}

proof fn lemma_winner_names_upto(owners: Seq<Entry>, files: Seq<FileDiff>, i: int)
    requires
        0 <= i <= owners.len(),
    ensures
        winner_names_upto(owners, files, i) == Set::new(
            |n: Seq<char>|
                exists|p: int|
                    0 <= p < i && winning(owners, files, p) && entry_names(owners, p).contains(n),
        ),
    decreases i,
{
    if i > 0 {
        lemma_winner_names_upto(owners, files, i - 1);
    }
    assert_sets_equal!(winner_names_upto(owners, files, i), Set::new(
            |n: Seq<char>|
                exists|p: int|
                    0 <= p < i && winning(owners, files, p) && entry_names(owners, p).contains(n),
        ), n => {
        if i > 0 && winner_names_upto(owners, files, i).contains(n) && !winner_names_upto(owners, files, i - 1).contains(n) {
            assert(winning(owners, files, i - 1) && entry_names(owners, i - 1).contains(n));
        }
        if exists|p: int| 0 <= p < i && winning(owners, files, p) && entry_names(owners, p).contains(n) {
            let p = choose|p: int| 0 <= p < i && winning(owners, files, p) && entry_names(owners, p).contains(n);
            if p < i - 1 {
                assert(winner_names_upto(owners, files, i - 1).contains(n));
            } else {
                assert(entry_names(owners, p).to_set().contains(n));
            }
        }
    });
}

/// `v` with each run of equal neighbours reduced to one.
fn dedup_sorted(v: &Vec<String>) -> (r: Vec<String>)
    requires
        sorted_names(views(v@)),
    ensures
        views(r@).to_set() == views(v@).to_set(),
        sorted_names(views(r@)),
        no_adjacent_repeats(views(r@)),
{
    let mut out: Vec<String> = Vec::new();
    let ghost mut idx: Seq<int> = Seq::empty();
    let mut k: usize = 0;
    while k < v.len()
        invariant
            sorted_names(views(v@)),
            0 <= k <= v@.len(),
            idx.len() == out@.len(),
            forall|a: int| 0 <= a < idx.len() ==> 0 <= #[trigger] idx[a] < k && out@[a]@ == v@[idx[a]]@,
            forall|a: int, b: int| 0 <= a < b < idx.len() ==> idx[a] < idx[b],
            forall|j: int| 0 <= j < k ==> views(out@).contains(#[trigger] v@[j]@),
            no_adjacent_repeats(views(out@)),
            k > 0 ==> out@.len() > 0 && out@.last()@ == v@[k - 1]@,
        decreases v@.len() - k,
    {
        let x = v[k].clone();
        let fresh = out.len() == 0 || out[out.len() - 1] != x;
        if fresh {
            let ghost before = out@;
            out.push(x);
            proof {
                idx = idx.push(k as int);
                assert(views(out@) =~= views(before).push(v@[k as int]@));
                assert forall|j: int| 0 <= j < k + 1 implies views(out@).contains(#[trigger] v@[j]@) by {
                    if j < k {
                        let a = choose|a: int| 0 <= a < views(before).len() && views(before)[a] == v@[j]@;
                        assert(views(out@)[a] == v@[j]@);
                    } else {
                        assert(views(out@)[out@.len() - 1] == v@[j]@);
                    }
                }
            }
        } else {
            proof {
                assert forall|j: int| 0 <= j < k + 1 implies views(out@).contains(#[trigger] v@[j]@) by {
                    if j == k {
                        assert(views(out@)[out@.len() - 1] == v@[j]@);
                    }
                }
            }
        }
        k = k + 1;
    }
    proof {
        assert_sets_equal!(views(out@).to_set(), views(v@).to_set(), n => {
            if views(out@).to_set().contains(n) {
                let a = choose|a: int| 0 <= a < views(out@).len() && views(out@)[a] == n;
                assert(views(v@)[idx[a]] == n);
            }
            if views(v@).to_set().contains(n) {
                let j = choose|j: int| 0 <= j < views(v@).len() && views(v@)[j] == n;
                assert(views(out@).contains(v@[j]@));
            }
        });
        assert forall|a: int, b: int| 0 <= a < b < views(out@).len() implies !str_lt(views(out@)[b], views(out@)[a]) by {
            assert(idx[a] < idx[b]);
            assert(views(v@)[idx[a]] == out@[a]@);
            assert(views(v@)[idx[b]] == out@[b]@);
        }
    }
    out
}

/// The list that the ownership table proposes for the changed files: the
/// names of the winning patterns, sorted, each once.
pub open spec fn diff_proposal_of(owners: Seq<Entry>, files: Seq<FileDiff>) -> Seq<Seq<char>> {
    choose|s: Seq<Seq<char>>|
        sorted_names(s) && no_adjacent_repeats(s) && s.to_set() == diff_owner_names(owners, files)
}

/// The candidates that the ownership table proposes for the changed files:
/// the names of every pattern of greatest weight, sorted, each once. A file
/// weighs on the deepest patterns that match it, one for being touched and one
/// per added or removed line. Empty where no pattern matches; an error where a
/// pattern does not compile.
pub fn find_reviewers_from_diff(config: &AssignConfig, diff: &[FileDiff]) -> (r: Result<
    Vec<String>,
    ConfigurationError,
>)
    requires
        forall|f: int| 0 <= f < diff@.len() ==> matchable_path(#[trigger] diff@[f].path@),
        diff_size(diff@) <= u64::MAX,
    ensures
        r is Ok <==> all_compile(config.owners@, diff@),
        r matches Err(e) ==> exists|f: int, i: int|
            0 <= f < diff@.len() && 0 <= i < config.owners@.len() && !pattern_compiles(
                config.owners@,
                i,
                diff@[f].path@,
            ) && e.pattern@ == entry_keys(config.owners@)[i],
        r matches Ok(v) ==> views(v@).to_set() == diff_owner_names(config.owners@, diff@),
        r matches Ok(v) ==> sorted_names(views(v@)),
        r matches Ok(v) ==> no_adjacent_repeats(views(v@)),
        r matches Ok(v) ==> views(v@) == diff_proposal_of(config.owners@, diff@),
{
    let owners = &config.owners;
    let counts = match owner_weights(owners, diff) {
        Ok(c) => c,
        Err(e) => {
            return Err(e);
        },
    };
    let mut maxw: u64 = 0;
    let mut k: usize = 0;
    while k < counts.len()
        invariant
            0 <= k <= counts@.len(),
            counts@.len() == owners@.len(),
            forall|j: int|
                0 <= j < owners@.len() ==> counts@[j] == owner_weight(owners@, diff@, j),
            forall|j: int| 0 <= j < k ==> counts@[j] <= maxw,
            maxw == 0 || exists|j: int| 0 <= j < k && counts@[j] == maxw,
        decreases counts@.len() - k,
    {
        if counts[k] > maxw {
            maxw = counts[k];
        }
        k = k + 1;
    }
    let ghost files = diff@;
    let mut potential: Vec<String> = Vec::new();
    let mut i: usize = 0;
    while i < owners.len()
        invariant
            0 <= i <= owners@.len(),
            counts@.len() == owners@.len(),
            forall|j: int| 0 <= j < owners@.len() ==> counts@[j] == owner_weight(owners@, files, j),
            forall|j: int| 0 <= j < owners@.len() ==> counts@[j] <= maxw,
            maxw == 0 || exists|j: int| 0 <= j < owners@.len() && counts@[j] == maxw,
            views(potential@).to_set() == winner_names_upto(owners@, files, i as int),
        decreases owners@.len() - i,
    {
        let win = counts[i] > 0 && counts[i] == maxw;
        assert(win == winning(owners@, files, i as int)) by {
            if win {
                assert forall|j: int| 0 <= j < owners@.len() implies owner_weight(owners@, files, j)
                    <= owner_weight(owners@, files, i as int) by {
                    assert(counts@[j] <= maxw);
                }
            }
            if winning(owners@, files, i as int) && maxw > 0 {
                let j = choose|j: int| 0 <= j < owners@.len() && counts@[j] == maxw;
                assert(counts@[j] <= counts@[i as int]);
            }
        }
        if win {
            let names = &owners[i].1;
            let mut q: usize = 0;
            while q < names.len()
                invariant
                    0 <= q <= names@.len(),
                    i < owners@.len(),
                    names@ == owners@[i as int].1@,
                    winning(owners@, files, i as int),
                    views(potential@).to_set() == winner_names_upto(owners@, files, i as int)
                        + views(names@).take(q as int).to_set(),
                decreases names@.len() - q,
            {
                let ghost before = potential@;
                let x = names[q].clone();
                potential.push(x);
                proof {
                    assert(views(potential@) =~= views(before).push(x@));
                    views(before).lemma_push_to_set_commute(x@);
                    assert(views(names@).take(q + 1) =~= views(names@).take(q as int).push(x@));
                    views(names@).take(q as int).lemma_push_to_set_commute(x@);
                    assert(views(potential@).to_set() =~= winner_names_upto(owners@, files, i as int)
                        + views(names@).take(q + 1).to_set());
                }
                q = q + 1;
            }
            assert(views(names@).take(names@.len() as int) =~= entry_names(owners@, i as int));
        } else {
            assert(winner_names_upto(owners@, files, i + 1) =~= winner_names_upto(owners@, files, i as int));
        }
        i = i + 1;
    }
    proof {
        lemma_winner_names_upto(owners@, files, owners@.len() as int);
        assert(winner_names_upto(owners@, files, owners@.len() as int) =~= diff_owner_names(owners@, files));
    }
    let ghost unsorted = views(potential@);
    sort_names(&mut potential);
    proof {
        broadcast use vstd::seq_lib::group_to_multiset_ensures;

        let a = views(potential@);
        assert_sets_equal!(a.to_set(), unsorted.to_set(), n => {
            assert(a.contains(n) <==> a.to_multiset().count(n) > 0);
            assert(unsorted.contains(n) <==> unsorted.to_multiset().count(n) > 0);
        });
    }
    let r = dedup_sorted(&potential);
    proof {
        let p = diff_proposal_of(owners@, files);
        assert(sorted_names(p) && no_adjacent_repeats(p) && p.to_set() == diff_owner_names(owners@, files));
        lemma_sorted_unique(views(r@), p);
    }
    Ok(r)
}

proof fn lemma_weight_keys(o1: Seq<Entry>, o2: Seq<Entry>, files: Seq<FileDiff>, i: int)
    requires
        entry_keys(o1) == entry_keys(o2),
        o1.len() == o2.len(),
    ensures
        owner_weight(o1, files, i) == owner_weight(o2, files, i),
    decreases files.len(),
{
    if files.len() > 0 {
        lemma_weight_keys(o1, o2, files.drop_last(), i);
        let f = files.last();
        assert forall|j: int| 0 <= j < o1.len() implies owner_matches(o1, j, f.path@)
            == owner_matches(o2, j, f.path@) && pattern_depth(entry_keys(o1)[j]) == pattern_depth(
            entry_keys(o2)[j],
        ) by {
            assert(entry_keys(o1)[j] == entry_keys(o2)[j]);
        }
        assert(entry_keys(o1)[i] == entry_keys(o2)[i]);
        assert(owner_matches(o1, i, f.path@) == owner_matches(o2, i, f.path@));
        assert(longest_match(o1, i, f.path@) == longest_match(o2, i, f.path@));
    }
}

/// Reordering the names listed for each pattern changes neither which
/// patterns compile and win nor the list of names proposed: only their
/// order before sorting.
pub proof fn lemma_owner_order_irrelevant(o1: Seq<Entry>, o2: Seq<Entry>, files: Seq<FileDiff>)
    requires
        o1.len() == o2.len(),
        forall|i: int| 0 <= i < o1.len() ==> #[trigger] o1[i].0@ == o2[i].0@,
        forall|i: int|
            0 <= i < o1.len() ==> #[trigger] views(o1[i].1@).to_multiset() == views(
                o2[i].1@,
            ).to_multiset(),
    ensures
        all_compile(o1, files) == all_compile(o2, files),
        forall|i: int| 0 <= i < o1.len() ==> winning(o1, files, i) == winning(o2, files, i),
        diff_owner_names(o1, files) == diff_owner_names(o2, files),
        diff_proposal_of(o1, files) == diff_proposal_of(o2, files),
{
    broadcast use vstd::seq_lib::group_to_multiset_ensures;

    assert(entry_keys(o1) =~= entry_keys(o2));
    assert forall|f: int, i: int|
        0 <= f < files.len() && 0 <= i < o1.len() implies pattern_compiles(o1, i, files[f].path@)
        == pattern_compiles(o2, i, files[f].path@) by {
        assert(entry_keys(o1)[i] == entry_keys(o2)[i]);
    }
    assert forall|i: int| 0 <= i < o1.len() implies winning(o1, files, i) == winning(o2, files, i) by {
        assert forall|j: int| 0 <= j < o1.len() implies owner_weight(o1, files, j) == owner_weight(
            o2,
            files,
            j,
        ) by {
            lemma_weight_keys(o1, o2, files, j);
        }
    }
    assert_sets_equal!(diff_owner_names(o1, files), diff_owner_names(o2, files), n => {
        if diff_owner_names(o1, files).contains(n) {
            let i = choose|i: int| 0 <= i < o1.len() && winning(o1, files, i) && entry_names(o1, i).contains(n);
            assert(views(o1[i].1@).to_multiset().count(n) > 0);
            assert(entry_names(o2, i).contains(n));
        }
        if diff_owner_names(o2, files).contains(n) {
            let i = choose|i: int| 0 <= i < o2.len() && winning(o2, files, i) && entry_names(o2, i).contains(n);
            assert(views(o1[i].1@).to_multiset() == views(o2[i].1@).to_multiset());
            assert(views(o2[i].1@).to_multiset().count(n) > 0);
            assert(entry_names(o1, i).contains(n));
        }
    });
}

} // verus!
