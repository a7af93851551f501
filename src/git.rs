use vstd::prelude::*;

use crate::text::{chars_equal, chars_of, slice_chars, starts_with, starts_with_chars, string_of, trim, trim_chars};

verus! {

/// Whether `url` names a transport that a git client accepts:
/// `http://`, `https://`, `git@` or `git://`.
pub open spec fn valid_git_url(url: Seq<char>) -> bool {
    starts_with(url, seq!['h', 't', 't', 'p', ':', '/', '/'])
        || starts_with(url, seq!['h', 't', 't', 'p', 's', ':', '/', '/'])
        || starts_with(url, seq!['g', 'i', 't', '@'])
        || starts_with(url, seq!['g', 'i', 't', ':', '/', '/'])
}

/// `s` without any trailing `/`.
pub open spec fn strip_slashes(s: Seq<char>) -> Seq<char>
    decreases s.len(),
{
    if s.len() > 0 && s.last() == '/' {
        strip_slashes(s.drop_last())
    } else {
        s
    }
}

pub open spec fn git_suffix() -> Seq<char> {
    seq!['.', 'g', 'i', 't']
}

/// `s` without any trailing repetitions of `.git`.
pub open spec fn strip_git_suffix(s: Seq<char>) -> Seq<char>
    decreases s.len(),
{
    if s.len() >= 4 && s.skip(s.len() - 4) == git_suffix() {
        strip_git_suffix(s.take(s.len() - 4))
    } else {
        s
    }
}

/// The characters after the last `/` of `s` (all of `s` if it has none).
pub open spec fn last_segment(s: Seq<char>) -> Seq<char>
    decreases s.len(),
{
    if s.len() == 0 {
        s
    } else if s.last() == '/' {
        Seq::empty()
    } else {
        last_segment(s.drop_last()).push(s.last())
    }
}

/// The cache key of a source URL: its last path segment once trailing
/// separators and `.git` suffixes are gone; none where that segment is empty.
pub open spec fn repo_name(url: Seq<char>) -> Option<Seq<char>> {
    let seg = last_segment(strip_git_suffix(strip_slashes(url)));
    if seg.len() == 0 {
        None
    } else {
        Some(seg)
    }
}

/// What keeps a cache entry up to date.
#[derive(Clone, Copy, Debug, PartialEq, Eq, Structural)]
pub enum RepoStep {
    /// No working tree yet: clone the source into the entry.
    Clone,
    /// A working tree is there: fetch from its remote.
    Fetch,
}

/// Decides how to bring a cache entry up to date: fetch where a working tree
/// is already present, clone otherwise.
pub fn ensure_repo(has_work_tree: bool) -> (r: RepoStep)
    ensures
        r == (if has_work_tree { RepoStep::Fetch } else { RepoStep::Clone }),
{
    if has_work_tree {
        RepoStep::Fetch
    } else {
        RepoStep::Clone
    }
}

/// Whether `url` looks like a git source this tool can fetch.
pub fn is_valid_git_url(url: &str) -> (r: bool)
    ensures
        r == valid_git_url(url@),
{
    let u = chars_of(url);
    starts_with_chars(&u, &vec!['h', 't', 't', 'p', ':', '/', '/'])
        || starts_with_chars(&u, &vec!['h', 't', 't', 'p', 's', ':', '/', '/'])
        || starts_with_chars(&u, &vec!['g', 'i', 't', '@'])
        || starts_with_chars(&u, &vec!['g', 'i', 't', ':', '/', '/'])
}

proof fn lemma_last_segment_extend(s: Seq<char>, k: int, j: int)
    requires
        0 < k <= j <= s.len(),
        s[k - 1] != '/',
        last_segment(s.take(j)) == last_segment(s.take(k)) + s.subrange(k, j),
    ensures
        last_segment(s.take(j)) == last_segment(s.take(k - 1)) + s.subrange(k - 1, j),
{
    assert(s.take(k).drop_last() =~= s.take(k - 1));
    assert(s.take(k).last() == s[k - 1]);
    assert(last_segment(s.take(k)) == last_segment(s.take(k - 1)).push(s[k - 1]));
    assert(last_segment(s.take(k - 1)).push(s[k - 1]) + s.subrange(k, j) =~= last_segment(
        s.take(k - 1),
    ) + s.subrange(k - 1, j));
}

/// Derives the cache key of a source URL (see `repo_name`).
pub fn extract_repo_name(url: &str) -> (r: Option<String>)
    ensures
        r matches Some(n) ==> repo_name(url@) == Some(n@),
        r is None ==> repo_name(url@) is None,
{
    let u = chars_of(url);
    let ghost s = u@;
    let mut j: usize = u.len();
    assert(s.take(j as int) =~= s);
    while j > 0 && u[j - 1] == '/'
        invariant
            j <= s.len(),
            u@ == s,
            strip_slashes(s) == strip_slashes(s.take(j as int)),
        decreases j,
    {
        assert(s.take(j as int).drop_last() =~= s.take(j - 1));
        j = j - 1;
    }
    let ghost j0 = j;
    assert(strip_slashes(s.take(j as int)) == s.take(j as int));
    let suffix = vec!['.', 'g', 'i', 't'];
    let mut done = false;
    while !done && j >= 4
        invariant
            j <= j0 <= s.len(),
            u@ == s,
            suffix@ == git_suffix(),
            strip_git_suffix(strip_slashes(s)) == (if done {
                s.take(j as int)
            } else {
                strip_git_suffix(s.take(j as int))
            }),
        decreases j + (if done { 0int } else { 1int }),
    {
        let tail = slice_chars(&u, j - 4, j);
        assert(s.take(j as int).skip(j - 4) =~= s.subrange(j - 4, j as int));
        if chars_equal(&tail, &suffix) {
            assert(s.take(j as int).take(j - 4) =~= s.take(j - 4));
            j = j - 4;
        } else {
            done = true;
        }
    }
    let ghost body = s.take(j as int);
    assert(strip_git_suffix(strip_slashes(s)) == body);
    let mut k: usize = j;
    assert(s.subrange(j as int, j as int) =~= Seq::<char>::empty());
    assert(last_segment(body) =~= last_segment(s.take(k as int)) + s.subrange(k as int, j as int));
    while k > 0 && u[k - 1] != '/'
        invariant
            k <= j <= s.len(),
            u@ == s,
            body == s.take(j as int),
            last_segment(body) == last_segment(s.take(k as int)) + s.subrange(k as int, j as int),
        decreases k,
    {
        proof {
            lemma_last_segment_extend(s, k as int, j as int);
        }
        k = k - 1;
    }
    if k > 0 {
        assert(s.take(k as int).last() == '/');
    }
    assert(last_segment(s.take(k as int)) =~= Seq::<char>::empty());
    assert(last_segment(body) =~= s.subrange(k as int, j as int));
    if k == j {
        None
    } else {
        let seg = slice_chars(&u, k, j);
        Some(string_of(&seg))
    }
}

/// The commit hash that `git rev-parse HEAD` printed: its output, trimmed.
pub open spec fn commit_hash_of(stdout: Seq<char>) -> Seq<char> {
    trim(stdout)
}

/// Reads the commit hash out of what `git rev-parse HEAD` printed.
pub fn get_commit_hash(stdout: &str) -> (r: String)
    ensures
        r@ == commit_hash_of(stdout@),
{
    let c = chars_of(stdout);
    string_of(&trim_chars(&c))
}

pub open spec fn origin_prefix() -> Seq<char> {
    seq!['o', 'r', 'i', 'g', 'i', 'n', '/']
}

/// The branch that is assumed where the remote's default cannot be read.
pub open spec fn fallback_branch() -> Seq<char> {
    seq!['m', 'a', 'i', 'n']
}

/// The default branch of a remote, from what `git symbolic-ref
/// refs/remotes/origin/HEAD --short` printed: the trimmed output without its
/// `origin/` prefix, or `main` where the command failed.
pub open spec fn default_branch_of(succeeded: bool, stdout: Seq<char>) -> Seq<char> {
    if succeeded {
        let b = trim(stdout);
        if starts_with(b, origin_prefix()) {
            b.skip(origin_prefix().len() as int)
        } else {
            b
        }
    } else {
        fallback_branch()
    }
}

/// Decides which branch `checkout_latest` checks out and pulls.
pub fn default_branch(succeeded: bool, stdout: &str) -> (r: String)
    ensures
        r@ == default_branch_of(succeeded, stdout@),
{
    if succeeded {
        let b = trim_chars(&chars_of(stdout));
        let prefix = vec!['o', 'r', 'i', 'g', 'i', 'n', '/'];
        if starts_with_chars(&b, &prefix) {
            let rest = slice_chars(&b, 7, b.len());
            assert(rest@ =~= b@.skip(7));
            string_of(&rest)
        } else {
            string_of(&b)
        }
    } else {
        string_of(&vec!['m', 'a', 'i', 'n'])
    }
}

} // verus!
