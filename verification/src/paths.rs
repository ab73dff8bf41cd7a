//! Scratch-path derivation for classified remote sources.
//!
//! Every remote reference is mapped to a deterministic local destination
//! `/tmp/tokei/<repo>__<owner>`: the URI is split on `/`, the last two
//! segments are taken, a trailing `.git` is stripped from the repository
//! segment and a leading SSH host marker from the owner segment. HTTPS and
//! SSH references to the same `owner/repo` pair therefore normalize to the
//! identical destination.

use vstd::prelude::*;

use crate::classify::{contains_at, is_git, is_git_spec, matches_at};

verus! {

/// Index of the last occurrence of `c` in `s`, or `-1` when `c` does not occur.
pub open spec fn last_index_of(s: Seq<char>, c: char) -> int
    decreases s.len(),
{
    if s.len() == 0 {
        -1
    } else if s[s.len() - 1] == c {
        s.len() - 1
    } else {
        last_index_of(s.drop_last(), c)
    }
}

pub proof fn lemma_last_index_of_props(s: Seq<char>, c: char)
    ensures
        -1 <= last_index_of(s, c) < s.len(),
        last_index_of(s, c) >= 0 ==> s[last_index_of(s, c)] == c,
        forall|j: int| last_index_of(s, c) < j < s.len() ==> s[j] != c,
    decreases s.len(),
{
    if s.len() > 0 && s[s.len() - 1] != c {
        lemma_last_index_of_props(s.drop_last(), c);
        let r = last_index_of(s, c);
        assert forall|j: int| r < j < s.len() implies s[j] != c by {
            if j < s.len() - 1 {
                assert(s.drop_last()[j] == s[j]);
            }
        }
        if r >= 0 {
            assert(s.drop_last()[r] == s[r]);
        }
    }
}

pub proof fn lemma_last_index_of_unique(s: Seq<char>, c: char, i: int)
    requires
        0 <= i < s.len(),
        s[i] == c,
        forall|j: int| i < j < s.len() ==> s[j] != c,
    ensures
        last_index_of(s, c) == i,
{
    lemma_last_index_of_props(s, c);
}

pub proof fn lemma_last_index_of_none(s: Seq<char>, c: char)
    requires
        forall|j: int| 0 <= j < s.len() ==> s[j] != c,
    ensures
        last_index_of(s, c) == -1,
{
    lemma_last_index_of_props(s, c);
}

/// The segment after the last `/` (the repository name, possibly `.git`-suffixed).
pub open spec fn repo_seg(s: Seq<char>) -> Seq<char> {
    s.subrange(last_index_of(s, '/') + 1, s.len() as int)
}

/// The segment between the last two `/` separators (the owner, possibly
/// carrying an SSH host prefix); everything before the last `/` when no
/// second separator exists.
pub open spec fn user_seg(s: Seq<char>) -> Seq<char> {
    let head = s.subrange(0, last_index_of(s, '/'));
    head.subrange(last_index_of(head, '/') + 1, head.len() as int)
}

pub open spec fn ends_with(s: Seq<char>, suf: Seq<char>) -> bool {
    suf.len() <= s.len() && s.subrange(s.len() - suf.len(), s.len() as int) == suf
}

pub open spec fn starts_with(s: Seq<char>, pre: Seq<char>) -> bool {
    pre.len() <= s.len() && s.subrange(0, pre.len() as int) == pre
}

pub open spec fn git_suffix() -> Seq<char> {
    seq!['.', 'g', 'i', 't']
}

pub open spec fn ssh_host_prefix() -> Seq<char> {
    seq!['g', 'i', 't', '@', 'g', 'i', 't', 'h', 'u', 'b', '.', 'c', 'o', 'm', ':']
}

pub open spec fn scratch_prefix() -> Seq<char> {
    seq!['/', 't', 'm', 'p', '/', 't', 'o', 'k', 'e', 'i', '/']
}

pub open spec fn owner_sep() -> Seq<char> {
    seq!['_', '_']
}

/// Strips every trailing `.git` repetition.
pub open spec fn trim_git_suffix(s: Seq<char>) -> Seq<char>
    decreases s.len(),
{
    if ends_with(s, git_suffix()) {
        trim_git_suffix(s.subrange(0, s.len() - 4))
    } else {
        s
    }
}

/// Strips every leading `git@github.com:` repetition.
pub open spec fn trim_start_host(s: Seq<char>) -> Seq<char>
    decreases s.len(),
{
    if starts_with(s, ssh_host_prefix()) && s.len() >= 15 {
        trim_start_host(s.subrange(15, s.len() as int))
    } else {
        s
    }
}

/// The scratch destination derived for a classified source URI.
pub open spec fn derived_path_spec(uri: Seq<char>) -> Seq<char> {
    scratch_prefix() + trim_git_suffix(repo_seg(uri)) + owner_sep() + trim_start_host(
        user_seg(uri),
    )
}

/// Position of the last `/` strictly before `end`, searching `s[0..end]`.
fn find_last_slash_upto(s: &str, end: usize) -> (r: Option<usize>)
    requires
        end <= s@.len(),
        s@.len() <= usize::MAX,
    ensures
        match r {
            Some(i) => i == last_index_of(s@.subrange(0, end as int), '/') && i < end,
            None => last_index_of(s@.subrange(0, end as int), '/') == -1,
        },
{
    let ghost head = s@.subrange(0, end as int);
    let mut i: usize = end;
    while i > 0
        invariant
            end <= s@.len() <= usize::MAX,
            0 <= i <= end,
            head == s@.subrange(0, end as int),
            forall|j: int| i <= j < end ==> s@[j] != '/',
        decreases i,
    {
        if s.get_char(i - 1) == '/' {
            proof {
                assert(head[i - 1] == s@[i - 1]);
                assert forall|j: int| i - 1 < j < head.len() implies head[j] != '/' by {
                    assert(head[j] == s@[j]);
                }
                lemma_last_index_of_unique(head, '/', i - 1);
            }
            return Some(i - 1);
        }
        i -= 1;
    }
    proof {
        assert forall|j: int| 0 <= j < head.len() implies head[j] != '/' by {
            assert(head[j] == s@[j]);
        }
        lemma_last_index_of_none(head, '/');
    }
    None
}

/// Removes every trailing `.git` from a repository-name segment.
fn trim_git<'a>(s: &'a str) -> (r: &'a str)
    ensures
        r@ == trim_git_suffix(s@),
    decreases s@.len(),
{
    proof {
        reveal_strlit(".git");
        assert(".git"@ =~= git_suffix());
    }
    let len = s.unicode_len();
    if len < 4 {
        s
    } else if matches_at(s, ".git", len - 4) {
        proof {
            assert(contains_at(s@, ".git"@, len - 4));
            assert(ends_with(s@, git_suffix()));
        }
        let t = s.substring_char(0, len - 4);
        trim_git(t)
    } else {
        proof {
            if ends_with(s@, git_suffix()) {
                assert(contains_at(s@, ".git"@, len - 4));
            }
        }
        s
    }
}

/// Removes every leading `git@github.com:` from an owner segment.
fn trim_host<'a>(s: &'a str) -> (r: &'a str)
    ensures
        r@ == trim_start_host(s@),
    decreases s@.len(),
{
    proof {
        reveal_strlit("git@github.com:");
        assert("git@github.com:"@ =~= ssh_host_prefix());
    }
    let len = s.unicode_len();
    if len < 15 {
        s
    } else if matches_at(s, "git@github.com:", 0) {
        proof {
            assert(contains_at(s@, "git@github.com:"@, 0));
            assert(starts_with(s@, ssh_host_prefix()));
        }
        let t = s.substring_char(15, len);
        trim_host(t)
    } else {
        proof {
            if starts_with(s@, ssh_host_prefix()) {
                assert(contains_at(s@, "git@github.com:"@, 0));
            }
        }
        s
    }
}

/// Derives the scratch destination for one classified source URI.
pub fn derive_repo_path(uri: &str) -> (r: String)
    requires
        last_index_of(uri@, '/') >= 0,
    ensures
        r@ == derived_path_spec(uri@),
{
    let n = uri.unicode_len();
    proof {
        assert(uri@.subrange(0, n as int) =~= uri@);
    }
    let l = match find_last_slash_upto(uri, n) {
        Some(l) => l,
        None => {
            proof {
                assert(false);
            }
            0
        },
    };
    let repo = uri.substring_char(l + 1, n);
    let ghost head = uri@.subrange(0, l as int);
    let user_start = match find_last_slash_upto(uri, l) {
        Some(p) => p + 1,
        None => 0,
    };
    let user = uri.substring_char(user_start, l);
    proof {
        lemma_last_index_of_props(head, '/');
        assert(user@ =~= head.subrange(last_index_of(head, '/') + 1, head.len() as int));
        assert(repo@ =~= repo_seg(uri@));
        assert(user@ =~= user_seg(uri@));
    }
    let repo_t = trim_git(repo);
    let user_t = trim_host(user);
    let mut out = String::from_str("/tmp/tokei/");
    out.append(repo_t);
    out.append("__");
    out.append(user_t);
    proof {
        reveal_strlit("/tmp/tokei/");
        reveal_strlit("__");
        assert("/tmp/tokei/"@ =~= scratch_prefix());
        assert("__"@ =~= owner_sep());
        assert(out@ =~= derived_path_spec(uri@));
    }
    out
}

pub open spec fn https_prefix() -> Seq<char> {
    seq!['h', 't', 't', 'p', 's', ':', '/', '/', 'g', 'i', 't', 'h', 'u', 'b', '.', 'c', 'o', 'm', '/']
}

/// Law: an HTTPS reference and an SSH reference to the same `owner/repo` pair
/// derive the identical scratch path, `/tmp/tokei/<repo>__<owner>`. The owner
/// and repository names must hold no path separator, the repository name must
/// not itself end in `.git`, and the owner name must not itself begin with the
/// SSH host marker; otherwise the heuristic splitting reads them differently.
pub proof fn lemma_https_ssh_same_path(user: Seq<char>, repo: Seq<char>)
    requires
        forall|i: int| 0 <= i < user.len() ==> user[i] != '/',
        forall|i: int| 0 <= i < repo.len() ==> repo[i] != '/',
        !ends_with(repo, git_suffix()),
        !starts_with(user, ssh_host_prefix()),
    ensures
        derived_path_spec(https_prefix() + user + seq!['/'] + repo) == scratch_prefix() + repo
            + owner_sep() + user,
        derived_path_spec(ssh_host_prefix() + user + seq!['/'] + repo + git_suffix())
            == scratch_prefix() + repo + owner_sep() + user,
{
    let h = https_prefix() + user + seq!['/'] + repo;
    let ul = user.len() as int;
    let rl = repo.len() as int;

    // The HTTPS form: the last separator stands right before the repository
    // name, the one before it ends the fixed prefix.
    let p1 = 19 + ul;
    assert(h[p1] == '/');
    assert forall|j: int| p1 < j < h.len() implies h[j] != '/' by {
        assert(h[j] == repo[j - p1 - 1]);
    }
    lemma_last_index_of_unique(h, '/', p1);
    assert(repo_seg(h) =~= repo);
    let head1 = h.subrange(0, p1);
    assert(head1 =~= https_prefix() + user);
    assert(head1[18] == '/');
    assert forall|j: int| 18 < j < head1.len() implies head1[j] != '/' by {
        assert(head1[j] == user[j - 19]);
    }
    lemma_last_index_of_unique(head1, '/', 18);
    assert(user_seg(h) =~= user);
    assert(trim_git_suffix(repo) == repo);
    assert(trim_start_host(user) == user);
    assert(derived_path_spec(h) == scratch_prefix() + repo + owner_sep() + user);

    // The SSH form: the only separator stands before the repository name; the
    // owner segment keeps the host marker, which stripping then removes, and
    // the repository segment keeps a `.git` suffix, which stripping removes.
    let s = ssh_host_prefix() + user + seq!['/'] + repo + git_suffix();
    let p2 = 15 + ul;
    assert(s[p2] == '/');
    assert forall|j: int| p2 < j < s.len() implies s[j] != '/' by {
        if j < p2 + 1 + rl {
            assert(s[j] == repo[j - p2 - 1]);
        } else {
            assert(s[j] == git_suffix()[j - (p2 + 1 + rl)]);
        }
    }
    lemma_last_index_of_unique(s, '/', p2);
    assert(repo_seg(s) =~= repo + git_suffix());
    let head2 = s.subrange(0, p2);
    assert(head2 =~= ssh_host_prefix() + user);
    assert forall|j: int| 0 <= j < head2.len() implies head2[j] != '/' by {
        if j < 15 {
            assert(head2[j] == ssh_host_prefix()[j]);
        } else {
            assert(head2[j] == user[j - 15]);
        }
    }
    lemma_last_index_of_none(head2, '/');
    assert(user_seg(s) =~= ssh_host_prefix() + user);

    let rg = repo + git_suffix();
    assert(rg.subrange(rg.len() - 4, rg.len() as int) =~= git_suffix());
    assert(ends_with(rg, git_suffix()));
    assert(rg.subrange(0, rg.len() - 4) =~= repo);
    assert(trim_git_suffix(rg) == trim_git_suffix(repo));
    assert(trim_git_suffix(repo) == repo);

    let hu = ssh_host_prefix() + user;
    assert(hu.subrange(0, 15) =~= ssh_host_prefix());
    assert(starts_with(hu, ssh_host_prefix()));
    assert(hu.subrange(15, hu.len() as int) =~= user);
    assert(trim_start_host(hu) == trim_start_host(user));
    assert(trim_start_host(user) == user);

    assert(derived_path_spec(s) == scratch_prefix() + repo + owner_sep() + user);
}

/// The classified sources of an input list, in order.
pub open spec fn classified(inputs: Seq<Seq<char>>) -> Seq<Seq<char>>
    decreases inputs.len(),
{
    if inputs.len() == 0 {
        Seq::empty()
    } else if is_git_spec(inputs.last()) {
        classified(inputs.drop_last()).push(inputs.last())
    } else {
        classified(inputs.drop_last())
    }
}

/// Filters the raw input list to its classified remote sources and pairs each
/// with its derived scratch destination, in input order. Yields the explicit
/// "nothing to fetch" signal when no input classifies as remote. The
/// destination directories themselves are created by the caller.
pub fn create_repo_dl_path(input: &[&str]) -> (r: Result<Vec<(String, String)>, ()>)
    requires
        forall|k: int|
            0 <= k < input@.len() && is_git_spec(#[trigger] input@[k]@) ==> last_index_of(
                input@[k]@,
                '/',
            ) >= 0,
    ensures
        match r {
            Ok(v) => {
                &&& classified(input.deep_view()).len() > 0
                &&& v@.len() == classified(input.deep_view()).len()
                &&& forall|k: int|
                    0 <= k < v@.len() ==> (#[trigger] v@[k]).1@ == classified(input.deep_view())[k]
                        && v@[k].0@ == derived_path_spec(classified(input.deep_view())[k])
            },
            Err(_) => classified(input.deep_view()).len() == 0,
        },
{
    let ghost dv = input.deep_view();
    let mut out: Vec<(String, String)> = Vec::new();
    let mut i: usize = 0;
    while i < input.len()
        invariant
            dv == input.deep_view(),
            dv.len() == input@.len(),
            forall|k: int| 0 <= k < dv.len() ==> #[trigger] dv[k] == input@[k]@,
            forall|k: int|
                0 <= k < dv.len() && is_git_spec(#[trigger] dv[k]) ==> last_index_of(dv[k], '/')
                    >= 0,
            0 <= i <= input@.len(),
            out@.len() == classified(dv.subrange(0, i as int)).len(),
            forall|k: int|
                0 <= k < out@.len() ==> (#[trigger] out@[k]).1@ == classified(
                    dv.subrange(0, i as int),
                )[k] && out@[k].0@ == derived_path_spec(classified(dv.subrange(0, i as int))[k]),
        decreases input@.len() - i,
    {
        let uri: &str = input[i];
        let ghost pre = dv.subrange(0, i as int);
        let ghost pre1 = dv.subrange(0, i + 1);
        proof {
            assert(pre1.drop_last() =~= pre);
            assert(pre1.last() == dv[i as int]);
            assert(uri@ == dv[i as int]);
        }
        if is_git(uri) {
            let path = derive_repo_path(uri);
            let pair = (path, String::from_str(uri));
            out.push(pair);
        }
        i += 1;
    }
    proof {
        assert(dv.subrange(0, dv.len() as int) =~= dv);
    }
    if out.len() == 0 {
        Err(())
    } else {
        Ok(out)
    }
}

} // verus!
