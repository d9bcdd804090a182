//! Remote resolver: classify a git remote URL into a hosting-service
//! identity, and decide which remote an `init` uses.
//!
//! Two URL forms are recognised: the scp-like SSH form
//! `user@host:owner/project(.git)` and the HTTPS form
//! `https://host/owner/project(.git)`. The host is matched exactly against
//! the three supported services; any other host, or a URL missing an owner
//! segment, fails with `UnsupportedRemote`. Pure logic; nothing here touches
//! a repository.

use vstd::prelude::*;
use vstd::string::StrSliceExecFns;
use crate::errors::LocketError;

verus! {

/// The supported hosting services: a closed set of three.
#[derive(Clone, Copy, Debug, PartialEq, Eq, Structural)]
pub enum LocketGitService {
    Bitbucket,
    Github,
    Gitlab,
}

/// A resolved remote identity: service, owner and project name.
#[derive(Clone, Debug)]
pub struct LocketRemote {
    pub service: LocketGitService,
    pub user: String,
    pub project: String,
}

/// Mathematical model of [`LocketRemote`].
pub struct RemoteIdentityV {
    pub service: LocketGitService,
    pub user: Seq<char>,
    pub project: Seq<char>,
}

impl View for LocketRemote {
    type V = RemoteIdentityV;

    open spec fn view(&self) -> RemoteIdentityV {
        RemoteIdentityV { service: self.service, user: self.user@, project: self.project@ }
    }
}

/// Index of the first occurrence of `c` at or after `from`, or the length
/// when there is none.
pub open spec fn char_idx_from(s: Seq<char>, c: char, from: int) -> int
    decreases s.len() - from,
{
    if from < 0 || from >= s.len() {
        s.len() as int
    } else if s[from] == c {
        from
    } else {
        char_idx_from(s, c, from + 1)
    }
}

/// Index of the first occurrence of `c`, or the length when there is none.
pub open spec fn char_idx(s: Seq<char>, c: char) -> int {
    char_idx_from(s, c, 0)
}

/// The first index with the character is in bounds and carries it, and no
/// earlier index from `from` on does.
pub proof fn lemma_char_idx_from_spec(s: Seq<char>, c: char, from: int)
    requires
        0 <= from <= s.len(),
    ensures
        from <= char_idx_from(s, c, from) <= s.len(),
        char_idx_from(s, c, from) < s.len() ==> s[char_idx_from(s, c, from)] == c,
        forall|k: int| from <= k < char_idx_from(s, c, from) ==> s[k] != c,
        char_idx_from(s, c, from) == s.len() ==> forall|k: int| from <= k < s.len() ==> s[k]
            != c,
    decreases s.len() - from,
{
    if from < s.len() && s[from] != c {
        lemma_char_idx_from_spec(s, c, from + 1);
    }
}

/// The service behind an exactly-matched host name.
pub open spec fn service_of_host(host: Seq<char>) -> Option<LocketGitService> {
    if host == "github.com"@ {
        Option::Some(LocketGitService::Github)
    } else if host == "gitlab.com"@ {
        Option::Some(LocketGitService::Gitlab)
    } else if host == "bitbucket.org"@ {
        Option::Some(LocketGitService::Bitbucket)
    } else {
        Option::None
    }
}

/// A project name with any trailing `.git` removed.
pub open spec fn strip_git_suffix(name: Seq<char>) -> Seq<char> {
    if name.len() >= 4 && name.subrange(name.len() - 4, name.len() as int) == ".git"@ {
        name.subrange(0, name.len() - 4)
    } else {
        name
    }
}

/// Resolution of a host and an `owner/project` path part.
pub open spec fn spec_resolve_parts(host: Seq<char>, pathpart: Seq<char>) -> Result<
    RemoteIdentityV,
    LocketError,
> {
    match service_of_host(host) {
        Option::None => Result::Err(LocketError::UnsupportedRemote),
        Option::Some(service) => {
            let slash = char_idx(pathpart, '/');
            if slash == pathpart.len() {
                Result::Err(LocketError::UnsupportedRemote)
            } else {
                let owner = pathpart.subrange(0, slash);
                let name = strip_git_suffix(
                    pathpart.subrange(slash + 1, pathpart.len() as int),
                );
                if owner.len() == 0 || name.len() == 0 {
                    Result::Err(LocketError::UnsupportedRemote)
                } else {
                    Result::Ok(RemoteIdentityV { service, user: owner, project: name })
                }
            }
        },
    }
}

/// Resolution of a whole remote URL: the HTTPS form when it starts with
/// `https://`, the scp-like SSH form otherwise.
pub open spec fn spec_resolve(url: Seq<char>) -> Result<RemoteIdentityV, LocketError> {
    if url.len() >= 8 && url.subrange(0, 8) == "https://"@ {
        let rest = url.subrange(8, url.len() as int);
        let slash = char_idx(rest, '/');
        if slash == rest.len() {
            Result::Err(LocketError::UnsupportedRemote)
        } else {
            spec_resolve_parts(rest.subrange(0, slash), rest.subrange(slash + 1, rest.len() as int))
        }
    } else {
        let at = char_idx(url, '@');
        if at == url.len() {
            Result::Err(LocketError::UnsupportedRemote)
        } else {
            let rest = url.subrange(at + 1, url.len() as int);
            let colon = char_idx(rest, ':');
            if colon == rest.len() {
                Result::Err(LocketError::UnsupportedRemote)
            } else {
                spec_resolve_parts(
                    rest.subrange(0, colon),
                    rest.subrange(colon + 1, rest.len() as int),
                )
            }
        }
    }
}

/// Character-wise equality of two string slices.
fn str_eq(a: &str, b: &str) -> (r: bool)
    ensures
        r == (a@ == b@),
{
    let an = a.unicode_len();
    let bn = b.unicode_len();
    if an != bn {
        assert(a@ != b@);
        return false;
    }
    let mut i: usize = 0;
    while i < an
        invariant
            i <= an,
            an as int == a@.len(),
            a@.len() == b@.len(),
            forall|k: int| 0 <= k < i ==> a@[k] == b@[k],
        decreases an - i,
    {
        if a.get_char(i) != b.get_char(i) {
            assert(a@ != b@);
            return false;
        }
        i += 1;
    }
    proof {
        assert(a@ =~= b@);
    }
    true
}

/// First occurrence of `c` in `s` at or after `from`, or the character
/// length of `s` when there is none.
fn char_find(s: &str, c: char, from: usize) -> (r: usize)
    requires
        from as int <= s@.len(),
    ensures
        r as int == char_idx_from(s@, c, from as int),
{
    let n = s.unicode_len();
    let mut i: usize = from;
    while i < n
        invariant
            from <= i <= n,
            n as int == s@.len(),
            forall|k: int| from <= k < i ==> s@[k] != c,
        decreases n - i,
    {
        if s.get_char(i) == c {
            proof {
                lemma_char_idx_from_spec(s@, c, from as int);
                let idx = char_idx_from(s@, c, from as int);
                assert(idx <= i as int);
                assert(idx >= i as int);
            }
            return i;
        }
        i += 1;
    }
    proof {
        lemma_char_idx_from_spec(s@, c, from as int);
    }
    n
}

/// Resolve a host and `owner/project` path part, mirroring
/// [`spec_resolve_parts`].
fn resolve_parts(host: &str, pathpart: &str) -> (r: Result<LocketRemote, LocketError>)
    ensures
        r is Ok <==> spec_resolve_parts(host@, pathpart@) is Ok,
        r is Ok ==> ({
            let id = spec_resolve_parts(host@, pathpart@)->Ok_0;
            (r->Ok_0)@ == id
        }),
        r is Err ==> r->Err_0 == spec_resolve_parts(host@, pathpart@)->Err_0,
{
    let service = if str_eq(host, "github.com") {
        LocketGitService::Github
    } else if str_eq(host, "gitlab.com") {
        LocketGitService::Gitlab
    } else if str_eq(host, "bitbucket.org") {
        LocketGitService::Bitbucket
    } else {
        return Err(LocketError::UnsupportedRemote);
    };
    let pn = pathpart.unicode_len();
    let slash = char_find(pathpart, '/', 0);
    proof {
        lemma_char_idx_from_spec(pathpart@, '/', 0);
    }
    if slash == pn {
        return Err(LocketError::UnsupportedRemote);
    }
    let owner = pathpart.substring_char(0, slash);
    let rawname = pathpart.substring_char(slash + 1, pn);
    let rn = rawname.unicode_len();
    let name = if rn >= 4 && str_eq(rawname.substring_char(rn - 4, rn), ".git") {
        rawname.substring_char(0, rn - 4)
    } else {
        rawname
    };
    proof {
        assert(name@ == strip_git_suffix(rawname@));
    }
    if owner.unicode_len() == 0 || name.unicode_len() == 0 {
        return Err(LocketError::UnsupportedRemote);
    }
    Ok(LocketRemote { service, user: owner.to_owned(), project: name.to_owned() })
}

/// Resolve a git remote URL into its service, owner and project, exactly as
/// [`spec_resolve`] describes; any URL outside the two supported forms, on
/// an unsupported host, or missing an owner or project segment fails with
/// `UnsupportedRemote`.
pub fn resolve(url: &str) -> (r: Result<LocketRemote, LocketError>)
    ensures
        r is Ok <==> spec_resolve(url@) is Ok,
        r is Ok ==> ({
            let id = spec_resolve(url@)->Ok_0;
            (r->Ok_0)@ == id
        }),
        r is Err ==> r->Err_0 == spec_resolve(url@)->Err_0,
{
    let n = url.unicode_len();
    if n >= 8 && str_eq(url.substring_char(0, 8), "https://") {
        let rest = url.substring_char(8, n);
        let restn = rest.unicode_len();
        let slash = char_find(rest, '/', 0);
        proof {
            lemma_char_idx_from_spec(rest@, '/', 0);
        }
        if slash == restn {
            return Err(LocketError::UnsupportedRemote);
        }
        resolve_parts(rest.substring_char(0, slash), rest.substring_char(slash + 1, restn))
    } else {
        let at = char_find(url, '@', 0);
        proof {
            lemma_char_idx_from_spec(url@, '@', 0);
        }
        if at == n {
            return Err(LocketError::UnsupportedRemote);
        }
        let rest = url.substring_char(at + 1, n);
        let restn = rest.unicode_len();
        let colon = char_find(rest, ':', 0);
        proof {
            lemma_char_idx_from_spec(rest@, ':', 0);
        }
        if colon == restn {
            return Err(LocketError::UnsupportedRemote);
        }
        resolve_parts(rest.substring_char(0, colon), rest.substring_char(colon + 1, restn))
    }
}

/// The remote an `init` should use, or the request to prompt.
#[derive(Debug)]
pub enum RemoteChoice {
    /// This remote is settled without any interaction.
    Chosen(String),
    /// Several remotes exist and none was named: the application must
    /// prompt for a selection over all of them.
    NeedPrompt,
}

/// Decide which remote `init` uses. An explicitly named remote always wins;
/// with none given, zero remotes fail, exactly one is auto-selected without
/// prompting, and two or more require a prompt.
pub fn select_remote(remotes: &Vec<String>, explicit: Option<String>) -> (r: Result<
    RemoteChoice,
    LocketError,
>)
    ensures
        explicit is Some ==> r is Ok && r->Ok_0 is Chosen && r->Ok_0->0 == explicit->0,
        explicit is None && remotes@.len() == 0 ==> r == Err::<RemoteChoice, LocketError>(
            LocketError::NoRemoteSelected,
        ),
        explicit is None && remotes@.len() == 1 ==> r is Ok && r->Ok_0 is Chosen && r->Ok_0->0
            == remotes@[0],
        explicit is None && remotes@.len() >= 2 ==> r is Ok && r->Ok_0 is NeedPrompt,
{
    match explicit {
        Some(name) => Ok(RemoteChoice::Chosen(name)),
        None => {
            if remotes.len() == 0 {
                Err(LocketError::NoRemoteSelected)
            } else if remotes.len() == 1 {
                Ok(RemoteChoice::Chosen(remotes[0].clone()))
            } else {
                Ok(RemoteChoice::NeedPrompt)
            }
        },
    }
}

/// Turn the outcome of an interactive prompt over `options` into a remote
/// name: a cancelled prompt fails with `Cancelled`, a selection out of range
/// with `NoRemoteSelected`.
pub fn apply_selection(options: &Vec<String>, selection: Option<usize>) -> (r: Result<
    String,
    LocketError,
>)
    ensures
        selection is None ==> r == Err::<String, LocketError>(LocketError::Cancelled),
        selection is Some && (selection->0 as int) < options@.len() ==> r is Ok && r->Ok_0
            == options@[selection->0 as int],
        selection is Some && (selection->0 as int) >= options@.len() ==> r == Err::<
            String,
            LocketError,
        >(LocketError::NoRemoteSelected),
{
    match selection {
        None => Err(LocketError::Cancelled),
        Some(i) => {
            if i < options.len() {
                Ok(options[i].clone())
            } else {
                Err(LocketError::NoRemoteSelected)
            }
        },
    }
}

} // verus!
