//! Remote repository identity: which repository on which provider host a
//! reference URL points at.
//!
//! Splitting the URL string into scheme, host, port and path is done by
//! the `url` crate behind trusted declarations; everything the audit
//! derives from those parts (the `/owner/repository[.git]` path shape,
//! suffix stripping) is verified here.
use vstd::prelude::*;

use crate::errors::{AuditError, ParseIssue};
use crate::strings::{chars_range_to_string, find_char, lemma_find_char, str_to_chars};

verus! {

/// Whether `url::Url::parse` accepts the string as an absolute URL.
pub uninterp spec fn url_parse_ok(s: Seq<char>) -> bool;

/// What `url::Url::host_str` returns for the URL parsed from `s`.
pub uninterp spec fn url_host_of(s: Seq<char>) -> Option<Seq<char>>;

/// What `url::Url::port_or_known_default` returns for the URL parsed
/// from `s`.
pub uninterp spec fn url_port_of(s: Seq<char>) -> Option<u16>;

/// What `url::Url::path` returns for the URL parsed from `s`.
pub uninterp spec fn url_path_of(s: Seq<char>) -> Seq<char>;

/// Relies on `url::Url::parse`: whether the string parses as an absolute
/// URL. On success the parsed URL is handed out as its host
/// (`url::Url::host_str`), its port (`url::Url::port_or_known_default`)
/// and its path (`url::Url::path`), each a pure function of the input
/// string alone.
#[verifier::external_body]
fn parse_url_parts(input: &str) -> (r: Option<(Option<String>, Option<u16>, String)>)
    ensures
        (r is Some) == url_parse_ok(input@),
        r matches Some(p) ==> p.0.deep_view() == url_host_of(input@) && p.1 == url_port_of(input@)
            && p.2@ == url_path_of(input@),
{
    match url::Url::parse(input) {
        Ok(u) => Some((u.host_str().map(str::to_owned), u.port_or_known_default(), u.path().to_owned())),
        Err(_) => None,
    }
}

/// Identifies exactly one repository on one provider host. Immutable once
/// parsed.
#[derive(Debug)]
pub struct Remote {
    pub host: String,
    pub port: u16,
    pub owner: String,
    pub repository: String,
    pub original: String,
}

impl Clone for Remote {
    fn clone(&self) -> (r: Self)
        ensures
            r == *self,
    {
        Remote {
            host: self.host.clone(),
            port: self.port,
            owner: self.owner.clone(),
            repository: self.repository.clone(),
            original: self.original.clone(),
        }
    }
}

/// `s` with every leading `/` removed.
pub open spec fn trim_leading_slashes(s: Seq<char>) -> Seq<char>
    decreases s.len(),
{
    if s.len() > 0 && s[0] == '/' {
        trim_leading_slashes(s.drop_first())
    } else {
        s
    }
}

/// `s` with every trailing `.git` removed.
pub open spec fn strip_git_suffix(s: Seq<char>) -> Seq<char>
    decreases s.len(),
{
    if s.len() >= 4 && s.subrange(s.len() - 4, s.len() as int) == seq!['.', 'g', 'i', 't'] {
        strip_git_suffix(s.take(s.len() - 4))
    } else {
        s
    }
}

/// Whether a URL path names exactly one owner and one repository: after
/// removing leading slashes it must hold exactly one `/`, with a
/// non-empty segment on each side.
pub open spec fn repo_path_segments_ok(path: Seq<char>) -> bool {
    let t = trim_leading_slashes(path);
    let i = find_char(t, '/');
    1 <= i < t.len() - 1 && find_char(t.skip(i + 1), '/') == -1
}

/// The owner segment of a well-formed repository path.
pub open spec fn repo_path_owner(path: Seq<char>) -> Seq<char> {
    let t = trim_leading_slashes(path);
    t.take(find_char(t, '/'))
}

/// The repository segment of a well-formed repository path, with any
/// trailing `.git` stripped.
pub open spec fn repo_path_repository(path: Seq<char>) -> Seq<char> {
    let t = trim_leading_slashes(path);
    strip_git_suffix(t.skip(find_char(t, '/') + 1))
}

/// Whether a string names a repository remote: it parses as an absolute
/// URL, carries a host and a known port, and its path splits into
/// exactly `owner/repository`.
pub open spec fn remote_url_ok(s: Seq<char>) -> bool {
    &&& url_parse_ok(s)
    &&& url_host_of(s) is Some
    &&& url_port_of(s) is Some
    &&& repo_path_segments_ok(url_path_of(s))
}

/// Which parse failure a string that is no repository remote is reported
/// with: an unparseable URL first, then a missing host, then a missing
/// port, then a malformed path.
pub open spec fn remote_parse_issue(s: Seq<char>) -> ParseIssue {
    if !url_parse_ok(s) {
        ParseIssue::InvalidUrl
    } else if url_host_of(s) is None {
        ParseIssue::NoHost
    } else if url_port_of(s) is None {
        ParseIssue::NoPort
    } else {
        ParseIssue::BadPathFormat
    }
}

impl Remote {
    /// Assembles a remote identity from the parts of an already-parsed
    /// URL. The path must split into exactly `owner/repository` after
    /// removing leading slashes; the repository name loses any trailing
    /// `.git`.
    #[verifier::rlimit(30)]
    pub fn from_parts(original: &str, host: &str, port: u16, path: &str) -> (r: Result<
        Remote,
        AuditError,
    >)
        ensures
            repo_path_segments_ok(path@) ==> (r matches Ok(rem) && rem.host@ == host@ && rem.port
                == port && rem.owner@ == repo_path_owner(path@) && rem.repository@
                == repo_path_repository(path@) && rem.original@ == original@),
            !repo_path_segments_ok(path@) ==> r == Err::<Remote, AuditError>(AuditError::Parse(
                ParseIssue::BadPathFormat,
            )),
    {
        let chars = str_to_chars(path);
        let n = chars.len();
        proof {
            assert(chars@.skip(0) =~= chars@);
        }
        // remove the leading slashes
        let mut st: usize = 0;
        while st < n && chars[st] == '/'
            invariant
                n == chars@.len(),
                0 <= st <= n,
                chars@ == path@,
                trim_leading_slashes(path@) == trim_leading_slashes(chars@.skip(st as int)),
            decreases n - st,
        {
            proof {
                assert(chars@.skip(st as int).drop_first() =~= chars@.skip(st as int + 1));
            }
            st += 1;
        }
        let ghost t = trim_leading_slashes(path@);
        proof {
            if st < n {
                assert(chars@.skip(st as int)[0] != '/');
            } else {
                assert(chars@.skip(st as int) =~= Seq::<char>::empty());
            }
            assert(t == chars@.skip(st as int));
        }
        // find the single separator between owner and repository
        let mut p: usize = st;
        while p < n && chars[p] != '/'
            invariant
                n == chars@.len(),
                st <= p <= n,
                chars@ == path@,
                forall|q: int| st <= q < p ==> chars@[q] != '/',
            decreases n - p,
        {
            p += 1;
        }
        proof {
            lemma_find_char(t, '/');
        }
        if p == n {
            // no separator at all: fewer than two segments
            proof {
                assert(forall|q: int| 0 <= q < t.len() ==> t[q] != '/');
                assert(find_char(t, '/') == -1);
            }
            return Err(AuditError::Parse(ParseIssue::BadPathFormat));
        }
        proof {
            assert(chars@[p as int] == '/');
            assert(t[p as int - st as int] == '/');
            assert(find_char(t, '/') == p as int - st as int);
        }
        if p + 1 == n {
            // empty repository segment
            return Err(AuditError::Parse(ParseIssue::BadPathFormat));
        }
        // any further separator means more than two segments
        let mut q: usize = p + 1;
        while q < n && chars[q] != '/'
            invariant
                n == chars@.len(),
                p + 1 <= q <= n,
                chars@ == path@,
                forall|j: int| p + 1 <= j < q ==> chars@[j] != '/',
            decreases n - q,
        {
            q += 1;
        }
        proof {
            lemma_find_char(t.skip(p as int - st as int + 1), '/');
            assert(t.skip(p as int - st as int + 1) =~= chars@.skip(p as int + 1));
        }
        if q < n {
            proof {
                assert(chars@.skip(p as int + 1)[q as int - p - 1] == '/');
            }
            return Err(AuditError::Parse(ParseIssue::BadPathFormat));
        }
        proof {
            assert(forall|j: int|
                0 <= j < chars@.skip(p as int + 1).len() ==> #[trigger] chars@.skip(p as int + 1)[j]
                    != '/');
            assert(find_char(t.skip(p as int - st as int + 1), '/') == -1);
            assert(repo_path_segments_ok(path@));
        }
        let owner = chars_range_to_string(&chars, st, p);
        proof {
            assert(chars@.subrange(st as int, p as int) =~= t.take(p as int - st as int));
        }
        // strip every trailing `.git` from the repository segment
        let mut e: usize = n;
        while e - p >= 5 && chars[e - 4] == '.' && chars[e - 3] == 'g' && chars[e - 2] == 'i'
            && chars[e - 1] == 't'
            invariant
                n == chars@.len(),
                p + 1 <= e <= n,
                chars@ == path@,
                strip_git_suffix(chars@.subrange(p as int + 1, n as int)) == strip_git_suffix(
                    chars@.subrange(p as int + 1, e as int),
                ),
            decreases e,
        {
            proof {
                let cur = chars@.subrange(p as int + 1, e as int);
                assert(cur.subrange(cur.len() - 4, cur.len() as int) =~= seq!['.', 'g', 'i', 't']);
                assert(cur.take(cur.len() - 4) =~= chars@.subrange(p as int + 1, e as int - 4));
            }
            e -= 4;
        }
        proof {
            let cur = chars@.subrange(p as int + 1, e as int);
            if cur.len() >= 4 {
                assert(cur.subrange(cur.len() - 4, cur.len() as int) != seq!['.', 'g', 'i', 't'])
                    by {
                    if e >= p + 5 {
                        let tail = cur.subrange(cur.len() - 4, cur.len() as int);
                        assert(tail[0] == chars@[e as int - 4]);
                        assert(tail[1] == chars@[e as int - 3]);
                        assert(tail[2] == chars@[e as int - 2]);
                        assert(tail[3] == chars@[e as int - 1]);
                    }
                }
            }
            assert(strip_git_suffix(cur) == cur);
            assert(chars@.subrange(p as int + 1, n as int) =~= t.skip(p as int - st as int + 1));
        }
        let repository = chars_range_to_string(&chars, p + 1, e);
        Ok(Remote {
            host: host.to_owned(),
            port,
            owner,
            repository,
            original: original.to_owned(),
        })
    }

    /// Parses a repository reference URL into a remote identity.
    ///
    /// Succeeds exactly when the string names a repository remote: it
    /// must be an absolute URL with a host and a known port whose path
    /// names exactly `owner/repository[.git]`; every failure is reported
    /// as the parse error that `remote_parse_issue` fixes.
    pub fn parse(url: &str) -> (r: Result<Remote, AuditError>)
        ensures
            (r is Ok) == remote_url_ok(url@),
            r matches Ok(rem) ==> rem.host@ == url_host_of(url@)->0 && rem.port == url_port_of(
                url@,
            )->0 && rem.owner@ == repo_path_owner(url_path_of(url@)) && rem.repository@
                == repo_path_repository(url_path_of(url@)) && rem.original@ == url@
                && rem.owner@.len() > 0,
            r matches Err(e) ==> e == AuditError::Parse(remote_parse_issue(url@)),
    {
        let parts = match parse_url_parts(url) {
            Some(p) => p,
            None => {
                return Err(AuditError::Parse(ParseIssue::InvalidUrl));
            },
        };
        let host = match parts.0 {
            Some(h) => h,
            None => {
                return Err(AuditError::Parse(ParseIssue::NoHost));
            },
        };
        let port = match parts.1 {
            Some(p) => p,
            None => {
                return Err(AuditError::Parse(ParseIssue::NoPort));
            },
        };
        let path = parts.2;
        proof {
            assert(host@ == url_host_of(url@)->0);
            assert(path@ == url_path_of(url@));
        }
        let r = Remote::from_parts(url, host.as_str(), port, path.as_str());
        proof {
            if repo_path_segments_ok(path@) {
                let t = trim_leading_slashes(path@);
                lemma_find_char(t, '/');
                assert(repo_path_owner(path@).len() >= 1);
            }
        }
        r
    }
}

} // verus!
