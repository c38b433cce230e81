//! Host-scoped gateway state: credential derivation per host, the
//! per-host concurrency ceiling, and the registry that hands out one
//! client slot per distinct host.
use vstd::prelude::*;

use crate::strings::{chars_range_to_string, str_eq, str_to_chars};

verus! {

/// At most this many API calls may be in flight to one host at any
/// instant.
pub const MAX_IN_FLIGHT_PER_HOST: u8 = 5;

/// What std's `str::to_uppercase` returns: the Unicode upper-case form
/// of the string, a function of its characters alone.
pub uninterp spec fn upper_of(s: Seq<char>) -> Seq<char>;

/// Relies on std's `str::to_uppercase`: returns the string's Unicode
/// upper-case equivalent, which depends on the characters alone.
#[verifier::external_body]
fn to_uppercase(s: &str) -> (r: String)
    ensures
        r@ == upper_of(s@),
{
    s.to_uppercase()
}

/// A host name with every `.` replaced by `_`.
pub open spec fn replace_dots(s: Seq<char>) -> Seq<char> {
    s.map_values(|c: char| if c == '.' { '_' } else { c })
}

/// The `GITHUB_` marker that is both stripped from transformed host
/// names and prefixed to the variable name.
pub open spec fn github_marker() -> Seq<char> {
    seq!['G', 'I', 'T', 'H', 'U', 'B', '_']
}

/// `s` with every leading `GITHUB_` removed.
pub open spec fn strip_github_marker(s: Seq<char>) -> Seq<char>
    decreases s.len(),
{
    if s.len() >= 7 && s.take(7) == github_marker() {
        strip_github_marker(s.skip(7))
    } else {
        s
    }
}

/// The environment variable that holds the credential for `host`: the
/// well-known name for the provider's public host, and
/// `GITHUB_<HOST>_TOKEN` (dots replaced, upper-cased, any leading
/// `GITHUB_` stripped) for every other host.
pub open spec fn spec_env_name(host: Seq<char>) -> Seq<char> {
    if host == "github.com"@ {
        "GITHUB_TOKEN"@
    } else {
        github_marker() + strip_github_marker(upper_of(replace_dots(host))) + "_TOKEN"@
    }
}

/// The API base URL for `host`: the well-known endpoint for the
/// provider's public host, and `https://<host>/api/v3` for every other
/// host.
pub open spec fn spec_api_endpoint(host: Seq<char>) -> Seq<char> {
    if host == "github.com"@ {
        "https://api.github.com"@
    } else {
        "https://"@ + host + "/api/v3"@
    }
}

/// The credential environment variable name and the API base URL for a
/// provider host.
pub fn get_env_name_api_endpoint_for_host(host: &str) -> (r: (String, String))
    ensures
        r.0@ == spec_env_name(host@),
        r.1@ == spec_api_endpoint(host@),
{
    if str_eq(host, "github.com") {
        return ("GITHUB_TOKEN".to_owned(), "https://api.github.com".to_owned());
    }
    let chars = str_to_chars(host);
    let n = chars.len();
    let mut replaced: Vec<char> = Vec::new();
    let mut i: usize = 0;
    while i < n
        invariant
            n == chars@.len(),
            0 <= i <= n,
            replaced@ == replace_dots(chars@.take(i as int)),
        decreases n - i,
    {
        let c = chars[i];
        replaced.push(if c == '.' { '_' } else { c });
        proof {
            assert(replaced@ =~= replace_dots(chars@.take(i as int + 1)));
        }
        i += 1;
    }
    proof {
        assert(chars@.take(n as int) =~= chars@);
    }
    let replaced_str = chars_range_to_string(&replaced, 0, n);
    proof {
        assert(replaced@.subrange(0, n as int) =~= replaced@);
    }
    let upper = to_uppercase(replaced_str.as_str());
    let mapped = str_to_chars(upper.as_str());
    let ghost transformed = upper_of(replace_dots(host@));
    proof {
        assert(mapped@ == transformed);
    }
    let m = mapped.len();
    proof {
        assert(mapped@.skip(0) =~= mapped@);
    }
    let mut st: usize = 0;
    while m - st >= 7 && mapped[st] == 'G' && mapped[st + 1] == 'I' && mapped[st + 2] == 'T'
        && mapped[st + 3] == 'H' && mapped[st + 4] == 'U' && mapped[st + 5] == 'B'
        && mapped[st + 6] == '_'
        invariant
            m == mapped@.len(),
            0 <= st <= m,
            mapped@ == transformed,
            strip_github_marker(transformed) == strip_github_marker(mapped@.skip(st as int)),
        decreases m - st,
    {
        proof {
            let rest = mapped@.skip(st as int);
            assert(rest.take(7) =~= github_marker());
            assert(rest.skip(7) =~= mapped@.skip(st as int + 7));
        }
        st += 7;
    }
    proof {
        let rest = mapped@.skip(st as int);
        if rest.len() >= 7 {
            assert(rest.take(7) != github_marker()) by {
                assert(rest.take(7)[0] == mapped@[st as int]);
                assert(rest.take(7)[1] == mapped@[st as int + 1]);
                assert(rest.take(7)[2] == mapped@[st as int + 2]);
                assert(rest.take(7)[3] == mapped@[st as int + 3]);
                assert(rest.take(7)[4] == mapped@[st as int + 4]);
                assert(rest.take(7)[5] == mapped@[st as int + 5]);
                assert(rest.take(7)[6] == mapped@[st as int + 6]);
            }
        }
        assert(strip_github_marker(transformed) == mapped@.skip(st as int));
    }
    let stripped = chars_range_to_string(&mapped, st, m);
    proof {
        assert(mapped@.subrange(st as int, m as int) =~= mapped@.skip(st as int));
    }
    let mut env_name = "GITHUB_".to_owned();
    env_name.append(stripped.as_str());
    env_name.append("_TOKEN");
    proof {
        assert("GITHUB_"@ =~= github_marker()) by {
            reveal_strlit("GITHUB_");
        }
    }
    let mut api_endpoint = "https://".to_owned();
    api_endpoint.append(host);
    api_endpoint.append("/api/v3");
    (env_name, api_endpoint)
}

/// The number of in-flight API calls to one host, bounded by the
/// host-scoped concurrency ceiling. Every remote operation must acquire
/// a permit before issuing its call and release it on every exit path.
#[derive(Debug)]
pub struct PermitLimiter {
    in_flight: u8,
}

impl PermitLimiter {
    /// How many calls are in flight right now.
    pub closed spec fn in_flight_count(&self) -> int {
        self.in_flight as int
    }

    /// The ceiling is never exceeded.
    pub open spec fn wf(&self) -> bool {
        self.in_flight_count() <= MAX_IN_FLIGHT_PER_HOST as int
    }

    /// A fresh limiter with no call in flight.
    pub fn new() -> (r: Self)
        ensures
            r.wf(),
            r.in_flight_count() == 0,
    {
        PermitLimiter { in_flight: 0 }
    }

    /// Grants a permit exactly when fewer calls than the ceiling are in
    /// flight; a grant raises the in-flight count by one.
    pub fn try_acquire(&mut self) -> (granted: bool)
        requires
            old(self).wf(),
        ensures
            final(self).wf(),
            granted == (old(self).in_flight_count() < MAX_IN_FLIGHT_PER_HOST as int),
            granted ==> final(self).in_flight_count() == old(self).in_flight_count() + 1,
            !granted ==> *final(self) == *old(self),
    {
        if self.in_flight < MAX_IN_FLIGHT_PER_HOST {
            self.in_flight += 1;
            true
        } else {
            false
        }
    }

    /// Returns a permit; the in-flight count drops by one.
    pub fn release(&mut self)
        requires
            old(self).wf(),
            old(self).in_flight_count() > 0,
        ensures
            final(self).wf(),
            final(self).in_flight_count() == old(self).in_flight_count() - 1,
    {
        self.in_flight -= 1;
    }
}

/// One step of a permit schedule: a task attempting to start a call, or
/// a task finishing one.
#[derive(Clone, Copy, Debug, PartialEq, Eq, Structural)]
pub enum PermitEvent {
    Acquire,
    Release,
}

/// The in-flight count after a schedule of acquire attempts and
/// releases, starting from an idle limiter: an acquire takes effect only
/// below the ceiling, a release only while something is in flight.
pub open spec fn in_flight_after(events: Seq<PermitEvent>) -> int
    decreases events.len(),
{
    if events.len() == 0 {
        0
    } else {
        let prev = in_flight_after(events.drop_last());
        match events.last() {
            PermitEvent::Acquire => if prev < MAX_IN_FLIGHT_PER_HOST as int {
                prev + 1
            } else {
                prev
            },
            PermitEvent::Release => if prev > 0 {
                prev - 1
            } else {
                prev
            },
        }
    }
}

/// Under every schedule of acquire attempts and releases, no more calls
/// than the host-scoped ceiling are ever in flight at once.
pub proof fn lemma_in_flight_bounded(events: Seq<PermitEvent>)
    ensures
        0 <= in_flight_after(events) <= MAX_IN_FLIGHT_PER_HOST as int,
    decreases events.len(),
{
    if events.len() > 0 {
        lemma_in_flight_bounded(events.drop_last());
    }
}

/// The per-host client slot: the host name, the derived credential
/// variable and API endpoint, and the host's permit limiter.
#[derive(Debug)]
pub struct ClientHandle {
    pub host: String,
    pub env_name: String,
    pub api_endpoint: String,
    pub limiter: PermitLimiter,
}

/// Owns one client slot per distinct host. The slot for a host is
/// created on first use and reused afterwards.
#[derive(Debug)]
pub struct ClientSet {
    pub clients: Vec<ClientHandle>,
}

impl ClientSet {
    /// Every slot's credential variable and endpoint are derived from
    /// its host, hosts are distinct, and every limiter respects the
    /// ceiling.
    pub open spec fn wf(&self) -> bool {
        &&& forall|i: int, j: int|
            0 <= i < j < self.clients@.len() ==> self.clients@[i].host@ != self.clients@[j].host@
        &&& forall|i: int|
            0 <= i < self.clients@.len() ==> (#[trigger] self.clients@[i]).env_name@
                == spec_env_name(self.clients@[i].host@) && self.clients@[i].api_endpoint@
                == spec_api_endpoint(self.clients@[i].host@) && self.clients@[i].limiter.wf()
    }

    /// An empty registry.
    pub fn new() -> (r: Self)
        ensures
            r.wf(),
            r.clients@.len() == 0,
    {
        ClientSet { clients: Vec::new() }
    }

    /// The slot index for `host`: the existing slot if the host was seen
    /// before (the registry is unchanged), a fresh slot with the derived
    /// credential variable, endpoint and an idle limiter otherwise.
    pub fn get_client(&mut self, host: &str) -> (idx: usize)
        requires
            old(self).wf(),
        ensures
            final(self).wf(),
            idx < final(self).clients@.len(),
            final(self).clients@[idx as int].host@ == host@,
            (exists|j: int|
                0 <= j < old(self).clients@.len() && old(self).clients@[j].host@ == host@) ==> (
            *final(self) == *old(self)),
            !(exists|j: int|
                0 <= j < old(self).clients@.len() && old(self).clients@[j].host@ == host@) ==> (idx
                == old(self).clients@.len() && final(self).clients@.len() == old(
                self,
            ).clients@.len() + 1 && (forall|j: int|
                0 <= j < old(self).clients@.len() ==> final(self).clients@[j] == old(
                    self,
                ).clients@[j]) && final(self).clients@[idx as int].limiter.in_flight_count() == 0),
    {
        let n = self.clients.len();
        let mut i: usize = 0;
        while i < n
            invariant
                *self == *old(self),
                old(self).wf(),
                n == self.clients@.len(),
                0 <= i <= n,
                forall|j: int| 0 <= j < i ==> self.clients@[j].host@ != host@,
            decreases n - i,
        {
            if str_eq(self.clients[i].host.as_str(), host) {
                return i;
            }
            i += 1;
        }
        let (env_name, api_endpoint) = get_env_name_api_endpoint_for_host(host);
        self.clients.push(
            ClientHandle {
                host: host.to_owned(),
                env_name,
                api_endpoint,
                limiter: PermitLimiter::new(),
            },
        );
        n
    }
}

} // verus!
