//! Admin-port security hardening: response headers and failed-auth throttling.
//!
//! Headers: every admin response carries a strict `Content-Security-Policy`
//! (the console is self-contained: no CDN, no inline scripts), clickjacking
//! and MIME-sniffing guards, and cache rules that keep token-guarded JSON out
//! of shared caches. HSTS is deliberately not set: TLS terminates at the
//! reverse proxy.
//!
//! Throttle: a fixed-window failed-auth limiter per client IP, so scanners
//! and mistyped scripts produce a clean 429 signal instead of an unbounded
//! 401 stream. Time is the caller's monotonic clock in nanoseconds.

use crate::text::chars_of;
use vstd::prelude::*;

verus! {

/// CSP for the embedded console: everything ships from the gateway itself.
/// `img-src data:` covers the inline SVG favicon; no other exception exists.
pub const CSP: &'static str = "default-src 'self'; script-src 'self'; style-src 'self'; img-src 'self' data:; font-src 'self'; connect-src 'self'; frame-ancestors 'none'; base-uri 'none'; form-action 'self'";

/// Whether `p` is a prefix of `s`.
pub open spec fn has_prefix(s: Seq<char>, p: Seq<char>) -> bool {
    p.len() <= s.len() && s.subrange(0, p.len() as int) == p
}

/// Decides `has_prefix` on character vectors.
fn vec_has_prefix(s: &Vec<char>, p: &Vec<char>) -> (b: bool)
    ensures
        b == has_prefix(s@, p@),
{
    if p.len() > s.len() {
        return false;
    }
    let mut i: usize = 0;
    while i < p.len()
        invariant
            p.len() <= s.len(),
            i <= p.len(),
            forall|j: int| 0 <= j < i ==> s@[j] == p@[j],
        decreases p.len() - i,
    {
        if s[i] != p[i] {
            assert(s@.subrange(0, p.len() as int)[i as int] != p@[i as int]);
            return false;
        }
        i = i + 1;
    }
    assert(s@.subrange(0, p.len() as int) =~= p@);
    true
}

/// The `Cache-Control` value for a request path: token-guarded API payloads and
/// metrics must never be cached; static assets (which change only with the
/// binary) may be cached for an hour; everything else is revalidated.
pub open spec fn cache_policy(path: Seq<char>) -> Seq<char> {
    if has_prefix(path, "/api/"@) || path == "/metrics"@ {
        "no-store"@
    } else if has_prefix(path, "/static/"@) || has_prefix(path, "/me/static/"@) {
        "public, max-age=3600"@
    } else {
        "no-cache"@
    }
}

/// The `Cache-Control` value for a request path.
pub fn cache_control_for(path: &str) -> (c: &'static str)
    ensures
        c@ == cache_policy(path@),
{
    let p = chars_of(path);
    let api = chars_of("/api/");
    let metrics = chars_of("/metrics");
    if vec_has_prefix(&p, &api) || (p.len() == metrics.len() && vec_has_prefix(&p, &metrics)) {
        proof {
            if p.len() == metrics.len() && has_prefix(p@, metrics@) {
                assert(p@ =~= p@.subrange(0, metrics@.len() as int));
            }
        }
        "no-store"
    } else if vec_has_prefix(&p, &chars_of("/static/")) || vec_has_prefix(
        &p,
        &chars_of("/me/static/"),
    ) {
        proof {
            if path@ == "/metrics"@ {
                assert(p@.subrange(0, metrics@.len() as int) =~= p@);
            }
        }
        "public, max-age=3600"
    } else {
        proof {
            if path@ == "/metrics"@ {
                assert(p@.subrange(0, metrics@.len() as int) =~= p@);
            }
        }
        "no-cache"
    }
}

/// The security headers of an admin response for `path`, as (name, value)
/// pairs, in the order they are set.
pub open spec fn security_header_texts(path: Seq<char>) -> Seq<(Seq<char>, Seq<char>)> {
    seq![
        ("content-security-policy"@, CSP@),
        ("x-content-type-options"@, "nosniff"@),
        ("x-frame-options"@, "DENY"@),
        ("referrer-policy"@, "no-referrer"@),
        ("cross-origin-opener-policy"@, "same-origin"@),
        ("cross-origin-resource-policy"@, "same-origin"@),
        ("cache-control"@, cache_policy(path)),
    ]
}

/// The views of a list of header pairs.
pub open spec fn header_views(h: Seq<(&'static str, &'static str)>) -> Seq<(Seq<char>, Seq<char>)> {
    h.map_values(|p: (&'static str, &'static str)| (p.0@, p.1@))
}

/// The security headers stamped on an admin response for `path`.
pub fn response_security_headers(path: &str) -> (h: Vec<(&'static str, &'static str)>)
    ensures
        header_views(h@) == security_header_texts(path@),
{
    let mut h: Vec<(&'static str, &'static str)> = Vec::new();
    h.push(("content-security-policy", CSP));
    h.push(("x-content-type-options", "nosniff"));
    h.push(("x-frame-options", "DENY"));
    h.push(("referrer-policy", "no-referrer"));
    h.push(("cross-origin-opener-policy", "same-origin"));
    h.push(("cross-origin-resource-policy", "same-origin"));
    h.push(("cache-control", cache_control_for(path)));
    assert(header_views(h@) =~= security_header_texts(path@));
    h
}

/// Failed attempts allowed per IP per window before 429.
pub const MAX_FAILURES_PER_WINDOW: u32 = 10;

/// Length of the failed-auth window, in nanoseconds (one minute).
pub const WINDOW_NANOS: u64 = 60_000_000_000;

/// Hard cap on tracked IPs (memory guard; expired windows are pruned lazily).
pub const MAX_TRACKED_IPS: usize = 10_000;

/// A client address, IPv4 or IPv6, as its numeric value.
#[derive(Debug, Clone, Copy, PartialEq, Eq, Structural)]
pub enum ClientIp {
    V4(u32),
    V6(u128),
}

/// One IP's failure window: when it started and how many failures it holds.
#[derive(Clone, Copy)]
struct FailureWindow {
    ip: ClientIp,
    start: u64,
    failures: u32,
}

/// Time since `start` on a monotonic clock reading `now`; zero when `now`
/// is earlier, as `Instant::elapsed` saturates.
pub open spec fn elapsed(start: u64, now: u64) -> int {
    if now >= start {
        now - start
    } else {
        0
    }
}

/// Whether a window that started at `start` is still open at `now`.
pub open spec fn in_window(start: u64, now: u64) -> bool {
    elapsed(start, now) < WINDOW_NANOS
}

/// The windows of `m` that are still open at `now`.
pub open spec fn open_windows(m: Map<ClientIp, (u64, u32)>, now: u64) -> Map<ClientIp, (u64, u32)> {
    Map::new(|k: ClientIp| m.contains_key(k) && in_window(m[k].0, now), |k: ClientIp| m[k])
}

/// Whether the tracker `m` is full and `ip` would be a newcomer.
pub open spec fn saturated(m: Map<ClientIp, (u64, u32)>, ip: ClientIp) -> bool {
    m.len() >= MAX_TRACKED_IPS && !m.contains_key(ip)
}

/// Whether `ip` has exhausted its failure budget in the window open at `now`.
pub open spec fn blocked(m: Map<ClientIp, (u64, u32)>, ip: ClientIp, now: u64) -> bool {
    m.contains_key(ip) && in_window(m[ip].0, now) && m[ip].1 >= MAX_FAILURES_PER_WINDOW
}

/// The windows after a blocked-check of `ip` at `now`: a run-out window of `ip` is dropped.
pub open spec fn after_check(m: Map<ClientIp, (u64, u32)>, ip: ClientIp, now: u64) -> Map<
    ClientIp,
    (u64, u32),
> {
    if m.contains_key(ip) && !in_window(m[ip].0, now) {
        m.remove(ip)
    } else {
        m
    }
}

/// The failure count reported for a failed attempt of `ip` at `now`, and the
/// windows afterwards. A full tracker first drops run-out windows; if it is
/// still full the newcomer is reported at the budget and not recorded.
/// Otherwise the attempt joins the open window of `ip`, or starts a new one.
pub open spec fn after_failure(m: Map<ClientIp, (u64, u32)>, ip: ClientIp, now: u64) -> (
    int,
    Map<ClientIp, (u64, u32)>,
) {
    let pruned = if saturated(m, ip) {
        open_windows(m, now)
    } else {
        m
    };
    if saturated(m, ip) && pruned.len() >= MAX_TRACKED_IPS {
        (MAX_FAILURES_PER_WINDOW as int, pruned)
    } else {
        let (start, count) = if pruned.contains_key(ip) && in_window(pruned[ip].0, now) {
            pruned[ip]
        } else {
            (now, 0u32)
        };
        (count + 1, pruned.insert(ip, (start, (count + 1) as u32)))
    }
}

spec fn window_value(w: FailureWindow) -> (u64, u32) {
    (w.start, w.failures)
}

spec fn windows_map(s: Seq<FailureWindow>) -> Map<ClientIp, (u64, u32)>
    decreases s.len(),
{
    if s.len() == 0 {
        Map::empty()
    } else {
        windows_map(s.drop_last()).insert(s.last().ip, window_value(s.last()))
    }
}

spec fn distinct_ips(s: Seq<FailureWindow>) -> bool {
    forall|i: int, j: int| 0 <= i < j < s.len() ==> s[i].ip != s[j].ip
}

proof fn lemma_windows_map(s: Seq<FailureWindow>)
    requires
        distinct_ips(s),
    ensures
        windows_map(s).dom().finite(),
        windows_map(s).dom().len() == s.len(),
        forall|i: int|
            0 <= i < s.len() ==> windows_map(s).contains_key(#[trigger] s[i].ip) && windows_map(
                s,
            )[s[i].ip] == window_value(s[i]),
        forall|k: ClientIp|
            #[trigger] windows_map(s).contains_key(k) ==> exists|i: int|
                0 <= i < s.len() && s[i].ip == k,
    decreases s.len(),
{
    if s.len() > 0 {
        let t = s.drop_last();
        assert(distinct_ips(t));
        lemma_windows_map(t);
        if windows_map(t).contains_key(s.last().ip) {
            let i = choose|i: int| 0 <= i < t.len() && t[i].ip == s.last().ip;
            assert(s[i].ip == s[s.len() - 1].ip);
        }
        assert forall|i: int| 0 <= i < s.len() implies windows_map(s).contains_key(
            #[trigger] s[i].ip,
        ) && windows_map(s)[s[i].ip] == window_value(s[i]) by {
            if i < s.len() - 1 {
                assert(t[i] == s[i]);
                assert(s[i].ip != s[s.len() - 1].ip);
            }
        }
        assert forall|k: ClientIp| #[trigger] windows_map(s).contains_key(k) implies exists|i: int|
            0 <= i < s.len() && s[i].ip == k by {
            if k != s.last().ip {
                let i = choose|i: int| 0 <= i < t.len() && t[i].ip == k;
                assert(s[i] == t[i]);
            } else {
                assert(s[s.len() - 1].ip == k);
            }
        }
    }
}

proof fn lemma_windows_map_update(s: Seq<FailureWindow>, i: int, w: FailureWindow)
    requires
        distinct_ips(s),
        0 <= i < s.len(),
        w.ip == s[i].ip,
    ensures
        distinct_ips(s.update(i, w)),
        windows_map(s.update(i, w)) == windows_map(s).insert(w.ip, window_value(w)),
{
    let u = s.update(i, w);
    assert(distinct_ips(u)) by {
        assert forall|a: int, b: int| 0 <= a < b < u.len() implies u[a].ip != u[b].ip by {
            assert(s[a].ip != s[b].ip);
        }
    }
    lemma_windows_map(s);
    lemma_windows_map(u);
    let m = windows_map(s).insert(w.ip, window_value(w));
    assert forall|k: ClientIp| #[trigger] windows_map(u).contains_key(k) <==> m.contains_key(k) by {
        if windows_map(u).contains_key(k) {
            let j = choose|j: int| 0 <= j < u.len() && u[j].ip == k;
            assert(s[j].ip == k);
        }
        if windows_map(s).contains_key(k) {
            let j = choose|j: int| 0 <= j < s.len() && s[j].ip == k;
            assert(u[j].ip == k);
        }
    }
    assert forall|k: ClientIp| #[trigger] windows_map(u).contains_key(k) implies windows_map(u)[k]
        == m[k] by {
        let j = choose|j: int| 0 <= j < u.len() && u[j].ip == k;
        if j != i {
            assert(s[j] == u[j]);
        }
    }
    assert(windows_map(u) =~= m);
}

proof fn lemma_windows_map_remove(s: Seq<FailureWindow>, i: int)
    requires
        distinct_ips(s),
        0 <= i < s.len(),
    ensures
        distinct_ips(s.remove(i)),
        windows_map(s.remove(i)) == windows_map(s).remove(s[i].ip),
{
    let u = s.remove(i);
    assert(distinct_ips(u)) by {
        assert forall|a: int, b: int| 0 <= a < b < u.len() implies u[a].ip != u[b].ip by {
            let a2 = if a < i { a } else { a + 1 };
            let b2 = if b < i { b } else { b + 1 };
            assert(u[a] == s[a2] && u[b] == s[b2]);
        }
    }
    lemma_windows_map(s);
    lemma_windows_map(u);
    let m = windows_map(s).remove(s[i].ip);
    assert forall|k: ClientIp| #[trigger] windows_map(u).contains_key(k) <==> m.contains_key(k) by {
        if windows_map(u).contains_key(k) {
            let j = choose|j: int| 0 <= j < u.len() && u[j].ip == k;
            let j2 = if j < i { j } else { j + 1 };
            assert(u[j] == s[j2]);
        }
        if m.contains_key(k) {
            let j = choose|j: int| 0 <= j < s.len() && s[j].ip == k;
            assert(j != i);
            let j2 = if j < i { j } else { j - 1 };
            assert(u[j2] == s[j]);
        }
    }
    assert forall|k: ClientIp| #[trigger] windows_map(u).contains_key(k) implies windows_map(u)[k]
        == m[k] by {
        let j = choose|j: int| 0 <= j < u.len() && u[j].ip == k;
        let j2 = if j < i { j } else { j + 1 };
        assert(u[j] == s[j2]);
    }
    assert(windows_map(u) =~= m);
}

/// Fixed-window failed-auth limiter per client IP.
pub struct AuthThrottle {
    windows: Vec<FailureWindow>,
}

impl View for AuthThrottle {
    /// Each tracked IP's window: its start time and its failure count.
    type V = Map<ClientIp, (u64, u32)>;

    closed spec fn view(&self) -> Map<ClientIp, (u64, u32)> {
        windows_map(self.windows@)
    }
}

impl Default for AuthThrottle {
    fn default() -> (t: Self)
        ensures
            t.wf(),
            t@ == Map::<ClientIp, (u64, u32)>::empty(),
    {
        AuthThrottle::new()
    }
}

impl AuthThrottle {
    /// Well-formedness: one window per IP, and no more than `MAX_TRACKED_IPS`
    /// windows (the memory guard).
    pub closed spec fn wf(&self) -> bool {
        &&& distinct_ips(self.windows@)
        &&& self.windows.len() <= MAX_TRACKED_IPS
    }

    /// A well-formed throttle tracks finitely many IPs, never more than
    /// `MAX_TRACKED_IPS`.
    pub proof fn lemma_tracked_capped(&self)
        requires
            self.wf(),
        ensures
            self@.dom().finite(),
            self@.len() <= MAX_TRACKED_IPS,
    {
        lemma_windows_map(self.windows@);
    }

    /// A throttle that tracks no IP.
    pub fn new() -> (t: Self)
        ensures
            t.wf(),
            t@ == Map::<ClientIp, (u64, u32)>::empty(),
    {
        let t = AuthThrottle { windows: Vec::new() };
        assert(t@ =~= Map::<ClientIp, (u64, u32)>::empty());
        t
    }

    fn find(&self, ip: ClientIp) -> (r: Option<usize>)
        requires
            self.wf(),
        ensures
            match r {
                Some(i) => i < self.windows.len() && self.windows@[i as int].ip == ip
                    && self@.contains_key(ip) && self@[ip] == window_value(
                    self.windows@[i as int],
                ),
                None => !self@.contains_key(ip),
            },
    {
        let mut i: usize = 0;
        while i < self.windows.len()
            invariant
                self.wf(),
                i <= self.windows.len(),
                forall|j: int| 0 <= j < i ==> self.windows@[j].ip != ip,
            decreases self.windows.len() - i,
        {
            if self.windows[i].ip == ip {
                proof {
                    lemma_windows_map(self.windows@);
                    assert(windows_map(self.windows@).contains_key(self.windows@[i as int].ip));
                }
                return Some(i);
            }
            i = i + 1;
        }
        proof {
            lemma_windows_map(self.windows@);
        }
        None
    }

    fn tracked_len(&self) -> (n: usize)
        requires
            self.wf(),
        ensures
            n == self@.len(),
    {
        proof {
            lemma_windows_map(self.windows@);
        }
        self.windows.len()
    }

    /// The failure count of the window of `ip` that is open at `now`, if any.
    pub fn failures_in_window(&self, ip: ClientIp, now: u64) -> (r: Option<u32>)
        requires
            self.wf(),
        ensures
            r == (if self@.contains_key(ip) && in_window(self@[ip].0, now) {
                Some(self@[ip].1)
            } else {
                None
            }),
    {
        match self.find(ip) {
            Some(i) => if now.saturating_sub(self.windows[i].start) < WINDOW_NANOS {
                Some(self.windows[i].failures)
            } else {
                None
            },
            None => None,
        }
    }

    /// True when `ip` has exhausted its failure budget for the window open at
    /// `now` (the caller answers 429 without evaluating credentials). A window
    /// that has run out is dropped.
    pub fn is_blocked(&mut self, ip: ClientIp, now: u64) -> (b: bool)
        requires
            old(self).wf(),
        ensures
            final(self).wf(),
            b == blocked(old(self)@, ip, now),
            final(self)@ == after_check(old(self)@, ip, now),
    {
        match self.find(ip) {
            Some(i) => {
                let w = self.windows[i];
                if now.saturating_sub(w.start) < WINDOW_NANOS {
                    w.failures >= MAX_FAILURES_PER_WINDOW
                } else {
                    proof {
                        lemma_windows_map_remove(self.windows@, i as int);
                    }
                    self.windows.remove(i);
                    false
                }
            },
            None => false,
        }
    }

    /// Drops every window that has run out at `now`.
    fn prune(&mut self, now: u64)
        requires
            old(self).wf(),
        ensures
            final(self).wf(),
            final(self)@ == open_windows(old(self)@, now),
    {
        let ghost s = self.windows@;
        proof {
            lemma_windows_map(s);
        }
        let mut kept: Vec<FailureWindow> = Vec::new();
        let mut i: usize = 0;
        while i < self.windows.len()
            invariant
                s == self.windows@,
                distinct_ips(s),
                i <= s.len(),
                distinct_ips(kept@),
                kept.len() <= i,
                windows_map(kept@) == open_windows(windows_map(s.take(i as int)), now),
                forall|k: ClientIp| #[trigger]
                    windows_map(kept@).contains_key(k) ==> windows_map(
                        s.take(i as int),
                    ).contains_key(k),
            decreases s.len() - i,
        {
            let w = self.windows[i];
            let ghost before = kept@;
            proof {
                assert(s.take(i + 1).drop_last() =~= s.take(i as int));
                assert(s.take(i + 1).last() == w);
                assert(distinct_ips(s.take(i as int)));
                lemma_windows_map(s.take(i as int));
                if windows_map(s.take(i as int)).contains_key(w.ip) {
                    let j = choose|j: int| 0 <= j < i && s.take(i as int)[j].ip == w.ip;
                    assert(s[j].ip == s[i as int].ip);
                }
                lemma_windows_map(kept@);
            }
            if now.saturating_sub(w.start) < WINDOW_NANOS {
                kept.push(w);
                proof {
                    assert(kept@.drop_last() =~= before);
                    assert(distinct_ips(kept@)) by {
                        assert forall|a: int, b: int| 0 <= a < b < kept@.len() implies kept@[a].ip
                            != kept@[b].ip by {
                            if b == kept@.len() - 1 {
                                assert(windows_map(before).contains_key(before[a].ip));
                            }
                        }
                    }
                }
            }
            proof {
                assert(windows_map(kept@) =~= open_windows(windows_map(s.take(i + 1)), now));
            }
            i = i + 1;
        }
        proof {
            assert(s.take(s.len() as int) =~= s);
        }
        self.windows = kept;
    }

    /// Records a failed attempt at `now`; returns the failure count in the
    /// window. When the tracker is full and `ip` is new, run-out windows are
    /// pruned first; if it is still full, the newcomer is treated as blocked
    /// (the budget is returned and nothing is recorded).
    pub fn record_failure(&mut self, ip: ClientIp, now: u64) -> (n: u32)
        requires
            old(self).wf(),
            old(self)@.contains_key(ip) && in_window(old(self)@[ip].0, now) ==> old(self)@[ip].1
                < u32::MAX,
        ensures
            final(self).wf(),
            n == after_failure(old(self)@, ip, now).0,
            final(self)@ == after_failure(old(self)@, ip, now).1,
    {
        let found = self.find(ip);
        if self.tracked_len() >= MAX_TRACKED_IPS && found.is_none() {
            self.prune(now);
            if self.tracked_len() >= MAX_TRACKED_IPS {
                return MAX_FAILURES_PER_WINDOW;
            }
        }
        match self.find(ip) {
            Some(i) => {
                let w = self.windows[i];
                let nw = if now.saturating_sub(w.start) < WINDOW_NANOS {
                    FailureWindow { ip, start: w.start, failures: w.failures + 1 }
                } else {
                    FailureWindow { ip, start: now, failures: 1 }
                };
                proof {
                    lemma_windows_map_update(self.windows@, i as int, nw);
                }
                self.windows.set(i, nw);
                nw.failures
            },
            None => {
                let ghost before = self.windows@;
                proof {
                    lemma_windows_map(before);
                }
                let nw = FailureWindow { ip, start: now, failures: 1 };
                self.windows.push(nw);
                proof {
                    assert(self.windows@.drop_last() =~= before);
                    assert(distinct_ips(self.windows@)) by {
                        assert forall|a: int, b: int|
                            0 <= a < b < self.windows@.len() implies self.windows@[a].ip
                            != self.windows@[b].ip by {
                            if b == self.windows@.len() - 1 {
                                assert(windows_map(before).contains_key(before[a].ip));
                            }
                        }
                    }
                }
                1
            },
        }
    }

    /// Clears the window of `ip` after a successful authentication.
    pub fn record_success(&mut self, ip: ClientIp)
        requires
            old(self).wf(),
        ensures
            final(self).wf(),
            final(self)@ == old(self)@.remove(ip),
    {
        match self.find(ip) {
            Some(i) => {
                proof {
                    lemma_windows_map_remove(self.windows@, i as int);
                }
                self.windows.remove(i);
            },
            None => {
                assert(old(self)@.remove(ip) =~= old(self)@);
            },
        }
    }
}

/// A successful authentication leaves the IP unblocked.
pub proof fn lemma_success_unblocks(m: Map<ClientIp, (u64, u32)>, ip: ClientIp, now: u64)
    ensures
        !blocked(m.remove(ip), ip, now),
{
}

/// Throttling is per IP: a failure or a check for one IP never changes whether
/// another IP is blocked at the same time.
pub proof fn lemma_throttle_isolates_ips(
    m: Map<ClientIp, (u64, u32)>,
    ip: ClientIp,
    other: ClientIp,
    now: u64,
)
    requires
        ip != other,
    ensures
        blocked(after_failure(m, ip, now).1, other, now) == blocked(m, other, now),
        blocked(after_check(m, ip, now), other, now) == blocked(m, other, now),
{
}

/// The windows after failed attempts of `ip` at each of `times`, in order.
pub open spec fn failures_at(m: Map<ClientIp, (u64, u32)>, ip: ClientIp, times: Seq<u64>) -> Map<
    ClientIp,
    (u64, u32),
>
    decreases times.len(),
{
    if times.len() == 0 {
        m
    } else {
        after_failure(failures_at(m, ip, times.drop_last()), ip, times.last()).1
    }
}

/// Failures of a fresh IP that all fall in the window opened by the first one
/// are counted one by one, and the IP is blocked exactly once the budget is
/// spent (while the tracker has room for it).
pub proof fn lemma_budget_blocks(m: Map<ClientIp, (u64, u32)>, ip: ClientIp, times: Seq<u64>)
    requires
        m.dom().finite(),
        m.len() < MAX_TRACKED_IPS,
        !m.contains_key(ip),
        times.len() > 0,
        times.len() < u32::MAX,
        forall|k: int| 0 <= k < times.len() ==> times[0] <= #[trigger] times[k] && times[k] - times[0]
            < WINDOW_NANOS,
    ensures
        failures_at(m, ip, times).contains_key(ip),
        failures_at(m, ip, times)[ip] == (times[0], times.len() as u32),
        blocked(failures_at(m, ip, times), ip, times.last()) <==> times.len()
            >= MAX_FAILURES_PER_WINDOW,
    decreases times.len(),
{
    let t = times.drop_last();
    if t.len() == 0 {
        assert(failures_at(m, ip, t) == m);
    } else {
        assert forall|k: int| 0 <= k < t.len() implies t[0] <= #[trigger] t[k] && t[k] - t[0]
            < WINDOW_NANOS by {
            assert(t[k] == times[k]);
        }
        lemma_budget_blocks(m, ip, t);
        assert(t[0] == times[0]);
    }
}

/// The memory guard: a failed attempt never makes the tracker hold more than
/// `MAX_TRACKED_IPS` IPs.
pub proof fn lemma_failure_keeps_cap(m: Map<ClientIp, (u64, u32)>, ip: ClientIp, now: u64)
    requires
        m.dom().finite(),
        m.len() <= MAX_TRACKED_IPS,
    ensures
        after_failure(m, ip, now).1.dom().finite(),
        after_failure(m, ip, now).1.len() <= MAX_TRACKED_IPS,
{
    let pruned = if saturated(m, ip) {
        open_windows(m, now)
    } else {
        m
    };
    assert(pruned.dom().subset_of(m.dom()));
    vstd::set_lib::lemma_len_subset(pruned.dom(), m.dom());
}

/// Only static assets may be cached publicly: a path is given
/// `public, max-age=3600` exactly when it starts with `/static/` or
/// `/me/static/` (and is not an API or metrics path); API and metrics paths
/// are never stored; every other path is revalidated (`no-cache`).
pub proof fn lemma_cache_rules(path: Seq<char>)
    ensures
        cache_policy(path) == "no-store"@ <==> (has_prefix(path, "/api/"@) || path == "/metrics"@),
        cache_policy(path) == "public, max-age=3600"@ <==> (!has_prefix(path, "/api/"@) && path
            != "/metrics"@ && (has_prefix(path, "/static/"@) || has_prefix(path, "/me/static/"@))),
        (!has_prefix(path, "/api/"@) && path != "/metrics"@ && !has_prefix(path, "/static/"@)
            && !has_prefix(path, "/me/static/"@)) ==> cache_policy(path) == "no-cache"@,
{
    reveal_strlit("no-store");
    reveal_strlit("no-cache");
    reveal_strlit("public, max-age=3600");
    assert("no-store"@.len() == 8);
    assert("no-cache"@.len() == 8);
    assert("public, max-age=3600"@.len() == 20);
    assert("no-store"@ != "public, max-age=3600"@);
    assert("no-cache"@ != "public, max-age=3600"@);
    assert("no-store"@[3] != "no-cache"@[3]);
}

} // verus!
