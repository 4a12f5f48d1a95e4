//! Routing paths: target resolvers, relays, and the manager that
//! enumerates target × relay-chain paths and selects one, honouring
//! randomization knobs and health flags. No path repeats an authority.

use vstd::prelude::*;

use itertools::Itertools;

use crate::bytes::{bytes_eq, clone_bytes, extend_bytes};
use crate::config::ProxyConfig;
use crate::errors::DapError;
use crate::urlenc::{dec_of, form_enc, push_decimal, urlencode_into};
use crate::urlparse::{parse_url_parts, url_authority_of, url_parses, url_path_of};

verus! {

// ---------------------------------------------------------------------
// Schemes and DoH flavours
// ---------------------------------------------------------------------

/// URL scheme of a target or relay.
#[derive(Clone, Copy, Debug)]
pub enum Scheme {
    Http,
    Https,
}

/// ASCII bytes of a scheme.
pub open spec fn scheme_bytes(s: Scheme) -> Seq<u8> {
    match s {
        Scheme::Http => seq![104u8, 116, 116, 112],
        Scheme::Https => seq![104u8, 116, 116, 112, 115],
    }
}

impl Scheme {
    /// Text of the scheme.
    pub fn as_str(&self) -> (r: &'static str)
        ensures
            self is Http ==> r@ == "http"@,
            self is Https ==> r@ == "https"@,
    {
        match self {
            Scheme::Http => "http",
            Scheme::Https => "https",
        }
    }

    /// Scheme named by the bytes; anything but `http` and `https` is
    /// refused.
    pub fn try_from(s: &Vec<u8>) -> (r: Result<Scheme, DapError>)
        ensures
            match r {
                Ok(sch) => (sch is Http <==> s@ == scheme_bytes(Scheme::Http)) && (sch is Https
                    <==> s@ == scheme_bytes(Scheme::Https)),
                Err(e) => e == DapError::FailedToBuildDohUrl && s@ != scheme_bytes(Scheme::Http)
                    && s@ != scheme_bytes(Scheme::Https),
            },
    {
        let mut http: Vec<u8> = Vec::new();
        http.push(104);
        http.push(116);
        http.push(116);
        http.push(112);
        assert(http@ =~= scheme_bytes(Scheme::Http));
        if bytes_eq(s, &http) {
            return Ok(Scheme::Http);
        }
        http.push(115);
        assert(http@ =~= scheme_bytes(Scheme::Https));
        if bytes_eq(s, &http) {
            return Ok(Scheme::Https);
        }
        Err(DapError::FailedToBuildDohUrl)
    }

    /// Append the ASCII bytes of the scheme.
    fn push_bytes(&self, out: &mut Vec<u8>)
        ensures
            final(out)@ == old(out)@ + scheme_bytes(*self),
    {
        match self {
            Scheme::Http => {
                out.push(104);
                out.push(116);
                out.push(116);
                out.push(112);
            },
            Scheme::Https => {
                out.push(104);
                out.push(116);
                out.push(116);
                out.push(112);
                out.push(115);
            },
        }
        assert(out@ =~= old(out)@ + scheme_bytes(*self));
    }
}

/// Standard DoH or the oblivious variants (ODoH and MODoH).
#[derive(Clone, Copy, Debug)]
pub enum DoHType {
    Standard,
    Oblivious,
}

impl DoHType {
    /// Media type used in the `Accept` and `Content-Type` headers.
    pub fn as_str(&self) -> (r: &'static str)
        ensures
            self is Standard ==> r@ == "application/dns-message"@,
            self is Oblivious ==> r@ == "application/oblivious-dns-message"@,
    {
        match self {
            DoHType::Standard => "application/dns-message",
            DoHType::Oblivious => "application/oblivious-dns-message",
        }
    }
}

// ---------------------------------------------------------------------
// Targets, relays, paths
// ---------------------------------------------------------------------

/// Model of a target resolver.
pub struct TargetView {
    pub authority: Seq<u8>,
    pub path: Seq<u8>,
    pub scheme: Scheme,
}

/// DoH target resolver: authority like `dns.example:443`, path starting
/// with `/`, and scheme.
pub struct DoHTarget {
    pub authority: Vec<u8>,
    pub path: Vec<u8>,
    pub scheme: Scheme,
}

impl View for DoHTarget {
    type V = TargetView;

    open spec fn view(&self) -> TargetView {
        TargetView { authority: self.authority@, path: self.path@, scheme: self.scheme }
    }
}

impl DoHTarget {
    /// Field-for-field copy.
    pub fn duplicate(&self) -> (r: DoHTarget)
        ensures
            r@ == self@,
    {
        DoHTarget {
            authority: clone_bytes(&self.authority),
            path: clone_bytes(&self.path),
            scheme: self.scheme,
        }
    }
}

/// Model of a relay.
pub struct RelayView {
    pub authority: Seq<u8>,
    pub path: Seq<u8>,
    pub scheme: Scheme,
    pub can_be_next_hop: bool,
}

/// ODoH or MODoH relay; `can_be_next_hop` marks relays that may stand
/// first in a chain.
pub struct DoHRelay {
    pub authority: Vec<u8>,
    pub path: Vec<u8>,
    pub scheme: Scheme,
    pub can_be_next_hop: bool,
}

impl View for DoHRelay {
    type V = RelayView;

    open spec fn view(&self) -> RelayView {
        RelayView {
            authority: self.authority@,
            path: self.path@,
            scheme: self.scheme,
            can_be_next_hop: self.can_be_next_hop,
        }
    }
}

impl DoHRelay {
    /// Field-for-field copy.
    pub fn duplicate(&self) -> (r: DoHRelay)
        ensures
            r@ == self@,
    {
        DoHRelay {
            authority: clone_bytes(&self.authority),
            path: clone_bytes(&self.path),
            scheme: self.scheme,
            can_be_next_hop: self.can_be_next_hop,
        }
    }
}

/// Advisory health flag of a path.
#[derive(Debug)]
pub struct IsHealthy(pub bool);

impl IsHealthy {
    /// A fresh flag: healthy.
    pub fn new() -> (r: Self)
        ensures
            r.0 == true,
    {
        IsHealthy(true)
    }

    /// Mark healthy.
    pub fn make_halthy(&mut self)
        ensures
            final(self).0 == true,
    {
        self.0 = true;
    }

    /// Mark unhealthy.
    pub fn make_unhealthy(&mut self)
        ensures
            final(self).0 == false,
    {
        self.0 = false;
    }

    /// Set the flag.
    pub fn set(&mut self, is_healthy: bool)
        ensures
            final(self).0 == is_healthy,
    {
        self.0 = is_healthy;
    }

    /// Read the flag.
    pub fn get(&self) -> (r: bool)
        ensures
            r == self.0,
    {
        self.0
    }
}

/// Model of a path.
#[verifier::ext_equal]
pub struct PathView {
    pub target: TargetView,
    pub relays: Seq<RelayView>,
    pub healthy: bool,
    pub doh_type: DoHType,
}

/// One routing choice: a target plus an ordered (possibly empty) chain
/// of relays, the first of which must be a possible next hop.
pub struct DoHPath {
    pub target: DoHTarget,
    pub relays: Vec<DoHRelay>,
    pub is_healthy: IsHealthy,
    pub doh_type: DoHType,
}

/// Views of a relay list.
pub open spec fn relays_view(s: Seq<DoHRelay>) -> Seq<RelayView> {
    s.map_values(|r: DoHRelay| r@)
}

impl View for DoHPath {
    type V = PathView;

    open spec fn view(&self) -> PathView {
        PathView {
            target: self.target@,
            relays: relays_view(self.relays@),
            healthy: self.is_healthy.0,
            doh_type: self.doh_type,
        }
    }
}

// ---------------------------------------------------------------------
// Loop freedom
// ---------------------------------------------------------------------

/// All authorities a path touches: the target's, then each relay's.
pub open spec fn authorities(p: PathView) -> Seq<Seq<u8>> {
    seq![p.target.authority] + p.relays.map_values(|r: RelayView| r.authority)
}

/// No authority appears twice in the path.
#[verifier::opaque]
pub open spec fn loop_free(p: PathView) -> bool {
    forall|j: int, k: int|
        0 <= j < k < authorities(p).len() ==> authorities(p)[j] != authorities(p)[k]
}

/// Check that no authority repeats along the path.
pub fn is_loop_free(p: &DoHPath) -> (r: bool)
    ensures
        r == loop_free(p@),
{
    let ghost auths = authorities(p@);
    proof {
        reveal(loop_free);
    }
    assert(auths.len() == 1 + p.relays@.len());
    assert(auths[0] == p@.target.authority);
    assert(forall|k: int| 0 <= k < p.relays@.len() ==> auths[k + 1] == p@.relays[k].authority);
    let mut i: usize = 0;
    while i < p.relays.len()
        invariant
            i <= p.relays@.len(),
            auths == authorities(p@),
            auths.len() == 1 + p.relays@.len(),
            auths[0] == p@.target.authority,
            forall|k: int| 0 <= k < p.relays@.len() ==> auths[k + 1] == p@.relays[k].authority,
            forall|k: int| 0 <= k < i ==> auths[0] != #[trigger] auths[k + 1],
        decreases p.relays@.len() - i,
    {
        if bytes_eq(&p.target.authority, &p.relays[i].authority) {
            proof {
                reveal(loop_free);
                assert(auths[0] == auths[i + 1]);
            }
            return false;
        }
        i = i + 1;
    }
    let mut a: usize = 0;
    while a < p.relays.len()
        invariant
            a <= p.relays@.len(),
            auths == authorities(p@),
            auths.len() == 1 + p.relays@.len(),
            auths[0] == p@.target.authority,
            forall|k: int| 0 <= k < p.relays@.len() ==> auths[k + 1] == p@.relays[k].authority,
            forall|k: int| 0 <= k < p.relays@.len() ==> auths[0] != #[trigger] auths[k + 1],
            forall|j: int, k: int|
                0 <= j < k < p.relays@.len() && j < a ==> #[trigger] auths[j + 1] != #[trigger] auths[k + 1],
        decreases p.relays@.len() - a,
    {
        let mut b: usize = a + 1;
        while b < p.relays.len()
            invariant
                a < b || b == a + 1,
                a < p.relays@.len(),
                a + 1 <= b <= p.relays@.len(),
                auths == authorities(p@),
                auths.len() == 1 + p.relays@.len(),
                forall|k: int|
                    0 <= k < p.relays@.len() ==> auths[k + 1] == p@.relays[k].authority,
                forall|k: int| a < k < b ==> auths[a + 1] != #[trigger] auths[k + 1],
            decreases p.relays@.len() - b,
        {
            if bytes_eq(&p.relays[a].authority, &p.relays[b].authority) {
                proof {
                    reveal(loop_free);
                    assert(auths[a + 1] == auths[b + 1]);
                }
                return false;
            }
            b = b + 1;
        }
        a = a + 1;
    }
    proof {
        reveal(loop_free);
        assert forall|j: int, k: int| 0 <= j < k < auths.len() implies auths[j] != auths[k] by {
            if j == 0 {
                assert(auths[0] != auths[(k - 1) + 1]);
            } else {
                assert(auths[(j - 1) + 1] != auths[(k - 1) + 1]);
            }
        }
    }
    true
}

// ---------------------------------------------------------------------
// URL assembly
// ---------------------------------------------------------------------

/// `"://"`.
pub open spec fn sep_bytes() -> Seq<u8> {
    seq![58u8, 47, 47]
}

/// `"?targethost="`.
pub open spec fn targethost_key() -> Seq<u8> {
    seq![63u8, 116, 97, 114, 103, 101, 116, 104, 111, 115, 116, 61]
}

/// `"&targetpath="`.
pub open spec fn targetpath_key() -> Seq<u8> {
    seq![38u8, 116, 97, 114, 103, 101, 116, 112, 97, 116, 104, 61]
}

/// `"&relayhost["`.
pub open spec fn relayhost_key() -> Seq<u8> {
    seq![38u8, 114, 101, 108, 97, 121, 104, 111, 115, 116, 91]
}

/// `"&relaypath["`.
pub open spec fn relaypath_key() -> Seq<u8> {
    seq![38u8, 114, 101, 108, 97, 121, 112, 97, 116, 104, 91]
}

/// `"]="`.
pub open spec fn close_eq() -> Seq<u8> {
    seq![93u8, 61]
}

/// URL of a standard path: `scheme://authority/path`.
pub open spec fn std_url(t: TargetView) -> Seq<u8> {
    scheme_bytes(t.scheme) + sep_bytes() + t.authority + t.path
}

/// Query pairs `&relayhost[i]=…&relaypath[i]=…` for the intermediate
/// relays, indices starting at 1 and contiguous.
pub open spec fn relay_pairs(rs: Seq<RelayView>, i: int) -> Seq<u8>
    decreases rs.len() - i,
{
    if 1 <= i < rs.len() {
        relayhost_key() + dec_of(i as nat) + close_eq() + form_enc(rs[i].authority)
            + relaypath_key() + dec_of(i as nat) + close_eq() + form_enc(rs[i].path) + relay_pairs(
            rs,
            i + 1,
        )
    } else {
        Seq::empty()
    }
}

/// URL of an oblivious path: the next hop's own URL carrying the target
/// and the further relays as query parameters.
pub open spec fn obl_url(p: PathView) -> Seq<u8> {
    scheme_bytes(p.relays[0].scheme) + sep_bytes() + p.relays[0].authority + p.relays[0].path
        + targethost_key() + form_enc(p.target.authority) + targetpath_key() + form_enc(
        p.target.path,
    ) + relay_pairs(p.relays, 1)
}

/// URL of a path, by its flavour.
pub open spec fn url_of(p: PathView) -> Seq<u8> {
    match p.doh_type {
        DoHType::Standard => std_url(p.target),
        DoHType::Oblivious => obl_url(p),
    }
}

fn push_sep(out: &mut Vec<u8>)
    ensures
        final(out)@ == old(out)@ + sep_bytes(),
{
    out.push(58);
    out.push(47);
    out.push(47);
    assert(out@ =~= old(out)@ + sep_bytes());
}

fn push_targethost(out: &mut Vec<u8>)
    ensures
        final(out)@ == old(out)@ + targethost_key(),
{
    out.push(63);
    out.push(116);
    out.push(97);
    out.push(114);
    out.push(103);
    out.push(101);
    out.push(116);
    out.push(104);
    out.push(111);
    out.push(115);
    out.push(116);
    out.push(61);
    assert(out@ =~= old(out)@ + targethost_key());
}

fn push_targetpath(out: &mut Vec<u8>)
    ensures
        final(out)@ == old(out)@ + targetpath_key(),
{
    out.push(38);
    out.push(116);
    out.push(97);
    out.push(114);
    out.push(103);
    out.push(101);
    out.push(116);
    out.push(112);
    out.push(97);
    out.push(116);
    out.push(104);
    out.push(61);
    assert(out@ =~= old(out)@ + targetpath_key());
}

fn push_relayhost(out: &mut Vec<u8>)
    ensures
        final(out)@ == old(out)@ + relayhost_key(),
{
    out.push(38);
    out.push(114);
    out.push(101);
    out.push(108);
    out.push(97);
    out.push(121);
    out.push(104);
    out.push(111);
    out.push(115);
    out.push(116);
    out.push(91);
    assert(out@ =~= old(out)@ + relayhost_key());
}

fn push_relaypath(out: &mut Vec<u8>)
    ensures
        final(out)@ == old(out)@ + relaypath_key(),
{
    out.push(38);
    out.push(114);
    out.push(101);
    out.push(108);
    out.push(97);
    out.push(121);
    out.push(112);
    out.push(97);
    out.push(116);
    out.push(104);
    out.push(91);
    assert(out@ =~= old(out)@ + relaypath_key());
}

fn push_close_eq(out: &mut Vec<u8>)
    ensures
        final(out)@ == old(out)@ + close_eq(),
{
    out.push(93);
    out.push(61);
    assert(out@ =~= old(out)@ + close_eq());
}

impl DoHPath {
    /// Field-for-field copy (health flag included).
    pub fn duplicate(&self) -> (r: DoHPath)
        ensures
            r@ == self@,
    {
        let mut relays: Vec<DoHRelay> = Vec::new();
        let mut i: usize = 0;
        while i < self.relays.len()
            invariant
                i <= self.relays@.len(),
                relays@.len() == i,
                forall|j: int| 0 <= j < i ==> relays@[j]@ == self.relays@[j]@,
            decreases self.relays@.len() - i,
        {
            relays.push(self.relays[i].duplicate());
            i = i + 1;
        }
        let r = DoHPath {
            target: self.target.duplicate(),
            relays,
            is_healthy: IsHealthy(self.is_healthy.0),
            doh_type: self.doh_type,
        };
        assert(r@.relays =~= self@.relays);
        r
    }

    /// URL this path sends to. A standard path must have no relay; an
    /// oblivious path must start with a next-hop relay.
    pub fn as_url(&self) -> (r: Result<Vec<u8>, DapError>)
        ensures
            match r {
                Ok(u) => u@ == url_of(self@) && (self@.doh_type is Standard
                    ==> self@.relays.len() == 0) && (self@.doh_type is Oblivious
                    ==> self@.relays.len() >= 1 && self@.relays[0].can_be_next_hop),
                Err(e) => {
                    &&& e == DapError::FailedToBuildDohUrl
                    &&& match self@.doh_type {
                        DoHType::Standard => self@.relays.len() != 0,
                        DoHType::Oblivious => self@.relays.len() == 0
                            || !self@.relays[0].can_be_next_hop,
                    }
                },
            },
    {
        match self.doh_type {
            DoHType::Standard => {
                if self.relays.len() != 0 {
                    return Err(DapError::FailedToBuildDohUrl);
                }
                let mut out: Vec<u8> = Vec::new();
                self.target.scheme.push_bytes(&mut out);
                push_sep(&mut out);
                extend_bytes(&mut out, &self.target.authority);
                extend_bytes(&mut out, &self.target.path);
                assert(out@ =~= std_url(self@.target));
                Ok(out)
            },
            DoHType::Oblivious => {
                if self.relays.len() == 0 {
                    return Err(DapError::FailedToBuildDohUrl);
                }
                if !self.relays[0].can_be_next_hop {
                    return Err(DapError::FailedToBuildDohUrl);
                }
                let mut out: Vec<u8> = Vec::new();
                self.relays[0].scheme.push_bytes(&mut out);
                push_sep(&mut out);
                extend_bytes(&mut out, &self.relays[0].authority);
                extend_bytes(&mut out, &self.relays[0].path);
                push_targethost(&mut out);
                urlencode_into(&mut out, &self.target.authority);
                push_targetpath(&mut out);
                urlencode_into(&mut out, &self.target.path);
                let ghost head = out@;
                assert(head =~= obl_url(self@).subrange(
                    0,
                    head.len() as int,
                )) by {
                    assert(obl_url(self@) =~= head + relay_pairs(self@.relays, 1));
                }
                let mut i: usize = 1;
                while i < self.relays.len()
                    invariant
                        1 <= i <= self.relays@.len(),
                        self.relays@.len() == self@.relays.len(),
                        forall|k: int|
                            0 <= k < self.relays@.len() ==> #[trigger] self.relays@[k]@
                                == self@.relays[k],
                        out@ + relay_pairs(self@.relays, i as int) == head + relay_pairs(
                            self@.relays,
                            1,
                        ),
                    decreases self.relays@.len() - i,
                {
                    push_relayhost(&mut out);
                    push_decimal(&mut out, i);
                    push_close_eq(&mut out);
                    urlencode_into(&mut out, &self.relays[i].authority);
                    push_relaypath(&mut out);
                    push_decimal(&mut out, i);
                    push_close_eq(&mut out);
                    urlencode_into(&mut out, &self.relays[i].path);
                    i = i + 1;
                    assert(out@ + relay_pairs(self@.relays, i as int) =~= head + relay_pairs(
                        self@.relays,
                        1,
                    ));
                }
                proof {
                    assert(relay_pairs(self@.relays, i as int) =~= Seq::<u8>::empty());
                    assert(out@ =~= out@ + relay_pairs(self@.relays, i as int));
                    assert(out@ =~= head + relay_pairs(self@.relays, 1));
                    assert(out@ =~= obl_url(self@));
                }
                Ok(out)
            },
        }
    }
}


// ---------------------------------------------------------------------
// Outside helpers: randomness and permutations
// ---------------------------------------------------------------------

/// Uniformly random index below `n`.
///
/// Relies on `rand::random_range` over `0..n`: the drawn value lies in
/// the (non-empty) range.
#[verifier::external_body]
fn random_below(n: usize) -> (r: usize)
    requires
        n > 0,
    ensures
        r < n,
{
    rand::random_range(0..n)
}

/// `p` is a `k`-permutation of the indices below `n`: length `k`,
/// values below `n`, pairwise distinct.
pub open spec fn is_idx_perm(p: Seq<usize>, n: int, k: int) -> bool {
    &&& p.len() == k
    &&& forall|j: int| 0 <= j < p.len() ==> p[j] < n
    &&& forall|a: int, b: int| 0 <= a < b < p.len() ==> p[a] != p[b]
}

/// All `k`-permutations of the indices `0..n`.
///
/// Relies on `itertools::Itertools::permutations`: it iterates over all
/// `k`-permutations of the iterated values — here the distinct indices
/// below `n` — so every item is such a permutation and every such
/// permutation occurs.
#[verifier::external_body]
fn permutations_idx(n: usize, k: usize) -> (r: Vec<Vec<usize>>)
    ensures
        forall|i: int| 0 <= i < r@.len() ==> is_idx_perm((#[trigger] r@[i])@, n as int, k as int),
        forall|p: Seq<usize>|
            #[trigger] is_idx_perm(p, n as int, k as int) ==> exists|i: int|
                0 <= i < r@.len() && r@[i]@ == p,
{
    (0..n).permutations(k).collect()
}

// ---------------------------------------------------------------------
// Path manager
// ---------------------------------------------------------------------

/// No target shares an authority with a next-hop relay: then every
/// target keeps at least its bare next-hop paths.
pub open spec fn no_shared_authority(ts: Seq<DoHTarget>, ns: Seq<DoHRelay>) -> bool {
    forall|i: int, j: int|
        0 <= i < ts.len() && 0 <= j < ns.len() ==> (#[trigger] ts[i])@.authority != (
        #[trigger] ns[j])@.authority
}

/// Well-shaped path: loop-free, no relay on a standard path, a next-hop
/// relay first on an oblivious one.
pub open spec fn wf_path(p: PathView) -> bool {
    &&& loop_free(p)
    &&& match p.doh_type {
        DoHType::Standard => p.relays.len() == 0,
        DoHType::Oblivious => p.relays.len() >= 1 && p.relays[0].can_be_next_hop,
    }
}

/// All legal paths, grouped by target, then by next-hop relay, with the
/// two randomization knobs.
pub struct DoHPathManager {
    pub paths: Vec<Vec<Vec<DoHPath>>>,
    pub target_randomization: bool,
    pub nexthop_randomization: bool,
}

impl DoHPathManager {
    /// Invariant: no empty target row or next-hop group, and every path
    /// is well-shaped — in particular, loop-free.
    pub open spec fn wf(&self) -> bool {
        &&& forall|t: int|
            0 <= t < self.paths@.len() ==> (#[trigger] self.paths@[t])@.len() > 0
        &&& forall|t: int, n: int|
            0 <= t < self.paths@.len() && 0 <= n < self.paths@[t]@.len() ==> (
            #[trigger] self.paths@[t]@[n])@.len() > 0
        &&& forall|t: int, n: int, k: int|
            0 <= t < self.paths@.len() && 0 <= n < self.paths@[t]@.len() && 0 <= k
                < self.paths@[t]@[n]@.len() ==> wf_path((#[trigger] self.paths@[t]@[n]@[k])@)
    }

    /// Every path is standard.
    pub open spec fn all_standard(&self) -> bool {
        forall|t: int, n: int, k: int|
            0 <= t < self.paths@.len() && 0 <= n < self.paths@[t]@.len() && 0 <= k
                < self.paths@[t]@[n]@.len() ==> (#[trigger] self.paths@[t]@[n]@[k])@.doh_type
                is Standard
    }

    /// Every path is oblivious.
    pub open spec fn all_oblivious(&self) -> bool {
        forall|t: int, n: int, k: int|
            0 <= t < self.paths@.len() && 0 <= n < self.paths@[t]@.len() && 0 <= k
                < self.paths@[t]@[n]@.len() ==> (#[trigger] self.paths@[t]@[n]@[k])@.doh_type
                is Oblivious
    }

    /// One standard path per target, no relays.
    pub fn new_standard(targets: Vec<DoHTarget>, target_randomization: bool) -> (r:
        DoHPathManager)
        ensures
            r.wf(),
            r.all_standard(),
            r.paths@.len() == targets@.len(),
            r.target_randomization == target_randomization,
            r.nexthop_randomization == false,
            forall|t: int|
                0 <= t < targets@.len() ==> (#[trigger] r.paths@[t])@.len() == 1 && r.paths@[
                    t
                ]@[0]@.len() == 1 && r.paths@[t]@[0]@[0]@.target == targets@[t]@ && r.paths@[
                    t
                ]@[0]@[0]@.relays.len() == 0 && r.paths@[t]@[0]@[0]@.healthy,
    {
        let mut paths: Vec<Vec<Vec<DoHPath>>> = Vec::new();
        let mut t: usize = 0;
        while t < targets.len()
            invariant
                t <= targets@.len(),
                paths@.len() == t,
                forall|i: int|
                    0 <= i < t ==> (#[trigger] paths@[i])@.len() == 1 && paths@[i]@[0]@.len()
                        == 1 && paths@[i]@[0]@[0]@.target == targets@[i]@ && paths@[
                        i
                    ]@[0]@[0]@.relays.len() == 0 && paths@[i]@[0]@[0]@.healthy && wf_path(
                        paths@[i]@[0]@[0]@,
                    ) && paths@[i]@[0]@[0]@.doh_type is Standard,
            decreases targets@.len() - t,
        {
            let p = DoHPath {
                target: targets[t].duplicate(),
                relays: Vec::new(),
                is_healthy: IsHealthy::new(),
                doh_type: DoHType::Standard,
            };
            proof {
                reveal(loop_free);
                assert(p@.relays =~= Seq::<RelayView>::empty());
                assert(authorities(p@) =~= seq![p@.target.authority]);
            }
            let mut group: Vec<DoHPath> = Vec::new();
            group.push(p);
            let mut row: Vec<Vec<DoHPath>> = Vec::new();
            row.push(group);
            paths.push(row);
            t = t + 1;
        }
        DoHPathManager { paths, target_randomization, nexthop_randomization: false }
    }

    /// All oblivious paths: for every target and next-hop relay, the
    /// bare next hop plus every chain of up to `max_mid_relays` distinct
    /// intermediate relays; any path that repeats an authority is
    /// discarded, and empty groups and rows are dropped.
    pub fn new_oblivious(
        targets: &Vec<DoHTarget>,
        target_randomization: bool,
        nexthops: &Vec<DoHRelay>,
        nexthop_randomization: bool,
        mids: &Vec<DoHRelay>,
        max_mid_relays: usize,
    ) -> (r: DoHPathManager)
        requires
            forall|i: int| 0 <= i < nexthops@.len() ==> (#[trigger] nexthops@[i])@.can_be_next_hop,
        ensures
            r.wf(),
            r.all_oblivious(),
            r.target_randomization == target_randomization,
            r.nexthop_randomization == nexthop_randomization,
            targets@.len() == 0 ==> r.paths@.len() == 0,
            // every path goes to a configured target
            forall|a: int, n: int, k: int|
                0 <= a < r.paths@.len() && 0 <= n < r.paths@[a]@.len() && 0 <= k < r.paths@[a]@[
                    n
                ]@.len() ==> exists|ti: int|
                    0 <= ti < targets@.len() && (#[trigger] r.paths@[a]@[n]@[k])@.target == (
                    targets@[ti])@,
            // when no target shares an authority with a next hop, every
            // target keeps a row and every next hop a group
            no_shared_authority(targets@, nexthops@) && nexthops@.len() > 0 ==> r.paths@.len()
                == targets@.len(),
    {
        // chains of intermediate-relay indices, shortest first
        let max: usize = if max_mid_relays <= mids.len() {
            max_mid_relays
        } else {
            mids.len()
        };
        let mut chains: Vec<Vec<usize>> = Vec::new();
        chains.push(Vec::new());
        let mut k: usize = 0;
        while k < max
            invariant
                k <= max <= mids@.len(),
                chains@.len() > 0,
                chains@[0]@.len() == 0,
                forall|c: int, j: int|
                    0 <= c < chains@.len() && 0 <= j < chains@[c]@.len()
                        ==> #[trigger] chains@[c]@[j] < mids@.len(),
            decreases max - k,
        {
            let mut perms = permutations_idx(mids.len(), k + 1);
            proof {
                assert forall|i: int, j: int|
                    0 <= i < perms@.len() && 0 <= j < perms@[i]@.len()
                        implies #[trigger] perms@[i]@[j] < mids@.len() by {
                    assert(is_idx_perm(perms@[i]@, mids@.len() as int, (k + 1) as int));
                }
            }
            chains.append(&mut perms);
            k = k + 1;
        }
        let mut paths: Vec<Vec<Vec<DoHPath>>> = Vec::new();
        let mut t: usize = 0;
        while t < targets.len()
            invariant
                t <= targets@.len(),
                targets@.len() == 0 ==> paths@.len() == 0,
                chains@.len() > 0,
                chains@[0]@.len() == 0,
                forall|c: int, j: int|
                    0 <= c < chains@.len() && 0 <= j < chains@[c]@.len()
                        ==> #[trigger] chains@[c]@[j] < mids@.len(),
                forall|i: int| 0 <= i < nexthops@.len() ==> (
                #[trigger] nexthops@[i])@.can_be_next_hop,
                forall|a: int| 0 <= a < paths@.len() ==> (#[trigger] paths@[a])@.len() > 0,
                forall|a: int, n: int|
                    0 <= a < paths@.len() && 0 <= n < paths@[a]@.len() ==> (
                    #[trigger] paths@[a]@[n])@.len() > 0,
                forall|a: int, n: int, q: int|
                    0 <= a < paths@.len() && 0 <= n < paths@[a]@.len() && 0 <= q
                        < paths@[a]@[n]@.len() ==> wf_path((#[trigger] paths@[a]@[n]@[q])@) && (
                    paths@[a]@[n]@[q])@.doh_type is Oblivious,
                forall|a: int, n: int, q: int|
                    0 <= a < paths@.len() && 0 <= n < paths@[a]@.len() && 0 <= q
                        < paths@[a]@[n]@.len() ==> exists|ti: int|
                        0 <= ti < targets@.len() && (#[trigger] paths@[a]@[n]@[q])@.target == (
                        targets@[ti])@,
                no_shared_authority(targets@, nexthops@) && nexthops@.len() > 0 ==> paths@.len()
                    == t,
            decreases targets@.len() - t,
        {
            let mut row: Vec<Vec<DoHPath>> = Vec::new();
            let mut ni: usize = 0;
            while ni < nexthops.len()
                invariant
                    t < targets@.len(),
                    ni <= nexthops@.len(),
                    chains@.len() > 0,
                    chains@[0]@.len() == 0,
                    forall|c: int, j: int|
                        0 <= c < chains@.len() && 0 <= j < chains@[c]@.len()
                            ==> #[trigger] chains@[c]@[j] < mids@.len(),
                    forall|i: int| 0 <= i < nexthops@.len() ==> (
                    #[trigger] nexthops@[i])@.can_be_next_hop,
                    forall|n: int| 0 <= n < row@.len() ==> (#[trigger] row@[n])@.len() > 0,
                    forall|n: int, q: int|
                        0 <= n < row@.len() && 0 <= q < row@[n]@.len() ==> wf_path((
                        #[trigger] row@[n]@[q])@) && (row@[n]@[q])@.doh_type is Oblivious && (
                        row@[n]@[q])@.target == (targets@[t as int])@,
                    no_shared_authority(targets@, nexthops@) ==> row@.len() == ni,
                decreases nexthops@.len() - ni,
            {
                let mut group: Vec<DoHPath> = Vec::new();
                let mut ci: usize = 0;
                while ci < chains.len()
                    invariant
                        t < targets@.len(),
                        ni < nexthops@.len(),
                        ci <= chains@.len(),
                        chains@.len() > 0,
                        chains@[0]@.len() == 0,
                        forall|c: int, j: int|
                            0 <= c < chains@.len() && 0 <= j < chains@[c]@.len()
                                ==> #[trigger] chains@[c]@[j] < mids@.len(),
                        forall|i: int| 0 <= i < nexthops@.len() ==> (
                        #[trigger] nexthops@[i])@.can_be_next_hop,
                        forall|q: int|
                            0 <= q < group@.len() ==> wf_path((#[trigger] group@[q])@) && (
                            group@[q])@.doh_type is Oblivious && (group@[q])@.target == (
                            targets@[t as int])@,
                        no_shared_authority(targets@, nexthops@) && ci > 0 ==> group@.len() > 0,
                    decreases chains@.len() - ci,
                {
                    let mut relays: Vec<DoHRelay> = Vec::new();
                    relays.push(nexthops[ni].duplicate());
                    let chain = &chains[ci];
                    let mut j: usize = 0;
                    while j < chain.len()
                        invariant
                            ni < nexthops@.len(),
                            ci < chains@.len(),
                            chain == &chains[ci as int],
                            forall|c: int, jx: int|
                                0 <= c < chains@.len() && 0 <= jx < chains@[c]@.len()
                                    ==> #[trigger] chains@[c]@[jx] < mids@.len(),
                            forall|i: int| 0 <= i < nexthops@.len() ==> (
                            #[trigger] nexthops@[i])@.can_be_next_hop,
                            j <= chain@.len(),
                            relays@.len() == 1 + j,
                            relays@[0]@ == nexthops@[ni as int]@,
                        decreases chain@.len() - j,
                    {
                        let idx = chain[j];
                        relays.push(mids[idx].duplicate());
                        j = j + 1;
                    }
                    let p = DoHPath {
                        target: targets[t].duplicate(),
                        relays,
                        is_healthy: IsHealthy::new(),
                        doh_type: DoHType::Oblivious,
                    };
                    proof {
                        assert(p@.relays[0].can_be_next_hop);
                        if ci == 0 && no_shared_authority(targets@, nexthops@) {
                            reveal(loop_free);
                            assert(chain@.len() == 0);
                            assert(relays@.len() == 1);
                            assert(authorities(p@) =~= seq![
                                (targets@[t as int])@.authority,
                                (nexthops@[ni as int])@.authority,
                            ]);
                            assert((targets@[t as int])@.authority != (
                            nexthops@[ni as int])@.authority);
                            assert(loop_free(p@)) by {
                                assert forall|a: int, b: int|
                                    0 <= a < b < authorities(p@).len() implies authorities(p@)[a]
                                    != authorities(p@)[b] by {
                                    assert(a == 0 && b == 1);
                                }
                            }
                        }
                    }
                    if is_loop_free(&p) {
                        group.push(p);
                    }
                    ci = ci + 1;
                }
                if group.len() > 0 {
                    row.push(group);
                }
                ni = ni + 1;
            }
            if row.len() > 0 {
                paths.push(row);
            }
            t = t + 1;
        }
        DoHPathManager { paths, target_randomization, nexthop_randomization }
    }

    /// Select a path: a uniformly random target when randomization is
    /// on (else the first), a uniformly random next-hop group likewise,
    /// then a uniformly random healthy path of the group when one
    /// exists, a uniformly random path otherwise. `None` only when the
    /// path set is empty.
    pub fn get_path(&self) -> (r: Option<(usize, usize, usize)>)
        requires
            self.wf(),
        ensures
            (r is None) <==> self.paths@.len() == 0,
            match r {
                Some(sel) => {
                    &&& sel.0 < self.paths@.len()
                    &&& sel.1 < self.paths@[sel.0 as int]@.len()
                    &&& sel.2 < self.paths@[sel.0 as int]@[sel.1 as int]@.len()
                    &&& !self.target_randomization ==> sel.0 == 0
                    &&& !self.nexthop_randomization ==> sel.1 == 0
                    &&& (exists|q: int|
                        0 <= q < self.paths@[sel.0 as int]@[sel.1 as int]@.len() && (
                        #[trigger] self.paths@[sel.0 as int]@[sel.1 as int]@[q])@.healthy)
                        ==> self.paths@[sel.0 as int]@[sel.1 as int]@[sel.2 as int]@.healthy
                },
                None => true,
            },
    {
        if self.paths.len() == 0 {
            return None;
        }
        let t: usize = if self.target_randomization {
            random_below(self.paths.len())
        } else {
            0
        };
        let row = &self.paths[t];
        let n: usize = if self.nexthop_randomization {
            random_below(row.len())
        } else {
            0
        };
        let group = &row[n];
        let mut healthy: Vec<usize> = Vec::new();
        let mut q: usize = 0;
        while q < group.len()
            invariant
                q <= group@.len(),
                forall|h: int|
                    0 <= h < healthy@.len() ==> #[trigger] healthy@[h] < group@.len() && group@[
                        healthy@[h] as int
                    ]@.healthy,
                healthy@.len() == 0 ==> forall|h: int| 0 <= h < q ==> !(
                #[trigger] group@[h])@.healthy,
            decreases group@.len() - q,
        {
            if group[q].is_healthy.get() {
                healthy.push(q);
            }
            q = q + 1;
        }
        let k: usize = if healthy.len() > 0 {
            healthy[random_below(healthy.len())]
        } else {
            random_below(group.len())
        };
        Some((t, n, k))
    }

    /// Number of targets with at least one path.
    pub fn num_targets(&self) -> (r: usize)
        ensures
            r == self.paths@.len(),
    {
        self.paths.len()
    }

    /// The targets, one per row, in row order.
    pub fn targets(&self) -> (r: Vec<DoHTarget>)
        requires
            self.wf(),
        ensures
            r@.len() == self.paths@.len(),
            forall|t: int|
                0 <= t < r@.len() ==> (#[trigger] r@[t])@ == self.paths@[t]@[0]@[0]@.target,
    {
        let mut r: Vec<DoHTarget> = Vec::new();
        let mut t: usize = 0;
        while t < self.paths.len()
            invariant
                self.wf(),
                t <= self.paths@.len(),
                r@.len() == t,
                forall|i: int|
                    0 <= i < t ==> (#[trigger] r@[i])@ == self.paths@[i]@[0]@[0]@.target,
            decreases self.paths@.len() - t,
        {
            r.push(self.paths[t][0][0].target.duplicate());
            t = t + 1;
        }
        r
    }

    /// Number of next-hop groups for a target row.
    pub fn num_groups(&self, t: usize) -> (r: usize)
        requires
            t < self.paths@.len(),
        ensures
            r == self.paths@[t as int]@.len(),
    {
        self.paths[t].len()
    }

    /// Number of paths in one next-hop group.
    pub fn group_size(&self, t: usize, n: usize) -> (r: usize)
        requires
            t < self.paths@.len(),
            n < self.paths@[t as int]@.len(),
        ensures
            r == self.paths@[t as int]@[n as int]@.len(),
    {
        self.paths[t][n].len()
    }

    /// Borrow the path at a selection.
    pub fn path_at(&self, t: usize, n: usize, k: usize) -> (r: &DoHPath)
        requires
            t < self.paths@.len(),
            n < self.paths@[t as int]@.len(),
            k < self.paths@[t as int]@[n as int]@.len(),
        ensures
            r@ == self.paths@[t as int]@[n as int]@[k as int]@,
    {
        &self.paths[t][n][k]
    }

    /// Flip the health flag of one path to unhealthy; nothing else
    /// changes.
    pub fn mark_unhealthy(&mut self, t: usize, n: usize, k: usize)
        requires
            old(self).wf(),
            t < old(self).paths@.len(),
            n < old(self).paths@[t as int]@.len(),
            k < old(self).paths@[t as int]@[n as int]@.len(),
        ensures
            final(self).wf(),
            final(self).target_randomization == old(self).target_randomization,
            final(self).nexthop_randomization == old(self).nexthop_randomization,
            final(self).paths@.len() == old(self).paths@.len(),
            final(self).paths@[t as int]@.len() == old(self).paths@[t as int]@.len(),
            final(self).paths@[t as int]@[n as int]@.len() == old(self).paths@[t as int]@[
                n as int
            ]@.len(),
            !final(self).paths@[t as int]@[n as int]@[k as int]@.healthy,
            final(self).paths@[t as int]@[n as int]@[k as int]@.target == old(self).paths@[
                t as int
            ]@[n as int]@[k as int]@.target,
            final(self).paths@[t as int]@[n as int]@[k as int]@.relays == old(self).paths@[
                t as int
            ]@[n as int]@[k as int]@.relays,
            final(self).paths@[t as int]@[n as int]@[k as int]@.doh_type == old(self).paths@[
                t as int
            ]@[n as int]@[k as int]@.doh_type,
            forall|a: int, b: int, c: int|
                0 <= a < old(self).paths@.len() && 0 <= b < old(self).paths@[a]@.len() && 0 <= c
                    < old(self).paths@[a]@[b]@.len() && !(a == t && b == n && c == k) ==> (
                #[trigger] final(self).paths@[a]@[b]@[c]) == old(self).paths@[a]@[b]@[c],
            forall|a: int|
                0 <= a < old(self).paths@.len() ==> (#[trigger] final(self).paths@[a])@.len()
                    == old(self).paths@[a]@.len(),
            forall|a: int, b: int|
                0 <= a < old(self).paths@.len() && 0 <= b < old(self).paths@[a]@.len() ==> (
                #[trigger] final(self).paths@[a]@[b])@.len() == old(self).paths@[a]@[b]@.len(),
    {
        let row = &mut self.paths[t];
        let group = &mut row[n];
        let p = &mut group[k];
        p.is_healthy.0 = false;
        proof {
            let ghost oldp = old(self).paths@[t as int]@[n as int]@[k as int];
            let ghost newp = self.paths@[t as int]@[n as int]@[k as int];
            reveal(loop_free);
            assert(authorities(newp@) =~= authorities(oldp@));
            assert(wf_path(newp@)) by {
                assert(newp@.relays == oldp@.relays);
                assert(loop_free(newp@) == loop_free(oldp@));
            }
        }
    }
}


// ---------------------------------------------------------------------
// Building targets and relays from configured URLs
// ---------------------------------------------------------------------

/// Target for a configured URL; an unrecognized scheme falls back to
/// https.
pub fn build_target(url: &Vec<u8>) -> (r: Result<DoHTarget, DapError>)
    ensures
        (r is Ok) == url_parses(url@),
        match r {
            Ok(t) => t@.authority == url_authority_of(url@) && t@.path == url_path_of(url@),
            Err(e) => e == DapError::FailedToBuildDohUrl,
        },
{
    let (scheme_text, authority, path) = match parse_url_parts(url) {
        Some(parts) => parts,
        None => {
            return Err(DapError::FailedToBuildDohUrl);
        },
    };
    let scheme = match Scheme::try_from(&scheme_text) {
        Ok(s) => s,
        Err(_) => Scheme::Https,
    };
    Ok(DoHTarget { authority, path, scheme })
}

/// Relay for a configured URL; an unrecognized scheme falls back to
/// https.
pub fn build_relay(url: &Vec<u8>, can_be_next_hop: bool) -> (r: Result<DoHRelay, DapError>)
    ensures
        (r is Ok) == url_parses(url@),
        match r {
            Ok(t) => t@.authority == url_authority_of(url@) && t@.path == url_path_of(url@)
                && t@.can_be_next_hop == can_be_next_hop,
            Err(e) => e == DapError::FailedToBuildDohUrl,
        },
{
    let (scheme_text, authority, path) = match parse_url_parts(url) {
        Some(parts) => parts,
        None => {
            return Err(DapError::FailedToBuildDohUrl);
        },
    };
    let scheme = match Scheme::try_from(&scheme_text) {
        Ok(s) => s,
        Err(_) => Scheme::Https,
    };
    Ok(DoHRelay { authority, path, scheme, can_be_next_hop })
}

/// Targets for a list of configured URLs.
fn build_targets(urls: &Vec<Vec<u8>>) -> (r: Result<Vec<DoHTarget>, DapError>)
    ensures
        (r is Ok) == (forall|i: int| 0 <= i < urls@.len() ==> url_parses((#[trigger] urls@[i])@)),
        match r {
            Ok(ts) => ts@.len() == urls@.len() && forall|i: int|
                0 <= i < ts@.len() ==> (#[trigger] ts@[i])@.authority == url_authority_of(
                    urls@[i]@,
                ) && ts@[i]@.path == url_path_of(urls@[i]@),
            Err(e) => e == DapError::FailedToBuildDohUrl,
        },
{
    let mut ts: Vec<DoHTarget> = Vec::new();
    let mut i: usize = 0;
    while i < urls.len()
        invariant
            i <= urls@.len(),
            ts@.len() == i,
            forall|j: int|
                0 <= j < i ==> (#[trigger] ts@[j])@.authority == url_authority_of(urls@[j]@)
                    && ts@[j]@.path == url_path_of(urls@[j]@),
            forall|j: int| 0 <= j < i ==> url_parses((#[trigger] urls@[j])@),
        decreases urls@.len() - i,
    {
        match build_target(&urls[i]) {
            Ok(t) => {
                ts.push(t);
            },
            Err(e) => {
                return Err(e);
            },
        }
        i = i + 1;
    }
    Ok(ts)
}

/// Relays for a list of configured URLs.
fn build_relays(urls: &Vec<Vec<u8>>, can_be_next_hop: bool) -> (r: Result<
    Vec<DoHRelay>,
    DapError,
>)
    ensures
        (r is Ok) == (forall|i: int| 0 <= i < urls@.len() ==> url_parses((#[trigger] urls@[i])@)),
        match r {
            Ok(rs) => rs@.len() == urls@.len() && forall|i: int|
                0 <= i < rs@.len() ==> (#[trigger] rs@[i])@.authority == url_authority_of(
                    urls@[i]@,
                ) && rs@[i]@.path == url_path_of(urls@[i]@) && rs@[i]@.can_be_next_hop
                    == can_be_next_hop,
            Err(e) => e == DapError::FailedToBuildDohUrl,
        },
{
    let mut rs: Vec<DoHRelay> = Vec::new();
    let mut i: usize = 0;
    while i < urls.len()
        invariant
            i <= urls@.len(),
            rs@.len() == i,
            forall|j: int|
                0 <= j < i ==> (#[trigger] rs@[j])@.authority == url_authority_of(urls@[j]@)
                    && rs@[j]@.path == url_path_of(urls@[j]@) && rs@[j]@.can_be_next_hop
                    == can_be_next_hop,
            forall|j: int| 0 <= j < i ==> url_parses((#[trigger] urls@[j])@),
        decreases urls@.len() - i,
    {
        match build_relay(&urls[i], can_be_next_hop) {
            Ok(t) => {
                rs.push(t);
            },
            Err(e) => {
                return Err(e);
            },
        }
        i = i + 1;
    }
    Ok(rs)
}

/// Every URL the configuration names parses.
pub open spec fn config_urls_parse(c: &ProxyConfig) -> bool {
    &&& forall|i: int|
        0 <= i < c.target_config.doh_target_urls@.len() ==> url_parses(
            (#[trigger] c.target_config.doh_target_urls@[i])@,
        )
    &&& match c.nexthop_relay_config {
        Some(nh) => forall|i: int|
            0 <= i < nh.odoh_relay_urls@.len() ==> url_parses(
                (#[trigger] nh.odoh_relay_urls@[i])@,
            ),
        None => true,
    }
    &&& (c.nexthop_relay_config is Some ==> match c.subseq_relay_config {
        Some(sq) => forall|i: int|
            0 <= i < sq.mid_relay_urls@.len() ==> url_parses(
                (#[trigger] sq.mid_relay_urls@[i])@,
            ),
        None => true,
    })
}

impl DoHPathManager {
    /// Build all legal paths for the configuration: standard paths when
    /// no next-hop relay is configured, oblivious paths otherwise.
    pub fn new(config: &ProxyConfig) -> (r: Result<DoHPathManager, DapError>)
        ensures
            (r is Ok) == config_urls_parse(config),
            match r {
                Ok(m) => {
                    &&& m.wf()
                    &&& m.target_randomization == config.target_config.target_randomization
                    &&& match config.nexthop_relay_config {
                        None => m.all_standard() && m.nexthop_randomization == false && m.paths@
                            .len() == config.target_config.doh_target_urls@.len() && (forall|
                            t: int,
                        |
                            0 <= t < m.paths@.len() ==> (#[trigger] m.paths@[t])@.len() == 1
                                && m.paths@[t]@[0]@.len() == 1 && m.paths@[t]@[0]@[0]@.relays.len()
                                == 0 && m.paths@[t]@[0]@[0]@.healthy && m.paths@[t]@[
                                0
                            ]@[0]@.target.authority == url_authority_of(
                                (config.target_config.doh_target_urls@[t])@,
                            ) && m.paths@[t]@[0]@[0]@.target.path == url_path_of(
                                (config.target_config.doh_target_urls@[t])@,
                            )),
                        Some(nh) => m.all_oblivious() && m.nexthop_randomization
                            == nh.odoh_relay_randomization,
                    }
                },
                Err(e) => e == DapError::FailedToBuildDohUrl,
            },
    {
        let targets = match build_targets(&config.target_config.doh_target_urls) {
            Ok(ts) => ts,
            Err(e) => {
                return Err(e);
            },
        };
        match &config.nexthop_relay_config {
            None => Ok(
                DoHPathManager::new_standard(
                    targets,
                    config.target_config.target_randomization,
                ),
            ),
            Some(nh) => {
                let nexthops = match build_relays(&nh.odoh_relay_urls, true) {
                    Ok(rs) => rs,
                    Err(e) => {
                        return Err(e);
                    },
                };
                let (mids, max_mid): (Vec<DoHRelay>, usize) = match &config.subseq_relay_config {
                    None => (Vec::new(), 0),
                    Some(sq) => {
                        let ms = match build_relays(&sq.mid_relay_urls, false) {
                            Ok(rs) => rs,
                            Err(e) => {
                                return Err(e);
                            },
                        };
                        (ms, sq.max_mid_relays)
                    },
                };
                Ok(
                    DoHPathManager::new_oblivious(
                        &targets,
                        config.target_config.target_randomization,
                        &nexthops,
                        nh.odoh_relay_randomization,
                        &mids,
                        max_mid,
                    ),
                )
            },
        }
    }
}


/// Loop freedom: no path the manager holds repeats an authority.
pub proof fn lemma_paths_loop_free(m: &DoHPathManager, t: int, n: int, k: int)
    requires
        m.wf(),
        0 <= t < m.paths@.len(),
        0 <= n < m.paths@[t]@.len(),
        0 <= k < m.paths@[t]@[n]@.len(),
    ensures
        loop_free(m.paths@[t]@[n]@[k]@),
{
}

/// URL stability: the URL of a path depends on its target, relays and
/// flavour alone, so a fixed path always produces the same URL.
pub proof fn lemma_url_deterministic(p1: PathView, p2: PathView)
    requires
        p1.target == p2.target,
        p1.relays == p2.relays,
        p1.doh_type == p2.doh_type,
    ensures
        url_of(p1) == url_of(p2),
{
    match p1.doh_type {
        DoHType::Standard => {
        },
        DoHType::Oblivious => {
            assert(obl_url(p1) == obl_url(p2));
        },
    }
}


/// `"/.well-known/odohconfigs"`.
pub open spec fn well_known_path() -> Seq<u8> {
    seq![
        47u8, 46, 119, 101, 108, 108, 45, 107, 110, 111, 119, 110, 47, 111, 100, 111, 104, 99,
        111, 110, 102, 105, 103, 115,
    ]
}

/// URL a target publishes its HPKE configurations at:
/// `scheme://authority/.well-known/odohconfigs`.
pub fn well_known_url(t: &DoHTarget) -> (r: Vec<u8>)
    ensures
        r@ == scheme_bytes(t@.scheme) + sep_bytes() + t@.authority + well_known_path(),
{
    let mut out: Vec<u8> = Vec::new();
    t.scheme.push_bytes(&mut out);
    push_sep(&mut out);
    extend_bytes(&mut out, &t.authority);
    out.push(47);
    out.push(46);
    out.push(119);
    out.push(101);
    out.push(108);
    out.push(108);
    out.push(45);
    out.push(107);
    out.push(110);
    out.push(111);
    out.push(119);
    out.push(110);
    out.push(47);
    out.push(111);
    out.push(100);
    out.push(111);
    out.push(104);
    out.push(99);
    out.push(111);
    out.push(110);
    out.push(102);
    out.push(105);
    out.push(103);
    out.push(115);
    assert(out@ =~= scheme_bytes(t@.scheme) + sep_bytes() + t@.authority + well_known_path());
    out
}

} // verus!
