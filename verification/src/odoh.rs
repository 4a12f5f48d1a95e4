//! ODoH configuration store and message framing.
//!
//! The store keeps, per target, the outcome of the last well-known
//! fetch: never fetched, fetched but unusable, or a usable HPKE
//! configuration. The wire list of configurations is parsed here and the
//! first supported one kept. The oblivious query plaintext (the DNS
//! message with its padding) is framed and unframed here; the HPKE seal
//! itself is done by the driver of the pipeline.

use vstd::prelude::*;

use crate::bytes::{
    be16, clone_bytes, extend_bytes, lemma_be16_roundtrip, push_u16, read_u16, sub_bytes, u16_of,
};
use crate::errors::DapError;

verus! {

/// KEM id of X25519 with HKDF-SHA256, the supported key encapsulation.
pub const SUPPORTED_KEM: u16 = 0x0020;

/// KDF id of HKDF-SHA256, the supported key derivation.
pub const SUPPORTED_KDF: u16 = 0x0001;

/// AEAD id of AES-128-GCM, the supported cipher.
pub const SUPPORTED_AEAD: u16 = 0x0001;

// ---------------------------------------------------------------------
// One configuration
// ---------------------------------------------------------------------

/// Model of a usable target configuration.
pub struct OdohConfigView {
    pub kem_id: u16,
    pub kdf_id: u16,
    pub aead_id: u16,
    pub public_key: Seq<u8>,
    pub config_contents: Seq<u8>,
}

/// The HPKE public configuration of a target: suite identifiers, the
/// public key, and the raw contents blob bound into the sealed query.
pub struct OdohConfig {
    pub kem_id: u16,
    pub kdf_id: u16,
    pub aead_id: u16,
    pub public_key: Vec<u8>,
    pub config_contents: Vec<u8>,
}

impl View for OdohConfig {
    type V = OdohConfigView;

    open spec fn view(&self) -> OdohConfigView {
        OdohConfigView {
            kem_id: self.kem_id,
            kdf_id: self.kdf_id,
            aead_id: self.aead_id,
            public_key: self.public_key@,
            config_contents: self.config_contents@,
        }
    }
}

impl OdohConfig {
    /// Field-for-field copy.
    pub fn duplicate(&self) -> (r: OdohConfig)
        ensures
            r@ == self@,
    {
        OdohConfig {
            kem_id: self.kem_id,
            kdf_id: self.kdf_id,
            aead_id: self.aead_id,
            public_key: clone_bytes(&self.public_key),
            config_contents: clone_bytes(&self.config_contents),
        }
    }
}

// ---------------------------------------------------------------------
// Parsing the well-known configuration list
// ---------------------------------------------------------------------

/// Contents of one version-1 configuration: KEM, KDF and AEAD ids, then
/// a length-prefixed public key filling the rest.
pub open spec fn parse_contents(c: Seq<u8>) -> Option<OdohConfigView> {
    if c.len() < 8 {
        None
    } else {
        let key_len = u16_of(c[6], c[7]);
        if 8 + key_len == c.len() {
            Some(
                OdohConfigView {
                    kem_id: u16_of(c[0], c[1]) as u16,
                    kdf_id: u16_of(c[2], c[3]) as u16,
                    aead_id: u16_of(c[4], c[5]) as u16,
                    public_key: c.subrange(8, c.len() as int),
                    config_contents: c,
                },
            )
        } else {
            None
        }
    }
}

/// Whether the suite of a configuration is supported.
pub open spec fn supported(v: OdohConfigView) -> bool {
    v.kem_id == SUPPORTED_KEM && v.kdf_id == SUPPORTED_KDF && v.aead_id == SUPPORTED_AEAD
}

/// Walk the configuration list from `i`: the first entry of version 1
/// whose contents parse to a supported suite, `None` when the list is
/// malformed or holds none.
pub open spec fn walk_configs(b: Seq<u8>, i: int) -> Option<OdohConfigView>
    decreases b.len() - i,
{
    if i < 0 || i > b.len() {
        None
    } else if i == b.len() {
        None
    } else if i + 4 > b.len() {
        None
    } else {
        let version = u16_of(b[i], b[i + 1]);
        let len = u16_of(b[i + 2], b[i + 3]);
        if i + 4 + len > b.len() {
            None
        } else {
            let c = b.subrange(i + 4, i + 4 + len);
            match parse_contents(c) {
                Some(v) => if version == 1 && supported(v) {
                    Some(v)
                } else {
                    walk_configs(b, i + 4 + len)
                },
                None => walk_configs(b, i + 4 + len),
            }
        }
    }
}

/// The usable configuration of a well-known response body: a 16-bit
/// length prefix covering the list, then the first supported entry.
pub open spec fn odoh_select(b: Seq<u8>) -> Option<OdohConfigView> {
    if b.len() < 2 {
        None
    } else if 2 + u16_of(b[0], b[1]) != b.len() {
        None
    } else {
        walk_configs(b, 2)
    }
}

/// First supported configuration of a well-known response body, as
/// [`odoh_select`].
pub fn select_odoh_config(b: &Vec<u8>) -> (r: Option<OdohConfig>)
    ensures
        match r {
            Some(cfg) => odoh_select(b@) == Some(cfg@),
            None => odoh_select(b@) is None,
        },
{
    if b.len() < 2 {
        return None;
    }
    if b.len() > 0xFFFF + 2 {
        proof {
            assert(2 + u16_of(b@[0], b@[1]) != b@.len());
        }
        return None;
    }
    let total = read_u16(b.as_slice(), 0) as usize;
    if 2 + total != b.len() {
        return None;
    }
    let mut i: usize = 2;
    loop
        invariant
            2 <= i,
            b@.len() <= 0xFFFF + 2,
            odoh_select(b@) == walk_configs(b@, i as int),
        decreases b@.len() - i,
    {
        if i >= b.len() {
            return None;
        }
        if i + 4 > b.len() {
            return None;
        }
        let version = read_u16(b.as_slice(), i);
        let len = read_u16(b.as_slice(), i + 2) as usize;
        if i + 4 + len > b.len() {
            return None;
        }
        let c = sub_bytes(b.as_slice(), i + 4, i + 4 + len);
        // parse the contents of this entry
        let parsed: Option<OdohConfig> = if c.len() < 8 {
            None
        } else {
            let key_len = read_u16(c.as_slice(), 6) as usize;
            if 8 + key_len == c.len() {
                let public_key = sub_bytes(c.as_slice(), 8, c.len());
                let kem_id = read_u16(c.as_slice(), 0);
                let kdf_id = read_u16(c.as_slice(), 2);
                let aead_id = read_u16(c.as_slice(), 4);
                Some(OdohConfig { kem_id, kdf_id, aead_id, public_key, config_contents: c })
            } else {
                None
            }
        };
        proof {
            assert(c@ == b@.subrange(i as int + 4, i as int + 4 + len as int));
            match &parsed {
                Some(cfg) => {
                    assert(parse_contents(c@) == Some(cfg@));
                },
                None => {
                    assert(parse_contents(c@) is None);
                },
            }
        }
        match parsed {
            Some(cfg) => {
                if version == 1 && cfg.kem_id == SUPPORTED_KEM && cfg.kdf_id == SUPPORTED_KDF
                    && cfg.aead_id == SUPPORTED_AEAD {
                    proof {
                        assert(walk_configs(b@, i as int) == Some(cfg@));
                    }
                    return Some(cfg);
                }
            },
            None => {},
        }
        i = i + 4 + len;
    }
}

// ---------------------------------------------------------------------
// Oblivious message framing (padding)
// ---------------------------------------------------------------------

/// Padding length that rounds the framed message up to a multiple of
/// 128 bytes.
pub open spec fn pad_len(n: int) -> int {
    (128 - (n + 4) % 128) % 128
}

/// `n` zero bytes.
pub open spec fn zero_seq(n: int) -> Seq<u8> {
    Seq::new(n as nat, |i: int| 0u8)
}

/// The oblivious query plaintext: the length-prefixed DNS message
/// followed by length-prefixed zero padding, 128-byte aligned in all.
pub open spec fn odoh_plain(q: Seq<u8>) -> Seq<u8> {
    be16(q.len() as u16) + q + be16(pad_len(q.len() as int) as u16) + zero_seq(
        pad_len(q.len() as int),
    )
}

/// The DNS message a framed plaintext carries, `None` when the framing
/// is inconsistent.
pub open spec fn odoh_unpad(p: Seq<u8>) -> Option<Seq<u8>> {
    if p.len() < 4 {
        None
    } else {
        let msg_len = u16_of(p[0], p[1]);
        if 2 + msg_len + 2 > p.len() {
            None
        } else {
            let pad = u16_of(p[2 + msg_len], p[2 + msg_len + 1]);
            if 4 + msg_len + pad == p.len() {
                Some(p.subrange(2, 2 + msg_len))
            } else {
                None
            }
        }
    }
}

/// Frame a DNS query as the oblivious plaintext.
pub fn pad_query(q: &Vec<u8>) -> (r: Vec<u8>)
    requires
        q@.len() <= 65535,
    ensures
        r@ == odoh_plain(q@),
        r@.len() % 128 == 0,
{
    let pad: usize = (128 - (q.len() + 4) % 128) % 128;
    assert(pad == pad_len(q@.len() as int));
    let mut out: Vec<u8> = Vec::new();
    push_u16(&mut out, q.len() as u16);
    extend_bytes(&mut out, q);
    push_u16(&mut out, pad as u16);
    let mut z: usize = 0;
    let ghost head = out@;
    while z < pad
        invariant
            z <= pad,
            out@ == head + zero_seq(z as int),
        decreases pad - z,
    {
        out.push(0);
        z = z + 1;
        assert(out@ =~= head + zero_seq(z as int));
    }
    assert(out@ =~= odoh_plain(q@));
    assert(out@.len() == 4 + q@.len() + pad_len(q@.len() as int));
    assert((4 + q@.len() + pad_len(q@.len() as int)) % 128 == 0) by {
        let n = q@.len() as int;
        assert((n + 4 + (128 - (n + 4) % 128) % 128) % 128 == 0) by (nonlinear_arith)
            requires
                0 <= n,
        ;
    }
    out
}

/// Unframe an oblivious plaintext back to the DNS message it carries.
pub fn unpad_response(p: &Vec<u8>) -> (r: Result<Vec<u8>, DapError>)
    ensures
        match r {
            Ok(m) => odoh_unpad(p@) == Some(m@),
            Err(e) => odoh_unpad(p@) is None && e == DapError::ODoHInvalidResponse,
        },
{
    if p.len() < 4 {
        return Err(DapError::ODoHInvalidResponse);
    }
    let msg_len = read_u16(p.as_slice(), 0) as usize;
    if 2 + msg_len + 2 > p.len() {
        return Err(DapError::ODoHInvalidResponse);
    }
    let pad = read_u16(p.as_slice(), 2 + msg_len) as usize;
    if 4 + msg_len + pad != p.len() {
        return Err(DapError::ODoHInvalidResponse);
    }
    let m = sub_bytes(p.as_slice(), 2, 2 + msg_len);
    Ok(m)
}

/// Unframing the framed plaintext gives the query back.
pub proof fn lemma_odoh_roundtrip(q: Seq<u8>)
    requires
        q.len() <= 65535,
    ensures
        odoh_unpad(odoh_plain(q)) == Some(q),
{
    let p = odoh_plain(q);
    let pad = pad_len(q.len() as int);
    assert(0 <= pad < 128);
    lemma_be16_roundtrip(q.len() as u16);
    lemma_be16_roundtrip(pad as u16);
    assert(p[0] == be16(q.len() as u16)[0]);
    assert(p[1] == be16(q.len() as u16)[1]);
    assert(u16_of(p[0], p[1]) == q.len());
    assert(p[2 + q.len() as int] == be16(pad as u16)[0]);
    assert(p[2 + q.len() as int + 1] == be16(pad as u16)[1]);
    assert(u16_of(p[2 + q.len() as int], p[2 + q.len() as int + 1]) == pad);
    assert(p.subrange(2, 2 + q.len() as int) =~= q);
}

// ---------------------------------------------------------------------
// Per-target store
// ---------------------------------------------------------------------

/// Model of one store slot.
pub enum SlotView {
    /// The target has never been probed (or its key was marked stale).
    NotFetched,
    /// A fetch completed: `None` when the target is unusable.
    Fetched(Option<OdohConfigView>),
}

/// One store slot.
pub enum ConfigSlot {
    NotFetched,
    Fetched(Option<OdohConfig>),
}

impl View for ConfigSlot {
    type V = SlotView;

    open spec fn view(&self) -> SlotView {
        match self {
            ConfigSlot::NotFetched => SlotView::NotFetched,
            ConfigSlot::Fetched(None) => SlotView::Fetched(None),
            ConfigSlot::Fetched(Some(c)) => SlotView::Fetched(Some(c@)),
        }
    }
}

/// Views of the slots.
pub open spec fn slots_view(s: Seq<ConfigSlot>) -> Seq<SlotView> {
    s.map_values(|c: ConfigSlot| c@)
}

/// Per-target configuration store, indexed as the path manager's
/// targets are.
pub struct OdohConfigStore {
    pub slots: Vec<ConfigSlot>,
}

impl View for OdohConfigStore {
    type V = Seq<SlotView>;

    open spec fn view(&self) -> Seq<SlotView> {
        slots_view(self.slots@)
    }
}

impl OdohConfigStore {
    /// A store with one unprobed slot per target.
    pub fn new(n_targets: usize) -> (r: OdohConfigStore)
        ensures
            r@.len() == n_targets,
            forall|t: int| 0 <= t < n_targets ==> r@[t] is NotFetched,
    {
        let mut slots: Vec<ConfigSlot> = Vec::new();
        let mut i: usize = 0;
        while i < n_targets
            invariant
                i <= n_targets,
                slots@.len() == i,
                forall|t: int| 0 <= t < i ==> (#[trigger] slots@[t]) is NotFetched,
            decreases n_targets - i,
        {
            slots.push(ConfigSlot::NotFetched);
            i = i + 1;
        }
        proof {
            assert forall|t: int| 0 <= t < n_targets implies slots_view(slots@)[t]
                is NotFetched by {
                assert(slots_view(slots@)[t] == slots@[t]@);
            }
        }
        OdohConfigStore { slots }
    }

    /// Number of targets.
    pub fn len(&self) -> (r: usize)
        ensures
            r == self@.len(),
    {
        self.slots.len()
    }

    /// Snapshot of the slot: `None` when never fetched, `Some(None)`
    /// when the target is unusable, else the configuration.
    pub fn get(&self, t: usize) -> (r: Option<Option<OdohConfig>>)
        requires
            t < self@.len(),
        ensures
            match r {
                None => self@[t as int] is NotFetched,
                Some(None) => self@[t as int] == SlotView::Fetched(
                    None::<OdohConfigView>,
                ),
                Some(Some(cfg)) => self@[t as int] == SlotView::Fetched(Some(cfg@)),
            },
    {
        match &self.slots[t] {
            ConfigSlot::NotFetched => None,
            ConfigSlot::Fetched(None) => Some(None),
            ConfigSlot::Fetched(Some(c)) => Some(Some(c.duplicate())),
        }
    }

    /// Record the outcome of one well-known fetch for a target: the
    /// first supported configuration of the body, or an unusable mark
    /// when the fetch failed or nothing usable was found.
    pub fn apply_fetch(&mut self, t: usize, body: Option<&Vec<u8>>)
        requires
            t < old(self)@.len(),
        ensures
            final(self)@.len() == old(self)@.len(),
            final(self)@[t as int] == match body {
                None => SlotView::Fetched(None::<OdohConfigView>),
                Some(b) => SlotView::Fetched(odoh_select(b@)),
            },
            forall|u: int|
                0 <= u < old(self)@.len() && u != t ==> final(self)@[u] == old(self)@[u],
    {
        let slot = match body {
            None => ConfigSlot::Fetched(None),
            Some(b) => match select_odoh_config(b) {
                Some(cfg) => ConfigSlot::Fetched(Some(cfg)),
                None => ConfigSlot::Fetched(None),
            },
        };
        self.slots[t] = slot;
    }

    /// Forget the configuration of a target whose key proved stale.
    pub fn mark_stale(&mut self, t: usize)
        requires
            t < old(self)@.len(),
        ensures
            final(self)@.len() == old(self)@.len(),
            final(self)@[t as int] is NotFetched,
            forall|u: int|
                0 <= u < old(self)@.len() && u != t ==> final(self)@[u] == old(self)@[u],
    {
        self.slots[t] = ConfigSlot::NotFetched;
    }
}

} // verus!
