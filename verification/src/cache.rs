//! Response cache keyed by semantic request fingerprint.
//!
//! The key is derived from the question alone (name lowercased, type,
//! class); the transaction id is excluded and restamped on every hit.
//! Entries expire `max(min_ttl_floor, smallest record TTL)` seconds after
//! insertion; a lookup that finds an expired entry removes it and reports
//! a miss. On overflow the oldest entry is evicted. At most one entry
//! ever exists per fingerprint.

use vstd::prelude::*;

use crate::bytes::{bytes_eq, clone_bytes};
use crate::dns::{
    adjust_msg, adjust_record, adjusted, enc_msg, encode, lemma_adjust_msg_wf, lemma_parse_enc, lower,
    lower_bytes, min_ttl, parse_msg, wf_msg, DnsMessage, MsgView, RecordView, MAX_WIRE_LEN,
};
use crate::errors::DapError;

verus! {

// ---------------------------------------------------------------------
// Fingerprint
// ---------------------------------------------------------------------

/// Model of a request fingerprint.
pub struct FingerprintView {
    pub qname: Seq<u8>,
    pub qtype: u16,
    pub qclass: u16,
}

/// Cache key: lowercased wire question name, question type and class.
pub struct Fingerprint {
    pub qname: Vec<u8>,
    pub qtype: u16,
    pub qclass: u16,
}

impl View for Fingerprint {
    type V = FingerprintView;

    open spec fn view(&self) -> FingerprintView {
        FingerprintView { qname: self.qname@, qtype: self.qtype, qclass: self.qclass }
    }
}

impl Fingerprint {
    /// Field-for-field copy.
    pub fn duplicate(&self) -> (r: Fingerprint)
        ensures
            r@ == self@,
    {
        Fingerprint { qname: clone_bytes(&self.qname), qtype: self.qtype, qclass: self.qclass }
    }
}

/// The fingerprint a message yields.
pub open spec fn fp_of(v: MsgView) -> FingerprintView {
    FingerprintView { qname: lower(v.qname), qtype: v.qtype, qclass: v.qclass }
}

/// Derive the fingerprint of a decoded message.
pub fn fingerprint_of(m: &DnsMessage) -> (r: Fingerprint)
    ensures
        r@ == fp_of(m@),
{
    Fingerprint { qname: lower_bytes(&m.qname), qtype: m.qtype, qclass: m.qclass }
}

/// Whether two fingerprints are the same key.
pub fn fp_eq(a: &Fingerprint, b: &Fingerprint) -> (r: bool)
    ensures
        r == (a@ == b@),
{
    let r = bytes_eq(&a.qname, &b.qname) && a.qtype == b.qtype && a.qclass == b.qclass;
    r
}

// ---------------------------------------------------------------------
// Entries
// ---------------------------------------------------------------------

/// Model of a cached entry.
pub struct EntryView {
    pub fp: FingerprintView,
    pub msg: MsgView,
    pub expires_at: u64,
    pub inserted_at: u64,
}

/// One cached response with its absolute expiry.
pub struct CachedEntry {
    pub fingerprint: Fingerprint,
    pub msg: DnsMessage,
    pub expires_at: u64,
    pub inserted_at: u64,
}

impl View for CachedEntry {
    type V = EntryView;

    open spec fn view(&self) -> EntryView {
        EntryView {
            fp: self.fingerprint@,
            msg: self.msg@,
            expires_at: self.expires_at,
            inserted_at: self.inserted_at,
        }
    }
}

impl CachedEntry {
    /// Field-for-field copy.
    pub fn duplicate(&self) -> (r: CachedEntry)
        ensures
            r@ == self@,
    {
        CachedEntry {
            fingerprint: self.fingerprint.duplicate(),
            msg: self.msg.duplicate(),
            expires_at: self.expires_at,
            inserted_at: self.inserted_at,
        }
    }
}

/// A structurally sound entry: its message re-encodes within the wire
/// limit.
pub open spec fn wf_entry(e: EntryView) -> bool {
    wf_msg(e.msg) && enc_msg(e.msg).len() <= MAX_WIRE_LEN
}

/// `t` is the smallest TTL of the record list.
pub open spec fn is_min_ttl(rs: Seq<RecordView>, t: u32) -> bool {
    &&& exists|k: int| 0 <= k < rs.len() && rs[k].ttl == t
    &&& forall|k: int| 0 <= k < rs.len() ==> #[trigger] rs[k].ttl >= t
}

/// The expiry `put` computes: insertion time plus the TTL floor or the
/// smallest record TTL, whichever is larger.
pub open spec fn is_expiry(x: u64, rs: Seq<RecordView>, floor: u32, now: u64) -> bool {
    exists|t: u32|
        is_min_ttl(rs, t) && x == now + (if floor >= t {
            floor
        } else {
            t
        }) as u64
}

// ---------------------------------------------------------------------
// Cache
// ---------------------------------------------------------------------

/// Bounded fingerprint-to-response map.
pub struct Cache {
    pub entries: Vec<CachedEntry>,
    pub max_size: usize,
}

/// Views of the entries of a cache.
pub open spec fn entries_view(s: Seq<CachedEntry>) -> Seq<EntryView> {
    s.map_values(|e: CachedEntry| e@)
}

impl View for Cache {
    type V = Seq<EntryView>;

    open spec fn view(&self) -> Seq<EntryView> {
        entries_view(self.entries@)
    }
}

impl Cache {
    /// Configured capacity.
    pub open spec fn spec_max_size(&self) -> usize {
        self.max_size
    }

    /// Invariant: entries are sound, within capacity, one per
    /// fingerprint.
    pub open spec fn wf(&self) -> bool {
        &&& self.max_size >= 1
        &&& self@.len() <= self.max_size
        &&& forall|k: int| 0 <= k < self@.len() ==> wf_entry(#[trigger] self@[k])
        &&& forall|j: int, k: int|
            0 <= j < k < self@.len() ==> self@[j].fp != self@[k].fp
    }

    /// Empty cache with the given capacity.
    pub fn new(max_size: usize) -> (r: Cache)
        requires
            max_size >= 1,
        ensures
            r.wf(),
            r@.len() == 0,
            r.spec_max_size() == max_size,
    {
        let r = Cache { entries: Vec::new(), max_size };
        assert(r@ =~= Seq::<EntryView>::empty());
        r
    }

    /// Configured capacity.
    pub fn max_size(&self) -> (r: usize)
        ensures
            r == self.spec_max_size(),
    {
        self.max_size
    }

    /// Number of live entries.
    pub fn len(&self) -> (r: usize)
        ensures
            r == self@.len(),
    {
        self.entries.len()
    }

    /// Index of the entry under the fingerprint, if any.
    fn find_index(&self, fp: &Fingerprint) -> (r: Option<usize>)
        ensures
            match r {
                Some(i) => i < self@.len() && self@[i as int].fp == fp@,
                None => forall|k: int|
                    0 <= k < self@.len() ==> (#[trigger] self@[k]).fp != fp@,
            },
    {
        let mut i: usize = 0;
        while i < self.entries.len()
            invariant
                i <= self.entries@.len(),
                self.entries@.len() == self@.len(),
                forall|j: int| 0 <= j < i ==> (#[trigger] self@[j]).fp != fp@,
            decreases self.entries@.len() - i,
        {
            if fp_eq(&self.entries[i].fingerprint, fp) {
                assert(self@[i as int].fp == fp@);
                return Some(i);
            }
            i = i + 1;
        }
        None
    }

    /// Look the fingerprint up. Returns a copy of the entry only if it
    /// has not expired at `now`, moving it to the back (most recently
    /// used); an expired entry is removed and reported as a miss.
    /// Entries under other fingerprints are untouched.
    #[verifier::rlimit(50)]
    pub fn get(&mut self, fp: &Fingerprint, now: u64) -> (r: Option<CachedEntry>)
        requires
            old(self).wf(),
        ensures
            final(self).wf(),
            final(self).spec_max_size() == old(self).spec_max_size(),
            match r {
                Some(e) => {
                    &&& e@.fp == fp@
                    &&& now < e@.expires_at
                    &&& exists|i: int|
                        0 <= i < old(self)@.len() && (#[trigger] old(self)@[i]) == e@
                            && final(self)@ == old(self)@.remove(i).push(e@)
                },
                None => {
                    &&& forall|k: int|
                        0 <= k < old(self)@.len() && (#[trigger] old(self)@[k]).fp == fp@
                            ==> now >= old(self)@[k].expires_at
                    &&& (final(self)@ == old(self)@ || exists|i: int|
                        0 <= i < old(self)@.len() && (#[trigger] old(self)@[i]).fp == fp@
                            && now >= old(self)@[i].expires_at
                            && final(self)@ == old(self)@.remove(i))
                    &&& forall|k: int|
                        0 <= k < final(self)@.len() ==> (#[trigger] final(self)@[k]).fp != fp@
                },
            },
    {
        let i = match self.find_index(fp) {
            None => {
                return None;
            },
            Some(i) => i,
        };
        // the fingerprint occurs at most once, so index i is the match
        proof {
            assert forall|k: int|
                0 <= k < old(self)@.len() && (#[trigger] old(self)@[k]).fp == fp@ implies k
                == i as int by {
                if k != i as int {
                    assert(old(self)@[k].fp != old(self)@[i as int].fp);
                }
            }
        }
        if now < self.entries[i].expires_at {
            // refresh recency: the entry moves to the back
            let entry = self.entries.remove(i);
            let e = entry.duplicate();
            self.entries.push(entry);
            proof {
                let fin = self@;
                let old_view = old(self)@;
                assert(fin =~= old_view.remove(i as int).push(e@));
                let last = fin.len() - 1;
                assert(fin[last] == old_view[i as int]);
                assert forall|k: int| 0 <= k < fin.len() implies wf_entry(#[trigger] fin[k]) by {
                    if k < i {
                        assert(fin[k] == old_view[k]);
                    } else if k < last {
                        assert(fin[k] == old_view[k + 1]);
                    }
                }
                assert forall|j2: int, k2: int| 0 <= j2 < k2 < fin.len() implies fin[j2].fp
                    != fin[k2].fp by {
                    let a = if j2 < i {
                        j2
                    } else if j2 < last {
                        j2 + 1
                    } else {
                        i as int
                    };
                    let b = if k2 < i {
                        k2
                    } else if k2 < last {
                        k2 + 1
                    } else {
                        i as int
                    };
                    assert(fin[j2] == old_view[a]);
                    assert(fin[k2] == old_view[b]);
                }
            }
            Some(e)
        } else {
            self.entries.remove(i);
            proof {
                let fin = self@;
                let old_view = old(self)@;
                assert(fin =~= old_view.remove(i as int));
                assert forall|k: int| 0 <= k < fin.len() implies (#[trigger] fin[k]).fp != fp@
                    && wf_entry(fin[k]) by {
                    if k < i {
                        assert(fin[k] == old_view[k]);
                    } else {
                        assert(fin[k] == old_view[k + 1]);
                    }
                }
                assert forall|j2: int, k2: int| 0 <= j2 < k2 < fin.len() implies fin[j2].fp
                    != fin[k2].fp by {
                    let a = if j2 < i {
                        j2
                    } else {
                        j2 + 1
                    };
                    let b = if k2 < i {
                        k2
                    } else {
                        k2 + 1
                    };
                    assert(fin[j2] == old_view[a]);
                    assert(fin[k2] == old_view[b]);
                }
            }
            None
        }
    }

    /// Insert the response under its fingerprint. The expiry is `now +
    /// max(min_ttl_floor, smallest TTL)`. A response without records is
    /// not cached. An entry under the same fingerprint is replaced; when
    /// the cache is full, the oldest entry is evicted.
    pub fn put(
        &mut self,
        fp: Fingerprint,
        msg: DnsMessage,
        now: u64,
        min_ttl_floor: u32,
    ) -> (r: Result<(), DapError>)
        requires
            old(self).wf(),
            wf_msg(msg@),
            enc_msg(msg@).len() <= MAX_WIRE_LEN,
            now <= u64::MAX - 0x1_0000_0000,
        ensures
            final(self).wf(),
            final(self).spec_max_size() == old(self).spec_max_size(),
            r is Ok <==> msg@.records.len() > 0,
            match r {
                Ok(()) => exists|k: int|
                    0 <= k < final(self)@.len() && (#[trigger] final(self)@[k]).fp == fp@
                        && final(self)@[k].msg == msg@ && final(self)@[k].inserted_at == now
                        && is_expiry(final(self)@[k].expires_at, msg@.records, min_ttl_floor, now),
                Err(e) => e == DapError::FailedToCache && final(self)@ == old(self)@,
            },
            // entries under other fingerprints survive while there is room
            old(self)@.len() < old(self).spec_max_size() ==> forall|j: int|
                0 <= j < old(self)@.len() && (#[trigger] old(self)@[j]).fp != fp@
                    ==> exists|k: int|
                    0 <= k < final(self)@.len() && final(self)@[k] == old(self)@[j],
    {
        let t = match min_ttl(&msg) {
            None => {
                return Err(DapError::FailedToCache);
            },
            Some(t) => t,
        };
        let ttl: u32 = if min_ttl_floor >= t {
            min_ttl_floor
        } else {
            t
        };
        let expires_at: u64 = now + (ttl as u64);
        // drop an existing entry under the same fingerprint
        let mut i: usize = 0;
        let mut removed: bool = false;
        while i < self.entries.len() && !removed
            invariant
                i <= self.entries@.len(),
                old(self).wf(),
                self.max_size == old(self).max_size,
                if removed {
                    self@ =~= old(self)@.remove(i as int) && i < old(self)@.len() && old(
                        self,
                    )@[i as int].fp == fp@
                } else {
                    self@ == old(self)@ && (forall|j: int|
                        0 <= j < i ==> (#[trigger] old(self)@[j]).fp != fp@)
                },
            decreases self.entries@.len() - i,
        {
            if fp_eq(&self.entries[i].fingerprint, &fp) {
                self.entries.remove(i);
                removed = true;
                proof {
                    assert(self@ =~= old(self)@.remove(i as int));
                }
            } else {
                i = i + 1;
            }
        }
        let ghost old_view = old(self)@;
        let ghost mid_view = self@;
        proof {
            // after the scan, no entry under fp remains
            assert forall|k: int| 0 <= k < mid_view.len() implies (#[trigger] mid_view[k]).fp
                != fp@ by {
                if removed {
                    let gi = i as int;
                    if k < gi {
                        assert(mid_view[k] == old_view[k]);
                    } else {
                        assert(mid_view[k] == old_view[k + 1]);
                    }
                }
            }
            // soundness of the remaining entries
            assert forall|k: int| 0 <= k < mid_view.len() implies wf_entry(
                #[trigger] mid_view[k],
            ) && (exists|j: int| 0 <= j < old_view.len() && old_view[j] == mid_view[k]) by {
                if removed {
                    let gi = i as int;
                    if k < gi {
                        assert(mid_view[k] == old_view[k]);
                    } else {
                        assert(mid_view[k] == old_view[k + 1]);
                    }
                } else {
                    assert(mid_view[k] == old_view[k]);
                }
            }
            assert forall|j2: int, k2: int| 0 <= j2 < k2 < mid_view.len() implies mid_view[j2].fp
                != mid_view[k2].fp by {
                if removed {
                    let gi = i as int;
                    let a = if j2 < gi {
                        j2
                    } else {
                        j2 + 1
                    };
                    let b = if k2 < gi {
                        k2
                    } else {
                        k2 + 1
                    };
                    assert(mid_view[j2] == old_view[a]);
                    assert(mid_view[k2] == old_view[b]);
                }
            }
        }
        // make room
        let mut evicted: bool = false;
        if self.entries.len() >= self.max_size {
            self.entries.remove(0);
            evicted = true;
        }
        let ghost room_view = self@;
        proof {
            if evicted {
                assert(room_view =~= mid_view.subrange(1, mid_view.len() as int));
            }
            assert forall|k: int| 0 <= k < room_view.len() implies wf_entry(
                #[trigger] room_view[k],
            ) && room_view[k].fp != fp@ by {
                if evicted {
                    assert(room_view[k] == mid_view[k + 1]);
                }
            }
            assert forall|j2: int, k2: int| 0 <= j2 < k2 < room_view.len() implies room_view[
                j2
            ].fp != room_view[k2].fp by {
                if evicted {
                    assert(room_view[j2] == mid_view[j2 + 1]);
                    assert(room_view[k2] == mid_view[k2 + 1]);
                }
            }
        }
        let entry = CachedEntry { fingerprint: fp, msg, expires_at, inserted_at: now };
        self.entries.push(entry);
        proof {
            let fin = self@;
            assert(fin =~= room_view.push(entry@));
            let last = fin.len() - 1;
            assert(fin[last].fp == fp@);
            assert(fin[last].msg == msg@);
            assert(is_min_ttl(msg@.records, t));
            assert(is_expiry(fin[last].expires_at, msg@.records, min_ttl_floor, now));
            assert forall|k: int| 0 <= k < fin.len() implies wf_entry(#[trigger] fin[k]) by {
                if k < last {
                    assert(fin[k] == room_view[k]);
                }
            }
            assert forall|j2: int, k2: int| 0 <= j2 < k2 < fin.len() implies fin[j2].fp != fin[
                k2
            ].fp by {
                if k2 < last {
                    assert(fin[j2] == room_view[j2]);
                    assert(fin[k2] == room_view[k2]);
                } else {
                    assert(fin[j2] == room_view[j2]);
                    assert(room_view[j2].fp != fp@);
                }
            }
            if old_view.len() < old(self).spec_max_size() {
                assert(!evicted);
                assert forall|j: int|
                    0 <= j < old_view.len() && (#[trigger] old_view[j]).fp != fp@
                        implies exists|k: int| 0 <= k < fin.len() && fin[k] == old_view[j] by {
                    if removed {
                        let gi = i as int;
                        if j < gi {
                            assert(fin[j] == old_view[j]);
                        } else {
                            assert(j != gi);
                            assert(fin[j - 1] == old_view[j]);
                        }
                    } else {
                        assert(fin[j] == old_view[j]);
                    }
                }
            }
        }
        Ok(())
    }
}

// ---------------------------------------------------------------------
// Producing a response from a cached entry
// ---------------------------------------------------------------------

/// Seconds elapsed since the entry was inserted (zero if the clock went
/// backwards).
pub open spec fn elapsed_of(e: EntryView, now: u64) -> int {
    if now >= e.inserted_at {
        now - e.inserted_at
    } else {
        0
    }
}

/// Wire response for a cached entry: the stored message restamped with
/// the caller's id, every TTL decreased by the elapsed seconds. Fails
/// when any TTL would go negative (the entry counts as expired).
pub fn build_response(e: &CachedEntry, query_id: u16, now: u64) -> (r: Result<
    Vec<u8>,
    DapError,
>)
    requires
        wf_entry(e@),
    ensures
        match r {
            Ok(out) => {
                &&& elapsed_of(e@, now) <= u32::MAX
                &&& forall|k: int|
                    0 <= k < e@.msg.records.len() ==> (#[trigger] e@.msg.records[k]).ttl
                        >= elapsed_of(e@, now)
                &&& out@ == enc_msg(
                    adjust_msg(e@.msg, query_id, elapsed_of(e@, now) as u32),
                )
                &&& parse_msg(out@) == Some(
                    adjust_msg(e@.msg, query_id, elapsed_of(e@, now) as u32),
                )
            },
            Err(err) => {
                &&& err == DapError::FailedToCache
                &&& (elapsed_of(e@, now) > u32::MAX || exists|k: int|
                    0 <= k < e@.msg.records.len() && (#[trigger] e@.msg.records[k]).ttl
                        < elapsed_of(e@, now))
            },
        },
{
    let elapsed64: u64 = if now >= e.inserted_at {
        now - e.inserted_at
    } else {
        0
    };
    if elapsed64 > 0xFFFF_FFFF {
        return Err(DapError::FailedToCache);
    }
    let elapsed: u32 = elapsed64 as u32;
    let mut k: usize = 0;
    while k < e.msg.records.len()
        invariant
            k <= e.msg.records@.len(),
            elapsed as int == elapsed_of(e@, now),
            forall|j: int| 0 <= j < k ==> (#[trigger] e@.msg.records[j]).ttl >= elapsed,
        decreases e.msg.records@.len() - k,
    {
        if e.msg.records[k].ttl < elapsed {
            proof {
                assert(e@.msg.records[k as int].ttl < elapsed_of(e@, now));
            }
            return Err(DapError::FailedToCache);
        }
        k = k + 1;
    }
    let m = adjusted(&e.msg, query_id, elapsed);
    proof {
        lemma_adjust_msg_wf(e@.msg, query_id, elapsed);
        lemma_parse_enc(m@);
    }
    let out = encode(&m);
    Ok(out)
}


/// Cache coherence: two answers produced from one cached entry at times
/// `t1` and then `t2` carry the same question and the same records, and
/// every TTL of the second is exactly the first's minus the seconds
/// between the two calls — in particular, at most the first's minus that
/// gap.
pub proof fn lemma_cache_coherence(e: EntryView, id1: u16, id2: u16, t1: u64, t2: u64)
    requires
        wf_entry(e),
        e.inserted_at <= t1 <= t2,
        elapsed_of(e, t2) <= u32::MAX,
        forall|k: int|
            0 <= k < e.msg.records.len() ==> (#[trigger] e.msg.records[k]).ttl >= elapsed_of(
                e,
                t2,
            ),
    ensures
        ({
            let first = adjust_msg(e.msg, id1, elapsed_of(e, t1) as u32);
            let second = adjust_msg(e.msg, id2, elapsed_of(e, t2) as u32);
            &&& second.qname == first.qname
            &&& second.qtype == first.qtype
            &&& second.qclass == first.qclass
            &&& second.records.len() == first.records.len()
            &&& forall|k: int|
                0 <= k < first.records.len() ==> {
                    let a = #[trigger] first.records[k];
                    let b = second.records[k];
                    &&& b.name == a.name
                    &&& b.rtype == a.rtype
                    &&& b.rclass == a.rclass
                    &&& b.rdata == a.rdata
                    &&& b.ttl == a.ttl - (t2 - t1)
                    &&& b.ttl <= a.ttl
                }
        }),
{
    let el1 = elapsed_of(e, t1) as u32;
    let el2 = elapsed_of(e, t2) as u32;
    let first = adjust_msg(e.msg, id1, el1);
    let second = adjust_msg(e.msg, id2, el2);
    assert(el2 == el1 + (t2 - t1));
    assert forall|k: int| 0 <= k < first.records.len() implies {
        let a = #[trigger] first.records[k];
        let b = second.records[k];
        b.name == a.name && b.rtype == a.rtype && b.rclass == a.rclass && b.rdata == a.rdata
            && b.ttl == a.ttl - (t2 - t1) && b.ttl <= a.ttl
    } by {
        assert(first.records[k] == adjust_record(e.msg.records[k], el1));
        assert(second.records[k] == adjust_record(e.msg.records[k], el2));
        assert(e.msg.records[k].ttl >= el2);
    }
}

/// Convergence under concurrency: whatever interleaving of lookups and
/// insertions produced a well-formed cache, it holds at most one entry
/// per fingerprint.
pub proof fn lemma_at_most_one_entry(c: &Cache, j: int, k: int)
    requires
        c.wf(),
        0 <= j < k < c@.len(),
    ensures
        c@[j].fp != c@[k].fp,
{
}

} // verus!
