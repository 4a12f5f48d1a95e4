//! Bounded-concurrency gate: one connection counter per transport kind
//! plus a derived total. The listener refuses a connection when the
//! pre-increment value has reached the configured ceiling.

use vstd::prelude::*;

verus! {

/// Transport kind a connection arrived on.
#[derive(Clone, Copy, Debug)]
pub enum CounterType {
    TCP,
    UDP,
}

/// Connection counters. The total is derived, never authoritative.
#[derive(Debug)]
pub struct Counter {
    pub cnt_total: usize,
    pub cnt_udp: usize,
    pub cnt_tcp: usize,
}

impl Default for Counter {
    /// All counters start at zero.
    fn default() -> (r: Self)
        ensures
            r.cnt_total == 0 && r.cnt_udp == 0 && r.cnt_tcp == 0,
    {
        Counter { cnt_total: 0, cnt_udp: 0, cnt_tcp: 0 }
    }
}

impl Counter {
    /// Current derived total.
    pub fn get_current_total(&self) -> (r: usize)
        ensures
            r == self.cnt_total,
    {
        self.cnt_total
    }

    /// Current count for one transport kind.
    pub fn get_current(&self, ctype: CounterType) -> (r: usize)
        ensures
            ctype is TCP ==> r == self.cnt_tcp,
            ctype is UDP ==> r == self.cnt_udp,
    {
        match ctype {
            CounterType::TCP => self.cnt_tcp,
            CounterType::UDP => self.cnt_udp,
        }
    }

    /// Count one more connection of the given kind and return the
    /// pre-increment value for that kind, as the admission gate reads it.
    pub fn increment(&mut self, ctype: CounterType) -> (r: usize)
        requires
            old(self).cnt_total < usize::MAX,
            old(self).cnt_tcp < usize::MAX,
            old(self).cnt_udp < usize::MAX,
        ensures
            final(self).cnt_total == old(self).cnt_total + 1,
            ctype is TCP ==> r == old(self).cnt_tcp && final(self).cnt_tcp == old(self).cnt_tcp
                + 1 && final(self).cnt_udp == old(self).cnt_udp,
            ctype is UDP ==> r == old(self).cnt_udp && final(self).cnt_udp == old(self).cnt_udp
                + 1 && final(self).cnt_tcp == old(self).cnt_tcp,
    {
        self.cnt_total = self.cnt_total + 1;
        match ctype {
            CounterType::TCP => {
                let pre = self.cnt_tcp;
                self.cnt_tcp = self.cnt_tcp + 1;
                pre
            },
            CounterType::UDP => {
                let pre = self.cnt_udp;
                self.cnt_udp = self.cnt_udp + 1;
                pre
            },
        }
    }

    /// Release one connection of the given kind; the per-kind count
    /// saturates at zero and the total is re-derived from the kinds.
    pub fn decrement(&mut self, ctype: CounterType)
        requires
            old(self).cnt_udp + old(self).cnt_tcp <= usize::MAX,
        ensures
            ctype is TCP ==> final(self).cnt_tcp == if old(self).cnt_tcp > 0 {
                (old(self).cnt_tcp - 1) as usize
            } else {
                0usize
            } && final(self).cnt_udp == old(self).cnt_udp,
            ctype is UDP ==> final(self).cnt_udp == if old(self).cnt_udp > 0 {
                (old(self).cnt_udp - 1) as usize
            } else {
                0usize
            } && final(self).cnt_tcp == old(self).cnt_tcp,
            final(self).cnt_total == final(self).cnt_udp + final(self).cnt_tcp,
    {
        match ctype {
            CounterType::TCP => {
                if self.cnt_tcp > 0 {
                    self.cnt_tcp = self.cnt_tcp - 1;
                }
            },
            CounterType::UDP => {
                if self.cnt_udp > 0 {
                    self.cnt_udp = self.cnt_udp - 1;
                }
            },
        }
        self.cnt_total = self.cnt_udp + self.cnt_tcp;
    }
}

} // verus!
