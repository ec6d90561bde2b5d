//! The backend bookkeeping and backend selection of one TCP reverse proxy
//! instance.
//!
//! An instance owns a mutable backend-address list, adjusted by add and
//! remove instructions.  For every inbound connection it picks a backend
//! by scanning the list from a rotating start (round robin), skipping the
//! backends the shared store reports unhealthy; when every backend is
//! unhealthy it falls back to the plain round-robin choice rather than
//! refuse the connection, and only an empty backend list rejects it.
//! Accepting connections and streaming bytes happen outside.
use vstd::prelude::*;
use vstd::arithmetic::div_mod::{lemma_add_mod_noop, lemma_mod_bound, lemma_small_mod};
use crate::kv::KV;
use crate::proxy_brain::{ProxyBrainAction, ProxyBrainActionView};
use crate::proxy_world::{addr_vec_contains, addr_vec_remove, spec_remove_addr};
use crate::seqs::lemma_map_values_push;

verus! {

/// Why no backend was selected.
#[derive(Debug, Clone, PartialEq, Eq)]
pub enum TcpProxyError {
    /// The backend list is empty: the connection is rejected.
    NoBackend,
}

/// One TCP reverse proxy instance's state: its listen address, its
/// backend addresses, and how many connections it has seen.
#[derive(Debug)]
pub struct TcpProxy {
    listen_addr: String,
    server_addrs: Vec<String>,
    stats_requests_all: u64,
}

/// The index the round-robin scan settles on: starting at
/// `counter % len`, the first backend the store reports healthy, scanning
/// `len - i` more positions; miss when none of them is healthy.
pub open spec fn spec_pick_from(addrs: Seq<Seq<char>>, kv: KV, counter: int, i: int) -> Option<int>
    decreases addrs.len() - i,
{
    if i < 0 || i >= addrs.len() {
        None
    } else if kv.spec_target_healthy(addrs[(counter + i) % (addrs.len() as int)]) {
        Some((counter + i) % (addrs.len() as int))
    } else {
        spec_pick_from(addrs, kv, counter, i + 1)
    }
}

impl TcpProxy {
    /// The address this instance listens on.
    pub closed spec fn spec_listen_addr(&self) -> Seq<char> {
        self.listen_addr@
    }

    /// The backend addresses, in rotation order.
    pub closed spec fn spec_server_addrs(&self) -> Seq<Seq<char>> {
        self.server_addrs@.map_values(|s: String| s@)
    }

    /// How many connections this instance has seen.
    pub closed spec fn spec_requests(&self) -> u64 {
        self.stats_requests_all
    }

    pub fn new(listen_addr: String) -> (r: Self)
        ensures
            r.spec_listen_addr() == listen_addr@,
            r.spec_server_addrs().len() == 0,
            r.spec_requests() == 0,
    {
        Self { listen_addr, server_addrs: Vec::new(), stats_requests_all: 0 }
    }

    pub fn get_listen_addr(&self) -> (r: &str)
        ensures
            r@ == self.spec_listen_addr(),
    {
        self.listen_addr.as_str()
    }

    pub fn get_server_addrs(&self) -> (r: &Vec<String>)
        ensures
            r@.map_values(|s: String| s@) == self.spec_server_addrs(),
    {
        &self.server_addrs
    }

    /// Apply one control instruction to the backend list: an add appends
    /// the backend if it is absent, a removal removes it by value.
    pub fn handle_action(&mut self, action: &ProxyBrainAction)
        ensures
            final(self).spec_listen_addr() == old(self).spec_listen_addr(),
            final(self).spec_requests() == old(self).spec_requests(),
            match action@ {
                ProxyBrainActionView::Add { listen_addr: _, server_addr } => final(self).spec_server_addrs() == (if old(self).spec_server_addrs().contains(server_addr) {
                    old(self).spec_server_addrs()
                } else {
                    old(self).spec_server_addrs().push(server_addr)
                }),
                ProxyBrainActionView::RemoveAsk { listen_addr: _, server_addr } => final(self).spec_server_addrs() == spec_remove_addr(
                    old(self).spec_server_addrs(),
                    server_addr,
                ),
            },
    {
        match action {
            ProxyBrainAction::Add(a) => {
                if !addr_vec_contains(&self.server_addrs, a.server_addr.as_str()) {
                    let x = a.server_addr.clone();
                    proof {
                        lemma_map_values_push(self.server_addrs@, x, |s: String| s@);
                    }
                    self.server_addrs.push(x);
                }
            },
            ProxyBrainAction::RemoveAsk(a) => {
                addr_vec_remove(&mut self.server_addrs, a.server_addr.as_str());
            },
        }
    }

    /// Pick the backend for one connection: scanning from the rotating
    /// start, the first backend the store reports healthy; when every
    /// backend is unhealthy, the plain round-robin choice; when the list
    /// is empty, no backend, and the connection is rejected.
    pub fn pick_server(&self, kv: &KV) -> (r: Result<String, TcpProxyError>)
        ensures
            match r {
                Err(e) => self.spec_server_addrs().len() == 0 && e == TcpProxyError::NoBackend,
                Ok(addr) => self.spec_server_addrs().len() > 0 && (match spec_pick_from(
                    self.spec_server_addrs(),
                    *kv,
                    self.spec_requests() as int,
                    0,
                ) {
                    Some(idx) => addr@ == self.spec_server_addrs()[idx] && kv.spec_target_healthy(
                        addr@,
                    ),
                    None => addr@ == self.spec_server_addrs()[(self.spec_requests() as int) % (
                    self.spec_server_addrs().len() as int)],
                }),
            },
    {
        let ghost addrs = self.spec_server_addrs();
        let ghost counter = self.stats_requests_all as int;
        let n = self.server_addrs.len();
        if n == 0 {
            return Err(TcpProxyError::NoBackend);
        }
        let base: u64 = self.stats_requests_all % (n as u64);
        let mut i: usize = 0;
        while i < n
            invariant
                0 <= i <= n,
                n == addrs.len(),
                n > 0,
                addrs == self.spec_server_addrs(),
                counter == self.spec_requests() as int,
                base == counter % (n as int),
                spec_pick_from(addrs, *kv, counter, 0) == spec_pick_from(
                    addrs,
                    *kv,
                    counter,
                    i as int,
                ),
            decreases n - i,
        {
            let id = (((base as u128) + (i as u128)) % (n as u128)) as usize;
            proof {
                lemma_mod_bound(base as int + i as int, n as int);
                lemma_small_mod(i as nat, n as nat);
                lemma_add_mod_noop(counter, i as int, n as int);
                assert(id as int == (counter + i) % (n as int));
            }
            if kv.is_target_healthy(self.server_addrs[id].as_str()) {
                proof {
                    assert(spec_pick_from(addrs, *kv, counter, i as int) == Some(id as int));
                }
                return Ok(self.server_addrs[id].clone());
            }
            proof {
                assert(spec_pick_from(addrs, *kv, counter, i as int) == spec_pick_from(
                    addrs,
                    *kv,
                    counter,
                    i as int + 1,
                ));
            }
            i = i + 1;
        }
        // Every backend is unhealthy: fall back to plain round robin.
        let id = (self.stats_requests_all % (n as u64)) as usize;
        proof {
            lemma_mod_bound(counter, n as int);
            assert(spec_pick_from(addrs, *kv, counter, i as int) is None);
        }
        Ok(self.server_addrs[id].clone())
    }

    /// Account one inbound connection and pick its backend.
    pub fn next_backend(&mut self, kv: &KV) -> (r: Result<String, TcpProxyError>)
        ensures
            final(self).spec_listen_addr() == old(self).spec_listen_addr(),
            final(self).spec_server_addrs() == old(self).spec_server_addrs(),
            final(self).spec_requests() as int == (if old(self).spec_requests() < u64::MAX {
                old(self).spec_requests() + 1
            } else {
                0int
            }),
            match r {
                Err(e) => final(self).spec_server_addrs().len() == 0 && e
                    == TcpProxyError::NoBackend,
                Ok(addr) => final(self).spec_server_addrs().len() > 0 && (match spec_pick_from(
                    final(self).spec_server_addrs(),
                    *kv,
                    final(self).spec_requests() as int,
                    0,
                ) {
                    Some(idx) => addr@ == final(self).spec_server_addrs()[idx]
                        && kv.spec_target_healthy(addr@),
                    None => addr@ == final(self).spec_server_addrs()[(final(self).spec_requests() as int) % (final(self).spec_server_addrs().len() as int)],
                }),
            },
    {
        self.stats_requests_all = self.stats_requests_all.wrapping_add(1);
        self.pick_server(kv)
    }
}

/// Is the backend the scan probes at step `j` healthy?
spec fn scan_healthy_at(addrs: Seq<Seq<char>>, kv: KV, counter: int, j: int) -> bool {
    kv.spec_target_healthy(addrs[(counter + j) % (addrs.len() as int)])
}

/// Liveness of the scan: when some scanned position holds a healthy
/// backend, the scan settles on a healthy backend.
proof fn lemma_pick_finds(addrs: Seq<Seq<char>>, kv: KV, counter: int, i: int)
    requires
        0 <= i <= addrs.len(),
        exists|j: int| i <= j < addrs.len() && #[trigger] scan_healthy_at(addrs, kv, counter, j),
    ensures
        spec_pick_from(addrs, kv, counter, i) matches Some(idx) && 0 <= idx < addrs.len()
            && kv.spec_target_healthy(addrs[idx]),
    decreases addrs.len() - i,
{
    let n = addrs.len() as int;
    let j0 = choose|j: int|
        i <= j < addrs.len() && #[trigger] scan_healthy_at(addrs, kv, counter, j);
    lemma_mod_bound(counter + i, n);
    if kv.spec_target_healthy(addrs[(counter + i) % n]) {
    } else {
        assert(!scan_healthy_at(addrs, kv, counter, i));
        assert(j0 != i);
        assert(i + 1 <= j0 < addrs.len() && scan_healthy_at(addrs, kv, counter, j0));
        lemma_pick_finds(addrs, kv, counter, i + 1);
    }
}

/// When every backend is unhealthy, the scan misses, whatever the
/// rotation.
pub proof fn lemma_pick_none_when_all_unhealthy(addrs: Seq<Seq<char>>, kv: KV, counter: int, i: int)
    requires
        0 <= i,
        forall|j: int| 0 <= j < addrs.len() ==> !kv.spec_target_healthy(addrs[j]),
    ensures
        spec_pick_from(addrs, kv, counter, i) is None,
    decreases addrs.len() - i,
{
    if i < addrs.len() {
        lemma_mod_bound(counter + i, addrs.len() as int);
        lemma_pick_none_when_all_unhealthy(addrs, kv, counter, i + 1);
    }
}

/// When some backend is healthy and every healthy backend reads `h`, the
/// scan selects `h`, whatever the rotation: with a single healthy backend,
/// every consecutive connection goes to it.
pub proof fn lemma_pick_selects_the_healthy_backend(
    addrs: Seq<Seq<char>>,
    kv: KV,
    counter: int,
    h: Seq<char>,
)
    requires
        0 <= counter,
        exists|j: int| 0 <= j < addrs.len() && kv.spec_target_healthy(#[trigger] addrs[j]),
        forall|j: int|
            0 <= j < addrs.len() && kv.spec_target_healthy(#[trigger] addrs[j]) ==> addrs[j] == h,
    ensures
        spec_pick_from(addrs, kv, counter, 0) matches Some(idx) && 0 <= idx < addrs.len()
            && addrs[idx] == h,
{
    let n = addrs.len() as int;
    let hi = choose|j: int| 0 <= j < addrs.len() && kv.spec_target_healthy(#[trigger] addrs[j]);
    // The scan reaches position hi after (hi - counter) mod n steps.
    let j0 = (hi - counter) % n;
    lemma_mod_bound(hi - counter, n);
    assert((counter + j0) % n == hi) by {
        lemma_mod_bound(hi - counter, n);
        lemma_add_mod_noop(counter, (hi - counter) % n, n);
        assert(((hi - counter) % n) % n == (hi - counter) % n) by {
            lemma_small_mod(((hi - counter) % n) as nat, n as nat);
        }
        lemma_add_mod_noop(counter, hi - counter, n);
        lemma_small_mod(hi as nat, n as nat);
    }
    assert(kv.spec_target_healthy(addrs[(counter + j0) % n]));
    assert(scan_healthy_at(addrs, kv, counter, j0));
    assert(0 <= j0 < addrs.len());
    lemma_pick_finds(addrs, kv, counter, 0);
}

} // verus!
