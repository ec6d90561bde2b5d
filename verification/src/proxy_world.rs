//! The proxy snapshot model: per listen address, the set of backend
//! addresses traffic is (or should be) forwarded to.
use vstd::prelude::*;
use crate::text::clone_string_vec;

verus! {

/// One listen address and its backend addresses.
#[derive(Debug)]
pub struct ProxyWorldEntry {
    pub listen_addr: String,
    pub server_addrs: Vec<String>,
}

/// The mathematical model of a `ProxyWorldEntry`.
pub struct ProxyWorldEntryView {
    pub listen_addr: Seq<char>,
    pub server_addrs: Seq<Seq<char>>,
}

impl View for ProxyWorldEntry {
    type V = ProxyWorldEntryView;

    open spec fn view(&self) -> ProxyWorldEntryView {
        ProxyWorldEntryView {
            listen_addr: self.listen_addr@,
            server_addrs: self.server_addrs@.map_values(|s: String| s@),
        }
    }
}

impl Clone for ProxyWorldEntry {
    fn clone(&self) -> (r: Self)
        ensures
            r@ == self@,
    {
        Self {
            listen_addr: self.listen_addr.clone(),
            server_addrs: clone_string_vec(&self.server_addrs),
        }
    }
}

/// A proxy snapshot: a mapping from listen address to entry, kept as a
/// list whose listen addresses the builders keep unique.
#[derive(Debug)]
pub struct ProxyWorld {
    pub proxies: Vec<ProxyWorldEntry>,
}

/// The model of a proxy snapshot.
pub open spec fn proxy_world_view(entries: Seq<ProxyWorldEntry>) -> Seq<ProxyWorldEntryView> {
    entries.map_values(|e: ProxyWorldEntry| e@)
}

impl View for ProxyWorld {
    type V = Seq<ProxyWorldEntryView>;

    open spec fn view(&self) -> Seq<ProxyWorldEntryView> {
        proxy_world_view(self.proxies@)
    }
}

/// Does the snapshot forward `listen` to `addr`?
pub open spec fn pw_contains(s: Seq<ProxyWorldEntryView>, listen: Seq<char>, addr: Seq<char>) -> bool {
    exists|i: int|
        0 <= i < s.len() && s[i].listen_addr == listen && s[i].server_addrs.contains(addr)
}

/// The {current, expected} pairing of proxy snapshots for one tick.
pub struct ProxyWorlds {
    pub current: ProxyWorld,
    pub expected: ProxyWorld,
}

impl ProxyWorlds {
    /// The full action batch that reconciles the current snapshot toward
    /// the expected one: every add, then every removal.
    pub fn build_diff(&self) -> (r: Vec<crate::proxy_brain::ProxyBrainAction>)
        ensures
            crate::proxy_brain::actions_view(r@) == crate::proxy_brain::spec_pass(
                self.expected@,
                self.current@,
                true,
            ) + crate::proxy_brain::spec_pass(self.current@, self.expected@, false),
    {
        crate::proxy_brain::ProxyBrain::think(self)
    }
}

/// `addrs` with every occurrence of `addr` removed, order otherwise kept.
pub open spec fn spec_remove_addr(addrs: Seq<Seq<char>>, addr: Seq<char>) -> Seq<Seq<char>>
    decreases addrs.len(),
{
    if addrs.len() == 0 {
        addrs
    } else if addrs[0] == addr {
        spec_remove_addr(addrs.drop_first(), addr)
    } else {
        seq![addrs[0]] + spec_remove_addr(addrs.drop_first(), addr)
    }
}

/// Does the address list hold `addr`?
pub fn addr_vec_contains(v: &Vec<String>, addr: &str) -> (r: bool)
    ensures
        r == v@.map_values(|s: String| s@).contains(addr@),
{
    let ghost vv = v@.map_values(|s: String| s@);
    let mut i: usize = 0;
    while i < v.len()
        invariant
            0 <= i <= v@.len(),
            vv == v@.map_values(|s: String| s@),
            forall|j: int| 0 <= j < i ==> vv[j] != addr@,
        decreases v@.len() - i,
    {
        if crate::text::str_eq(v[i].as_str(), addr) {
            proof {
                assert(vv[i as int] == addr@);
            }
            return true;
        }
        i = i + 1;
    }
    proof {
        if vv.contains(addr@) {
            let j = choose|j: int| 0 <= j < vv.len() && vv[j] == addr@;
            assert(false);
        }
    }
    false
}

/// Remove every occurrence of `addr` from the address list.
pub fn addr_vec_remove(v: &mut Vec<String>, addr: &str)
    ensures
        final(v)@.map_values(|s: String| s@) == spec_remove_addr(
            old(v)@.map_values(|s: String| s@),
            addr@,
        ),
{
    let ghost vv = old(v)@.map_values(|s: String| s@);
    let mut out: Vec<String> = Vec::new();
    let mut i: usize = 0;
    proof {
        assert(vv.skip(0) =~= vv);
    }
    while i < v.len()
        invariant
            0 <= i <= v@.len(),
            vv == v@.map_values(|s: String| s@),
            spec_remove_addr(vv, addr@) =~= out@.map_values(|s: String| s@) + spec_remove_addr(
                vv.skip(i as int),
                addr@,
            ),
        decreases v@.len() - i,
    {
        proof {
            crate::seqs::lemma_skip_drop_first(vv, i as int);
            assert(vv[i as int] == v@[i as int]@);
        }
        if !crate::text::str_eq(v[i].as_str(), addr) {
            let x = v[i].clone();
            proof {
                crate::seqs::lemma_map_values_push(out@, x, |s: String| s@);
                let rest = spec_remove_addr(vv.skip(i as int + 1), addr@);
                assert((out@.map_values(|s: String| s@).push(vv[i as int])) + rest =~= out@.map_values(
                    |s: String| s@,
                ) + (seq![vv[i as int]] + rest));
            }
            out.push(x);
        }
        i = i + 1;
    }
    proof {
        assert(vv.skip(i as int).len() == 0);
        assert(out@.map_values(|s: String| s@) + spec_remove_addr(vv.skip(i as int), addr@)
            =~= out@.map_values(|s: String| s@));
    }
    *v = out;
}

} // verus!
