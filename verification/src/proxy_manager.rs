//! Building the two proxy snapshots that the proxy Brain diffs, and the
//! local bookkeeping for running proxy instances.
//!
//! The expected snapshot is derived from the live container world: each
//! container's declared proxy names are resolved against the
//! configuration to a listen address and combined with the container's
//! observed dynamic host port into a backend address; backends of the
//! same listen address accumulate into a set.  The current snapshot is
//! read off the bookkeeping of the running instances, so the tick does
//! not have to ask every instance synchronously.  Spawning instances,
//! mailboxes and sockets live outside; a declared proxy name the
//! configuration does not know, or a container without an observed port,
//! is a warning and is skipped for the tick.
use vstd::prelude::*;
use crate::config::{Config, ConfigView, ConfigFileProxyView};
use crate::proxy_brain::{ProxyBrainAction, ProxyBrainActionView};
use crate::proxy_world::{ProxyWorld, ProxyWorldEntry, ProxyWorldEntryView, proxy_world_view,
    addr_vec_contains, addr_vec_remove, spec_remove_addr};
use crate::seqs::{lemma_skip_drop_first, lemma_map_values_push};
use crate::text::{clone_string_vec, spec_dec, str_eq, u32_to_dec};
use crate::world::{World, WorldContainerView};

verus! {

/// Why a container's declared proxy was skipped this tick.
#[derive(Debug, Clone, PartialEq, Eq)]
pub enum ProxyWarning {
    /// The container declares a proxy name the configuration does not
    /// hold.
    ProxyNotInConfig,
    /// The container has no observed dynamic host port to forward to.
    NoDynamicHostPort,
}

/// The local bookkeeping for one running proxy instance: its listen
/// address and the backend set it has been told about.  It mirrors the
/// instance's own state so that building the current snapshot does not
/// ask the instance.
#[derive(Debug)]
pub struct ManagedProxy {
    listen_addr: String,
    server_addrs: Vec<String>,
}

impl ManagedProxy {
    /// The address the instance listens on.
    pub closed spec fn spec_listen_addr(&self) -> Seq<char> {
        self.listen_addr@
    }

    /// The backend addresses the instance has been told about.
    pub closed spec fn spec_server_addrs(&self) -> Seq<Seq<char>> {
        self.server_addrs@.map_values(|s: String| s@)
    }

    pub fn new(listen_addr: String) -> (r: Self)
        ensures
            r.spec_listen_addr() == listen_addr@,
            r.spec_server_addrs().len() == 0,
    {
        Self { listen_addr, server_addrs: Vec::new() }
    }

    pub fn get_listen_addr(&self) -> (r: &str)
        ensures
            r@ == self.spec_listen_addr(),
    {
        self.listen_addr.as_str()
    }

    pub fn get_server_addrs(&self) -> (r: &Vec<String>)
        ensures
            r@.map_values(|s: String| s@) == self.spec_server_addrs(),
    {
        &self.server_addrs
    }

    /// Note an instruction that was forwarded to the instance, so the
    /// local backend set mirrors the instance's: an add inserts the
    /// backend if absent, a removal removes it by value.
    pub fn note_action(&mut self, msg: &ProxyBrainAction)
        ensures
            final(self).spec_listen_addr() == old(self).spec_listen_addr(),
            match msg@ {
                ProxyBrainActionView::Add { listen_addr: _, server_addr } => final(self).spec_server_addrs() == (
                if old(self).spec_server_addrs().contains(server_addr) {
                    old(self).spec_server_addrs()
                } else {
                    old(self).spec_server_addrs().push(server_addr)
                }),
                ProxyBrainActionView::RemoveAsk { listen_addr: _, server_addr } => final(self).spec_server_addrs()
                    == spec_remove_addr(old(self).spec_server_addrs(), server_addr),
            },
    {
        match msg {
            ProxyBrainAction::Add(a) => {
                if !addr_vec_contains(&self.server_addrs, a.server_addr.as_str()) {
                    let x = a.server_addr.clone();
                    proof {
                        lemma_map_values_push(self.server_addrs@, x, |s: String| s@);
                    }
                    self.server_addrs.push(x);
                }
            },
            ProxyBrainAction::RemoveAsk(a) => {
                addr_vec_remove(&mut self.server_addrs, a.server_addr.as_str());
            },
        }
    }
}

/// Is a proxy instance for this listen address running?
pub fn proxy_exists(proxies: &Vec<ManagedProxy>, listen_addr: &str) -> (r: bool)
    ensures
        r == exists|i: int|
            0 <= i < proxies@.len() && (#[trigger] proxies@[i].spec_listen_addr()) == listen_addr@,
{
    let mut i: usize = 0;
    while i < proxies.len()
        invariant
            0 <= i <= proxies@.len(),
            forall|j: int| 0 <= j < i ==> (#[trigger] proxies@[j].spec_listen_addr()) != listen_addr@,
        decreases proxies@.len() - i,
    {
        if str_eq(proxies[i].get_listen_addr(), listen_addr) {
            proof {
                assert(proxies@[i as int].spec_listen_addr() == listen_addr@);
            }
            return true;
        }
        i = i + 1;
    }
    proof {
        if exists|j: int|
            0 <= j < proxies@.len() && (#[trigger] proxies@[j].spec_listen_addr()) == listen_addr@ {
            let j = choose|j: int|
                0 <= j < proxies@.len() && (#[trigger] proxies@[j].spec_listen_addr())
                    == listen_addr@;
            assert(false);
        }
    }
    false
}

/// The current snapshot: one entry per running instance, read off its
/// local bookkeeping.
pub fn create_proxy_world_current(proxies: &Vec<ManagedProxy>) -> (r: ProxyWorld)
    ensures
        r@ == proxies@.map_values(
            |m: ManagedProxy|
                ProxyWorldEntryView {
                    listen_addr: m.spec_listen_addr(),
                    server_addrs: m.spec_server_addrs(),
                },
        ),
{
    let ghost target = proxies@.map_values(
        |m: ManagedProxy|
            ProxyWorldEntryView {
                listen_addr: m.spec_listen_addr(),
                server_addrs: m.spec_server_addrs(),
            },
    );
    let mut buf: Vec<ProxyWorldEntry> = Vec::new();
    let mut i: usize = 0;
    while i < proxies.len()
        invariant
            0 <= i <= proxies@.len(),
            target == proxies@.map_values(
                |m: ManagedProxy|
                    ProxyWorldEntryView {
                        listen_addr: m.spec_listen_addr(),
                        server_addrs: m.spec_server_addrs(),
                    },
            ),
            proxy_world_view(buf@) =~= target.take(i as int),
        decreases proxies@.len() - i,
    {
        let p = &proxies[i];
        let entry = ProxyWorldEntry {
            listen_addr: p.get_listen_addr().to_owned(),
            server_addrs: clone_string_vec(p.get_server_addrs()),
        };
        proof {
            assert(entry@ == target[i as int]);
            lemma_map_values_push(buf@, entry, |e: ProxyWorldEntry| e@);
        }
        buf.push(entry);
        i = i + 1;
    }
    proof {
        assert(proxy_world_view(buf@) =~= target);
    }
    ProxyWorld { proxies: buf }
}

/// `"127.0.0.1:"` followed by the decimal reading of the port: the
/// backend address a dynamic host port forwards to.
pub open spec fn spec_backend_addr(port: int) -> Seq<char> {
    "127.0.0.1:"@ + spec_dec(port)
}

/// The backend address for a dynamic host port.
pub fn backend_addr(port: u32) -> (r: String)
    ensures
        r@ == spec_backend_addr(port as int),
{
    let mut r = String::from_str("127.0.0.1:");
    let digits = u32_to_dec(port);
    r.append(digits.as_str());
    r
}

/// The first configured proxy of this name, if any.
pub open spec fn spec_find_proxy(proxies: Seq<ConfigFileProxyView>, name: Seq<char>) -> Option<
    ConfigFileProxyView,
>
    decreases proxies.len(),
{
    if proxies.len() == 0 {
        None
    } else if proxies[0].name == name {
        Some(proxies[0])
    } else {
        spec_find_proxy(proxies.drop_first(), name)
    }
}

/// When `j` is the first configured proxy of this name, `spec_find_proxy`
/// returns it.
proof fn lemma_find_proxy_at(proxies: Seq<ConfigFileProxyView>, name: Seq<char>, j: int)
    requires
        0 <= j < proxies.len(),
        proxies[j].name == name,
        forall|jj: int| 0 <= jj < j ==> proxies[jj].name != name,
    ensures
        spec_find_proxy(proxies, name) == Some(proxies[j]),
    decreases j,
{
    if j > 0 {
        assert(forall|jj: int| 0 <= jj < j - 1 ==> proxies.drop_first()[jj].name != name);
        lemma_find_proxy_at(proxies.drop_first(), name, j - 1);
    }
}

/// When no configured proxy carries this name, `spec_find_proxy` misses.
proof fn lemma_find_proxy_none(proxies: Seq<ConfigFileProxyView>, name: Seq<char>)
    requires
        forall|j: int| 0 <= j < proxies.len() ==> proxies[j].name != name,
    ensures
        spec_find_proxy(proxies, name) is None,
    decreases proxies.len(),
{
    if proxies.len() > 0 {
        assert(forall|j: int|
            0 <= j < proxies.drop_first().len() ==> proxies.drop_first()[j].name != name);
        lemma_find_proxy_none(proxies.drop_first(), name);
    }
}

/// The first position of a configured proxy of this name, if any.
fn find_proxy(proxies: &Vec<crate::config::ConfigFileProxy>, name: &str) -> (r: Option<usize>)
    ensures
        match r {
            Some(j) => 0 <= j < proxies@.len() && spec_find_proxy(
                proxies@.map_values(|p: crate::config::ConfigFileProxy| p@),
                name@,
            ) == Some(proxies@[j as int]@),
            None => spec_find_proxy(
                proxies@.map_values(|p: crate::config::ConfigFileProxy| p@),
                name@,
            ) is None,
        },
{
    let ghost gp = proxies@.map_values(|p: crate::config::ConfigFileProxy| p@);
    let mut j: usize = 0;
    while j < proxies.len()
        invariant
            0 <= j <= proxies@.len(),
            gp == proxies@.map_values(|p: crate::config::ConfigFileProxy| p@),
            forall|jj: int| 0 <= jj < j ==> gp[jj].name != name@,
        decreases proxies@.len() - j,
    {
        if str_eq(proxies[j].name.as_str(), name) {
            proof {
                lemma_find_proxy_at(gp, name@, j as int);
            }
            return Some(j);
        }
        j = j + 1;
    }
    proof {
        lemma_find_proxy_none(gp, name@);
    }
    None
}

/// An upsert into the snapshot: a new listen address gets a fresh entry
/// holding only this backend; an existing one keeps its place and gains
/// the backend if it is absent.
pub open spec fn pw_upsert(
    entries: Seq<ProxyWorldEntryView>,
    listen: Seq<char>,
    addr: Seq<char>,
) -> Seq<ProxyWorldEntryView>
    decreases entries.len(),
{
    if entries.len() == 0 {
        seq![ProxyWorldEntryView { listen_addr: listen, server_addrs: seq![addr] }]
    } else if entries[0].listen_addr == listen {
        seq![
            ProxyWorldEntryView {
                listen_addr: listen,
                server_addrs: (if entries[0].server_addrs.contains(addr) {
                    entries[0].server_addrs
                } else {
                    entries[0].server_addrs.push(addr)
                }),
            },
        ] + entries.drop_first()
    } else {
        seq![entries[0]] + pw_upsert(entries.drop_first(), listen, addr)
    }
}

/// The snapshot after upserting a list of (listen, backend) pairs in
/// order.
pub open spec fn pw_fold(
    entries: Seq<ProxyWorldEntryView>,
    pairs: Seq<(Seq<char>, Seq<char>)>,
) -> Seq<ProxyWorldEntryView>
    decreases pairs.len(),
{
    if pairs.len() == 0 {
        entries
    } else {
        pw_fold(pw_upsert(entries, pairs[0].0, pairs[0].1), pairs.drop_first())
    }
}

/// Folding a concatenation of pair lists is folding them one after the
/// other.
proof fn lemma_pw_fold_concat(
    entries: Seq<ProxyWorldEntryView>,
    p1: Seq<(Seq<char>, Seq<char>)>,
    p2: Seq<(Seq<char>, Seq<char>)>,
)
    ensures
        pw_fold(entries, p1 + p2) == pw_fold(pw_fold(entries, p1), p2),
    decreases p1.len(),
{
    if p1.len() == 0 {
        assert(p1 + p2 =~= p2);
    } else {
        assert((p1 + p2)[0] == p1[0]);
        assert((p1 + p2).drop_first() =~= p1.drop_first() + p2);
        lemma_pw_fold_concat(pw_upsert(entries, p1[0].0, p1[0].1), p1.drop_first(), p2);
    }
}

/// When `j` is the first entry of this listen address, the upsert updates
/// position `j` in place.
proof fn lemma_pw_upsert_at(
    entries: Seq<ProxyWorldEntryView>,
    listen: Seq<char>,
    addr: Seq<char>,
    j: int,
)
    requires
        0 <= j < entries.len(),
        entries[j].listen_addr == listen,
        forall|jj: int| 0 <= jj < j ==> entries[jj].listen_addr != listen,
    ensures
        pw_upsert(entries, listen, addr) == entries.update(
            j,
            ProxyWorldEntryView {
                listen_addr: listen,
                server_addrs: (if entries[j].server_addrs.contains(addr) {
                    entries[j].server_addrs
                } else {
                    entries[j].server_addrs.push(addr)
                }),
            },
        ),
    decreases j,
{
    let e2 = ProxyWorldEntryView {
        listen_addr: listen,
        server_addrs: (if entries[j].server_addrs.contains(addr) {
            entries[j].server_addrs
        } else {
            entries[j].server_addrs.push(addr)
        }),
    };
    if j == 0 {
        assert(seq![e2] + entries.drop_first() =~= entries.update(0, e2));
    } else {
        assert(forall|jj: int|
            0 <= jj < j - 1 ==> entries.drop_first()[jj].listen_addr != listen);
        assert(entries.drop_first()[j - 1].listen_addr == listen);
        lemma_pw_upsert_at(entries.drop_first(), listen, addr, j - 1);
        assert(seq![entries[0]] + entries.drop_first().update(j - 1, e2) =~= entries.update(j, e2));
    }
}

/// When no entry carries this listen address, the upsert appends a fresh
/// entry.
proof fn lemma_pw_upsert_none(entries: Seq<ProxyWorldEntryView>, listen: Seq<char>, addr: Seq<char>)
    requires
        forall|jj: int| 0 <= jj < entries.len() ==> entries[jj].listen_addr != listen,
    ensures
        pw_upsert(entries, listen, addr) == entries.push(
            ProxyWorldEntryView { listen_addr: listen, server_addrs: seq![addr] },
        ),
    decreases entries.len(),
{
    let fresh = ProxyWorldEntryView { listen_addr: listen, server_addrs: seq![addr] };
    if entries.len() == 0 {
        assert(seq![fresh] =~= entries.push(fresh));
    } else {
        assert(forall|jj: int|
            0 <= jj < entries.drop_first().len() ==> entries.drop_first()[jj].listen_addr
                != listen);
        lemma_pw_upsert_none(entries.drop_first(), listen, addr);
        assert(seq![entries[0]] + entries.drop_first().push(fresh) =~= entries.push(fresh));
    }
}

/// Upsert one (listen, backend) pair into the snapshot under
/// construction.
fn pw_upsert_exec(entries: &mut Vec<ProxyWorldEntry>, listen: &str, addr: &str)
    ensures
        proxy_world_view(final(entries)@) == pw_upsert(
            proxy_world_view(old(entries)@),
            listen@,
            addr@,
        ),
{
    let ghost ge = proxy_world_view(entries@);
    let mut j: usize = 0;
    while j < entries.len()
        invariant
            0 <= j <= entries@.len(),
            entries@ == old(entries)@,
            ge == proxy_world_view(entries@),
            forall|jj: int| 0 <= jj < j ==> ge[jj].listen_addr != listen@,
        decreases entries@.len() - j,
    {
        if str_eq(entries[j].listen_addr.as_str(), listen) {
            proof {
                assert(ge[j as int].listen_addr == listen@);
                lemma_pw_upsert_at(ge, listen@, addr@, j as int);
            }
            let addrs_has = addr_vec_contains(&entries[j].server_addrs, addr);
            let mut new_addrs = clone_string_vec(&entries[j].server_addrs);
            if !addrs_has {
                let x = addr.to_owned();
                proof {
                    lemma_map_values_push(new_addrs@, x, |s: String| s@);
                }
                new_addrs.push(x);
            }
            let new_entry = ProxyWorldEntry { listen_addr: listen.to_owned(), server_addrs: new_addrs };
            proof {
                let e2 = ProxyWorldEntryView {
                    listen_addr: listen@,
                    server_addrs: (if ge[j as int].server_addrs.contains(addr@) {
                        ge[j as int].server_addrs
                    } else {
                        ge[j as int].server_addrs.push(addr@)
                    }),
                };
                assert(new_entry@ == e2);
                assert(proxy_world_view(entries@.update(j as int, new_entry)) =~= ge.update(
                    j as int,
                    e2,
                ));
            }
            entries.set(j, new_entry);
            return ;
        }
        j = j + 1;
    }
    proof {
        lemma_pw_upsert_none(ge, listen@, addr@);
    }
    let mut addrs: Vec<String> = Vec::new();
    addrs.push(addr.to_owned());
    let new_entry = ProxyWorldEntry { listen_addr: listen.to_owned(), server_addrs: addrs };
    proof {
        assert(new_entry@ == (ProxyWorldEntryView {
            listen_addr: listen@,
            server_addrs: seq![addr@],
        })) by {
            assert(new_entry@.server_addrs =~= seq![addr@]);
        }
        lemma_map_values_push(entries@, new_entry, |e: ProxyWorldEntry| e@);
    }
    entries.push(new_entry);
}

/// The (listen, backend) pairs a container's declared proxy names
/// resolve to, and the warnings for the names that resolve to none.
pub open spec fn spec_names_pairs(names: Seq<Seq<char>>, port: int, config: ConfigView) -> (
    Seq<(Seq<char>, Seq<char>)>,
    Seq<ProxyWarning>,
)
    decreases names.len(),
{
    if names.len() == 0 {
        (Seq::empty(), Seq::empty())
    } else {
        let rest = spec_names_pairs(names.drop_first(), port, config);
        match spec_find_proxy(config.proxy, names[0]) {
            Some(p) => (seq![(p.listen, spec_backend_addr(port))] + rest.0, rest.1),
            None => (rest.0, seq![ProxyWarning::ProxyNotInConfig] + rest.1),
        }
    }
}

/// The pairs one container contributes: none without an observed dynamic
/// host port, else one per resolvable declared proxy name.
pub open spec fn spec_container_pairs(c: WorldContainerView, config: ConfigView) -> (
    Seq<(Seq<char>, Seq<char>)>,
    Seq<ProxyWarning>,
) {
    match c.container_port_dynamic_host {
        None => (Seq::empty(), seq![ProxyWarning::NoDynamicHostPort]),
        Some(port) => spec_names_pairs(c.proxies, port, config),
    }
}

/// The pairs a whole world contributes, in world order.
pub open spec fn spec_world_pairs(w: Seq<WorldContainerView>, config: ConfigView) -> (
    Seq<(Seq<char>, Seq<char>)>,
    Seq<ProxyWarning>,
)
    decreases w.len(),
{
    if w.len() == 0 {
        (Seq::empty(), Seq::empty())
    } else {
        let head = spec_container_pairs(w[0], config);
        let rest = spec_world_pairs(w.drop_first(), config);
        (head.0 + rest.0, head.1 + rest.1)
    }
}

/// The expected snapshot for one tick: every container's declared proxy
/// names resolved against the configuration to a listen address, combined
/// with the container's observed dynamic host port into a backend
/// address, backends of one listen address accumulating into a set.  A
/// name the configuration does not hold, or a container without an
/// observed port, is a warning and contributes nothing.
#[verifier::rlimit(60)]
pub fn create_proxy_world_expected(world: &World, config: &Config) -> (r: (
    ProxyWorld,
    Vec<ProxyWarning>,
))
    ensures
        r.0@ == pw_fold(Seq::empty(), spec_world_pairs(world@, config@).0),
        r.1@ == spec_world_pairs(world@, config@).1,
{
    let containers = world.get_containers();
    let ghost full = spec_world_pairs(world@, config@);
    let mut entries: Vec<ProxyWorldEntry> = Vec::new();
    let mut warnings: Vec<ProxyWarning> = Vec::new();
    let mut i: usize = 0;
    proof {
        assert(world@.skip(0) =~= world@);
        assert(proxy_world_view(entries@) =~= Seq::<ProxyWorldEntryView>::empty());
    }
    while i < containers.len()
        invariant
            0 <= i <= containers@.len(),
            world@ == crate::world::world_view(containers@),
            full == spec_world_pairs(world@, config@),
            pw_fold(Seq::empty(), full.0) == pw_fold(
                proxy_world_view(entries@),
                spec_world_pairs(world@.skip(i as int), config@).0,
            ),
            full.1 =~= warnings@ + spec_world_pairs(world@.skip(i as int), config@).1,
        decreases containers@.len() - i,
    {
        let c = &containers[i];
        proof {
            lemma_skip_drop_first(world@, i as int);
            assert(world@[i as int] == c@);
        }
        let ghost cp = spec_container_pairs(c@, config@);
        let ghost rest = spec_world_pairs(world@.skip(i as int + 1), config@);
        proof {
            assert(spec_world_pairs(world@.skip(i as int), config@).0 == cp.0 + rest.0);
            assert(spec_world_pairs(world@.skip(i as int), config@).1 == cp.1 + rest.1);
            lemma_pw_fold_concat(proxy_world_view(entries@), cp.0, rest.0);
        }
        match c.container_port_dynamic_host {
            None => {
                proof {
                    assert(cp.0 =~= Seq::<(Seq<char>, Seq<char>)>::empty());
                    assert(pw_fold(proxy_world_view(entries@), cp.0) == proxy_world_view(entries@));
                    assert((warnings@.push(ProxyWarning::NoDynamicHostPort)) + rest.1 =~= warnings@
                        + (cp.1 + rest.1));
                }
                warnings.push(ProxyWarning::NoDynamicHostPort);
            },
            Some(port) => {
                let ghost names = c@.proxies;
                let ghost np = spec_names_pairs(names, port as int, config@);
                let ghost entries_begin = proxy_world_view(entries@);
                let ghost warn_base = warnings@;
                let ghost warn_len0 = warnings@.len() as int;
                let mut k: usize = 0;
                proof {
                    assert(names.skip(0) =~= names);
                    assert(np == cp);
                    assert(warnings@.take(warn_len0) =~= warn_base);
                }
                while k < c.proxies.len()
                    invariant
                        0 <= k <= c.proxies@.len(),
                        names == c@.proxies,
                        names == c.proxies@.map_values(|s: String| s@),
                        np == spec_names_pairs(names, port as int, config@),
                        full == spec_world_pairs(world@, config@),
                        0 <= warn_len0 <= warnings@.len(),
                        pw_fold(entries_begin, np.0) == pw_fold(
                            proxy_world_view(entries@),
                            spec_names_pairs(names.skip(k as int), port as int, config@).0,
                        ),
                        np.1 =~= warnings@.skip(warn_len0) + spec_names_pairs(
                            names.skip(k as int),
                            port as int,
                            config@,
                        ).1,
                        warnings@.take(warn_len0) == warn_base,
                    decreases c.proxies@.len() - k,
                {
                    let name = &c.proxies[k];
                    proof {
                        lemma_skip_drop_first(names, k as int);
                        assert(names[k as int] == name@);
                    }
                    let ghost nrest = spec_names_pairs(
                        names.skip(k as int + 1),
                        port as int,
                        config@,
                    );
                    match find_proxy(&config.proxy, name.as_str()) {
                        Some(j) => {
                            let listen = &config.proxy[j].listen;
                            let backend = backend_addr(port);
                            proof {
                                let p = spec_find_proxy(config@.proxy, name@).unwrap();
                                assert(p.listen == listen@);
                                let pair = (p.listen, spec_backend_addr(port as int));
                                assert(spec_names_pairs(
                                    names.skip(k as int),
                                    port as int,
                                    config@,
                                ).0 == seq![pair] + nrest.0);
                                assert((seq![pair] + nrest.0)[0] == pair);
                                assert((seq![pair] + nrest.0).drop_first() =~= nrest.0);
                                assert(pw_fold(proxy_world_view(entries@), seq![pair] + nrest.0)
                                    == pw_fold(
                                    pw_upsert(proxy_world_view(entries@), pair.0, pair.1),
                                    nrest.0,
                                ));
                            }
                            pw_upsert_exec(&mut entries, listen.as_str(), backend.as_str());
                        },
                        None => {
                            proof {
                                assert(spec_names_pairs(
                                    names.skip(k as int),
                                    port as int,
                                    config@,
                                ).1 == seq![ProxyWarning::ProxyNotInConfig] + nrest.1);
                                assert forall|t: int|
                                    0 <= t < (warnings@.push(ProxyWarning::ProxyNotInConfig)).skip(
                                        warn_len0,
                                    ).len() implies (warnings@.push(
                                    ProxyWarning::ProxyNotInConfig,
                                )).skip(warn_len0)[t] == warnings@.skip(warn_len0).push(
                                    ProxyWarning::ProxyNotInConfig,
                                )[t] by {
                                    if warn_len0 + t < warnings@.len() {
                                        assert((warnings@.push(
                                            ProxyWarning::ProxyNotInConfig,
                                        ))[warn_len0 + t] == warnings@[warn_len0 + t]);
                                    } else {
                                        assert((warnings@.push(
                                            ProxyWarning::ProxyNotInConfig,
                                        ))[warn_len0 + t] == ProxyWarning::ProxyNotInConfig);
                                    }
                                }
                                assert((warnings@.push(ProxyWarning::ProxyNotInConfig)).skip(
                                    warn_len0,
                                ) =~= warnings@.skip(warn_len0).push(ProxyWarning::ProxyNotInConfig));
                                assert(warnings@.skip(warn_len0).push(ProxyWarning::ProxyNotInConfig)
                                    + nrest.1 =~= warnings@.skip(warn_len0) + (seq![
                                    ProxyWarning::ProxyNotInConfig,
                                ] + nrest.1));
                                assert((warnings@.push(ProxyWarning::ProxyNotInConfig)).take(
                                    warn_len0,
                                ) =~= warnings@.take(warn_len0));
                            }
                            warnings.push(ProxyWarning::ProxyNotInConfig);
                        },
                    }
                    k = k + 1;
                }
                proof {
                    assert(names.skip(k as int).len() == 0);
                    assert(spec_names_pairs(names.skip(k as int), port as int, config@).0
                        =~= Seq::<(Seq<char>, Seq<char>)>::empty());
                    assert(spec_names_pairs(names.skip(k as int), port as int, config@).1
                        =~= Seq::<ProxyWarning>::empty());
                    assert(pw_fold(entries_begin, np.0) == pw_fold(
                        proxy_world_view(entries@),
                        Seq::<(Seq<char>, Seq<char>)>::empty(),
                    ));
                    assert(np.1 =~= warnings@.skip(warn_len0) + Seq::<ProxyWarning>::empty());
                    assert(np.1 =~= warnings@.skip(warn_len0));
                    assert(warnings@ =~= warn_base + np.1) by {
                        assert(warnings@.take(warn_len0) + warnings@.skip(warn_len0) =~= warnings@);
                    }
                    assert(full.1 =~= (warn_base + np.1) + rest.1) by {
                        assert(warn_base + (np.1 + rest.1) =~= (warn_base + np.1) + rest.1);
                    }
                }
            },
        }
        i = i + 1;
    }
    proof {
        assert(world@.skip(i as int).len() == 0);
        assert(spec_world_pairs(world@.skip(i as int), config@).0 =~= Seq::<
            (Seq<char>, Seq<char>),
        >::empty());
        assert(spec_world_pairs(world@.skip(i as int), config@).1 =~= Seq::<ProxyWarning>::empty());
        assert(pw_fold(Seq::empty(), full.0) == pw_fold(
            proxy_world_view(entries@),
            Seq::<(Seq<char>, Seq<char>)>::empty(),
        ));
        assert(full.1 =~= warnings@ + Seq::<ProxyWarning>::empty());
        assert(full.1 =~= warnings@);
    }
    (ProxyWorld { proxies: entries }, warnings)
}

} // verus!
