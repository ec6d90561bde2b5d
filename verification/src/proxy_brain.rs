//! The proxy decision policy: per listen address, the set difference of
//! expected and current backend sets, both ways.
//!
//! Unlike the container Brain, this emits the full action batch per tick:
//! adjusting a live proxy's backend set is cheap and idempotent.
use vstd::prelude::*;
use crate::proxy_world::{ProxyWorld, ProxyWorldEntry, ProxyWorldEntryView, ProxyWorlds,
    pw_contains};
use crate::text::str_eq;

verus! {

pub struct ProxyBrain;

/// An instruction to forward a listen address to one more backend.
#[derive(Debug, Clone)]
pub struct ProxyBrainActionAdd {
    pub listen_addr: String,
    pub server_addr: String,
}

/// An instruction to stop forwarding a listen address to one backend.
#[derive(Debug, Clone)]
pub struct ProxyBrainActionRemove {
    pub listen_addr: String,
    pub server_addr: String,
}

/// What the proxy Brain asks for.
#[derive(Debug, Clone)]
pub enum ProxyBrainAction {
    Add(ProxyBrainActionAdd),
    RemoveAsk(ProxyBrainActionRemove),
}

/// The mathematical model of a `ProxyBrainAction`.
pub enum ProxyBrainActionView {
    Add { listen_addr: Seq<char>, server_addr: Seq<char> },
    RemoveAsk { listen_addr: Seq<char>, server_addr: Seq<char> },
}

impl View for ProxyBrainAction {
    type V = ProxyBrainActionView;

    open spec fn view(&self) -> ProxyBrainActionView {
        match self {
            ProxyBrainAction::Add(a) => ProxyBrainActionView::Add {
                listen_addr: a.listen_addr@,
                server_addr: a.server_addr@,
            },
            ProxyBrainAction::RemoveAsk(a) => ProxyBrainActionView::RemoveAsk {
                listen_addr: a.listen_addr@,
                server_addr: a.server_addr@,
            },
        }
    }
}

/// The model of an action list.
pub open spec fn actions_view(v: Seq<ProxyBrainAction>) -> Seq<ProxyBrainActionView> {
    v.map_values(|a: ProxyBrainAction| a@)
}

/// The action this pass emits for one (listen, backend) pair.
pub open spec fn mk_action(add: bool, listen: Seq<char>, addr: Seq<char>) -> ProxyBrainActionView {
    if add {
        ProxyBrainActionView::Add { listen_addr: listen, server_addr: addr }
    } else {
        ProxyBrainActionView::RemoveAsk { listen_addr: listen, server_addr: addr }
    }
}

/// The actions one entry contributes: one per backend address that the
/// other snapshot does not forward that listen address to, in address
/// order.
pub open spec fn spec_entry_actions(
    listen: Seq<char>,
    addrs: Seq<Seq<char>>,
    other: Seq<ProxyWorldEntryView>,
    add: bool,
) -> Seq<ProxyBrainActionView>
    decreases addrs.len(),
{
    if addrs.len() == 0 {
        Seq::empty()
    } else {
        (if !pw_contains(other, listen, addrs[0]) {
            seq![mk_action(add, listen, addrs[0])]
        } else {
            Seq::empty()
        }) + spec_entry_actions(listen, addrs.drop_first(), other, add)
    }
}

/// The actions one pass emits: for every entry of `entries`, one action
/// per backend address missing from `other`, in entry order.
pub open spec fn spec_pass(
    entries: Seq<ProxyWorldEntryView>,
    other: Seq<ProxyWorldEntryView>,
    add: bool,
) -> Seq<ProxyBrainActionView>
    decreases entries.len(),
{
    if entries.len() == 0 {
        Seq::empty()
    } else {
        spec_entry_actions(entries[0].listen_addr, entries[0].server_addrs, other, add)
            + spec_pass(entries.drop_first(), other, add)
    }
}

/// Does the snapshot forward `listen` to `addr`?
fn pw_contains_exec(world: &ProxyWorld, listen: &str, addr: &str) -> (r: bool)
    ensures
        r == pw_contains(world@, listen@, addr@),
{
    let mut i: usize = 0;
    while i < world.proxies.len()
        invariant
            0 <= i <= world.proxies@.len(),
            forall|j: int|
                0 <= j < i ==> !(world@[j].listen_addr == listen@ && world@[j].server_addrs.contains(
                    addr@,
                )),
        decreases world.proxies@.len() - i,
    {
        let entry = &world.proxies[i];
        proof {
            assert(world@[i as int] == entry@);
        }
        if str_eq(entry.listen_addr.as_str(), listen) {
            let mut k: usize = 0;
            let mut found: bool = false;
            while k < entry.server_addrs.len()
                invariant
                    0 <= k <= entry.server_addrs@.len(),
                    !found ==> forall|j: int| 0 <= j < k ==> entry@.server_addrs[j] != addr@,
                    found ==> entry@.server_addrs.contains(addr@),
                decreases entry.server_addrs@.len() - k,
            {
                if str_eq(entry.server_addrs[k].as_str(), addr) {
                    proof {
                        assert(entry@.server_addrs[k as int] == addr@);
                    }
                    found = true;
                }
                k = k + 1;
            }
            if found {
                proof {
                    assert(pw_contains(world@, listen@, addr@)) by {
                        assert(world@[i as int].listen_addr == listen@
                            && world@[i as int].server_addrs.contains(addr@));
                    }
                }
                return true;
            }
            proof {
                assert(!(world@[i as int].server_addrs.contains(addr@))) by {
                    if world@[i as int].server_addrs.contains(addr@) {
                        let j = choose|j: int|
                            0 <= j < entry@.server_addrs.len() && entry@.server_addrs[j] == addr@;
                        assert(false);
                    }
                }
            }
        }
        i = i + 1;
    }
    proof {
        if pw_contains(world@, listen@, addr@) {
            let j = choose|j: int|
                0 <= j < world@.len() && world@[j].listen_addr == listen@
                    && world@[j].server_addrs.contains(addr@);
            assert(false);
        }
    }
    false
}

/// One pass: the actions for every (listen, backend) pair of `entries`
/// that `other` does not hold.
fn run_pass(entries: &ProxyWorld, other: &ProxyWorld, add: bool) -> (r: Vec<ProxyBrainAction>)
    ensures
        actions_view(r@) == spec_pass(entries@, other@, add),
{
    let mut buf: Vec<ProxyBrainAction> = Vec::new();
    let mut i: usize = 0;
    proof {
        assert(entries@.skip(0) =~= entries@);
    }
    while i < entries.proxies.len()
        invariant
            0 <= i <= entries.proxies@.len(),
            spec_pass(entries@, other@, add) =~= actions_view(buf@) + spec_pass(
                entries@.skip(i as int),
                other@,
                add,
            ),
        decreases entries.proxies@.len() - i,
    {
        let entry = &entries.proxies[i];
        proof {
            crate::seqs::lemma_skip_drop_first(entries@, i as int);
            assert(entries@[i as int] == entry@);
        }
        let ghost listen = entry@.listen_addr;
        let ghost addrs = entry@.server_addrs;
        let ghost base = actions_view(buf@);
        let mut k: usize = 0;
        proof {
            assert(addrs.skip(0) =~= addrs);
            assert(actions_view(buf@) =~= base + Seq::<ProxyBrainActionView>::empty());
        }
        while k < entry.server_addrs.len()
            invariant
                0 <= k <= entry.server_addrs@.len(),
                entry@.listen_addr == listen,
                entry@.server_addrs == addrs,
                spec_entry_actions(listen, addrs, other@, add) =~= actions_view(buf@).skip(base.len() as int)
                    + spec_entry_actions(listen, addrs.skip(k as int), other@, add),
                actions_view(buf@).len() >= base.len(),
                actions_view(buf@).take(base.len() as int) =~= base,
            decreases entry.server_addrs@.len() - k,
        {
            let addr = &entry.server_addrs[k];
            proof {
                crate::seqs::lemma_skip_drop_first(addrs, k as int);
                assert(addrs[k as int] == addr@);
            }
            if !pw_contains_exec(other, entry.listen_addr.as_str(), addr.as_str()) {
                let action = if add {
                    ProxyBrainAction::Add(
                        ProxyBrainActionAdd {
                            listen_addr: entry.listen_addr.clone(),
                            server_addr: addr.clone(),
                        },
                    )
                } else {
                    ProxyBrainAction::RemoveAsk(
                        ProxyBrainActionRemove {
                            listen_addr: entry.listen_addr.clone(),
                            server_addr: addr.clone(),
                        },
                    )
                };
                proof {
                    assert(action@ == mk_action(add, listen, addrs[k as int]));
                    crate::seqs::lemma_map_values_push(buf@, action, |a: ProxyBrainAction| a@);
                }
                buf.push(action);
            }
            k = k + 1;
            proof {
                assert(spec_entry_actions(listen, addrs, other@, add) =~= actions_view(buf@).skip(
                    base.len() as int,
                ) + spec_entry_actions(listen, addrs.skip(k as int), other@, add));
                assert(actions_view(buf@).take(base.len() as int) =~= base);
            }
        }
        proof {
            assert(addrs.skip(k as int).len() == 0);
            assert(actions_view(buf@).skip(base.len() as int) + spec_entry_actions(
                listen,
                addrs.skip(k as int),
                other@,
                add,
            ) =~= actions_view(buf@).skip(base.len() as int));
            assert(base + actions_view(buf@).skip(base.len() as int) =~= actions_view(buf@));
            assert(spec_pass(entries@.skip(i as int), other@, add) == spec_entry_actions(
                listen,
                addrs,
                other@,
                add,
            ) + spec_pass(entries@.skip(i as int + 1), other@, add));
            assert(base + (spec_entry_actions(listen, addrs, other@, add) + spec_pass(
                entries@.skip(i as int + 1),
                other@,
                add,
            )) =~= (base + spec_entry_actions(listen, addrs, other@, add)) + spec_pass(
                entries@.skip(i as int + 1),
                other@,
                add,
            ));
        }
        i = i + 1;
    }
    proof {
        assert(entries@.skip(i as int).len() == 0);
        assert(actions_view(buf@) + spec_pass(entries@.skip(i as int), other@, add) =~= actions_view(
            buf@,
        ));
    }
    buf
}

impl ProxyBrain {
    /// The adds this tick asks for: one per (listen, backend) pair the
    /// expected snapshot holds and the current one does not.
    pub fn think_about_adding_proxies(worlds: &ProxyWorlds) -> (r: Vec<ProxyBrainAction>)
        ensures
            actions_view(r@) == spec_pass(worlds.expected@, worlds.current@, true),
    {
        run_pass(&worlds.expected, &worlds.current, true)
    }

    /// The removals this tick asks for: one per (listen, backend) pair the
    /// current snapshot holds and the expected one does not.
    pub fn think_about_removing_proxies(worlds: &ProxyWorlds) -> (r: Vec<ProxyBrainAction>)
        ensures
            actions_view(r@) == spec_pass(worlds.current@, worlds.expected@, false),
    {
        run_pass(&worlds.current, &worlds.expected, false)
    }

    /// The full action batch for one tick: every add, then every removal.
    pub fn think(worlds: &ProxyWorlds) -> (r: Vec<ProxyBrainAction>)
        ensures
            actions_view(r@) == spec_pass(worlds.expected@, worlds.current@, true) + spec_pass(
                worlds.current@,
                worlds.expected@,
                false,
            ),
    {
        let mut buf = Self::think_about_adding_proxies(worlds);
        let mut removals = Self::think_about_removing_proxies(worlds);
        buf.append(&mut removals);
        proof {
            assert(actions_view(buf@) =~= spec_pass(worlds.expected@, worlds.current@, true)
                + spec_pass(worlds.current@, worlds.expected@, false));
        }
        buf
    }
}

/// An action for the pair (`listen`, `addr`) stands in a pass exactly when
/// the pass's own snapshot holds the pair and the other snapshot does not.
pub proof fn lemma_pass_membership(
    entries: Seq<ProxyWorldEntryView>,
    other: Seq<ProxyWorldEntryView>,
    add: bool,
    listen: Seq<char>,
    addr: Seq<char>,
)
    ensures
        spec_pass(entries, other, add).contains(mk_action(add, listen, addr)) <==> (pw_contains(
            entries,
            listen,
            addr,
        ) && !pw_contains(other, listen, addr)),
    decreases entries.len(),
{
    let act = mk_action(add, listen, addr);
    if entries.len() == 0 {
        assert(!spec_pass(entries, other, add).contains(act)) by {
            if spec_pass(entries, other, add).contains(act) {
                let j = choose|j: int|
                    0 <= j < spec_pass(entries, other, add).len() && spec_pass(entries, other, add)[j]
                        == act;
                assert(false);
            }
        }
        assert(!pw_contains(entries, listen, addr)) by {
            if pw_contains(entries, listen, addr) {
                let j = choose|j: int|
                    0 <= j < entries.len() && entries[j].listen_addr == listen
                        && entries[j].server_addrs.contains(addr);
                assert(false);
            }
        }
    } else {
        lemma_pass_membership(entries.drop_first(), other, add, listen, addr);
        lemma_entry_actions_membership(
            entries[0].listen_addr,
            entries[0].server_addrs,
            other,
            add,
            listen,
            addr,
        );
        let head = spec_entry_actions(entries[0].listen_addr, entries[0].server_addrs, other, add);
        let tail = spec_pass(entries.drop_first(), other, add);
        lemma_concat_contains(head, tail, act);
        assert(pw_contains(entries, listen, addr) <==> ((entries[0].listen_addr == listen
            && entries[0].server_addrs.contains(addr)) || pw_contains(
            entries.drop_first(),
            listen,
            addr,
        ))) by {
            if pw_contains(entries, listen, addr) {
                let j = choose|j: int|
                    0 <= j < entries.len() && entries[j].listen_addr == listen
                        && entries[j].server_addrs.contains(addr);
                if j > 0 {
                    assert(entries.drop_first()[j - 1].listen_addr == listen
                        && entries.drop_first()[j - 1].server_addrs.contains(addr));
                }
            }
            if pw_contains(entries.drop_first(), listen, addr) {
                let j = choose|j: int|
                    0 <= j < entries.drop_first().len() && entries.drop_first()[j].listen_addr
                        == listen && entries.drop_first()[j].server_addrs.contains(addr);
                assert(entries[j + 1].listen_addr == listen && entries[j + 1].server_addrs.contains(
                    addr,
                ));
            }
        }
    }
}

/// An action for the pair stands among one entry's actions exactly when
/// the entry is for `listen`, carries `addr`, and the other snapshot does
/// not.
proof fn lemma_entry_actions_membership(
    entry_listen: Seq<char>,
    addrs: Seq<Seq<char>>,
    other: Seq<ProxyWorldEntryView>,
    add: bool,
    listen: Seq<char>,
    addr: Seq<char>,
)
    ensures
        spec_entry_actions(entry_listen, addrs, other, add).contains(mk_action(add, listen, addr))
            <==> (entry_listen == listen && addrs.contains(addr) && !pw_contains(
            other,
            listen,
            addr,
        )),
    decreases addrs.len(),
{
    let act = mk_action(add, listen, addr);
    if addrs.len() == 0 {
        assert(!spec_entry_actions(entry_listen, addrs, other, add).contains(act)) by {
            if spec_entry_actions(entry_listen, addrs, other, add).contains(act) {
                let j = choose|j: int|
                    0 <= j < spec_entry_actions(entry_listen, addrs, other, add).len()
                        && spec_entry_actions(entry_listen, addrs, other, add)[j] == act;
                assert(false);
            }
        }
        assert(!addrs.contains(addr)) by {
            if addrs.contains(addr) {
                let j = choose|j: int| 0 <= j < addrs.len() && addrs[j] == addr;
                assert(false);
            }
        }
    } else {
        lemma_entry_actions_membership(entry_listen, addrs.drop_first(), other, add, listen, addr);
        let head = if !pw_contains(other, entry_listen, addrs[0]) {
            seq![mk_action(add, entry_listen, addrs[0])]
        } else {
            Seq::<ProxyBrainActionView>::empty()
        };
        let tail = spec_entry_actions(entry_listen, addrs.drop_first(), other, add);
        lemma_concat_contains(head, tail, act);
        assert(head.contains(act) <==> (head.len() == 1 && act == mk_action(
            add,
            entry_listen,
            addrs[0],
        ))) by {
            if head.contains(act) {
                let j = choose|j: int| 0 <= j < head.len() && head[j] == act;
            }
            if head.len() == 1 && act == mk_action(add, entry_listen, addrs[0]) {
                assert(head[0] == act);
            }
        }
        assert(addrs.contains(addr) <==> (addrs[0] == addr || addrs.drop_first().contains(addr)))
            by {
            if addrs.contains(addr) {
                let j = choose|j: int| 0 <= j < addrs.len() && addrs[j] == addr;
                if j > 0 {
                    assert(addrs.drop_first()[j - 1] == addr);
                }
            }
            if addrs.drop_first().contains(addr) {
                let j = choose|j: int|
                    0 <= j < addrs.drop_first().len() && addrs.drop_first()[j] == addr;
                assert(addrs[j + 1] == addr);
            }
        }
    }
}

/// An element stands in a concatenation exactly when it stands in one of
/// the parts.
proof fn lemma_concat_contains<A>(x: Seq<A>, y: Seq<A>, e: A)
    ensures
        (x + y).contains(e) <==> (x.contains(e) || y.contains(e)),
{
    if (x + y).contains(e) {
        let j = choose|j: int| 0 <= j < (x + y).len() && (x + y)[j] == e;
        if j < x.len() {
            assert(x[j] == e);
        } else {
            assert(y[j - x.len()] == e);
        }
    }
    if x.contains(e) {
        let j = choose|j: int| 0 <= j < x.len() && x[j] == e;
        assert((x + y)[j] == e);
    }
    if y.contains(e) {
        let j = choose|j: int| 0 <= j < y.len() && y[j] == e;
        assert((x + y)[j + x.len()] == e);
    }
}

} // verus!
