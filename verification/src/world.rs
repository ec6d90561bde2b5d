//! The typed snapshot model of the container population ("worlds") and the
//! diff engine that compares the current world against the expected one.
//!
//! A `World` is rebuilt from scratch on every reconciliation tick, either
//! from configuration (the expected world) or from a runtime scan (the
//! current world).  `Worlds::build_diff_world` performs a greedy one-to-one
//! matching of the two under the domain key of each entry and returns the
//! unmatched entries of both sides.
use vstd::prelude::*;
use crate::container_id::ContainerId;
use crate::seqs::{seq_count, lemma_seq_count_pos_iff_exists, lemma_seq_count_all_zero_empty,
    lemma_seq_count_single, lemma_skip_drop_first};
use crate::text::clone_string_vec;

verus! {

/// One declared-or-observed container instance.
///
/// `container_id` is absent for expected containers that are not yet
/// created; `container_port_dynamic_host` is present only for observed
/// containers, holding the host port the runtime chose for
/// `container_port`.
#[derive(Debug, Default)]
pub struct WorldContainer {
    pub container_id: Option<ContainerId>,
    pub name: String,
    pub image: String,
    pub replica_id: u32,
    pub container_port: u32,
    pub container_port_dynamic_host: Option<u32>,
    pub health_checks: Vec<String>,
    pub proxies: Vec<String>,
}

/// The mathematical model of a `WorldContainer`.
pub struct WorldContainerView {
    pub container_id: Option<Seq<char>>,
    pub name: Seq<char>,
    pub image: Seq<char>,
    pub replica_id: int,
    pub container_port: int,
    pub container_port_dynamic_host: Option<int>,
    pub health_checks: Seq<Seq<char>>,
    pub proxies: Seq<Seq<char>>,
}

impl View for WorldContainer {
    type V = WorldContainerView;

    open spec fn view(&self) -> WorldContainerView {
        WorldContainerView {
            container_id: match self.container_id {
                Some(id) => Some(id@),
                None => None,
            },
            name: self.name@,
            image: self.image@,
            replica_id: self.replica_id as int,
            container_port: self.container_port as int,
            container_port_dynamic_host: match self.container_port_dynamic_host {
                Some(p) => Some(p as int),
                None => None,
            },
            health_checks: self.health_checks@.map_values(|s: String| s@),
            proxies: self.proxies@.map_values(|s: String| s@),
        }
    }
}

/// The domain key under which entries of two worlds are matched.  Matching
/// never uses `container_id` or any per-snapshot state, only these declared
/// attributes.
pub open spec fn domain_key(c: WorldContainerView) -> (Seq<char>, Seq<char>, int, int) {
    (c.name, c.image, c.replica_id, c.container_port)
}

/// The domain key written out: name, image, replica index and container
/// port, separated by bars.
pub open spec fn spec_identifier(c: WorldContainerView) -> Seq<char> {
    c.name + "|"@ + c.image + "|"@ + crate::text::spec_dec(c.replica_id) + "|"@
        + crate::text::spec_dec(c.container_port)
}

impl WorldContainer {
    /// The entry's domain key, written out for diffing and display.
    pub fn get_identifier(&self) -> (r: String)
        ensures
            r@ == spec_identifier(self@),
    {
        let mut r = self.name.clone();
        r.append("|");
        r.append(self.image.as_str());
        r.append("|");
        let replica = crate::text::u32_to_dec(self.replica_id);
        r.append(replica.as_str());
        r.append("|");
        let port = crate::text::u32_to_dec(self.container_port);
        r.append(port.as_str());
        r
    }
}

impl Clone for WorldContainer {
    fn clone(&self) -> (r: Self)
        ensures
            r@ == self@,
    {
        WorldContainer {
            container_id: match &self.container_id {
                Some(id) => Some(id.clone()),
                None => None,
            },
            name: self.name.clone(),
            image: self.image.clone(),
            replica_id: self.replica_id,
            container_port: self.container_port,
            container_port_dynamic_host: self.container_port_dynamic_host,
            health_checks: clone_string_vec(&self.health_checks),
            proxies: clone_string_vec(&self.proxies),
        }
    }
}

/// The model of a world: the models of its entries, in order.
pub open spec fn world_view(containers: Seq<WorldContainer>) -> Seq<WorldContainerView> {
    containers.map_values(|c: WorldContainer| c@)
}

/// An immutable snapshot of container instances.
#[derive(Debug, Clone)]
pub struct World {
    containers: Vec<WorldContainer>,
}

impl View for World {
    type V = Seq<WorldContainerView>;

    closed spec fn view(&self) -> Seq<WorldContainerView> {
        world_view(self.containers@)
    }
}

impl World {
    pub fn new(containers: Vec<WorldContainer>) -> (r: Self)
        ensures
            r@ == world_view(containers@),
    {
        Self { containers }
    }

    pub fn get_containers(&self) -> (r: &Vec<WorldContainer>)
        ensures
            world_view(r@) == self@,
    {
        &self.containers
    }
}

/// The {current, expected} pairing of worlds for one reconciliation tick.
#[derive(Debug, Clone)]
pub struct Worlds {
    pub current: World,
    pub expected: World,
}

/// The outcome of diffing two worlds: entries running but not expected
/// ("extra") and entries expected but not running ("missing").
pub struct WorldDiff {
    containers_exists_but_should_not_exists: Vec<WorldContainer>,
    containers_does_not_exists_but_should_exists: Vec<WorldContainer>,
}

impl WorldDiff {
    /// The models of the unmatched current entries, in current-world order.
    pub closed spec fn spec_extra(&self) -> Seq<WorldContainerView> {
        world_view(self.containers_exists_but_should_not_exists@)
    }

    /// The models of the unmatched expected entries, in expected-world order.
    pub closed spec fn spec_missing(&self) -> Seq<WorldContainerView> {
        world_view(self.containers_does_not_exists_but_should_exists@)
    }

    pub fn containers_exists_but_should_not_exists(&self) -> (r: &Vec<WorldContainer>)
        ensures
            world_view(r@) == self.spec_extra(),
    {
        &self.containers_exists_but_should_not_exists
    }

    pub fn containers_does_not_exists_but_should_exists(&self) -> (r: &Vec<WorldContainer>)
        ensures
            world_view(r@) == self.spec_missing(),
    {
        &self.containers_does_not_exists_but_should_exists
    }
}

/// Does some entry of `s` carry the domain key `k`?
pub open spec fn has_key(s: Seq<WorldContainerView>, k: (Seq<char>, Seq<char>, int, int)) -> bool {
    exists|i: int| 0 <= i < s.len() && domain_key(s[i]) == k
}

/// How many entries of `s` carry the domain key `k`.
pub open spec fn count_key(s: Seq<WorldContainerView>, k: (Seq<char>, Seq<char>, int, int)) -> nat {
    seq_count(s.map_values(|c: WorldContainerView| domain_key(c)), k)
}

/// `s` with the first entry of domain key `k` removed; `s` unchanged when no
/// entry has that key.
pub open spec fn remove_first_key(s: Seq<WorldContainerView>, k: (Seq<char>, Seq<char>, int, int))
    -> Seq<WorldContainerView>
    decreases s.len(),
{
    if s.len() == 0 {
        s
    } else if domain_key(s[0]) == k {
        s.drop_first()
    } else {
        seq![s[0]] + remove_first_key(s.drop_first(), k)
    }
}

/// The greedy one-to-one matching of current entries against expected
/// entries.  Each current entry, in order, consumes the first still
/// unconsumed expected entry of equal domain key; a current entry with no
/// partner becomes "extra", and the expected entries left unconsumed at the
/// end become "missing".  Ties between expected entries of identical keys
/// are resolved by expected-list order; which physical replica matches
/// which expected slot is deliberately unspecified beyond that.
pub open spec fn spec_diff(cur: Seq<WorldContainerView>, exp: Seq<WorldContainerView>)
    -> (Seq<WorldContainerView>, Seq<WorldContainerView>)
    decreases cur.len(),
{
    if cur.len() == 0 {
        (Seq::empty(), exp)
    } else if has_key(exp, domain_key(cur[0])) {
        spec_diff(cur.drop_first(), remove_first_key(exp, domain_key(cur[0])))
    } else {
        let rest = spec_diff(cur.drop_first(), exp);
        (seq![cur[0]] + rest.0, rest.1)
    }
}

/// Do two entries carry the same domain key?
fn same_key(a: &WorldContainer, b: &WorldContainer) -> (r: bool)
    ensures
        r == (domain_key(a@) == domain_key(b@)),
{
    a.name == b.name && a.image == b.image && a.replica_id == b.replica_id
        && a.container_port == b.container_port
}

/// The first position in `v` whose entry shares `c`'s domain key, if any.
fn find_first_key(v: &Vec<WorldContainer>, c: &WorldContainer) -> (r: Option<usize>)
    ensures
        match r {
            Some(j) => 0 <= j < v@.len() && domain_key(v@[j as int]@) == domain_key(c@)
                && (forall|jj: int| 0 <= jj < j ==> domain_key(v@[jj]@) != domain_key(c@)),
            None => forall|jj: int| 0 <= jj < v@.len() ==> domain_key(v@[jj]@) != domain_key(c@),
        },
{
    let mut j: usize = 0;
    while j < v.len()
        invariant
            0 <= j <= v@.len(),
            forall|jj: int| 0 <= jj < j ==> domain_key(v@[jj]@) != domain_key(c@),
        decreases v@.len() - j,
    {
        if same_key(&v[j], c) {
            return Some(j);
        }
        j = j + 1;
    }
    None
}

/// A copy of a container vector, modelled by the same sequence.
fn clone_container_vec(v: &Vec<WorldContainer>) -> (r: Vec<WorldContainer>)
    ensures
        world_view(r@) == world_view(v@),
{
    let mut r: Vec<WorldContainer> = Vec::new();
    let mut i: usize = 0;
    while i < v.len()
        invariant
            0 <= i <= v@.len(),
            world_view(r@) =~= world_view(v@).take(i as int),
        decreases v@.len() - i,
    {
        let x = v[i].clone();
        let ghost old_r = r@;
        let ghost gx = x;
        proof {
            assert(world_view(old_r).len() == old_r.len());
            assert(old_r.len() == i);
        }
        r.push(x);
        proof {
            assert(r@ == old_r.push(gx));
            assert forall|j: int| 0 <= j < r@.len() implies world_view(r@)[j] == world_view(
                v@,
            ).take(i + 1)[j] by {
                assert(world_view(r@)[j] == r@[j]@);
                if j < i {
                    assert(r@[j] == old_r[j]);
                    assert(world_view(old_r)[j] == world_view(v@).take(i as int)[j]);
                } else {
                    assert(r@[j] == gx);
                    assert(gx@ == v@[i as int]@);
                }
            }
            assert(world_view(r@) =~= world_view(v@).take(i + 1));
        }
        i = i + 1;
    }
    proof {
        assert(world_view(r@) =~= world_view(v@));
    }
    r
}

/// When `j` is the first position of key `k` in `s`, removing the first
/// entry of key `k` is removing position `j`.
proof fn lemma_remove_first_key_at(
    s: Seq<WorldContainerView>,
    k: (Seq<char>, Seq<char>, int, int),
    j: int,
)
    requires
        0 <= j < s.len(),
        domain_key(s[j]) == k,
        forall|jj: int| 0 <= jj < j ==> domain_key(s[jj]) != k,
    ensures
        remove_first_key(s, k) == s.remove(j),
    decreases j,
{
    if j == 0 {
        assert(s.drop_first() =~= s.remove(0));
    } else {
        assert(domain_key(s[0]) != k);
        assert(forall|jj: int| 0 <= jj < j - 1 ==> domain_key(s.drop_first()[jj]) != k);
        assert(domain_key(s.drop_first()[j - 1]) == k);
        lemma_remove_first_key_at(s.drop_first(), k, j - 1);
        assert(seq![s[0]] + s.drop_first().remove(j - 1) =~= s.remove(j));
    }
}

/// Unfolding `count_key` at the head of a non-empty sequence.
proof fn lemma_count_key_unfold(s: Seq<WorldContainerView>, k: (Seq<char>, Seq<char>, int, int))
    requires
        s.len() > 0,
    ensures
        count_key(s, k) as int == (if domain_key(s[0]) == k {
            1int
        } else {
            0int
        }) + count_key(s.drop_first(), k),
{
    let m = s.map_values(|c: WorldContainerView| domain_key(c));
    assert(m.drop_first() =~= s.drop_first().map_values(|c: WorldContainerView| domain_key(c)));
    assert(m[0] == domain_key(s[0]));
}

/// A key occurs a positive number of times exactly when some entry carries it.
proof fn lemma_count_key_pos_iff_has_key(
    s: Seq<WorldContainerView>,
    k: (Seq<char>, Seq<char>, int, int),
)
    ensures
        (count_key(s, k) > 0) <==> has_key(s, k),
{
    let m = s.map_values(|c: WorldContainerView| domain_key(c));
    lemma_seq_count_pos_iff_exists(m, k);
    if exists|i: int| 0 <= i < m.len() && m[i] == k {
        let i = choose|i: int| 0 <= i < m.len() && m[i] == k;
        assert(domain_key(s[i]) == k);
    }
    if has_key(s, k) {
        let i = choose|i: int| 0 <= i < s.len() && domain_key(s[i]) == k;
        assert(m[i] == k);
    }
}

/// A sequence in which no key occurs is empty.
proof fn lemma_count_key_all_zero_empty(s: Seq<WorldContainerView>)
    requires
        forall|k: (Seq<char>, Seq<char>, int, int)| count_key(s, k) == 0,
    ensures
        s.len() == 0,
{
    let m = s.map_values(|c: WorldContainerView| domain_key(c));
    assert forall|x: (Seq<char>, Seq<char>, int, int)| seq_count(m, x) == 0 by {
        assert(count_key(s, x) == 0);
    }
    lemma_seq_count_all_zero_empty(m);
}

/// A sequence in which key `k` occurs once and no other key occurs is a
/// single entry carrying `k`.
proof fn lemma_count_key_single(s: Seq<WorldContainerView>, k: (Seq<char>, Seq<char>, int, int))
    requires
        count_key(s, k) == 1,
        forall|x: (Seq<char>, Seq<char>, int, int)| x != k ==> count_key(s, x) == 0,
    ensures
        s.len() == 1,
        domain_key(s[0]) == k,
{
    let m = s.map_values(|c: WorldContainerView| domain_key(c));
    assert forall|x: (Seq<char>, Seq<char>, int, int)| x != k implies seq_count(m, x) == 0 by {
        assert(count_key(s, x) == 0);
    }
    lemma_seq_count_single(m, k);
    assert(m[0] == domain_key(s[0]));
}

/// How removing the first entry of key `k0` changes the count of any key.
proof fn lemma_remove_first_key_count(
    s: Seq<WorldContainerView>,
    k0: (Seq<char>, Seq<char>, int, int),
    k: (Seq<char>, Seq<char>, int, int),
)
    ensures
        count_key(remove_first_key(s, k0), k) as int == count_key(s, k) as int - (if k == k0
            && has_key(s, k0) {
            1int
        } else {
            0int
        }),
    decreases s.len(),
{
    if s.len() == 0 {
        assert(!has_key(s, k0));
    } else if domain_key(s[0]) == k0 {
        lemma_count_key_unfold(s, k);
        assert(has_key(s, k0));
    } else {
        lemma_remove_first_key_count(s.drop_first(), k0, k);
        lemma_count_key_unfold(s, k);
        let r = remove_first_key(s.drop_first(), k0);
        let cat = seq![s[0]] + r;
        assert(cat.len() > 0);
        lemma_count_key_unfold(cat, k);
        assert(cat[0] == s[0]);
        assert(cat.drop_first() =~= r);
        assert(has_key(s, k0) <==> has_key(s.drop_first(), k0)) by {
            if has_key(s, k0) {
                let i = choose|i: int| 0 <= i < s.len() && domain_key(s[i]) == k0;
                assert(i >= 1);
                assert(domain_key(s.drop_first()[i - 1]) == k0);
            }
            if has_key(s.drop_first(), k0) {
                let i = choose|i: int|
                    0 <= i < s.drop_first().len() && domain_key(s.drop_first()[i]) == k0;
                assert(domain_key(s[i + 1]) == k0);
            }
        }
    }
}

/// How often each key occurs among the "extra" and "missing" entries of a
/// diff: the extras carry the keys the current world has over the expected
/// one, the missing entries the keys the expected world has over the
/// current one, each exactly as often as the counts differ.
pub proof fn lemma_spec_diff_counts(cur: Seq<WorldContainerView>, exp: Seq<WorldContainerView>)
    ensures
        forall|k: (Seq<char>, Seq<char>, int, int)|
            #[trigger] count_key(spec_diff(cur, exp).0, k) as int == (if count_key(cur, k)
                >= count_key(exp, k) {
                count_key(cur, k) - count_key(exp, k)
            } else {
                0int
            }),
        forall|k: (Seq<char>, Seq<char>, int, int)|
            #[trigger] count_key(spec_diff(cur, exp).1, k) as int == (if count_key(exp, k)
                >= count_key(cur, k) {
                count_key(exp, k) - count_key(cur, k)
            } else {
                0int
            }),
    decreases cur.len(),
{
    if cur.len() == 0 {
        assert forall|k: (Seq<char>, Seq<char>, int, int)| #[trigger] count_key(cur, k) == 0 by {
            lemma_count_key_pos_iff_has_key(cur, k);
        }
        assert(spec_diff(cur, exp).0 == Seq::<WorldContainerView>::empty());
        assert forall|k: (Seq<char>, Seq<char>, int, int)|
            #[trigger] count_key(Seq::<WorldContainerView>::empty(), k) == 0 by {
            lemma_count_key_pos_iff_has_key(Seq::<WorldContainerView>::empty(), k);
        }
    } else {
        let k0 = domain_key(cur[0]);
        if has_key(exp, k0) {
            let exp2 = remove_first_key(exp, k0);
            lemma_spec_diff_counts(cur.drop_first(), exp2);
            lemma_count_key_pos_iff_has_key(exp, k0);
            assert(spec_diff(cur, exp) == spec_diff(cur.drop_first(), exp2));
            assert forall|k: (Seq<char>, Seq<char>, int, int)|
                #[trigger] count_key(spec_diff(cur, exp).0, k) as int == (if count_key(cur, k)
                    >= count_key(exp, k) {
                    count_key(cur, k) - count_key(exp, k)
                } else {
                    0int
                }) by {
                lemma_count_key_unfold(cur, k);
                lemma_remove_first_key_count(exp, k0, k);
                assert(count_key(spec_diff(cur.drop_first(), exp2).0, k) as int == (if count_key(
                    cur.drop_first(),
                    k,
                ) >= count_key(exp2, k) {
                    count_key(cur.drop_first(), k) - count_key(exp2, k)
                } else {
                    0int
                }));
            }
            assert forall|k: (Seq<char>, Seq<char>, int, int)|
                #[trigger] count_key(spec_diff(cur, exp).1, k) as int == (if count_key(exp, k)
                    >= count_key(cur, k) {
                    count_key(exp, k) - count_key(cur, k)
                } else {
                    0int
                }) by {
                lemma_count_key_unfold(cur, k);
                lemma_remove_first_key_count(exp, k0, k);
                assert(count_key(spec_diff(cur.drop_first(), exp2).1, k) as int == (if count_key(
                    exp2,
                    k,
                ) >= count_key(cur.drop_first(), k) {
                    count_key(exp2, k) - count_key(cur.drop_first(), k)
                } else {
                    0int
                }));
            }
        } else {
            lemma_spec_diff_counts(cur.drop_first(), exp);
            lemma_count_key_pos_iff_has_key(exp, k0);
            let rest = spec_diff(cur.drop_first(), exp);
            let cat = seq![cur[0]] + rest.0;
            assert forall|k: (Seq<char>, Seq<char>, int, int)|
                #[trigger] count_key(spec_diff(cur, exp).0, k) as int == (if count_key(cur, k)
                    >= count_key(exp, k) {
                    count_key(cur, k) - count_key(exp, k)
                } else {
                    0int
                }) by {
                lemma_count_key_unfold(cur, k);
                assert(cat.len() > 0);
                lemma_count_key_unfold(cat, k);
                assert(cat[0] == cur[0]);
                assert(cat.drop_first() =~= rest.0);
            }
            assert forall|k: (Seq<char>, Seq<char>, int, int)|
                #[trigger] count_key(spec_diff(cur, exp).1, k) as int == (if count_key(exp, k)
                    >= count_key(cur, k) {
                    count_key(exp, k) - count_key(cur, k)
                } else {
                    0int
                }) by {
                lemma_count_key_unfold(cur, k);
            }
        }
    }
}

/// Two worlds whose entries carry identical multisets of domain keys diff
/// to an empty "extra" list and an empty "missing" list.
pub proof fn lemma_diff_empty_for_matching_worlds(
    cur: Seq<WorldContainerView>,
    exp: Seq<WorldContainerView>,
)
    requires
        forall|k: (Seq<char>, Seq<char>, int, int)|
            #[trigger] count_key(cur, k) == count_key(exp, k),
    ensures
        spec_diff(cur, exp).0.len() == 0,
        spec_diff(cur, exp).1.len() == 0,
{
    lemma_spec_diff_counts(cur, exp);
    lemma_count_key_all_zero_empty(spec_diff(cur, exp).0);
    lemma_count_key_all_zero_empty(spec_diff(cur, exp).1);
}

/// When the expected world has exactly one entry of key `k` more than the
/// current world and the two agree on every other key, the diff is exactly
/// one "missing" entry, of key `k`, and no "extra" entry.
pub proof fn lemma_diff_one_missing(
    cur: Seq<WorldContainerView>,
    exp: Seq<WorldContainerView>,
    k: (Seq<char>, Seq<char>, int, int),
)
    requires
        count_key(exp, k) == count_key(cur, k) + 1,
        forall|x: (Seq<char>, Seq<char>, int, int)|
            x != k ==> #[trigger] count_key(cur, x) == count_key(exp, x),
    ensures
        spec_diff(cur, exp).0.len() == 0,
        spec_diff(cur, exp).1.len() == 1,
        domain_key(spec_diff(cur, exp).1[0]) == k,
{
    lemma_spec_diff_counts(cur, exp);
    lemma_count_key_all_zero_empty(spec_diff(cur, exp).0);
    lemma_count_key_single(spec_diff(cur, exp).1, k);
}

/// When the current world has exactly one entry of key `k` more than the
/// expected world and the two agree on every other key, the diff is exactly
/// one "extra" entry, of key `k`, and no "missing" entry.
pub proof fn lemma_diff_one_extra(
    cur: Seq<WorldContainerView>,
    exp: Seq<WorldContainerView>,
    k: (Seq<char>, Seq<char>, int, int),
)
    requires
        count_key(cur, k) == count_key(exp, k) + 1,
        forall|x: (Seq<char>, Seq<char>, int, int)|
            x != k ==> #[trigger] count_key(cur, x) == count_key(exp, x),
    ensures
        spec_diff(cur, exp).0.len() == 1,
        spec_diff(cur, exp).1.len() == 0,
        domain_key(spec_diff(cur, exp).0[0]) == k,
{
    lemma_spec_diff_counts(cur, exp);
    lemma_count_key_single(spec_diff(cur, exp).0, k);
    lemma_count_key_all_zero_empty(spec_diff(cur, exp).1);
}

impl Worlds {
    /// Diff the current world against the expected one by greedy one-to-one
    /// matching under the domain key.
    pub fn build_diff_world(&self) -> (d: WorldDiff)
        ensures
            d.spec_extra() == spec_diff(self.current@, self.expected@).0,
            d.spec_missing() == spec_diff(self.current@, self.expected@).1,
    {
        let cur = self.current.get_containers();
        let exp = self.expected.get_containers();
        let mut extra: Vec<WorldContainer> = Vec::new();
        // Expected entries still unmatched; matched ones are removed as the
        // current entries consume them.
        let mut missing: Vec<WorldContainer> = clone_container_vec(exp);
        proof {
            assert(world_view(cur@).skip(0) =~= world_view(cur@));
        }
        let mut i: usize = 0;
        while i < cur.len()
            invariant
                0 <= i <= cur@.len(),
                world_view(cur@) == self.current@,
                spec_diff(self.current@, self.expected@).0
                    =~= world_view(extra@) + spec_diff(
                    world_view(cur@).skip(i as int),
                    world_view(missing@),
                ).0,
                spec_diff(self.current@, self.expected@).1
                    == spec_diff(world_view(cur@).skip(i as int), world_view(missing@)).1,
            decreases cur@.len() - i,
        {
            let c = &cur[i];
            proof {
                lemma_skip_drop_first(world_view(cur@), i as int);
                assert(world_view(cur@)[i as int] == c@);
            }
            match find_first_key(&missing, c) {
                Some(j) => {
                    proof {
                        let k = domain_key(c@);
                        let mv = world_view(missing@);
                        assert(mv[j as int] == missing@[j as int]@);
                        assert(has_key(mv, k));
                        lemma_remove_first_key_at(mv, k, j as int);
                        assert(world_view(missing@.remove(j as int)) =~= mv.remove(j as int));
                    }
                    missing.remove(j);
                },
                None => {
                    proof {
                        let k = domain_key(c@);
                        let mv = world_view(missing@);
                        assert(forall|jj: int|
                            0 <= jj < mv.len() ==> domain_key(mv[jj]) != k) by {
                            assert(forall|jj: int|
                                0 <= jj < missing@.len() ==> domain_key(missing@[jj]@) != k);
                        }
                        assert(!has_key(mv, k));
                        let rest = spec_diff(world_view(cur@).skip(i as int).drop_first(), mv);
                        assert(world_view(extra@.push(*c)) =~= world_view(extra@).push(c@));
                        assert((world_view(extra@).push(c@)) + rest.0 =~= world_view(extra@) + (
                        seq![c@] + rest.0));
                    }
                    extra.push(c.clone());
                },
            }
            i = i + 1;
        }
        proof {
            assert(world_view(cur@).skip(i as int).len() == 0);
            assert(world_view(extra@) + spec_diff(
                world_view(cur@).skip(i as int),
                world_view(missing@),
            ).0 =~= world_view(extra@));
        }
        WorldDiff {
            containers_exists_but_should_not_exists: extra,
            containers_does_not_exists_but_should_exists: missing,
        }
    }
}

} // verus!
