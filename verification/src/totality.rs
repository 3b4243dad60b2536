//! Success of resolution: a registry whose dependency graph is acyclic
//! and fully provided never fails to resolve at runtime.
//!
//! Acyclicity and coverage are witnessed by a rank assignment: every
//! provided key's dependencies are themselves provided, at strictly
//! smaller rank.  Under such a witness, resolution with fuel beyond twice
//! the requested key's rank returns a value — the only remaining failure
//! is the machine limit of the identity counter, and the statement names
//! it: either a value comes back, or the counter stands exhausted.

use vstd::prelude::*;

use crate::container::{cm_height, cm_key, container_key, rc_needed, rc_step, Container, ContainerModel};
use crate::provider::{
    conts_of, count_containers_from, find_in_chain, find_in_containers, lemma_deps_shape, lemma_find_chain_in_range,
    lemma_find_char, lemma_find_shape, lemma_resolve_shape, resolve_fuel, s_deps, s_resolve, same_shape,
    shape_eq, ScopeModel, ServiceProvider, SpModel,
};
use crate::value::{clone_fields, ValueModel};
use vstd::pervasive::VecAdditionalExecFns;

verus! {

/// Every dependency key a container may ask for, whatever its cell state:
/// its declared list, or the wrapped container's for a conversion.
pub open spec fn deps_of_container(c: ContainerModel) -> Seq<u64>
    decreases c,
{
    match c {
        ContainerModel::Transient { deps, .. } => deps,
        ContainerModel::TransientFactory { deps, .. } => deps,
        ContainerModel::Singleton { deps, .. } => deps,
        ContainerModel::SingletonFactory { deps, .. } => deps,
        ContainerModel::Instance { .. } => Seq::empty(),
        ContainerModel::Convert { inner, .. } => deps_of_container(*inner),
    }
}

/// What a resolution may ask for is the declared list or nothing at all.
proof fn lemma_rc_needed_cases(c: ContainerModel)
    ensures
        rc_needed(c).len() == 0 || rc_needed(c) == deps_of_container(c),
    decreases c,
{
    match c {
        ContainerModel::Convert { inner, .. } => lemma_rc_needed_cases(*inner),
        _ => {},
    }
}

/// Same-built containers declare the same dependencies.
proof fn lemma_deps_of_shape(c1: ContainerModel, c2: ContainerModel)
    requires
        shape_eq(c1, c2),
    ensures
        deps_of_container(c1) == deps_of_container(c2),
    decreases c1,
{
    match (c1, c2) {
        (
            ContainerModel::Convert { inner: i1, .. },
            ContainerModel::Convert { inner: i2, .. },
        ) => lemma_deps_of_shape(*i1, *i2),
        _ => {},
    }
}

/// A production step fails only when the identity counter stands at its
/// machine limit, which it then reports unchanged.
proof fn lemma_rc_step_total(c: ContainerModel, ds: Seq<ValueModel>, u: u64)
    ensures
        rc_step(c, ds, u).1 is Some || rc_step(c, ds, u).2 == u64::MAX,
    decreases c,
{
    match c {
        ContainerModel::Convert { inner, .. } => lemma_rc_step_total(*inner, ds, u),
        _ => {},
    }
}

/// `r` witnesses, for requests from scope `s`, that the registry's
/// dependency graph is acyclic and fully provided: every dependency of a
/// provided key is itself provided, at strictly smaller rank.
pub open spec fn wf_ranks(m: SpModel, s: int, r: Map<u64, nat>) -> bool {
    forall|key: u64|
        (#[trigger] find_in_chain(m, s, key)) matches Some((si, ci)) ==> {
            let ds = deps_of_container(m.scopes[si].containers[ci]);
            forall|j: int|
                0 <= j < ds.len() ==> {
                    &&& find_in_chain(m, s, #[trigger] ds[j]) is Some
                    &&& r[ds[j]] < r[key]
                }
        }
}

/// A rank witness survives resolution: resolution keeps the registry's
/// build, and the witness speaks only of the build.
proof fn lemma_wf_ranks_shape(m: SpModel, m2: SpModel, s: int, r: Map<u64, nat>)
    requires
        wf_ranks(m, s, r),
        same_shape(m, m2),
    ensures
        wf_ranks(m2, s, r),
{
    assert forall|key: u64| (#[trigger] find_in_chain(m2, s, key)) is Some implies {
        let loc = find_in_chain(m2, s, key)->0;
        let ds = deps_of_container(m2.scopes[loc.0].containers[loc.1]);
        forall|j: int|
            0 <= j < ds.len() ==> {
                &&& find_in_chain(m2, s, #[trigger] ds[j]) is Some
                &&& r[ds[j]] < r[key]
            }
    } by {
        lemma_find_shape(m, m2, s, key);
        let (si, ci) = find_in_chain(m2, s, key)->0;
        lemma_find_chain_in_range(m, s, key);
        lemma_deps_of_shape(m.scopes[si].containers[ci], m2.scopes[si].containers[ci]);
        let ds = deps_of_container(m2.scopes[si].containers[ci]);
        assert forall|j: int| 0 <= j < ds.len() implies {
            &&& find_in_chain(m2, s, #[trigger] ds[j]) is Some
            &&& r[ds[j]] < r[key]
        } by {
            lemma_find_shape(m, m2, s, ds[j]);
        }
    }
}

/// Resolution succeeds on every provided key of a rank-witnessed
/// registry, given fuel beyond twice the key's rank — unless the identity
/// counter stands exhausted, which the final state then shows.
pub proof fn lemma_resolve_total(m: SpModel, s: int, key: u64, r: Map<u64, nat>, fuel: nat)
    requires
        wf_ranks(m, s, r),
        find_in_chain(m, s, key) is Some,
        fuel >= 2 * r[key] + 2,
    ensures
        s_resolve(m, s, key, fuel).1 is Some || s_resolve(m, s, key, fuel).0.next_uid
            == u64::MAX,
    decreases r[key], 0nat, 0nat,
{
    let (si, ci) = find_in_chain(m, s, key)->0;
    lemma_find_chain_in_range(m, s, key);
    let c0 = m.scopes[si].containers[ci];
    let needed = rc_needed(c0);
    if needed.len() == 0 {
        lemma_rc_step_total(c0, Seq::empty(), m.next_uid);
    } else {
        lemma_rc_needed_cases(c0);
        assert(needed == deps_of_container(c0));
        assert(r[key] >= 1) by {
            assert(find_in_chain(m, s, needed[0]) is Some && r[needed[0]] < r[key]);
        }
        let bound = (r[key] - 1) as nat;
        assert(forall|j: int|
            0 <= j < needed.len() ==> find_in_chain(m, s, #[trigger] needed[j]) is Some && r[
                needed[j]
            ] <= bound);
        lemma_deps_total(m, s, needed, r, bound, (fuel - 1) as nat);
        let (m1, ods) = s_deps(m, s, needed, (fuel - 1) as nat);
        match ods {
            None => {},
            Some(ds) => {
                lemma_deps_shape(m, s, needed, (fuel - 1) as nat);
                lemma_rc_step_total(m1.scopes[si].containers[ci], ds, m1.next_uid);
            },
        }
    }
}

/// Dependency-list resolution succeeds on keys of rank at most `bound`,
/// with fuel beyond twice the bound — unless the identity counter stands
/// exhausted.
proof fn lemma_deps_total(
    m: SpModel,
    s: int,
    keys: Seq<u64>,
    r: Map<u64, nat>,
    bound: nat,
    fuel: nat,
)
    requires
        wf_ranks(m, s, r),
        forall|j: int|
            0 <= j < keys.len() ==> find_in_chain(m, s, #[trigger] keys[j]) is Some && r[keys[j]]
                <= bound,
        fuel >= 2 * bound + 2,
    ensures
        s_deps(m, s, keys, fuel).1 is Some || s_deps(m, s, keys, fuel).0.next_uid == u64::MAX,
    decreases bound, 1nat, keys.len(),
{
    if keys.len() != 0 {
        lemma_resolve_total(m, s, keys[0], r, fuel);
        let (m1, ov) = s_resolve(m, s, keys[0], fuel);
        match ov {
            None => {},
            Some(v) => {
                lemma_resolve_shape(m, s, keys[0], fuel);
                lemma_wf_ranks_shape(m, m1, s, r);
                let rest = keys.skip(1);
                assert forall|j: int| 0 <= j < rest.len() implies find_in_chain(
                    m1,
                    s,
                    #[trigger] rest[j],
                ) is Some && r[rest[j]] <= bound by {
                    assert(rest[j] == keys[j + 1]);
                    lemma_find_shape(m, m1, s, rest[j]);
                }
                lemma_deps_total(m1, s, rest, r, bound, fuel);
            },
        }
    }
}



/// How many containers the chain of scope `cur` holds.
pub open spec fn count_chain(m: SpModel, cur: int) -> nat
    decreases cur,
{
    if cur < 0 || cur >= m.scopes.len() {
        0
    } else {
        let p = m.scopes[cur].parent as int;
        m.scopes[cur].containers.len() + if p < cur {
            count_chain(m, p)
        } else {
            0
        }
    }
}

/// The containers of the scopes before index `e`, counted together.
spec fn count_prefix(ss: Seq<ScopeModel>, e: int) -> nat
    decreases e,
{
    if e <= 0 || e > ss.len() {
        0
    } else {
        count_prefix(ss, e - 1) + ss[e - 1].containers.len()
    }
}

proof fn lemma_count_prefix_mono(ss: Seq<ScopeModel>, a: int, b: int)
    requires
        0 <= a <= b <= ss.len(),
    ensures
        count_prefix(ss, a) <= count_prefix(ss, b),
    decreases b,
{
    if a < b {
        lemma_count_prefix_mono(ss, a, b - 1);
    }
}

proof fn lemma_count_prefix_suffix(ss: Seq<ScopeModel>, i: int)
    requires
        0 <= i <= ss.len(),
    ensures
        count_prefix(ss, i) + count_containers_from(ss, i) == count_containers_from(ss, 0),
    decreases i,
{
    if i > 0 {
        lemma_count_prefix_suffix(ss, i - 1);
    }
}

/// A chain's containers stand among the registry's containers: a chain
/// visits strictly descending scope indices, each at most once.
pub proof fn lemma_count_chain_le_total(m: SpModel, cur: int)
    ensures
        count_chain(m, cur) <= count_containers_from(m.scopes, 0),
    decreases cur,
{
    if 0 <= cur < m.scopes.len() {
        let p = m.scopes[cur].parent as int;
        assert(count_chain(m, cur) <= count_prefix(m.scopes, cur + 1)) by {
            lemma_count_chain_le_prefix(m, cur);
        }
        lemma_count_prefix_mono(m.scopes, cur + 1, m.scopes.len() as int);
        lemma_count_prefix_suffix(m.scopes, m.scopes.len() as int);
    }
}

proof fn lemma_count_chain_le_prefix(m: SpModel, cur: int)
    ensures
        count_chain(m, cur) <= count_prefix(m.scopes, cur + 1),
    decreases cur,
{
    if 0 <= cur < m.scopes.len() {
        let p = m.scopes[cur].parent as int;
        if p < cur {
            lemma_count_chain_le_prefix(m, p);
            lemma_count_prefix_mono(m.scopes, p + 1, cur);
        }
    }
}

/// How many positions of a marking are set.
spec fn count_true(s: Seq<bool>) -> nat
    decreases s.len(),
{
    if s.len() == 0 {
        0
    } else {
        (if s[0] {
            1nat
        } else {
            0nat
        }) + count_true(s.skip(1))
    }
}

proof fn lemma_count_true_le(s: Seq<bool>)
    ensures
        count_true(s) <= s.len(),
    decreases s.len(),
{
    if s.len() > 0 {
        lemma_count_true_le(s.skip(1));
    }
}

proof fn lemma_count_true_update(s: Seq<bool>, i: int)
    requires
        0 <= i < s.len(),
        !s[i],
    ensures
        count_true(s.update(i, true)) == count_true(s) + 1,
    decreases s.len(),
{
    if i == 0 {
        assert(s.update(0, true).skip(1) =~= s.skip(1));
    } else {
        assert(s.update(i, true).skip(1) =~= s.skip(1).update(i - 1, true));
        lemma_count_true_update(s.skip(1), i - 1);
    }
}

proof fn lemma_count_true_lt(s: Seq<bool>, i: int)
    requires
        0 <= i < s.len(),
        !s[i],
    ensures
        count_true(s) < s.len(),
    decreases s.len(),
{
    if i == 0 {
        lemma_count_true_le(s.skip(1));
    } else {
        lemma_count_true_lt(s.skip(1), i - 1);
    }
}

proof fn lemma_count_true_full(s: Seq<bool>)
    requires
        count_true(s) >= s.len(),
    ensures
        forall|i: int| 0 <= i < s.len() ==> s[i],
{
    assert forall|i: int| 0 <= i < s.len() implies s[i] by {
        if !s[i] {
            lemma_count_true_lt(s, i);
        }
    }
}

/// Holds when `k` is provided along `s`'s chain and every dependency of
/// its effective container is provided and ranked strictly below `k`.
pub open spec fn key_ok(m: SpModel, s: int, k: u64, rk: Map<u64, nat>) -> bool {
    find_in_chain(m, s, k) matches Some((si, ci)) && {
        let ds = deps_of_container(m.scopes[si].containers[ci]);
        forall|j: int|
            0 <= j < ds.len() ==> {
                &&& find_in_chain(m, s, #[trigger] ds[j]) is Some
                &&& rk.contains_key(ds[j])
                &&& rk[ds[j]] < rk[k]
            }
    }
}

/// Ranking every resolvable key below its dependents witnesses the rank
/// condition of [`lemma_resolve_total`].
proof fn lemma_key_ok_all(m: SpModel, s: int, rk: Map<u64, nat>)
    requires
        forall|key: u64|
            (#[trigger] find_in_chain(m, s, key)) is Some ==> key_ok(m, s, key, rk),
    ensures
        wf_ranks(m, s, rk),
{
}

/// A sequence of keys without repetition.
pub open spec fn distinct_u64(s: Seq<u64>) -> bool {
    forall|a: int, b: int| 0 <= a < b < s.len() ==> (#[trigger] s[a]) != (#[trigger] s[b])
}

/// Every dependency of `k`'s effective container stands marked done at
/// some position of `keys`.
pub open spec fn deps_all_marked(
    m: SpModel,
    s: int,
    keys: Seq<u64>,
    done: Seq<bool>,
    k: u64,
) -> bool {
    find_in_chain(m, s, k) matches Some((si, ci)) && {
        let ds = deps_of_container(m.scopes[si].containers[ci]);
        forall|q: int| 0 <= q < ds.len() ==> !no_marked_pos(keys, done, #[trigger] ds[q])
    }
}

/// Completeness of the marking: when the marking is stuck — every
/// unmarked key has an unmarked dependency — yet a rank witness exists,
/// every resolvable key is already marked.  By induction on the witness
/// rank: a key's dependencies have smaller rank, so they are marked, so
/// the key is not stuck, so it is marked.
proof fn lemma_witness_marks(
    m: SpModel,
    s: int,
    keys: Seq<u64>,
    done: Seq<bool>,
    rkw: Map<u64, nat>,
    k: u64,
)
    requires
        wf_ranks(m, s, rkw),
        keys.len() == done.len(),
        forall|key: u64| (#[trigger] find_in_chain(m, s, key)) is Some ==> keys.contains(key),
        forall|t: int|
            0 <= t < keys.len() && !done[t] ==> !deps_all_marked(
                m,
                s,
                keys,
                done,
                #[trigger] keys[t],
            ),
        find_in_chain(m, s, k) is Some,
    ensures
        exists|j: int| 0 <= j < keys.len() && (#[trigger] keys[j]) == k && done[j],
    decreases rkw[k],
{
    let (si, ci) = find_in_chain(m, s, k)->0;
    lemma_find_chain_in_range(m, s, k);
    let ds = deps_of_container(m.scopes[si].containers[ci]);
    assert forall|q: int| 0 <= q < ds.len() implies !no_marked_pos(keys, done, #[trigger] ds[q]) by {
        assert(find_in_chain(m, s, ds[q]) is Some && rkw[ds[q]] < rkw[k]);
        lemma_witness_marks(m, s, keys, done, rkw, ds[q]);
        let j = choose|j: int| 0 <= j < keys.len() && (#[trigger] keys[j]) == ds[q] && done[j];
        assert(!(no_marked_pos(keys, done, ds[q])));
    }
    assert(deps_all_marked(m, s, keys, done, k));
    assert(keys.contains(k));
    let j = choose|j: int| 0 <= j < keys.len() && keys[j] == k;
    assert(done[j]);
}

/// Every dependency key the given container may ask for, as its
/// declaration states it.
pub fn static_deps(c: &Container) -> (r: Vec<u64>)
    ensures
        r@ == deps_of_container(c@),
    decreases cm_height(c@),
{
    match c {
        Container::Transient(t) => clone_fields(&t.dep_keys),
        Container::TransientFactory(t) => clone_fields(&t.dep_keys),
        Container::Singleton(sg) => clone_fields(&sg.dep_keys),
        Container::SingletonFactory(sg) => clone_fields(&sg.dep_keys),
        Container::Instance(_) => Vec::new(),
        Container::Convert(cv) => static_deps(&*cv.cont),
    }
}

/// Whether `k` stands in `keys`.
fn contains_u64(keys: &Vec<u64>, k: u64) -> (r: bool)
    ensures
        r == keys@.contains(k),
{
    let mut i: usize = 0;
    while i < keys.len()
        invariant
            i <= keys@.len(),
            forall|j: int| 0 <= j < i ==> keys@[j] != k,
        decreases keys@.len() - i,
    {
        if keys[i] == k {
            return true;
        }
        i = i + 1;
    }
    false
}

/// No position of `keys` holds `d` marked done.
pub open spec fn no_marked_pos(keys: Seq<u64>, done: Seq<bool>, d: u64) -> bool {
    forall|j: int| 0 <= j < keys.len() ==> !((#[trigger] keys[j]) == d && done[j])
}

/// A position of `d` in `keys` that is already marked done, if any.
fn find_done(keys: &Vec<u64>, done: &Vec<bool>, d: u64) -> (r: Option<usize>)
    requires
        keys@.len() == done@.len(),
    ensures
        match r {
            Some(i) => i < keys@.len() && keys@[i as int] == d && done@[i as int],
            None => no_marked_pos(keys@, done@, d),
        },
{
    let mut i: usize = 0;
    while i < keys.len()
        invariant
            keys@.len() == done@.len(),
            i <= keys@.len(),
            forall|j: int| 0 <= j < i ==> !((#[trigger] keys@[j]) == d && done@[j]),
        decreases keys@.len() - i,
    {
        if keys[i] == d && done[i] {
            return Some(i);
        }
        i = i + 1;
    }
    None
}

/// No runtime missing-binding: on a registry whose scope passed
/// validation, resolving any provided key with the fuel the public
/// resolver supplies returns a value — the one remaining failure is the
/// exhaustion of the identity counter, which the final state then shows.
pub proof fn lemma_validated_registry_resolves(m: SpModel, s: int, key: u64, rk: Map<u64, nat>)
    requires
        wf_ranks(m, s, rk),
        forall|k: u64| (#[trigger] find_in_chain(m, s, k)) is Some ==> rk.contains_key(k),
        forall|k: u64| #[trigger]
            rk.contains_key(k) ==> rk[k] < 1 + count_containers_from(m.scopes, 0),
        find_in_chain(m, s, key) is Some,
        2 * count_containers_from(m.scopes, 0) + 2 <= u64::MAX,
    ensures
        s_resolve(m, s, key, resolve_fuel(m)).1 is Some || s_resolve(
            m,
            s,
            key,
            resolve_fuel(m),
        ).0.next_uid == u64::MAX,
{
    lemma_resolve_total(m, s, key, rk, resolve_fuel(m));
}

impl ServiceProvider {
    /// Collects, without repetition, the output keys of every container
    /// along the chain of `cur` into `keys`; every key resolvable from
    /// `cur` ends up collected.
    fn chain_collect(&self, cur: usize, keys: Vec<u64>) -> (r: Vec<u64>)
        requires
            distinct_u64(keys@),
        ensures
            distinct_u64(r@),
            forall|k: u64| keys@.contains(k) ==> r@.contains(k),
            forall|key: u64|
                (#[trigger] find_in_chain(self@, cur as int, key)) is Some ==> r@.contains(key),
            forall|k: u64| #[trigger]
                r@.contains(k) ==> keys@.contains(k) || find_in_chain(self@, cur as int, k)
                    is Some,
            r@.len() <= keys@.len() + count_chain(self@, cur as int),
        decreases cur,
    {
        if cur >= self.scopes.len() {
            return keys;
        }
        let mut keys = keys;
        let ghost keys0 = keys@;
        let cs = &self.scopes[cur].containers;
        let ghost csv = cs@;
        let mut i: usize = 0;
        while i < cs.len()
            invariant
                cur < self@.scopes.len(),
                cs == &self.scopes@[cur as int].containers,
                i <= cs@.len(),
                distinct_u64(keys@),
                forall|k: u64| keys0.contains(k) ==> keys@.contains(k),
                forall|j: int| 0 <= j < i ==> keys@.contains(cm_key(#[trigger] conts_of(cs@)[j])),
                forall|k: u64| #[trigger]
                    keys@.contains(k) ==> keys0.contains(k) || exists|j: int|
                        0 <= j < i && cm_key(#[trigger] conts_of(cs@)[j]) == k,
                keys@.len() <= keys0.len() + i,
            decreases cs@.len() - i,
        {
            let k = container_key(&cs[i]);
            proof {
                assert(conts_of(cs@)[i as int] == cs@[i as int]@);
            }
            let ghost kpre = keys@;
            if !contains_u64(&keys, k) {
                keys.push(k);
                proof {
                    assert(keys@ == kpre.push(k));
                    assert(keys@[keys@.len() - 1] == k);
                    assert forall|x: u64| kpre.contains(x) implies keys@.contains(x) by {
                        let idx = choose|idx: int| 0 <= idx < kpre.len() && kpre[idx] == x;
                        assert(keys@[idx] == x);
                    }
                    assert forall|x: u64| #[trigger] keys@.contains(x) implies kpre.contains(x) || x
                        == k by {
                        let idx = choose|idx: int| 0 <= idx < keys@.len() && keys@[idx] == x;
                        if idx < keys@.len() - 1 {
                            assert(kpre[idx] == x);
                        }
                    }
                    assert forall|a: int, b: int| 0 <= a < b < keys@.len() implies keys@[a] != keys@[
                        b
                    ] by {
                        if b == keys@.len() - 1 {
                            assert(keys@[a] == kpre[a]);
                            assert(!kpre.contains(k));
                        }
                    }
                }
            }
            proof {
                assert forall|j: int| 0 <= j < i + 1 implies keys@.contains(
                    cm_key(#[trigger] conts_of(cs@)[j]),
                ) by {
                    if j == i {
                        if kpre.contains(k) {
                            let idx = choose|idx: int| 0 <= idx < kpre.len() && kpre[idx] == k;
                            assert(keys@[idx] == k);
                        }
                    }
                }
            }
            i = i + 1;
        }
        let ghost keys1 = keys@;
        let p = self.scopes[cur].parent;
        let keys = if p < cur {
            self.chain_collect(p, keys)
        } else {
            keys
        };
        proof {
            assert(self@.scopes[cur as int].parent == p);
            assert forall|k: u64| #[trigger] keys@.contains(k) implies keys0.contains(k)
                || find_in_chain(self@, cur as int, k) is Some by {
                let scope_conts = self@.scopes[cur as int].containers;
                assert(scope_conts == conts_of(csv));
                if !keys1.contains(k) {
                    // gathered by the recursion into the parent chain
                    assert((p as int) < cur as int);
                    assert(find_in_chain(self@, p as int, k) is Some);
                } else if !keys0.contains(k) {
                    // gathered from this scope's own containers
                    let j = choose|j: int|
                        0 <= j < csv.len() && cm_key(#[trigger] conts_of(csv)[j]) == k;
                    lemma_find_char(scope_conts, k);
                    if find_in_containers(scope_conts, k) is None {
                        assert(cm_key(scope_conts[j]) != k);
                    }
                }
            }
            assert forall|key: u64| (#[trigger] find_in_chain(self@, cur as int, key)) is Some
                implies keys@.contains(key) by {
                let scope_conts = self@.scopes[cur as int].containers;
                assert(scope_conts == conts_of(csv));
                lemma_find_char(scope_conts, key);
                match find_in_containers(scope_conts, key) {
                    Some(ci) => {
                        assert(keys1.contains(cm_key(conts_of(csv)[ci])));
                        assert(keys1.contains(key));
                        assert(keys@.contains(key));
                    },
                    None => {
                        assert((p as int) < cur as int);
                        assert(find_in_chain(self@, p as int, key) is Some);
                    },
                }
            }
        }
        keys
    }

    /// Checks that every key resolvable from scope `s` has all its
    /// dependencies resolvable from `s` too, and that the dependency
    /// graph seen from `s` is acyclic: the unsatisfiable-dependency and
    /// cyclic-dependency errors of registration, caught before any
    /// resolution runs.  Returns `true` exactly when a rank witness
    /// exists; on `true`, a witness bounded as
    /// [`lemma_validated_registry_resolves`] requires is at hand, so that
    /// law applies to every resolvable key.
    pub fn validate_scope(&self, s: usize) -> (r: bool)
        ensures
            r == exists|rk: Map<u64, nat>| wf_ranks(self@, s as int, rk),
            r ==> exists|rk: Map<u64, nat>|
                {
                    &&& wf_ranks(self@, s as int, rk)
                    &&& forall|k: u64|
                        (#[trigger] find_in_chain(self@, s as int, k)) is Some
                            ==> rk.contains_key(k)
                    &&& forall|k: u64| #[trigger]
                        rk.contains_key(k) ==> rk[k] < 1 + count_containers_from(
                            self@.scopes,
                            0,
                        )
                },
    {
        let start_keys: Vec<u64> = Vec::new();
        let ghost start_view = start_keys@;
        let keys = self.chain_collect(s, start_keys);
        proof {
            assert forall|k: u64| #[trigger] keys@.contains(k) implies find_in_chain(
                self@,
                s as int,
                k,
            ) is Some by {
                assert(start_view.len() == 0);
                assert(!start_view.contains(k));
            }
        }
        let n = keys.len();
        let mut done: Vec<bool> = Vec::new();
        let mut f: usize = 0;
        while f < n
            invariant
                done@.len() == f,
                f <= n,
                forall|j: int| 0 <= j < f ==> !(#[trigger] done@[j]),
            decreases n - f,
        {
            done.push(false);
            f = f + 1;
        }
        proof {
            lemma_count_chain_le_total(self@, s as int);
        }
        let ghost mut rk: Map<u64, nat> = Map::empty();
        let mut counter: usize = 0;
        let mut rounds: usize = 0;
        let mut again = true;
        while again && rounds < n
            invariant
                keys@.len() == n,
                done@.len() == n,
                distinct_u64(keys@),
                forall|k: u64| #[trigger]
                    keys@.contains(k) ==> find_in_chain(self@, s as int, k) is Some,
                forall|t: int|
                    0 <= t < n && #[trigger] done@[t] ==> rk.contains_key(keys@[t]) && rk[keys@[t]]
                        < counter,
                forall|k: u64|
                    rk.contains_key(k) ==> exists|t: int|
                        0 <= t < n && keys@[t] == k && #[trigger] done@[t],
                forall|t: int|
                    0 <= t < n && #[trigger] done@[t] ==> key_ok(self@, s as int, keys@[t], rk),
                counter <= count_true(done@),
                again ==> counter >= rounds,
                !again ==> forall|t: int|
                    0 <= t < n && !done@[t] ==> !deps_all_marked(
                        self@,
                        s as int,
                        keys@,
                        done@,
                        #[trigger] keys@[t],
                    ),
            decreases n - rounds,
        {
            let mut progressed = false;
            let ghost counter_pass0 = counter;
            let mut i: usize = 0;
            while i < n
                invariant
                    keys@.len() == n,
                    done@.len() == n,
                    distinct_u64(keys@),
                    forall|k: u64| #[trigger]
                        keys@.contains(k) ==> find_in_chain(self@, s as int, k) is Some,
                    forall|t: int|
                        0 <= t < n && #[trigger] done@[t] ==> rk.contains_key(keys@[t])
                            && rk[keys@[t]] < counter,
                    forall|k: u64|
                        rk.contains_key(k) ==> exists|t: int|
                            0 <= t < n && keys@[t] == k && #[trigger] done@[t],
                    forall|t: int|
                        0 <= t < n && #[trigger] done@[t] ==> key_ok(self@, s as int, keys@[t], rk),
                    counter <= count_true(done@),
                    counter >= counter_pass0,
                    progressed ==> counter >= counter_pass0 + 1,
                    !progressed ==> forall|t: int|
                        0 <= t < i && !done@[t] ==> !deps_all_marked(
                            self@,
                            s as int,
                            keys@,
                            done@,
                            #[trigger] keys@[t],
                        ),
                decreases n - i,
            {
                if !done[i] {
                    proof {
                        assert(keys@.contains(keys@[i as int]));
                    }
                    let found = self.find(s, keys[i]);
                    proof {
                        assert(found is Some);
                    }
                    let (si, ci) = found.unwrap();
                    proof {
                        assert(self@.scopes[si as int].containers[ci as int] == self.scopes@[
                            si as int
                        ].containers@[ci as int]@);
                    }
                    let ds = static_deps(&self.scopes[si].containers[ci]);
                    let mut all_done = true;
                    let mut j: usize = 0;
                    while j < ds.len()
                        invariant
                            keys@.len() == n,
                            done@.len() == n,
                            j <= ds@.len(),
                            forall|t: int|
                                0 <= t < n && #[trigger] done@[t] ==> rk.contains_key(keys@[t])
                                    && rk[keys@[t]] < counter,
                            forall|t: int|
                                0 <= t < n && #[trigger] done@[t] ==> key_ok(
                                    self@,
                                    s as int,
                                    keys@[t],
                                    rk,
                                ),
                            all_done ==> forall|q: int|
                                0 <= q < j ==> {
                                    &&& find_in_chain(self@, s as int, #[trigger] ds@[q]) is Some
                                    &&& rk.contains_key(ds@[q])
                                    &&& rk[ds@[q]] < counter
                                },
                            !all_done ==> exists|q: int|
                                0 <= q < j && no_marked_pos(keys@, done@, #[trigger] ds@[q]),
                        decreases ds@.len() - j,
                    {
                        match find_done(&keys, &done, ds[j]) {
                            Some(t) => {
                                proof {
                                    assert(key_ok(self@, s as int, keys@[t as int], rk));
                                }
                            },
                            None => {
                                proof {
                                    assert(no_marked_pos(keys@, done@, ds@[j as int]));
                                }
                                all_done = false;
                            },
                        }
                        j = j + 1;
                    }
                    if all_done {
                        let ghost knew = keys@[i as int];
                        let ghost rk0 = rk;
                        let ghost done0 = done@;
                        proof {
                            assert(!rk.contains_key(knew)) by {
                                if rk.contains_key(knew) {
                                    let t = choose|t: int|
                                        0 <= t < n && keys@[t] == knew && #[trigger] done@[t];
                                    assert(t == i);
                                }
                            }
                            rk = rk.insert(knew, counter as nat);
                            lemma_count_true_lt(done@, i as int);
                            lemma_count_true_update(done@, i as int);
                        }
                        done.set(i, true);
                        progressed = true;
                        proof {
                            assert forall|k: u64| rk.contains_key(k) implies exists|t: int|
                                0 <= t < n && keys@[t] == k && #[trigger] done@[t] by {
                                if k == knew {
                                    assert(keys@[i as int] == k && done@[i as int]);
                                } else {
                                    assert(rk0.contains_key(k));
                                    let t = choose|t: int|
                                        0 <= t < n && keys@[t] == k && #[trigger] done0[t];
                                    assert(done@[t]);
                                }
                            }
                            assert forall|t: int| 0 <= t < n && #[trigger] done@[t] && t
                                != i implies key_ok(self@, s as int, keys@[t], rk) by {
                                assert(key_ok(self@, s as int, keys@[t], rk0));
                                assert(keys@[t] != knew);
                                assert(rk[keys@[t]] == rk0[keys@[t]]);
                                let loc = find_in_chain(self@, s as int, keys@[t])->0;
                                let dst = deps_of_container(
                                    self@.scopes[loc.0].containers[loc.1],
                                );
                                assert forall|q: int| 0 <= q < dst.len() implies {
                                    &&& find_in_chain(self@, s as int, #[trigger] dst[q]) is Some
                                    &&& rk.contains_key(dst[q])
                                    &&& rk[dst[q]] < rk[keys@[t]]
                                } by {
                                    assert(rk0.contains_key(dst[q]));
                                    assert(dst[q] != knew);
                                }
                            }
                            assert(key_ok(self@, s as int, knew, rk)) by {
                                let ds2 = deps_of_container(
                                    self@.scopes[si as int].containers[ci as int],
                                );
                                assert(ds2 == ds@);
                                assert forall|q: int| 0 <= q < ds2.len() implies {
                                    &&& find_in_chain(self@, s as int, #[trigger] ds2[q]) is Some
                                    &&& rk.contains_key(ds2[q])
                                    &&& rk[ds2[q]] < rk[knew]
                                } by {
                                    assert(rk0.contains_key(ds2[q]));
                                    assert(ds2[q] != knew);
                                    assert(rk0[ds2[q]] < counter);
                                }
                            }
                        }
                        counter = counter + 1;
                    } else {
                        proof {
                            if !progressed {
                                assert(!deps_all_marked(
                                    self@,
                                    s as int,
                                    keys@,
                                    done@,
                                    keys@[i as int],
                                )) by {
                                    let q = choose|q: int|
                                        0 <= q < ds@.len() && no_marked_pos(
                                            keys@,
                                            done@,
                                            #[trigger] ds@[q],
                                        );
                                    assert(deps_of_container(
                                        self@.scopes[si as int].containers[ci as int],
                                    ) == ds@);
                                }
                            }
                        }
                    }
                }
                i = i + 1;
            }
            again = progressed;
            rounds = rounds + 1;
        }
        if !again {
            // the marking is stuck: with a rank witness it would have
            // marked every resolvable key, so an unmarked key refutes
            // every candidate witness
            let mut i: usize = 0;
            while i < n
                invariant
                    keys@.len() == n,
                    done@.len() == n,
                    i <= n,
                    counter <= count_true(done@),
                    n <= count_chain(self@, s as int),
                    distinct_u64(keys@),
                    forall|k: u64| #[trigger]
                        keys@.contains(k) ==> find_in_chain(self@, s as int, k) is Some,
                    forall|t: int|
                        0 <= t < n && #[trigger] done@[t] ==> rk.contains_key(keys@[t])
                            && rk[keys@[t]] < counter,
                    forall|k: u64|
                        rk.contains_key(k) ==> exists|t: int|
                            0 <= t < n && keys@[t] == k && #[trigger] done@[t],
                    forall|t: int|
                        0 <= t < n && #[trigger] done@[t] ==> key_ok(self@, s as int, keys@[t], rk),
                    forall|t: int| 0 <= t < i ==> #[trigger] done@[t],
                    forall|t: int|
                        0 <= t < n && !done@[t] ==> !deps_all_marked(
                            self@,
                            s as int,
                            keys@,
                            done@,
                            #[trigger] keys@[t],
                        ),
                    forall|key: u64|
                        (#[trigger] find_in_chain(self@, s as int, key)) is Some
                            ==> keys@.contains(key),
                decreases n - i,
            {
                if !done[i] {
                    proof {
                        assert(keys@.contains(keys@[i as int]));
                        assert forall|rkw: Map<u64, nat>| !(#[trigger] wf_ranks(
                            self@,
                            s as int,
                            rkw,
                        )) by {
                            if wf_ranks(self@, s as int, rkw) {
                                lemma_witness_marks(
                                    self@,
                                    s as int,
                                    keys@,
                                    done@,
                                    rkw,
                                    keys@[i as int],
                                );
                                let j = choose|j: int|
                                    0 <= j < keys@.len() && (#[trigger] keys@[j]) == keys@[
                                        i as int
                                    ] && done@[j];
                                if j < i {
                                    assert(keys@[j] != keys@[i as int]);
                                }
                                if j > i {
                                    assert(keys@[i as int] != keys@[j]);
                                }
                                assert(j == i);
                            }
                        }
                    }
                    return false;
                }
                i = i + 1;
            }
        } else {
            proof {
                // every round progressed, so after `n` rounds all `n`
                // keys stand marked
                lemma_count_true_le(done@);
                lemma_count_true_full(done@);
            }
        }
        proof {
            assert forall|key: u64| (#[trigger] find_in_chain(self@, s as int, key)) is Some
                implies key_ok(self@, s as int, key, rk) && rk.contains_key(key) by {
                assert(keys@.contains(key));
                let t = choose|t: int| 0 <= t < keys@.len() && keys@[t] == key;
                assert(done@[t]);
            }
            lemma_key_ok_all(self@, s as int, rk);
            lemma_count_true_le(done@);
            lemma_count_chain_le_total(self@, s as int);
            assert(counter <= n);
            assert(n <= count_chain(self@, s as int));
            assert forall|k: u64| #[trigger] rk.contains_key(k) implies rk[k] < 1
                + count_containers_from(self@.scopes, 0) by {
                let t = choose|t: int| 0 <= t < n && keys@[t] == k && #[trigger] done@[t];
            }
            assert(wf_ranks(self@, s as int, rk));
        }
        true
    }
}

} // verus!
