use vstd::prelude::*;
use vstd::arithmetic::div_mod::{lemma_add_mod_noop, lemma_mod_self_0, lemma_small_mod, lemma_mod_pos_bound};
use crate::device::{Device, is_eligible, ignore_monitor_devs};
use crate::catalog::{
    DeviceCatalog, elig_pos, eligible_positions, lemma_elig_pos, lemma_elig_pos_complete,
    lemma_elig_pos_prefix,
};

verus! {

/// The direction of a cycling step.
#[derive(Clone, Copy, PartialEq, Eq, Debug)]
pub enum Direction {
    Forward,
    Backward,
}

/// Rank in the eligible sequence reached forward, given how many eligible
/// devices stand up to and including the starting point.
pub open spec fn fwd_rank(c: int, n: int) -> int {
    if c >= n {
        0
    } else {
        c
    }
}

/// Rank in the eligible sequence reached backward, given how many eligible
/// devices stand strictly before the starting point.
pub open spec fn bwd_rank(c: int, n: int) -> int {
    if c <= 0 {
        n - 1
    } else {
        c - 1
    }
}

/// The position that a forward step from position `p` reaches: the first
/// eligible device after `p`, wrapping round to the start of the catalog.
pub open spec fn next_pos(s: Seq<Device>, p: int) -> int {
    let e = eligible_positions(s);
    e[fwd_rank(elig_pos(s, p + 1).len() as int, e.len() as int)]
}

/// The position that a backward step from position `p` reaches: the last
/// eligible device before `p`, wrapping round to the end of the catalog.
pub open spec fn prev_pos(s: Seq<Device>, p: int) -> int {
    let e = eligible_positions(s);
    e[bwd_rank(elig_pos(s, p).len() as int, e.len() as int)]
}

pub open spec fn step_pos(s: Seq<Device>, p: int, dir: Direction) -> int {
    match dir {
        Direction::Forward => next_pos(s, p),
        Direction::Backward => prev_pos(s, p),
    }
}

/// `m` forward steps from position `p`.
pub open spec fn next_n(s: Seq<Device>, p: int, m: nat) -> int
    decreases m,
{
    if m == 0 {
        p
    } else {
        next_pos(s, next_n(s, p, (m - 1) as nat))
    }
}

/// Some device of the catalog carries the remembered index.
pub open spec fn persisted_present(s: Seq<Device>, persisted: Option<u32>) -> bool {
    match persisted {
        Some(i) => exists|p: int| 0 <= p < s.len() && s[p].index == i,
        None => false,
    }
}

/// Where cycling starts from.
#[derive(Clone, Copy, PartialEq, Eq, Debug)]
pub enum Current {
    /// The remembered index names the device at this position.
    Persisted(usize),
    /// Nothing usable was remembered; the first eligible device, at this position, stands in.
    Fallback(usize),
    /// Nothing usable was remembered and no device is eligible.
    NoDevices,
}

/// The outcome of a cycling step.
#[derive(Clone, Copy, PartialEq, Eq, Debug)]
pub enum Selection {
    /// No device is eligible.
    NoDevices,
    /// Exactly one device is eligible: nothing changes, and the device at this
    /// position stays both current and target.
    Singleton(usize),
    /// The device at this position becomes the default.
    Target(usize),
}

/// For an eligible position `p`, the counts of eligible devices before it and up to it.
proof fn lemma_rank_of_eligible(s: Seq<Device>, p: int)
    requires
        0 <= p < s.len(),
        is_eligible(s[p]),
    ensures
        elig_pos(s, p).len() < eligible_positions(s).len(),
        eligible_positions(s)[elig_pos(s, p).len() as int] == p,
        elig_pos(s, p + 1).len() == elig_pos(s, p).len() + 1,
{
    lemma_elig_pos_complete(s, s.len() as int, p);
}

/// A step from an eligible position of rank `k` reaches the neighbouring rank.
proof fn lemma_step_from_rank(s: Seq<Device>, k: int)
    requires
        0 <= k < eligible_positions(s).len(),
    ensures
        next_pos(s, eligible_positions(s)[k]) == eligible_positions(s)[fwd_rank(
            k + 1,
            eligible_positions(s).len() as int,
        )],
        prev_pos(s, eligible_positions(s)[k]) == eligible_positions(s)[bwd_rank(
            k,
            eligible_positions(s).len() as int,
        )],
{
    let e = eligible_positions(s);
    lemma_elig_pos(s, s.len() as int);
    assert(elig_pos(s, e[k]).len() == k);
    lemma_rank_of_eligible(s, e[k]);
}

/// A step, forward or backward, in a catalog with an eligible device reaches
/// an eligible device of the catalog.
pub proof fn lemma_step_eligible(s: Seq<Device>, p: int, dir: Direction)
    requires
        0 <= p < s.len(),
        eligible_positions(s).len() >= 1,
    ensures
        0 <= step_pos(s, p, dir) < s.len(),
        is_eligible(s[step_pos(s, p, dir)]),
{
    let e = eligible_positions(s);
    lemma_elig_pos(s, s.len() as int);
    lemma_elig_pos_prefix(s, p, s.len() as int);
    lemma_elig_pos_prefix(s, p + 1, s.len() as int);
    let k = step_pos(s, p, dir);
    match dir {
        Direction::Forward => {
            assert(k == e[fwd_rank(elig_pos(s, p + 1).len() as int, e.len() as int)]);
        },
        Direction::Backward => {
            assert(k == e[bwd_rank(elig_pos(s, p).len() as int, e.len() as int)]);
        },
    }
}

/// Stepping back and then forward from an eligible device returns to it.
pub proof fn lemma_prev_then_next(s: Seq<Device>, p: int)
    requires
        0 <= p < s.len(),
        is_eligible(s[p]),
        eligible_positions(s).len() >= 2,
    ensures
        next_pos(s, prev_pos(s, p)) == p,
{
    let e = eligible_positions(s);
    let n = e.len() as int;
    lemma_rank_of_eligible(s, p);
    let k = elig_pos(s, p).len() as int;
    lemma_step_from_rank(s, k);
    let k2 = bwd_rank(k, n);
    lemma_step_from_rank(s, k2);
}

/// `m` forward steps from the eligible device of rank `k` reach rank `(k + m) % n`.
proof fn lemma_next_n_rank(s: Seq<Device>, k: int, m: nat)
    requires
        0 <= k < eligible_positions(s).len(),
        eligible_positions(s).len() >= 1,
    ensures
        next_n(s, eligible_positions(s)[k], m) == eligible_positions(s)[(k + m) % (
        eligible_positions(s).len() as int)],
    decreases m,
{
    let e = eligible_positions(s);
    let n = e.len() as int;
    if m == 0 {
        lemma_small_mod(k as nat, n as nat);
    } else {
        lemma_next_n_rank(s, k, (m - 1) as nat);
        let r = (k + m - 1) % n;
        lemma_mod_pos_bound(k + m - 1, n);
        lemma_step_from_rank(s, r);
        lemma_add_mod_noop(k + m - 1, 1, n);
        if n > 1 {
            lemma_small_mod(1, n as nat);
        } else {
            lemma_mod_self_0(1);
        }
        if r + 1 < n {
            lemma_small_mod((r + 1) as nat, n as nat);
        } else {
            lemma_mod_self_0(n);
        }
    }
}

/// With n eligible devices, n forward steps from any eligible device return to it.
pub proof fn lemma_next_full_cycle(s: Seq<Device>, p: int)
    requires
        0 <= p < s.len(),
        is_eligible(s[p]),
        eligible_positions(s).len() >= 2,
    ensures
        next_n(s, p, eligible_positions(s).len()) == p,
{
    let n = eligible_positions(s).len() as int;
    lemma_rank_of_eligible(s, p);
    let k = elig_pos(s, p).len() as int;
    lemma_next_n_rank(s, k, n as nat);
    lemma_add_mod_noop(k, n, n);
    lemma_mod_self_0(n);
    lemma_small_mod(k as nat, n as nat);
    assert((k + n) % n == ((k % n) + (n % n)) % n);
}

/// No eligible device stands strictly after position `a` and strictly before
/// position `b`, reading the catalog as a circle.
pub open spec fn none_eligible_between(s: Seq<Device>, a: int, b: int) -> bool {
    if a < b {
        forall|q: int| a < q < b ==> !is_eligible(#[trigger] s[q])
    } else {
        forall|q: int| (a < q < s.len() || 0 <= q < b) ==> !is_eligible(#[trigger] s[q])
    }
}

/// An eligible position lies below `m` exactly when fewer eligible positions
/// than stand below `m` precede it.
proof fn lemma_rank_vs_bound(s: Seq<Device>, q: int, m: int)
    requires
        0 <= q < s.len(),
        0 <= m <= s.len(),
        is_eligible(s[q]),
    ensures
        q < m ==> elig_pos(s, q).len() < elig_pos(s, m).len(),
        q >= m ==> elig_pos(s, q).len() >= elig_pos(s, m).len(),
{
    lemma_rank_of_eligible(s, q);
    if q < m {
        lemma_elig_pos_prefix(s, q + 1, m);
    } else {
        lemma_elig_pos_prefix(s, m, q);
    }
}

/// A forward step is the walk that the catalog order describes: it reaches the
/// first eligible device after the start, wrapping round, and with two or more
/// eligible devices that device is not the start.
pub proof fn lemma_forward_walk(s: Seq<Device>, p: int)
    requires
        0 <= p < s.len(),
        eligible_positions(s).len() >= 1,
    ensures
        0 <= next_pos(s, p) < s.len(),
        is_eligible(s[next_pos(s, p)]),
        none_eligible_between(s, p, next_pos(s, p)),
        eligible_positions(s).len() >= 2 ==> next_pos(s, p) != p,
{
    let e = eligible_positions(s);
    let n = e.len() as int;
    let t = next_pos(s, p);
    lemma_step_eligible(s, p, Direction::Forward);
    lemma_elig_pos(s, s.len() as int);
    lemma_elig_pos_prefix(s, p + 1, s.len() as int);
    let c = elig_pos(s, p + 1).len() as int;
    lemma_rank_of_eligible(s, t);
    lemma_rank_vs_bound(s, t, p + 1);
    assert forall|q: int| 0 <= q < s.len() && q != t && is_eligible(#[trigger] s[q]) implies !(
    if p < t {
        p < q < t
    } else {
        p < q < s.len() || 0 <= q < t
    }) by {
        lemma_rank_of_eligible(s, q);
        lemma_rank_vs_bound(s, q, p + 1);
        lemma_rank_vs_bound(s, q, t);
    }
    if n >= 2 && t == p {
        assert(elig_pos(s, e[0]).len() == 0 && elig_pos(s, e[1]).len() == 1);
        assert(e[0] == p || e[1] == p);
    }
}

/// A backward step is the reverse walk: it reaches the last eligible device
/// before the start, wrapping round, and with two or more eligible devices
/// that device is not the start.
pub proof fn lemma_backward_walk(s: Seq<Device>, p: int)
    requires
        0 <= p < s.len(),
        eligible_positions(s).len() >= 1,
    ensures
        0 <= prev_pos(s, p) < s.len(),
        is_eligible(s[prev_pos(s, p)]),
        none_eligible_between(s, prev_pos(s, p), p),
        eligible_positions(s).len() >= 2 ==> prev_pos(s, p) != p,
{
    let e = eligible_positions(s);
    let n = e.len() as int;
    let t = prev_pos(s, p);
    lemma_step_eligible(s, p, Direction::Backward);
    lemma_elig_pos(s, s.len() as int);
    lemma_elig_pos_prefix(s, p, s.len() as int);
    lemma_rank_of_eligible(s, t);
    lemma_rank_vs_bound(s, t, p);
    assert forall|q: int| 0 <= q < s.len() && q != t && is_eligible(#[trigger] s[q]) implies !(
    if t < p {
        t < q < p
    } else {
        t < q < s.len() || 0 <= q < p
    }) by {
        lemma_rank_of_eligible(s, q);
        lemma_rank_vs_bound(s, q, p);
        lemma_rank_vs_bound(s, q, t + 1);
    }
    if n >= 2 && t == p {
        assert(elig_pos(s, e[0]).len() == 0 && elig_pos(s, e[1]).len() == 1);
        assert(e[0] == p || e[1] == p);
    }
}

impl DeviceCatalog {
    /// The number of eligible devices strictly before position `end`.
    fn eligible_before(&self, end: usize) -> (r: usize)
        requires
            end <= self@.len(),
        ensures
            r == elig_pos(self@, end as int).len(),
    {
        let mut c: usize = 0;
        let mut i: usize = 0;
        while i < end
            invariant
                end <= self@.len(),
                i <= end,
                c == elig_pos(self@, i as int).len(),
            decreases end - i,
        {
            proof {
                lemma_elig_pos(self@, i as int);
            }
            if ignore_monitor_devs(self.get(i)) {
                c = c + 1;
            }
            i = i + 1;
        }
        c
    }

    /// Resolves the device that cycling starts from: the one that carries the
    /// remembered index, monitor devices included; else the first eligible device.
    pub fn resolve_current(&self, persisted: Option<u32>) -> (r: Current)
        requires
            self.wf(),
        ensures
            match r {
                Current::Persisted(p) => p < self@.len() && persisted == Some(self@[p as int].index),
                Current::Fallback(p) => {
                    &&& !persisted_present(self@, persisted)
                    &&& eligible_positions(self@).len() > 0
                    &&& p == eligible_positions(self@)[0]
                    &&& p < self@.len()
                    &&& is_eligible(self@[p as int])
                },
                Current::NoDevices => {
                    &&& !persisted_present(self@, persisted)
                    &&& eligible_positions(self@).len() == 0
                },
            },
    {
        if let Some(idx) = persisted {
            if let Some(p) = self.by_index(idx) {
                return Current::Persisted(p);
            }
        }
        let e = self.eligible_positions();
        proof {
            lemma_elig_pos(self@, self@.len() as int);
        }
        if e.len() == 0 {
            Current::NoDevices
        } else {
            Current::Fallback(e[0])
        }
    }

    /// One cycling step from position `current` in direction `dir`.
    pub fn cycle(&self, current: usize, dir: Direction) -> (r: Selection)
        requires
            current < self@.len(),
        ensures
            eligible_positions(self@).len() == 0 <==> r is NoDevices,
            eligible_positions(self@).len() == 1 <==> r == Selection::Singleton(current),
            eligible_positions(self@).len() >= 2 <==> r is Target,
            r matches Selection::Target(t) ==> {
                &&& t == step_pos(self@, current as int, dir)
                &&& t < self@.len()
                &&& is_eligible(self@[t as int])
            },
    {
        let e = self.eligible_positions();
        let n = e.len();
        if n == 0 {
            return Selection::NoDevices;
        }
        if n == 1 {
            return Selection::Singleton(current);
        }
        let total = self.len();
        let before = self.eligible_before(current);
        proof {
            lemma_elig_pos_prefix(self@, current as int, self@.len() as int);
            lemma_elig_pos(self@, current as int);
            assert(before <= current < total);
        }
        let upto = if ignore_monitor_devs(self.get(current)) {
            before + 1
        } else {
            before
        };
        proof {
            lemma_elig_pos(self@, self@.len() as int);
            lemma_elig_pos_prefix(self@, current as int, self@.len() as int);
            lemma_elig_pos_prefix(self@, current + 1, self@.len() as int);
            assert(upto == elig_pos(self@, current + 1).len());
            lemma_step_eligible(self@, current as int, dir);
        }
        let k = match dir {
            Direction::Forward => if upto >= n {
                0
            } else {
                upto
            },
            Direction::Backward => if before == 0 {
                n - 1
            } else {
                before - 1
            },
        };
        Selection::Target(e[k])
    }
}

} // verus!
