use vstd::prelude::*;
use crate::device::{Device, is_eligible, ignore_monitor_devs, copy_name};

verus! {

/// No two devices of `s` share an index.
pub open spec fn unique_indices(s: Seq<Device>) -> bool {
    forall|i: int, j: int| 0 <= i < j < s.len() ==> s[i].index != s[j].index
}

/// The positions below `n` of the eligible devices of `s`, in catalog order.
pub open spec fn elig_pos(s: Seq<Device>, n: int) -> Seq<int>
    decreases n,
{
    if n <= 0 {
        seq![]
    } else if is_eligible(s[n - 1]) {
        elig_pos(s, n - 1).push(n - 1)
    } else {
        elig_pos(s, n - 1)
    }
}

/// The positions of all eligible devices of `s`, in catalog order.
pub open spec fn eligible_positions(s: Seq<Device>) -> Seq<int> {
    elig_pos(s, s.len() as int)
}

/// The eligible devices of `s`, in catalog order.
pub open spec fn eligible_of(s: Seq<Device>) -> Seq<Device> {
    eligible_positions(s).map_values(|p: int| s[p])
}

/// Each listed position lies below `n`, holds an eligible device, and has as
/// many eligible positions before it as its own rank.
pub proof fn lemma_elig_pos(s: Seq<Device>, n: int)
    requires
        0 <= n <= s.len(),
    ensures
        forall|j: int|
            #![trigger elig_pos(s, n)[j]]
            0 <= j < elig_pos(s, n).len() ==> {
                &&& 0 <= elig_pos(s, n)[j] < n
                &&& is_eligible(s[elig_pos(s, n)[j]])
                &&& elig_pos(s, elig_pos(s, n)[j]).len() == j
            },
        elig_pos(s, n).len() <= n,
    decreases n,
{
    if n > 0 {
        lemma_elig_pos(s, n - 1);
    }
}

/// Every eligible position below `n` is listed.
pub proof fn lemma_elig_pos_complete(s: Seq<Device>, n: int, q: int)
    requires
        0 <= q < n <= s.len(),
        is_eligible(s[q]),
    ensures
        0 <= elig_pos(s, q).len() < elig_pos(s, n).len(),
        elig_pos(s, n)[elig_pos(s, q).len() as int] == q,
    decreases n,
{
    if q < n - 1 {
        lemma_elig_pos_complete(s, n - 1, q);
    }
}

/// The list up to `m` is a prefix of the list up to `n`.
pub proof fn lemma_elig_pos_prefix(s: Seq<Device>, m: int, n: int)
    requires
        0 <= m <= n <= s.len(),
    ensures
        elig_pos(s, m).len() <= elig_pos(s, n).len(),
        forall|j: int|
            0 <= j < elig_pos(s, m).len() ==> #[trigger] elig_pos(s, n)[j] == elig_pos(s, m)[j],
    decreases n,
{
    if m < n {
        lemma_elig_pos_prefix(s, m, n - 1);
    }
}

/// A snapshot of the devices of one class, in the order the server listed them.
pub struct DeviceCatalog {
    devices: Vec<Device>,
}

impl DeviceCatalog {
    pub closed spec fn view(&self) -> Seq<Device> {
        self.devices@
    }

    /// The catalog's devices have distinct indices.
    pub open spec fn wf(&self) -> bool {
        unique_indices(self@)
    }

    /// Takes the server's list as the catalog; refuses a list in which two
    /// devices share an index.
    pub fn new(devices: Vec<Device>) -> (r: Option<DeviceCatalog>)
        ensures
            r is Some <==> unique_indices(devices@),
            r matches Some(c) ==> c@ == devices@,
    {
        let n = devices.len();
        let mut i: usize = 0;
        while i < n
            invariant
                n == devices@.len(),
                i <= n,
                forall|a: int, b: int| 0 <= a < b < n && a < i ==> devices@[a].index != devices@[b].index,
            decreases n - i,
        {
            let mut j: usize = i + 1;
            while j < n
                invariant
                    n == devices@.len(),
                    i < n,
                    i < j <= n,
                    forall|a: int, b: int| 0 <= a < b < n && a < i ==> devices@[a].index != devices@[b].index,
                    forall|b: int| i < b < j ==> devices@[i as int].index != devices@[b].index,
                decreases n - j,
            {
                if devices[i].index == devices[j].index {
                    return None;
                }
                j = j + 1;
            }
            i = i + 1;
        }
        Some(DeviceCatalog { devices })
    }

    pub fn len(&self) -> (r: usize)
        ensures
            r == self@.len(),
    {
        self.devices.len()
    }

    pub fn is_empty(&self) -> (r: bool)
        ensures
            r == (self@.len() == 0),
    {
        self.devices.len() == 0
    }

    /// The device at position `pos`.
    pub fn get(&self, pos: usize) -> (r: &Device)
        requires
            pos < self@.len(),
        ensures
            *r == self@[pos as int],
    {
        &self.devices[pos]
    }

    /// The position of the device with the given index, monitor devices included.
    pub fn by_index(&self, idx: u32) -> (r: Option<usize>)
        requires
            self.wf(),
        ensures
            r matches Some(p) ==> p < self@.len() && self@[p as int].index == idx,
            r is None <==> forall|p: int| 0 <= p < self@.len() ==> self@[p].index != idx,
    {
        let n = self.devices.len();
        let mut i: usize = 0;
        while i < n
            invariant
                n == self@.len(),
                i <= n,
                forall|p: int| 0 <= p < i ==> self@[p].index != idx,
            decreases n - i,
        {
            if self.devices[i].index == idx {
                return Some(i);
            }
            i = i + 1;
        }
        None
    }

    /// The positions of the eligible devices, in catalog order.
    pub fn eligible_positions(&self) -> (r: Vec<usize>)
        ensures
            r@.len() == eligible_positions(self@).len(),
            forall|k: int| 0 <= k < r@.len() ==> r@[k] as int == eligible_positions(self@)[k],
    {
        let n = self.devices.len();
        let mut out: Vec<usize> = Vec::new();
        let mut i: usize = 0;
        while i < n
            invariant
                n == self@.len(),
                i <= n,
                out@.len() == elig_pos(self@, i as int).len(),
                forall|k: int| 0 <= k < out@.len() ==> out@[k] as int == elig_pos(self@, i as int)[k],
            decreases n - i,
        {
            if ignore_monitor_devs(&self.devices[i]) {
                out.push(i);
            }
            i = i + 1;
        }
        out
    }

    /// Copies of the eligible devices, in catalog order.
    pub fn eligible(&self) -> (r: Vec<Device>)
        ensures
            r@ == eligible_of(self@),
    {
        let n = self.devices.len();
        let mut out: Vec<Device> = Vec::new();
        let mut i: usize = 0;
        while i < n
            invariant
                n == self@.len(),
                i <= n,
                out@ == elig_pos(self@, i as int).map_values(|p: int| self@[p]),
            decreases n - i,
        {
            let d = &self.devices[i];
            if ignore_monitor_devs(d) {
                let c = Device {
                    index: d.index,
                    name: copy_name(&d.name),
                    description: copy_name(&d.description),
                    mute: d.mute,
                };
                out.push(c);
                assert(out@ =~= elig_pos(self@, i + 1).map_values(|p: int| self@[p]));
            } else {
                assert(out@ =~= elig_pos(self@, i + 1).map_values(|p: int| self@[p]));
            }
            i = i + 1;
        }
        out
    }
}

} // verus!
