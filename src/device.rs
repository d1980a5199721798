use vstd::prelude::*;
use vstd::string::*;

verus! {

/// A device of one class as the audio server lists it.
pub struct Device {
    /// Server-assigned handle, unique within one server session.
    pub index: u32,
    pub name: Option<String>,
    pub description: Option<String>,
    pub mute: bool,
}

/// What `str::to_lowercase` makes of a string of characters.
pub uninterp spec fn lower_of(s: Seq<char>) -> Seq<char>;

/// Relies on `str::to_lowercase`: the result depends on the characters alone.
#[verifier::external_body]
fn lowercase(s: &str) -> (r: String)
    ensures
        r@ == lower_of(s@),
{
    s.to_lowercase()
}

pub open spec fn monitor_word() -> Seq<char> {
    seq!['m', 'o', 'n', 'i', 't', 'o', 'r']
}

/// `w` occurs in `s` starting at position `i`.
pub open spec fn occurs_at(s: Seq<char>, w: Seq<char>, i: int) -> bool {
    0 <= i && i + w.len() <= s.len() && s.subrange(i, i + w.len()) == w
}

pub open spec fn contains_monitor(s: Seq<char>) -> bool {
    exists|i: int| occurs_at(s, monitor_word(), i)
}

/// A monitor device: its name, in lower case, holds the word "monitor".
pub open spec fn is_monitor(d: Device) -> bool {
    match d.name {
        Some(n) => contains_monitor(lower_of(n@)),
        None => false,
    }
}

/// A device that cycling may select.
pub open spec fn is_eligible(d: Device) -> bool {
    !is_monitor(d)
}

/// Whether `s` holds the word "monitor" (compared character by character).
pub fn contains_monitor_word(s: &str) -> (r: bool)
    ensures
        r == contains_monitor(s@),
{
    let n = s.unicode_len();
    let mut i: usize = 0;
    while i < n && n - i >= 7
        invariant
            n == s@.len(),
            i <= n,
            forall|j: int| 0 <= j < i ==> !occurs_at(s@, monitor_word(), j),
        decreases n - i,
    {
        if s.get_char(i) == 'm' && s.get_char(i + 1) == 'o' && s.get_char(i + 2) == 'n'
            && s.get_char(i + 3) == 'i' && s.get_char(i + 4) == 't' && s.get_char(i + 5) == 'o'
            && s.get_char(i + 6) == 'r' {
            assert(s@.subrange(i as int, i + 7) =~= monitor_word());
            assert(occurs_at(s@, monitor_word(), i as int));
            return true;
        }
        assert(!occurs_at(s@, monitor_word(), i as int)) by {
            if occurs_at(s@, monitor_word(), i as int) {
                let w = s@.subrange(i as int, i + 7);
                assert(w[0] == s@[i as int] && w[1] == s@[i + 1] && w[2] == s@[i + 2]);
                assert(w[3] == s@[i + 3] && w[4] == s@[i + 4] && w[5] == s@[i + 5]);
                assert(w[6] == s@[i + 6]);
            }
        }
        i = i + 1;
    }
    false
}

/// Whether the device may be selected by cycling: its name does not hold
/// "monitor" in any letter case. A device without a name is eligible.
pub fn ignore_monitor_devs(d: &Device) -> (r: bool)
    ensures
        r == is_eligible(*d),
{
    match &d.name {
        Some(n) => {
            let lowered = lowercase(n.as_str());
            !contains_monitor_word(lowered.as_str())
        },
        None => true,
    }
}

/// An exact copy of an optional string.
pub fn copy_name(n: &Option<String>) -> (r: Option<String>)
    ensures
        r == *n,
{
    match n {
        Some(s) => Some(s.clone()),
        None => None,
    }
}

} // verus!
