use vstd::prelude::*;
use vstd::string::*;
use crate::device::Device;
use crate::catalog::DeviceCatalog;

verus! {

/// The attribute of the current device that a status query prints.
#[derive(Clone, Copy, PartialEq, Eq, Debug)]
pub enum Status {
    Muted,
    Volume,
    Name,
    Desc,
}

/// Why a status query has no device to report on.
#[derive(Clone, Copy, PartialEq, Eq, Debug)]
pub enum StatusError {
    /// No index is remembered.
    Unset,
    /// The remembered index names no device of the catalog.
    UnknownDevice(u32),
}

pub open spec fn text_or_empty(t: Option<String>) -> Seq<char> {
    match t {
        Some(s) => s@,
        None => Seq::empty(),
    }
}

/// The text printed for `status` of device `d`; the volume has no text here,
/// being a measure of the audio server's own.
pub open spec fn status_chars(d: Device, status: Status) -> Option<Seq<char>> {
    match status {
        Status::Muted => Some(
            if d.mute {
                seq!['t', 'r', 'u', 'e']
            } else {
                seq!['f', 'a', 'l', 's', 'e']
            },
        ),
        Status::Volume => None,
        Status::Name => Some(text_or_empty(d.name)),
        Status::Desc => Some(text_or_empty(d.description)),
    }
}

fn text_of(t: &Option<String>) -> (r: String)
    ensures
        r@ == text_or_empty(*t),
{
    match t {
        Some(s) => s.clone(),
        None => String::new(),
    }
}

/// The text that a status query prints for device `d`.
pub fn status_text(d: &Device, status: Status) -> (r: Option<String>)
    ensures
        r matches Some(t) ==> status_chars(*d, status) == Some(t@),
        r is None <==> status_chars(*d, status) is None,
{
    match status {
        Status::Muted => {
            let t = if d.mute {
                let t = String::from_str("true");
                proof {
                    reveal_strlit("true");
                }
                assert(t@ =~= seq!['t', 'r', 'u', 'e']);
                t
            } else {
                let t = String::from_str("false");
                proof {
                    reveal_strlit("false");
                }
                assert(t@ =~= seq!['f', 'a', 'l', 's', 'e']);
                t
            };
            Some(t)
        },
        Status::Volume => None,
        Status::Name => Some(text_of(&d.name)),
        Status::Desc => Some(text_of(&d.description)),
    }
}

impl DeviceCatalog {
    /// The position of the device that a status query reports on: the one that
    /// carries the remembered index.
    pub fn status_device(&self, persisted: Option<u32>) -> (r: Result<usize, StatusError>)
        requires
            self.wf(),
        ensures
            persisted is None ==> r == Err::<usize, StatusError>(StatusError::Unset),
            r matches Ok(p) ==> p < self@.len() && persisted == Some(self@[p as int].index),
            r matches Err(StatusError::UnknownDevice(i)) ==> {
                &&& persisted == Some(i)
                &&& forall|p: int| 0 <= p < self@.len() ==> self@[p].index != i
            },
            r matches Err(StatusError::Unset) ==> persisted is None,
            persisted matches Some(i) ==> (r is Ok <==> exists|p: int|
                0 <= p < self@.len() && self@[p].index == i),
    {
        match persisted {
            None => Err(StatusError::Unset),
            Some(i) => match self.by_index(i) {
                Some(p) => Ok(p),
                None => Err(StatusError::UnknownDevice(i)),
            },
        }
    }
}

} // verus!
