//! The Device resource: a grouping inside a Node that owns Senders and Receivers.

use vstd::prelude::*;

use crate::base::dup::{all_same, duplicate_all, Duplicate};
use crate::base::text::chars_of;
use crate::nmos::resource::{ResourceCore, ResourceId};

verus! {

broadcast use vstd::std_specs::vec::group_vec_axioms;

/// A grouping inside a Node, typically one physical port.
#[derive(Debug, Clone)]
pub struct Device {
    /// The fields every NMOS resource carries.
    pub core: ResourceCore,
    /// Device type URN.
    pub kind: String,
    /// The Node that created this Device.
    pub node_id: ResourceId,
    /// Senders attached to the Device (deprecated by IS-04).
    pub senders: Vec<ResourceId>,
    /// Receivers attached to the Device (deprecated by IS-04).
    pub receivers: Vec<ResourceId>,
    /// Control endpoints the Device exposes; where the Connection API base
    /// URL is advertised.
    pub controls: Vec<Control>,
}

/// A control endpoint a Device exposes, such as its Connection API.
#[derive(Debug, Clone)]
pub struct Control {
    /// URL at which the control endpoint is reached.
    pub href: String,
    /// URN identifying the control format.
    pub kind: String,
    /// Whether the endpoint requires authorization.
    pub authorization: bool,
}

impl Duplicate for Control {
    open spec fn same(&self, other: &Self) -> bool {
        self.href@ == other.href@ && self.kind@ == other.kind@ && self.authorization
            == other.authorization
    }

    fn duplicate(&self) -> (r: Self) {
        Control {
            href: self.href.clone(),
            kind: self.kind.clone(),
            authorization: self.authorization,
        }
    }
}

impl Duplicate for Device {
    open spec fn same(&self, other: &Self) -> bool {
        &&& self.core.same(&other.core)
        &&& self.kind@ == other.kind@
        &&& self.node_id@ == other.node_id@
        &&& all_same(self.senders@, other.senders@)
        &&& all_same(self.receivers@, other.receivers@)
        &&& all_same(self.controls@, other.controls@)
    }

    fn duplicate(&self) -> (r: Self) {
        Device {
            core: self.core.duplicate(),
            kind: self.kind.clone(),
            node_id: self.node_id.copy(),
            senders: duplicate_all(&self.senders),
            receivers: duplicate_all(&self.receivers),
            controls: duplicate_all(&self.controls),
        }
    }
}

/// Whether `p` is a prefix of `s`.
pub open spec fn is_prefix(p: Seq<char>, s: Seq<char>) -> bool {
    p.len() <= s.len() && s.subrange(0, p.len() as int) == p
}

/// Whether a text starts with a prefix.
pub fn starts_with(s: &str, p: &str) -> (r: bool)
    ensures
        r == is_prefix(p@, s@),
{
    let x = chars_of(s);
    let y = chars_of(p);
    if y.len() > x.len() {
        return false;
    }
    let mut i: usize = 0;
    while i < y.len()
        invariant
            x@ == s@,
            y@ == p@,
            y@.len() <= x@.len(),
            i <= y@.len(),
            forall|j: int| 0 <= j < i ==> x@[j] == y@[j],
        decreases y@.len() - i,
    {
        if x[i] != y[i] {
            assert(s@.subrange(0, p@.len() as int)[i as int] != p@[i as int]);
            return false;
        }
        i = i + 1;
    }
    assert(s@.subrange(0, p@.len() as int) =~= p@);
    true
}

/// The index of the first control whose type starts with `p`.
pub open spec fn first_control(controls: Seq<Control>, p: Seq<char>) -> int {
    choose|i: int|
        0 <= i < controls.len() && is_prefix(p, controls[i].kind@) && forall|j: int|
            0 <= j < i ==> !is_prefix(p, #[trigger] controls[j].kind@)
}

impl Device {
    /// The href of the first control matching `urn_prefix`, if the Device
    /// advertises one.
    ///
    /// Control URNs carry a version suffix (`.../v1.1`), so callers match on the
    /// prefix and pick the version themselves.
    pub fn control_href(&self, urn_prefix: &str) -> (r: Option<&str>)
        ensures
            r is None <==> forall|i: int|
                0 <= i < self.controls@.len() ==> !is_prefix(
                    urn_prefix@,
                    #[trigger] self.controls@[i].kind@,
                ),
            r matches Some(h) ==> h@ == self.controls@[first_control(
                self.controls@,
                urn_prefix@,
            )].href@,
    {
        let mut i: usize = 0;
        while i < self.controls.len()
            invariant
                i <= self.controls@.len(),
                forall|j: int|
                    0 <= j < i ==> !is_prefix(urn_prefix@, #[trigger] self.controls@[j].kind@),
            decreases self.controls@.len() - i,
        {
            if starts_with(self.controls[i].kind.as_str(), urn_prefix) {
                let ghost f = first_control(self.controls@, urn_prefix@);
                assert(f == i) by {
                    if f < i {
                    } else if f > i {
                    }
                }
                return Some(self.controls[i].href.as_str());
            }
            i = i + 1;
        }
        None
    }
}

} // verus!
