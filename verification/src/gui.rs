//! Widget-facing layer: the service trait and the button widget.

pub mod button;

use crate::msgqueue::ServiceId;
use vstd::prelude::*;

verus! {

/// A service-backed entity: anything that can name the service identity its
/// state lives under.
pub trait IService {
    /// The identity of the service backing this entity.
    spec fn sid_spec(&self) -> u64;

    /// A handle to the service backing this entity.
    fn service_id(&self) -> (r: ServiceId)
        ensures
            r@ == self.sid_spec(),
    ;
}

} // verus!
