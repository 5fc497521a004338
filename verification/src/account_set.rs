//! A parent–child relation between organizations, for account-set
//! collaborators that track delegation.

use vstd::prelude::*;

verus! {

/// One edge of the organization hierarchy: `child` acts on behalf of
/// `parent`.
#[derive(PartialEq, Eq, Clone, Copy)]
pub struct Relation<OrgId> {
    pub parent: OrgId,
    pub child: OrgId,
}

} // verus!
