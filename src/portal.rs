//! A portal joins one tile of a zone to one tile of another zone.
use vstd::prelude::*;

use crate::world::{TraversalDirection, WorldError};

verus! {

/// An undirected link between two zones. Each side records its zone and the
/// direction in which a walker leaves that side through the portal.
#[derive(Clone, Copy, Debug, PartialEq, Eq, Structural)]
pub struct Portal {
    pub id: u128,
    pub a_zid: u128,
    pub a_exit: TraversalDirection,
    pub b_zid: u128,
    pub b_exit: TraversalDirection,
}

/// Two exit directions suit one portal when both are cardinal and opposite.
pub open spec fn exits_match(ae: TraversalDirection, bx: TraversalDirection) -> bool {
    ae.is_cardinal() && bx == ae.spec_opposite()
}

impl Portal {
    /// The portal's exits are cardinal and opposite.
    pub open spec fn wf(&self) -> bool {
        exits_match(self.a_exit, self.b_exit)
    }

    /// The far side seen from zone `zid`: the other zone and the direction in
    /// which one leaves `zid` through this portal.
    pub open spec fn spec_info_from(&self, zid: u128) -> Result<(u128, TraversalDirection), WorldError> {
        if self.a_zid == zid {
            Ok((self.b_zid, self.a_exit))
        } else if self.b_zid == zid {
            Ok((self.a_zid, self.b_exit))
        } else {
            Err(WorldError::PortalZoneMismatch)
        }
    }

    pub fn new(
        id: u128,
        a_zid: u128,
        ae: TraversalDirection,
        b_zid: u128,
        bx: TraversalDirection,
    ) -> (r: Result<Portal, WorldError>)
        ensures
            exits_match(ae, bx) ==> r == Ok::<Portal, WorldError>(
                (Portal { id, a_zid, a_exit: ae, b_zid, b_exit: bx }),
            ),
            !exits_match(ae, bx) ==> r == Err::<Portal, WorldError>(
                WorldError::PortalDirectionMismatch,
            ),
    {
        let ok = match ae {
            TraversalDirection::NoDirection => false,
            _ => bx == ae.opposite(),
        };
        if ok {
            Ok(Portal { id, a_zid, a_exit: ae, b_zid, b_exit: bx })
        } else {
            Err(WorldError::PortalDirectionMismatch)
        }
    }

    pub fn info_from(&self, zid: u128) -> (r: Result<(u128, TraversalDirection), WorldError>)
        ensures
            r == self.spec_info_from(zid),
    {
        if self.a_zid == zid {
            Ok((self.b_zid, self.a_exit))
        } else if self.b_zid == zid {
            Ok((self.a_zid, self.b_exit))
        } else {
            Err(WorldError::PortalZoneMismatch)
        }
    }
}

} // verus!
