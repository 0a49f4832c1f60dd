//! Mapping a block author's roster position, as recovered by a consensus
//! engine from the block's digests, to the validator id registered at that
//! position of the current session.
use vstd::prelude::*;

use crate::ValidatorId;
use crate::session::Session;

verus! {

/// Wraps the author-scraping step of consensus engines that report the
/// canonical position of a block's author: the position is turned into the
/// validator id active at it.
pub struct FindAccountFromAuthorIndex;

impl FindAccountFromAuthorIndex {
    /// The validator at the reported roster position, if the inner engine
    /// reported one and the position is within the active roster.
    pub fn find_author(session: &Session, author_index: Option<u32>) -> (r: Option<ValidatorId>)
        ensures
            r == match author_index {
                Some(i) => if i < session@.validators.len() {
                    Some(session@.validators[i as int])
                } else {
                    None
                },
                None => None,
            },
    {
        let i = match author_index {
            Some(i) => i,
            None => {
                return None;
            },
        };
        if (i as usize) < session.validators.len() {
            Some(session.validators[i as usize])
        } else {
            None
        }
    }
}

} // verus!
