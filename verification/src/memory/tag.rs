//! The two tags that bound the use of a handle.

use vstd::prelude::*;

verus! {

/// Names the scope during which a handle may be used.
///
/// Every scope gets a tag of its own when it is opened, and no tag is given out twice. Tag zero
/// names the permanent scope, which is never closed.
#[derive(Clone, Copy, Debug, PartialEq, Eq, Structural)]
pub struct ScopeTag(pub u64);

impl ScopeTag {
    /// The tag of values that the foreign runtime never reclaims.
    pub fn permanent() -> (tag: ScopeTag)
        ensures
            tag == ScopeTag(0),
    {
        ScopeTag(0)
    }

    /// Whether this is the tag of the permanent scope.
    pub open spec fn is_permanent(self) -> bool {
        self.0 == 0
    }
}

/// Names the host memory that a foreign value may alias.
#[derive(Clone, Copy, Debug, PartialEq, Eq, Structural)]
pub enum DataTag {
    /// The value aliases no host memory.
    Owned,
    /// The value may alias the host buffer with this number.
    Borrowed(u64),
    /// The value may alias more than one host buffer.
    Mixed,
}

impl DataTag {
    /// The tag of a value that may alias whatever `self` or `other` may alias.
    pub open spec fn join(self, other: DataTag) -> DataTag {
        match (self, other) {
            (DataTag::Owned, _) => other,
            (_, DataTag::Owned) => self,
            (DataTag::Borrowed(a), DataTag::Borrowed(b)) => if a == b {
                self
            } else {
                DataTag::Mixed
            },
            _ => DataTag::Mixed,
        }
    }

    /// The tag of a value that may alias whatever `self` or `other` may alias.
    pub fn merge(self, other: DataTag) -> (tag: DataTag)
        ensures
            tag == self.join(other),
    {
        match (self, other) {
            (DataTag::Owned, _) => other,
            (_, DataTag::Owned) => self,
            (DataTag::Borrowed(a), DataTag::Borrowed(b)) => if a == b {
                self
            } else {
                DataTag::Mixed
            },
            _ => DataTag::Mixed,
        }
    }
}

} // verus!
