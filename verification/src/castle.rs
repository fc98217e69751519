//! Castling permissions, kept as a 4-bit flag set.

use vstd::prelude::*;

verus! {

/// A set of castling permissions: one bit per color and board side.
#[derive(Clone, Copy, Debug, PartialEq, Eq, Structural)]
pub struct CastleRights(u8);

impl CastleRights {
    /// The underlying flag bits.
    pub closed spec fn bits(self) -> u8 {
        self.0
    }

    /// True when the white kingside flag is set.
    pub open spec fn has_white_ks(self) -> bool {
        self.bits() & 0x01 == 0x01
    }

    /// True when the white queenside flag is set.
    pub open spec fn has_white_qs(self) -> bool {
        self.bits() & 0x02 == 0x02
    }

    /// True when the black kingside flag is set.
    pub open spec fn has_black_ks(self) -> bool {
        self.bits() & 0x04 == 0x04
    }

    /// True when the black queenside flag is set.
    pub open spec fn has_black_qs(self) -> bool {
        self.bits() & 0x08 == 0x08
    }

    /// True when every flag of `flag` is also set in `self`.
    pub open spec fn spec_contains(self, flag: Self) -> bool {
        self.bits() & flag.bits() == flag.bits()
    }

    /// No castling rights at all.
    pub fn no_rights() -> (r: Self)
        ensures
            r.bits() == 0x00,
    {
        Self(0x00)
    }

    /// White pieces kingside castling.
    pub fn white_ks() -> (r: Self)
        ensures
            r.bits() == 0x01,
    {
        Self(0x01)
    }

    /// White pieces queenside castling.
    pub fn white_qs() -> (r: Self)
        ensures
            r.bits() == 0x02,
    {
        Self(0x02)
    }

    /// Black pieces kingside castling.
    pub fn black_ks() -> (r: Self)
        ensures
            r.bits() == 0x04,
    {
        Self(0x04)
    }

    /// Black pieces queenside castling.
    pub fn black_qs() -> (r: Self)
        ensures
            r.bits() == 0x08,
    {
        Self(0x08)
    }

    /// Both colors have all castling rights.
    pub fn all() -> (r: Self)
        ensures
            r.bits() == 0x0f,
    {
        Self(0x0f)
    }

    /// Returns `true` when every flag of `flag` is also set in `self`.
    pub fn contains(self, flag: Self) -> (r: bool)
        ensures
            r == self.spec_contains(flag),
    {
        self.0 & flag.0 == flag.0
    }

    /// Returns the union of the two flag sets.
    pub fn union(self, rhs: Self) -> (r: Self)
        ensures
            r.bits() == self.bits() | rhs.bits(),
    {
        Self(self.0 | rhs.0)
    }
}

} // verus!
