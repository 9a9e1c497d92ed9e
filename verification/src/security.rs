//! The permission bits of a filesystem entry.

use vstd::prelude::*;

verus! {

/// The bit that grants reading.
pub const READ: u8 = 1;

/// The bit that grants writing.
pub const WRITE: u8 = 2;

/// The bit that grants execution.
pub const EXECUTE: u8 = 4;

/// A named set of permissions.
#[derive(Debug, Clone, Copy, PartialEq, Eq, Structural)]
pub enum SecurityMode {
    Read,
    Write,
    Execute,
    RW,
    All,
}

impl SecurityMode {
    /// The bits of the mode.
    pub open spec fn bits(self) -> u8 {
        match self {
            SecurityMode::Read => 1,
            SecurityMode::Write => 2,
            SecurityMode::Execute => 4,
            SecurityMode::RW => 3,
            SecurityMode::All => 7,
        }
    }

    /// The bits of the mode.
    pub fn mask(self) -> (r: u8)
        ensures
            r == self.bits(),
    {
        match self {
            SecurityMode::Read => 1,
            SecurityMode::Write => 2,
            SecurityMode::Execute => 4,
            SecurityMode::RW => 3,
            SecurityMode::All => 7,
        }
    }
}

/// A set of the permissions read, write and execute, held as a bit mask.
#[derive(Debug, Clone, Copy, PartialEq, Eq, Structural)]
pub struct Security {
    pub mask: u8,
}

impl Security {
    /// Whether every bit of `mode` is set.
    pub open spec fn has(self, mode: SecurityMode) -> bool {
        self.mask & mode.bits() == mode.bits()
    }

    /// The three characters that show the set: `r`, `w` and `x` where the
    /// permission is granted, `-` where it is not.
    pub open spec fn text(self) -> Seq<char> {
        seq![
            if self.has(SecurityMode::Read) { 'r' } else { '-' },
            if self.has(SecurityMode::Write) { 'w' } else { '-' },
            if self.has(SecurityMode::Execute) { 'x' } else { '-' },
        ]
    }

    /// The set that holds exactly the permissions of `mode`.
    pub open spec fn of(mode: SecurityMode) -> Security {
        Security { mask: mode.bits() }
    }

    /// The permissions of a mode.
    pub fn from_mode(mode: SecurityMode) -> (r: Self)
        ensures
            r == Security::of(mode),
    {
        Security { mask: mode.mask() }
    }

    /// Whether every permission of `mode` is granted.
    pub fn contains(&self, mode: SecurityMode) -> (r: bool)
        ensures
            r == self.has(mode),
    {
        let bits: u8 = mode.mask();
        self.mask & bits == bits
    }

    /// The set as three characters, as a directory listing shows it.
    pub fn to_string(&self) -> (r: String)
        ensures
            r@ == self.text(),
    {
        let mut out = String::new();
        out.push(if self.contains(SecurityMode::Read) { 'r' } else { '-' });
        out.push(if self.contains(SecurityMode::Write) { 'w' } else { '-' });
        out.push(if self.contains(SecurityMode::Execute) { 'x' } else { '-' });
        assert(out@ =~= self.text());
        out
    }
}

/// Read and write together grant reading and writing and nothing else; the
/// other modes grant what their names say.
pub proof fn lemma_mode_grants()
    ensures
        Security::of(SecurityMode::RW).text() == seq!['r', 'w', '-'],
        Security::of(SecurityMode::Read).text() == seq!['r', '-', '-'],
        Security::of(SecurityMode::Write).text() == seq!['-', 'w', '-'],
        Security::of(SecurityMode::Execute).text() == seq!['-', '-', 'x'],
        Security::of(SecurityMode::All).text() == seq!['r', 'w', 'x'],
{
    assert(3u8 & 1u8 == 1u8 && 3u8 & 2u8 == 2u8 && 3u8 & 4u8 == 0u8) by (bit_vector);
    assert(1u8 & 1u8 == 1u8 && 1u8 & 2u8 == 0u8 && 1u8 & 4u8 == 0u8) by (bit_vector);
    assert(2u8 & 1u8 == 0u8 && 2u8 & 2u8 == 2u8 && 2u8 & 4u8 == 0u8) by (bit_vector);
    assert(4u8 & 1u8 == 0u8 && 4u8 & 2u8 == 0u8 && 4u8 & 4u8 == 4u8) by (bit_vector);
    assert(7u8 & 1u8 == 1u8 && 7u8 & 2u8 == 2u8 && 7u8 & 4u8 == 4u8) by (bit_vector);
    assert(Security::of(SecurityMode::RW).text() =~= seq!['r', 'w', '-']);
    assert(Security::of(SecurityMode::Read).text() =~= seq!['r', '-', '-']);
    assert(Security::of(SecurityMode::Write).text() =~= seq!['-', 'w', '-']);
    assert(Security::of(SecurityMode::Execute).text() =~= seq!['-', '-', 'x']);
    assert(Security::of(SecurityMode::All).text() =~= seq!['r', 'w', 'x']);
}

} // verus!
