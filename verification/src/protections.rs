use vstd::prelude::*;

verus! {

/// Memory protection flags.
///
/// A closed set of portable protection states. Each state has exactly one
/// native bit pattern; an unrecognized native value decodes to `Invalid`,
/// a lossy one-directional fallback that never encodes back to a specific
/// native value.
#[derive(Clone, Copy, Debug, PartialEq, Eq, Structural)]
pub enum Protections {
    /// memory in the page can execute
    Execute,
    /// memory can be read and executed
    ExecuteRead,
    /// memory can be read, written, and executed
    ExecuteReadWrite,
    /// execute with copy-on-write
    ExecuteWriteCopy,
    /// no permissions
    NoAccess,
    /// only read access
    ReadOnly,
    /// can read or write
    ReadWrite,
    /// copy-on-write
    WriteCopy,
    /// control-flow targets in the page are invalid
    TargetInvalid,
    /// protection changes leave control-flow targets untouched
    TargetNoUpdate,
    /// invalid protection
    Invalid,
}

impl Protections {
    /// The native bit pattern of this state. Total and injective across the
    /// valid states; `Invalid` alone encodes to zero.
    pub open spec fn bits(self) -> u32 {
        match self {
            Protections::Execute => 0x10,
            Protections::ExecuteRead => 0x20,
            Protections::ExecuteReadWrite => 0x40,
            Protections::ExecuteWriteCopy => 0x80,
            Protections::NoAccess => 0x01,
            Protections::ReadOnly => 0x02,
            Protections::ReadWrite => 0x04,
            Protections::WriteCopy => 0x08,
            Protections::TargetInvalid => 0x40000000,
            Protections::TargetNoUpdate => 0x80000000,
            Protections::Invalid => 0x0,
        }
    }

    /// The state a native bit pattern decodes to. Total but not injective:
    /// every unmapped value collapses to `Invalid`.
    pub open spec fn from_bits(v: u32) -> Protections {
        if v == 0x10 {
            Protections::Execute
        } else if v == 0x20 {
            Protections::ExecuteRead
        } else if v == 0x40 {
            Protections::ExecuteReadWrite
        } else if v == 0x80 {
            Protections::ExecuteWriteCopy
        } else if v == 0x01 {
            Protections::NoAccess
        } else if v == 0x02 {
            Protections::ReadOnly
        } else if v == 0x04 {
            Protections::ReadWrite
        } else if v == 0x08 {
            Protections::WriteCopy
        } else if v == 0x40000000 {
            Protections::TargetInvalid
        } else if v == 0x80000000 {
            Protections::TargetNoUpdate
        } else {
            Protections::Invalid
        }
    }

    /// Whether a region under this protection may be read.
    pub open spec fn spec_readable(self) -> bool {
        match self {
            Protections::ExecuteRead => true,
            Protections::ExecuteReadWrite => true,
            Protections::ExecuteWriteCopy => true,
            Protections::ReadOnly => true,
            Protections::ReadWrite => true,
            Protections::WriteCopy => true,
            _ => false,
        }
    }

    /// Whether a region under this protection may be written.
    pub open spec fn spec_writable(self) -> bool {
        match self {
            Protections::ExecuteReadWrite => true,
            Protections::ExecuteWriteCopy => true,
            Protections::ReadWrite => true,
            Protections::WriteCopy => true,
            _ => false,
        }
    }

    /// convert into u32
    pub fn u32(&self) -> (r: u32)
        ensures
            r == self.bits(),
    {
        match self {
            Protections::Execute => 0x10,
            Protections::ExecuteRead => 0x20,
            Protections::ExecuteReadWrite => 0x40,
            Protections::ExecuteWriteCopy => 0x80,
            Protections::NoAccess => 0x01,
            Protections::ReadOnly => 0x02,
            Protections::ReadWrite => 0x04,
            Protections::WriteCopy => 0x08,
            Protections::TargetInvalid => 0x40000000,
            Protections::TargetNoUpdate => 0x80000000,
            Protections::Invalid => 0x0,
        }
    }

    /// convert into the native encoding
    pub fn native(&self) -> (r: u32)
        ensures
            r == self.bits(),
    {
        self.u32()
    }

    /// decode a native value; unmapped values yield `Invalid` rather than
    /// an error, so protection decoding can never fail a query
    pub fn from_native(v: u32) -> (r: Protections)
        ensures
            r == Protections::from_bits(v),
    {
        match v {
            0x10 => Protections::Execute,
            0x20 => Protections::ExecuteRead,
            0x40 => Protections::ExecuteReadWrite,
            0x80 => Protections::ExecuteWriteCopy,
            0x01 => Protections::NoAccess,
            0x02 => Protections::ReadOnly,
            0x04 => Protections::ReadWrite,
            0x08 => Protections::WriteCopy,
            0x40000000 => Protections::TargetInvalid,
            0x80000000 => Protections::TargetNoUpdate,
            _ => Protections::Invalid,
        }
    }

    /// whether the protection admits reads
    pub fn is_readable(&self) -> (r: bool)
        ensures
            r == self.spec_readable(),
    {
        match self {
            Protections::ExecuteRead => true,
            Protections::ExecuteReadWrite => true,
            Protections::ExecuteWriteCopy => true,
            Protections::ReadOnly => true,
            Protections::ReadWrite => true,
            Protections::WriteCopy => true,
            _ => false,
        }
    }

    /// whether the protection admits writes
    pub fn is_writable(&self) -> (r: bool)
        ensures
            r == self.spec_writable(),
    {
        match self {
            Protections::ExecuteReadWrite => true,
            Protections::ExecuteWriteCopy => true,
            Protections::ReadWrite => true,
            Protections::WriteCopy => true,
            _ => false,
        }
    }

    /// The display text of this state.
    pub open spec fn describe_spec(self) -> Seq<char> {
        match self {
            Protections::Execute => "Execute"@,
            Protections::ExecuteRead => "ExecuteRead"@,
            Protections::ExecuteReadWrite => "ExecuteReadWrite"@,
            Protections::ExecuteWriteCopy => "ExecuteWriteCopy"@,
            Protections::NoAccess => "NoAccess"@,
            Protections::ReadOnly => "ReadOnly"@,
            Protections::ReadWrite => "ReadWrite"@,
            Protections::WriteCopy => "WriteCopy"@,
            Protections::TargetInvalid => "TargetInvalid"@,
            Protections::TargetNoUpdate => "TargetNoUpdate"@,
            Protections::Invalid => "Invalid"@,
        }
    }

    /// the display text of this state
    pub fn describe(&self) -> (s: String)
        ensures
            s@ == self.describe_spec(),
    {
        match self {
            Protections::Execute => "Execute".to_owned(),
            Protections::ExecuteRead => "ExecuteRead".to_owned(),
            Protections::ExecuteReadWrite => "ExecuteReadWrite".to_owned(),
            Protections::ExecuteWriteCopy => "ExecuteWriteCopy".to_owned(),
            Protections::NoAccess => "NoAccess".to_owned(),
            Protections::ReadOnly => "ReadOnly".to_owned(),
            Protections::ReadWrite => "ReadWrite".to_owned(),
            Protections::WriteCopy => "WriteCopy".to_owned(),
            Protections::TargetInvalid => "TargetInvalid".to_owned(),
            Protections::TargetNoUpdate => "TargetNoUpdate".to_owned(),
            Protections::Invalid => "Invalid".to_owned(),
        }
    }
}

/// Law: every protection state except `Invalid` survives the round trip
/// through its native encoding.
pub proof fn lemma_native_roundtrip(p: Protections)
    requires
        p != Protections::Invalid,
    ensures
        Protections::from_bits(p.bits()) == p,
{
}

} // verus!
