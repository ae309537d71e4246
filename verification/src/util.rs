//! Sizes in the units in which they are shown.

use vstd::prelude::*;

verus! {

/// The number of bytes in a kilobyte, and of each unit in the next.
pub const BASE_UNIT: u64 = 1024;

/// A unit in which sizes are shown.
#[derive(Debug, Copy, Clone, PartialEq, Eq, Structural)]
pub enum Unit {
    Bytes,
    Kilobytes,
    Megabytes,
    Gigabytes,
    Terabytes,
}

impl Unit {
    /// The number of bytes in the unit.
    pub open spec fn threshold(self) -> u64 {
        match self {
            Unit::Bytes => 1,
            Unit::Kilobytes => 1024,
            Unit::Megabytes => 0x10_0000,
            Unit::Gigabytes => 0x4000_0000,
            Unit::Terabytes => 0x100_0000_0000,
        }
    }
}

/// The unit in which a size is shown: the largest one that the size
/// reaches, and bytes for a size of nothing.
pub open spec fn unit_of(bytes: u64) -> Unit {
    if bytes >= Unit::Terabytes.threshold() {
        Unit::Terabytes
    } else if bytes >= Unit::Gigabytes.threshold() {
        Unit::Gigabytes
    } else if bytes >= Unit::Megabytes.threshold() {
        Unit::Megabytes
    } else if bytes >= Unit::Kilobytes.threshold() {
        Unit::Kilobytes
    } else {
        Unit::Bytes
    }
}

/// The unit in which a size is shown, with the number of bytes in the unit
/// and the letter that stands for it.
pub fn formatted_unit(bytes: u64) -> (shown: (Unit, u64, &'static str))
    ensures
        shown.0 == unit_of(bytes),
        shown.1 == unit_of(bytes).threshold(),
        shown.1 > 0,
        shown.2@ == match unit_of(bytes) {
            Unit::Bytes => "B"@,
            Unit::Kilobytes => "K"@,
            Unit::Megabytes => "M"@,
            Unit::Gigabytes => "G"@,
            Unit::Terabytes => "T"@,
        },
{
    let kilo = BASE_UNIT;
    let mega = kilo * BASE_UNIT;
    let giga = mega * BASE_UNIT;
    let tera = giga * BASE_UNIT;
    if bytes >= tera {
        (Unit::Terabytes, tera, "T")
    } else if bytes >= giga {
        (Unit::Gigabytes, giga, "G")
    } else if bytes >= mega {
        (Unit::Megabytes, mega, "M")
    } else if bytes >= kilo {
        (Unit::Kilobytes, kilo, "K")
    } else {
        (Unit::Bytes, 1, "B")
    }
}

} // verus!
