//! Sizes in KiB, and the unit to show them in.
use vstd::prelude::*;

verus! {

/// One MiB in KiB.
pub const MIB_OVER_KIB: i64 = 1_024;

/// One GiB in KiB.
pub const GIB_OVER_KIB: i64 = 1_048_576;

/// One TiB in KiB.
pub const TIB_OVER_KIB: i64 = 1_073_741_824;

/// What has to be left, in KiB, on the side that grows: 10 MiB.
pub const FILE_SPACE_BUFFER: i64 = 10_240;

/// A unit to show a size in.
#[derive(Debug, Clone, Copy, PartialEq, Eq, Structural)]
pub enum FilesizeType {
    Kibibyte,
    Mebibyte,
    Gibibyte,
    Tebibyte,
}

impl FilesizeType {
    /// The unit in KiB.
    pub open spec fn kib(self) -> int {
        match self {
            FilesizeType::Kibibyte => 1,
            FilesizeType::Mebibyte => 1_024,
            FilesizeType::Gibibyte => 1_048_576,
            FilesizeType::Tebibyte => 1_073_741_824,
        }
    }

    /// The sign of the unit.
    pub fn display(&self) -> (out: String)
        ensures
            out@ == match *self {
                FilesizeType::Kibibyte => "KiB"@,
                FilesizeType::Mebibyte => "MiB"@,
                FilesizeType::Gibibyte => "GiB"@,
                FilesizeType::Tebibyte => "TiB"@,
            },
    {
        match self {
            FilesizeType::Kibibyte => "KiB".to_owned(),
            FilesizeType::Mebibyte => "MiB".to_owned(),
            FilesizeType::Gibibyte => "GiB".to_owned(),
            FilesizeType::Tebibyte => "TiB".to_owned(),
        }
    }

    /// What a size in KiB is divided by to give it in this unit.
    pub fn divisor(&self) -> (n: i64)
        ensures
            n == self.kib(),
    {
        match self {
            FilesizeType::Kibibyte => 1,
            FilesizeType::Mebibyte => MIB_OVER_KIB,
            FilesizeType::Gibibyte => GIB_OVER_KIB,
            FilesizeType::Tebibyte => TIB_OVER_KIB,
        }
    }
}

/// The magnitude of a number.
pub open spec fn magnitude(n: int) -> int {
    if n < 0 {
        -n
    } else {
        n
    }
}

/// The largest unit that a size, in KiB, has at least one of; KiB where it has
/// none of any.
pub open spec fn unit_of(size: int) -> FilesizeType {
    if magnitude(size) < FilesizeType::Mebibyte.kib() {
        FilesizeType::Kibibyte
    } else if magnitude(size) < FilesizeType::Gibibyte.kib() {
        FilesizeType::Mebibyte
    } else if magnitude(size) < FilesizeType::Tebibyte.kib() {
        FilesizeType::Gibibyte
    } else {
        FilesizeType::Tebibyte
    }
}

/// The unit to show a size in KiB in. The sign of the size does not count.
pub fn filesize_type(input: i64) -> (unit: FilesizeType)
    ensures
        unit == unit_of(input as int),
{
    if -MIB_OVER_KIB < input && input < MIB_OVER_KIB {
        FilesizeType::Kibibyte
    } else if -GIB_OVER_KIB < input && input < GIB_OVER_KIB {
        FilesizeType::Mebibyte
    } else if -TIB_OVER_KIB < input && input < TIB_OVER_KIB {
        FilesizeType::Gibibyte
    } else {
        FilesizeType::Tebibyte
    }
}

/// Whether `free_space` holds `addition` and still leaves the buffer, all in
/// KiB.
pub fn check_enough_space(addition: i64, free_space: i64) -> (enough: bool)
    requires
        FILE_SPACE_BUFFER + addition <= i64::MAX,
    ensures
        enough == (free_space - addition >= FILE_SPACE_BUFFER),
{
    free_space >= FILE_SPACE_BUFFER + addition
}

/// A size and what it is taken off have the same unit.
pub proof fn law_unit_ignores_sign(size: int)
    ensures
        unit_of(-size) == unit_of(size),
{
}

/// A size in its unit is less than the next unit, and at least one where there
/// is a smaller unit.
pub proof fn law_unit_suits(size: int)
    ensures
        unit_of(size) != FilesizeType::Kibibyte ==> magnitude(size) >= unit_of(size).kib(),
        unit_of(size) != FilesizeType::Tebibyte ==> magnitude(size) < 1_024 * unit_of(size).kib(),
{
}

/// Each unit is 1024 of the one before it, the first is one KiB, and ten MiB
/// have to be left.
pub proof fn law_units()
    ensures
        FilesizeType::Kibibyte.kib() == 1,
        FilesizeType::Mebibyte.kib() == 1_024 * FilesizeType::Kibibyte.kib(),
        FilesizeType::Gibibyte.kib() == 1_024 * FilesizeType::Mebibyte.kib(),
        FilesizeType::Tebibyte.kib() == 1_024 * FilesizeType::Gibibyte.kib(),
        FILE_SPACE_BUFFER == 10 * FilesizeType::Mebibyte.kib(),
{
}

/// A larger size never has a smaller unit.
pub proof fn law_unit_grows(small: int, large: int)
    requires
        magnitude(small) <= magnitude(large),
    ensures
        unit_of(small).kib() <= unit_of(large).kib(),
{
}

} // verus!
