//! The classes that files are sorted into by their size.

use vstd::prelude::*;

verus! {

/// A class of file sizes.
#[derive(Debug, Clone, Copy, PartialEq, Eq, Structural)]
pub enum SizeClass {
    /// Up to 1 KiB.
    Tiny,
    /// Above 1 KiB, up to 100 KiB.
    Small,
    /// Above 100 KiB, up to 1 MiB.
    Medium,
    /// Above 1 MiB, up to 10 MiB.
    Large,
    /// Above 10 MiB, up to 100 MiB.
    Huge,
    /// Above 100 MiB.
    Gigantic,
}

/// The class of a size.
pub open spec fn class_of(size: u64) -> SizeClass {
    if size <= 1024 {
        SizeClass::Tiny
    } else if size <= 102400 {
        SizeClass::Small
    } else if size <= 1048576 {
        SizeClass::Medium
    } else if size <= 10485760 {
        SizeClass::Large
    } else if size <= 104857600 {
        SizeClass::Huge
    } else {
        SizeClass::Gigantic
    }
}

impl SizeClass {
    /// The place of the class among the six, from the smallest sizes up.
    pub open spec fn rank(self) -> nat {
        match self {
            SizeClass::Tiny => 0,
            SizeClass::Small => 1,
            SizeClass::Medium => 2,
            SizeClass::Large => 3,
            SizeClass::Huge => 4,
            SizeClass::Gigantic => 5,
        }
    }

    /// The name of the directory that files of the class are organized into.
    pub open spec fn folder_name(self) -> Seq<char> {
        match self {
            SizeClass::Tiny => "tiny (0-1KB)"@,
            SizeClass::Small => "small (1KB-100KB)"@,
            SizeClass::Medium => "medium (100KB-1MB)"@,
            SizeClass::Large => "large (1MB-10MB)"@,
            SizeClass::Huge => "huge (10MB-100MB)"@,
            SizeClass::Gigantic => "gigantic (100MB+)"@,
        }
    }

    /// The range of the class as statistics show it.
    pub open spec fn range_name(self) -> Seq<char> {
        match self {
            SizeClass::Tiny => "0-1KB"@,
            SizeClass::Small => "1KB-100KB"@,
            SizeClass::Medium => "100KB-1MB"@,
            SizeClass::Large => "1MB-10MB"@,
            SizeClass::Huge => "10MB-100MB"@,
            SizeClass::Gigantic => "100MB+"@,
        }
    }

    /// The class of a file of `size` bytes.
    pub fn of(size: u64) -> (class: SizeClass)
        ensures
            class == class_of(size),
    {
        if size <= 1024 {
            SizeClass::Tiny
        } else if size <= 102400 {
            SizeClass::Small
        } else if size <= 1048576 {
            SizeClass::Medium
        } else if size <= 10485760 {
            SizeClass::Large
        } else if size <= 104857600 {
            SizeClass::Huge
        } else {
            SizeClass::Gigantic
        }
    }

    /// The place of the class among the six, from the smallest sizes up.
    pub fn index(self) -> (i: usize)
        ensures
            i == self.rank(),
            i < 6,
    {
        match self {
            SizeClass::Tiny => 0,
            SizeClass::Small => 1,
            SizeClass::Medium => 2,
            SizeClass::Large => 3,
            SizeClass::Huge => 4,
            SizeClass::Gigantic => 5,
        }
    }

    /// The name of the directory that files of the class are organized into.
    pub fn folder(self) -> (name: &'static str)
        ensures
            name@ == self.folder_name(),
    {
        match self {
            SizeClass::Tiny => "tiny (0-1KB)",
            SizeClass::Small => "small (1KB-100KB)",
            SizeClass::Medium => "medium (100KB-1MB)",
            SizeClass::Large => "large (1MB-10MB)",
            SizeClass::Huge => "huge (10MB-100MB)",
            SizeClass::Gigantic => "gigantic (100MB+)",
        }
    }

    /// The range of the class as statistics show it.
    pub fn range(self) -> (name: &'static str)
        ensures
            name@ == self.range_name(),
    {
        match self {
            SizeClass::Tiny => "0-1KB",
            SizeClass::Small => "1KB-100KB",
            SizeClass::Medium => "100KB-1MB",
            SizeClass::Large => "1MB-10MB",
            SizeClass::Huge => "10MB-100MB",
            SizeClass::Gigantic => "100MB+",
        }
    }
}

/// The classes in order, from the smallest sizes up.
pub fn all_classes() -> (classes: Vec<SizeClass>)
    ensures
        classes.len() == 6,
        forall|i: int| 0 <= i < 6 ==> (#[trigger] classes[i]).rank() == i,
{
    vec![
        SizeClass::Tiny,
        SizeClass::Small,
        SizeClass::Medium,
        SizeClass::Large,
        SizeClass::Huge,
        SizeClass::Gigantic,
    ]
}

/// A larger file is never in a class of smaller files.
pub proof fn law_classes_ascend(a: u64, b: u64)
    requires
        a <= b,
    ensures
        class_of(a).rank() <= class_of(b).rank(),
{
}

} // verus!
