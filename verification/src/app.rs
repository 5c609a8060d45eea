//! Application vocabulary: priority classes, process-list columns and their
//! canonical order, screen tabs, the Setup menu, hit testing of the screen
//! layout, termination requests and cursor movement in edit buffers.

use vstd::prelude::*;
use crate::bytes::str_eq;
use crate::config::{Config, default_columns};
use crate::system::ProcessIdentity;
use crate::text::string_of;
use vstd::utf8::is_char_boundary;
use vstd::string::StringSliceAdditionalSpecFns;

verus! {

// ============================================================================
// Priority classes
// ============================================================================

/// Windows priority classes (ordered from lowest to highest priority)
#[derive(Debug, Clone, Copy, PartialEq, Eq, Structural)]
pub enum WindowsPriorityClass {
    Idle,
    BelowNormal,
    Normal,
    AboveNormal,
    High,
    Realtime,
}

/// The priority classes from lowest to highest.
pub open spec fn priority_classes() -> Seq<WindowsPriorityClass> {
    seq![
        WindowsPriorityClass::Idle,
        WindowsPriorityClass::BelowNormal,
        WindowsPriorityClass::Normal,
        WindowsPriorityClass::AboveNormal,
        WindowsPriorityClass::High,
        WindowsPriorityClass::Realtime,
    ]
}

impl WindowsPriorityClass {
    /// Position of the class in `priority_classes()`.
    pub open spec fn rank(self) -> nat {
        match self {
            WindowsPriorityClass::Idle => 0,
            WindowsPriorityClass::BelowNormal => 1,
            WindowsPriorityClass::Normal => 2,
            WindowsPriorityClass::AboveNormal => 3,
            WindowsPriorityClass::High => 4,
            WindowsPriorityClass::Realtime => 5,
        }
    }

    pub open spec fn spec_name(self) -> Seq<char> {
        match self {
            WindowsPriorityClass::Idle => "Idle"@,
            WindowsPriorityClass::BelowNormal => "Below Normal"@,
            WindowsPriorityClass::Normal => "Normal"@,
            WindowsPriorityClass::AboveNormal => "Above Normal"@,
            WindowsPriorityClass::High => "High"@,
            WindowsPriorityClass::Realtime => "Realtime"@,
        }
    }

    pub open spec fn spec_short_name(self) -> Seq<char> {
        match self {
            WindowsPriorityClass::Idle => "Idle"@,
            WindowsPriorityClass::BelowNormal => "BelowN"@,
            WindowsPriorityClass::Normal => "Normal"@,
            WindowsPriorityClass::AboveNormal => "AboveN"@,
            WindowsPriorityClass::High => "High"@,
            WindowsPriorityClass::Realtime => "Rltm"@,
        }
    }

    pub open spec fn spec_base_priority(self) -> i32 {
        match self {
            WindowsPriorityClass::Idle => 4,
            WindowsPriorityClass::BelowNormal => 6,
            WindowsPriorityClass::Normal => 8,
            WindowsPriorityClass::AboveNormal => 10,
            WindowsPriorityClass::High => 13,
            WindowsPriorityClass::Realtime => 24,
        }
    }

    /// The class of a base priority: 0..=4 Idle, 5..=6 Below Normal,
    /// 7..=9 Normal, 10..=12 Above Normal, 13..=15 High, anything else Realtime.
    pub open spec fn spec_from_base_priority(p: i32) -> WindowsPriorityClass {
        if 0 <= p <= 4 {
            WindowsPriorityClass::Idle
        } else if 5 <= p <= 6 {
            WindowsPriorityClass::BelowNormal
        } else if 7 <= p <= 9 {
            WindowsPriorityClass::Normal
        } else if 10 <= p <= 12 {
            WindowsPriorityClass::AboveNormal
        } else if 13 <= p <= 15 {
            WindowsPriorityClass::High
        } else {
            WindowsPriorityClass::Realtime
        }
    }

    /// The class at `index` in the ordered list, Normal when out of range.
    pub open spec fn spec_from_index(index: int) -> WindowsPriorityClass {
        if 0 <= index < 6 {
            priority_classes()[index]
        } else {
            WindowsPriorityClass::Normal
        }
    }

    /// Get all priority classes in order
    pub fn all() -> (r: &'static [WindowsPriorityClass])
        ensures
            r@ == priority_classes(),
    {
        &[
            WindowsPriorityClass::Idle,
            WindowsPriorityClass::BelowNormal,
            WindowsPriorityClass::Normal,
            WindowsPriorityClass::AboveNormal,
            WindowsPriorityClass::High,
            WindowsPriorityClass::Realtime,
        ]
    }

    /// Display name for the priority class
    pub fn name(&self) -> (r: &'static str)
        ensures
            r@ == self.spec_name(),
    {
        match self {
            WindowsPriorityClass::Idle => "Idle",
            WindowsPriorityClass::BelowNormal => "Below Normal",
            WindowsPriorityClass::Normal => "Normal",
            WindowsPriorityClass::AboveNormal => "Above Normal",
            WindowsPriorityClass::High => "High",
            WindowsPriorityClass::Realtime => "Realtime",
        }
    }

    /// Short display name for column display (max 6 chars)
    pub fn short_name(&self) -> (r: &'static str)
        ensures
            r@ == self.spec_short_name(),
    {
        match self {
            WindowsPriorityClass::Idle => "Idle",
            WindowsPriorityClass::BelowNormal => "BelowN",
            WindowsPriorityClass::Normal => "Normal",
            WindowsPriorityClass::AboveNormal => "AboveN",
            WindowsPriorityClass::High => "High",
            WindowsPriorityClass::Realtime => "Rltm",
        }
    }

    /// Get the typical base priority value for this class (with normal thread priority)
    pub fn base_priority(&self) -> (r: i32)
        ensures
            r == self.spec_base_priority(),
    {
        match self {
            WindowsPriorityClass::Idle => 4,
            WindowsPriorityClass::BelowNormal => 6,
            WindowsPriorityClass::Normal => 8,
            WindowsPriorityClass::AboveNormal => 10,
            WindowsPriorityClass::High => 13,
            WindowsPriorityClass::Realtime => 24,
        }
    }

    /// Convert from index
    pub fn from_index(index: usize) -> (r: WindowsPriorityClass)
        ensures
            r == Self::spec_from_index(index as int),
    {
        let all = Self::all();
        if index < all.len() {
            all[index]
        } else {
            WindowsPriorityClass::Normal
        }
    }

    /// Convert from Windows base priority value (0-31)
    /// Typical values: Idle=4, BelowNormal=6, Normal=8, AboveNormal=10, High=13, Realtime=24
    pub fn from_base_priority(base_priority: i32) -> (r: WindowsPriorityClass)
        ensures
            r == Self::spec_from_base_priority(base_priority),
    {
        if 0 <= base_priority && base_priority <= 4 {
            WindowsPriorityClass::Idle
        } else if 5 <= base_priority && base_priority <= 6 {
            WindowsPriorityClass::BelowNormal
        } else if 7 <= base_priority && base_priority <= 9 {
            WindowsPriorityClass::Normal
        } else if 10 <= base_priority && base_priority <= 12 {
            WindowsPriorityClass::AboveNormal
        } else if 13 <= base_priority && base_priority <= 15 {
            WindowsPriorityClass::High
        } else {
            WindowsPriorityClass::Realtime
        }
    }

    /// Get the index in the all() array
    pub fn index(&self) -> (r: usize)
        ensures
            r == self.rank(),
            priority_classes()[r as int] == *self,
    {
        let all = Self::all();
        let mut i: usize = 0;
        while i < all.len()
            invariant
                all@ == priority_classes(),
                0 <= i <= all.len(),
                forall|j: int| 0 <= j < i ==> all@[j] != *self,
            decreases all.len() - i,
        {
            if all[i] == *self {
                return i;
            }
            i = i + 1;
        }
        assert(all@[self.rank() as int] == *self);
        2
    }
}

/// The ordered list of classes and the position of each class agree.
pub proof fn priority_rank_is_position(c: WindowsPriorityClass)
    ensures
        c.rank() < priority_classes().len(),
        priority_classes()[c.rank() as int] == c,
{
}

/// Looking a class up by its index gives the class back, and the index of
/// the class at a valid position is that position.
pub proof fn priority_index_round_trip(c: WindowsPriorityClass, i: int)
    ensures
        WindowsPriorityClass::spec_from_index(c.rank() as int) == c,
        0 <= i < 6 ==> WindowsPriorityClass::spec_from_index(i).rank() == i,
{
}

/// The typical base priority of every class maps back to that class.
pub proof fn priority_base_round_trip(c: WindowsPriorityClass)
    ensures
        WindowsPriorityClass::spec_from_base_priority(c.spec_base_priority()) == c,
{
}

/// On the base-priority scale (0 upwards) a higher base priority never maps
/// to a lower class.
pub proof fn priority_from_base_is_monotone(p: i32, q: i32)
    requires
        0 <= p <= q,
    ensures
        WindowsPriorityClass::spec_from_base_priority(p).rank()
            <= WindowsPriorityClass::spec_from_base_priority(q).rank(),
{
}

// ============================================================================
// Process-list columns
// ============================================================================

/// Sort column for process list
#[derive(Debug, Clone, Copy, PartialEq, Eq, Structural)]
pub enum SortColumn {
    Pid,
    PPid,
    User,
    Priority,
    PriorityClass,
    Threads,
    Virt,
    Res,
    Shr,
    Status,
    Cpu,
    Mem,
    Time,
    StartTime,
    Command,
    // Windows-specific sort columns
    Elevated,
    Arch,
    Efficiency,
    // I/O columns
    HandleCount,
    IoRate,
    IoReadRate,
    IoWriteRate,
    IoRead,
    IoWrite,
    // GPU columns
    Gpu,
    GpuMem,
    // NPU columns
    Npu,
    NpuMem,
}

/// Canonical display order: identity, scheduling, memory, status, usage
/// (CPU/MEM/GPU/NPU together), I/O, attributes, times, and Command last.
pub open spec fn canonical_columns() -> Seq<SortColumn> {
    seq![
        SortColumn::Pid,
        SortColumn::PPid,
        SortColumn::User,
        SortColumn::Priority,
        SortColumn::PriorityClass,
        SortColumn::Threads,
        SortColumn::Virt,
        SortColumn::Res,
        SortColumn::Shr,
        SortColumn::Status,
        SortColumn::Cpu,
        SortColumn::Mem,
        SortColumn::Gpu,
        SortColumn::GpuMem,
        SortColumn::Npu,
        SortColumn::NpuMem,
        SortColumn::IoRate,
        SortColumn::IoReadRate,
        SortColumn::IoWriteRate,
        SortColumn::IoRead,
        SortColumn::IoWrite,
        SortColumn::HandleCount,
        SortColumn::Elevated,
        SortColumn::Arch,
        SortColumn::Efficiency,
        SortColumn::StartTime,
        SortColumn::Time,
        SortColumn::Command,
    ]
}

/// Column of a header name; "NI" is the legacy name of CLASS.
pub open spec fn column_of_name(s: Seq<char>) -> Option<SortColumn> {
    if s == "PID"@ {
        Some(SortColumn::Pid)
    } else if s == "PPID"@ {
        Some(SortColumn::PPid)
    } else if s == "USER"@ {
        Some(SortColumn::User)
    } else if s == "PRI"@ {
        Some(SortColumn::Priority)
    } else if s == "CLASS"@ {
        Some(SortColumn::PriorityClass)
    } else if s == "NI"@ {
        Some(SortColumn::PriorityClass)
    } else if s == "THR"@ {
        Some(SortColumn::Threads)
    } else if s == "VIRT"@ {
        Some(SortColumn::Virt)
    } else if s == "RES"@ {
        Some(SortColumn::Res)
    } else if s == "SHR"@ {
        Some(SortColumn::Shr)
    } else if s == "S"@ {
        Some(SortColumn::Status)
    } else if s == "CPU%"@ {
        Some(SortColumn::Cpu)
    } else if s == "MEM%"@ {
        Some(SortColumn::Mem)
    } else if s == "TIME+"@ {
        Some(SortColumn::Time)
    } else if s == "START"@ {
        Some(SortColumn::StartTime)
    } else if s == "Command"@ {
        Some(SortColumn::Command)
    } else if s == "ELEV"@ {
        Some(SortColumn::Elevated)
    } else if s == "ARCH"@ {
        Some(SortColumn::Arch)
    } else if s == "ECO"@ {
        Some(SortColumn::Efficiency)
    } else if s == "HNDL"@ {
        Some(SortColumn::HandleCount)
    } else if s == "IO_RATE"@ {
        Some(SortColumn::IoRate)
    } else if s == "IO_R/s"@ {
        Some(SortColumn::IoReadRate)
    } else if s == "IO_W/s"@ {
        Some(SortColumn::IoWriteRate)
    } else if s == "IO_RD"@ {
        Some(SortColumn::IoRead)
    } else if s == "IO_WR"@ {
        Some(SortColumn::IoWrite)
    } else if s == "GPU%"@ {
        Some(SortColumn::Gpu)
    } else if s == "GPU-MEM"@ {
        Some(SortColumn::GpuMem)
    } else if s == "NPU%"@ {
        Some(SortColumn::Npu)
    } else if s == "NPU-MEM"@ {
        Some(SortColumn::NpuMem)
    } else {
        None
    }
}

/// Position of a column name in the canonical order, `usize::MAX` for
/// names that are no column.
pub open spec fn display_rank_of(s: Seq<char>) -> nat {
    match column_of_name(s) {
        Some(c) => c.rank(),
        None => usize::MAX as nat,
    }
}

impl SortColumn {
    /// Position of the column in `canonical_columns()`.
    pub open spec fn rank(self) -> nat {
        match self {
            SortColumn::Pid => 0,
            SortColumn::PPid => 1,
            SortColumn::User => 2,
            SortColumn::Priority => 3,
            SortColumn::PriorityClass => 4,
            SortColumn::Threads => 5,
            SortColumn::Virt => 6,
            SortColumn::Res => 7,
            SortColumn::Shr => 8,
            SortColumn::Status => 9,
            SortColumn::Cpu => 10,
            SortColumn::Mem => 11,
            SortColumn::Gpu => 12,
            SortColumn::GpuMem => 13,
            SortColumn::Npu => 14,
            SortColumn::NpuMem => 15,
            SortColumn::IoRate => 16,
            SortColumn::IoReadRate => 17,
            SortColumn::IoWriteRate => 18,
            SortColumn::IoRead => 19,
            SortColumn::IoWrite => 20,
            SortColumn::HandleCount => 21,
            SortColumn::Elevated => 22,
            SortColumn::Arch => 23,
            SortColumn::Efficiency => 24,
            SortColumn::StartTime => 25,
            SortColumn::Time => 26,
            SortColumn::Command => 27,
        }
    }

    pub open spec fn spec_name(self) -> Seq<char> {
        match self {
            SortColumn::Pid => "PID"@,
            SortColumn::PPid => "PPID"@,
            SortColumn::User => "USER"@,
            SortColumn::Priority => "PRI"@,
            SortColumn::PriorityClass => "CLASS"@,
            SortColumn::Threads => "THR"@,
            SortColumn::Virt => "VIRT"@,
            SortColumn::Res => "RES"@,
            SortColumn::Shr => "SHR"@,
            SortColumn::Status => "S"@,
            SortColumn::Cpu => "CPU%"@,
            SortColumn::Mem => "MEM%"@,
            SortColumn::Time => "TIME+"@,
            SortColumn::StartTime => "START"@,
            SortColumn::Command => "Command"@,
            SortColumn::Elevated => "ELEV"@,
            SortColumn::Arch => "ARCH"@,
            SortColumn::Efficiency => "ECO"@,
            SortColumn::HandleCount => "HNDL"@,
            SortColumn::IoRate => "IO_RATE"@,
            SortColumn::IoReadRate => "IO_R/s"@,
            SortColumn::IoWriteRate => "IO_W/s"@,
            SortColumn::IoRead => "IO_RD"@,
            SortColumn::IoWrite => "IO_WR"@,
            SortColumn::Gpu => "GPU%"@,
            SortColumn::GpuMem => "GPU-MEM"@,
            SortColumn::Npu => "NPU%"@,
            SortColumn::NpuMem => "NPU-MEM"@,
        }
    }

    pub open spec fn spec_width(self) -> u16 {
        match self {
            SortColumn::Pid => 7,
            SortColumn::PPid => 7,
            SortColumn::User => 10,
            SortColumn::Priority => 4,
            SortColumn::PriorityClass => 7,
            SortColumn::Threads => 4,
            SortColumn::Virt => 8,
            SortColumn::Res => 8,
            SortColumn::Shr => 8,
            SortColumn::Status => 3,
            SortColumn::Cpu => 6,
            SortColumn::Mem => 6,
            SortColumn::Time => 10,
            SortColumn::StartTime => 8,
            SortColumn::Command => 20,
            SortColumn::Elevated => 4,
            SortColumn::Arch => 5,
            SortColumn::Efficiency => 4,
            SortColumn::HandleCount => 6,
            SortColumn::IoRate => 8,
            SortColumn::IoReadRate => 7,
            SortColumn::IoWriteRate => 7,
            SortColumn::IoRead => 7,
            SortColumn::IoWrite => 7,
            SortColumn::Gpu => 6,
            SortColumn::GpuMem => 8,
            SortColumn::Npu => 6,
            SortColumn::NpuMem => 8,
        }
    }

    /// Canonical display order. This drives the sort menu, the column
    /// picker listing, and where a newly enabled column is inserted.
    pub fn all() -> (r: &'static [SortColumn])
        ensures
            r@ == canonical_columns(),
    {
        &[
            SortColumn::Pid,
            SortColumn::PPid,
            SortColumn::User,
            SortColumn::Priority,
            SortColumn::PriorityClass,
            SortColumn::Threads,
            SortColumn::Virt,
            SortColumn::Res,
            SortColumn::Shr,
            SortColumn::Status,
            SortColumn::Cpu,
            SortColumn::Mem,
            SortColumn::Gpu,
            SortColumn::GpuMem,
            SortColumn::Npu,
            SortColumn::NpuMem,
            SortColumn::IoRate,
            SortColumn::IoReadRate,
            SortColumn::IoWriteRate,
            SortColumn::IoRead,
            SortColumn::IoWrite,
            SortColumn::HandleCount,
            SortColumn::Elevated,
            SortColumn::Arch,
            SortColumn::Efficiency,
            SortColumn::StartTime,
            SortColumn::Time,
            SortColumn::Command,
        ]
    }

    /// Position in the canonical display order (`usize::MAX` for unknown names).
    pub fn display_rank(name: &str) -> (r: usize)
        ensures
            r as nat == display_rank_of(name@),
    {
        match SortColumn::from_name(name) {
            None => usize::MAX,
            Some(col) => {
                let all = SortColumn::all();
                proof {
                    column_rank_is_position(col);
                }
                let mut i: usize = 0;
                while i < all.len()
                    invariant
                        all@ == canonical_columns(),
                        column_of_name(name@) == Some(col),
                        0 <= i <= all.len(),
                        col.rank() < all@.len(),
                        all@[col.rank() as int] == col,
                        forall|j: int| 0 <= j < i ==> all@[j] != col,
                    decreases all.len() - i,
                {
                    if all[i] == col {
                        proof {
                            column_position_is_rank(i as int);
                            assert(all@[i as int] == col);
                            assert(col.rank() == i);
                            assert(column_of_name(name@) == Some(col));
                            assert(display_rank_of(name@) == col.rank());
                        }
                        return i;
                    }
                    i = i + 1;
                }
                usize::MAX
            },
        }
    }

    pub fn name(&self) -> (r: &'static str)
        ensures
            r@ == self.spec_name(),
    {
        match self {
            SortColumn::Pid => "PID",
            SortColumn::PPid => "PPID",
            SortColumn::User => "USER",
            SortColumn::Priority => "PRI",
            SortColumn::PriorityClass => "CLASS",
            SortColumn::Threads => "THR",
            SortColumn::Virt => "VIRT",
            SortColumn::Res => "RES",
            SortColumn::Shr => "SHR",
            SortColumn::Status => "S",
            SortColumn::Cpu => "CPU%",
            SortColumn::Mem => "MEM%",
            SortColumn::Time => "TIME+",
            SortColumn::StartTime => "START",
            SortColumn::Command => "Command",
            SortColumn::Elevated => "ELEV",
            SortColumn::Arch => "ARCH",
            SortColumn::Efficiency => "ECO",
            SortColumn::HandleCount => "HNDL",
            SortColumn::IoRate => "IO_RATE",
            SortColumn::IoReadRate => "IO_R/s",
            SortColumn::IoWriteRate => "IO_W/s",
            SortColumn::IoRead => "IO_RD",
            SortColumn::IoWrite => "IO_WR",
            SortColumn::Gpu => "GPU%",
            SortColumn::GpuMem => "GPU-MEM",
            SortColumn::Npu => "NPU%",
            SortColumn::NpuMem => "NPU-MEM",
        }
    }

    /// Convert from column name string
    pub fn from_name(name: &str) -> (r: Option<SortColumn>)
        ensures
            r == column_of_name(name@),
    {
        if str_eq(name, "PID") {
            Some(SortColumn::Pid)
        } else if str_eq(name, "PPID") {
            Some(SortColumn::PPid)
        } else if str_eq(name, "USER") {
            Some(SortColumn::User)
        } else if str_eq(name, "PRI") {
            Some(SortColumn::Priority)
        } else if str_eq(name, "CLASS") {
            Some(SortColumn::PriorityClass)
        } else if str_eq(name, "NI") {
            Some(SortColumn::PriorityClass)
        } else if str_eq(name, "THR") {
            Some(SortColumn::Threads)
        } else if str_eq(name, "VIRT") {
            Some(SortColumn::Virt)
        } else if str_eq(name, "RES") {
            Some(SortColumn::Res)
        } else if str_eq(name, "SHR") {
            Some(SortColumn::Shr)
        } else if str_eq(name, "S") {
            Some(SortColumn::Status)
        } else if str_eq(name, "CPU%") {
            Some(SortColumn::Cpu)
        } else if str_eq(name, "MEM%") {
            Some(SortColumn::Mem)
        } else if str_eq(name, "TIME+") {
            Some(SortColumn::Time)
        } else if str_eq(name, "START") {
            Some(SortColumn::StartTime)
        } else if str_eq(name, "Command") {
            Some(SortColumn::Command)
        } else if str_eq(name, "ELEV") {
            Some(SortColumn::Elevated)
        } else if str_eq(name, "ARCH") {
            Some(SortColumn::Arch)
        } else if str_eq(name, "ECO") {
            Some(SortColumn::Efficiency)
        } else if str_eq(name, "HNDL") {
            Some(SortColumn::HandleCount)
        } else if str_eq(name, "IO_RATE") {
            Some(SortColumn::IoRate)
        } else if str_eq(name, "IO_R/s") {
            Some(SortColumn::IoReadRate)
        } else if str_eq(name, "IO_W/s") {
            Some(SortColumn::IoWriteRate)
        } else if str_eq(name, "IO_RD") {
            Some(SortColumn::IoRead)
        } else if str_eq(name, "IO_WR") {
            Some(SortColumn::IoWrite)
        } else if str_eq(name, "GPU%") {
            Some(SortColumn::Gpu)
        } else if str_eq(name, "GPU-MEM") {
            Some(SortColumn::GpuMem)
        } else if str_eq(name, "NPU%") {
            Some(SortColumn::Npu)
        } else if str_eq(name, "NPU-MEM") {
            Some(SortColumn::NpuMem)
        } else {
            None
        }
    }

    /// Get the display width for this column
    pub fn width(&self) -> (r: u16)
        ensures
            r == self.spec_width(),
    {
        match self {
            SortColumn::Pid => 7,
            SortColumn::PPid => 7,
            SortColumn::User => 10,
            SortColumn::Priority => 4,
            SortColumn::PriorityClass => 7,
            SortColumn::Threads => 4,
            SortColumn::Virt => 8,
            SortColumn::Res => 8,
            SortColumn::Shr => 8,
            SortColumn::Status => 3,
            SortColumn::Cpu => 6,
            SortColumn::Mem => 6,
            SortColumn::Time => 10,
            SortColumn::StartTime => 8,
            SortColumn::Command => 20,
            SortColumn::Elevated => 4,
            SortColumn::Arch => 5,
            SortColumn::Efficiency => 4,
            SortColumn::HandleCount => 6,
            SortColumn::IoRate => 8,
            SortColumn::IoReadRate => 7,
            SortColumn::IoWriteRate => 7,
            SortColumn::IoRead => 7,
            SortColumn::IoWrite => 7,
            SortColumn::Gpu => 6,
            SortColumn::GpuMem => 8,
            SortColumn::Npu => 6,
            SortColumn::NpuMem => 8,
        }
    }
}

/// Every column sits in the canonical order at its rank.
pub proof fn column_rank_is_position(c: SortColumn)
    ensures
        c.rank() < canonical_columns().len(),
        canonical_columns()[c.rank() as int] == c,
{
}

/// The column at each position of the canonical order has that position as
/// its rank, so no column is listed twice.
pub proof fn column_position_is_rank(i: int)
    requires
        0 <= i < canonical_columns().len(),
    ensures
        canonical_columns()[i].rank() == i,
{
}

/// The header names, character by character.
proof fn lemma_column_names_spelled()
    ensures
        "PID"@.len() == 3,
        "PID"@[0] == 'P',
        "PID"@[1] == 'I',
        "PID"@[2] == 'D',
        "PPID"@.len() == 4,
        "PPID"@[0] == 'P',
        "PPID"@[1] == 'P',
        "PPID"@[2] == 'I',
        "PPID"@[3] == 'D',
        "USER"@.len() == 4,
        "USER"@[0] == 'U',
        "USER"@[1] == 'S',
        "USER"@[2] == 'E',
        "USER"@[3] == 'R',
        "PRI"@.len() == 3,
        "PRI"@[0] == 'P',
        "PRI"@[1] == 'R',
        "PRI"@[2] == 'I',
        "CLASS"@.len() == 5,
        "CLASS"@[0] == 'C',
        "CLASS"@[1] == 'L',
        "CLASS"@[2] == 'A',
        "CLASS"@[3] == 'S',
        "CLASS"@[4] == 'S',
        "NI"@.len() == 2,
        "NI"@[0] == 'N',
        "NI"@[1] == 'I',
        "THR"@.len() == 3,
        "THR"@[0] == 'T',
        "THR"@[1] == 'H',
        "THR"@[2] == 'R',
        "VIRT"@.len() == 4,
        "VIRT"@[0] == 'V',
        "VIRT"@[1] == 'I',
        "VIRT"@[2] == 'R',
        "VIRT"@[3] == 'T',
        "RES"@.len() == 3,
        "RES"@[0] == 'R',
        "RES"@[1] == 'E',
        "RES"@[2] == 'S',
        "SHR"@.len() == 3,
        "SHR"@[0] == 'S',
        "SHR"@[1] == 'H',
        "SHR"@[2] == 'R',
        "S"@.len() == 1,
        "S"@[0] == 'S',
        "CPU%"@.len() == 4,
        "CPU%"@[0] == 'C',
        "CPU%"@[1] == 'P',
        "CPU%"@[2] == 'U',
        "CPU%"@[3] == '%',
        "MEM%"@.len() == 4,
        "MEM%"@[0] == 'M',
        "MEM%"@[1] == 'E',
        "MEM%"@[2] == 'M',
        "MEM%"@[3] == '%',
        "TIME+"@.len() == 5,
        "TIME+"@[0] == 'T',
        "TIME+"@[1] == 'I',
        "TIME+"@[2] == 'M',
        "TIME+"@[3] == 'E',
        "TIME+"@[4] == '+',
        "START"@.len() == 5,
        "START"@[0] == 'S',
        "START"@[1] == 'T',
        "START"@[2] == 'A',
        "START"@[3] == 'R',
        "START"@[4] == 'T',
        "Command"@.len() == 7,
        "Command"@[0] == 'C',
        "Command"@[1] == 'o',
        "Command"@[2] == 'm',
        "Command"@[3] == 'm',
        "Command"@[4] == 'a',
        "Command"@[5] == 'n',
        "Command"@[6] == 'd',
        "ELEV"@.len() == 4,
        "ELEV"@[0] == 'E',
        "ELEV"@[1] == 'L',
        "ELEV"@[2] == 'E',
        "ELEV"@[3] == 'V',
        "ARCH"@.len() == 4,
        "ARCH"@[0] == 'A',
        "ARCH"@[1] == 'R',
        "ARCH"@[2] == 'C',
        "ARCH"@[3] == 'H',
        "ECO"@.len() == 3,
        "ECO"@[0] == 'E',
        "ECO"@[1] == 'C',
        "ECO"@[2] == 'O',
        "HNDL"@.len() == 4,
        "HNDL"@[0] == 'H',
        "HNDL"@[1] == 'N',
        "HNDL"@[2] == 'D',
        "HNDL"@[3] == 'L',
        "IO_RATE"@.len() == 7,
        "IO_RATE"@[0] == 'I',
        "IO_RATE"@[1] == 'O',
        "IO_RATE"@[2] == '_',
        "IO_RATE"@[3] == 'R',
        "IO_RATE"@[4] == 'A',
        "IO_RATE"@[5] == 'T',
        "IO_RATE"@[6] == 'E',
        "IO_R/s"@.len() == 6,
        "IO_R/s"@[0] == 'I',
        "IO_R/s"@[1] == 'O',
        "IO_R/s"@[2] == '_',
        "IO_R/s"@[3] == 'R',
        "IO_R/s"@[4] == '/',
        "IO_R/s"@[5] == 's',
        "IO_W/s"@.len() == 6,
        "IO_W/s"@[0] == 'I',
        "IO_W/s"@[1] == 'O',
        "IO_W/s"@[2] == '_',
        "IO_W/s"@[3] == 'W',
        "IO_W/s"@[4] == '/',
        "IO_W/s"@[5] == 's',
        "IO_RD"@.len() == 5,
        "IO_RD"@[0] == 'I',
        "IO_RD"@[1] == 'O',
        "IO_RD"@[2] == '_',
        "IO_RD"@[3] == 'R',
        "IO_RD"@[4] == 'D',
        "IO_WR"@.len() == 5,
        "IO_WR"@[0] == 'I',
        "IO_WR"@[1] == 'O',
        "IO_WR"@[2] == '_',
        "IO_WR"@[3] == 'W',
        "IO_WR"@[4] == 'R',
        "GPU%"@.len() == 4,
        "GPU%"@[0] == 'G',
        "GPU%"@[1] == 'P',
        "GPU%"@[2] == 'U',
        "GPU%"@[3] == '%',
        "GPU-MEM"@.len() == 7,
        "GPU-MEM"@[0] == 'G',
        "GPU-MEM"@[1] == 'P',
        "GPU-MEM"@[2] == 'U',
        "GPU-MEM"@[3] == '-',
        "GPU-MEM"@[4] == 'M',
        "GPU-MEM"@[5] == 'E',
        "GPU-MEM"@[6] == 'M',
        "NPU%"@.len() == 4,
        "NPU%"@[0] == 'N',
        "NPU%"@[1] == 'P',
        "NPU%"@[2] == 'U',
        "NPU%"@[3] == '%',
        "NPU-MEM"@.len() == 7,
        "NPU-MEM"@[0] == 'N',
        "NPU-MEM"@[1] == 'P',
        "NPU-MEM"@[2] == 'U',
        "NPU-MEM"@[3] == '-',
        "NPU-MEM"@[4] == 'M',
        "NPU-MEM"@[5] == 'E',
        "NPU-MEM"@[6] == 'M',
{
    reveal_strlit("PID");
    reveal_strlit("PPID");
    reveal_strlit("USER");
    reveal_strlit("PRI");
    reveal_strlit("CLASS");
    reveal_strlit("NI");
    reveal_strlit("THR");
    reveal_strlit("VIRT");
    reveal_strlit("RES");
    reveal_strlit("SHR");
    reveal_strlit("S");
    reveal_strlit("CPU%");
    reveal_strlit("MEM%");
    reveal_strlit("TIME+");
    reveal_strlit("START");
    reveal_strlit("Command");
    reveal_strlit("ELEV");
    reveal_strlit("ARCH");
    reveal_strlit("ECO");
    reveal_strlit("HNDL");
    reveal_strlit("IO_RATE");
    reveal_strlit("IO_R/s");
    reveal_strlit("IO_W/s");
    reveal_strlit("IO_RD");
    reveal_strlit("IO_WR");
    reveal_strlit("GPU%");
    reveal_strlit("GPU-MEM");
    reveal_strlit("NPU%");
    reveal_strlit("NPU-MEM");
}

/// Every column's header name reads back as that column, so its display
/// rank is its canonical position.
pub proof fn column_name_round_trip(c: SortColumn)
    ensures
        column_of_name(c.spec_name()) == Some(c),
        display_rank_of(c.spec_name()) == c.rank(),
{
    lemma_column_names_spelled();
    match c {
        SortColumn::Pid => {},
        SortColumn::PPid => {},
        SortColumn::User => {},
        SortColumn::Priority => {},
        SortColumn::PriorityClass => {},
        SortColumn::Threads => {},
        SortColumn::Virt => {},
        SortColumn::Res => {},
        SortColumn::Shr => {},
        SortColumn::Status => {},
        SortColumn::Cpu => {},
        SortColumn::Mem => {},
        SortColumn::Time => {},
        SortColumn::StartTime => {},
        SortColumn::Command => {},
        SortColumn::Elevated => {},
        SortColumn::Arch => {},
        SortColumn::Efficiency => {},
        SortColumn::HandleCount => {},
        SortColumn::IoRate => {},
        SortColumn::IoReadRate => {},
        SortColumn::IoWriteRate => {},
        SortColumn::IoRead => {},
        SortColumn::IoWrite => {},
        SortColumn::Gpu => {},
        SortColumn::GpuMem => {},
        SortColumn::Npu => {},
        SortColumn::NpuMem => {},
    }
}

/// A name that reads as a column is that column's header name, or the
/// legacy "NI" for CLASS.
pub proof fn column_of_name_is_header(s: Seq<char>)
    ensures
        column_of_name(s) matches Some(c) ==> (s == c.spec_name() || (s == "NI"@ && c
            == SortColumn::PriorityClass)),
{
}


// ============================================================================
// Screen layout and hit testing
// ============================================================================

/// Identifies a specific UI element that can be interacted with
#[derive(Debug, Clone, Copy, PartialEq, Eq, Structural)]
pub enum UIElement {
    /// CPU meter bar (index = core number, None = average)
    CpuMeter(Option<usize>),
    /// Memory meter bar
    MemoryMeter,
    /// Swap meter bar
    SwapMeter,
    /// GPU meter bar (only present on machines with a GPU)
    GpuMeter,
    /// NPU meter bar (only present on NPU machines)
    NpuMeter,
    /// Column header (for sorting)
    ColumnHeader(SortColumn),
    /// Process row (index = visible row index, pid = process ID)
    ProcessRow { index: usize, pid: u32 },
    /// Footer function key (F1-F10)
    FunctionKey(u8),
    /// Screen tab (index in screen_tabs array)
    ScreenTab(usize),
    /// Generic header area
    Header,
    /// Generic footer area
    Footer,
}

/// Actions that can be performed on UI elements
#[derive(Debug, Clone, Copy, PartialEq, Eq, Structural)]
pub enum UIAction {
    /// Single left click
    Click,
    /// Double left click
    DoubleClick,
    /// Right click (context menu)
    RightClick,
    /// Middle click
    MiddleClick,
}

/// Major UI regions for keyboard navigation
#[derive(Debug, Clone, Copy, PartialEq, Eq, Structural)]
pub enum FocusRegion {
    /// Header meters (CPU, Memory, Swap)
    Header,
    /// Process list (default focus)
    ProcessList,
    /// Footer function keys
    Footer,
}

impl Default for FocusRegion {
    fn default() -> (r: FocusRegion)
        ensures
            r == FocusRegion::ProcessList,
    {
        FocusRegion::ProcessList
    }
}

/// A rectangular region on screen associated with a UI element
#[derive(Debug, Clone, Copy)]
pub struct UIRegion {
    pub element: UIElement,
    pub x: u16,
    pub y: u16,
    pub width: u16,
    pub height: u16,
}

impl UIRegion {
    /// The point lies in the region (its right and bottom edges excluded).
    pub open spec fn spec_contains(self, x: u16, y: u16) -> bool {
        self.x <= x < self.x + self.width && self.y <= y < self.y + self.height
    }

    pub fn new(element: UIElement, x: u16, y: u16, width: u16, height: u16) -> (r: UIRegion)
        ensures
            r == (UIRegion { element, x, y, width, height }),
    {
        UIRegion { element, x, y, width, height }
    }

    /// Check if a point is within this region
    pub fn contains(&self, x: u16, y: u16) -> (r: bool)
        ensures
            r == self.spec_contains(x, y),
    {
        x >= self.x && (x as u32) < self.x as u32 + self.width as u32 && y >= self.y && (y as u32)
            < self.y as u32 + self.height as u32
    }
}

/// Bounds of a single column in the process list header
#[derive(Debug, Clone, Copy)]
pub struct ColumnBounds {
    pub column: Option<SortColumn>,
    pub x: u16,
    pub width: u16,
}

impl Default for ColumnBounds {
    fn default() -> (r: ColumnBounds)
        ensures
            r == (ColumnBounds { column: None, x: 0, width: 0 }),
    {
        ColumnBounds { column: None, x: 0, width: 0 }
    }
}

/// UI layout bounds - populated during render for mouse/keyboard navigation
#[derive(Debug, Clone)]
pub struct UIBounds {
    /// Header meters area (CPU bars, memory, etc.)
    pub header_y_start: u16,
    pub header_y_end: u16,
    /// Tab bar row (y coordinate, 0 if no tab bar)
    pub tab_bar_y: u16,
    /// Whether tab bar is visible
    pub tab_bar_visible: bool,
    /// Process list column headers
    pub column_header_y: u16,
    pub columns: Vec<ColumnBounds>,
    /// Process list data rows
    pub process_list_y_start: u16,
    pub process_list_y_end: u16,
    /// Footer area
    pub footer_y_start: u16,
    /// All interactive UI regions (for unified hit testing)
    pub regions: Vec<UIRegion>,
    /// Function key regions in footer
    pub function_keys: Vec<UIRegion>,
}

/// The element of the first region in `regions` that holds the point.
pub open spec fn first_hit(regions: Seq<UIRegion>, x: u16, y: u16) -> Option<UIElement>
    decreases regions.len(),
{
    if regions.len() == 0 {
        None
    } else if regions[0].spec_contains(x, y) {
        Some(regions[0].element)
    } else {
        first_hit(regions.drop_first(), x, y)
    }
}

/// The column under `x`: the first column whose span holds `x`, where the
/// last column reaches to the right edge of the screen.
pub open spec fn column_hit(columns: Seq<ColumnBounds>, x: u16) -> Option<SortColumn>
    decreases columns.len(),
{
    if columns.len() == 0 {
        None
    } else if columns.len() == 1 {
        if x >= columns[0].x {
            columns[0].column
        } else {
            None
        }
    } else if columns[0].x <= x < columns[0].x + columns[0].width {
        columns[0].column
    } else {
        column_hit(columns.drop_first(), x)
    }
}

impl UIBounds {
    /// Row of the process list under `y`, counted from the first data row.
    pub open spec fn spec_process_row_index(self, y: u16) -> Option<usize> {
        if self.column_header_y < y < self.footer_y_start {
            Some((y - self.column_header_y - 1) as usize)
        } else {
            None
        }
    }

    /// The element under a point: function keys first, then the other
    /// registered regions, then the screen areas.
    pub open spec fn spec_element_at(self, x: u16, y: u16) -> Option<UIElement> {
        match first_hit(self.function_keys@, x, y) {
            Some(e) => Some(e),
            None => match first_hit(self.regions@, x, y) {
                Some(e) => Some(e),
                None => if y < self.header_y_end {
                    Some(UIElement::Header)
                } else if y == self.column_header_y && column_hit(self.columns@, x) is Some {
                    Some(UIElement::ColumnHeader(column_hit(self.columns@, x).unwrap()))
                } else if self.spec_process_row_index(y) is Some {
                    Some(UIElement::ProcessRow { index: self.spec_process_row_index(y).unwrap(), pid: 0 })
                } else if y >= self.footer_y_start {
                    Some(UIElement::Footer)
                } else {
                    None
                },
            },
        }
    }

    /// Clear all regions (call at start of each render)
    pub fn clear_regions(&mut self)
        ensures
            final(self).regions@ == Seq::<UIRegion>::empty(),
            final(self).function_keys@ == Seq::<UIRegion>::empty(),
            final(self).columns@ == old(self).columns@,
            final(self).header_y_start == old(self).header_y_start,
            final(self).header_y_end == old(self).header_y_end,
            final(self).tab_bar_y == old(self).tab_bar_y,
            final(self).tab_bar_visible == old(self).tab_bar_visible,
            final(self).column_header_y == old(self).column_header_y,
            final(self).process_list_y_start == old(self).process_list_y_start,
            final(self).process_list_y_end == old(self).process_list_y_end,
            final(self).footer_y_start == old(self).footer_y_start,
    {
        self.regions.clear();
        self.function_keys.clear();
    }

    /// Add a UI region
    pub fn add_region(&mut self, region: UIRegion)
        ensures
            final(self).regions@ == old(self).regions@.push(region),
            final(self).function_keys@ == old(self).function_keys@,
            final(self).columns@ == old(self).columns@,
            final(self).header_y_end == old(self).header_y_end,
            final(self).column_header_y == old(self).column_header_y,
            final(self).footer_y_start == old(self).footer_y_start,
    {
        self.regions.push(region);
    }

    /// Add a function key region
    pub fn add_function_key(&mut self, key: u8, x: u16, y: u16, width: u16)
        ensures
            final(self).function_keys@ == old(self).function_keys@.push(
                UIRegion { element: UIElement::FunctionKey(key), x, y, width, height: 1 },
            ),
            final(self).regions@ == old(self).regions@,
            final(self).columns@ == old(self).columns@,
            final(self).header_y_end == old(self).header_y_end,
            final(self).column_header_y == old(self).column_header_y,
            final(self).footer_y_start == old(self).footer_y_start,
    {
        self.function_keys.push(UIRegion::new(UIElement::FunctionKey(key), x, y, width, 1));
    }

    /// Find which element is at the given coordinates
    pub fn element_at(&self, x: u16, y: u16) -> (r: Option<UIElement>)
        ensures
            r == self.spec_element_at(x, y),
    {
        if let Some(e) = first_region_at(&self.function_keys, x, y) {
            return Some(e);
        }
        if let Some(e) = first_region_at(&self.regions, x, y) {
            return Some(e);
        }
        if y < self.header_y_end {
            return Some(UIElement::Header);
        }
        if y == self.column_header_y {
            if let Some(col) = self.column_at_x(x) {
                return Some(UIElement::ColumnHeader(col));
            }
        }
        if let Some(row_index) = self.process_row_index(y) {
            return Some(UIElement::ProcessRow { index: row_index, pid: 0 });
        }
        if y >= self.footer_y_start {
            return Some(UIElement::Footer);
        }
        None
    }

    /// Find which column contains the given x coordinate
    pub fn column_at_x(&self, x: u16) -> (r: Option<SortColumn>)
        ensures
            r == column_hit(self.columns@, x),
    {
        let cols = &self.columns;
        let mut i: usize = 0;
        assert(cols@.subrange(0, cols@.len() as int) =~= cols@);
        while i < cols.len()
            invariant
                cols@ == self.columns@,
                0 <= i <= cols@.len(),
                column_hit(cols@, x) == column_hit(cols@.subrange(i as int, cols@.len() as int), x),
            decreases cols.len() - i,
        {
            let ghost rest = cols@.subrange(i as int, cols@.len() as int);
            assert(rest[0] == cols@[i as int]);
            let col = cols[i];
            let is_last = i == cols.len() - 1;
            if is_last {
                if x >= col.x {
                    return col.column;
                }
            } else {
                let col_end = col.x as u32 + col.width as u32;
                if x >= col.x && (x as u32) < col_end {
                    return col.column;
                }
            }
            assert(rest.drop_first() =~= cols@.subrange(i + 1, cols@.len() as int));
            i = i + 1;
        }
        None
    }

    /// Check if y coordinate is in the process list data area
    pub fn is_process_row(&self, y: u16) -> (r: bool)
        ensures
            r == (self.column_header_y < y < self.footer_y_start),
    {
        y > self.column_header_y && y < self.footer_y_start
    }

    /// Get the process row index for a given y coordinate (0-indexed from first visible row)
    pub fn process_row_index(&self, y: u16) -> (r: Option<usize>)
        ensures
            r == self.spec_process_row_index(y),
    {
        if self.is_process_row(y) {
            Some((y - self.column_header_y - 1) as usize)
        } else {
            None
        }
    }
}

impl Default for UIBounds {
    fn default() -> (r: UIBounds)
        ensures
            r.header_y_start == 0 && r.header_y_end == 0 && r.tab_bar_y == 0 && !r.tab_bar_visible,
            r.column_header_y == 0 && r.process_list_y_start == 0 && r.process_list_y_end == 0,
            r.footer_y_start == 0,
            r.columns@ == Seq::<ColumnBounds>::empty(),
            r.regions@ == Seq::<UIRegion>::empty(),
            r.function_keys@ == Seq::<UIRegion>::empty(),
    {
        UIBounds {
            header_y_start: 0,
            header_y_end: 0,
            tab_bar_y: 0,
            tab_bar_visible: false,
            column_header_y: 0,
            columns: Vec::new(),
            process_list_y_start: 0,
            process_list_y_end: 0,
            footer_y_start: 0,
            regions: Vec::new(),
            function_keys: Vec::new(),
        }
    }
}

/// The element of the first region of `regions` holding the point.
fn first_region_at(regions: &Vec<UIRegion>, x: u16, y: u16) -> (r: Option<UIElement>)
    ensures
        r == first_hit(regions@, x, y),
{
    let mut i: usize = 0;
    assert(regions@.subrange(0, regions@.len() as int) =~= regions@);
    while i < regions.len()
        invariant
            0 <= i <= regions@.len(),
            first_hit(regions@, x, y) == first_hit(regions@.subrange(i as int, regions@.len() as int), x, y),
        decreases regions.len() - i,
    {
        let ghost rest = regions@.subrange(i as int, regions@.len() as int);
        assert(rest[0] == regions@[i as int]);
        if regions[i].contains(x, y) {
            return Some(regions[i].element);
        }
        assert(rest.drop_first() =~= regions@.subrange(i + 1, regions@.len() as int));
        i = i + 1;
    }
    None
}

/// A function key drawn over a registered region wins the hit test.
pub proof fn function_keys_win_hit_test(b: UIBounds, x: u16, y: u16)
    ensures
        first_hit(b.function_keys@, x, y) matches Some(e) ==> b.spec_element_at(x, y) == Some(e),
{
}

/// A point that no region holds, above the end of the header, is the header.
pub proof fn header_area_hit_test(b: UIBounds, x: u16, y: u16)
    requires
        first_hit(b.function_keys@, x, y) is None,
        first_hit(b.regions@, x, y) is None,
        y < b.header_y_end,
    ensures
        b.spec_element_at(x, y) == Some(UIElement::Header),
{
}

// ============================================================================
// Screen tabs and the canonical column order
// ============================================================================

/// Columns of the default I/O tab.
pub open spec fn io_columns() -> Seq<Seq<char>> {
    seq!["PID"@, "USER"@, "IO_RATE"@, "IO_R/s"@, "IO_W/s"@, "HNDL"@, "Command"@]
}

/// A screen tab with its own column set and sort settings
#[derive(Clone, Debug)]
pub struct ScreenTab {
    pub name: String,
    pub columns: Vec<String>,
    pub sort_column: SortColumn,
    pub sort_ascending: bool,
}

impl ScreenTab {
    pub fn default_main(config: &Config) -> (r: ScreenTab)
        ensures
            r.name@ == "Main"@,
            r.columns.deep_view() == config.visible_columns.deep_view(),
            r.sort_column == SortColumn::Cpu,
            !r.sort_ascending,
    {
        let columns = config.visible_columns.clone();
        assert(columns@ =~= config.visible_columns@);
        ScreenTab {
            name: string_of("Main"),
            columns,
            sort_column: SortColumn::Cpu,
            sort_ascending: false,
        }
    }

    pub fn default_io() -> (r: ScreenTab)
        ensures
            r.name@ == "I/O"@,
            r.columns.deep_view() == io_columns(),
            r.sort_column == SortColumn::IoRate,
            !r.sort_ascending,
    {
        let mut columns: Vec<String> = Vec::new();
        columns.push(string_of("PID"));
        columns.push(string_of("USER"));
        columns.push(string_of("IO_RATE"));
        columns.push(string_of("IO_R/s"));
        columns.push(string_of("IO_W/s"));
        columns.push(string_of("HNDL"));
        columns.push(string_of("Command"));
        assert(columns.deep_view() =~= io_columns());
        ScreenTab {
            name: string_of("I/O"),
            columns,
            sort_column: SortColumn::IoRate,
            sort_ascending: false,
        }
    }
}

/// The columns are in canonical display order.
pub open spec fn in_display_order(cols: Seq<Seq<char>>) -> bool {
    forall|i: int, j: int| 0 <= i < j < cols.len() ==> display_rank_of(cols[i]) <= display_rank_of(cols[j])
}

/// Index at which `column` goes to keep the canonical display order: before
/// the first column ranked after it, at the end when there is none.
pub open spec fn insert_index(cols: Seq<Seq<char>>, column: Seq<char>) -> int
    decreases cols.len(),
{
    if cols.len() == 0 {
        0
    } else if display_rank_of(cols[0]) > display_rank_of(column) {
        0
    } else {
        1 + insert_index(cols.drop_first(), column)
    }
}

/// `insert_index` is the first position ranked after `column`.
pub proof fn lemma_insert_index(cols: Seq<Seq<char>>, column: Seq<char>)
    ensures
        0 <= insert_index(cols, column) <= cols.len(),
        forall|j: int| 0 <= j < insert_index(cols, column) ==> display_rank_of(cols[j]) <= display_rank_of(column),
        insert_index(cols, column) < cols.len() ==> display_rank_of(cols[insert_index(cols, column)])
            > display_rank_of(column),
    decreases cols.len(),
{
    if cols.len() > 0 && display_rank_of(cols[0]) <= display_rank_of(column) {
        let t = cols.drop_first();
        lemma_insert_index(t, column);
        assert forall|j: int| 1 <= j < cols.len() implies cols[j] == t[j - 1] by {}
    }
}

/// Index at which `column` should be inserted into `columns` to keep the
/// canonical display order; appends when every visible column canonically
/// precedes it.
pub fn canonical_insert_index(columns: &[String], column: &str) -> (r: usize)
    ensures
        r == insert_index(columns.deep_view(), column@),
{
    let ghost dv = columns.deep_view();
    let rank = SortColumn::display_rank(column);
    let mut i: usize = 0;
    proof {
        lemma_insert_index(dv, column@);
    }
    while i < columns.len()
        invariant
            dv == columns.deep_view(),
            dv.len() == columns@.len(),
            rank == display_rank_of(column@),
            0 <= i <= columns.len(),
            forall|j: int| 0 <= j < i ==> display_rank_of(dv[j]) <= rank,
            0 <= insert_index(dv, column@) <= dv.len(),
            forall|j: int| 0 <= j < insert_index(dv, column@) ==> display_rank_of(dv[j]) <= display_rank_of(column@),
            insert_index(dv, column@) < dv.len() ==> display_rank_of(dv[insert_index(dv, column@)])
                > display_rank_of(column@),
        decreases columns.len() - i,
    {
        assert(dv[i as int] == columns@[i as int]@);
        if SortColumn::display_rank(columns[i].as_str()) > rank {
            return i;
        }
        i = i + 1;
    }
    columns.len()
}

/// Inserting a column at its canonical index keeps a list in display order.
pub proof fn canonical_insert_keeps_order(cols: Seq<Seq<char>>, column: Seq<char>)
    requires
        in_display_order(cols),
    ensures
        in_display_order(cols.insert(insert_index(cols, column), column)),
{
    lemma_insert_index(cols, column);
    let k = insert_index(cols, column);
    let r = cols.insert(k, column);
    assert forall|i: int, j: int| 0 <= i < j < r.len() implies display_rank_of(r[i]) <= display_rank_of(r[j]) by {
        if j < k {
        } else if j == k {
        } else if i < k {
            assert(r[j] == cols[j - 1]);
            if k < cols.len() {
                assert(display_rank_of(cols[k]) <= display_rank_of(cols[j - 1]));
            }
        } else if i == k {
            assert(r[j] == cols[j - 1]);
            assert(display_rank_of(cols[k]) <= display_rank_of(cols[j - 1]));
        } else {
            assert(r[i] == cols[i - 1]);
            assert(r[j] == cols[j - 1]);
        }
    }
}

/// The rank of each column header name.
proof fn lemma_column_ranks()
    ensures
        forall|c: SortColumn| display_rank_of(#[trigger] c.spec_name()) == c.rank(),
{
    assert forall|c: SortColumn| display_rank_of(#[trigger] c.spec_name()) == c.rank() by {
        column_name_round_trip(c);
    }
}

/// The default Main and I/O layouts follow the canonical display order.
pub proof fn default_layouts_in_display_order()
    ensures
        in_display_order(default_columns()),
        in_display_order(io_columns()),
{
    lemma_column_ranks();
    assert(display_rank_of(SortColumn::Pid.spec_name()) == 0);
    assert(display_rank_of(SortColumn::User.spec_name()) == 2);
    assert(display_rank_of(SortColumn::Priority.spec_name()) == 3);
    assert(display_rank_of(SortColumn::PriorityClass.spec_name()) == 4);
    assert(display_rank_of(SortColumn::Threads.spec_name()) == 5);
    assert(display_rank_of(SortColumn::Virt.spec_name()) == 6);
    assert(display_rank_of(SortColumn::Res.spec_name()) == 7);
    assert(display_rank_of(SortColumn::Shr.spec_name()) == 8);
    assert(display_rank_of(SortColumn::Status.spec_name()) == 9);
    assert(display_rank_of(SortColumn::Cpu.spec_name()) == 10);
    assert(display_rank_of(SortColumn::Mem.spec_name()) == 11);
    assert(display_rank_of(SortColumn::Time.spec_name()) == 26);
    assert(display_rank_of(SortColumn::Command.spec_name()) == 27);
    assert(display_rank_of(SortColumn::IoRate.spec_name()) == 16);
    assert(display_rank_of(SortColumn::IoReadRate.spec_name()) == 17);
    assert(display_rank_of(SortColumn::IoWriteRate.spec_name()) == 18);
    assert(display_rank_of(SortColumn::HandleCount.spec_name()) == 21);
    let d = default_columns();
    assert forall|i: int, j: int| 0 <= i < j < d.len() implies display_rank_of(d[i]) <= display_rank_of(d[j]) by {
        assert(i == 0 || i == 1 || i == 2 || i == 3 || i == 4 || i == 5 || i == 6 || i == 7 || i == 8
            || i == 9 || i == 10 || i == 11 || i == 12);
        assert(j == 0 || j == 1 || j == 2 || j == 3 || j == 4 || j == 5 || j == 6 || j == 7 || j == 8
            || j == 9 || j == 10 || j == 11 || j == 12);
    }
    let o = io_columns();
    assert forall|i: int, j: int| 0 <= i < j < o.len() implies display_rank_of(o[i]) <= display_rank_of(o[j]) by {
        assert(i == 0 || i == 1 || i == 2 || i == 3 || i == 4 || i == 5 || i == 6);
        assert(j == 0 || j == 1 || j == 2 || j == 3 || j == 4 || j == 5 || j == 6);
    }
}

/// Default Main-tab columns for the detected hardware.
pub open spec fn hardware_columns(has_gpu: bool, has_npu: bool) -> Seq<Seq<char>> {
    let base = default_columns();
    let with_gpu = if has_gpu {
        let a = base.insert(insert_index(base, "GPU%"@), "GPU%"@);
        a.insert(insert_index(a, "GPU-MEM"@), "GPU-MEM"@)
    } else {
        base
    };
    if has_npu {
        let b = with_gpu.insert(insert_index(with_gpu, "NPU%"@), "NPU%"@);
        b.insert(insert_index(b, "NPU-MEM"@), "NPU-MEM"@)
    } else {
        with_gpu
    }
}

fn insert_canonical(columns: &mut Vec<String>, name: &str)
    ensures
        final(columns).deep_view() == old(columns).deep_view().insert(
            insert_index(old(columns).deep_view(), name@),
            name@,
        ),
{
    let at = canonical_insert_index(columns.as_slice(), name);
    proof {
        lemma_insert_index(columns.deep_view(), name@);
    }
    columns.insert(at, string_of(name));
    assert(columns.deep_view() =~= old(columns).deep_view().insert(at as int, name@));
}

/// Default Main-tab columns for the detected hardware: the static defaults
/// plus GPU%/GPU-MEM and NPU%/NPU-MEM when the corresponding adapter exists,
/// inserted at their canonical positions.
pub fn hardware_default_columns(has_gpu: bool, has_npu: bool) -> (r: Vec<String>)
    ensures
        r.deep_view() == hardware_columns(has_gpu, has_npu),
{
    let config = Config::default();
    let mut columns = config.visible_columns;
    if has_gpu {
        insert_canonical(&mut columns, "GPU%");
        insert_canonical(&mut columns, "GPU-MEM");
    }
    if has_npu {
        insert_canonical(&mut columns, "NPU%");
        insert_canonical(&mut columns, "NPU-MEM");
    }
    columns
}

/// The hardware-aware defaults keep the canonical display order.
pub proof fn hardware_columns_in_display_order(has_gpu: bool, has_npu: bool)
    ensures
        in_display_order(hardware_columns(has_gpu, has_npu)),
        hardware_columns(false, false) == default_columns(),
{
    default_layouts_in_display_order();
    let base = default_columns();
    let a = base.insert(insert_index(base, "GPU%"@), "GPU%"@);
    canonical_insert_keeps_order(base, "GPU%"@);
    let b = a.insert(insert_index(a, "GPU-MEM"@), "GPU-MEM"@);
    canonical_insert_keeps_order(a, "GPU-MEM"@);
    let with_gpu = if has_gpu { b } else { base };
    let c = with_gpu.insert(insert_index(with_gpu, "NPU%"@), "NPU%"@);
    canonical_insert_keeps_order(with_gpu, "NPU%"@);
    canonical_insert_keeps_order(c, "NPU-MEM"@);
}

// ============================================================================
// The Setup menu
// ============================================================================

/// One row of the Setup dialog, in display order via `SetupItem::ALL`.
#[derive(Debug, Clone, Copy, PartialEq, Eq, Structural)]
pub enum SetupItem {
    RefreshRate,
    CpuMeterMode,
    MemoryMeterMode,
    GpuMeterMode,
    NpuMeterMode,
    ShowKernelThreads,
    ShowUserThreads,
    ShowProgramPath,
    HighlightNewProcesses,
    HighlightLargeNumbers,
    TreeView,
    ConfirmKill,
    ColorScheme,
    ConfigureColumns,
    GpuMeterAdapter,
    ResetAllSettings,
}

/// The Setup rows in display order; the destructive reset comes last.
pub open spec fn setup_items() -> Seq<SetupItem> {
    seq![
        SetupItem::RefreshRate,
        SetupItem::CpuMeterMode,
        SetupItem::MemoryMeterMode,
        SetupItem::GpuMeterMode,
        SetupItem::NpuMeterMode,
        SetupItem::ShowKernelThreads,
        SetupItem::ShowUserThreads,
        SetupItem::ShowProgramPath,
        SetupItem::HighlightNewProcesses,
        SetupItem::HighlightLargeNumbers,
        SetupItem::TreeView,
        SetupItem::ConfirmKill,
        SetupItem::ColorScheme,
        SetupItem::ConfigureColumns,
        SetupItem::GpuMeterAdapter,
        SetupItem::ResetAllSettings,
    ]
}

impl SetupItem {
    pub const ALL: [SetupItem; 16] = [
        SetupItem::RefreshRate,
        SetupItem::CpuMeterMode,
        SetupItem::MemoryMeterMode,
        SetupItem::GpuMeterMode,
        SetupItem::NpuMeterMode,
        SetupItem::ShowKernelThreads,
        SetupItem::ShowUserThreads,
        SetupItem::ShowProgramPath,
        SetupItem::HighlightNewProcesses,
        SetupItem::HighlightLargeNumbers,
        SetupItem::TreeView,
        SetupItem::ConfirmKill,
        SetupItem::ColorScheme,
        SetupItem::ConfigureColumns,
        SetupItem::GpuMeterAdapter,
        SetupItem::ResetAllSettings,
    ];

    /// Position of the row in `setup_items()`.
    pub open spec fn rank(self) -> nat {
        match self {
            SetupItem::RefreshRate => 0,
            SetupItem::CpuMeterMode => 1,
            SetupItem::MemoryMeterMode => 2,
            SetupItem::GpuMeterMode => 3,
            SetupItem::NpuMeterMode => 4,
            SetupItem::ShowKernelThreads => 5,
            SetupItem::ShowUserThreads => 6,
            SetupItem::ShowProgramPath => 7,
            SetupItem::HighlightNewProcesses => 8,
            SetupItem::HighlightLargeNumbers => 9,
            SetupItem::TreeView => 10,
            SetupItem::ConfirmKill => 11,
            SetupItem::ColorScheme => 12,
            SetupItem::ConfigureColumns => 13,
            SetupItem::GpuMeterAdapter => 14,
            SetupItem::ResetAllSettings => 15,
        }
    }

    pub open spec fn spec_label(self) -> Seq<char> {
        match self {
            SetupItem::RefreshRate => "Refresh rate"@,
            SetupItem::CpuMeterMode => "CPU meter mode"@,
            SetupItem::MemoryMeterMode => "Memory meter mode"@,
            SetupItem::GpuMeterMode => "GPU meter mode"@,
            SetupItem::NpuMeterMode => "NPU meter mode"@,
            SetupItem::ShowKernelThreads => "Show kernel threads"@,
            SetupItem::ShowUserThreads => "Show user threads"@,
            SetupItem::ShowProgramPath => "Show program path"@,
            SetupItem::HighlightNewProcesses => "Highlight new processes"@,
            SetupItem::HighlightLargeNumbers => "Highlight large numbers"@,
            SetupItem::TreeView => "Tree view"@,
            SetupItem::ConfirmKill => "Confirm force terminate"@,
            SetupItem::ColorScheme => "Color scheme"@,
            SetupItem::ConfigureColumns => "Configure columns"@,
            SetupItem::GpuMeterAdapter => "GPU meter adapter"@,
            SetupItem::ResetAllSettings => "Reset all settings"@,
        }
    }

    /// The rows in display order.
    pub fn all() -> (r: &'static [SetupItem])
        ensures
            r@ == setup_items(),
            r@ == Self::ALL@,
    {
        let r: &'static [SetupItem] = &Self::ALL;
        assert(r@ =~= setup_items());
        r
    }

    pub fn label(self) -> (r: &'static str)
        ensures
            r@ == self.spec_label(),
    {
        match self {
            SetupItem::RefreshRate => "Refresh rate",
            SetupItem::CpuMeterMode => "CPU meter mode",
            SetupItem::MemoryMeterMode => "Memory meter mode",
            SetupItem::GpuMeterMode => "GPU meter mode",
            SetupItem::NpuMeterMode => "NPU meter mode",
            SetupItem::ShowKernelThreads => "Show kernel threads",
            SetupItem::ShowUserThreads => "Show user threads",
            SetupItem::ShowProgramPath => "Show program path",
            SetupItem::HighlightNewProcesses => "Highlight new processes",
            SetupItem::HighlightLargeNumbers => "Highlight large numbers",
            SetupItem::TreeView => "Tree view",
            SetupItem::ConfirmKill => "Confirm force terminate",
            SetupItem::ColorScheme => "Color scheme",
            SetupItem::ConfigureColumns => "Configure columns",
            SetupItem::GpuMeterAdapter => "GPU meter adapter",
            SetupItem::ResetAllSettings => "Reset all settings",
        }
    }

    /// Stable row lookup for submenus that return to Setup.
    pub fn index(self) -> (r: usize)
        ensures
            r == self.rank(),
            setup_items()[r as int] == self,
    {
        let all = SetupItem::all();
        let mut i: usize = 0;
        while i < all.len()
            invariant
                all@ == setup_items(),
                0 <= i <= all.len(),
                forall|j: int| 0 <= j < i ==> all@[j] != self,
            decreases all.len() - i,
        {
            if all[i] == self {
                return i;
            }
            i = i + 1;
        }
        assert(all@[self.rank() as int] == self);
        0
    }
}

/// The destructive reset is the last Setup row, right after the GPU meter
/// adapter row, and every row sits at its index.
pub proof fn setup_reset_is_last(item: SetupItem)
    ensures
        setup_items().last() == SetupItem::ResetAllSettings,
        SetupItem::GpuMeterAdapter.rank() == setup_items().len() - 2,
        item.rank() < setup_items().len(),
        setup_items()[item.rank() as int] == item,
{
}

// ============================================================================
// Termination requests and process-list rows
// ============================================================================

/// Process data frozen when a termination action is requested.
#[derive(Debug, Clone)]
pub struct TerminationTarget {
    pub identity: ProcessIdentity,
    pub name: String,
    pub command: String,
}

#[derive(Debug, Clone)]
pub enum TerminationRequest {
    Single(TerminationTarget),
    Tagged(Vec<TerminationTarget>),
}

/// A one-element slice borrowing `t`.
#[verifier::external_body]
fn slice_of_one<T>(t: &T) -> (r: &[T])
    ensures
        r@ == seq![*t],
{
    std::slice::from_ref(t)
}

impl TerminationRequest {
    pub open spec fn spec_targets(self) -> Seq<TerminationTarget> {
        match self {
            TerminationRequest::Single(t) => seq![t],
            TerminationRequest::Tagged(ts) => ts@,
        }
    }

    pub fn targets(&self) -> (r: &[TerminationTarget])
        ensures
            r@ == self.spec_targets(),
    {
        match self {
            TerminationRequest::Single(target) => slice_of_one(target),
            TerminationRequest::Tagged(targets) => targets.as_slice(),
        }
    }

    pub fn tagged_count(&self) -> (r: usize)
        ensures
            r == match self {
                TerminationRequest::Single(_) => 0,
                TerminationRequest::Tagged(ts) => ts@.len(),
            },
    {
        match self {
            TerminationRequest::Single(_) => 0,
            TerminationRequest::Tagged(targets) => targets.len(),
        }
    }
}

/// One row of the process list: an index into the process snapshot plus
/// what the list view adds to that process (tree layout, search highlight).
#[derive(Debug, Clone, PartialEq, Eq)]
pub struct DisplayRow {
    /// Index into the process snapshot.
    pub index: usize,
    pub tree_depth: u16,
    /// Tree display prefix.
    pub tree_prefix: String,
    /// Has child processes (tree view).
    pub has_children: bool,
    /// Collapsed in tree view.
    pub is_collapsed: bool,
    /// Matches the active search (highlighted).
    pub matches_search: bool,
}

impl Default for DisplayRow {
    fn default() -> (r: DisplayRow)
        ensures
            r.index == 0 && r.tree_depth == 0 && r.tree_prefix@ == Seq::<char>::empty(),
            !r.has_children && !r.is_collapsed && !r.matches_search,
    {
        DisplayRow::flat(0)
    }
}

impl DisplayRow {
    /// A flat (non-tree) row for `processes[index]`.
    pub fn flat(index: usize) -> (r: DisplayRow)
        ensures
            r.index == index && r.tree_depth == 0 && r.tree_prefix@ == Seq::<char>::empty(),
            !r.has_children && !r.is_collapsed && !r.matches_search,
    {
        DisplayRow {
            index,
            tree_depth: 0,
            tree_prefix: String::new(),
            has_children: false,
            is_collapsed: false,
            matches_search: false,
        }
    }
}


// ============================================================================
// Cursor movement in edit buffers
// ============================================================================

/// The last character boundary of `b` at or before `i` (0 at the latest).
pub open spec fn boundary_at_or_before(b: Seq<u8>, i: int) -> int
    decreases i,
{
    if i <= 0 {
        0
    } else if is_char_boundary(b, i) {
        i
    } else {
        boundary_at_or_before(b, i - 1)
    }
}

/// The first character boundary of `b` after `i` (the end at the latest).
pub open spec fn boundary_after(b: Seq<u8>, i: int) -> int
    decreases b.len() - i,
{
    if i >= b.len() {
        b.len() as int
    } else if is_char_boundary(b, i + 1) {
        i + 1
    } else {
        boundary_after(b, i + 1)
    }
}

/// The cursor limited to the end of the buffer.
pub open spec fn clamped_cursor(buffer: &str, cursor: usize) -> int {
    if cursor < buffer.spec_bytes().len() {
        cursor as int
    } else {
        buffer.spec_bytes().len() as int
    }
}

/// Move `cursor` onto the buffer: at most its length, and back to the start
/// of the character it points into.
pub fn clamp_char_boundary(buffer: &str, cursor: usize) -> (r: usize)
    ensures
        r == boundary_at_or_before(buffer.spec_bytes(), clamped_cursor(buffer, cursor)),
{
    let n = buffer.as_bytes().len();
    let mut c = if cursor < n { cursor } else { n };
    let ghost target = boundary_at_or_before(buffer.spec_bytes(), c as int);
    while c > 0 && !buffer.is_char_boundary(c)
        invariant
            target == boundary_at_or_before(buffer.spec_bytes(), c as int),
        decreases c,
    {
        c = c - 1;
    }
    c
}

/// The start of the character before `cursor` (0 at the start).
pub fn prev_char_boundary(buffer: &str, cursor: usize) -> (r: usize)
    ensures
        r == boundary_at_or_before(buffer.spec_bytes(), clamped_cursor(buffer, cursor) - 1),
{
    let n = buffer.as_bytes().len();
    let c = if cursor < n { cursor } else { n };
    if c == 0 {
        return 0;
    }
    let mut i = c - 1;
    let ghost target = boundary_at_or_before(buffer.spec_bytes(), i as int);
    while i > 0 && !buffer.is_char_boundary(i)
        invariant
            target == boundary_at_or_before(buffer.spec_bytes(), i as int),
        decreases i,
    {
        i = i - 1;
    }
    i
}

/// The end of the character at `cursor` (after clamping it), or the end of
/// the buffer.
pub fn next_char_boundary(buffer: &str, cursor: usize) -> (r: usize)
    ensures
        r == boundary_after(
            buffer.spec_bytes(),
            boundary_at_or_before(buffer.spec_bytes(), clamped_cursor(buffer, cursor)),
        ),
{
    let c = clamp_char_boundary(buffer, cursor);
    let len = buffer.as_bytes().len();
    proof {
        lemma_boundary_at_or_before_range(buffer.spec_bytes(), clamped_cursor(buffer, cursor));
    }
    if c >= len {
        return len;
    }
    let mut i = c + 1;
    let ghost target = boundary_after(buffer.spec_bytes(), c as int);
    while i < len && !buffer.is_char_boundary(i)
        invariant
            c < i <= len,
            len == buffer.spec_bytes().len(),
            target == boundary_after(buffer.spec_bytes(), i - 1),
        decreases len - i,
    {
        i = i + 1;
    }
    proof {
        if i == len && !is_char_boundary(buffer.spec_bytes(), i as int) {
            assert(boundary_after(buffer.spec_bytes(), i as int) == len);
        }
    }
    i
}

pub(crate) proof fn lemma_boundary_at_or_before_range(b: Seq<u8>, i: int)
    ensures
        0 <= boundary_at_or_before(b, i),
        i >= 0 ==> boundary_at_or_before(b, i) <= i,
    decreases i,
{
    if i > 0 {
        lemma_boundary_at_or_before_range(b, i - 1);
    }
}

pub(crate) proof fn lemma_boundary_after_range(b: Seq<u8>, i: int)
    requires
        0 <= i < b.len(),
    ensures
        i < boundary_after(b, i) <= b.len(),
        forall|k: int| i < k < boundary_after(b, i) ==> !is_char_boundary(b, k),
    decreases b.len() - i,
{
    if is_char_boundary(b, i + 1) {
    } else if i + 1 < b.len() {
        lemma_boundary_after_range(b, i + 1);
    } else {
        assert(boundary_after(b, i + 1) == b.len());
    }
}

pub(crate) proof fn lemma_boundary_before_skips(b: Seq<u8>, c: int, i: int)
    requires
        0 <= c <= i,
        is_char_boundary(b, c),
        forall|k: int| c < k <= i ==> !is_char_boundary(b, k),
    ensures
        boundary_at_or_before(b, i) == c,
    decreases i,
{
    if i > c {
        lemma_boundary_before_skips(b, c, i - 1);
    }
}

/// Stepping forward over a character and back again returns to its start.
pub proof fn next_then_prev_boundary(b: Seq<u8>, c: int)
    requires
        0 <= c < b.len(),
        c == 0 || is_char_boundary(b, c),
    ensures
        boundary_at_or_before(b, boundary_after(b, c) - 1) == c,
{
    lemma_boundary_after_range(b, c);
    if c == 0 {
        if boundary_after(b, c) - 1 > 0 {
            lemma_boundary_at_or_before_zero(b, boundary_after(b, c) - 1);
        }
    } else {
        lemma_boundary_before_skips(b, c, boundary_after(b, c) - 1);
    }
}

proof fn lemma_boundary_at_or_before_zero(b: Seq<u8>, i: int)
    requires
        forall|k: int| 0 < k <= i ==> !is_char_boundary(b, k),
    ensures
        boundary_at_or_before(b, i) == 0,
    decreases i,
{
    if i > 0 {
        lemma_boundary_at_or_before_zero(b, i - 1);
    }
}

} // verus!
