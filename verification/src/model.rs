//! The values a redaction run works on.
use vstd::prelude::*;

verus! {

/// A loaded executable or library: its file path and where it is mapped.
#[derive(Clone, Debug, PartialEq, Eq)]
pub struct ModuleRecord {
    pub name: String,
    pub base_address: u64,
    pub size: u64,
}

impl ModuleRecord {
    /// The end of the mapped range `[base_address, base_address + size)`,
    /// as a mathematical integer.
    pub open spec fn end(&self) -> int {
        self.base_address + self.size
    }

    /// The mapped range ends inside the 64-bit address space.
    pub open spec fn well_formed(&self) -> bool {
        self.end() <= u64::MAX
    }

    /// `addr` lies in the mapped range.
    pub open spec fn covers(&self, addr: int) -> bool {
        self.base_address <= addr < self.end()
    }
}

/// The addresses that lie in the mapped range of at least one module.
pub open spec fn module_cover(modules: Seq<ModuleRecord>) -> Set<int> {
    Set::new(|addr: int| exists|i: int| 0 <= i < modules.len() && #[trigger] modules[i].covers(addr))
}

/// A span of captured memory, named by where its bytes lie in the dump.
#[derive(Clone, Copy, Debug, PartialEq, Eq, Structural)]
pub struct MemoryRegionDescriptor {
    /// Offset of the first byte in the dump's byte buffer.
    pub rva: u32,
    /// Number of bytes.
    pub size: u32,
}

impl MemoryRegionDescriptor {
    /// One past the offset of the last byte.
    pub open spec fn end(&self) -> int {
        self.rva + self.size
    }

    /// The byte at `offset` belongs to the region.
    pub open spec fn holds(&self, offset: int) -> bool {
        self.rva <= offset < self.end()
    }

    /// The region lies inside a buffer of `len` bytes.
    pub open spec fn fits(&self, len: int) -> bool {
        self.end() <= len
    }

    /// The two regions share no byte.
    pub open spec fn apart_from(&self, other: MemoryRegionDescriptor) -> bool {
        self.size == 0 || other.size == 0 || self.end() <= other.rva || other.end() <= self.rva
    }
}

/// The stack of one thread, as the thread list declares it.
#[derive(Clone, Copy, Debug, PartialEq, Eq, Structural)]
pub struct ThreadStackDescriptor {
    pub stack: MemoryRegionDescriptor,
}

/// The size of a native address on the dump's target.
#[derive(Clone, Copy, Debug, PartialEq, Eq, Structural)]
pub enum PointerWidth {
    Bits32,
    Bits64,
}

impl PointerWidth {
    /// The width in bytes, 4 or 8, as a mathematical integer.
    pub open spec fn byte_count(self) -> int {
        match self {
            PointerWidth::Bits32 => 4,
            PointerWidth::Bits64 => 8,
        }
    }

    /// `k` times the width.
    pub open spec fn times(self, k: int) -> int {
        match self {
            PointerWidth::Bits32 => 4 * k,
            PointerWidth::Bits64 => 8 * k,
        }
    }

    /// How many whole windows of this width fit in `n` bytes.
    pub open spec fn windows_in(self, n: int) -> int {
        match self {
            PointerWidth::Bits32 => n / 4,
            PointerWidth::Bits64 => n / 8,
        }
    }

    /// The width in bytes.
    pub fn bytes(self) -> (n: usize)
        ensures
            n == self.byte_count(),
    {
        match self {
            PointerWidth::Bits32 => 4,
            PointerWidth::Bits64 => 8,
        }
    }

    /// The width that is `n` bytes wide, if there is one.
    pub fn from_bytes(n: u8) -> (width: Option<PointerWidth>)
        ensures
            n == 4 ==> width == Some(PointerWidth::Bits32),
            n == 8 ==> width == Some(PointerWidth::Bits64),
            n != 4 && n != 8 ==> width.is_none(),
    {
        if n == 4 {
            Some(PointerWidth::Bits32)
        } else if n == 8 {
            Some(PointerWidth::Bits64)
        } else {
            None
        }
    }
}

/// Byte counts of one redaction run.
#[derive(Clone, Copy, Debug, PartialEq, Eq, Structural)]
pub struct RedactionStats {
    /// Bytes that lie in a memory region.
    pub bytes_considered: u64,
    /// Bytes that were overwritten with zero.
    pub bytes_zeroed: u64,
    /// Length of the whole output buffer.
    pub total_output_len: u64,
}

/// A module whose name starts with none of the allowed prefixes.
#[derive(Clone, Debug, PartialEq, Eq)]
pub struct UntrustedModule {
    pub name: String,
}

/// A thread stack that is not among the dump's memory regions.
#[derive(Clone, Copy, Debug, PartialEq, Eq, Structural)]
pub struct InconsistentDump {
    pub stack: MemoryRegionDescriptor,
}

/// A module whose mapped range runs past the end of the address space.
#[derive(Clone, Debug, PartialEq, Eq)]
pub struct MalformedModuleData {
    pub name: String,
    pub base_address: u64,
    pub size: u64,
}

/// Why a dump was not redacted.
#[derive(Clone, Debug, PartialEq, Eq)]
pub enum RedactError {
    UntrustedModule(UntrustedModule),
    InconsistentDump(InconsistentDump),
    MalformedModuleData(MalformedModuleData),
}

} // verus!
