//! The records handed to callers: architectures, processes and modules.
use vstd::prelude::*;

verus! {

/// An address that stands for "none": all bits set.
pub const INVALID_ADDRESS: u64 = 0xffff_ffff_ffff_ffff;

/// The null address.
pub const NULL_ADDRESS: u64 = 0;

/// An architecture tag.
#[derive(Clone, Copy, Debug, PartialEq, Eq, Structural)]
pub enum ArchitectureIdent {
    /// An architecture this library has no name for.
    Unknown(usize),
    /// x86 of the given bitness, with or without address extensions.
    X86(u8, bool),
    /// 64-bit Arm with the given page size.
    AArch64(usize),
}

/// The lifecycle state of a process.
#[derive(Clone, Copy, Debug, PartialEq, Eq, Structural)]
pub enum ProcessState {
    /// Nothing is known.
    Unknown,
    /// The process runs.
    Alive,
    /// The process exited with the given code.
    Dead(i32),
}

/// A process as the enumerator reports it.
#[derive(Debug, PartialEq, Eq)]
pub struct ProcessRecord {
    /// Synthetic or native address that identifies the process.
    pub address: u64,
    /// Process id.
    pub pid: u32,
    /// Lifecycle state.
    pub state: ProcessState,
    /// Name of the executable.
    pub name: String,
    /// Path of the executable.
    pub path: String,
    /// Command line.
    pub command_line: String,
    /// Architecture of the system.
    pub sys_arch: ArchitectureIdent,
    /// Architecture of the process.
    pub proc_arch: ArchitectureIdent,
    /// First directory table base; never valid on a native backend.
    pub dtb1: u64,
    /// Second directory table base; never valid on a native backend.
    pub dtb2: u64,
}

impl Clone for ProcessRecord {
    fn clone(&self) -> (r: Self)
        ensures
            r == *self,
    {
        ProcessRecord {
            address: self.address,
            pid: self.pid,
            state: self.state,
            name: self.name.clone(),
            path: self.path.clone(),
            command_line: self.command_line.clone(),
            sys_arch: self.sys_arch,
            proc_arch: self.proc_arch,
            dtb1: self.dtb1,
            dtb2: self.dtb2,
        }
    }
}

/// A process record with its strings as sequences of characters.
pub struct ProcessRecordView {
    pub address: u64,
    pub pid: u32,
    pub state: ProcessState,
    pub name: Seq<char>,
    pub path: Seq<char>,
    pub command_line: Seq<char>,
    pub sys_arch: ArchitectureIdent,
    pub proc_arch: ArchitectureIdent,
    pub dtb1: u64,
    pub dtb2: u64,
}

impl View for ProcessRecord {
    type V = ProcessRecordView;

    open spec fn view(&self) -> ProcessRecordView {
        ProcessRecordView {
            address: self.address,
            pid: self.pid,
            state: self.state,
            name: self.name@,
            path: self.path@,
            command_line: self.command_line@,
            sys_arch: self.sys_arch,
            proc_arch: self.proc_arch,
            dtb1: self.dtb1,
            dtb2: self.dtb2,
        }
    }
}

/// What an enumeration of modules hands to its callback for each module.
#[derive(Clone, Copy, Debug, PartialEq, Eq, Structural)]
pub struct ModuleAddress {
    /// Synthetic address of the module: its index in the module list of the
    /// pass that produced it, and nothing else.
    pub address: u64,
    /// Architecture of the module.
    pub arch: ArchitectureIdent,
}

/// A module of a process.
#[derive(Debug, PartialEq, Eq)]
pub struct ModuleRecord {
    /// Synthetic address: the index of the module in the module list of the
    /// enumeration pass that produced it. A later pass assigns anew.
    pub address: u64,
    /// Address of the process that owns the module.
    pub parent_process: u64,
    /// First address of the module in memory.
    pub base: u64,
    /// Number of bytes the module occupies.
    pub size: u64,
    /// Display name.
    pub name: String,
    /// Full path.
    pub path: String,
    /// Architecture.
    pub arch: ArchitectureIdent,
}

/// A module record with its strings as sequences of characters.
pub struct ModuleRecordView {
    pub address: u64,
    pub parent_process: u64,
    pub base: u64,
    pub size: u64,
    pub name: Seq<char>,
    pub path: Seq<char>,
    pub arch: ArchitectureIdent,
}

impl Clone for ModuleRecord {
    fn clone(&self) -> (r: Self)
        ensures
            r == *self,
    {
        ModuleRecord {
            address: self.address,
            parent_process: self.parent_process,
            base: self.base,
            size: self.size,
            name: self.name.clone(),
            path: self.path.clone(),
            arch: self.arch,
        }
    }
}

impl View for ModuleRecord {
    type V = ModuleRecordView;

    open spec fn view(&self) -> ModuleRecordView {
        ModuleRecordView {
            address: self.address,
            parent_process: self.parent_process,
            base: self.base,
            size: self.size,
            name: self.name@,
            path: self.path@,
            arch: self.arch,
        }
    }
}

/// What is known of the operating system itself.
#[derive(Clone, Copy, Debug, PartialEq, Eq, Structural)]
pub struct OsInfo {
    /// Base address of the kernel image.
    pub base: u64,
    /// Size of the kernel image.
    pub size: u64,
    /// Architecture of the system.
    pub arch: ArchitectureIdent,
}

} // verus!
