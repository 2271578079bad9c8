//! Raw mapping records as an operating system reports them.
use vstd::prelude::*;

verus! {

/// What backs a mapping.
#[derive(Debug, PartialEq, Eq)]
pub enum Backing {
    /// A file. `path` is the full path and `file_name` its final component,
    /// each present only when it has one and it is valid Unicode.
    File { path: Option<String>, file_name: Option<String> },
    /// The process heap.
    Heap,
    /// The stack of the initial thread.
    Stack,
    /// The stack of the thread with the given id.
    ThreadStack(u32),
    /// The virtual dynamically linked shared object.
    Vdso,
    /// Shared kernel variables.
    Vvar,
    /// The obsolete virtual system call page.
    Vsyscall,
    /// A roll-up of all mappings of a process.
    Rollup,
    /// An anonymous mapping.
    Anonymous,
    /// A shared memory segment with the given key.
    SharedMemory(i32),
    /// Some other pseudo-path, held without its brackets.
    Other(String),
}

impl Backing {
    /// Whether a file backs the mapping.
    pub open spec fn is_file(self) -> bool {
        self is File
    }

    /// The display name of what backs a mapping: the final component of
    /// the path for a file, `unknown` where a file has none that is valid
    /// Unicode, a bracketed tag for every other kind, and the pseudo-path
    /// itself where the kind is not known.
    pub open spec fn display_name(self) -> Seq<char> {
        match self {
            Backing::File { path, file_name: Some(name) } => name@,
            Backing::File { path, file_name: None } => "unknown"@,
            Backing::Heap => "[heap]"@,
            Backing::Stack => "[stack]"@,
            Backing::ThreadStack(_) => "[tstack]"@,
            Backing::Vdso => "[vdso]"@,
            Backing::Vvar => "[vvar]"@,
            Backing::Vsyscall => "[vsyscall]"@,
            Backing::Rollup => "[rollup]"@,
            Backing::Anonymous => "[anonymous]"@,
            Backing::SharedMemory(_) => "[vsys]"@,
            Backing::Other(tag) => tag@,
        }
    }

    /// The full path of what backs a mapping: the path for a file, `unknown`
    /// where it is not valid Unicode, and the display name for every other
    /// kind.
    pub open spec fn display_path(self) -> Seq<char> {
        match self {
            Backing::File { path: Some(full), file_name } => full@,
            Backing::File { path: None, file_name } => "unknown"@,
            _ => self.display_name(),
        }
    }

    /// Tells whether a file backs the mapping.
    pub fn file_backed(&self) -> (b: bool)
        ensures
            b == self.is_file(),
    {
        match self {
            Backing::File { .. } => true,
            _ => false,
        }
    }
}

/// A copy of an optional string.
fn copy_of(s: &Option<String>) -> (r: Option<String>)
    ensures
        r == *s,
{
    match s {
        Some(text) => Some(text.clone()),
        None => None,
    }
}

impl Clone for Backing {
    fn clone(&self) -> (r: Self)
        ensures
            r == *self,
    {
        match self {
            Backing::File { path, file_name } => Backing::File {
                path: copy_of(path),
                file_name: copy_of(file_name),
            },
            Backing::Heap => Backing::Heap,
            Backing::Stack => Backing::Stack,
            Backing::ThreadStack(tid) => Backing::ThreadStack(*tid),
            Backing::Vdso => Backing::Vdso,
            Backing::Vvar => Backing::Vvar,
            Backing::Vsyscall => Backing::Vsyscall,
            Backing::Rollup => Backing::Rollup,
            Backing::Anonymous => Backing::Anonymous,
            Backing::SharedMemory(key) => Backing::SharedMemory(*key),
            Backing::Other(tag) => Backing::Other(tag.clone()),
        }
    }
}

/// One contiguous mapping `[start, end)` of a process, before normalisation.
#[derive(Debug, PartialEq, Eq)]
pub struct RawMapping {
    /// First address of the mapping.
    pub start: u64,
    /// First address past the mapping.
    pub end: u64,
    /// Native permission bits.
    pub perms: u8,
    /// Offset into the backing file.
    pub offset: u64,
    /// Device (major, minor) of the backing file.
    pub dev: (i32, i32),
    /// Inode of the backing file on that device.
    pub inode: u64,
    /// What backs the mapping.
    pub backing: Backing,
}

impl RawMapping {
    /// The number of addresses the mapping covers; none when its bounds are
    /// out of order.
    pub open spec fn span(self) -> int {
        if self.end >= self.start {
            self.end - self.start
        } else {
            0
        }
    }
}

impl Clone for RawMapping {
    fn clone(&self) -> (r: Self)
        ensures
            r == *self,
    {
        RawMapping {
            start: self.start,
            end: self.end,
            perms: self.perms,
            offset: self.offset,
            dev: (self.dev.0, self.dev.1),
            inode: self.inode,
            backing: self.backing.clone(),
        }
    }
}

} // verus!
