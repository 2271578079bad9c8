//! The operating system under introspection: its process list and what it
//! offers of kernel modules.
use crate::error::{conv_err, ErrorKind};
use crate::feed::{fed, feed_into, Sink};
use crate::model::{
    ArchitectureIdent, ModuleRecord, OsInfo, ProcessRecord, ProcessRecordView, ProcessState,
    INVALID_ADDRESS, NULL_ADDRESS,
};
use vstd::prelude::*;
use vstd::slice::slice_subrange;

verus! {

/// A native process descriptor, as the snapshot facility lists it.
#[derive(Debug, PartialEq, Eq)]
pub struct ProcessEntry {
    /// Process id.
    pub pid: u32,
    /// Path of the executable in UTF-16, as far as the snapshot gives it. The
    /// path ends at the first zero unit, or with the buffer when it holds
    /// none.
    pub exe_file: Vec<u16>,
}

/// The text that `String::from_utf16_lossy` of the standard library decodes
/// from UTF-16 code units: invalid data comes out as the replacement
/// character.
pub uninterp spec fn utf16_lossy(units: Seq<u16>) -> Seq<char>;

/// Decodes UTF-16 by a call of `String::from_utf16_lossy`. This contract is
/// believed, not proved: it claims that the text returned depends on the
/// units alone, and nothing else of it.
#[verifier::external_body]
fn decode_utf16_lossy(units: &[u16]) -> (text: String)
    ensures
        text@ == utf16_lossy(units@),
{
    String::from_utf16_lossy(units)
}

/// Whether the text in `units` is `n` units long: no zero unit comes before
/// `n`, and a zero unit stands at `n` unless the buffer ends there.
pub open spec fn is_text_len(units: Seq<u16>, n: int) -> bool {
    &&& 0 <= n <= units.len()
    &&& forall|i: int| 0 <= i < n ==> units[i] != 0
    &&& n < units.len() ==> units[n] == 0
}

/// The length of the zero-terminated text in `units`.
pub open spec fn text_len(units: Seq<u16>) -> int {
    choose|n: int| is_text_len(units, n)
}

/// The text in a buffer has one length only.
pub proof fn lemma_text_len(units: Seq<u16>, n: int)
    requires
        is_text_len(units, n),
    ensures
        text_len(units) == n,
{
    let m = text_len(units);
    assert(is_text_len(units, m));
    if m < n {
        assert(units[m] != 0);
    }
    if n < m {
        assert(units[n] != 0);
    }
}

/// Measures the zero-terminated text in `units`.
pub fn text_length(units: &Vec<u16>) -> (n: usize)
    ensures
        n == text_len(units@),
        is_text_len(units@, n as int),
{
    let mut i: usize = 0;
    while i < units.len() && units[i] != 0
        invariant
            i <= units.len(),
            forall|k: int| 0 <= k < i ==> units@[k] != 0,
        decreases units.len() - i,
    {
        i = i + 1;
    }
    proof {
        lemma_text_len(units@, i as int);
    }
    i
}

/// The path of the executable that `entry` names.
pub open spec fn exe_path(entry: ProcessEntry) -> Seq<char> {
    utf16_lossy(entry.exe_file@.take(text_len(entry.exe_file@)))
}

/// A kernel module. The platform offers no way to list them, so no value of
/// this type is ever made.
struct KernelModule {}

/// Where the file name starts in `path`: just past its last backslash, or at
/// its start when it has none.
pub open spec fn name_start(path: Seq<char>) -> int
    decreases path.len(),
{
    if path.len() == 0 {
        0
    } else if path.last() == '\\' {
        path.len() as int
    } else {
        name_start(path.drop_last())
    }
}

/// The name of an executable: what follows the last backslash of its path,
/// or the whole path when it has none.
pub open spec fn exe_name(path: Seq<char>) -> Seq<char> {
    path.skip(name_start(path))
}

/// The name of an executable is the longest tail of its path that holds no
/// backslash.
pub proof fn lemma_exe_name(path: Seq<char>)
    ensures
        0 <= name_start(path) <= path.len(),
        name_start(path) > 0 ==> path[name_start(path) - 1] == '\\',
        forall|i: int| name_start(path) <= i < path.len() ==> path[i] != '\\',
        forall|i: int| 0 <= i < exe_name(path).len() ==> exe_name(path)[i] != '\\',
        path.take(name_start(path)) + exe_name(path) == path,
    decreases path.len(),
{
    if path.len() > 0 && path.last() != '\\' {
        let front = path.drop_last();
        lemma_exe_name(front);
        assert forall|i: int| name_start(path) <= i < path.len() implies path[i] != '\\' by {
            if i < front.len() {
                assert(front[i] == path[i]);
            }
        }
    }
    assert forall|i: int| 0 <= i < exe_name(path).len() implies exe_name(path)[i] != '\\' by {
        assert(exe_name(path)[i] == path[name_start(path) + i]);
    }
    assert(path.take(name_start(path)) + exe_name(path) =~= path);
}

/// Splits the name of an executable off its path.
pub fn exe_name_of(path: &str) -> (name: String)
    ensures
        name@ == exe_name(path@),
{
    let n: usize = path.unicode_len();
    let mut i: usize = n;
    let mut found: bool = false;
    assert(path@.take(n as int) =~= path@);
    while i > 0 && !found
        invariant
            i <= n,
            n == path@.len(),
            name_start(path@) == name_start(path@.take(i as int)),
            found ==> i > 0 && path@[i - 1] == '\\',
        decreases i, if found { 0int } else { 1int },
    {
        if path.get_char(i - 1) == '\\' {
            found = true;
        } else {
            assert(path@.take(i as int).drop_last() =~= path@.take(i - 1));
            i = i - 1;
        }
    }
    proof {
        if found {
            assert(path@.take(i as int).last() == '\\');
        }
        lemma_exe_name(path@);
        assert(path@.subrange(i as int, n as int) =~= path@.skip(i as int));
    }
    String::from_str(path.substring_char(i, n))
}

/// Whether `token` is one of the values that switch privilege elevation off:
/// `off`, `n` or `0`, in any mix of upper and lower case.
pub open spec fn switches_off(token: Seq<char>) -> bool {
    ||| {
        &&& token.len() == 3
        &&& (token[0] == 'o' || token[0] == 'O')
        &&& (token[1] == 'f' || token[1] == 'F')
        &&& (token[2] == 'f' || token[2] == 'F')
    }
    ||| {
        &&& token.len() == 1
        &&& (token[0] == 'n' || token[0] == 'N' || token[0] == '0')
    }
}

/// Whether a start with the configuration value `elevate_token` elevates
/// privileges first. Elevation is on unless the value switches it off.
pub open spec fn elevation_wanted(elevate_token: Option<&str>) -> bool {
    match elevate_token {
        Some(token) => !switches_off(token@),
        None => true,
    }
}

/// Tells whether a start with the configuration value `elevate_token`
/// elevates privileges first.
pub fn wants_elevation(elevate_token: Option<&str>) -> (wanted: bool)
    ensures
        wanted == elevation_wanted(elevate_token),
{
    match elevate_token {
        None => true,
        Some(token) => {
            let n: usize = token.unicode_len();
            if n == 3 {
                let a = token.get_char(0);
                let b = token.get_char(1);
                let c = token.get_char(2);
                !((a == 'o' || a == 'O') && (b == 'f' || b == 'F') && (c == 'f' || c == 'F'))
            } else if n == 1 {
                let a = token.get_char(0);
                !(a == 'n' || a == 'N' || a == '0')
            } else {
                true
            }
        },
    }
}

/// The record of the process that `entry` describes, on a system of
/// architecture `arch`. The process id serves as its address.
pub open spec fn process_record(entry: ProcessEntry, arch: ArchitectureIdent) -> ProcessRecordView {
    ProcessRecordView {
        address: entry.pid as u64,
        pid: entry.pid,
        state: ProcessState::Alive,
        name: exe_name(exe_path(entry)),
        path: exe_path(entry),
        command_line: Seq::empty(),
        sys_arch: arch,
        proc_arch: arch,
        dtb1: INVALID_ADDRESS,
        dtb2: INVALID_ADDRESS,
    }
}

/// The addresses an enumeration of `entries` announces.
pub open spec fn process_addresses(entries: Seq<ProcessEntry>) -> Seq<u64> {
    entries.map_values(|entry: ProcessEntry| entry.pid as u64)
}

/// The addresses an enumeration of `count` kernel modules announces: the
/// indices `0..count`.
pub open spec fn kernel_module_addresses(count: nat) -> Seq<u64> {
    Seq::new(count, |i: int| i as u64)
}

/// Lists the addresses that an enumeration of `entries` announces.
pub fn addresses_of(entries: &Vec<ProcessEntry>) -> (list: Vec<u64>)
    ensures
        list@ == process_addresses(entries@),
{
    let mut list: Vec<u64> = Vec::new();
    let mut i: usize = 0;
    while i < entries.len()
        invariant
            i <= entries.len(),
            list@ == process_addresses(entries@.take(i as int)),
        decreases entries.len() - i,
    {
        list.push(entries[i].pid as u64);
        i = i + 1;
        assert(list@ =~= process_addresses(entries@.take(i as int)));
    }
    assert(entries@.take(i as int) =~= entries@);
    list
}

/// Lists the addresses `0..count`.
pub fn indices_up_to(count: usize) -> (list: Vec<u64>)
    ensures
        list@ == kernel_module_addresses(count as nat),
{
    let mut list: Vec<u64> = Vec::new();
    let mut i: usize = 0;
    while i < count
        invariant
            i <= count,
            list@ == kernel_module_addresses(i as nat),
        decreases count - i,
    {
        list.push(i as u64);
        i = i + 1;
        assert(list@ =~= kernel_module_addresses(i as nat));
    }
    list
}

/// Builds the record of the process that `entry` describes.
pub fn record_of(entry: &ProcessEntry, arch: ArchitectureIdent) -> (record: ProcessRecord)
    ensures
        record@ == process_record(*entry, arch),
{
    let n: usize = text_length(&entry.exe_file);
    let path = decode_utf16_lossy(slice_subrange(entry.exe_file.as_slice(), 0, n));
    ProcessRecord {
        address: entry.pid as u64,
        pid: entry.pid,
        state: ProcessState::Alive,
        name: exe_name_of(path.as_str()),
        path,
        command_line: String::new(),
        sys_arch: arch,
        proc_arch: arch,
        dtb1: INVALID_ADDRESS,
        dtb2: INVALID_ADDRESS,
    }
}

/// The operating system under introspection, with the processes that the
/// most recent enumeration visited.
pub struct WindowsOs {
    info: OsInfo,
    cached_processes: Vec<ProcessRecord>,
    cached_modules: Vec<KernelModule>,
}

impl Clone for WindowsOs {
    /// A clone knows the system and starts with empty caches.
    fn clone(&self) -> (r: Self)
        ensures
            r.os_info() == self.os_info(),
            r.processes().len() == 0,
            r.kernel_module_count() == 0,
    {
        WindowsOs { info: self.info, cached_processes: Vec::new(), cached_modules: Vec::new() }
    }
}

impl Default for WindowsOs {
    /// A 64-bit x86 system with nothing known of its kernel image and
    /// nothing cached.
    fn default() -> (r: Self)
        ensures
            r.is_fresh(),
    {
        WindowsOs {
            info: OsInfo { base: NULL_ADDRESS, size: 0, arch: ArchitectureIdent::X86(64, false) },
            cached_processes: Vec::new(),
            cached_modules: Vec::new(),
        }
    }
}

impl WindowsOs {
    /// What is known of the system.
    pub closed spec fn os_info(&self) -> OsInfo {
        self.info
    }

    /// The processes that the most recent enumeration visited, in order.
    pub closed spec fn processes(&self) -> Seq<ProcessRecord> {
        self.cached_processes@
    }

    /// How many kernel modules are cached.
    pub closed spec fn kernel_module_count(&self) -> nat {
        self.cached_modules@.len()
    }

    /// The state of a handle that has just been created.
    pub open spec fn is_fresh(&self) -> bool {
        &&& self.os_info() == (OsInfo {
            base: NULL_ADDRESS,
            size: 0,
            arch: ArchitectureIdent::X86(64, false),
        })
        &&& self.processes().len() == 0
        &&& self.kernel_module_count() == 0
    }

    /// Creates the handle. Unless `elevate_token` switches it off, privileges
    /// are elevated first, by one call of `elevate`; a failure there is fatal.
    /// With elevation switched off `elevate` is not called.
    pub fn new<F: FnOnce() -> Result<(), windows::core::Error>>(
        elevate_token: Option<&str>,
        elevate: F,
    ) -> (r: Result<Self, ErrorKind>)
        requires
            elevation_wanted(elevate_token) ==> call_requires(elevate, ()),
        ensures
            r matches Ok(os) ==> os.is_fresh(),
            r matches Err(e) ==> e == ErrorKind::UnableToReadSource,
            !elevation_wanted(elevate_token) ==> r is Ok,
            elevation_wanted(elevate_token) ==> exists|outcome: Result<(), windows::core::Error>|
                #[trigger] call_ensures(elevate, (), outcome) && (outcome is Ok <==> r is Ok),
    {
        if wants_elevation(elevate_token) {
            match elevate() {
                Ok(_) => Ok(WindowsOs::default()),
                Err(e) => Err(conv_err(e)),
            }
        } else {
            Ok(WindowsOs::default())
        }
    }

    /// How many processes the most recent enumeration visited.
    pub fn process_count(&self) -> (count: usize)
        ensures
            count == self.processes().len(),
    {
        self.cached_processes.len()
    }

    /// What is known of the system.
    pub fn info(&self) -> (info: &OsInfo)
        ensures
            *info == self.os_info(),
    {
        &self.info
    }

    /// Walks a fresh snapshot of the process list and hands the address of
    /// each process to `callback`, one call for each and in order, until
    /// `callback` answers `false`. Afterwards the cache holds the records of
    /// the processes whose addresses were handed over, in that order.
    /// Returns how many addresses were handed over.
    ///
    /// A failed snapshot leaves the cache and `callback` as they were.
    pub fn process_address_list_callback<S: Sink<u64>>(
        &mut self,
        snapshot: Result<Vec<ProcessEntry>, windows::core::Error>,
        callback: &mut S,
    ) -> (r: Result<usize, ErrorKind>)
        requires
            old(callback).ready(),
        ensures
            final(callback).ready(),
            final(self).os_info() == old(self).os_info(),
            final(self).kernel_module_count() == old(self).kernel_module_count(),
            snapshot is Ok <==> r is Ok,
            r matches Err(e) ==> {
                &&& e == ErrorKind::UnableToReadSource
                &&& final(self).processes() == old(self).processes()
                &&& *final(callback) == *old(callback)
            },
            r matches Ok(delivered) ==> {
                &&& fed(
                    *old(callback),
                    *final(callback),
                    process_addresses(snapshot->Ok_0@),
                    delivered as nat,
                )
                &&& final(self).processes().len() == delivered
                &&& forall|i: int|
                    0 <= i < delivered ==> (#[trigger] final(self).processes()[i])@
                        == process_record(snapshot->Ok_0@[i], old(self).os_info().arch)
            },
    {
        let entries = match snapshot {
            Ok(entries) => entries,
            Err(e) => {
                return Err(conv_err(e));
            },
        };
        let addresses = addresses_of(&entries);
        let delivered = feed_into(&addresses, callback);
        let arch = self.info.arch;
        let mut visited: Vec<ProcessRecord> = Vec::new();
        let mut i: usize = 0;
        while i < delivered
            invariant
                i <= delivered <= entries.len(),
                visited@.len() == i,
                forall|k: int|
                    0 <= k < i ==> (#[trigger] visited@[k])@ == process_record(entries@[k], arch),
            decreases delivered - i,
        {
            visited.push(record_of(&entries[i], arch));
            i = i + 1;
        }
        self.cached_processes = visited;
        Ok(delivered)
    }

    /// Finds the process with the address `address` among those that the
    /// most recent enumeration visited; the first one, should several share
    /// the address.
    pub fn process_info_by_address(&self, address: u64) -> (r: Result<ProcessRecord, ErrorKind>)
        ensures
            match r {
                Ok(record) => exists|i: int|
                    {
                        &&& 0 <= i < self.processes().len()
                        &&& record == #[trigger] self.processes()[i]
                        &&& record.address == address
                        &&& forall|j: int| 0 <= j < i ==> self.processes()[j].address != address
                    },
                Err(e) => {
                    &&& e == ErrorKind::NotFound
                    &&& forall|i: int|
                        0 <= i < self.processes().len() ==> self.processes()[i].address != address
                },
            },
    {
        let mut i: usize = 0;
        while i < self.cached_processes.len()
            invariant
                i <= self.cached_processes.len(),
                forall|j: int| 0 <= j < i ==> self.cached_processes@[j].address != address,
            decreases self.cached_processes.len() - i,
        {
            if self.cached_processes[i].address == address {
                return Ok(self.cached_processes[i].clone());
            }
            i = i + 1;
        }
        Err(ErrorKind::NotFound)
    }

    /// Hands the address of each cached kernel module to `callback`, one
    /// call for each and in order, until `callback` answers `false`. An
    /// address is the index of the module in the cache. Returns how many
    /// addresses were handed over.
    pub fn module_address_list_callback<S: Sink<u64>>(&mut self, callback: &mut S) -> (r: Result<
        usize,
        ErrorKind,
    >)
        requires
            old(callback).ready(),
        ensures
            final(callback).ready(),
            *final(self) == *old(self),
            r matches Ok(delivered) && fed(
                *old(callback),
                *final(callback),
                kernel_module_addresses(old(self).kernel_module_count()),
                delivered as nat,
            ),
    {
        let addresses = indices_up_to(self.cached_modules.len());
        Ok(feed_into(&addresses, callback))
    }

    /// Kernel modules cannot be resolved on this platform.
    pub fn module_by_address(&self, _address: u64) -> (r: Result<ModuleRecord, ErrorKind>)
        ensures
            r matches Err(e) && e == ErrorKind::NotImplemented,
    {
        Err(ErrorKind::NotImplemented)
    }

    /// The imports of a kernel module cannot be listed on this platform.
    pub fn module_import_list_callback(&self, _module: &ModuleRecord) -> (r: Result<usize, ErrorKind>)
        ensures
            r == Err::<usize, ErrorKind>(ErrorKind::NotImplemented),
    {
        Err(ErrorKind::NotImplemented)
    }

    /// The exports of a kernel module cannot be listed on this platform.
    pub fn module_export_list_callback(&self, _module: &ModuleRecord) -> (r: Result<usize, ErrorKind>)
        ensures
            r == Err::<usize, ErrorKind>(ErrorKind::NotImplemented),
    {
        Err(ErrorKind::NotImplemented)
    }

    /// The sections of a kernel module cannot be listed on this platform.
    pub fn module_section_list_callback(&self, _module: &ModuleRecord) -> (r: Result<usize, ErrorKind>)
        ensures
            r == Err::<usize, ErrorKind>(ErrorKind::NotImplemented),
    {
        Err(ErrorKind::NotImplemented)
    }
}

} // verus!
