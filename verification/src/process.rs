//! One process under introspection: its cached mapping snapshot, its module
//! list, and the enumerations over both.
use crate::error::{conv_proc_err, ErrorKind};
use crate::feed::{fed, feed, feed_into, Sink};
use crate::mapping::{Backing, RawMapping};
use crate::model::{
    ArchitectureIdent, ModuleAddress, ModuleRecord, ModuleRecordView, ProcessRecord, ProcessState,
};
use crate::modules::{coalesce_modules, module_list};
use crate::region::NormalizedRegion;
use crate::pipeline::{lemma_mapped_ranges_len, mapped_ranges};
use crate::stream::RangeStream;
use vstd::prelude::*;

verus! {

/// The addresses an enumeration of `count` modules announces: the indices
/// `0..count`, each tagged with `arch`.
pub open spec fn module_addresses(count: nat, arch: ArchitectureIdent) -> Seq<ModuleAddress> {
    Seq::new(count, |i: int| ModuleAddress { address: i as u64, arch })
}

/// Whether an enumeration filtered by `target` lists the modules of a
/// process on a system of architecture `sys_arch`. The filter is one gate
/// over the whole enumeration: no filter admits everything, and a filter
/// admits everything or nothing according to the system architecture.
pub open spec fn admits(target: Option<ArchitectureIdent>, sys_arch: ArchitectureIdent) -> bool {
    target is None || target == Some(sys_arch)
}

/// What an enumeration filtered by `target` announces for a process `info`
/// with `count` modules: every address, or none.
pub open spec fn announced(target: Option<ArchitectureIdent>, info: ProcessRecord, count: nat) -> Seq<
    ModuleAddress,
> {
    if admits(target, info.sys_arch) {
        module_addresses(count, info.proc_arch)
    } else {
        Seq::empty()
    }
}

/// Lists the addresses `0..count`, each tagged with `arch`.
pub fn addresses_up_to(count: usize, arch: ArchitectureIdent) -> (list: Vec<ModuleAddress>)
    ensures
        list@ == module_addresses(count as nat, arch),
{
    let mut list: Vec<ModuleAddress> = Vec::new();
    let mut i: usize = 0;
    while i < count
        invariant
            i <= count,
            list@ == module_addresses(i as nat, arch),
        decreases count - i,
    {
        list.push(ModuleAddress { address: i as u64, arch });
        i = i + 1;
        assert(list@ =~= module_addresses(i as nat, arch));
    }
    list
}

/// The record of the module that `map` stands for, when it sits at
/// `address` in the module list of the process `info`.
pub open spec fn module_record(map: RawMapping, address: u64, info: ProcessRecord) -> ModuleRecordView {
    ModuleRecordView {
        address,
        parent_process: info.address,
        base: map.start,
        size: map.span() as u64,
        name: map.backing.display_name(),
        path: map.backing.display_path(),
        arch: info.sys_arch,
    }
}

/// A process under introspection. It holds the identity of the process and
/// the most recent snapshot of its mappings and modules; both caches belong
/// to this handle alone.
pub struct LinuxProcess {
    info: ProcessRecord,
    cached_maps: Vec<RawMapping>,
    cached_module_maps: Vec<RawMapping>,
}

impl Clone for LinuxProcess {
    /// A clone is a new handle to the same process: it knows the process, and
    /// starts with empty caches.
    fn clone(&self) -> (r: Self)
        ensures
            r.record() == self.record(),
            r.maps() == Seq::<RawMapping>::empty(),
            r.modules() == Seq::<RawMapping>::empty(),
    {
        LinuxProcess {
            info: self.info.clone(),
            cached_maps: Vec::new(),
            cached_module_maps: Vec::new(),
        }
    }
}

impl LinuxProcess {
    /// The identity of the process.
    pub closed spec fn record(&self) -> ProcessRecord {
        self.info
    }

    /// The cached snapshot of raw mappings.
    pub closed spec fn maps(&self) -> Seq<RawMapping> {
        self.cached_maps@
    }

    /// The cached module list; a module's synthetic address is its index here.
    pub closed spec fn modules(&self) -> Seq<RawMapping> {
        self.cached_module_maps@
    }

    /// What `module_by_address` answers for `address` and `architecture` in the
    /// current state.
    pub open spec fn resolved(&self, address: u64, architecture: ArchitectureIdent) -> Result<
        ModuleRecordView,
        ErrorKind,
    > {
        if architecture == self.record().sys_arch && address < self.modules().len() {
            Ok(module_record(self.modules()[address as int], address, self.record()))
        } else {
            Err(ErrorKind::NotFound)
        }
    }

    /// Creates the handle for the process `info`, given the outcome of
    /// attaching to it. Fails when the process could not be attached to.
    pub fn try_new(info: ProcessRecord, attached: Result<(), procfs::ProcError>) -> (r: Result<
        Self,
        ErrorKind,
    >)
        ensures
            attached is Ok <==> r is Ok,
            r matches Ok(process) ==> process.record() == info && process.maps().len() == 0
                && process.modules().len() == 0,
            r matches Err(e) ==> e == ErrorKind::UnableToReadSource,
    {
        match attached {
            Ok(_) => Ok(LinuxProcess { info, cached_maps: Vec::new(), cached_module_maps: Vec::new() }),
            Err(e) => Err(conv_proc_err(e)),
        }
    }

    /// The display name of what backs a mapping.
    pub fn mmap_path_to_name_string(path: &Backing) -> (name: String)
        ensures
            name@ == path.display_name(),
    {
        match path {
            Backing::File { path: _, file_name } => match file_name {
                Some(name) => name.clone(),
                None => String::from_str("unknown"),
            },
            Backing::Heap => String::from_str("[heap]"),
            Backing::Stack => String::from_str("[stack]"),
            Backing::ThreadStack(_) => String::from_str("[tstack]"),
            Backing::Vdso => String::from_str("[vdso]"),
            Backing::Vvar => String::from_str("[vvar]"),
            Backing::Vsyscall => String::from_str("[vsyscall]"),
            Backing::Rollup => String::from_str("[rollup]"),
            Backing::Anonymous => String::from_str("[anonymous]"),
            Backing::SharedMemory(_) => String::from_str("[vsys]"),
            Backing::Other(tag) => tag.clone(),
        }
    }

    /// The full path of what backs a mapping.
    pub fn mmap_path_to_path_string(path: &Backing) -> (full: String)
        ensures
            full@ == path.display_path(),
    {
        match path {
            Backing::File { path: full, file_name: _ } => match full {
                Some(text) => text.clone(),
                None => String::from_str("unknown"),
            },
            Backing::Heap => String::from_str("[heap]"),
            Backing::Stack => String::from_str("[stack]"),
            Backing::ThreadStack(_) => String::from_str("[tstack]"),
            Backing::Vdso => String::from_str("[vdso]"),
            Backing::Vvar => String::from_str("[vvar]"),
            Backing::Vsyscall => String::from_str("[vsyscall]"),
            Backing::Rollup => String::from_str("[rollup]"),
            Backing::Anonymous => String::from_str("[anonymous]"),
            Backing::SharedMemory(_) => String::from_str("[vsys]"),
            Backing::Other(tag) => tag.clone(),
        }
    }

    /// Takes a fresh snapshot of the process's mappings, rebuilds the module
    /// list from it, and hands the synthetic address of each module to
    /// `callback`, one call for each and in order, until `callback` answers
    /// `false`. The architecture filter is one gate over the whole
    /// enumeration. Returns how many addresses were handed over.
    ///
    /// The module list is rebuilt on every call and addresses are assigned
    /// anew: an address is good only until the next call. A failed snapshot
    /// leaves both caches and `callback` as they were.
    pub fn module_address_list_callback<S: Sink<ModuleAddress>>(
        &mut self,
        snapshot: Result<Vec<RawMapping>, procfs::ProcError>,
        target_arch: Option<ArchitectureIdent>,
        callback: &mut S,
    ) -> (r: Result<usize, ErrorKind>)
        requires
            old(callback).ready(),
        ensures
            final(callback).ready(),
            final(self).record() == old(self).record(),
            snapshot is Ok <==> r is Ok,
            r matches Err(e) ==> {
                &&& e == ErrorKind::UnableToReadSource
                &&& final(self).maps() == old(self).maps()
                &&& final(self).modules() == old(self).modules()
                &&& *final(callback) == *old(callback)
            },
            r matches Ok(delivered) ==> {
                &&& final(self).maps() == snapshot->Ok_0@
                &&& final(self).modules() == module_list(snapshot->Ok_0@)
                &&& fed(
                    *old(callback),
                    *final(callback),
                    announced(
                        target_arch,
                        old(self).record(),
                        module_list(snapshot->Ok_0@).len(),
                    ),
                    delivered as nat,
                )
            },
    {
        let maps = match snapshot {
            Ok(maps) => maps,
            Err(e) => {
                return Err(conv_proc_err(e));
            },
        };
        self.cached_module_maps = coalesce_modules(&maps);
        self.cached_maps = maps;
        let admitted: bool = match target_arch {
            None => true,
            Some(arch) => arch == self.info.sys_arch,
        };
        let count: usize = if admitted {
            self.cached_module_maps.len()
        } else {
            0
        };
        let addresses = addresses_up_to(count, self.info.proc_arch);
        assert(addresses@ =~= announced(
            target_arch,
            old(self).record(),
            self.cached_module_maps@.len(),
        ));
        Ok(feed_into(&addresses, callback))
    }

    /// Resolves the module at the synthetic address `address` against the
    /// module list of the last enumeration, whatever it holds; before any
    /// enumeration it holds nothing. Fails with `NotFound` when
    /// `architecture` is not the system architecture of the process, whatever
    /// the address, and when the address is past the end of the list.
    pub fn module_by_address(&self, address: u64, architecture: ArchitectureIdent) -> (r: Result<
        ModuleRecord,
        ErrorKind,
    >)
        ensures
            r is Ok <==> architecture == self.record().sys_arch && address < self.modules().len(),
            r matches Ok(module) ==> Ok::<ModuleRecordView, ErrorKind>(module@) == self.resolved(
                address,
                architecture,
            ),
            r matches Err(e) ==> e == ErrorKind::NotFound,
    {
        if architecture != self.info.sys_arch {
            return Err(ErrorKind::NotFound);
        }
        if address >= self.cached_module_maps.len() as u64 {
            return Err(ErrorKind::NotFound);
        }
        let map = &self.cached_module_maps[address as usize];
        let size: u64 = if map.end >= map.start {
            map.end - map.start
        } else {
            0
        };
        Ok(
            ModuleRecord {
                address,
                parent_process: self.info.address,
                base: map.start,
                size,
                name: Self::mmap_path_to_name_string(&map.backing),
                path: Self::mmap_path_to_path_string(&map.backing),
                arch: self.info.sys_arch,
            },
        )
    }

    /// The synthetic address of the primary module: by convention the first
    /// of the module list. Nothing checks that the first module is the
    /// initial executable.
    pub fn primary_module_address(&self) -> (address: u64)
        ensures
            address == 0,
    {
        0
    }

    /// How many raw mappings the cached snapshot holds.
    pub fn mapping_count(&self) -> (count: usize)
        ensures
            count == self.maps().len(),
    {
        self.cached_maps.len()
    }

    /// How many modules the cached module list holds.
    pub fn module_count(&self) -> (count: usize)
        ensures
            count == self.modules().len(),
    {
        self.cached_module_maps.len()
    }

    /// The identity of the process.
    pub fn info(&self) -> (info: &ProcessRecord)
        ensures
            *info == self.record(),
    {
        &self.info
    }

    /// The lifecycle state of the process: never known on this backend.
    pub fn state(&self) -> (state: ProcessState)
        ensures
            state == ProcessState::Unknown,
    {
        ProcessState::Unknown
    }

    /// Accepts directory table bases for interface uniformity and ignores
    /// them: the operating system resolves addresses on this backend.
    pub fn set_dtb(&mut self, _dtb1: u64, _dtb2: u64) -> (r: Result<(), ErrorKind>)
        ensures
            r is Ok,
            *final(self) == *old(self),
    {
        Ok(())
    }

    /// Takes a fresh snapshot of the process's mappings and hands the mapped
    /// ranges inside the window `[start, end)` to `out`, one call for each
    /// and in address order, until `out` answers `false`. Ranges are produced
    /// lazily: a range is handed over as soon as it is confirmed, and the
    /// next one is worked out only after `out` has asked for more. Returns how
    /// many ranges were handed over.
    ///
    /// A failed snapshot leaves the cache and `out` as they were, and is
    /// reported as `UnableToReadSource`.
    pub fn mapped_mem_range<S: Sink<NormalizedRegion>>(
        &mut self,
        snapshot: Result<Vec<RawMapping>, procfs::ProcError>,
        gap: i64,
        start: u64,
        end: u64,
        out: &mut S,
    ) -> (r: Result<usize, ErrorKind>)
        requires
            old(out).ready(),
        ensures
            final(out).ready(),
            final(self).record() == old(self).record(),
            final(self).modules() == old(self).modules(),
            snapshot is Ok <==> r is Ok,
            r matches Err(e) ==> {
                &&& e == ErrorKind::UnableToReadSource
                &&& final(self).maps() == old(self).maps()
                &&& *final(out) == *old(out)
            },
            r matches Ok(delivered) ==> {
                &&& final(self).maps() == snapshot->Ok_0@
                &&& fed(
                    *old(out),
                    *final(out),
                    mapped_ranges(snapshot->Ok_0@, gap, start, end),
                    delivered as nat,
                )
            },
    {
        let maps = match snapshot {
            Ok(maps) => maps,
            Err(e) => {
                return Err(conv_proc_err(e));
            },
        };
        self.cached_maps = maps;
        proof {
            lemma_mapped_ranges_len(self.cached_maps@, gap, start, end);
            assert(self.cached_maps@.len() == self.cached_maps.len());
        }
        let mut stream = RangeStream::new(&self.cached_maps, gap, start, end);
        Ok(feed(&mut stream, out))
    }
}

/// Module addresses are reproducible: two handles to one process whose last
/// enumeration saw the same snapshot resolve every address alike.
pub proof fn lemma_resolution_reproducible(
    first: LinuxProcess,
    second: LinuxProcess,
    maps: Seq<RawMapping>,
)
    requires
        first.record() == second.record(),
        first.modules() == module_list(maps),
        second.modules() == module_list(maps),
    ensures
        forall|address: u64, architecture: ArchitectureIdent|
            first.resolved(address, architecture) == second.resolved(address, architecture),
{
}

/// An architecture other than the system architecture of the process never
/// resolves, whatever the address.
pub proof fn lemma_foreign_architecture_not_found(
    process: LinuxProcess,
    address: u64,
    architecture: ArchitectureIdent,
)
    requires
        architecture != process.record().sys_arch,
    ensures
        process.resolved(address, architecture) == Err::<ModuleRecordView, ErrorKind>(
            ErrorKind::NotFound,
        ),
{
}

} // verus!
