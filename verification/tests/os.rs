use memflow_native::error::{conv_err, conv_proc_err, ErrorKind};
use memflow_native::feed::{CallbackSink, Collector};
use memflow_native::model::{
    ArchitectureIdent, ModuleRecord, OsInfo, ProcessRecord, ProcessState, INVALID_ADDRESS,
    NULL_ADDRESS,
};
use memflow_native::os::{
    exe_name_of, record_of, text_length, wants_elevation, ProcessEntry, WindowsOs,
};
use std::cell::Cell;

const X64: ArchitectureIdent = ArchitectureIdent::X86(64, false);

fn failure() -> windows::core::Error {
    windows::core::Error::OK
}

fn entry(pid: u32, exe_file: &str) -> ProcessEntry {
    let mut units: Vec<u16> = exe_file.encode_utf16().collect();
    units.resize(260, 0);
    ProcessEntry { pid, exe_file: units }
}

fn entries() -> Vec<ProcessEntry> {
    vec![
        entry(0, "[System Process]"),
        entry(4, "System"),
        entry(812, "C:\\Windows\\System32\\svchost.exe"),
        entry(4, "late.exe"),
    ]
}

fn some_module() -> ModuleRecord {
    ModuleRecord {
        address: 0,
        parent_process: INVALID_ADDRESS,
        base: 0,
        size: 0,
        name: "ntoskrnl.exe".to_string(),
        path: "ntoskrnl.exe".to_string(),
        arch: X64,
    }
}

#[test]
fn windows_failure_reads_as_unreadable_source() {
    assert_eq!(conv_err(failure()), ErrorKind::UnableToReadSource);
}

#[test]
fn proc_failure_reads_as_unreadable_source() {
    assert_eq!(conv_proc_err(procfs::ProcError::NotFound(None)), ErrorKind::UnableToReadSource);
}

#[test]
fn name_follows_the_last_backslash() {
    assert_eq!(exe_name_of("C:\\Windows\\System32\\svchost.exe"), "svchost.exe");
    assert_eq!(exe_name_of("a\\b"), "b");
}

#[test]
fn name_of_a_bare_file_is_the_file() {
    assert_eq!(exe_name_of("svchost.exe"), "svchost.exe");
    assert_eq!(exe_name_of(""), "");
}

#[test]
fn name_after_a_trailing_backslash_is_empty() {
    assert_eq!(exe_name_of("C:\\Windows\\"), "");
    assert_eq!(exe_name_of("\\"), "");
}

#[test]
fn name_splits_on_characters_not_bytes() {
    assert_eq!(exe_name_of("C:\\Üsers\\späße\\größe.exe"), "größe.exe");
    assert_eq!(exe_name_of("日本\\語"), "語");
}

#[test]
fn name_keeps_forward_slashes() {
    assert_eq!(exe_name_of("C:/Windows/notepad.exe"), "C:/Windows/notepad.exe");
}

#[test]
fn elevation_is_on_by_default() {
    assert!(wants_elevation(None));
    assert!(wants_elevation(Some("on")));
    assert!(wants_elevation(Some("")));
    assert!(wants_elevation(Some("1")));
    assert!(wants_elevation(Some("no")));
    assert!(wants_elevation(Some("offf")));
    assert!(wants_elevation(Some("of")));
    assert!(wants_elevation(Some("y")));
}

#[test]
fn elevation_is_switched_off_by_the_off_tokens() {
    for token in ["off", "OFF", "Off", "oFf", "ofF", "OfF", "n", "N", "0"] {
        assert!(!wants_elevation(Some(token)));
    }
}

#[test]
fn new_elevates_once_by_default() {
    let calls = Cell::new(0);
    let os = WindowsOs::new(None, || {
        calls.set(calls.get() + 1);
        Ok(())
    });
    assert!(os.is_ok());
    assert_eq!(calls.get(), 1);
}

#[test]
fn new_does_not_elevate_when_switched_off() {
    for token in ["off", "OFF", "Off", "n", "N", "0"] {
        let calls = Cell::new(0);
        let os = WindowsOs::new(Some(token), || {
            calls.set(calls.get() + 1);
            Err(failure())
        });
        assert!(os.is_ok());
        assert_eq!(calls.get(), 0);
    }
}

#[test]
fn new_fails_when_elevation_fails() {
    let os = WindowsOs::new(Some("on"), || Err(failure()));
    assert_eq!(os.err(), Some(ErrorKind::UnableToReadSource));
}

#[test]
fn new_handle_is_a_64_bit_x86_system_with_nothing_cached() {
    let os = WindowsOs::new(Some("off"), || Ok(())).unwrap();
    assert_eq!(*os.info(), OsInfo { base: NULL_ADDRESS, size: 0, arch: X64 });
    assert_eq!(os.process_count(), 0);
    let other = WindowsOs::default();
    assert_eq!(*other.info(), *os.info());
    assert_eq!(other.process_count(), 0);
}

#[test]
fn record_of_an_entry() {
    let record = record_of(&entry(812, "C:\\Windows\\System32\\svchost.exe"), X64);
    assert_eq!(record, ProcessRecord {
        address: 812,
        pid: 812,
        state: ProcessState::Alive,
        name: "svchost.exe".to_string(),
        path: "C:\\Windows\\System32\\svchost.exe".to_string(),
        command_line: String::new(),
        sys_arch: X64,
        proc_arch: X64,
        dtb1: INVALID_ADDRESS,
        dtb2: INVALID_ADDRESS,
    });
}

#[test]
fn text_ends_at_the_first_zero_unit() {
    assert_eq!(text_length(&vec![]), 0);
    assert_eq!(text_length(&vec![0]), 0);
    assert_eq!(text_length(&vec![97, 98, 0, 99, 0]), 2);
    assert_eq!(text_length(&vec![97, 98, 99]), 3);
    assert_eq!(text_length(&vec![0, 97]), 0);
}

#[test]
fn record_ignores_what_follows_the_zero_unit() {
    let mut units: Vec<u16> = "C:\\a\\b.exe".encode_utf16().collect();
    units.push(0);
    units.extend("\\stale".encode_utf16());
    let record = record_of(&ProcessEntry { pid: 7, exe_file: units }, X64);
    assert_eq!(record.path, "C:\\a\\b.exe");
    assert_eq!(record.name, "b.exe");
}

#[test]
fn record_of_a_buffer_without_a_zero_unit_takes_it_whole() {
    let units: Vec<u16> = "dir\\tool.exe".encode_utf16().collect();
    let record = record_of(&ProcessEntry { pid: 7, exe_file: units }, X64);
    assert_eq!(record.path, "dir\\tool.exe");
    assert_eq!(record.name, "tool.exe");
}

#[test]
fn record_decodes_pairs_and_replaces_what_is_not_one() {
    let units: Vec<u16> = vec![0x0061, 0x005c, 0xd83d, 0xde00, 0xd800, 0x0062, 0];
    let record = record_of(&ProcessEntry { pid: 7, exe_file: units }, X64);
    assert_eq!(record.path, "a\\\u{1f600}\u{fffd}b");
    assert_eq!(record.name, "\u{1f600}\u{fffd}b");
}

#[test]
fn record_of_an_empty_buffer_has_no_name() {
    let record = record_of(&ProcessEntry { pid: 7, exe_file: vec![] }, X64);
    assert_eq!(record.path, "");
    assert_eq!(record.name, "");
}

#[test]
fn enumeration_announces_every_process() {
    let mut os = WindowsOs::default();
    let mut sink = Collector::new();
    let delivered = os.process_address_list_callback(Ok(entries()), &mut sink);
    assert_eq!(delivered, Ok(4));
    assert_eq!(sink.into_items(), vec![0, 4, 812, 4]);
    assert_eq!(os.process_count(), 4);
}

#[test]
fn process_enumeration_stops_when_the_callback_says_so() {
    let mut os = WindowsOs::default();
    let mut calls: Vec<u64> = Vec::new();
    let mut sink = CallbackSink::new(|address| {
        calls.push(address);
        false
    });
    let delivered = os.process_address_list_callback(Ok(entries()), &mut sink);
    drop(sink);
    assert_eq!(delivered, Ok(1));
    assert_eq!(calls, vec![0]);
    assert_eq!(os.process_count(), 1);
    assert_eq!(os.process_info_by_address(0).unwrap().name, "[System Process]");
    assert_eq!(os.process_info_by_address(4).err(), Some(ErrorKind::NotFound));
}

#[test]
fn failed_process_snapshot_keeps_the_cache() {
    let mut os = WindowsOs::default();
    assert_eq!(os.process_address_list_callback(Ok(entries()), &mut Collector::new()), Ok(4));
    let mut sink = Collector::new();
    let failed = os.process_address_list_callback(Err(failure()), &mut sink);
    assert_eq!(failed, Err(ErrorKind::UnableToReadSource));
    assert_eq!(sink.items().len(), 0);
    assert_eq!(os.process_count(), 4);
}

#[test]
fn a_new_enumeration_replaces_the_cache() {
    let mut os = WindowsOs::default();
    assert_eq!(os.process_address_list_callback(Ok(entries()), &mut Collector::new()), Ok(4));
    assert_eq!(os.process_address_list_callback(Ok(vec![entry(9, "nine.exe")]), &mut Collector::new()), Ok(1));
    assert_eq!(os.process_count(), 1);
    assert_eq!(os.process_info_by_address(812).err(), Some(ErrorKind::NotFound));
    assert_eq!(os.process_info_by_address(9).unwrap().name, "nine.exe");
}

#[test]
fn resolve_finds_the_process() {
    let mut os = WindowsOs::default();
    assert_eq!(os.process_address_list_callback(Ok(entries()), &mut Collector::new()), Ok(4));
    assert_eq!(
        os.process_info_by_address(812),
        Ok(record_of(&entry(812, "C:\\Windows\\System32\\svchost.exe"), X64))
    );
}

#[test]
fn resolve_takes_the_first_of_two_with_one_address() {
    let mut os = WindowsOs::default();
    assert_eq!(os.process_address_list_callback(Ok(entries()), &mut Collector::new()), Ok(4));
    assert_eq!(os.process_info_by_address(4).unwrap().name, "System");
}

#[test]
fn resolve_of_an_absent_address_is_not_found() {
    let mut os = WindowsOs::default();
    assert_eq!(os.process_info_by_address(4).err(), Some(ErrorKind::NotFound));
    assert_eq!(os.process_address_list_callback(Ok(entries()), &mut Collector::new()), Ok(4));
    assert_eq!(os.process_info_by_address(5).err(), Some(ErrorKind::NotFound));
    assert_eq!(os.process_info_by_address(u64::MAX).err(), Some(ErrorKind::NotFound));
}

#[test]
fn a_clone_knows_the_system_and_nothing_else() {
    let mut os = WindowsOs::default();
    assert_eq!(os.process_address_list_callback(Ok(entries()), &mut Collector::new()), Ok(4));
    let copy = os.clone();
    assert_eq!(*copy.info(), *os.info());
    assert_eq!(copy.process_count(), 0);
    assert_eq!(copy.process_info_by_address(4).err(), Some(ErrorKind::NotFound));
    assert_eq!(os.process_count(), 4);
}

#[test]
fn no_kernel_module_is_ever_announced() {
    let mut os = WindowsOs::default();
    let mut sink = Collector::new();
    let delivered = os.module_address_list_callback(&mut sink);
    assert_eq!(delivered, Ok(0));
    assert_eq!(sink.items().len(), 0);
}

#[test]
fn kernel_modules_are_not_implemented() {
    let os = WindowsOs::default();
    assert_eq!(os.module_by_address(0), Err(ErrorKind::NotImplemented));
    assert_eq!(os.module_import_list_callback(&some_module()), Err(ErrorKind::NotImplemented));
    assert_eq!(os.module_export_list_callback(&some_module()), Err(ErrorKind::NotImplemented));
    assert_eq!(os.module_section_list_callback(&some_module()), Err(ErrorKind::NotImplemented));
}
