use toda::AbsPath;
use toda::payload::build_payload;
use toda::ptrace_registry::{AttachAction, DetachAction, PtraceManager};
use toda::replace::{
    FdEntry, FdReplacer, ProcessAccessorBuilder, ReplaceCase, ReplaceError, UnionReplacer,
};

fn p(s: &str) -> AbsPath {
    AbsPath::from_bytes(&s.as_bytes().to_vec()).unwrap()
}

#[test]
fn refcount_shares_attachments() {
    let mut mgr = PtraceManager::new();
    assert_eq!(mgr.trace(7), AttachAction::Attach);
    assert_eq!(mgr.trace(7), AttachAction::Share);
    assert_eq!(mgr.refcount(7), 2);
    assert_eq!(mgr.attached_count(), 1);
    assert_eq!(mgr.detach(7), DetachAction::Keep);
    assert_eq!(mgr.detach(7), DetachAction::Detach);
    assert_eq!(mgr.refcount(7), 0);
    assert_eq!(mgr.attached_count(), 0);
}

#[test]
fn attachment_balance_over_a_batch() {
    let mut mgr = PtraceManager::new();
    let pids = [11, 22, 33];
    for pid in pids {
        assert_eq!(mgr.trace(pid), AttachAction::Attach);
    }
    assert_eq!(mgr.attached_count(), 3);
    for pid in pids.iter().rev() {
        assert_eq!(mgr.detach(*pid), DetachAction::Detach);
    }
    assert_eq!(mgr.attached_count(), 0);
}

#[test]
fn push_case_builds_nul_terminated_table() {
    let mut b = ProcessAccessorBuilder::new();
    assert!(b.push_case(3, &p("/a")).is_ok());
    assert!(b.push_case(5, &p("/b")).is_ok());
    let mut mgr = PtraceManager::new();
    let acc = b.build(42, &mut mgr);
    assert_eq!(acc.pid(), 42);
    assert_eq!(acc.attach_action(), AttachAction::Attach);
    let cases = acc.cases();
    assert_eq!(cases.len(), 2);
    assert_eq!(cases[0].fd, 3);
    assert_eq!(cases[0].new_path_offset, 0);
    assert_eq!(cases[1].fd, 5);
    assert_eq!(cases[1].new_path_offset, 3);
    assert_eq!(acc.new_paths().clone(), b"/a\0/b\0".to_vec());
}

#[test]
fn push_case_skips_non_utf8_paths() {
    // A path whose component holds an invalid UTF-8 byte parses as a path
    // but cannot enter the string table.
    let bad = AbsPath::from_bytes(&vec![b'/', 0xff, b'a']).unwrap();
    let mut b = ProcessAccessorBuilder::new();
    assert!(matches!(b.push_case(3, &bad), Err(ReplaceError::NonUtf8Path)));
    // The remaining descriptors of the same process still go through.
    assert!(b.push_case(4, &p("/ok")).is_ok());
    let mut mgr = PtraceManager::new();
    let acc = b.build(1, &mut mgr);
    assert_eq!(acc.cases().len(), 1);
    assert_eq!(acc.cases()[0].fd, 4);
    assert_eq!(acc.new_paths().clone(), b"/ok\0".to_vec());
}

#[test]
fn prepare_filters_rewrites_and_groups() {
    let detect = p("/tmp/chaos-b");
    let shadow = detect.encode_path().unwrap();
    let entries = vec![
        FdEntry { pid: 10, fd: 3, path: p("/tmp/chaos-b/log") },
        FdEntry { pid: 10, fd: 4, path: p("/etc/passwd") },
        FdEntry { pid: 11, fd: 5, path: p("/tmp/chaos-b/data/x") },
    ];
    let mut mgr = PtraceManager::new();
    let mut replacer = FdReplacer::prepare(&detect, &shadow, &entries, &mut mgr);
    assert_eq!(replacer.process_count(), 2);
    assert_eq!(mgr.attached_count(), 2);
    {
        let first = replacer.process(0);
        assert_eq!(first.pid(), 10);
        assert_eq!(first.attach_action(), AttachAction::Attach);
        assert_eq!(first.cases().len(), 1);
        assert_eq!(first.cases()[0].fd, 3);
        assert_eq!(
            first.new_paths().clone(),
            b"/tmp/__chaosfs__chaos-b__/log\0".to_vec()
        );
        let second = replacer.process(1);
        assert_eq!(second.pid(), 11);
        assert_eq!(
            second.new_paths().clone(),
            b"/tmp/__chaosfs__chaos-b__/data/x\0".to_vec()
        );
    }
    // Consuming the accessors and detaching leaves the PID map empty.
    let accessors = replacer.take_processes();
    for acc in accessors {
        assert_eq!(acc.detach(&mut mgr), DetachAction::Detach);
    }
    assert_eq!(mgr.attached_count(), 0);
}

#[test]
fn union_replacer_produces_payloads() {
    let detect = p("/tmp/chaos-b");
    let shadow = detect.encode_path().unwrap();
    let entries = vec![FdEntry { pid: 9, fd: 7, path: p("/tmp/chaos-b/f") }];
    let mut mgr = PtraceManager::new();
    let mut replacer = UnionReplacer::prepare(&detect, &shadow, &entries, &mut mgr);
    let payloads = replacer.run();
    assert_eq!(payloads.len(), 1);
    let (pid, entry, bytes) = &payloads[0];
    assert_eq!(*pid, 9);
    // One 16-byte case, its length word, the table, and the code.
    let table = b"/tmp/__chaosfs__chaos-b__/f\0";
    assert_eq!(*entry as usize, 16 + 8 + table.len());
    assert_eq!(bytes.len(), *entry as usize + 114);
    assert_eq!(&bytes[24..24 + table.len()], table);
}

#[test]
fn payload_layout_is_exact() {
    let cases = vec![ReplaceCase::new(5, 0)];
    let table = b"/x\0".to_vec();
    let (entry, bytes) = build_payload(&cases, &table);
    assert_eq!(entry, 27);
    assert_eq!(bytes.len(), 141);
    // The case record: fd then offset, little endian, no padding.
    assert_eq!(&bytes[0..8], &[5, 0, 0, 0, 0, 0, 0, 0]);
    assert_eq!(&bytes[8..16], &[0; 8]);
    // The byte length of the case array.
    assert_eq!(&bytes[16..24], &[16, 0, 0, 0, 0, 0, 0, 0]);
    // The string table.
    assert_eq!(&bytes[24..27], b"/x\0");
    // The code: its first instruction zeroes the loop cursor.
    assert_eq!(&bytes[27..30], &[0x4d, 0x31, 0xff]);
    // The patched displacement back to the case array: -(16 + 3 + 18).
    assert_eq!(&bytes[33..37], &[0xdb, 0xff, 0xff, 0xff]);
    // The displacement to the string table: -(3 + 59).
    assert_eq!(&bytes[82..86], &[0xc2, 0xff, 0xff, 0xff]);
    // The displacement to the stored length: -(3 + 112).
    assert_eq!(&bytes[127..131], &[0x8d, 0xff, 0xff, 0xff]);
    // The backward loop jump and the closing debug trap.
    assert_eq!(&bytes[134..140], &[0x0f, 0x82, 0x9e, 0xff, 0xff, 0xff]);
    assert_eq!(bytes[140], 0xcc);
}

#[test]
fn grouping_follows_consecutive_runs() {
    // Grouping is by consecutive runs of the same PID: a PID that reappears
    // later starts a new accessor.
    let detect = p("/d");
    let shadow = p("/s");
    let entries = vec![
        FdEntry { pid: 10, fd: 1, path: p("/d/a") },
        FdEntry { pid: 11, fd: 2, path: p("/d/b") },
        FdEntry { pid: 10, fd: 3, path: p("/d/c") },
    ];
    let mut mgr = PtraceManager::new();
    let replacer = FdReplacer::prepare(&detect, &shadow, &entries, &mut mgr);
    assert_eq!(replacer.process_count(), 3);
    assert_eq!(replacer.process(0).pid(), 10);
    assert_eq!(replacer.process(1).pid(), 11);
    assert_eq!(replacer.process(2).pid(), 10);
    // The reappearing PID shares the existing attachment.
    assert_eq!(replacer.process(0).attach_action(), AttachAction::Attach);
    assert_eq!(replacer.process(2).attach_action(), AttachAction::Share);
    assert_eq!(mgr.refcount(10), 2);
}

#[test]
fn from_cases_drops_only_rejected_paths() {
    let items = vec![
        (3u64, p("/a")),
        (4u64, AbsPath::from_bytes(&vec![b'/', 0xfe]).unwrap()),
        (5u64, p("/c")),
    ];
    let b = ProcessAccessorBuilder::from_cases(&items);
    let mut mgr = PtraceManager::new();
    let acc = b.build(2, &mut mgr);
    assert_eq!(acc.cases().len(), 2);
    assert_eq!(acc.cases()[0].fd, 3);
    assert_eq!(acc.cases()[1].fd, 5);
    assert_eq!(acc.new_paths().clone(), b"/a\0/c\0".to_vec());
}
