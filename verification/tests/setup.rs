use arwen::elf::ElfContainer;
use patchcord::setup::{
    extended_path, names_shim, patch, read_command, report_restore, report_run, restore, run, Outcome, PatchEvent, PatchStep,
    RestoreFileEvent, RestoreFileStep, SetupCommand,
};

fn put16(out: &mut Vec<u8>, n: u16) {
    out.extend_from_slice(&n.to_le_bytes());
}

fn put32(out: &mut Vec<u8>, n: u32) {
    out.extend_from_slice(&n.to_le_bytes());
}

fn put64(out: &mut Vec<u8>, n: u64) {
    out.extend_from_slice(&n.to_le_bytes());
}

struct Part {
    name: u32,
    kind: u32,
    flags: u64,
    start: u64,
    size: u64,
    link: u32,
    info: u32,
    entry: u64,
}

fn put_part(out: &mut Vec<u8>, p: &Part) {
    put32(out, p.name);
    put32(out, p.kind);
    put64(out, p.flags);
    put64(out, if p.flags == 0 { 0 } else { p.start });
    put64(out, p.start);
    put64(out, p.size);
    put32(out, p.link);
    put32(out, p.info);
    put64(out, if p.kind == 0 { 0 } else { 8 });
    put64(out, p.entry);
}

/// A small shared library whose dynamic section has the given string entries.
fn library(entries: &[(u64, &[u8])], with_segment: bool) -> Vec<u8> {
    let mut strings: Vec<u8> = vec![0];
    let mut dynamic: Vec<u8> = Vec::new();
    for (tag, text) in entries {
        put64(&mut dynamic, *tag);
        put64(&mut dynamic, strings.len() as u64);
        strings.extend_from_slice(text);
        strings.push(0);
    }
    let symbols_at: u64 = 64 + 8 * 56;
    let strings_at = symbols_at + 24;
    let strings_size = strings.len() as u64;
    let dynamic_at = (strings_at + strings_size + 7) / 8 * 8;
    for (tag, value) in [(5, strings_at), (10, strings_size), (6, symbols_at), (11, 24), (0, 0)] {
        put64(&mut dynamic, tag);
        put64(&mut dynamic, value);
    }
    let dynamic_size = dynamic.len() as u64;
    let names: &[u8] = b"\0.dynsym\0.dynstr\0.dynamic\0.shstrtab\0";
    let load_end = dynamic_at + dynamic_size + 256;
    let names_at = load_end;
    let headers_at = (names_at + names.len() as u64 + 7) / 8 * 8;

    let mut out: Vec<u8> = vec![0x7f, b'E', b'L', b'F', 2, 1, 1, 0, 0, 0, 0, 0, 0, 0, 0, 0];
    put16(&mut out, 3);
    put16(&mut out, 62);
    put32(&mut out, 1);
    put64(&mut out, 0);
    put64(&mut out, 64);
    put64(&mut out, headers_at);
    put32(&mut out, 0);
    put16(&mut out, 64);
    put16(&mut out, 56);
    put16(&mut out, 2);
    put16(&mut out, 64);
    put16(&mut out, 5);
    put16(&mut out, 4);
    let dynamic_kind = if with_segment { 2 } else { 4 };
    for (kind, start, size, align) in
        [(1u32, 0, load_end, 4096), (dynamic_kind, dynamic_at, dynamic_size, 8)]
    {
        put32(&mut out, kind);
        put32(&mut out, 6);
        put64(&mut out, start);
        put64(&mut out, start);
        put64(&mut out, start);
        put64(&mut out, size);
        put64(&mut out, size);
        put64(&mut out, align);
    }
    out.resize(strings_at as usize, 0);
    out.extend_from_slice(&strings);
    out.resize(dynamic_at as usize, 0);
    out.extend_from_slice(&dynamic);
    out.resize(names_at as usize, 0);
    out.extend_from_slice(names);
    out.resize(headers_at as usize, 0);
    let part = |name, kind, flags, start, size, link, info, entry| Part {
        name,
        kind,
        flags,
        start,
        size,
        link,
        info,
        entry,
    };
    for p in [
        part(0, 0, 0, 0, 0, 0, 0, 0),
        part(1, 11, 2, symbols_at, 24, 2, 1, 24),
        part(9, 3, 2, strings_at, strings_size, 0, 0, 0),
        part(17, 6, 3, dynamic_at, dynamic_size, 2, 0, 16),
        part(26, 3, 0, names_at, names.len() as u64, 0, 0, 0),
    ] {
        put_part(&mut out, &p);
    }
    out
}

const NEEDED: u64 = 1;
const RPATH: u64 = 15;
const RUNPATH: u64 = 29;

fn needed(c: &ElfContainer<'_>) -> Vec<String> {
    c.inner.elf_needed().map(|n| String::from_utf8_lossy(n).to_string()).collect()
}

fn failure(step: PatchStep<'_>) -> String {
    match step {
        PatchStep::Done(Err(e)) => e,
        _ => panic!("no failure"),
    }
}

fn patched(bytes: &Vec<u8>, dir: &str) -> (Vec<String>, Vec<String>) {
    let mut c = ElfContainer::parse(bytes).unwrap();
    patch(&mut c, dir).unwrap();
    (needed(&c), c.get_rpath())
}

fn strings(list: &[&str]) -> Vec<String> {
    list.iter().map(|s| s.to_string()).collect()
}

#[test]
fn the_shim_is_needed_first_and_found_last() {
    let bytes = library(&[(NEEDED, b"libc.so.6"), (NEEDED, b"libm.so.6"), (RUNPATH, b"$ORIGIN:/x")], true);
    let (libraries, dirs) = patched(&bytes, "/opt/shim");
    assert_eq!(libraries, strings(&["discord-capture-shim.so", "libc.so.6", "libm.so.6"]));
    assert_eq!(dirs, strings(&["$ORIGIN", "/x", "/opt/shim"]));
}

#[test]
fn a_file_without_a_search_path_gets_one() {
    let bytes = library(&[(NEEDED, b"libc.so.6")], true);
    let (_, dirs) = patched(&bytes, "/opt/shim");
    assert_eq!(dirs, strings(&["/opt/shim"]));
    let empty = library(&[(RUNPATH, b"")], true);
    assert_eq!(patched(&empty, "/opt/shim").1, strings(&["/opt/shim"]));
}

#[test]
fn a_known_directory_is_not_added_again() {
    let bytes = library(&[(RPATH, b"/opt/shim:/y")], true);
    let (_, dirs) = patched(&bytes, "/opt/shim");
    assert_eq!(dirs, strings(&["/opt/shim", "/y"]));
}

#[test]
fn all_search_paths_are_set() {
    let bytes = library(&[(RPATH, b"/a"), (NEEDED, b"z"), (RUNPATH, b"/b")], true);
    let mut c = ElfContainer::parse(&bytes).unwrap();
    patch(&mut c, "/s").unwrap();
    c.force_rpath().unwrap();
    assert_eq!(c.get_rpath(), strings(&["/a", "/s"]));
}

#[test]
fn paths_that_are_no_text_are_read_as_far_as_they_can_be() {
    let bytes = library(&[(RUNPATH, b"/\xff:/b")], true);
    let (_, dirs) = patched(&bytes, "/s");
    assert_eq!(dirs, strings(&["/\u{fffd}", "/b", "/s"]));
}

#[test]
fn patching_goes_step_by_step() {
    let bytes = library(&[(NEEDED, b"libc.so.6"), (RUNPATH, b"$ORIGIN")], true);
    let container = match run("/d/voice.node", "/s", PatchEvent::Read { read: Ok(&bytes) }) {
        PatchStep::Check { container, original, backup_path } => {
            assert_eq!(backup_path, "/d/voice.node.discord-capture-setup.orig");
            assert_eq!(needed(&container), strings(&["libc.so.6"]));
            assert_eq!(original, &bytes);
            container
        }
        _ => panic!("no check"),
    };
    let container = match run(
        "/d/voice.node",
        "/s",
        PatchEvent::Checked { container, original: &bytes, exists: false },
    ) {
        PatchStep::BackUp { container, backup_path, bytes: kept } => {
            assert_eq!(backup_path, "/d/voice.node.discord-capture-setup.orig");
            assert_eq!(needed(&container), strings(&["libc.so.6"]));
            assert_eq!(kept, &bytes);
            container
        }
        _ => panic!("no backup"),
    };
    let written = match run(
        "/d/voice.node",
        "/s",
        PatchEvent::BackedUp { container, kept: Ok(()) },
    ) {
        PatchStep::Write { container, tmp_path } => {
            assert_eq!(tmp_path, "/d/voice.node.discord-capture-setup.tmp");
            let mut out: Vec<u8> = Vec::new();
            container.write(&mut out).unwrap();
            out
        }
        _ => panic!("no write"),
    };
    match run("/d/voice.node", "/s", PatchEvent::Written { written: Ok(()) }) {
        PatchStep::Rename { tmp_path } => {
            assert_eq!(tmp_path, "/d/voice.node.discord-capture-setup.tmp")
        }
        _ => panic!("no rename"),
    }
    assert!(matches!(
        run("/d/voice.node", "/s", PatchEvent::Renamed { renamed: Ok(()) }),
        PatchStep::Done(Ok(Outcome::Patched))
    ));
    let again = ElfContainer::parse(&written).unwrap();
    assert_eq!(needed(&again), strings(&["discord-capture-shim.so", "libc.so.6"]));
    assert_eq!(again.get_rpath(), strings(&["$ORIGIN", "/s"]));
    assert!(matches!(
        run("/d/voice.node", "/s", PatchEvent::Read { read: Ok(&written) }),
        PatchStep::Done(Ok(Outcome::AlreadyPatched))
    ));
}

#[test]
fn patching_fails_for_a_reason() {
    let why = || "why".to_string();
    assert_eq!(failure(run("t", "s", PatchEvent::Read { read: Err(why()) })), "read: why");
    let no_elf = b"#!/bin/sh".to_vec();
    assert_eq!(
        failure(run("t", "s", PatchEvent::Read { read: Ok(&no_elf) })),
        "parse ELF: A parse error occurred while reading the file"
    );
    let bytes = library(&[], true);
    let parsed = || ElfContainer::parse(&bytes).unwrap();
    assert_eq!(
        failure(run("t", "s", PatchEvent::BackedUp { container: parsed(), kept: Err(why()) })),
        "write backup: why"
    );
    let flat = library(&[(NEEDED, b"libc.so.6")], false);
    let container = match run("t", "s", PatchEvent::Read { read: Ok(&flat) }) {
        PatchStep::Check { container, .. } => container,
        _ => panic!("no check"),
    };
    assert_eq!(
        failure(run("t", "s", PatchEvent::BackedUp { container, kept: Ok(()) })),
        "add DT_NEEDED: A validation error occurred while modifying the file"
    );
    assert_eq!(
        failure(run("t", "s", PatchEvent::Written { written: Err(why()) })),
        "write patched file: why"
    );
    assert_eq!(
        failure(run("t", "s", PatchEvent::Renamed { renamed: Err(why()) })),
        "rename into place: why"
    );
}

/// Files by their names, without a file system.
type Files = std::collections::BTreeMap<String, Vec<u8>>;

fn run_on(files: &mut Files, target: &str, dir: &str) -> Result<Outcome, String> {
    let original = files[target].clone();
    let mut step = run(target, dir, PatchEvent::Read { read: Ok(&original) });
    loop {
        let event = match step {
            PatchStep::Check { container, original, backup_path } => {
                let exists = files.contains_key(&backup_path);
                PatchEvent::Checked { container, original, exists }
            }
            PatchStep::BackUp { container, backup_path, bytes } => {
                files.insert(backup_path, bytes.clone());
                PatchEvent::BackedUp { container, kept: Ok(()) }
            }
            PatchStep::Write { container, tmp_path } => {
                let mut out: Vec<u8> = Vec::new();
                container.write(&mut out).unwrap();
                files.insert(tmp_path, out);
                PatchEvent::Written { written: Ok(()) }
            }
            PatchStep::Rename { tmp_path } => {
                let bytes = files.remove(&tmp_path).unwrap();
                files.insert(target.to_string(), bytes);
                PatchEvent::Renamed { renamed: Ok(()) }
            }
            PatchStep::Done(result) => return result,
        };
        step = run(target, dir, event);
    }
}

fn restore_on(files: &mut Files, target: &str) -> Result<bool, String> {
    let mut step = restore(target, RestoreFileEvent::Asked);
    loop {
        let event = match step {
            RestoreFileStep::Check { backup_path } => {
                RestoreFileEvent::Checked { exists: files.contains_key(&backup_path) }
            }
            RestoreFileStep::Copy { backup_path, tmp_path } => {
                let bytes = files[&backup_path].clone();
                files.insert(tmp_path, bytes);
                RestoreFileEvent::Copied { copied: Ok(()) }
            }
            RestoreFileStep::Rename { tmp_path } => {
                let bytes = files.remove(&tmp_path).unwrap();
                files.insert(target.to_string(), bytes);
                RestoreFileEvent::Renamed { renamed: Ok(()) }
            }
            RestoreFileStep::Done(result) => return result,
        };
        step = restore(target, event);
    }
}

#[test]
fn patching_twice_and_restoring() {
    let bytes = library(&[(NEEDED, b"libc.so.6"), (RUNPATH, b"$ORIGIN")], true);
    let backup = "t.discord-capture-setup.orig";
    let mut files = Files::new();
    files.insert("t".to_string(), bytes.clone());
    assert_eq!(restore_on(&mut files, "t"), Ok(false));
    assert_eq!(files.len(), 1);
    assert_eq!(run_on(&mut files, "t", "/s"), Ok(Outcome::Patched));
    assert_eq!(files[backup], bytes);
    assert!(files["t"] != bytes);
    let after = files.clone();
    assert_eq!(run_on(&mut files, "t", "/other"), Ok(Outcome::AlreadyPatched));
    assert_eq!(files, after);
    let again = ElfContainer::parse(&files["t"]).unwrap();
    assert_eq!(needed(&again), strings(&["discord-capture-shim.so", "libc.so.6"]));
    for _ in 0..2 {
        assert_eq!(restore_on(&mut files, "t"), Ok(true));
        assert_eq!(files["t"], bytes);
        assert_eq!(files[backup], bytes);
    }
    assert_eq!(files.len(), 2);
}

#[test]
fn a_backup_that_is_there_is_kept() {
    let mut files = Files::new();
    files.insert("t".to_string(), library(&[(NEEDED, b"libc.so.6")], true));
    files.insert("t.discord-capture-setup.orig".to_string(), b"old".to_vec());
    assert_eq!(run_on(&mut files, "t", "/s"), Ok(Outcome::Patched));
    assert_eq!(files["t.discord-capture-setup.orig"], b"old".to_vec());
    assert_eq!(restore_on(&mut files, "t"), Ok(true));
    assert_eq!(files["t"], b"old".to_vec());
}

#[test]
fn restoring_goes_step_by_step() {
    let why = || "why".to_string();
    match restore("t", RestoreFileEvent::Asked) {
        RestoreFileStep::Check { backup_path } => {
            assert_eq!(backup_path, "t.discord-capture-setup.orig")
        }
        _ => panic!("no check"),
    }
    assert!(matches!(
        restore("t", RestoreFileEvent::Checked { exists: false }),
        RestoreFileStep::Done(Ok(false))
    ));
    match restore("t", RestoreFileEvent::Checked { exists: true }) {
        RestoreFileStep::Copy { backup_path, tmp_path } => {
            assert_eq!(backup_path, "t.discord-capture-setup.orig");
            assert_eq!(tmp_path, "t.discord-capture-setup.restoretmp");
        }
        _ => panic!("no copy"),
    }
    match restore("t", RestoreFileEvent::Copied { copied: Ok(()) }) {
        RestoreFileStep::Rename { tmp_path } => {
            assert_eq!(tmp_path, "t.discord-capture-setup.restoretmp")
        }
        _ => panic!("no rename"),
    }
    match restore("t", RestoreFileEvent::Copied { copied: Err(why()) }) {
        RestoreFileStep::Done(Err(e)) => assert_eq!(e, "copy backup to temp: why"),
        _ => panic!("no failure"),
    }
    match restore("t", RestoreFileEvent::Renamed { renamed: Err(why()) }) {
        RestoreFileStep::Done(Err(e)) => assert_eq!(e, "rename into place: why"),
        _ => panic!("no failure"),
    }
    assert!(matches!(
        restore("t", RestoreFileEvent::Renamed { renamed: Ok(()) }),
        RestoreFileStep::Done(Ok(true))
    ));
}

#[test]
fn commands_and_reports() {
    assert_eq!(
        read_command(&strings(&["p", "--restore", "t"])),
        SetupCommand::Restore { target_path: "t".to_string() }
    );
    assert_eq!(
        read_command(&strings(&["p", "t", "d"])),
        SetupCommand::Patch { target_path: "t".to_string(), shim_dir: "d".to_string() }
    );
    assert_eq!(read_command(&strings(&["p", "t"])), SetupCommand::Usage);
    assert_eq!(read_command(&strings(&["p", "t", "d", "e"])), SetupCommand::Usage);
    assert_eq!(
        report_run("t", &Ok(Outcome::Patched)),
        (
            "discord-capture-setup: patched t (backup saved as t.discord-capture-setup.orig)"
                .to_string(),
            true
        )
    );
    assert_eq!(
        report_run("t", &Ok(Outcome::AlreadyPatched)),
        ("discord-capture-setup: t already patched, nothing to do".to_string(), true)
    );
    assert_eq!(
        report_run("t", &Err("x".to_string())),
        ("discord-capture-setup: failed to patch t: x".to_string(), false)
    );
    assert_eq!(
        report_restore("t", &Ok(true)),
        ("discord-capture-setup: restored t from backup".to_string(), true)
    );
    assert_eq!(
        report_restore("t", &Ok(false)),
        ("discord-capture-setup: no backup found for t, nothing to restore".to_string(), true)
    );
    assert_eq!(
        report_restore("t", &Err("x".to_string())),
        ("discord-capture-setup: failed to restore t: x".to_string(), false)
    );
}

#[test]
fn the_parts_of_a_patching() {
    assert!(names_shim(&vec![b"libc.so.6".to_vec(), b"discord-capture-shim.so".to_vec()]));
    assert!(!names_shim(&vec![b"discord-capture-shim.so.1".to_vec()]));
    assert!(!names_shim(&vec![]));
    assert_eq!(extended_path(vec![], "/s"), "/s");
    assert_eq!(extended_path(strings(&["$ORIGIN", "/x"]), "/s"), "$ORIGIN:/x:/s");
    assert_eq!(extended_path(strings(&["/s", "/x"]), "/s"), "/s:/x");
}
