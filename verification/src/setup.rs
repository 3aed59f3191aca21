//! Patching `discord_voice.node` so that it loads the shim.
//!
//! The file gets the shim as one more library that it needs, and the directory
//! of the shim as one more place to look for libraries. The file as it was is
//! kept beside it first, and a file that needs the shim already is left alone.

use vstd::prelude::*;
use vstd::utf8::{decode_utf8, encode_utf8, valid_utf8};
use crate::cmd::lossy_text;
use crate::text::{cat, cat3, join, joined, owned, text_eq, texts};

verus! {

/// The shim, by the name under which it is needed.
pub const SHIM_SONAME: &'static str = "discord-capture-shim.so";

/// What the name of the backup adds to the name of the file.
pub const BACKUP_SUFFIX: &'static str = ".discord-capture-setup.orig";

/// An ELF file in memory, as `arwen` parses and rewrites it.
#[verifier::external_type_specification]
#[verifier::external_body]
pub struct ExElfContainer<'a>(arwen::elf::ElfContainer<'a>);

/// The string entries of the dynamic section of the file, each with its tag, in
/// their order.
pub uninterp spec fn dynamic_strings(c: arwen::elf::ElfContainer<'_>) -> Seq<(u32, Seq<u8>)>;

/// Whether the file has a dynamic section.
pub uninterp spec fn has_dynamic(c: arwen::elf::ElfContainer<'_>) -> bool;

/// What `ElfContainer::parse` reads from the bytes of a file: whether it has a
/// dynamic section and the string entries of that; or nothing, where the bytes
/// are no such file.
pub uninterp spec fn elf_contents(bytes: Seq<u8>) -> Option<(bool, Seq<(u32, Seq<u8>)>)>;

/// The tag of a needed library.
pub open spec fn needed_tag() -> u32 {
    1
}

/// The tag of a search path of the newer kind.
pub open spec fn runpath_tag() -> u32 {
    29
}

/// The tags of a search path, of the older and of the newer kind.
pub open spec fn is_path_tag(tag: u32) -> bool {
    tag == 15 || tag == 29
}

pub open spec fn needed_entry() -> spec_fn((u32, Seq<u8>)) -> Option<Seq<u8>> {
    |e: (u32, Seq<u8>)|
        if e.0 == needed_tag() {
            Some(e.1)
        } else {
            None
        }
}

/// The names of the needed libraries.
pub open spec fn needed(s: Seq<(u32, Seq<u8>)>) -> Seq<Seq<u8>> {
    s.filter_map(needed_entry())
}

/// The entries with one more needed library in front, unless it is there
/// already.
pub open spec fn with_needed(s: Seq<(u32, Seq<u8>)>, name: Seq<u8>) -> Seq<(u32, Seq<u8>)> {
    if needed(s).contains(name) {
        s
    } else {
        seq![(needed_tag(), name)] + s
    }
}

/// The value of the first search path.
pub open spec fn first_path(s: Seq<(u32, Seq<u8>)>) -> Option<Seq<u8>>
    decreases s.len(),
{
    if s.len() == 0 {
        None
    } else if is_path_tag(s[0].0) {
        Some(s[0].1)
    } else {
        first_path(s.drop_first())
    }
}

/// The entries with every search path set to `path`, or with a new one at the
/// end where there is none.
pub open spec fn with_path(s: Seq<(u32, Seq<u8>)>, path: Seq<u8>) -> Seq<(u32, Seq<u8>)> {
    if first_path(s) is Some {
        Seq::new(
            s.len(),
            |i: int|
                if is_path_tag(s[i].0) {
                    (s[i].0, path)
                } else {
                    s[i]
                },
        )
    } else {
        s.push((runpath_tag(), path))
    }
}

/// The text of a search path; bytes that are no UTF-8 are read as far as they
/// can be.
pub open spec fn path_text(bytes: Seq<u8>) -> Seq<char> {
    if valid_utf8(bytes) {
        decode_utf8(bytes)
    } else {
        lossy_text(bytes)
    }
}

/// The pieces of a text between the colons.
pub open spec fn pieces(s: Seq<char>) -> Seq<Seq<char>>
    decreases s.len(),
{
    if s.len() == 0 {
        seq![Seq::empty()]
    } else {
        let head = pieces(s.drop_last());
        if s.last() == ':' {
            head.push(Seq::empty())
        } else {
            head.drop_last().push(head.last().push(s.last()))
        }
    }
}

/// The directories of the first search path.
pub open spec fn search_dirs(s: Seq<(u32, Seq<u8>)>) -> Seq<Seq<char>> {
    match first_path(s) {
        Some(bytes) => if path_text(bytes).len() == 0 {
            Seq::empty()
        } else {
            pieces(path_text(bytes))
        },
        None => Seq::empty(),
    }
}

pub open spec fn byte_lists(v: Seq<Vec<u8>>) -> Seq<Seq<u8>> {
    Seq::new(v.len(), |i: int| v[i]@)
}

/// `arwen::elf::ElfContainer::parse` reads the bytes of a file. What it reads is
/// named, not stated; its only error is that of a file it cannot parse.
#[verifier::external_body]
fn parse_elf<'a>(bytes: &'a Vec<u8>) -> (r: Result<arwen::elf::ElfContainer<'a>, String>)
    ensures
        match r {
            Ok(c) => elf_contents(bytes@) == Some((has_dynamic(c), dynamic_strings(c))),
            Err(e) => elf_contents(bytes@) is None && e@
                == "A parse error occurred while reading the file"@,
        },
{
    arwen::elf::ElfContainer::parse(bytes).map_err(|err| err.to_string())
}

/// `elf_needed` of the writer in an `arwen::elf::ElfContainer` gives the values
/// of the entries with the tag of a needed library, in their order.
#[verifier::external_body]
fn list_needed(c: &arwen::elf::ElfContainer<'_>) -> (r: Vec<Vec<u8>>)
    ensures
        byte_lists(r@) == needed(dynamic_strings(*c)),
{
    c.inner.elf_needed().map(|name| name.to_vec()).collect()
}

/// `arwen::elf::ElfContainer::add_needed` with one name puts a needed library in
/// front of all entries, unless it is there already. It fails, and changes
/// nothing, exactly where there is no dynamic section.
#[verifier::external_body]
fn add_needed(c: &mut arwen::elf::ElfContainer<'_>, name: String) -> (r: Result<(), String>)
    ensures
        has_dynamic(*final(c)) == has_dynamic(*old(c)),
        match r {
            Ok(_) => has_dynamic(*old(c)) && dynamic_strings(*final(c)) == with_needed(
                dynamic_strings(*old(c)),
                encode_utf8(name@),
            ),
            Err(e) => !has_dynamic(*old(c)) && dynamic_strings(*final(c)) == dynamic_strings(
                *old(c),
            ) && e@ == "A validation error occurred while modifying the file"@,
        },
{
    c.add_needed(vec![name]).map_err(|err| err.to_string())
}

/// `arwen::elf::ElfContainer::get_rpath` gives the directories of the first
/// search path of either kind, and none where that is empty or missing.
#[verifier::external_body]
fn get_rpath(c: &arwen::elf::ElfContainer<'_>) -> (r: Vec<String>)
    ensures
        texts(r@) == search_dirs(dynamic_strings(*c)),
{
    c.get_rpath()
}

/// `arwen::elf::ElfContainer::set_runpath` sets every search path of either
/// kind, or adds one of the newer kind behind all entries where there is none.
/// It fails, and changes nothing, exactly where there is no dynamic section.
#[verifier::external_body]
fn set_runpath(c: &mut arwen::elf::ElfContainer<'_>, path: String) -> (r: Result<(), String>)
    ensures
        has_dynamic(*final(c)) == has_dynamic(*old(c)),
        match r {
            Ok(_) => has_dynamic(*old(c)) && dynamic_strings(*final(c)) == with_path(
                dynamic_strings(*old(c)),
                encode_utf8(path@),
            ),
            Err(e) => !has_dynamic(*old(c)) && dynamic_strings(*final(c)) == dynamic_strings(
                *old(c),
            ) && e@ == "A validation error occurred while modifying the file"@,
        },
{
    c.set_runpath(path).map_err(|err| err.to_string())
}

/// The file needs the shim already.
pub open spec fn needs_shim(s: Seq<(u32, Seq<u8>)>) -> bool {
    needed(s).contains(encode_utf8(SHIM_SONAME@))
}

/// The directories with that of the shim at the end, unless it is there already.
pub open spec fn with_dir(dirs: Seq<Seq<char>>, shim_dir: Seq<char>) -> Seq<Seq<char>> {
    if dirs.contains(shim_dir) {
        dirs
    } else {
        dirs.push(shim_dir)
    }
}

/// The entries of the patched file.
pub open spec fn patched(s: Seq<(u32, Seq<u8>)>, shim_dir: Seq<char>) -> Seq<(u32, Seq<u8>)> {
    let t = with_needed(s, encode_utf8(SHIM_SONAME@));
    with_path(t, encode_utf8(join(with_dir(search_dirs(t), shim_dir), ":"@)))
}

fn same_bytes(a: &Vec<u8>, b: &[u8]) -> (r: bool)
    ensures
        r == (a@ == b@),
{
    if a.len() != b.len() {
        return false;
    }
    let mut i: usize = 0;
    while i < a.len()
        invariant
            a@.len() == b@.len(),
            i <= a@.len(),
            forall|k: int| 0 <= k < i ==> a@[k] == b@[k],
        decreases a@.len() - i,
    {
        if a[i] != b[i] {
            return false;
        }
        i = i + 1;
    }
    assert(a@ =~= b@);
    true
}

/// Whether the shim is among the needed libraries of a file.
pub fn names_shim(list: &Vec<Vec<u8>>) -> (r: bool)
    ensures
        r == byte_lists(list@).contains(encode_utf8(SHIM_SONAME@)),
{
    let ghost all = byte_lists(list@);
    let name = SHIM_SONAME.as_bytes();
    let mut i: usize = 0;
    while i < list.len()
        invariant
            i <= list@.len(),
            all == byte_lists(list@),
            name@ == encode_utf8(SHIM_SONAME@),
            forall|k: int| 0 <= k < i ==> all[k] != name@,
        decreases list@.len() - i,
    {
        assert(all[i as int] == list@[i as int]@);
        if same_bytes(&list[i], name) {
            assert(all.contains(name@));
            return true;
        }
        i = i + 1;
    }
    false
}

fn has_dir(dirs: &Vec<String>, dir: &str) -> (r: bool)
    ensures
        r == texts(dirs@).contains(dir@),
{
    let ghost all = texts(dirs@);
    let mut i: usize = 0;
    while i < dirs.len()
        invariant
            i <= dirs@.len(),
            all == texts(dirs@),
            forall|k: int| 0 <= k < i ==> all[k] != dir@,
        decreases dirs@.len() - i,
    {
        assert(all[i as int] == dirs@[i as int]@);
        if text_eq(dirs[i].as_str(), dir) {
            return true;
        }
        i = i + 1;
    }
    false
}

/// The search path that leads to the directories and to that of the shim.
pub fn extended_path(dirs: Vec<String>, shim_dir: &str) -> (r: String)
    ensures
        r@ == join(with_dir(texts(dirs@), shim_dir@), ":"@),
{
    let mut dirs = dirs;
    if !has_dir(&dirs, shim_dir) {
        let ghost before = texts(dirs@);
        dirs.push(owned(shim_dir));
        assert(texts(dirs@) =~= before.push(shim_dir@));
    }
    joined(&dirs, ":")
}

/// Patches a file in memory.
pub fn patch(c: &mut arwen::elf::ElfContainer<'_>, shim_dir: &str) -> (r: Result<(), String>)
    ensures
        match r {
            Ok(_) => has_dynamic(*old(c)) && has_dynamic(*final(c)) && dynamic_strings(*final(c))
                == patched(dynamic_strings(*old(c)), shim_dir@),
            Err(e) => !has_dynamic(*old(c)) && e@
                == "add DT_NEEDED: A validation error occurred while modifying the file"@,
        },
{
    match add_needed(c, owned(SHIM_SONAME)) {
        Ok(_) => {},
        Err(err) => {
            proof {
                lemma_needed_fault();
            }
            return Err(cat("add DT_NEEDED: ", err.as_str()));
        },
    }
    let path = extended_path(get_rpath(c), shim_dir);
    match set_runpath(c, path) {
        Ok(_) => Ok(()),
        Err(err) => Err(cat("set RUNPATH: ", err.as_str())),
    }
}

proof fn lemma_needed_fault()
    ensures
        "add DT_NEEDED: "@ + "A validation error occurred while modifying the file"@
            == "add DT_NEEDED: A validation error occurred while modifying the file"@,
{
    reveal_strlit("add DT_NEEDED: ");
    reveal_strlit("A validation error occurred while modifying the file");
    reveal_strlit("add DT_NEEDED: A validation error occurred while modifying the file");
    assert("add DT_NEEDED: "@ + "A validation error occurred while modifying the file"@
        =~= "add DT_NEEDED: A validation error occurred while modifying the file"@);
}

#[derive(Debug, Clone, Copy, PartialEq, Eq, Structural)]
pub enum Outcome {
    Patched,
    AlreadyPatched,
}

/// What happens while a file is being patched. Errors are told in words.
pub enum PatchEvent<'a> {
    /// The file has been read.
    Read { read: Result<&'a Vec<u8>, String> },
    /// Whether there is a backup.
    Checked { container: arwen::elf::ElfContainer<'a>, original: &'a Vec<u8>, exists: bool },
    /// The backup has been written.
    BackedUp { container: arwen::elf::ElfContainer<'a>, kept: Result<(), String> },
    /// The patched file has been written beside the file.
    Written { written: Result<(), String> },
    /// The patched file has taken the place of the file.
    Renamed { renamed: Result<(), String> },
}

pub enum PatchStep<'a> {
    /// Look whether this file is there.
    Check {
        container: arwen::elf::ElfContainer<'a>,
        original: &'a Vec<u8>,
        backup_path: String,
    },
    /// Write these bytes under this name.
    BackUp { container: arwen::elf::ElfContainer<'a>, backup_path: String, bytes: &'a Vec<u8> },
    /// Write the patched file under this name.
    Write { container: arwen::elf::ElfContainer<'a>, tmp_path: String },
    /// Give the written file the permissions of the file and its name.
    Rename { tmp_path: String },
    Done(Result<Outcome, String>),
}

/// What is known of a parsed file: whether it has a dynamic section, and the
/// string entries of that.
pub open spec fn contents_of(c: arwen::elf::ElfContainer<'_>) -> (bool, Seq<(u32, Seq<u8>)>) {
    (has_dynamic(c), dynamic_strings(c))
}

pub open spec fn fault_text<T>(r: Result<T, String>) -> Result<T, Seq<char>> {
    match r {
        Ok(v) => Ok(v),
        Err(e) => Err(e@),
    }
}

pub enum PatchEventView {
    Read { read: Result<Seq<u8>, Seq<char>> },
    Checked { contents: (bool, Seq<(u32, Seq<u8>)>), original: Seq<u8>, exists: bool },
    BackedUp { contents: (bool, Seq<(u32, Seq<u8>)>), kept: Result<(), Seq<char>> },
    Written { written: Result<(), Seq<char>> },
    Renamed { renamed: Result<(), Seq<char>> },
}

impl View for PatchEvent<'_> {
    type V = PatchEventView;

    open spec fn view(&self) -> PatchEventView {
        match *self {
            PatchEvent::Read { read } => PatchEventView::Read {
                read: match read {
                    Ok(bytes) => Ok(bytes@),
                    Err(e) => Err(e@),
                },
            },
            PatchEvent::Checked { container, original, exists } => PatchEventView::Checked {
                contents: contents_of(container),
                original: original@,
                exists,
            },
            PatchEvent::BackedUp { container, kept } => PatchEventView::BackedUp {
                contents: contents_of(container),
                kept: fault_text(kept),
            },
            PatchEvent::Written { written } => PatchEventView::Written {
                written: fault_text(written),
            },
            PatchEvent::Renamed { renamed } => PatchEventView::Renamed {
                renamed: fault_text(renamed),
            },
        }
    }
}

pub enum PatchStepView {
    Check {
        contents: (bool, Seq<(u32, Seq<u8>)>),
        original: Seq<u8>,
        backup_path: Seq<char>,
    },
    BackUp {
        contents: (bool, Seq<(u32, Seq<u8>)>),
        backup_path: Seq<char>,
        bytes: Seq<u8>,
    },
    Write { contents: (bool, Seq<(u32, Seq<u8>)>), tmp_path: Seq<char> },
    Rename { tmp_path: Seq<char> },
    Done(Result<Outcome, Seq<char>>),
}

impl View for PatchStep<'_> {
    type V = PatchStepView;

    open spec fn view(&self) -> PatchStepView {
        match *self {
            PatchStep::Check { container, original, backup_path } => PatchStepView::Check {
                contents: contents_of(container),
                original: original@,
                backup_path: backup_path@,
            },
            PatchStep::BackUp { container, backup_path, bytes } => PatchStepView::BackUp {
                contents: contents_of(container),
                backup_path: backup_path@,
                bytes: bytes@,
            },
            PatchStep::Write { container, tmp_path } => PatchStepView::Write {
                contents: contents_of(container),
                tmp_path: tmp_path@,
            },
            PatchStep::Rename { tmp_path } => PatchStepView::Rename { tmp_path: tmp_path@ },
            PatchStep::Done(result) => PatchStepView::Done(fault_text(result)),
        }
    }
}

pub open spec fn backup_name(target: Seq<char>) -> Seq<char> {
    target + BACKUP_SUFFIX@
}

pub open spec fn tmp_name(target: Seq<char>) -> Seq<char> {
    target + ".discord-capture-setup.tmp"@
}

pub open spec fn restore_tmp_name(target: Seq<char>) -> Seq<char> {
    target + ".discord-capture-setup.restoretmp"@
}

/// What follows once the file as it was is kept: it is patched and written.
pub open spec fn once_backed_up(
    target: Seq<char>,
    shim_dir: Seq<char>,
    contents: (bool, Seq<(u32, Seq<u8>)>),
) -> PatchStepView {
    if contents.0 {
        PatchStepView::Write {
            contents: (true, patched(contents.1, shim_dir)),
            tmp_path: tmp_name(target),
        }
    } else {
        PatchStepView::Done(
            Err("add DT_NEEDED: A validation error occurred while modifying the file"@),
        )
    }
}

/// What is to be done next while file `target` is being patched.
pub open spec fn patch_transition(
    target: Seq<char>,
    shim_dir: Seq<char>,
    event: PatchEventView,
) -> PatchStepView {
    match event {
        PatchEventView::Read { read } => match read {
            Err(e) => PatchStepView::Done(Err("read: "@ + e)),
            Ok(bytes) => match elf_contents(bytes) {
                None => PatchStepView::Done(
                    Err("parse ELF: "@ + "A parse error occurred while reading the file"@),
                ),
                Some(contents) => if needs_shim(contents.1) {
                    PatchStepView::Done(Ok(Outcome::AlreadyPatched))
                } else {
                    PatchStepView::Check {
                        contents,
                        original: bytes,
                        backup_path: backup_name(target),
                    }
                },
            },
        },
        PatchEventView::Checked { contents, original, exists } => if exists {
            once_backed_up(target, shim_dir, contents)
        } else {
            PatchStepView::BackUp { contents, backup_path: backup_name(target), bytes: original }
        },
        PatchEventView::BackedUp { contents, kept } => match kept {
            Err(e) => PatchStepView::Done(Err("write backup: "@ + e)),
            Ok(_) => once_backed_up(target, shim_dir, contents),
        },
        PatchEventView::Written { written } => match written {
            Err(e) => PatchStepView::Done(Err("write patched file: "@ + e)),
            Ok(_) => PatchStepView::Rename { tmp_path: tmp_name(target) },
        },
        PatchEventView::Renamed { renamed } => match renamed {
            Err(e) => PatchStepView::Done(Err("rename into place: "@ + e)),
            Ok(_) => PatchStepView::Done(Ok(Outcome::Patched)),
        },
    }
}

fn write_patched<'a>(
    target_path: &str,
    shim_dir: &str,
    container: arwen::elf::ElfContainer<'a>,
) -> (step: PatchStep<'a>)
    ensures
        step@ == once_backed_up(target_path@, shim_dir@, contents_of(container)),
{
    let mut container = container;
    match patch(&mut container, shim_dir) {
        Err(err) => PatchStep::Done(Err(err)),
        Ok(_) => PatchStep::Write {
            container,
            tmp_path: cat(target_path, ".discord-capture-setup.tmp"),
        },
    }
}

/// Patches the file. It is backed up before anything is changed, unless there is
/// a backup already, and it is replaced in one step, so that it is never found
/// half written.
pub fn run<'a>(target_path: &str, shim_dir: &str, event: PatchEvent<'a>) -> (step: PatchStep<'a>)
    ensures
        step@ == patch_transition(target_path@, shim_dir@, event@),
{
    match event {
        PatchEvent::Read { read } => match read {
            Err(err) => PatchStep::Done(Err(cat("read: ", err.as_str()))),
            Ok(bytes) => match parse_elf(bytes) {
                Err(err) => PatchStep::Done(Err(cat("parse ELF: ", err.as_str()))),
                Ok(container) => {
                    if names_shim(&list_needed(&container)) {
                        PatchStep::Done(Ok(Outcome::AlreadyPatched))
                    } else {
                        PatchStep::Check {
                            container,
                            original: bytes,
                            backup_path: cat(target_path, BACKUP_SUFFIX),
                        }
                    }
                },
            },
        },
        PatchEvent::Checked { container, original, exists } => {
            if exists {
                write_patched(target_path, shim_dir, container)
            } else {
                PatchStep::BackUp {
                    container,
                    backup_path: cat(target_path, BACKUP_SUFFIX),
                    bytes: original,
                }
            }
        },
        PatchEvent::BackedUp { container, kept } => match kept {
            Err(err) => PatchStep::Done(Err(cat("write backup: ", err.as_str()))),
            Ok(_) => write_patched(target_path, shim_dir, container),
        },
        PatchEvent::Written { written } => match written {
            Err(err) => PatchStep::Done(Err(cat("write patched file: ", err.as_str()))),
            Ok(_) => PatchStep::Rename { tmp_path: cat(target_path, ".discord-capture-setup.tmp") },
        },
        PatchEvent::Renamed { renamed } => match renamed {
            Err(err) => PatchStep::Done(Err(cat("rename into place: ", err.as_str()))),
            Ok(_) => PatchStep::Done(Ok(Outcome::Patched)),
        },
    }
}

/// What happens while a file is being restored.
pub enum RestoreFileEvent {
    Asked,
    /// Whether there is a backup.
    Checked { exists: bool },
    /// The backup has been copied beside the file.
    Copied { copied: Result<(), String> },
    /// The copy has taken the place of the file.
    Renamed { renamed: Result<(), String> },
}

pub enum RestoreFileStep {
    /// Look whether this file is there.
    Check { backup_path: String },
    /// Copy the backup under this name.
    Copy { backup_path: String, tmp_path: String },
    /// Give the copy the permissions of the file and its name.
    Rename { tmp_path: String },
    Done(Result<bool, String>),
}

pub enum RestoreEventView {
    Asked,
    Checked { exists: bool },
    Copied { copied: Result<(), Seq<char>> },
    Renamed { renamed: Result<(), Seq<char>> },
}

impl View for RestoreFileEvent {
    type V = RestoreEventView;

    open spec fn view(&self) -> RestoreEventView {
        match *self {
            RestoreFileEvent::Asked => RestoreEventView::Asked,
            RestoreFileEvent::Checked { exists } => RestoreEventView::Checked { exists },
            RestoreFileEvent::Copied { copied } => RestoreEventView::Copied {
                copied: fault_text(copied),
            },
            RestoreFileEvent::Renamed { renamed } => RestoreEventView::Renamed {
                renamed: fault_text(renamed),
            },
        }
    }
}

pub enum RestoreStepView {
    Check { backup_path: Seq<char> },
    Copy { backup_path: Seq<char>, tmp_path: Seq<char> },
    Rename { tmp_path: Seq<char> },
    Done(Result<bool, Seq<char>>),
}

impl View for RestoreFileStep {
    type V = RestoreStepView;

    open spec fn view(&self) -> RestoreStepView {
        match *self {
            RestoreFileStep::Check { backup_path } => RestoreStepView::Check {
                backup_path: backup_path@,
            },
            RestoreFileStep::Copy { backup_path, tmp_path } => RestoreStepView::Copy {
                backup_path: backup_path@,
                tmp_path: tmp_path@,
            },
            RestoreFileStep::Rename { tmp_path } => RestoreStepView::Rename {
                tmp_path: tmp_path@,
            },
            RestoreFileStep::Done(result) => RestoreStepView::Done(fault_text(result)),
        }
    }
}

/// What is to be done next while file `target` is being restored.
pub open spec fn restore_file_transition(
    target: Seq<char>,
    event: RestoreEventView,
) -> RestoreStepView {
    match event {
        RestoreEventView::Asked => RestoreStepView::Check { backup_path: backup_name(target) },
        RestoreEventView::Checked { exists } => if exists {
            RestoreStepView::Copy {
                backup_path: backup_name(target),
                tmp_path: restore_tmp_name(target),
            }
        } else {
            RestoreStepView::Done(Ok(false))
        },
        RestoreEventView::Copied { copied } => match copied {
            Err(e) => RestoreStepView::Done(Err("copy backup to temp: "@ + e)),
            Ok(_) => RestoreStepView::Rename { tmp_path: restore_tmp_name(target) },
        },
        RestoreEventView::Renamed { renamed } => match renamed {
            Err(e) => RestoreStepView::Done(Err("rename into place: "@ + e)),
            Ok(_) => RestoreStepView::Done(Ok(true)),
        },
    }
}

/// Restores the file from its backup, if there is one. The backup stays.
pub fn restore(target_path: &str, event: RestoreFileEvent) -> (step: RestoreFileStep)
    ensures
        step@ == restore_file_transition(target_path@, event@),
{
    match event {
        RestoreFileEvent::Asked => RestoreFileStep::Check {
            backup_path: cat(target_path, BACKUP_SUFFIX),
        },
        RestoreFileEvent::Checked { exists } => {
            if exists {
                RestoreFileStep::Copy {
                    backup_path: cat(target_path, BACKUP_SUFFIX),
                    tmp_path: cat(target_path, ".discord-capture-setup.restoretmp"),
                }
            } else {
                RestoreFileStep::Done(Ok(false))
            }
        },
        RestoreFileEvent::Copied { copied } => match copied {
            Err(err) => RestoreFileStep::Done(Err(cat("copy backup to temp: ", err.as_str()))),
            Ok(_) => RestoreFileStep::Rename {
                tmp_path: cat(target_path, ".discord-capture-setup.restoretmp"),
            },
        },
        RestoreFileEvent::Renamed { renamed } => match renamed {
            Err(err) => RestoreFileStep::Done(Err(cat("rename into place: ", err.as_str()))),
            Ok(_) => RestoreFileStep::Done(Ok(true)),
        },
    }
}

/// What the command line asks for.
#[derive(Debug, PartialEq, Eq)]
pub enum SetupCommand {
    Restore { target_path: String },
    Patch { target_path: String, shim_dir: String },
    Usage,
}

/// Reads a command line, which begins with the name of the program.
pub fn read_command(args: &Vec<String>) -> (r: SetupCommand)
    ensures
        ({
            let all = texts(args@);
            if all.len() == 3 && all[1] == "--restore"@ {
                r matches SetupCommand::Restore { target_path } && target_path@ == all[2]
            } else if all.len() == 3 {
                r matches SetupCommand::Patch { target_path, shim_dir } && target_path@ == all[1]
                    && shim_dir@ == all[2]
            } else {
                r is Usage
            }
        }),
{
    if args.len() == 3 {
        if text_eq(args[1].as_str(), "--restore") {
            SetupCommand::Restore { target_path: args[2].clone() }
        } else {
            SetupCommand::Patch { target_path: args[1].clone(), shim_dir: args[2].clone() }
        }
    } else {
        SetupCommand::Usage
    }
}

/// What is told of a patching, and whether it went well.
pub fn report_run(target_path: &str, result: &Result<Outcome, String>) -> (r: (String, bool))
    ensures
        r.1 == (result is Ok),
        r.0@ == "discord-capture-setup: "@ + (match *result {
            Ok(Outcome::Patched) => "patched "@ + target_path@ + " (backup saved as "@
                + backup_name(target_path@) + ")"@,
            Ok(Outcome::AlreadyPatched) => target_path@ + " already patched, nothing to do"@,
            Err(e) => "failed to patch "@ + target_path@ + ": "@ + e@,
        }),
{
    let text = match result {
        Ok(outcome) => match outcome {
            Outcome::Patched => {
                let backup = cat(target_path, BACKUP_SUFFIX);
                let head = cat3("patched ", target_path, " (backup saved as ");
                cat3(head.as_str(), backup.as_str(), ")")
            },
            Outcome::AlreadyPatched => cat(target_path, " already patched, nothing to do"),
        },
        Err(err) => {
            let head = cat3("failed to patch ", target_path, ": ");
            cat(head.as_str(), err.as_str())
        },
    };
    (cat("discord-capture-setup: ", text.as_str()), result.is_ok())
}

/// What is told of a restoring, and whether it went well.
pub fn report_restore(target_path: &str, result: &Result<bool, String>) -> (r: (String, bool))
    ensures
        r.1 == (result is Ok),
        r.0@ == "discord-capture-setup: "@ + (match *result {
            Ok(true) => "restored "@ + target_path@ + " from backup"@,
            Ok(false) => "no backup found for "@ + target_path@ + ", nothing to restore"@,
            Err(e) => "failed to restore "@ + target_path@ + ": "@ + e@,
        }),
{
    let text = match result {
        Ok(restored) => {
            if *restored {
                cat3("restored ", target_path, " from backup")
            } else {
                cat3("no backup found for ", target_path, ", nothing to restore")
            }
        },
        Err(err) => {
            let head = cat3("failed to restore ", target_path, ": ");
            cat(head.as_str(), err.as_str())
        },
    };
    (cat("discord-capture-setup: ", text.as_str()), result.is_ok())
}

proof fn lemma_needed_front(s: Seq<(u32, Seq<u8>)>, e: (u32, Seq<u8>))
    ensures
        needed(seq![e] + s) == (if e.0 == needed_tag() {
            seq![e.1] + needed(s)
        } else {
            needed(s)
        }),
    decreases s.len(),
{
    let t = seq![e] + s;
    if s.len() == 0 {
        assert(t.drop_last() =~= Seq::<(u32, Seq<u8>)>::empty());
        assert(t.last() == e);
        assert(needed(s) =~= Seq::<Seq<u8>>::empty());
        assert(needed(t.drop_last()) =~= Seq::<Seq<u8>>::empty());
        assert(needed(t) =~= if e.0 == needed_tag() {
            seq![e.1] + needed(s)
        } else {
            needed(s)
        });
    } else {
        assert(t.drop_last() =~= seq![e] + s.drop_last());
        assert(t.last() == s.last());
        lemma_needed_front(s.drop_last(), e);
        assert(needed(t) =~= if e.0 == needed_tag() {
            seq![e.1] + needed(s)
        } else {
            needed(s)
        });
    }
}

proof fn lemma_needed_with_path(s: Seq<(u32, Seq<u8>)>, t: Seq<(u32, Seq<u8>)>)
    requires
        s.len() == t.len(),
        forall|i: int|
            0 <= i < s.len() ==> #[trigger] t[i] == s[i] || is_path_tag(s[i].0) && is_path_tag(
                t[i].0,
            ),
    ensures
        needed(t) == needed(s),
    decreases s.len(),
{
    if s.len() > 0 {
        let n = s.len() - 1;
        assert(t[n] == s[n] || is_path_tag(s[n].0) && is_path_tag(t[n].0));
        assert forall|i: int| 0 <= i < n implies #[trigger] t.drop_last()[i] == s.drop_last()[i]
            || is_path_tag(s.drop_last()[i].0) && is_path_tag(t.drop_last()[i].0) by {
            assert(t[i] == s[i] || is_path_tag(s[i].0) && is_path_tag(t[i].0));
        }
        lemma_needed_with_path(s.drop_last(), t.drop_last());
    } else {
        assert(s =~= t);
    }
}

/// A patched file needs the shim, once and before all else, and whatever it
/// needed before.
pub proof fn patched_files_need_the_shim(s: Seq<(u32, Seq<u8>)>, shim_dir: Seq<char>)
    requires
        !needs_shim(s),
    ensures
        needed(patched(s, shim_dir)) == seq![encode_utf8(SHIM_SONAME@)] + needed(s),
        needs_shim(patched(s, shim_dir)),
        forall|i: int|
            1 <= i < needed(patched(s, shim_dir)).len() ==> needed(patched(s, shim_dir))[i]
                != encode_utf8(SHIM_SONAME@),
{
    let name = encode_utf8(SHIM_SONAME@);
    let t = with_needed(s, name);
    let path = encode_utf8(join(with_dir(search_dirs(t), shim_dir), ":"@));
    lemma_needed_front(s, (needed_tag(), name));
    if first_path(t) is Some {
        lemma_needed_with_path(t, with_path(t, path));
    } else {
        let e = (runpath_tag(), path);
        assert(t.push(e).drop_last() =~= t);
        assert(needed(t.push(e)) == needed(t));
    }
    let all = needed(patched(s, shim_dir));
    assert(all[0] == name);
    assert forall|i: int| 1 <= i < all.len() implies all[i] != name by {
        assert(all[i] == needed(s)[i - 1]);
    }
}

proof fn lemma_first_path_of_patched(s: Seq<(u32, Seq<u8>)>, path: Seq<u8>)
    ensures
        first_path(with_path(s, path)) == Some(path),
    decreases s.len(),
{
    let t = with_path(s, path);
    if first_path(s) is Some {
        if is_path_tag(s[0].0) {
            assert(t[0] == (s[0].0, path));
        } else {
            let rest = s.drop_first();
            lemma_first_path_of_patched(rest, path);
            assert(t.drop_first() =~= with_path(rest, path));
            assert(t[0] == s[0]);
        }
    } else if s.len() == 0 {
        assert(t[0] == (runpath_tag(), path));
    } else {
        let rest = s.drop_first();
        lemma_first_path_of_patched(rest, path);
        assert(t.drop_first() =~= with_path(rest, path));
        assert(t[0] == s[0]);
    }
}

pub open spec fn without_colon(s: Seq<char>) -> bool {
    forall|i: int| 0 <= i < s.len() ==> s[i] != ':'
}

proof fn lemma_pieces(s: Seq<char>)
    ensures
        pieces(s).len() > 0,
        forall|i: int| 0 <= i < pieces(s).len() ==> without_colon(#[trigger] pieces(s)[i]),
    decreases s.len(),
{
    if s.len() > 0 {
        let head = pieces(s.drop_last());
        lemma_pieces(s.drop_last());
        assert forall|i: int| 0 <= i < pieces(s).len() implies without_colon(
            #[trigger] pieces(s)[i],
        ) by {
            if s.last() == ':' {
                if i < head.len() {
                    assert(pieces(s)[i] == head[i]);
                }
            } else if i < head.len() - 1 {
                assert(pieces(s)[i] == head[i]);
            } else {
                assert(without_colon(head[head.len() - 1]));
                assert(pieces(s)[i] == head.last().push(s.last()));
            }
        }
    }
}

proof fn lemma_one_piece(s: Seq<char>)
    requires
        without_colon(s),
    ensures
        pieces(s) == seq![s],
    decreases s.len(),
{
    if s.len() > 0 {
        assert(s.last() != ':');
        lemma_one_piece(s.drop_last());
        assert(s.drop_last().push(s.last()) =~= s);
        assert(pieces(s) =~= seq![s]);
    } else {
        assert(s =~= Seq::<char>::empty());
    }
}

proof fn lemma_pieces_behind_colon(a: Seq<char>, b: Seq<char>)
    requires
        without_colon(b),
    ensures
        pieces(a + seq![':'] + b) == pieces(a).push(b),
    decreases b.len(),
{
    let s = a + seq![':'] + b;
    if b.len() == 0 {
        assert(s.drop_last() =~= a);
        assert(s.last() == ':');
        assert(b =~= Seq::<char>::empty());
    } else {
        assert(b.last() != ':');
        assert(s.drop_last() =~= a + seq![':'] + b.drop_last());
        assert(s.last() == b.last());
        lemma_pieces_behind_colon(a, b.drop_last());
        let head = pieces(a).push(b.drop_last());
        assert(head.drop_last() =~= pieces(a));
        assert(head.last() == b.drop_last());
        assert(b.drop_last().push(b.last()) =~= b);
    }
}

/// Directories without colons are read back from the path that joins them.
pub proof fn joined_directories_are_read_back(dirs: Seq<Seq<char>>)
    requires
        dirs.len() > 0,
        forall|i: int| 0 <= i < dirs.len() ==> without_colon(#[trigger] dirs[i]),
    ensures
        pieces(join(dirs, ":"@)) == dirs,
    decreases dirs.len(),
{
    reveal_strlit(":");
    assert(":"@ =~= seq![':']);
    if dirs.len() == 1 {
        lemma_one_piece(dirs[0]);
        assert(dirs =~= seq![dirs[0]]);
    } else {
        let head = dirs.drop_last();
        assert forall|i: int| 0 <= i < head.len() implies without_colon(#[trigger] head[i]) by {
            assert(head[i] == dirs[i]);
        }
        joined_directories_are_read_back(head);
        assert(without_colon(dirs[dirs.len() - 1]));
        lemma_pieces_behind_colon(join(head, ":"@), dirs.last());
        assert(head.push(dirs.last()) =~= dirs);
    }
}

proof fn lemma_join_len(dirs: Seq<Seq<char>>, k: int)
    requires
        0 <= k < dirs.len(),
        dirs[k].len() > 0,
    ensures
        join(dirs, ":"@).len() > 0,
    decreases dirs.len(),
{
    reveal_strlit(":");
    if dirs.len() > 1 && k < dirs.len() - 1 {
        lemma_join_len(dirs.drop_last(), k);
    }
}

/// A patched file looks for libraries where it looked before, in the same
/// order, and in the directory of the shim.
pub proof fn patched_files_look_where_they_did(s: Seq<(u32, Seq<u8>)>, shim_dir: Seq<char>)
    requires
        shim_dir.len() > 0,
        without_colon(shim_dir),
    ensures
        search_dirs(patched(s, shim_dir)) == with_dir(search_dirs(s), shim_dir),
{
    let name = encode_utf8(SHIM_SONAME@);
    let t = with_needed(s, name);
    if !needed(s).contains(name) {
        assert(t.drop_first() =~= s);
        assert(t[0] == (needed_tag(), name));
    }
    assert(first_path(t) == first_path(s));
    let before = search_dirs(s);
    let dirs = with_dir(before, shim_dir);
    let text = join(dirs, ":"@);
    lemma_first_path_of_patched(t, encode_utf8(text));
    vstd::utf8::encode_utf8_valid_utf8(text);
    vstd::utf8::encode_utf8_decode_utf8(text);
    assert forall|i: int| 0 <= i < dirs.len() implies without_colon(#[trigger] dirs[i]) by {
        if i < before.len() {
            let bytes = first_path(s)->0;
            lemma_pieces(path_text(bytes));
            assert(before[i] == pieces(path_text(bytes))[i]);
        }
    }
    assert(dirs.contains(shim_dir)) by {
        if !before.contains(shim_dir) {
            assert(dirs[before.len() as int] == shim_dir);
        }
    }
    lemma_join_len(dirs, dirs.index_of(shim_dir));
    joined_directories_are_read_back(dirs);
}

/// What the files are, and what is reported, once a step has been carried out
/// without a fault. `written` are the bytes that the patched file is written as.
pub open spec fn patch_step_done(
    files: Map<Seq<char>, Seq<u8>>,
    target: Seq<char>,
    written: Seq<u8>,
    step: PatchStepView,
) -> (Map<Seq<char>, Seq<u8>>, PatchEventView) {
    match step {
        PatchStepView::Check { contents, original, backup_path } => (
            files,
            PatchEventView::Checked { contents, original, exists: files.contains_key(backup_path) },
        ),
        PatchStepView::BackUp { contents, backup_path, bytes } => (
            files.insert(backup_path, bytes),
            PatchEventView::BackedUp { contents, kept: Ok(()) },
        ),
        PatchStepView::Write { contents, tmp_path } => (
            files.insert(tmp_path, written),
            PatchEventView::Written { written: Ok(()) },
        ),
        PatchStepView::Rename { tmp_path } => (
            files.remove(tmp_path).insert(target, files[tmp_path]),
            PatchEventView::Renamed { renamed: Ok(()) },
        ),
        PatchStepView::Done(_) => (files, PatchEventView::Read { read: Ok(files[target]) }),
    }
}

/// The files and the step after at most `rounds` more steps.
pub open spec fn patch_goes_on(
    files: Map<Seq<char>, Seq<u8>>,
    target: Seq<char>,
    shim_dir: Seq<char>,
    written: Seq<u8>,
    step: PatchStepView,
    rounds: nat,
) -> (Map<Seq<char>, Seq<u8>>, PatchStepView)
    decreases rounds,
{
    if rounds == 0 || step is Done {
        (files, step)
    } else {
        let (after, event) = patch_step_done(files, target, written, step);
        patch_goes_on(
            after,
            target,
            shim_dir,
            written,
            patch_transition(target, shim_dir, event),
            (rounds - 1) as nat,
        )
    }
}

/// The files after a patching of which no step meets a fault, and how it ends.
pub open spec fn patch_on_disk(
    files: Map<Seq<char>, Seq<u8>>,
    target: Seq<char>,
    shim_dir: Seq<char>,
    written: Seq<u8>,
) -> (Map<Seq<char>, Seq<u8>>, PatchStepView) {
    let first = patch_transition(
        target,
        shim_dir,
        PatchEventView::Read { read: Ok(files[target]) },
    );
    patch_goes_on(files, target, shim_dir, written, first, 4)
}

/// What the files are, and what is reported, once a step of a restoring has been
/// carried out without a fault.
pub open spec fn restore_step_done(
    files: Map<Seq<char>, Seq<u8>>,
    target: Seq<char>,
    step: RestoreStepView,
) -> (Map<Seq<char>, Seq<u8>>, RestoreEventView) {
    match step {
        RestoreStepView::Check { backup_path } => (
            files,
            RestoreEventView::Checked { exists: files.contains_key(backup_path) },
        ),
        RestoreStepView::Copy { backup_path, tmp_path } => (
            files.insert(tmp_path, files[backup_path]),
            RestoreEventView::Copied { copied: Ok(()) },
        ),
        RestoreStepView::Rename { tmp_path } => (
            files.remove(tmp_path).insert(target, files[tmp_path]),
            RestoreEventView::Renamed { renamed: Ok(()) },
        ),
        RestoreStepView::Done(_) => (files, RestoreEventView::Asked),
    }
}

pub open spec fn restore_goes_on(
    files: Map<Seq<char>, Seq<u8>>,
    target: Seq<char>,
    step: RestoreStepView,
    rounds: nat,
) -> (Map<Seq<char>, Seq<u8>>, RestoreStepView)
    decreases rounds,
{
    if rounds == 0 || step is Done {
        (files, step)
    } else {
        let (after, event) = restore_step_done(files, target, step);
        restore_goes_on(
            after,
            target,
            restore_file_transition(target, event),
            (rounds - 1) as nat,
        )
    }
}

/// The files after a restoring of which no step meets a fault, and how it ends.
pub open spec fn restore_on_disk(files: Map<Seq<char>, Seq<u8>>, target: Seq<char>) -> (
    Map<Seq<char>, Seq<u8>>,
    RestoreStepView,
) {
    let first = restore_file_transition(target, RestoreEventView::Asked);
    restore_goes_on(files, target, first, 3)
}

proof fn lemma_names_differ(target: Seq<char>)
    ensures
        backup_name(target) != target,
        tmp_name(target) != target,
        restore_tmp_name(target) != target,
        tmp_name(target) != backup_name(target),
        restore_tmp_name(target) != backup_name(target),
{
    reveal_strlit(".discord-capture-setup.orig");
    reveal_strlit(".discord-capture-setup.tmp");
    reveal_strlit(".discord-capture-setup.restoretmp");
    assert(backup_name(target).len() == target.len() + 27);
    assert(tmp_name(target).len() == target.len() + 26);
    assert(restore_tmp_name(target).len() == target.len() + 33);
}

/// The file at `target` can be patched and has not been.
pub open spec fn can_be_patched(files: Map<Seq<char>, Seq<u8>>, target: Seq<char>) -> bool {
    files.contains_key(target) && (elf_contents(files[target]) matches Some(contents)
        && contents.0 && !needs_shim(contents.1))
}

proof fn lemma_patch_on_disk(
    files: Map<Seq<char>, Seq<u8>>,
    target: Seq<char>,
    shim_dir: Seq<char>,
    written: Seq<u8>,
)
    requires
        can_be_patched(files, target),
    ensures
        ({
            let (after, end) = patch_on_disk(files, target, shim_dir, written);
            let backup = backup_name(target);
            &&& end == PatchStepView::Done(Ok(Outcome::Patched))
            &&& after.contains_key(target) && after[target] == written
            &&& after.contains_key(backup) && after[backup] == (if files.contains_key(backup) {
                files[backup]
            } else {
                files[target]
            })
        }),
{
    reveal_with_fuel(patch_goes_on, 5);
    lemma_names_differ(target);
}

/// A file that can be patched is patched, and the bytes that it is written as
/// are then in its place. What it was before is kept under the name of the
/// backup, unless something is kept there already: that is left as it is.
pub proof fn the_backup_is_made_once(
    files: Map<Seq<char>, Seq<u8>>,
    target: Seq<char>,
    shim_dir: Seq<char>,
    written: Seq<u8>,
)
    requires
        can_be_patched(files, target),
    ensures
        ({
            let (after, end) = patch_on_disk(files, target, shim_dir, written);
            let backup = backup_name(target);
            &&& end == PatchStepView::Done(Ok(Outcome::Patched))
            &&& after[target] == written
            &&& after.contains_key(backup)
            &&& files.contains_key(backup) ==> after[backup] == files[backup]
            &&& !files.contains_key(backup) ==> after[backup] == files[target]
        }),
{
    lemma_patch_on_disk(files, target, shim_dir, written);
}

/// A backup is written only where there is none, whatever faults there were, and
/// holds what was read from the file, which then did not need the shim.
pub proof fn no_backup_is_overwritten(
    target: Seq<char>,
    shim_dir: Seq<char>,
    event: PatchEventView,
    original: Seq<u8>,
)
    ensures
        patch_transition(target, shim_dir, event) matches PatchStepView::BackUp {
            backup_path,
            bytes,
            ..
        } ==> backup_path == backup_name(target) && (event matches PatchEventView::Checked {
            exists,
            original: read,
            ..
        } && !exists && bytes == read),
        patch_transition(
            target,
            shim_dir,
            PatchEventView::Read { read: Ok(original) },
        ) matches PatchStepView::Check { original: read, backup_path, .. } ==> read == original
            && backup_path == backup_name(target) && (elf_contents(original) matches Some(contents)
            && !needs_shim(contents.1)),
{
}

/// Patching a file again changes nothing, whatever the directory, as long as the
/// needed libraries are read back as they were written. They are not where the
/// dynamic section takes its strings from another table than the dynamic symbols
/// do: the writer knows but that one.
pub proof fn patching_again_changes_nothing(
    files: Map<Seq<char>, Seq<u8>>,
    target: Seq<char>,
    shim_dir: Seq<char>,
    written: Seq<u8>,
    other_dir: Seq<char>,
    other_written: Seq<u8>,
)
    requires
        can_be_patched(files, target),
        elf_contents(written) matches Some(read) && needed(read.1) == needed(
            patched((elf_contents(files[target])->0).1, shim_dir),
        ),
    ensures
        ({
            let after = patch_on_disk(files, target, shim_dir, written).0;
            patch_on_disk(after, target, other_dir, other_written) == (
                after,
                PatchStepView::Done(Ok(Outcome::AlreadyPatched)),
            )
        }),
{
    lemma_patch_on_disk(files, target, shim_dir, written);
    patched_files_need_the_shim((elf_contents(files[target])->0).1, shim_dir);
    reveal_with_fuel(patch_goes_on, 5);
}

/// Restoring a patched file gives it back the bytes that it had before it was
/// first patched. The backup stays, so that restoring again gives the same.
pub proof fn restoring_undoes_patching(
    files: Map<Seq<char>, Seq<u8>>,
    target: Seq<char>,
    shim_dir: Seq<char>,
    written: Seq<u8>,
)
    requires
        can_be_patched(files, target),
        !files.contains_key(backup_name(target)),
    ensures
        ({
            let after = patch_on_disk(files, target, shim_dir, written).0;
            let (restored, end) = restore_on_disk(after, target);
            let (again, end_again) = restore_on_disk(restored, target);
            let backup = backup_name(target);
            &&& end == RestoreStepView::Done(Ok(true))
            &&& restored[target] == files[target]
            &&& restored.contains_key(backup) && restored[backup] == files[target]
            &&& end_again == RestoreStepView::Done(Ok(true))
            &&& again[target] == files[target]
            &&& again.contains_key(backup) && again[backup] == files[target]
        }),
{
    lemma_patch_on_disk(files, target, shim_dir, written);
    lemma_names_differ(target);
    reveal_with_fuel(restore_goes_on, 4);
}

/// Without a backup, restoring changes nothing and says that there is none.
pub proof fn nothing_is_restored_without_a_backup(
    files: Map<Seq<char>, Seq<u8>>,
    target: Seq<char>,
)
    requires
        !files.contains_key(backup_name(target)),
    ensures
        restore_on_disk(files, target) == (files, RestoreStepView::Done(Ok(false))),
{
    reveal_with_fuel(restore_goes_on, 4);
}

/// A library is needed exactly if an entry with the tag of one names it, and the
/// file needs the shim exactly if one of them names that.
pub proof fn needed_libraries_are_tagged_as_such(s: Seq<(u32, Seq<u8>)>, name: Seq<u8>)
    ensures
        needed(s).contains(name) == s.contains((1u32, name)),
        needs_shim(s) == s.contains((1u32, encode_utf8("discord-capture-shim.so"@))),
{
    lemma_needed_contains(s, name);
    lemma_needed_contains(s, encode_utf8("discord-capture-shim.so"@));
}

proof fn lemma_needed_contains(s: Seq<(u32, Seq<u8>)>, name: Seq<u8>)
    ensures
        needed(s).contains(name) == s.contains((1u32, name)),
    decreases s.len(),
{
    if s.len() > 0 {
        let head = s.drop_last();
        let before = needed(head);
        lemma_needed_contains(head, name);
        let all = needed(s);
        let e = (1u32, name);
        if all.contains(name) {
            let k = all.index_of(name);
            if k < before.len() {
                assert(before[k] == name);
                assert(before.contains(name));
                let j = head.index_of(e);
                assert(s[j] == e);
            } else {
                assert(s[s.len() - 1] == e);
            }
        }
        if s.contains(e) {
            let j = s.index_of(e);
            if j < head.len() {
                assert(head[j] == e);
                assert(before.contains(name));
                let k = before.index_of(name);
                assert(all[k] == name);
            } else {
                assert(all[before.len() as int] == name);
            }
        }
    }
}

/// Patching puts the shim in front of all entries, sets every search path, of
/// either kind, to one path, and leaves every other entry as it is; where there
/// was no search path, one of the newer kind comes last.
pub proof fn patching_adds_the_shim_and_its_directory(
    s: Seq<(u32, Seq<u8>)>,
    shim_dir: Seq<char>,
    i: int,
)
    requires
        !needs_shim(s),
        0 <= i < s.len(),
    ensures
        ({
            let p = patched(s, shim_dir);
            let path = encode_utf8(join(with_dir(search_dirs(s), shim_dir), ":"@));
            let had = exists|k: int|
                0 <= k < s.len() && ((#[trigger] s[k]).0 == 15 || s[k].0 == 29);
            &&& p[0] == (1u32, encode_utf8("discord-capture-shim.so"@))
            &&& p.len() == s.len() + (if had {
                1int
            } else {
                2int
            })
            &&& s[i].0 == 15 || s[i].0 == 29 ==> p[i + 1] == (s[i].0, path)
            &&& s[i].0 != 15 && s[i].0 != 29 ==> p[i + 1] == s[i]
            &&& !had ==> p.last() == (29u32, path)
        }),
{
    let name = encode_utf8(SHIM_SONAME@);
    let t = with_needed(s, name);
    assert(t.drop_first() =~= s);
    assert(t[0] == (needed_tag(), name));
    assert(first_path(t) == first_path(s));
    lemma_has_path(s);
    assert(t[i + 1] == s[i]);
}

proof fn lemma_has_path(s: Seq<(u32, Seq<u8>)>)
    ensures
        first_path(s) is Some == exists|k: int|
            0 <= k < s.len() && ((#[trigger] s[k]).0 == 15 || s[k].0 == 29),
    decreases s.len(),
{
    if s.len() > 0 {
        let rest = s.drop_first();
        lemma_has_path(rest);
        assert(s[0] == s[0]);
        if first_path(rest) is Some {
            let k = choose|k: int|
                0 <= k < rest.len() && ((#[trigger] rest[k]).0 == 15 || rest[k].0 == 29);
            assert(s[k + 1] == rest[k]);
        }
        if exists|k: int| 0 <= k < s.len() && ((#[trigger] s[k]).0 == 15 || s[k].0 == 29) {
            let k = choose|k: int|
                0 <= k < s.len() && ((#[trigger] s[k]).0 == 15 || s[k].0 == 29);
            if k > 0 {
                assert(rest[k - 1] == s[k]);
            }
        }
    }
}

/// The directories are searched in the order of the first search path, whichever
/// kind it is, as its colons divide it; that of the shim comes last, unless it is
/// among them.
pub proof fn the_first_search_path_is_read(
    s: Seq<(u32, Seq<u8>)>,
    e: (u32, Seq<u8>),
    dirs: Seq<Seq<char>>,
    dir: Seq<char>,
)
    ensures
        e.0 == 15 || e.0 == 29 ==> first_path(seq![e] + s) == Some(e.1),
        e.0 != 15 && e.0 != 29 ==> first_path(seq![e] + s) == first_path(s),
        first_path(Seq::empty()) is None,
        dirs.contains(dir) ==> with_dir(dirs, dir) == dirs,
        !dirs.contains(dir) ==> with_dir(dirs, dir) == dirs.push(dir),
{
    assert((seq![e] + s).drop_first() =~= s);
}

/// Every file that is written beside the target is named after it: the backup,
/// the patched file and the restored one, each in its own way.
pub proof fn files_are_named_after_the_target(target: Seq<char>)
    ensures
        backup_name(target) == target + ".discord-capture-setup.orig"@,
        tmp_name(target) == target + ".discord-capture-setup.tmp"@,
        restore_tmp_name(target) == target + ".discord-capture-setup.restoretmp"@,
{
}

/// What goes wrong while a file is being patched is told by where it went wrong
/// and why, and ends the patching.
pub proof fn faults_of_patching_tell_where(
    target: Seq<char>,
    shim_dir: Seq<char>,
    e: Seq<char>,
    bytes: Seq<u8>,
    contents: (bool, Seq<(u32, Seq<u8>)>),
)
    ensures
        ({
            let end = |event: PatchEventView| patch_transition(target, shim_dir, event);
            let failed = |text: Seq<char>| PatchStepView::Done(Err(text));
            &&& end(PatchEventView::Read { read: Err(e) }) == failed("read: "@ + e)
            &&& elf_contents(bytes) is None ==> end(PatchEventView::Read { read: Ok(bytes) })
                == failed("parse ELF: "@ + "A parse error occurred while reading the file"@)
            &&& end(PatchEventView::BackedUp { contents, kept: Err(e) }) == failed(
                "write backup: "@ + e,
            )
            &&& end(PatchEventView::Written { written: Err(e) }) == failed(
                "write patched file: "@ + e,
            )
            &&& end(PatchEventView::Renamed { renamed: Err(e) }) == failed(
                "rename into place: "@ + e,
            )
            &&& !contents.0 ==> end(PatchEventView::BackedUp { contents, kept: Ok(()) }) == failed(
                "add DT_NEEDED: A validation error occurred while modifying the file"@,
            )
        }),
{
}

/// What goes wrong while a file is being restored is told by where it went wrong
/// and why.
pub proof fn faults_of_restoring_tell_where(target: Seq<char>, e: Seq<char>)
    ensures
        restore_file_transition(target, RestoreEventView::Copied { copied: Err(e) })
            == RestoreStepView::Done(Err("copy backup to temp: "@ + e)),
        restore_file_transition(target, RestoreEventView::Renamed { renamed: Err(e) })
            == RestoreStepView::Done(Err("rename into place: "@ + e)),
        restore_file_transition(target, RestoreEventView::Asked) == (RestoreStepView::Check {
            backup_path: target + ".discord-capture-setup.orig"@,
        }),
{
}

/// What is written as the patched file is the file patched for the directory of
/// the shim, and it is written beside the file and then renamed; the file itself
/// is never written to.
pub proof fn what_is_written_is_the_patched_file(
    target: Seq<char>,
    shim_dir: Seq<char>,
    event: PatchEventView,
)
    ensures
        patch_transition(target, shim_dir, event) matches PatchStepView::Write {
            contents,
            tmp_path,
        } ==> tmp_path == target + ".discord-capture-setup.tmp"@ && tmp_path != target && (match event {
            PatchEventView::Checked { contents: read, exists, .. } => exists && contents == (
                true,
                patched(read.1, shim_dir),
            ),
            PatchEventView::BackedUp { contents: read, kept } => kept is Ok && contents == (
                true,
                patched(read.1, shim_dir),
            ),
            _ => false,
        }),
        patch_transition(target, shim_dir, event) matches PatchStepView::Rename { tmp_path }
            ==> tmp_path == target + ".discord-capture-setup.tmp"@ && (event
            matches PatchEventView::Written { written } && written is Ok),
{
    lemma_names_differ(target);
}

/// The command line names a file and the directory of the shim, or asks for a
/// file to be restored; anything else is answered with the usage.
pub proof fn the_command_line_tells_what_to_do(
    args: Vec<String>,
    r: SetupCommand,
    names: Vec<Vec<u8>>,
    found: bool,
)
    requires
        call_ensures(read_command, (&args,), r),
        call_ensures(names_shim, (&names,), found),
    ensures
        args@.len() != 3 ==> r is Usage,
        args@.len() == 3 && args@[1]@ == "--restore"@ ==> (r matches SetupCommand::Restore {
            target_path,
        } && target_path@ == args@[2]@),
        args@.len() == 3 && args@[1]@ != "--restore"@ ==> (r matches SetupCommand::Patch {
            target_path,
            shim_dir,
        } && target_path@ == args@[1]@ && shim_dir@ == args@[2]@),
        found == byte_lists(names@).contains(encode_utf8("discord-capture-shim.so"@)),
{
}

/// What came of a patching or a restoring is told with the file, and with the
/// backup or the fault; it went well exactly if there was no fault.
pub proof fn reports_tell_what_came_of_it(
    target: &str,
    e: String,
    patched: (String, bool),
    already: (String, bool),
    failed: (String, bool),
    restored: (String, bool),
    nothing: (String, bool),
    unrestored: (String, bool),
)
    requires
        call_ensures(report_run, (target, &Ok(Outcome::Patched)), patched),
        call_ensures(report_run, (target, &Ok(Outcome::AlreadyPatched)), already),
        call_ensures(report_run, (target, &Err(e)), failed),
        call_ensures(report_restore, (target, &Ok(true)), restored),
        call_ensures(report_restore, (target, &Ok(false)), nothing),
        call_ensures(report_restore, (target, &Err(e)), unrestored),
    ensures
        patched.1 && already.1 && restored.1 && nothing.1 && !failed.1 && !unrestored.1,
        patched.0@ == "discord-capture-setup: "@ + ("patched "@ + target@ + " (backup saved as "@ + (
        target@ + ".discord-capture-setup.orig"@) + ")"@),
        already.0@ == "discord-capture-setup: "@ + (target@ + " already patched, nothing to do"@),
        failed.0@ == "discord-capture-setup: "@ + ("failed to patch "@ + target@ + ": "@ + e@),
        restored.0@ == "discord-capture-setup: "@ + ("restored "@ + target@ + " from backup"@),
        nothing.0@ == "discord-capture-setup: "@ + ("no backup found for "@ + target@
            + ", nothing to restore"@),
        unrestored.0@ == "discord-capture-setup: "@ + ("failed to restore "@ + target@ + ": "@ + e@),
{
}

/// A view of what is to be done about a file shows each thing in its own place.
pub proof fn views_of_patches_show_what_they_carry<'a>(
    container: arwen::elf::ElfContainer<'a>,
    bytes: &'a Vec<u8>,
    path: String,
    other: String,
    outcome: Outcome,
    e: String,
    restored: bool,
)
    ensures
        ({
            let contents = (has_dynamic(container), dynamic_strings(container));
            &&& (PatchStep::Check { container, original: bytes, backup_path: path })@ == (
            PatchStepView::Check { contents, original: bytes@, backup_path: path@ })
            &&& (PatchStep::BackUp { container, backup_path: path, bytes })@ == (
            PatchStepView::BackUp { contents, backup_path: path@, bytes: bytes@ })
            &&& (PatchStep::Write { container, tmp_path: path })@ == (PatchStepView::Write {
                contents,
                tmp_path: path@,
            })
            &&& (PatchStep::Rename { tmp_path: path })@ == (PatchStepView::Rename {
                tmp_path: path@,
            })
            &&& PatchStep::Done(Ok(outcome))@ == PatchStepView::Done(Ok(outcome))
            &&& PatchStep::Done(Err(e))@ == PatchStepView::Done(Err(e@))
            &&& (PatchEvent::Read { read: Ok(bytes) })@ == (PatchEventView::Read {
                read: Ok(bytes@),
            })
            &&& (PatchEvent::Read { read: Err(e) })@ == (PatchEventView::Read {
                read: Err(e@),
            })
            &&& (PatchEvent::Checked { container, original: bytes, exists: restored })@ == (
            PatchEventView::Checked { contents, original: bytes@, exists: restored })
            &&& (PatchEvent::BackedUp { container, kept: Err(e) })@ == (PatchEventView::BackedUp {
                contents,
                kept: Err(e@),
            })
            &&& (PatchEvent::BackedUp { container, kept: Ok(()) })@ == (PatchEventView::BackedUp {
                contents,
                kept: Ok(()),
            })
        }),
        (RestoreFileStep::Check { backup_path: path })@ == (RestoreStepView::Check {
            backup_path: path@,
        }),
        (RestoreFileStep::Copy { backup_path: path, tmp_path: other })@ == (
        RestoreStepView::Copy { backup_path: path@, tmp_path: other@ }),
        (RestoreFileStep::Rename { tmp_path: path })@ == (RestoreStepView::Rename {
            tmp_path: path@,
        }),
        RestoreFileStep::Done(Ok(restored))@ == RestoreStepView::Done(Ok(restored)),
        RestoreFileStep::Done(Err(e))@ == RestoreStepView::Done(Err(e@)),
        (RestoreFileEvent::Checked { exists: restored })@ == (RestoreEventView::Checked {
            exists: restored,
        }),
{
}

/// The search path that is written leads through the directories in their order,
/// with a colon between each two, and to the directory of the shim last, unless it
/// is among them.
pub proof fn the_search_path_is_extended_at_its_end(
    dirs: Vec<String>,
    shim_dir: &str,
    r: String,
)
    requires
        call_ensures(extended_path, (dirs, shim_dir), r),
    ensures
        texts(dirs@).contains(shim_dir@) ==> r@ == join(texts(dirs@), ":"@),
        dirs@.len() == 0 ==> r@ == shim_dir@,
        dirs@.len() > 0 && !texts(dirs@).contains(shim_dir@) ==> r@ == join(texts(dirs@), ":"@)
            + ":"@ + shim_dir@,
{
    crate::text::joining_separates_the_pieces(texts(dirs@), shim_dir@, ":"@);
    if dirs@.len() == 0 {
        assert(texts(dirs@).push(shim_dir@) =~= seq![shim_dir@]);
    }
}

} // verus!
