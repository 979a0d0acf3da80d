//! The executable code of an ELF32/ELF64 object (x86 / x86_64 only): which
//! section to take, and its lifting.

use vstd::prelude::*;
use object::{Object, ObjectSection};

use crate::sir::{Module, OpModel};
use crate::lift::{LiftError, lift_x86_32_at, lift_spec, lifted_module};
use crate::text::{str_eq, text};

verus! {

/// The code section taken from an ELF file.
#[derive(Debug, Clone)]
pub struct ElfText {
    pub bytes: Vec<u8>,
    pub vma: u64,
    pub section_name: String,
    pub is_64: bool,
    pub path: String,
    pub architecture: String,
}

/// What the object parser reports of one section.
#[derive(Debug)]
pub struct SectionInfo {
    /// The section's name, `None` when the parser cannot read it.
    pub name: Option<String>,
    /// `sh_flags` of an ELF section header.
    pub elf_flags: Option<u64>,
    /// The section's contents, or the parser's message when they cannot be read.
    pub data: Result<Vec<u8>, String>,
    pub address: u64,
}

/// What the object parser reports of a file.
#[derive(Debug)]
pub struct ParsedElf {
    /// Name of the architecture (`X86_64`, `I386`, `Aarch64`, ...).
    pub architecture: String,
    pub is_64: bool,
    pub sections: Vec<SectionInfo>,
}

/// The ELF flag of sections holding executable instructions.
pub const SHF_EXECINSTR: u64 = 0x4;

/// A section as plain values: name, flags, contents (or message), address.
pub type SectionModel = (Option<Seq<char>>, Option<u64>, Result<Seq<u8>, Seq<char>>, u64);

/// A parsed file as plain values: architecture name, 64-bit, sections.
pub type ElfModel = (Seq<char>, bool, Seq<SectionModel>);

/// Model of a section.
pub open spec fn section_model(s: SectionInfo) -> SectionModel {
    (
        match s.name {
            Some(n) => Some(n@),
            None => None,
        },
        s.elf_flags,
        match s.data {
            Ok(d) => Ok(d@),
            Err(m) => Err(m@),
        },
        s.address,
    )
}

/// Model of a parsed file.
pub open spec fn elf_model(p: ParsedElf) -> ElfModel {
    (p.architecture@, p.is_64, Seq::new(p.sections@.len(), |i: int| section_model(p.sections@[i])))
}

/// Name for what the `object` crate reports of a file's bytes: its
/// architecture, width and sections, or its parse error message.
pub uninterp spec fn parsed_object(data: Seq<u8>) -> Result<ElfModel, Seq<char>>;

/// Parses an object file with `object::File::parse` and reads its
/// architecture (by `Debug` name), width and sections (name where it can be
/// read, ELF flags, contents or the reading error's message, address); the
/// report is a function of the bytes, named
/// [`parsed_object`].
#[verifier::external_body]
fn parse_object(data: &[u8]) -> (r: Result<ParsedElf, String>)
    ensures
        match r {
            Ok(p) => parsed_object(data@) == Ok::<ElfModel, Seq<char>>(elf_model(p)),
            Err(e) => parsed_object(data@) == Err::<ElfModel, Seq<char>>(e@),
        },
{
    let file = object::File::parse(data).map_err(|e| e.to_string())?;
    let sections = file.sections().map(|s| SectionInfo {
        name: s.name().ok().map(|n| n.to_string()),
        elf_flags: match s.flags() {
            object::SectionFlags::Elf { sh_flags, .. } => Some(sh_flags.0),
            _ => None,
        },
        data: s.data().map(|d| d.to_vec()).map_err(|e| e.to_string()),
        address: s.address(),
    }).collect();
    Ok(ParsedElf { architecture: format!("{:?}", file.architecture()), is_64: file.is_64(), sections })
}

/// Models of a list of sections.
pub open spec fn sections_model(secs: Seq<SectionInfo>) -> Seq<SectionModel> {
    Seq::new(secs.len(), |i: int| section_model(secs[i]))
}

/// The section holds executable instructions.
pub open spec fn executable(s: SectionModel) -> bool {
    s.1 matches Some(f) && f & SHF_EXECINSTR != 0
}

/// Why no code could be taken from an ELF file.
#[derive(Debug, Clone)]
pub enum ElfError {
    /// The object parser failed (its message).
    Object(String),
    /// No `.text` and no executable section with contents.
    NoText,
    /// The architecture (its name) is neither X86_64 nor I386.
    UnsupportedArch(String),
    /// Lifting the code failed.
    Lift(LiftError),
}

/// Architectures whose code is lifted.
pub open spec fn arch_supported(name: Seq<char>) -> bool {
    name == "X86_64"@ || name == "I386"@
}

/// Whether code of the architecture named `name` is lifted.
pub fn arch_ok(name: &str) -> (r: bool)
    ensures
        r == arch_supported(name@),
{
    str_eq(name, "X86_64") || str_eq(name, "I386")
}

/// The contents of a section are unreadable or not empty.
pub open spec fn has_contents(sec: SectionModel) -> bool {
    !(sec.2 matches Ok(d) && d.len() == 0)
}

/// The first section from `i` on named `.text`.
pub open spec fn first_text(secs: Seq<SectionModel>, i: int) -> Option<int>
    decreases secs.len() - i,
{
    if i >= secs.len() || i < 0 {
        None
    } else if secs[i].0 == Some(".text"@) {
        Some(i)
    } else {
        first_text(secs, i + 1)
    }
}

/// The first section from `i` on that is executable and has contents.
pub open spec fn first_exec(secs: Seq<SectionModel>, i: int) -> Option<int>
    decreases secs.len() - i,
{
    if i >= secs.len() || i < 0 {
        None
    } else if executable(secs[i]) && has_contents(secs[i]) {
        Some(i)
    } else {
        first_exec(secs, i + 1)
    }
}

/// The section taken: the first `.text` when it has contents, else the first
/// executable section with contents.
pub open spec fn pick(secs: Seq<SectionModel>) -> Option<int> {
    match first_text(secs, 0) {
        Some(t) => if has_contents(secs[t]) {
            Some(t)
        } else {
            first_exec(secs, 0)
        },
        None => first_exec(secs, 0),
    }
}

proof fn lemma_first_range(secs: Seq<SectionModel>, i: int)
    requires
        0 <= i,
    ensures
        first_text(secs, i) is Some ==> i <= first_text(secs, i)->Some_0 < secs.len(),
        first_exec(secs, i) is Some ==> i <= first_exec(secs, i)->Some_0 < secs.len(),
    decreases secs.len() - i,
{
    if i < secs.len() {
        lemma_first_range(secs, i + 1);
    }
}

fn find_text(secs: &Vec<SectionInfo>) -> (r: Option<usize>)
    ensures
        match first_text(sections_model(secs@), 0) {
            Some(t) => r == Some(t as usize),
            None => r is None,
        },
        r matches Some(i) ==> i < secs@.len(),
{
    let mut i: usize = secs.len();
    let mut found: Option<usize> = None;
    while i > 0
        invariant
            i <= secs@.len(),
            match first_text(sections_model(secs@), i as int) {
                Some(t) => found == Some(t as usize),
                None => found is None,
            },
            found matches Some(t) ==> t < secs@.len(),
        decreases i,
    {
        i = i - 1;
        let is_text = match &secs[i].name {
            Some(n) => str_eq(n.as_str(), ".text"),
            None => false,
        };
        if is_text {
            found = Some(i);
        }
    }
    found
}

fn find_exec(secs: &Vec<SectionInfo>) -> (r: Option<usize>)
    ensures
        match first_exec(sections_model(secs@), 0) {
            Some(t) => r == Some(t as usize),
            None => r is None,
        },
        r matches Some(i) ==> i < secs@.len(),
{
    let mut i: usize = secs.len();
    let mut found: Option<usize> = None;
    while i > 0
        invariant
            i <= secs@.len(),
            match first_exec(sections_model(secs@), i as int) {
                Some(t) => found == Some(t as usize),
                None => found is None,
            },
            found matches Some(t) ==> t < secs@.len(),
        decreases i,
    {
        i = i - 1;
        let contents = match &secs[i].data {
            Ok(d) => d.len() > 0,
            Err(_) => true,
        };
        let exec = match secs[i].elf_flags {
            Some(f) => f & SHF_EXECINSTR != 0,
            None => false,
        };
        if exec && contents {
            found = Some(i);
        }
    }
    found
}

fn copy_bytes(b: &Vec<u8>) -> (r: Vec<u8>)
    ensures
        r@ == b@,
{
    let mut out: Vec<u8> = Vec::new();
    let mut i: usize = 0;
    while i < b.len()
        invariant
            i <= b.len(),
            out@ == b@.subrange(0, i as int),
        decreases b.len() - i,
    {
        out.push(b[i]);
        i = i + 1;
        assert(out@ =~= b@.subrange(0, i as int));
    }
    assert(b@.subrange(0, b.len() as int) =~= b@);
    out
}

/// The name an [`ElfText`] gives its section: the section's name, or `exec`
/// when the parser cannot read it.
pub open spec fn section_label(name: Option<Seq<char>>) -> Seq<char> {
    match name {
        Some(n) => n,
        None => "exec"@,
    }
}

/// The code taken from a parsed file with architecture `arch`, width
/// `is_64` and sections `secs`, found at `path`: the architecture must be
/// X86_64 or I386; the section is the first `.text` with contents, else the
/// first executable section with contents, named `exec` when its name cannot
/// be read; unreadable contents of that section are the parser's error.
pub open spec fn selected(
    arch: Seq<char>,
    is_64: bool,
    secs: Seq<SectionModel>,
    path: Seq<char>,
    r: Result<ElfText, ElfError>,
) -> bool {
    if !arch_supported(arch) {
        r matches Err(ElfError::UnsupportedArch(a)) && a@ == arch
    } else {
        match pick(secs) {
            None => r matches Err(ElfError::NoText),
            Some(i) => match secs[i].2 {
                Ok(d) => r matches Ok(t) && t.bytes@ == d && t.vma == secs[i].3 && t.section_name@
                    == section_label(secs[i].0) && t.is_64 == is_64 && t.path@ == path && t.architecture@ == arch,
                Err(m) => r matches Err(ElfError::Object(mm)) && mm@ == m,
            },
        }
    }
}

/// Takes the code of a parsed ELF file (see [`selected`]).
pub fn select_text(
    arch: String,
    is_64: bool,
    sections: &Vec<SectionInfo>,
    path: String,
) -> (r: Result<ElfText, ElfError>)
    ensures
        selected(arch@, is_64, sections_model(sections@), path@, r),
{
    if !arch_ok(arch.as_str()) {
        return Err(ElfError::UnsupportedArch(arch));
    }
    proof {
        lemma_first_range(sections_model(sections@), 0);
        assert(sections@.len() == sections.len());
    }
    let t = find_text(sections);
    let chosen = match t {
        Some(i) => {

            let contents = match &sections[i].data {
                Ok(d) => d.len() > 0,
                Err(_) => true,
            };

            if contents {
                Some(i)
            } else {
                find_exec(sections)
            }
        },
        None => find_exec(sections),
    };
    match chosen {
        None => Err(ElfError::NoText),
        Some(i) => {
            let sec = &sections[i];
            match &sec.data {
                Ok(d) => Ok(
                    ElfText {
                        bytes: copy_bytes(d),
                        vma: sec.address,
                        section_name: match &sec.name {
                            Some(n) => n.clone(),
                            None => text("exec"),
                        },
                        is_64,
                        path,
                        architecture: arch,
                    },
                ),
                Err(m) => Err(ElfError::Object(m.clone())),
            }
        },
    }
}

/// Reads the code of an ELF file from its bytes, as found at `path` (see
/// [`selected`]); a file the parser refuses is the parser's error.
pub fn load_elf_text(data: &[u8], path: String) -> (r: Result<ElfText, ElfError>)
    ensures
        match parsed_object(data@) {
            Err(m) => r matches Err(ElfError::Object(mm)) && mm@ == m,
            Ok((arch, is_64, secs)) => selected(arch, is_64, secs, path@, r),
        },
{
    match parse_object(data) {
        Err(m) => Err(ElfError::Object(m)),
        Ok(p) => {
            let r = select_text(p.architecture, p.is_64, &p.sections, path);
            assert(elf_model(p).2 == sections_model(p.sections@));
            r
        },
    }
}

/// Lifts the code of an ELF file as an x86 instruction stream at its address,
/// recording the file and section it came from.
pub fn lift_elf_text(text: ElfText, fn_name: &str) -> (r: Result<(ElfText, Module), ElfError>)
    ensures
        match r {
            Ok((t, m)) => {
                &&& t.bytes@ == text.bytes@ && t.vma == text.vma && t.path@ == text.path@
                &&& t.section_name@ == text.section_name@
                &&& lift_spec(text.bytes@, text.vma) matches Ok(ops)
                &&& lifted_module(
                    Module { source: None, text_vma: None, ..m },
                    fn_name@,
                    ops,
                )
                &&& m.source matches Some(src) && src@ == text.path@ + ":"@ + text.section_name@
                &&& m.text_vma == Some(text.vma)
            },
            Err(ElfError::Lift(e)) => lift_spec(text.bytes@, text.vma) == Err::<Seq<OpModel>, LiftError>(e),
            Err(_) => false,
        },
{
    match lift_x86_32_at(text.bytes.as_slice(), fn_name, text.vma) {
        Ok(m) => {
            let mut module = m;
            let mut src = String::new();
            src.append(text.path.as_str());
            src.append(":");
            src.append(text.section_name.as_str());
            module.source = Some(src);
            module.text_vma = Some(text.vma);
            Ok((text, module))
        },
        Err(e) => Err(ElfError::Lift(e)),
    }
}

} // verus!
