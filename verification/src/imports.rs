//! Imported-symbol enumeration across PE / ELF / Mach-O: the PE import
//! directory (named and ordinal-only), ELF dynamic-symbol imports and Mach-O
//! bound symbols, normalized into one shape. A blob goblin cannot parse has
//! no imports; at most `MAX_IMPORTS` rows are returned.
use vstd::prelude::*;

use crate::container::{opt_string_view, ContainerKind};
use crate::limits::MAX_IMPORTS;
use crate::objfile::{
    elf_dynsym, elf_dynsym_count, elf_strtab_get_at, fat_first_checked, fat_first_of, container_kind_of, goblin_dynsym,
    goblin_mach_imports, goblin_object, goblin_strtab_get_at, mach_import,
    mach_import_count, mach_imports, mach_source_ok, parse_checked, pe_import, pe_import_count,
    Container, ElfFile, ElfSym, MachFile, MachImport, MachImportView, PeFile, PeImport,
    PeImportView, StrTable,
};
use crate::sections::is_prefix;
use crate::text::{chars_of, chars_start_with, starts_with, take_at_most};

verus! {

/// One imported symbol.
#[derive(Debug, Clone)]
pub struct Import {
    /// Importing library / DLL / dylib, or `None` when the container does
    /// not attribute the symbol to one (always for ELF).
    pub library: Option<String>,
    /// Symbol name, or `None` for an ordinal-only PE import.
    pub name: Option<String>,
    /// Import ordinal (PE only).
    pub ordinal: Option<i32>,
    /// `named | ordinal | delayed`.
    pub kind: String,
}

/// The content of an [`Import`].
pub struct ImportView {
    pub library: Option<Seq<char>>,
    pub name: Option<Seq<char>>,
    pub ordinal: Option<i32>,
    pub kind: Seq<char>,
}

impl View for Import {
    type V = ImportView;

    open spec fn view(&self) -> ImportView {
        ImportView {
            library: opt_string_view(self.library),
            name: opt_string_view(self.name),
            ordinal: self.ordinal,
            kind: self.kind@,
        }
    }
}

/// The views of a sequence of imports.
pub open spec fn imports_view(v: Seq<Import>) -> Seq<ImportView> {
    v.map_values(|i: Import| i@)
}

/// A library name, or `None` when it is empty.
pub open spec fn nonempty(s: Seq<char>) -> Option<Seq<char>> {
    if s.len() == 0 {
        None
    } else {
        Some(s)
    }
}

/// ELF `STB_GLOBAL` and `STB_WEAK`.
pub const STB_GLOBAL: u8 = 1;
pub const STB_WEAK: u8 = 2;

/// goblin's `Sym::is_import`: a global or weak symbol whose value is 0.
pub open spec fn spec_is_import(sym: ElfSym) -> bool {
    let bind = sym.st_info >> 4u8;
    (bind == STB_GLOBAL || bind == STB_WEAK) && sym.st_value == 0
}

fn is_import(sym: &ElfSym) -> (r: bool)
    ensures
        r == spec_is_import(*sym),
{
    let bind = sym.st_info >> 4u8;
    (bind == STB_GLOBAL || bind == STB_WEAK) && sym.st_value == 0
}

/// The import an ELF dynamic symbol with name `name` stands for, if any: a
/// named import when it is an import symbol with a non-empty name.
pub open spec fn spec_elf_import(sym: ElfSym, name: Option<Seq<char>>) -> Option<ImportView> {
    if !spec_is_import(sym) {
        None
    } else {
        match name {
            Some(n) => if n.len() == 0 {
                None
            } else {
                Some(ImportView { library: None, name: Some(n), ordinal: None, kind: "named"@ })
            },
            None => None,
        }
    }
}

/// The view of an optional import.
pub open spec fn opt_import_view(o: Option<Import>) -> Option<ImportView> {
    match o {
        Some(i) => Some(i@),
        None => None,
    }
}

/// The import an ELF dynamic symbol named `name` stands for, if any.
pub fn elf_import_of(sym: &ElfSym, name: Option<String>) -> (r: Option<Import>)
    ensures
        opt_import_view(r) == spec_elf_import(*sym, opt_string_view(name)),
{
    if !is_import(sym) {
        return None;
    }
    match name {
        Some(n) => {
            if n.as_str().is_empty() {
                None
            } else {
                Some(Import { library: None, name: Some(n), ordinal: None, kind: "named".to_string() })
            }
        },
        None => None,
    }
}

/// The import a PE import directory entry stands for: ordinal-only when its
/// name is empty or synthesized (`ORDINAL...`), named otherwise; the library
/// is the DLL name when it is not empty.
pub open spec fn spec_pe_import(imp: PeImportView) -> ImportView {
    let library = nonempty(imp.dll);
    if imp.name.len() == 0 || starts_with(imp.name, "ORDINAL"@) {
        ImportView { library, name: None, ordinal: Some(imp.ordinal as i32), kind: "ordinal"@ }
    } else {
        ImportView { library, name: Some(imp.name), ordinal: Some(imp.ordinal as i32), kind: "named"@ }
    }
}

/// The import a PE import directory entry stands for.
pub fn pe_import_of(imp: PeImport) -> (r: Import)
    ensures
        r@ == spec_pe_import(imp@),
{
    let n = chars_of(imp.name.as_str());
    let library = if imp.dll.as_str().is_empty() {
        None
    } else {
        Some(imp.dll)
    };
    let ordinal = imp.ordinal as i32;
    if n.len() == 0 || chars_start_with(&n, "ORDINAL") {
        Import { library, name: None, ordinal: Some(ordinal), kind: "ordinal".to_string() }
    } else {
        Import { library, name: Some(imp.name), ordinal: Some(ordinal), kind: "named".to_string() }
    }
}

/// The import a Mach-O bound symbol stands for: `delayed` when lazily bound.
pub open spec fn spec_mach_import(imp: MachImportView) -> ImportView {
    ImportView {
        library: nonempty(imp.dylib),
        name: Some(imp.name),
        ordinal: None,
        kind: if imp.is_lazy { "delayed"@ } else { "named"@ },
    }
}

/// The import a Mach-O bound symbol stands for.
pub fn mach_import_of(imp: MachImport) -> (r: Import)
    ensures
        r@ == spec_mach_import(imp@),
{
    let library = if imp.dylib.as_str().is_empty() {
        None
    } else {
        Some(imp.dylib)
    };
    let kind = if imp.is_lazy {
        "delayed"
    } else {
        "named"
    };
    Import { library, name: Some(imp.name), ordinal: None, kind: kind.to_string() }
}

/// The imports among the first `n` dynamic symbols of an ELF blob.
pub open spec fn spec_elf_imports_upto(bytes: Seq<u8>, n: int) -> Seq<ImportView>
    decreases n,
{
    if n <= 0 {
        Seq::empty()
    } else {
        let rest = spec_elf_imports_upto(bytes, n - 1);
        match goblin_dynsym(bytes, (n - 1) as usize) {
            Some(sym) => match spec_elf_import(
                sym,
                goblin_strtab_get_at(bytes, StrTable::Dynamic, sym.st_name),
            ) {
                Some(imp) => rest.push(imp),
                None => rest,
            },
            None => rest,
        }
    }
}

/// The imports of a PE blob.
pub open spec fn spec_pe_imports(bytes: Seq<u8>) -> Seq<ImportView> {
    let v = goblin_object(bytes).pe_imports;
    Seq::new(v.len(), |i: int| spec_pe_import(v[i]))
}

/// The imports of a Mach-O source: none when its bind streams are not
/// accepted (see [`crate::binds::mach_binds_clean`]) or goblin cannot list
/// them.
pub open spec fn spec_mach_imports(src: (Seq<u8>, bool)) -> Seq<ImportView> {
    if !crate::binds::mach_binds_clean(src) {
        Seq::empty()
    } else {
        match goblin_mach_imports(src.0, src.1) {
            Some(v) => Seq::new(v.len(), |i: int| spec_mach_import(v[i])),
            None => Seq::empty(),
        }
    }
}

/// What `imports(bytes)` returns: the imports of the container goblin parses
/// (for a fat Mach-O, of its first slice), at most `MAX_IMPORTS`.
pub open spec fn spec_imports(bytes: Seq<u8>) -> Seq<ImportView> {
    let all = match container_kind_of(bytes) {
        ContainerKind::Elf => spec_elf_imports_upto(
            bytes,
            goblin_object(bytes).elf_dynsym_count as int,
        ),
        ContainerKind::Pe => spec_pe_imports(bytes),
        ContainerKind::Mach => spec_mach_imports((bytes, false)),
        ContainerKind::FatMach => if fat_first_of(bytes) is Some {
            spec_mach_imports((bytes, true))
        } else {
            Seq::empty()
        },
        ContainerKind::Unknown => Seq::empty(),
    };
    take_at_most(all, MAX_IMPORTS as int)
}

proof fn lemma_elf_upto_prefix(bytes: Seq<u8>, a: int, b: int)
    requires
        0 <= a <= b,
    ensures
        is_prefix(spec_elf_imports_upto(bytes, a), spec_elf_imports_upto(bytes, b)),
    decreases b,
{
    let p = spec_elf_imports_upto(bytes, a);
    if a < b {
        lemma_elf_upto_prefix(bytes, a, b - 1);
        let m = spec_elf_imports_upto(bytes, b - 1);
        let t = spec_elf_imports_upto(bytes, b);
        assert(t.take(p.len() as int) =~= m.take(p.len() as int));
    } else {
        assert(p.take(p.len() as int) =~= p);
    }
}

fn push_import(out: &mut Vec<Import>, i: Import)
    ensures
        imports_view(final(out)@) == imports_view(old(out)@).push(i@),
        final(out).len() == old(out).len() + 1,
{
    let ghost pre = out@;
    out.push(i);
    proof {
        assert(out@ == pre.push(out@[pre.len() as int]));
        assert(imports_view(out@) =~= imports_view(pre).push(out@[pre.len() as int]@));
    }
}

fn elf_imports(f: &ElfFile) -> (r: Vec<Import>)
    requires
        goblin_object(f@).kind == ContainerKind::Elf,
    ensures
        imports_view(r@) == take_at_most(
            spec_elf_imports_upto(f@, goblin_object(f@).elf_dynsym_count as int),
            MAX_IMPORTS as int,
        ),
{
    let n = elf_dynsym_count(f);
    let ghost total = spec_elf_imports_upto(f@, n as int);
    let mut out: Vec<Import> = Vec::new();
    let mut i: usize = 0;
    while i < n && out.len() < MAX_IMPORTS
        invariant
            goblin_object(f@).kind == ContainerKind::Elf,
            n == goblin_object(f@).elf_dynsym_count,
            total == spec_elf_imports_upto(f@, n as int),
            i <= n,
            out.len() <= MAX_IMPORTS,
            imports_view(out@) == spec_elf_imports_upto(f@, i as int),
        decreases n - i,
    {
        if let Some(sym) = elf_dynsym(f, i) {
            let name = elf_strtab_get_at(f, StrTable::Dynamic, sym.st_name);
            if let Some(imp) = elf_import_of(&sym, name) {
                push_import(&mut out, imp);
            }
        }
        i = i + 1;
    }
    if i < n {
        proof {
            lemma_elf_upto_prefix(f@, i as int, n as int);
        }
    }
    out
}

fn pe_imports(f: &PeFile) -> (r: Vec<Import>)
    requires
        goblin_object(f@).kind == ContainerKind::Pe,
    ensures
        imports_view(r@) == take_at_most(spec_pe_imports(f@), MAX_IMPORTS as int),
{
    let ghost all = spec_pe_imports(f@);
    let n = pe_import_count(f);
    let mut out: Vec<Import> = Vec::new();
    let mut i: usize = 0;
    while i < n && out.len() < MAX_IMPORTS
        invariant
            goblin_object(f@).kind == ContainerKind::Pe,
            n == all.len(),
            all == spec_pe_imports(f@),
            i <= n,
            i <= MAX_IMPORTS,
            out.len() == i,
            imports_view(out@) == all.take(i as int),
        decreases n - i,
    {
        push_import(&mut out, pe_import_of(pe_import(f, i)));
        i = i + 1;
        assert(imports_view(out@) =~= all.take(i as int));
    }
    if i == n {
        assert(all.take(n as int) =~= all);
    }
    out
}

fn mach_imports_of(m: &MachFile) -> (r: Vec<Import>)
    requires
        mach_source_ok(m@),
    ensures
        imports_view(r@) == take_at_most(spec_mach_imports(m@), MAX_IMPORTS as int),
{
    let ghost all = spec_mach_imports(m@);
    let mut out: Vec<Import> = Vec::new();
    if !crate::binds::mach_binds_ok(m) {
        assert(imports_view(out@) =~= take_at_most(all, MAX_IMPORTS as int));
        return out;
    }
    match mach_imports(m) {
        Some(imps) => {
            let n = mach_import_count(&imps);
            let mut i: usize = 0;
            while i < n && out.len() < MAX_IMPORTS
                invariant
                    goblin_mach_imports(imps@.0, imps@.1) is Some,
                    imps@ == m@,
                    all == spec_mach_imports(m@),
                    n == all.len(),
                    i <= n,
                    i <= MAX_IMPORTS,
                    out.len() == i,
                    imports_view(out@) == all.take(i as int),
                decreases n - i,
            {
                push_import(&mut out, mach_import_of(mach_import(&imps, i)));
                i = i + 1;
                assert(imports_view(out@) =~= all.take(i as int));
            }
            if i == n {
                assert(all.take(n as int) =~= all);
            }
        },
        None => {
            assert(imports_view(out@) =~= all);
        },
    }
    out
}

/// Enumerates the imported symbols of `bytes`: ELF dynamic-symbol imports,
/// PE import directory entries, or Mach-O bound symbols (of the first slice
/// of a fat Mach-O), at most `MAX_IMPORTS`; none for a blob goblin does not
/// parse.
pub fn imports(bytes: &[u8]) -> (r: Vec<Import>)
    ensures
        imports_view(r@) == spec_imports(bytes@),
{
    match parse_checked(bytes) {
        Container::Elf(f) => elf_imports(&f),
        Container::Pe(f) => pe_imports(&f),
        Container::Mach(m) => mach_imports_of(&m),
        Container::Fat(f) => match fat_first_checked(&f) {
            Some(m) => mach_imports_of(&m),
            None => Vec::new(),
        },
        Container::Unknown => Vec::new(),
    }
}

} // verus!
