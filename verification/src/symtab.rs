//! The symbol index: per-file symbol tables and the process-wide map of
//! defined global symbols.
//!
//! A symbol is a defined global when its binding is `GLOBAL` and its
//! `st_shndx` is not `UNDEF`.  Names in the global map are unique: a second
//! definition under the same name is a fatal duplicate-definition failure,
//! so link results cannot depend on input order silently.

use crate::bytes::{bytes_eq, clone_bytes};
use crate::elf::{Sym, SHN_UNDEF, STB_GLOBAL};
use crate::errors::{LinkError, LinkErrorV};
use vstd::prelude::*;

verus! {

/// The binding half of a symbol's `st_info`.
pub open spec fn spec_st_bind(info: u8) -> u8 {
    info >> 4
}

/// One input file's symbol table with every name resolved.
pub struct FileSyms {
    pub syms: Vec<Sym>,
    pub names: Vec<Vec<u8>>,
}

/// The mathematical shadow of [`FileSyms`].
#[verifier::ext_equal]
pub ghost struct FileSymsV {
    pub syms: Seq<Sym>,
    pub names: Seq<Seq<u8>>,
}

impl View for FileSyms {
    type V = FileSymsV;

    open spec fn view(&self) -> FileSymsV {
        FileSymsV {
            syms: self.syms@,
            names: Seq::new(self.names@.len(), |i: int| self.names@[i]@),
        }
    }
}

/// One entry of the global map: `name` is defined by symbol `sym_idx` of
/// file `file_idx`.
pub struct GlobalDef {
    pub name: Vec<u8>,
    pub file_idx: usize,
    pub sym_idx: usize,
}

/// The mathematical shadow of [`GlobalDef`].
#[verifier::ext_equal]
pub ghost struct GlobalDefV {
    pub name: Seq<u8>,
    pub file_idx: usize,
    pub sym_idx: usize,
}

impl View for GlobalDef {
    type V = GlobalDefV;

    open spec fn view(&self) -> GlobalDefV {
        GlobalDefV { name: self.name@, file_idx: self.file_idx, sym_idx: self.sym_idx }
    }
}

/// Per-file symbol tables (indexed by `file_idx`) plus the global map.
pub struct SymbolTable {
    pub by_file: Vec<FileSyms>,
    pub globals: Vec<GlobalDef>,
}

/// The mathematical shadow of [`SymbolTable`].
#[verifier::ext_equal]
pub ghost struct SymbolTableV {
    pub by_file: Seq<FileSymsV>,
    pub globals: Seq<GlobalDefV>,
}

impl View for SymbolTable {
    type V = SymbolTableV;

    open spec fn view(&self) -> SymbolTableV {
        SymbolTableV {
            by_file: Seq::new(self.by_file@.len(), |i: int| self.by_file@[i]@),
            globals: Seq::new(self.globals@.len(), |i: int| self.globals@[i]@),
        }
    }
}

// ------------------------------------------------------------------
// Specification
// ------------------------------------------------------------------

/// The first entry of the global map at or after `i` whose name is `name`.
pub open spec fn spec_globals_find(g: Seq<GlobalDefV>, name: Seq<u8>, i: int) -> Option<GlobalDefV>
    decreases g.len() - i,
{
    if i < 0 || i >= g.len() {
        None
    } else if g[i].name == name {
        Some(g[i])
    } else {
        spec_globals_find(g, name, i + 1)
    }
}

/// The global map after walking the first `i` symbols of file `file_idx`:
/// every defined global is appended, a repeated name is the
/// duplicate-definition failure.
pub open spec fn spec_insert_prefix(
    g: Seq<GlobalDefV>,
    file_idx: usize,
    syms: Seq<Sym>,
    names: Seq<Seq<u8>>,
    i: int,
) -> Result<Seq<GlobalDefV>, LinkErrorV>
    decreases i,
{
    if i <= 0 {
        Ok(g)
    } else {
        match spec_insert_prefix(g, file_idx, syms, names, i - 1) {
            Err(e) => Err(e),
            Ok(acc) => {
                let s = syms[i - 1];
                if spec_st_bind(s.st_info) == STB_GLOBAL && s.st_shndx != SHN_UNDEF {
                    if spec_globals_find(acc, names[i - 1], 0) is Some {
                        Err(LinkErrorV::DuplicateGlobal(names[i - 1]))
                    } else {
                        Ok(
                            acc.push(
                                GlobalDefV {
                                    name: names[i - 1],
                                    file_idx,
                                    sym_idx: (i - 1) as usize,
                                },
                            ),
                        )
                    }
                } else {
                    Ok(acc)
                }
            },
        }
    }
}

/// If the symbol walk has already failed at `i`, it stays failed at any
/// later `j` with the same error.
pub proof fn lemma_insert_prefix_err(
    g: Seq<GlobalDefV>,
    file_idx: usize,
    syms: Seq<Sym>,
    names: Seq<Seq<u8>>,
    i: int,
    j: int,
)
    requires
        0 <= i <= j,
        spec_insert_prefix(g, file_idx, syms, names, i) is Err,
    ensures
        spec_insert_prefix(g, file_idx, syms, names, j) == spec_insert_prefix(
            g,
            file_idx,
            syms,
            names,
            i,
        ),
    decreases j - i,
{
    if i < j {
        lemma_insert_prefix_err(g, file_idx, syms, names, i, j - 1);
    }
}

/// The table after installing one file's symbols, or the duplicate that
/// stopped it.
pub open spec fn spec_symtab_insert(
    tab: SymbolTableV,
    syms: Seq<Sym>,
    names: Seq<Seq<u8>>,
) -> Result<SymbolTableV, LinkErrorV> {
    let file_idx = tab.by_file.len() as usize;
    match spec_insert_prefix(tab.globals, file_idx, syms, names, syms.len() as int) {
        Err(e) => Err(e),
        Ok(g) => Ok(
            SymbolTableV {
                by_file: tab.by_file.push(FileSymsV { syms, names }),
                globals: g,
            },
        ),
    }
}

/// The symbol `sym_idx` of file `file_idx`, if both indices exist.
pub open spec fn spec_sym_get(tab: SymbolTableV, file_idx: usize, sym_idx: usize) -> Option<Sym> {
    if file_idx < tab.by_file.len() && sym_idx < tab.by_file[file_idx as int].syms.len() {
        Some(tab.by_file[file_idx as int].syms[sym_idx as int])
    } else {
        None
    }
}

/// The resolved name of symbol `sym_idx` of file `file_idx`, if it exists.
pub open spec fn spec_sym_name(tab: SymbolTableV, file_idx: usize, sym_idx: usize) -> Option<
    Seq<u8>,
> {
    if file_idx < tab.by_file.len() && sym_idx < tab.by_file[file_idx as int].names.len() {
        Some(tab.by_file[file_idx as int].names[sym_idx as int])
    } else {
        None
    }
}

// ------------------------------------------------------------------
// Code
// ------------------------------------------------------------------

impl SymbolTable {
    /// An empty index.
    pub fn new() -> (r: SymbolTable)
        ensures
            r@.by_file == Seq::<FileSymsV>::empty(),
            r@.globals == Seq::<GlobalDefV>::empty(),
    {
        let r = SymbolTable { by_file: Vec::new(), globals: Vec::new() };
        proof {
            assert(r@.by_file =~= Seq::<FileSymsV>::empty());
            assert(r@.globals =~= Seq::<GlobalDefV>::empty());
        }
        r
    }

    /// The first entry of the global map named `name`.
    pub fn find_global(&self, name: &Vec<u8>) -> (r: Option<(usize, usize)>)
        ensures
            match r {
                Some(p) => spec_globals_find(self@.globals, name@, 0) matches Some(d) && d.file_idx
                    == p.0 && d.sym_idx == p.1,
                None => spec_globals_find(self@.globals, name@, 0) is None,
            },
    {
        let n = self.globals.len();
        let mut i: usize = 0;
        while i < n
            invariant
                i <= n,
                n == self@.globals.len(),
                spec_globals_find(self@.globals, name@, 0) == spec_globals_find(
                    self@.globals,
                    name@,
                    i as int,
                ),
            decreases n - i,
        {
            if bytes_eq(&self.globals[i].name, name) {
                return Some((self.globals[i].file_idx, self.globals[i].sym_idx));
            }
            i += 1;
        }
        None
    }

    /// Install one file's symbol table and string-table-resolved names,
    /// walking the symbols for defined globals.
    ///
    /// On a duplicate definition the global map may hold the file's
    /// earlier symbols already; the pipeline discards the whole index.
    #[verifier::loop_isolation(false)]
    pub fn insert(&mut self, syms: Vec<Sym>, names: Vec<Vec<u8>>) -> (r: Result<(), LinkError>)
        requires
            syms@.len() == names@.len(),
        ensures
            match r {
                Ok(()) => {
                    &&& spec_symtab_insert(
                        old(self)@,
                        syms@,
                        Seq::new(names@.len(), |i: int| names@[i]@),
                    ) matches Ok(t)
                    &&& final(self)@ == t
                },
                Err(e) => spec_symtab_insert(
                    old(self)@,
                    syms@,
                    Seq::new(names@.len(), |i: int| names@[i]@),
                ) matches Err(ev) && ev == e@,
            },
    {
        let ghost names_v = Seq::new(names@.len(), |i: int| names@[i]@);
        let file_idx = self.by_file.len();
        let n = syms.len();
        let mut i: usize = 0;
        while i < n
            invariant
                i <= n,
                self.by_file@ == old(self).by_file@,
                spec_insert_prefix(old(self)@.globals, file_idx, syms@, names_v, i as int)
                    matches Ok(g) && g == self@.globals,
            decreases n - i,
        {
            let s = syms[i];
            if (s.st_info >> 4) == STB_GLOBAL && s.st_shndx != SHN_UNDEF {
                if self.find_global(&names[i]).is_some() {
                    proof {
                        assert(spec_insert_prefix(
                            old(self)@.globals,
                            file_idx,
                            syms@,
                            names_v,
                            i + 1,
                        ) matches Err(ev) && ev == LinkErrorV::DuplicateGlobal(names_v[i as int]));
                        lemma_insert_prefix_err(
                            old(self)@.globals,
                            file_idx,
                            syms@,
                            names_v,
                            i + 1,
                            n as int,
                        );
                    }
                    return Err(LinkError::DuplicateGlobal(clone_bytes(&names[i])));
                }
                let def = GlobalDef {
                    name: clone_bytes(&names[i]),
                    file_idx,
                    sym_idx: i,
                };
                self.globals.push(def);
                proof {
                    assert(self@.globals =~= spec_insert_prefix(
                        old(self)@.globals,
                        file_idx,
                        syms@,
                        names_v,
                        i as int,
                    )->Ok_0.push(GlobalDefV { name: names_v[i as int], file_idx, sym_idx: i }));
                }
            }
            i += 1;
        }
        self.by_file.push(FileSyms { syms, names });
        proof {
            assert(self@.by_file =~= old(self)@.by_file.push(
                FileSymsV {
                    syms: syms@,
                    names: names_v,
                },
            ));
        }
        Ok(())
    }

    /// The symbol `sym_idx` of file `file_idx`.
    pub fn get(&self, file_idx: usize, sym_idx: usize) -> (r: Option<Sym>)
        ensures
            r == spec_sym_get(self@, file_idx, sym_idx),
    {
        if file_idx < self.by_file.len() && sym_idx < self.by_file[file_idx].syms.len() {
            Some(self.by_file[file_idx].syms[sym_idx])
        } else {
            None
        }
    }

    /// An owned copy of the name of symbol `sym_idx` of file `file_idx`.
    pub fn get_name(&self, file_idx: usize, sym_idx: usize) -> (r: Option<Vec<u8>>)
        ensures
            match r {
                Some(nm) => spec_sym_name(self@, file_idx, sym_idx) matches Some(s) && s == nm@,
                None => spec_sym_name(self@, file_idx, sym_idx) is None,
            },
    {
        if file_idx < self.by_file.len() && sym_idx < self.by_file[file_idx].names.len() {
            Some(clone_bytes(&self.by_file[file_idx].names[sym_idx]))
        } else {
            None
        }
    }
}

} // verus!
