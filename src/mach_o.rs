//! The parts of a loaded Mach-O binary that dynamic linking reads.

use crate::symbol::str_eq;
use vstd::prelude::*;

verus! {

/// A section of indirect-symbol entries: the symbol stubs, or the
/// non-lazy symbol pointers.
pub struct Section {
    /// Guest address of the first entry.
    pub addr: u32,
    /// Size of the section in bytes.
    pub size: u32,
    /// Size of one entry in bytes.
    pub entry_size: u32,
    /// For each entry, the name of the undefined symbol it refers to, if any.
    pub indirect_undef_symbols: Vec<Option<String>>,
}

/// A loaded binary.
pub struct MachO {
    pub name: String,
    /// The symbol stub section, in either layout (`__symbol_stub4` with
    /// 12-byte entries or `__picsymbolstub4` with 16-byte entries).
    pub symbol_stubs: Option<Section>,
    /// The `__nl_symbol_ptr` section.
    pub non_lazy_symbol_ptrs: Option<Section>,
    /// Exported symbols: mangled name and guest address.
    pub exported_symbols: Vec<(String, u32)>,
    /// External relocations: address of the pointer to fill in, and the
    /// name of the symbol it should point to.
    pub external_relocations: Vec<(u32, String)>,
}

/// Whether `k` is the position of the first export named `name`.
pub open spec fn is_first_export(exports: Seq<(String, u32)>, name: Seq<char>, k: int) -> bool {
    &&& 0 <= k < exports.len()
    &&& exports[k].0@ == name
    &&& forall|i: int| 0 <= i < k ==> #[trigger] exports[i].0@ != name
}

/// The address of the first export named `name`.
pub open spec fn export_lookup(exports: Seq<(String, u32)>, name: Seq<char>) -> Option<u32> {
    if exists|k: int| is_first_export(exports, name, k) {
        Some(exports[choose|k: int| is_first_export(exports, name, k)].1)
    } else {
        None
    }
}

pub proof fn lemma_first_export_unique(exports: Seq<(String, u32)>, name: Seq<char>, k: int)
    requires
        is_first_export(exports, name, k),
    ensures
        export_lookup(exports, name) == Some(exports[k].1),
{
    let c = choose|c: int| is_first_export(exports, name, c);
    if c < k {
        assert(exports[c].0@ != name);
    } else if c > k {
        assert(exports[k].0@ != name);
    }
}

impl MachO {
    /// The guest address that this binary exports under `name`.
    pub fn lookup_export(&self, name: &str) -> (r: Option<u32>)
        ensures
            r == export_lookup(self.exported_symbols@, name@),
    {
        let n = self.exported_symbols.len();
        let mut i: usize = 0;
        while i < n
            invariant
                n == self.exported_symbols@.len(),
                i <= n,
                forall|k: int| 0 <= k < i ==> #[trigger] self.exported_symbols@[k].0@ != name@,
            decreases n - i,
        {
            if str_eq(self.exported_symbols[i].0.as_str(), name) {
                proof {
                    lemma_first_export_unique(self.exported_symbols@, name@, i as int);
                }
                return Some(self.exported_symbols[i].1);
            }
            i = i + 1;
        }
        proof {
            assert(!exists|k: int| is_first_export(self.exported_symbols@, name@, k));
        }
        None
    }
}

} // verus!
