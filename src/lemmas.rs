//! Facts about linking that hold across calls: what installation leaves in
//! a stub, what resolution does to the stub and the trap table, and how a
//! restored stub relates to the compiled one.

use crate::dyld::{
    a32_ret, a32_svc, a32_trap, lazy_installed_mem, lazy_installed_word, lazy_link_outcome,
    lazy_stub_instruction, linked_svc_handler, restore_stub, stub_addr, stub_cell_value, stub_count,
    stub_matches, stub_section_wf, stub_template, Dyld, DyldError, HostFunction,
};
use crate::mach_o::{MachO, Section};
use crate::mem::{word_at, GuestUSize, VAddr};
use vstd::prelude::*;

verus! {

proof fn lemma_entry_offset(s: Section, k: int, r: int)
    requires
        stub_section_wf(s),
        0 <= k < stub_count(s),
        0 <= r < s.entry_size,
    ensures
        s.addr <= stub_addr(s, k) + r < stub_addr(s, k + 1),
        stub_addr(s, k + 1) <= s.addr + s.size,
        stub_addr(s, k) + r <= u32::MAX,
        (stub_addr(s, k) + r - s.addr) % (s.entry_size as int) == r,
{
    let d = s.entry_size as int;
    vstd::arithmetic::div_mod::lemma_fundamental_div_mod_converse(k * d + r, d, k, r);
    vstd::arithmetic::div_mod::lemma_fundamental_div_mod(s.size as int, d);
    vstd::arithmetic::mul::lemma_mul_inequality(k + 1, stub_count(s), d);
    assert((k + 1) * d == k * d + d) by (nonlinear_arith);
    assert(k * d >= 0) by (nonlinear_arith)
        requires
            k >= 0,
            d > 0,
    ;
}

proof fn lemma_installed_words(m: Map<u32, u32>, s: Section, k: int, r: int)
    requires
        stub_section_wf(s),
        0 <= k < stub_count(s),
        0 <= r < s.entry_size,
    ensures
        lazy_installed_word(m, s, (stub_addr(s, k) + r) as u32) == match lazy_stub_instruction(
            s.entry_size,
            r,
        ) {
            Some(w) => w,
            None => word_at(m, (stub_addr(s, k) + r) as u32),
        },
{
    lemma_entry_offset(s, k, r);
    vstd::arithmetic::mul::lemma_mul_inequality(k + 1, stub_count(s), s.entry_size as int);
}

/// After lazy-link installation, every stub of a well-formed section starts
/// with a trap carrying the lazy-link code followed by a return, and in the
/// 16-byte layout the third instruction is the undefined instruction.
pub proof fn lemma_installed_stub_reads_back(m: Map<u32, u32>, s: Section, k: int)
    requires
        stub_section_wf(s),
        0 <= k < stub_count(s),
    ensures
        lazy_installed_word(m, s, stub_addr(s, k) as u32) == a32_svc(Dyld::SVC_LAZY_LINK),
        lazy_installed_word(m, s, (stub_addr(s, k) + 4) as u32) == a32_ret(),
        s.entry_size == 16 ==> lazy_installed_word(m, s, (stub_addr(s, k) + 8) as u32)
            == a32_trap(),
        lazy_installed_word(m, s, (stub_addr(s, k) + s.entry_size - 4) as u32) == word_at(
            m,
            (stub_addr(s, k) + s.entry_size - 4) as u32,
        ),
{
    lemma_installed_words(m, s, k, 0);
    lemma_installed_words(m, s, k, 4);
    lemma_installed_words(m, s, k, 8);
    lemma_installed_words(m, s, k, s.entry_size - 4);
}

/// A host resolution replaces the stub's lazy-link trap by a trap with the
/// code of the newly linked function, and that code dispatches to it: the
/// stub cannot trigger lazy linking again, so no second code is handed out
/// for it.
pub proof fn lemma_host_link_replaces_lazy_trap(
    bins: Seq<MachO>,
    lists: Seq<&[(&str, HostFunction)]>,
    pc: u32,
    linked: Seq<HostFunction>,
    linked2: Seq<HostFunction>,
    m: Map<u32, u32>,
    m2: Map<u32, u32>,
    inv: Seq<(VAddr, GuestUSize)>,
    inv2: Seq<(VAddr, GuestUSize)>,
    f: HostFunction,
)
    requires
        lazy_link_outcome(
            bins,
            lists,
            pc,
            linked,
            linked2,
            m,
            m2,
            inv,
            inv2,
            Ok::<Option<HostFunction>, DyldError>(Some(f)),
        ),
    ensures
        ({
            let code = (linked.len() + Dyld::SVC_LINKED_FUNCTIONS_BASE) as u32;
            &&& word_at(m2, pc) == a32_svc(code)
            &&& word_at(m2, pc) != a32_svc(Dyld::SVC_LAZY_LINK)
            &&& linked_svc_handler(linked2, code) == Some(f)
        }),
{
    let code = (linked.len() + Dyld::SVC_LINKED_FUNCTIONS_BASE) as u32;
    assert(2 <= code < 0x1000000);
    assert((code | 0xef000000u32) != (0u32 | 0xef000000u32)) by (bit_vector)
        requires
            2 <= code < 0x1000000u32,
    ;
}

/// Each host resolution appends exactly one function to the table of linked
/// host functions, under the next trap code after the ones already given.
pub proof fn lemma_host_link_appends(
    bins: Seq<MachO>,
    lists: Seq<&[(&str, HostFunction)]>,
    pc: u32,
    linked: Seq<HostFunction>,
    linked2: Seq<HostFunction>,
    m: Map<u32, u32>,
    m2: Map<u32, u32>,
    inv: Seq<(VAddr, GuestUSize)>,
    inv2: Seq<(VAddr, GuestUSize)>,
    f: HostFunction,
)
    requires
        lazy_link_outcome(
            bins,
            lists,
            pc,
            linked,
            linked2,
            m,
            m2,
            inv,
            inv2,
            Ok::<Option<HostFunction>, DyldError>(Some(f)),
        ),
    ensures
        linked2.len() == linked.len() + 1,
        linked2.subrange(0, linked.len() as int) == linked,
        linked2[linked.len() as int] == f,
        word_at(m2, pc) == a32_svc((Dyld::SVC_LINKED_FUNCTIONS_BASE + linked.len()) as u32),
{
    assert(linked2.subrange(0, linked.len() as int) =~= linked);
}

/// Restoring a stub that lazy-link installation rewrote gives back, word for
/// word, the stub as compiled, data cell included.
pub proof fn lemma_restore_round_trip(m: Map<u32, u32>, s: Section, k: int, a: u32)
    requires
        stub_section_wf(s),
        0 <= k < stub_count(s),
        stub_matches(m, stub_addr(s, k), s.entry_size),
        stub_addr(s, k) <= a < stub_addr(s, k) + s.entry_size,
    ensures
        word_at(restore_stub(lazy_installed_mem(m, s), stub_addr(s, k) as u32, s.entry_size), a)
            == word_at(m, a),
{
    let base = stub_addr(s, k);
    let r = a - base;
    lemma_installed_words(m, s, k, r);
    lemma_entry_offset(s, k, r);
    let t = stub_template(s.entry_size);
    if r == 0 {
        assert(word_at(m, (base + 4 * 0) as u32) == t[0]);
    } else if r == 4 {
        assert(word_at(m, (base + 4 * 1) as u32) == t[1]);
    } else if r == 8 && s.entry_size == 16 {
        assert(word_at(m, (base + 4 * 2) as u32) == t[2]);
    }
}

/// What resolution to a guest function at `target` writes into the data
/// cell of the stub at `stub`: the address itself in the plain layout, and
/// in the position-independent layout the offset that the stub adds to its
/// PC (which reads 8 bytes ahead) to reach `target`.
pub proof fn lemma_cell_value(stub: u32, target: u32)
    requires
        stub + 8 <= u32::MAX,
    ensures
        stub_cell_value(12, stub, target) == target,
        (stub_cell_value(16, stub, target) + stub + 8) % 0x1_0000_0000 == target as int,
        target >= stub + 8 ==> stub_cell_value(16, stub, target) == target - (stub + 8),
{
}

/// No handler answers a trap code below the dynamic base, nor one at or
/// above it that no linked host function was given.
pub proof fn lemma_unassigned_codes_have_no_handler(linked: Seq<HostFunction>, svc: u32)
    requires
        svc < Dyld::SVC_LINKED_FUNCTIONS_BASE || svc - Dyld::SVC_LINKED_FUNCTIONS_BASE >= linked.len(),
    ensures
        linked_svc_handler(linked, svc) is None,
{
}

} // verus!
