//! Dynamic linker.
//!
//! Guest binaries call functions of the system frameworks through symbol
//! stubs. Instead of loading the framework binaries, the linker rewrites
//! those stubs: a stub first traps into the lazy linker, which then either
//! points it at a host implementation (a supervisor call whose immediate
//! selects the function) or restores it so that it calls code exported by
//! another loaded guest binary.

use crate::abi::GuestFunction;
use crate::cpu::Cpu;
use crate::mach_o::{export_lookup, MachO, Section};
use crate::mem::{word_at, GuestUSize, Mem, VAddr};
use crate::symbol::{spec_strip_prefix, str_eq, strip_prefix};
use vstd::prelude::*;

verus! {

/// A host implementation of a framework function, identified by its slot in
/// the host's table of implementations.
#[derive(Clone, Copy, Debug, PartialEq, Eq, Structural)]
pub struct HostFunction {
    pub id: u32,
}

/// A list of functions exported by a host implementation of a framework:
/// mangled symbol name (for a C function, its name prefixed with an
/// underscore) and implementation.
pub type FunctionExports<'a> = &'a [(&'a str, HostFunction)];

/// Whether `(i, j)` is the first entry named `symbol` when the lists are
/// scanned in order, each list from its start.
pub open spec fn is_first_in_lists<T>(lists: Seq<&[(&str, T)]>, symbol: Seq<char>, i: int, j: int) -> bool {
    &&& 0 <= i < lists.len()
    &&& 0 <= j < lists[i]@.len()
    &&& lists[i]@[j].0@ == symbol
    &&& forall|k: int| 0 <= k < j ==> #[trigger] lists[i]@[k].0@ != symbol
    &&& forall|l: int, k: int|
        0 <= l < i && 0 <= k < lists[l]@.len() ==> #[trigger] lists[l]@[k].0@ != symbol
}

/// The entry that a lookup of `symbol` in `lists` finds: the first one of
/// that name, so that an earlier list wins over a later one.
pub open spec fn lists_lookup<T>(lists: Seq<&[(&str, T)]>, symbol: Seq<char>) -> Option<T> {
    if exists|i: int, j: int| is_first_in_lists(lists, symbol, i, j) {
        let (i, j) = choose|i: int, j: int| is_first_in_lists(lists, symbol, i, j);
        Some(lists[i]@[j].1)
    } else {
        None
    }
}

proof fn lemma_first_in_lists_unique<T>(lists: Seq<&[(&str, T)]>, symbol: Seq<char>, i: int, j: int)
    requires
        is_first_in_lists(lists, symbol, i, j),
    ensures
        lists_lookup(lists, symbol) == Some(lists[i]@[j].1),
{
    let (a, b) = choose|a: int, b: int| is_first_in_lists(lists, symbol, a, b);
    if a < i {
        assert(lists[a]@[b].0@ != symbol);
    } else if a > i {
        assert(lists[i]@[j].0@ != symbol);
    } else if b < j {
        assert(lists[i]@[b].0@ != symbol);
    } else if b > j {
        assert(lists[i]@[j].0@ != symbol);
    }
}

/// Look `symbol` up in lists of exports: the lists are scanned in order and
/// the first entry of that name answers.
pub fn search_lists<'a, T>(lists: &'a [&'a [(&'a str, T)]], symbol: &str) -> (r: Option<&'a T>)
    ensures
        match r {
            Some(f) => lists_lookup(lists@, symbol@) == Some(*f),
            None => lists_lookup(lists@, symbol@) is None,
        },
{
    let n = lists.len();
    let mut i: usize = 0;
    while i < n
        invariant
            n == lists@.len(),
            i <= n,
            forall|l: int, k: int|
                0 <= l < i && 0 <= k < lists@[l]@.len() ==> #[trigger] lists@[l]@[k].0@ != symbol@,
        decreases n - i,
    {
        let list: &'a [(&'a str, T)] = lists[i];
        let m = list.len();
        let mut j: usize = 0;
        while j < m
            invariant
                n == lists@.len(),
                i < n,
                list == lists@[i as int],
                m == list@.len(),
                j <= m,
                forall|k: int| 0 <= k < j ==> #[trigger] lists@[i as int]@[k].0@ != symbol@,
                forall|l: int, k: int|
                    0 <= l < i && 0 <= k < lists@[l]@.len() ==> #[trigger] lists@[l]@[k].0@
                        != symbol@,
            decreases m - j,
        {
            if str_eq(list[j].0, symbol) {
                proof {
                    lemma_first_in_lists_unique(lists@, symbol@, i as int, j as int);
                }
                return Some(&list[j].1);
            }
            j = j + 1;
        }
        i = i + 1;
    }
    proof {
        assert(!exists|a: int, b: int| is_first_in_lists(lists@, symbol@, a, b));
    }
    None
}

/// The A32 encoding of `SVC #imm`.
pub open spec fn a32_svc(imm: u32) -> u32 {
    imm | 0xef000000
}

/// The A32 encoding of `BX LR`.
pub open spec fn a32_ret() -> u32 {
    0xe12fff1e
}

/// The A32 encoding of the permanently undefined instruction `UDF #0xfdee`.
pub open spec fn a32_trap() -> u32 {
    0xe7ffdefe
}

fn encode_a32_svc(imm: u32) -> (r: u32)
    requires
        imm < 0x1000000,
    ensures
        r == a32_svc(imm),
{
    imm | 0xef000000
}

fn encode_a32_ret() -> (r: u32)
    ensures
        r == a32_ret(),
{
    0xe12fff1e
}

fn encode_a32_trap() -> (r: u32)
    ensures
        r == a32_trap(),
{
    0xe7ffdefe
}


/// The instructions of a symbol stub as the compiler emits them, before the
/// data cell: `ldr ip, [pc]; ldr pc, [ip]` for the 12-byte layout, and
/// `ldr ip, [pc, #4]; add ip, pc, ip; ldr pc, [ip]` for the 16-byte
/// position-independent layout.
pub open spec fn stub_template(entry_size: u32) -> Seq<u32> {
    if entry_size == 12 {
        seq![0xe59fc000u32, 0xe59cf000u32]
    } else {
        seq![0xe59fc004u32, 0xe08fc00cu32, 0xe59cf000u32]
    }
}

fn stub_template_instruction(entry_size: u32, j: u32) -> (r: u32)
    requires
        entry_size == 12 || entry_size == 16,
        j < stub_template(entry_size).len(),
    ensures
        r == stub_template(entry_size)[j as int],
{
    if entry_size == 12 {
        if j == 0 {
            0xe59fc000
        } else {
            0xe59cf000
        }
    } else {
        if j == 0 {
            0xe59fc004
        } else if j == 1 {
            0xe08fc00c
        } else {
            0xe59cf000
        }
    }
}

/// A stub section this linker understands: one of the two layouts, whole
/// entries, word-aligned, inside the address space, and a symbol slot for
/// every entry.
pub open spec fn stub_section_wf(s: Section) -> bool {
    &&& s.entry_size == 12 || s.entry_size == 16
    &&& s.addr % 4 == 0
    &&& s.size % s.entry_size == 0
    &&& s.addr + s.size <= u32::MAX
    &&& s.indirect_undef_symbols@.len() >= s.size / s.entry_size
}

pub open spec fn stub_count(s: Section) -> int {
    (s.size / s.entry_size) as int
}

/// Address of the stub with index `k`.
pub open spec fn stub_addr(s: Section, k: int) -> int {
    s.addr + k * s.entry_size
}

/// Whether the stub at `addr` holds the instructions of the template.
pub open spec fn stub_matches(m: Map<u32, u32>, addr: int, entry_size: u32) -> bool {
    forall|j: int|
        0 <= j < stub_template(entry_size).len() ==> #[trigger] word_at(m, (addr + 4 * j) as u32)
            == stub_template(entry_size)[j]
}

/// Whether stub `k` is the first one of the section that does not hold the
/// template.
pub open spec fn is_first_mismatch(m: Map<u32, u32>, s: Section, k: int) -> bool {
    &&& 0 <= k < stub_count(s)
    &&& !stub_matches(m, stub_addr(s, k), s.entry_size)
    &&& forall|i: int| 0 <= i < k ==> #[trigger] stub_matches(m, stub_addr(s, i), s.entry_size)
}

pub open spec fn all_stubs_match(m: Map<u32, u32>, s: Section) -> bool {
    forall|k: int| 0 <= k < stub_count(s) ==> #[trigger] stub_matches(m, stub_addr(s, k), s.entry_size)
}

/// The instruction that lazy-link installation puts at byte `offset` of a
/// stub, if any: a trap into the lazy linker, a return, and for the 16-byte
/// layout an undefined instruction in place of the address computation.
pub open spec fn lazy_stub_instruction(entry_size: u32, offset: int) -> Option<u32> {
    if offset == 0 {
        Some(a32_svc(Dyld::SVC_LAZY_LINK))
    } else if offset == 4 {
        Some(a32_ret())
    } else if offset == 8 && entry_size == 16 {
        Some(a32_trap())
    } else {
        None
    }
}

/// The word at `a` once the first `k` stubs of `s` are set up for lazy
/// linking in a memory whose words were `m`.
pub open spec fn lazy_installed_word_upto(m: Map<u32, u32>, s: Section, k: int, a: u32) -> u32 {
    if s.addr <= a < stub_addr(s, k) {
        match lazy_stub_instruction(s.entry_size, (a - s.addr) % (s.entry_size as int)) {
            Some(w) => w,
            None => word_at(m, a),
        }
    } else {
        word_at(m, a)
    }
}

/// The word at `a` once every stub of `s` is set up for lazy linking.
pub open spec fn lazy_installed_word(m: Map<u32, u32>, s: Section, a: u32) -> u32 {
    lazy_installed_word_upto(m, s, stub_count(s), a)
}

proof fn lemma_offset_in_entry(k: int, d: int, r: int)
    requires
        d > 0,
        0 <= r < d,
    ensures
        (k * d + r) % d == r,
        (k * d + r) / d == k,
{
    vstd::arithmetic::div_mod::lemma_fundamental_div_mod_converse(k * d + r, d, k, r);
}

proof fn lemma_stub_geometry(s: Section, k: int)
    requires
        stub_section_wf(s),
        0 <= k < stub_count(s),
    ensures
        stub_addr(s, k) + s.entry_size <= s.addr + s.size,
        stub_addr(s, k) % 4 == 0,
{
    let d = s.entry_size as int;
    vstd::arithmetic::div_mod::lemma_fundamental_div_mod(s.size as int, d);
    vstd::arithmetic::mul::lemma_mul_inequality(k + 1, stub_count(s), d);
    assert((k + 1) * d == k * d + d) by (nonlinear_arith);
    assert(k * d % 4 == 0) by (nonlinear_arith)
        requires
            d == 12 || d == 16,
    ;
}

/// Whether the stub section of `bin` contains the address `pc`.
pub open spec fn bin_stub_contains(bin: MachO, pc: u32) -> bool {
    match bin.symbol_stubs {
        Some(s) => s.addr <= pc < s.addr + s.size,
        None => false,
    }
}

/// Whether binary `i` is the first whose stub section contains `pc`.
pub open spec fn is_stub_bin(bins: Seq<MachO>, pc: u32, i: int) -> bool {
    &&& 0 <= i < bins.len()
    &&& bin_stub_contains(bins[i], pc)
    &&& forall|k: int| 0 <= k < i ==> !#[trigger] bin_stub_contains(bins[k], pc)
}

/// The binary whose stubs a trap at `pc` belongs to.
pub open spec fn stub_bin_index(bins: Seq<MachO>, pc: u32) -> Option<int> {
    if exists|i: int| is_stub_bin(bins, pc, i) {
        Some(choose|i: int| is_stub_bin(bins, pc, i))
    } else {
        None
    }
}

proof fn lemma_stub_bin_unique(bins: Seq<MachO>, pc: u32, i: int)
    requires
        is_stub_bin(bins, pc, i),
    ensures
        stub_bin_index(bins, pc) == Some(i),
{
    let c = choose|c: int| is_stub_bin(bins, pc, c);
    if c < i {
        assert(!bin_stub_contains(bins[c], pc));
    } else if c > i {
        assert(!bin_stub_contains(bins[i], pc));
    }
}

fn find_stub_bin(bins: &[MachO], pc: u32) -> (r: Option<usize>)
    ensures
        match r {
            Some(i) => stub_bin_index(bins@, pc) == Some(i as int),
            None => stub_bin_index(bins@, pc) is None,
        },
{
    let n = bins.len();
    let mut i: usize = 0;
    while i < n
        invariant
            n == bins@.len(),
            i <= n,
            forall|k: int| 0 <= k < i ==> !#[trigger] bin_stub_contains(bins@[k], pc),
        decreases n - i,
    {
        if let Some(s) = &bins[i].symbol_stubs {
            if s.addr <= pc && pc - s.addr < s.size {
                proof {
                    lemma_stub_bin_unique(bins@, pc, i as int);
                }
                return Some(i);
            }
        }
        i = i + 1;
    }
    None
}

/// Whether binary `j` is the first, other than binary `skip`, that exports
/// `name`.
pub open spec fn is_first_provider(bins: Seq<MachO>, skip: int, name: Seq<char>, j: int) -> bool {
    &&& 0 <= j < bins.len()
    &&& j != skip
    &&& export_lookup(bins[j].exported_symbols@, name) is Some
    &&& forall|k: int|
        0 <= k < j && k != skip ==> #[trigger] export_lookup(bins[k].exported_symbols@, name) is None
}

/// The address under which a binary other than binary `skip` exports
/// `name`, the binaries being searched in load order.
pub open spec fn guest_export_lookup(bins: Seq<MachO>, skip: int, name: Seq<char>) -> Option<u32> {
    if exists|j: int| is_first_provider(bins, skip, name, j) {
        export_lookup(
            bins[choose|j: int| is_first_provider(bins, skip, name, j)].exported_symbols@,
            name,
        )
    } else {
        None
    }
}

proof fn lemma_first_provider_unique(bins: Seq<MachO>, skip: int, name: Seq<char>, j: int)
    requires
        is_first_provider(bins, skip, name, j),
    ensures
        guest_export_lookup(bins, skip, name) == export_lookup(bins[j].exported_symbols@, name),
{
    let c = choose|c: int| is_first_provider(bins, skip, name, c);
    if c < j {
        assert(export_lookup(bins[c].exported_symbols@, name) is None);
    } else if c > j {
        assert(export_lookup(bins[j].exported_symbols@, name) is None);
    }
}

fn find_guest_export(bins: &[MachO], skip: usize, name: &str) -> (r: Option<u32>)
    ensures
        r == guest_export_lookup(bins@, skip as int, name@),
{
    let n = bins.len();
    let mut j: usize = 0;
    while j < n
        invariant
            n == bins@.len(),
            j <= n,
            forall|k: int|
                0 <= k < j && k != skip ==> #[trigger] export_lookup(bins@[k].exported_symbols@, name@)
                    is None,
        decreases n - j,
    {
        if j != skip {
            let found = bins[j].lookup_export(name);
            if found.is_some() {
                proof {
                    lemma_first_provider_unique(bins@, skip as int, name@, j as int);
                }
                return found;
            }
        }
        j = j + 1;
    }
    None
}

/// The stub at `addr` with its compiled instructions written back.
pub open spec fn restore_stub(m: Map<u32, u32>, addr: u32, entry_size: u32) -> Map<u32, u32> {
    let t = stub_template(entry_size);
    let m2 = m.insert(addr, t[0]).insert((addr + 4) as u32, t[1]);
    if entry_size == 16 {
        m2.insert((addr + 8) as u32, t[2])
    } else {
        m2
    }
}

/// Address of the data cell that follows the instructions of the stub at
/// `addr`.
pub open spec fn stub_cell_addr(addr: u32, entry_size: u32) -> u32 {
    (addr + entry_size - 4) as u32
}

/// `target - (stub + 8)`, modulo 2^32: what the position-independent stub
/// at `stub` must find in its cell to reach `target`, the PC reading 8 bytes
/// ahead.
pub open spec fn pic_offset(target: u32, stub: u32) -> u32 {
    if target >= stub + 8 {
        (target - (stub + 8)) as u32
    } else {
        (target + 0x1_0000_0000 - (stub + 8)) as u32
    }
}

/// The value that links the stub at `stub` to the guest function at
/// `target`: the address itself for the plain layout, an offset for the
/// position-independent one.
pub open spec fn stub_cell_value(entry_size: u32, stub: u32, target: u32) -> u32 {
    if entry_size == 12 {
        target
    } else {
        pic_offset(target, stub)
    }
}

/// What a lazy-link trap at `pc` does: the result `r`, and how the table of
/// linked host functions, the memory and the record of stale code ranges go
/// from their old values to their new ones.
pub open spec fn lazy_link_outcome(
    bins: Seq<MachO>,
    lists: Seq<&[(&str, HostFunction)]>,
    pc: u32,
    linked: Seq<HostFunction>,
    linked2: Seq<HostFunction>,
    m: Map<u32, u32>,
    m2: Map<u32, u32>,
    inv: Seq<(VAddr, GuestUSize)>,
    inv2: Seq<(VAddr, GuestUSize)>,
    r: Result<Option<HostFunction>, DyldError>,
) -> bool {
    let unchanged = linked2 == linked && m2 == m && inv2 == inv;
    match stub_bin_index(bins, pc) {
        None => r == Err::<Option<HostFunction>, DyldError>(DyldError::NoStubAt { pc }) && unchanged,
        Some(i) => match bins[i].symbol_stubs {
            None => false,
            Some(s) => if !stub_section_wf(s) {
                r == Err::<Option<HostFunction>, DyldError>(DyldError::MalformedSection { addr: s.addr })
                    && unchanged
            } else if (pc - s.addr) % (s.entry_size as int) != 0 {
                r == Err::<Option<HostFunction>, DyldError>(DyldError::MisalignedStub { pc })
                    && unchanged
            } else {
                match s.indirect_undef_symbols@[(pc - s.addr) / (s.entry_size as int)] {
                    None => r == Err::<Option<HostFunction>, DyldError>(
                        DyldError::MissingSymbolName { pc },
                    ) && unchanged,
                    Some(name) => match lists_lookup(lists, name@) {
                        Some(f) => if word_at(m, (pc + 4) as u32) != a32_ret() {
                            r == Err::<Option<HostFunction>, DyldError>(DyldError::StubNotLazy { pc })
                                && unchanged
                        } else if linked.len() + Dyld::SVC_LINKED_FUNCTIONS_BASE >= Dyld::SVC_LIMIT {
                            r == Err::<Option<HostFunction>, DyldError>(
                                DyldError::TooManyHostFunctions,
                            ) && unchanged
                        } else {
                            &&& r == Ok::<Option<HostFunction>, DyldError>(Some(f))
                            &&& linked2 == linked.push(f)
                            &&& m2 == m.insert(
                                pc,
                                a32_svc((linked.len() + Dyld::SVC_LINKED_FUNCTIONS_BASE) as u32),
                            )
                            &&& inv2 == inv.push((pc, 4))
                        },
                        None => match guest_export_lookup(bins, i, name@) {
                            Some(target) => {
                                &&& r == Ok::<Option<HostFunction>, DyldError>(None)
                                &&& linked2 == linked
                                &&& m2 == restore_stub(m, pc, s.entry_size).insert(
                                    stub_cell_addr(pc, s.entry_size),
                                    stub_cell_value(s.entry_size, pc, target),
                                )
                                &&& inv2 == inv.push((pc, (s.entry_size - 4) as u32))
                            },
                            None => unchanged && match r {
                                Err(DyldError::UnimplementedFunction { symbol }) => symbol@ == name@,
                                _ => false,
                            },
                        },
                    },
                }
            },
        },
    }
}

proof fn lemma_stub_index(s: Section, pc: u32)
    requires
        stub_section_wf(s),
        s.addr <= pc < s.addr + s.size,
        (pc - s.addr) % (s.entry_size as int) == 0,
    ensures
        0 <= (pc - s.addr) / (s.entry_size as int) < stub_count(s),
        stub_addr(s, (pc - s.addr) / (s.entry_size as int)) == pc,
        pc + s.entry_size <= s.addr + s.size,
        pc % 4 == 0,
{
    let d = s.entry_size as int;
    let x = pc - s.addr;
    let idx = x / d;
    vstd::arithmetic::div_mod::lemma_fundamental_div_mod(x, d);
    vstd::arithmetic::div_mod::lemma_fundamental_div_mod(s.size as int, d);
    assert(idx >= 0) by (nonlinear_arith)
        requires
            x >= 0,
            d > 0,
            idx == x / d,
    ;
    assert(idx < stub_count(s)) by (nonlinear_arith)
        requires
            x == d * idx,
            x < s.size,
            s.size == d * stub_count(s),
            d > 0,
    ;
    assert(stub_addr(s, idx) == pc) by (nonlinear_arith)
        requires
            x == d * idx,
            stub_addr(s, idx) == s.addr + idx * d,
            x == pc - s.addr,
    ;
    lemma_stub_geometry(s, idx);
}

/// The memory `m` with every stub of `s` set up for lazy linking.
pub open spec fn lazy_installed_mem(m: Map<u32, u32>, s: Section) -> Map<u32, u32> {
    Map::new(|a: u32| true, |a: u32| lazy_installed_word(m, s, a))
}

/// The memory `m` once the stubs of the first `n` binaries are set up for
/// lazy linking, in load order.
pub open spec fn initial_lazy_mem(m: Map<u32, u32>, bins: Seq<MachO>, n: int) -> Map<u32, u32>
    decreases n,
{
    if n <= 0 {
        m
    } else {
        let prev = initial_lazy_mem(m, bins, n - 1);
        match bins[n - 1].symbol_stubs {
            Some(s) => lazy_installed_mem(prev, s),
            None => prev,
        }
    }
}

proof fn lemma_stub_matches_same_words(m1: Map<u32, u32>, m2: Map<u32, u32>, addr: int, es: u32)
    requires
        forall|a: u32| #[trigger] word_at(m1, a) == word_at(m2, a),
        stub_matches(m1, addr, es),
    ensures
        stub_matches(m2, addr, es),
{
    assert forall|j: int| 0 <= j < stub_template(es).len() implies #[trigger] word_at(
        m2,
        (addr + 4 * j) as u32,
    ) == stub_template(es)[j] by {
        assert(word_at(m1, (addr + 4 * j) as u32) == stub_template(es)[j]);
    }
}

proof fn lemma_all_stubs_match_same_words(m1: Map<u32, u32>, m2: Map<u32, u32>, s: Section)
    requires
        forall|a: u32| #[trigger] word_at(m1, a) == word_at(m2, a),
    ensures
        all_stubs_match(m1, s) == all_stubs_match(m2, s),
{
    if all_stubs_match(m1, s) {
        assert forall|k: int| 0 <= k < stub_count(s) implies #[trigger] stub_matches(
            m2,
            stub_addr(s, k),
            s.entry_size,
        ) by {
            lemma_stub_matches_same_words(m1, m2, stub_addr(s, k), s.entry_size);
        }
    }
    if all_stubs_match(m2, s) {
        assert forall|k: int| 0 <= k < stub_count(s) implies #[trigger] stub_matches(
            m1,
            stub_addr(s, k),
            s.entry_size,
        ) by {
            lemma_stub_matches_same_words(m2, m1, stub_addr(s, k), s.entry_size);
        }
    }
}

/// Whether initial linking of `bin` succeeds when memory is `m`: its stubs
/// are well-formed and unmodified, and its non-lazy pointers well-formed.
pub open spec fn bin_linking_ok(m: Map<u32, u32>, bin: MachO) -> bool {
    &&& match bin.symbol_stubs {
        Some(s) => stub_section_wf(s) && all_stubs_match(m, s),
        None => true,
    }
    &&& non_lazy_linking_ok(bin)
}

/// Whether initial linking succeeds for the first `n` binaries, starting
/// from memory `m`.
pub open spec fn initial_linking_ok(m: Map<u32, u32>, bins: Seq<MachO>, n: int) -> bool {
    forall|k: int| 0 <= k < n ==> #[trigger] bin_linking_ok(initial_lazy_mem(m, bins, k), bins[k])
}

/// The memory `m` with the return-to-host routine written at `addr`: a trap
/// to the host, then an undefined instruction in case execution goes on.
pub open spec fn trampoline_mem(m: Map<u32, u32>, addr: u32) -> Map<u32, u32> {
    m.insert(addr, a32_svc(Dyld::SVC_RETURN_TO_HOST)).insert((addr + 4) as u32, a32_trap())
}

/// A pointer that non-lazy linking asks the object runtime to fill in: the
/// class (or metaclass) named `class_name` is to be written at `target`.
#[derive(Debug, PartialEq, Eq)]
pub struct ClassLink {
    pub target: u32,
    pub class_name: String,
    pub is_metaclass: bool,
}

impl ClassLink {
    pub open spec fn spec_view(&self) -> (u32, Seq<char>, bool) {
        (self.target, self.class_name@, self.is_metaclass)
    }
}

/// The outcome of non-lazy linking for one binary: the class pointers for
/// the object runtime to fill in, and the references that are left
/// unresolved, each one to be reported and skipped.
pub struct NonLazyLinks {
    pub class_links: Vec<ClassLink>,
    /// External relocations of any other kind: target address and symbol.
    pub unhandled_relocations: Vec<(u32, String)>,
    /// Non-lazy symbol pointers bound to a symbol: address and symbol.
    pub unhandled_pointers: Vec<(u32, String)>,
}

pub open spec fn named_view(e: (u32, String)) -> (u32, Seq<char>) {
    (e.0, e.1@)
}

/// What an external relocation of the symbol `name` at `addr` asks of the
/// object runtime, if it names a class or a metaclass.
pub open spec fn relocation_class_link(addr: u32, name: Seq<char>) -> Option<(u32, Seq<char>, bool)> {
    match spec_strip_prefix(name, "_OBJC_CLASS_$_"@) {
        Some(class_name) => Some((addr, class_name, false)),
        None => match spec_strip_prefix(name, "_OBJC_METACLASS_$_"@) {
            Some(class_name) => Some((addr, class_name, true)),
            None => None,
        },
    }
}

/// The class links that `relocs` ask for, in order.
pub open spec fn class_links_of(relocs: Seq<(u32, String)>) -> Seq<(u32, Seq<char>, bool)>
    decreases relocs.len(),
{
    if relocs.len() == 0 {
        Seq::empty()
    } else {
        let prev = class_links_of(relocs.drop_last());
        match relocation_class_link(relocs.last().0, relocs.last().1@) {
            Some(l) => prev.push(l),
            None => prev,
        }
    }
}

/// The relocations of `relocs` that name no class, in order.
pub open spec fn unhandled_relocations_of(relocs: Seq<(u32, String)>) -> Seq<(u32, Seq<char>)>
    decreases relocs.len(),
{
    if relocs.len() == 0 {
        Seq::empty()
    } else {
        let prev = unhandled_relocations_of(relocs.drop_last());
        match relocation_class_link(relocs.last().0, relocs.last().1@) {
            Some(_) => prev,
            None => prev.push(named_view(relocs.last())),
        }
    }
}

/// A non-lazy symbol pointer section this linker understands: word-sized
/// entries inside the address space, with a symbol slot for each.
pub open spec fn pointer_section_wf(s: Section) -> bool {
    &&& s.entry_size == 4
    &&& s.size % 4 == 0
    &&& s.addr + s.size <= u32::MAX
    &&& s.indirect_undef_symbols@.len() >= s.size / 4
}

/// The first `k` pointers of `s` that are bound to a symbol: address and
/// symbol, in order.
pub open spec fn bound_pointers_upto(s: Section, k: int) -> Seq<(u32, Seq<char>)>
    decreases k,
{
    if k <= 0 {
        Seq::empty()
    } else {
        let prev = bound_pointers_upto(s, k - 1);
        match s.indirect_undef_symbols@[k - 1] {
            Some(name) => prev.push(((s.addr + 4 * (k - 1)) as u32, name@)),
            None => prev,
        }
    }
}

/// Whether non-lazy linking of `bin` succeeds.
pub open spec fn non_lazy_linking_ok(bin: MachO) -> bool {
    match bin.non_lazy_symbol_ptrs {
        Some(s) => pointer_section_wf(s),
        None => true,
    }
}

/// Whether `links` is what non-lazy linking of `bin` yields.
pub open spec fn non_lazy_links_of(bin: MachO, links: NonLazyLinks) -> bool {
    &&& links.class_links@.map_values(|l: ClassLink| l.spec_view()) == class_links_of(
        bin.external_relocations@,
    )
    &&& links.unhandled_relocations@.map_values(|e: (u32, String)| named_view(e))
        == unhandled_relocations_of(bin.external_relocations@)
    &&& links.unhandled_pointers@.map_values(|e: (u32, String)| named_view(e)) == match bin.non_lazy_symbol_ptrs {
        Some(s) => bound_pointers_upto(s, (s.size / 4) as int),
        None => Seq::empty(),
    }
}

fn relocation_class_name(name: &str) -> (r: Option<(String, bool)>)
    ensures
        match r {
            Some((class_name, is_metaclass)) => relocation_class_link(0, name@) == Some(
                (0u32, class_name@, is_metaclass),
            ),
            None => relocation_class_link(0, name@) is None,
        },
{
    if let Some(class_name) = strip_prefix(name, "_OBJC_CLASS_$_") {
        Some((class_name.to_owned(), false))
    } else if let Some(class_name) = strip_prefix(name, "_OBJC_METACLASS_$_") {
        Some((class_name.to_owned(), true))
    } else {
        None
    }
}

/// The host function that trap code `svc` calls, given the table of
/// linked host functions: none for the two reserved codes, nor for a code
/// past the end of the table.
pub open spec fn linked_svc_handler(linked: Seq<HostFunction>, svc: u32) -> Option<HostFunction> {
    if svc >= Dyld::SVC_LINKED_FUNCTIONS_BASE && svc - Dyld::SVC_LINKED_FUNCTIONS_BASE < linked.len() {
        Some(linked[svc - Dyld::SVC_LINKED_FUNCTIONS_BASE])
    } else {
        None
    }
}

/// Why linking failed. Each of these is fatal: the binary is not in the form
/// this linker understands, guest code did something that the trap protocol
/// does not allow, or it called a function that nothing implements.
#[derive(Debug, PartialEq, Eq)]
pub enum DyldError {
    /// Initial linking was already done.
    AlreadyInitialized,
    /// No guest memory was left for the return-to-host routine.
    OutOfMemory,
    /// The stub or pointer section at `addr` does not have a layout this
    /// linker understands.
    MalformedSection { addr: u32 },
    /// The stub at `addr` does not hold the expected instructions.
    StubMismatch { addr: u32 },
    /// A lazy-link trap at `pc`, which lies in no stub section.
    NoStubAt { pc: u32 },
    /// A lazy-link trap at `pc`, which is not the start of a stub.
    MisalignedStub { pc: u32 },
    /// The stub at `pc` is bound to no symbol.
    MissingSymbolName { pc: u32 },
    /// The stub at `pc` no longer returns after its trap.
    StubNotLazy { pc: u32 },
    /// Every trap code that a host function could get is taken.
    TooManyHostFunctions,
    /// A trap with a code that names no handler.
    UnexpectedSvc { svc: u32, pc: u32 },
    /// Guest code called a function that neither the host nor another
    /// loaded binary provides.
    UnimplementedFunction { symbol: String },
}

/// The state of dynamic linking for the lifetime of the emulated process.
pub struct Dyld {
    linked_host_functions: Vec<HostFunction>,
    return_to_host_routine: Option<GuestFunction>,
}

impl Dyld {
    /// We reserve this SVC ID for invoking the lazy linker.
    pub const SVC_LAZY_LINK: u32 = 0;

    /// We reserve this SVC ID for the special return-to-host routine.
    pub const SVC_RETURN_TO_HOST: u32 = 1;

    /// The range of SVC IDs `SVC_LINKED_FUNCTIONS_BASE..` is used to reference
    /// linked host functions: entry `i` of the table has ID
    /// `SVC_LINKED_FUNCTIONS_BASE + i`.
    pub const SVC_LINKED_FUNCTIONS_BASE: u32 = 2;

    /// One past the largest immediate of an A32 SVC instruction.
    pub const SVC_LIMIT: u32 = 0x1000000;

    /// The host functions linked so far, in the order their trap codes were
    /// handed out.
    pub closed spec fn spec_linked(&self) -> Seq<HostFunction> {
        self.linked_host_functions@
    }

    pub closed spec fn spec_return_to_host_routine(&self) -> Option<GuestFunction> {
        self.return_to_host_routine
    }

    pub fn new() -> (r: Dyld)
        ensures
            r.spec_linked() == Seq::<HostFunction>::empty(),
            r.spec_return_to_host_routine() is None,
    {
        Dyld { linked_host_functions: Vec::new(), return_to_host_routine: None }
    }

    /// The guest routine that hands control back to the host.
    pub fn return_to_host_routine(&self) -> (r: GuestFunction)
        requires
            self.spec_return_to_host_routine() is Some,
        ensures
            Some(r) == self.spec_return_to_host_routine(),
    {
        self.return_to_host_routine.unwrap()
    }

    /// The host functions linked so far; entry `i` is called by the trap code
    /// `SVC_LINKED_FUNCTIONS_BASE + i`.
    pub fn linked_host_functions(&self) -> (r: &[HostFunction])
        ensures
            r@ == self.spec_linked(),
    {
        self.linked_host_functions.as_slice()
    }

    /// Set up lazy-linking stubs for a loaded binary.
    ///
    /// The stubs that the compiler left in the binary load the address of
    /// the called function from a pointer slot and jump there. Each one is
    /// checked against its template and then rewritten to trap into the
    /// lazy linker and return. The data cell after the instructions is kept.
    /// Memory is only changed when every stub is as expected.
    pub fn setup_lazy_linking(&self, bin: &MachO, mem: &mut Mem) -> (r: Result<(), DyldError>)
        ensures
            final(mem).spec_heap_next() == old(mem).spec_heap_next(),
            final(mem).spec_heap_end() == old(mem).spec_heap_end(),
            match bin.symbol_stubs {
                None => r == Ok::<(), DyldError>(()) && final(mem)@ == old(mem)@,
                Some(s) => if !stub_section_wf(s) {
                    r == Err::<(), DyldError>(DyldError::MalformedSection { addr: s.addr })
                        && final(mem)@ == old(mem)@
                } else if !all_stubs_match(old(mem)@, s) {
                    final(mem)@ == old(mem)@ && exists|k: int|
                        #[trigger] is_first_mismatch(old(mem)@, s, k) && r == Err::<(), DyldError>(
                            DyldError::StubMismatch { addr: stub_addr(s, k) as u32 },
                        )
                } else {
                    r == Ok::<(), DyldError>(()) && forall|a: u32|
                        #[trigger] final(mem).word(a) == lazy_installed_word(old(mem)@, s, a)
                },
            },
    {
        let s = match &bin.symbol_stubs {
            None => return Ok(()),
            Some(s) => s,
        };
        let entry_size = s.entry_size;
        if !(entry_size == 12 || entry_size == 16) || s.addr % 4 != 0 || s.size % entry_size != 0
            || s.size > u32::MAX - s.addr || s.indirect_undef_symbols.len() < (s.size
            / entry_size) as usize {
            return Err(DyldError::MalformedSection { addr: s.addr });
        }
        let count = s.size / entry_size;
        let n: u32 = if entry_size == 12 {
            2
        } else {
            3
        };
        // Check every stub before changing any.
        let mut k: u32 = 0;
        while k < count
            invariant
                stub_section_wf(*s),
                entry_size == s.entry_size,
                count == stub_count(*s),
                n == stub_template(entry_size).len(),
                k <= count,
                mem@ == old(mem)@,
                mem.spec_heap_next() == old(mem).spec_heap_next(),
                mem.spec_heap_end() == old(mem).spec_heap_end(),
                bin.symbol_stubs == Some(*s),
                forall|i: int| 0 <= i < k ==> #[trigger] stub_matches(mem@, stub_addr(*s, i), entry_size),
            decreases count - k,
        {
            proof {
                lemma_stub_geometry(*s, k as int);
            }
            let base = s.addr + k * entry_size;
            let mut j: u32 = 0;
            while j < n
                invariant
                    stub_section_wf(*s),
                    entry_size == s.entry_size,
                    n == stub_template(entry_size).len(),
                    base == stub_addr(*s, k as int),
                    base + entry_size <= s.addr + s.size,
                    base % 4 == 0,
                    j <= n,
                    count == stub_count(*s),
                    k < count,
                    mem@ == old(mem)@,
                    mem.spec_heap_next() == old(mem).spec_heap_next(),
                    mem.spec_heap_end() == old(mem).spec_heap_end(),
                    bin.symbol_stubs == Some(*s),
                    forall|i: int|
                        0 <= i < k ==> #[trigger] stub_matches(mem@, stub_addr(*s, i), entry_size),
                    forall|i: int|
                        0 <= i < j ==> #[trigger] word_at(mem@, (base + 4 * i) as u32)
                            == stub_template(entry_size)[i],
                decreases n - j,
            {
                if mem.read(base + 4 * j) != stub_template_instruction(entry_size, j) {
                    proof {
                        assert(word_at(mem@, (stub_addr(*s, k as int) + 4 * j) as u32)
                            != stub_template(entry_size)[j as int]);
                        assert(is_first_mismatch(mem@, *s, k as int));
                        assert(!all_stubs_match(mem@, *s));
                        assert(stub_addr(*s, k as int) as u32 == base);
                    }
                    return Err(DyldError::StubMismatch { addr: base });
                }
                j = j + 1;
            }
            k = k + 1;
        }
        let ghost m0 = mem@;
        let mut k: u32 = 0;
        while k < count
            invariant
                stub_section_wf(*s),
                entry_size == s.entry_size,
                count == stub_count(*s),
                k <= count,
                mem.spec_heap_next() == old(mem).spec_heap_next(),
                mem.spec_heap_end() == old(mem).spec_heap_end(),
                m0 == old(mem)@,
                forall|a: u32| #[trigger]
                    word_at(mem@, a) == lazy_installed_word_upto(m0, *s, k as int, a),
            decreases count - k,
        {
            proof {
                lemma_stub_geometry(*s, k as int);
            }
            let base = s.addr + k * entry_size;
            let ghost prev = mem@;
            assert(forall|a: u32| #[trigger]
                word_at(prev, a) == lazy_installed_word_upto(m0, *s, k as int, a));
            mem.write(base, encode_a32_svc(Self::SVC_LAZY_LINK));
            // For convenience, make the stub return once the SVC is done
            // (Otherwise we'd have to manually update the PC)
            mem.write(base + 4, encode_a32_ret());
            if entry_size == 16 {
                // This is preceded by a return instruction, so if we do execute
                // it, something has gone wrong.
                mem.write(base + 8, encode_a32_trap());
            }
            // Leave the data cell intact: it locates the pointer slot.
            proof {
                assert(s.addr + (k + 1) * entry_size == base + entry_size) by (nonlinear_arith)
                    requires
                        base == s.addr + k * entry_size,
                ;
                assert forall|a: u32| #[trigger]
                    word_at(mem@, a) == lazy_installed_word_upto(m0, *s, k + 1, a) by {
                    assert(word_at(prev, a) == lazy_installed_word_upto(m0, *s, k as int, a));
                    if base <= a < base + entry_size {
                        lemma_offset_in_entry(k as int, entry_size as int, a - base);
                        assert(a - s.addr == k * entry_size + (a - base));
                    } else {
                        assert(word_at(mem@, a) == word_at(prev, a));
                    }
                }
            }
            k = k + 1;
        }
        Ok(())
    }

    /// Resolve the stub whose lazy-link trap fired at `svc_pc`.
    ///
    /// The stub's symbol is looked up among the host functions first: the
    /// function gets the next trap code, the stub's trap is rewritten to that
    /// code, and the function is returned so that it can be called at once.
    /// Otherwise the symbol is looked up among the exports of the other
    /// loaded binaries: the stub's compiled instructions are restored, its
    /// data cell is pointed at the export, and `None` tells the caller to
    /// resume guest execution at `svc_pc`. A symbol that neither provides is
    /// an unimplemented function.
    #[verifier::rlimit(40)]
    fn do_lazy_link(
        &mut self,
        bins: &[MachO],
        mem: &mut Mem,
        cpu: &mut Cpu,
        svc_pc: u32,
        host_functions: &[FunctionExports],
    ) -> (r: Result<Option<HostFunction>, DyldError>)
        ensures
            lazy_link_outcome(
                bins@,
                host_functions@,
                svc_pc,
                old(self).spec_linked(),
                final(self).spec_linked(),
                old(mem)@,
                final(mem)@,
                old(cpu).spec_invalidated(),
                final(cpu).spec_invalidated(),
                r,
            ),
            final(self).spec_return_to_host_routine() == old(self).spec_return_to_host_routine(),
            final(mem).spec_heap_next() == old(mem).spec_heap_next(),
            final(mem).spec_heap_end() == old(mem).spec_heap_end(),
            final(cpu).spec_regs() == old(cpu).spec_regs(),
            final(cpu).spec_cpsr() == old(cpu).spec_cpsr(),
    {
        let i = match find_stub_bin(bins, svc_pc) {
            None => return Err(DyldError::NoStubAt { pc: svc_pc }),
            Some(i) => i,
        };
        proof {
            lemma_stub_bin_unique(bins@, svc_pc, i as int);
        }
        let stubs = match &bins[i].symbol_stubs {
            Some(s) => s,
            None => return Err(DyldError::NoStubAt { pc: svc_pc }),
        };
        let entry_size = stubs.entry_size;
        if !(entry_size == 12 || entry_size == 16) || stubs.addr % 4 != 0 || stubs.size % entry_size
            != 0 || stubs.size > u32::MAX - stubs.addr || stubs.indirect_undef_symbols.len() < (
        stubs.size / entry_size) as usize {
            return Err(DyldError::MalformedSection { addr: stubs.addr });
        }
        let offset = svc_pc - stubs.addr;
        if offset % entry_size != 0 {
            return Err(DyldError::MisalignedStub { pc: svc_pc });
        }
        proof {
            lemma_stub_index(*stubs, svc_pc);
        }
        let idx = (offset / entry_size) as usize;
        let symbol: &str = match &stubs.indirect_undef_symbols[idx] {
            None => return Err(DyldError::MissingSymbolName { pc: svc_pc }),
            Some(name) => name.as_str(),
        };

        if let Some(f) = search_lists(host_functions, symbol) {
            let f: HostFunction = *f;
            if mem.read(svc_pc + 4) != encode_a32_ret() {
                return Err(DyldError::StubNotLazy { pc: svc_pc });
            }
            // Allocate an SVC ID for this host function
            let count = self.linked_host_functions.len();
            if count >= (Self::SVC_LIMIT - Self::SVC_LINKED_FUNCTIONS_BASE) as usize {
                return Err(DyldError::TooManyHostFunctions);
            }
            let svc = count as u32 + Self::SVC_LINKED_FUNCTIONS_BASE;
            self.linked_host_functions.push(f);

            // Rewrite the stub to call this host function
            mem.write(svc_pc, encode_a32_svc(svc));
            cpu.invalidate_cache_range(svc_pc, 4);

            // Return the host function so that we can call it now that we're
            // done.
            return Ok(Some(f));
        }
        match find_guest_export(bins, i, symbol) {
            Some(target) => {
                // Put back the compiled stub, which jumps through its cell.
                let instruction_count: u32 = if entry_size == 12 {
                    2
                } else {
                    3
                };
                mem.write(svc_pc, stub_template_instruction(entry_size, 0));
                mem.write(svc_pc + 4, stub_template_instruction(entry_size, 1));
                if entry_size == 16 {
                    mem.write(svc_pc + 8, stub_template_instruction(entry_size, 2));
                }
                cpu.invalidate_cache_range(svc_pc, instruction_count * 4);

                let cell = if entry_size == 12 {
                    // Normal stub: absolute address
                    target
                } else {
                    // The PIC (position-independent code) stub adds the PC,
                    // which reads 8 bytes ahead, to the cell.
                    let base = svc_pc + 8;
                    if target >= base {
                        target - base
                    } else {
                        target + (u32::MAX - base) + 1
                    }
                };
                mem.write(svc_pc + instruction_count * 4, cell);
                // Tell the caller it needs to restart execution at svc_pc.
                Ok(None)
            },
            None => Err(DyldError::UnimplementedFunction { symbol: stubs.indirect_undef_symbols[idx].clone().unwrap() }),
        }
    }

    /// Return a host function that can be called to handle an SVC instruction
    /// encountered during CPU emulation. If `None` is returned, the execution
    /// needs to resume at `svc_pc`.
    ///
    /// The lazy-link code resolves the stub at `svc_pc`; a code from
    /// `SVC_LINKED_FUNCTIONS_BASE` on names an entry of the table of linked
    /// host functions. The return-to-host code is the caller's to handle, and
    /// like a code past the end of the table it is an error here.
    pub fn get_svc_handler(
        &mut self,
        bins: &[MachO],
        mem: &mut Mem,
        cpu: &mut Cpu,
        svc_pc: u32,
        svc: u32,
        host_functions: &[FunctionExports],
    ) -> (r: Result<Option<HostFunction>, DyldError>)
        ensures
            svc == Self::SVC_LAZY_LINK ==> lazy_link_outcome(
                bins@,
                host_functions@,
                svc_pc,
                old(self).spec_linked(),
                final(self).spec_linked(),
                old(mem)@,
                final(mem)@,
                old(cpu).spec_invalidated(),
                final(cpu).spec_invalidated(),
                r,
            ),
            svc != Self::SVC_LAZY_LINK ==> {
                &&& final(self).spec_linked() == old(self).spec_linked()
                &&& final(mem)@ == old(mem)@
                &&& final(cpu).spec_invalidated() == old(cpu).spec_invalidated()
                &&& r == match linked_svc_handler(old(self).spec_linked(), svc) {
                    Some(f) => Ok::<Option<HostFunction>, DyldError>(Some(f)),
                    None => Err(DyldError::UnexpectedSvc { svc, pc: svc_pc }),
                }
            },
            final(self).spec_return_to_host_routine() == old(self).spec_return_to_host_routine(),
            final(mem).spec_heap_next() == old(mem).spec_heap_next(),
            final(mem).spec_heap_end() == old(mem).spec_heap_end(),
            final(cpu).spec_regs() == old(cpu).spec_regs(),
            final(cpu).spec_cpsr() == old(cpu).spec_cpsr(),
    {
        if svc == Self::SVC_LAZY_LINK {
            self.do_lazy_link(bins, mem, cpu, svc_pc, host_functions)
        } else if svc == Self::SVC_RETURN_TO_HOST {
            // Never handled here: it means execution should stop.
            Err(DyldError::UnexpectedSvc { svc, pc: svc_pc })
        } else {
            let idx = (svc - Self::SVC_LINKED_FUNCTIONS_BASE) as usize;
            if idx < self.linked_host_functions.len() {
                Ok(Some(self.linked_host_functions[idx]))
            } else {
                Err(DyldError::UnexpectedSvc { svc, pc: svc_pc })
            }
        }
    }

    /// Link non-lazy symbols for a loaded binary.
    ///
    /// External relocations that refer to an Objective-C class or metaclass
    /// become class links for the object runtime to fill in. Everything else,
    /// other relocations and bound non-lazy symbol pointers, cannot be
    /// resolved up front: it is listed for a warning and skipped, so that a
    /// missing implementation only matters once it is used.
    pub fn do_non_lazy_linking(&self, bin: &MachO) -> (r: Result<NonLazyLinks, DyldError>)
        ensures
            match r {
                Ok(links) => non_lazy_linking_ok(*bin) && non_lazy_links_of(*bin, links),
                Err(e) => !non_lazy_linking_ok(*bin) && e == DyldError::MalformedSection {
                    addr: bin.non_lazy_symbol_ptrs->Some_0.addr,
                },
            },
    {
        let relocs = &bin.external_relocations;
        let mut class_links: Vec<ClassLink> = Vec::new();
        let mut unhandled_relocations: Vec<(u32, String)> = Vec::new();
        let n = relocs.len();
        let mut i: usize = 0;
        while i < n
            invariant
                n == relocs@.len(),
                i <= n,
                class_links@.map_values(|l: ClassLink| l.spec_view()) == class_links_of(
                    relocs@.take(i as int),
                ),
                unhandled_relocations@.map_values(|e: (u32, String)| named_view(e))
                    == unhandled_relocations_of(relocs@.take(i as int)),
            decreases n - i,
        {
            let ghost before = relocs@.take(i as int);
            proof {
                assert(relocs@.take(i + 1).drop_last() =~= before);
            }
            let addr = relocs[i].0;
            match relocation_class_name(relocs[i].1.as_str()) {
                Some((class_name, is_metaclass)) => {
                    let ghost prev = class_links@;
                    class_links.push(ClassLink { target: addr, class_name, is_metaclass });
                    proof {
                        assert(class_links@.map_values(|l: ClassLink| l.spec_view()) =~= prev.map_values(
                            |l: ClassLink| l.spec_view(),
                        ).push((addr, class_name@, is_metaclass)));
                    }
                },
                None => {
                    let ghost prev = unhandled_relocations@;
                    unhandled_relocations.push((addr, relocs[i].1.clone()));
                    proof {
                        assert(unhandled_relocations@.map_values(|e: (u32, String)| named_view(e))
                            =~= prev.map_values(|e: (u32, String)| named_view(e)).push(
                            named_view(relocs@[i as int]),
                        ));
                    }
                },
            }
            i = i + 1;
        }
        proof {
            assert(relocs@.take(n as int) =~= relocs@);
        }

        let mut unhandled_pointers: Vec<(u32, String)> = Vec::new();
        if let Some(ptrs) = &bin.non_lazy_symbol_ptrs {
            if ptrs.entry_size != 4 || ptrs.size % 4 != 0 || ptrs.size > u32::MAX - ptrs.addr
                || ptrs.indirect_undef_symbols.len() < (ptrs.size / 4) as usize {
                return Err(DyldError::MalformedSection { addr: ptrs.addr });
            }
            let count = ptrs.size / 4;
            let mut k: u32 = 0;
            while k < count
                invariant
                    pointer_section_wf(*ptrs),
                    count == ptrs.size / 4,
                    k <= count,
                    bin.non_lazy_symbol_ptrs == Some(*ptrs),
                    class_links@.map_values(|l: ClassLink| l.spec_view()) == class_links_of(
                        bin.external_relocations@,
                    ),
                    unhandled_relocations@.map_values(|e: (u32, String)| named_view(e))
                        == unhandled_relocations_of(bin.external_relocations@),
                    unhandled_pointers@.map_values(|e: (u32, String)| named_view(e))
                        == bound_pointers_upto(*ptrs, k as int),
                decreases count - k,
            {
                if let Some(symbol) = &ptrs.indirect_undef_symbols[k as usize] {
                    let ghost prev = unhandled_pointers@;
                    unhandled_pointers.push((ptrs.addr + 4 * k, symbol.clone()));
                    proof {
                        assert(unhandled_pointers@.map_values(|e: (u32, String)| named_view(e))
                            =~= prev.map_values(|e: (u32, String)| named_view(e)).push(
                            ((ptrs.addr + 4 * k) as u32, symbol@),
                        ));
                    }
                }
                k = k + 1;
            }
        }
        proof {
            if bin.non_lazy_symbol_ptrs is None {
                assert(unhandled_pointers@.map_values(|e: (u32, String)| named_view(e)) =~= Seq::<
                    (u32, Seq<char>),
                >::empty());
            }
        }
        // Internal relocations are not handled.
        Ok(NonLazyLinks { class_links, unhandled_relocations, unhandled_pointers })
    }

    /// Do linking-related tasks that need doing right after loading the
    /// binaries.
    ///
    /// Writes the return-to-host routine into freshly allocated memory, then
    /// for each binary in load order sets up its lazy-linking stubs and works
    /// out its non-lazy links. The class links that come back are for the
    /// object runtime to fill in, after it has registered the selectors and
    /// before it registers the classes of the application binary.
    pub fn do_initial_linking(&mut self, bins: &[MachO], mem: &mut Mem) -> (r: Result<
        Vec<NonLazyLinks>,
        DyldError,
    >)
        requires
            old(mem).wf(),
        ensures
            final(mem).wf(),
            final(self).spec_linked() == old(self).spec_linked(),
            final(mem).spec_heap_end() == old(mem).spec_heap_end(),
            old(self).spec_return_to_host_routine() is Some ==> {
                &&& r == Err::<Vec<NonLazyLinks>, DyldError>(DyldError::AlreadyInitialized)
                &&& final(self).spec_return_to_host_routine() == old(self).spec_return_to_host_routine()
                &&& final(mem)@ == old(mem)@
                &&& final(mem).spec_heap_next() == old(mem).spec_heap_next()
            },
            old(self).spec_return_to_host_routine() is None && !old(mem).can_alloc(8) ==> {
                &&& r == Err::<Vec<NonLazyLinks>, DyldError>(DyldError::OutOfMemory)
                &&& final(self).spec_return_to_host_routine() is None
                &&& final(mem)@ == old(mem)@
                &&& final(mem).spec_heap_next() == old(mem).spec_heap_next()
            },
            old(self).spec_return_to_host_routine() is None && old(mem).can_alloc(8) ==> {
                let routine = old(mem).spec_heap_next();
                let m1 = trampoline_mem(old(mem)@, routine);
                &&& final(self).spec_return_to_host_routine() matches Some(g) && g.spec_bits()
                    == routine && !g.spec_is_thumb()
                &&& final(mem).spec_heap_next() >= routine + 8
                &&& (r is Ok <==> initial_linking_ok(m1, bins@, bins@.len() as int))
                &&& r is Ok ==> forall|a: u32| #[trigger]
                    final(mem).word(a) == word_at(initial_lazy_mem(m1, bins@, bins@.len() as int), a)
                &&& r matches Ok(links) ==> links@.len() == bins@.len() && forall|k: int|
                    0 <= k < bins@.len() ==> #[trigger] non_lazy_links_of(bins@[k], links@[k])
            },
    {
        if self.return_to_host_routine.is_some() {
            return Err(DyldError::AlreadyInitialized);
        }
        let routine = match mem.allocate(4 * 2) {
            None => return Err(DyldError::OutOfMemory),
            Some(ptr) => ptr,
        };
        mem.write(routine, encode_a32_svc(Self::SVC_RETURN_TO_HOST));
        // When a return-to-host occurs, it's the host's responsibility to
        // reset the PC to somewhere else. So something has gone wrong if
        // this is executed.
        mem.write(routine + 4, encode_a32_trap());
        self.return_to_host_routine = Some(GuestFunction::from_addr_with_thumb_bit(routine));

        let ghost m1 = mem@;
        let mut all_links: Vec<NonLazyLinks> = Vec::new();
        let n = bins.len();
        let mut k: usize = 0;
        while k < n
            invariant
                n == bins@.len(),
                k <= n,
                mem.wf(),
                mem.spec_heap_end() == old(mem).spec_heap_end(),
                mem.spec_heap_next() >= routine + 8,
                self.spec_linked() == old(self).spec_linked(),
                self.spec_return_to_host_routine() matches Some(g) && g.spec_bits() == routine
                    && !g.spec_is_thumb(),
                routine == old(mem).spec_heap_next(),
                m1 == trampoline_mem(old(mem)@, routine),
                old(self).spec_return_to_host_routine() is None,
                old(mem).can_alloc(8),
                forall|a: u32| #[trigger] word_at(mem@, a) == word_at(initial_lazy_mem(m1, bins@, k as int), a),
                initial_linking_ok(m1, bins@, k as int),
                all_links@.len() == k,
                forall|j: int| 0 <= j < k ==> #[trigger] non_lazy_links_of(bins@[j], all_links@[j]),
            decreases n - k,
        {
            let bin = &bins[k];
            let ghost before = mem@;
            let ghost expected = initial_lazy_mem(m1, bins@, k as int);
            proof {
                if bin.symbol_stubs is Some {
                    lemma_all_stubs_match_same_words(before, expected, bin.symbol_stubs->Some_0);
                }
            }
            match self.setup_lazy_linking(bin, mem) {
                Ok(()) => {},
                Err(e) => {
                    proof {
                        assert(!bin_linking_ok(initial_lazy_mem(m1, bins@, k as int), bins@[k as int]));
                    }
                    return Err(e);
                },
            }
            proof {
                assert forall|a: u32| #[trigger]
                    word_at(mem@, a) == word_at(initial_lazy_mem(m1, bins@, k + 1), a) by {
                    if bin.symbol_stubs is Some {
                        let s = bin.symbol_stubs->Some_0;
                        assert(mem.word(a) == lazy_installed_word(before, s, a));
                        assert(word_at(before, a) == word_at(expected, a));
                    }
                }
            }
            let links = match self.do_non_lazy_linking(bin) {
                Ok(links) => links,
                Err(e) => {
                    proof {
                        assert(!bin_linking_ok(initial_lazy_mem(m1, bins@, k as int), bins@[k as int]));
                    }
                    return Err(e);
                },
            };
            proof {
                assert(bin_linking_ok(initial_lazy_mem(m1, bins@, k as int), bins@[k as int]));
            }
            all_links.push(links);
            k = k + 1;
        }
        Ok(all_links)
    }
}

} // verus!
