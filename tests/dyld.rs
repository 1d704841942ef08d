use touchhle::cpu::{Cpu, CpuState};
use touchhle::dyld::{search_lists, ClassLink, Dyld, DyldError, FunctionExports, HostFunction};
use touchhle::mach_o::{MachO, Section};
use touchhle::mem::Mem;

const PLAIN_STUB: [u32; 2] = [0xe59fc000, 0xe59cf000];
const PIC_STUB: [u32; 3] = [0xe59fc004, 0xe08fc00c, 0xe59cf000];
const SVC_LAZY: u32 = 0xef000000;
const RET: u32 = 0xe12fff1e;
const TRAP: u32 = 0xe7ffdefe;

const FOO: HostFunction = HostFunction { id: 7 };
const BAR: HostFunction = HostFunction { id: 8 };
const LIST_A: FunctionExports = &[("_foo", FOO), ("_bar", BAR)];
const LIST_B: FunctionExports = &[("_foo", HostFunction { id: 99 })];
const LISTS: &[FunctionExports] = &[LIST_A, LIST_B];

fn bin(name: &str, stubs: Option<Section>, exports: Vec<(String, u32)>) -> MachO {
    MachO {
        name: name.to_string(),
        symbol_stubs: stubs,
        non_lazy_symbol_ptrs: None,
        exported_symbols: exports,
        external_relocations: Vec::new(),
    }
}

fn stub_section(addr: u32, entry_size: u32, symbols: &[Option<&str>]) -> Section {
    Section {
        addr,
        size: entry_size * symbols.len() as u32,
        entry_size,
        indirect_undef_symbols: symbols.iter().map(|s| s.map(|s| s.to_string())).collect(),
    }
}

/// Writes compiled stubs at `addr`, each followed by `cell + 4 * i`.
fn write_stubs(mem: &mut Mem, addr: u32, entry_size: u32, count: u32, cell: u32) {
    for i in 0..count {
        let base = addr + i * entry_size;
        let template: &[u32] = if entry_size == 12 { &PLAIN_STUB } else { &PIC_STUB };
        for (j, &w) in template.iter().enumerate() {
            mem.write(base + 4 * j as u32, w);
        }
        mem.write(base + entry_size - 4, cell + 4 * i);
    }
}

fn app_with_stub(symbol: &str) -> (Vec<MachO>, Mem) {
    let mut mem = Mem::new(0x10000, 0x20000);
    write_stubs(&mut mem, 0x1000, 12, 1, 0x3000);
    let app = bin("App", Some(stub_section(0x1000, 12, &[Some(symbol)])), Vec::new());
    let lib = bin("libgcc", None, vec![("_bar".to_string(), 0x2100), ("_qux".to_string(), 0x2000)]);
    (vec![app, lib], mem)
}

#[test]
fn lazy_installation_plain_layout() {
    let mut mem = Mem::new(0x10000, 0x20000);
    write_stubs(&mut mem, 0x1000, 12, 3, 0x3000);
    let app = bin("App", Some(stub_section(0x1000, 12, &[Some("_a"), Some("_b"), None])), Vec::new());
    let dyld = Dyld::new();
    assert_eq!(dyld.setup_lazy_linking(&app, &mut mem), Ok(()));
    for i in 0..3 {
        let base = 0x1000 + 12 * i;
        assert_eq!(mem.read(base), SVC_LAZY);
        assert_eq!(mem.read(base + 4), RET);
        assert_eq!(mem.read(base + 8), 0x3000 + 4 * i);
    }
}

#[test]
fn lazy_installation_pic_layout() {
    let mut mem = Mem::new(0x10000, 0x20000);
    write_stubs(&mut mem, 0x1000, 16, 2, 0x800);
    let app = bin("App", Some(stub_section(0x1000, 16, &[Some("_a"), Some("_b")])), Vec::new());
    let dyld = Dyld::new();
    assert_eq!(dyld.setup_lazy_linking(&app, &mut mem), Ok(()));
    for i in 0..2 {
        let base = 0x1000 + 16 * i;
        assert_eq!(mem.read(base), SVC_LAZY);
        assert_eq!(mem.read(base + 4), RET);
        assert_eq!(mem.read(base + 8), TRAP);
        assert_eq!(mem.read(base + 12), 0x800 + 4 * i);
    }
}

#[test]
fn lazy_installation_rejects_modified_stub() {
    let mut mem = Mem::new(0x10000, 0x20000);
    write_stubs(&mut mem, 0x1000, 12, 3, 0x3000);
    mem.write(0x1000 + 12 + 4, 0x12345678);
    let app = bin("App", Some(stub_section(0x1000, 12, &[None, None, None])), Vec::new());
    let dyld = Dyld::new();
    assert_eq!(
        dyld.setup_lazy_linking(&app, &mut mem),
        Err(DyldError::StubMismatch { addr: 0x100c })
    );
    // Nothing was rewritten, not even the stub before the bad one.
    assert_eq!(mem.read(0x1000), PLAIN_STUB[0]);
}

#[test]
fn lazy_installation_rejects_unknown_layout() {
    let mut mem = Mem::new(0x10000, 0x20000);
    let dyld = Dyld::new();
    let odd = bin("App", Some(stub_section(0x1000, 20, &[None])), Vec::new());
    assert_eq!(
        dyld.setup_lazy_linking(&odd, &mut mem),
        Err(DyldError::MalformedSection { addr: 0x1000 })
    );
    let mut ragged = stub_section(0x1000, 12, &[None, None]);
    ragged.size = 20;
    let ragged = bin("App", Some(ragged), Vec::new());
    assert_eq!(
        dyld.setup_lazy_linking(&ragged, &mut mem),
        Err(DyldError::MalformedSection { addr: 0x1000 })
    );
}

#[test]
fn initial_linking_writes_return_to_host_routine() {
    let (bins, mut mem) = app_with_stub("_foo");
    let mut dyld = Dyld::new();
    let links = dyld.do_initial_linking(&bins, &mut mem).unwrap();
    assert_eq!(links.len(), 2);
    let routine = dyld.return_to_host_routine();
    assert!(!routine.is_thumb());
    assert_eq!(routine.addr_without_thumb_bit(), 0x10000);
    assert_eq!(mem.read(0x10000), 0xef000001);
    assert_eq!(mem.read(0x10004), TRAP);
    assert_eq!(mem.read(0x1000), SVC_LAZY);
    assert_eq!(mem.read(0x1004), RET);
}

#[test]
fn initial_linking_happens_once() {
    let (bins, mut mem) = app_with_stub("_foo");
    let mut dyld = Dyld::new();
    assert!(dyld.do_initial_linking(&bins, &mut mem).is_ok());
    assert!(matches!(
        dyld.do_initial_linking(&bins, &mut mem),
        Err(DyldError::AlreadyInitialized)
    ));
}

#[test]
fn initial_linking_needs_memory_for_the_routine() {
    let (bins, _) = app_with_stub("_foo");
    let mut mem = Mem::new(0x10000, 0x10004);
    write_stubs(&mut mem, 0x1000, 12, 1, 0x3000);
    let mut dyld = Dyld::new();
    assert!(matches!(
        dyld.do_initial_linking(&bins, &mut mem),
        Err(DyldError::OutOfMemory)
    ));
    assert_eq!(mem.read(0x1000), PLAIN_STUB[0]);
}

#[test]
fn end_to_end_host_function() {
    let (bins, mut mem) = app_with_stub("_foo");
    let mut dyld = Dyld::new();
    let mut cpu = Cpu::new();
    dyld.do_initial_linking(&bins, &mut mem).unwrap();
    // The engine stops on the stub's trap, with ticks to spare.
    assert_eq!(CpuState::from_run_result(0, 500), CpuState::Svc(0));
    let f = dyld.get_svc_handler(&bins, &mut mem, &mut cpu, 0x1000, 0, LISTS);
    assert_eq!(f, Ok(Some(FOO)));
    assert_eq!(mem.read(0x1000), 0xef000002);
    assert_eq!(mem.read(0x1004), RET);
    assert_eq!(dyld.linked_host_functions(), &[FOO][..]);
    assert_eq!(cpu.take_invalidated_ranges(), vec![(0x1000, 4)]);
    // The rewritten stub now traps with the function's own code.
    assert_eq!(
        dyld.get_svc_handler(&bins, &mut mem, &mut cpu, 0x1000, 2, LISTS),
        Ok(Some(FOO))
    );
}

#[test]
fn host_resolution_assigns_sequential_codes() {
    let mut mem = Mem::new(0x10000, 0x20000);
    write_stubs(&mut mem, 0x1000, 12, 2, 0x3000);
    let bins = vec![bin("App", Some(stub_section(0x1000, 12, &[Some("_foo"), Some("_bar")])), Vec::new())];
    let mut dyld = Dyld::new();
    let mut cpu = Cpu::new();
    dyld.do_initial_linking(&bins, &mut mem).unwrap();
    assert_eq!(dyld.linked_host_functions().len(), 0);
    assert_eq!(dyld.get_svc_handler(&bins, &mut mem, &mut cpu, 0x100c, 0, LISTS), Ok(Some(BAR)));
    assert_eq!(dyld.linked_host_functions().len(), 1);
    assert_eq!(mem.read(0x100c), 0xef000002);
    assert_eq!(dyld.get_svc_handler(&bins, &mut mem, &mut cpu, 0x1000, 0, LISTS), Ok(Some(FOO)));
    assert_eq!(dyld.linked_host_functions(), &[BAR, FOO][..]);
    assert_eq!(mem.read(0x1000), 0xef000003);
    assert_eq!(dyld.get_svc_handler(&bins, &mut mem, &mut cpu, 0x100c, 2, LISTS), Ok(Some(BAR)));
    assert_eq!(dyld.get_svc_handler(&bins, &mut mem, &mut cpu, 0x1000, 3, LISTS), Ok(Some(FOO)));
}

#[test]
fn resolved_stub_no_longer_traps_to_lazy_linker() {
    let (bins, mut mem) = app_with_stub("_foo");
    let mut dyld = Dyld::new();
    let mut cpu = Cpu::new();
    dyld.do_initial_linking(&bins, &mut mem).unwrap();
    dyld.get_svc_handler(&bins, &mut mem, &mut cpu, 0x1000, 0, LISTS).unwrap();
    assert_ne!(mem.read(0x1000), SVC_LAZY);
    assert_eq!(dyld.linked_host_functions().len(), 1);
}

#[test]
fn end_to_end_guest_function() {
    let (bins, mut mem) = app_with_stub("_qux");
    let mut dyld = Dyld::new();
    let mut cpu = Cpu::new();
    dyld.do_initial_linking(&bins, &mut mem).unwrap();
    let r = dyld.get_svc_handler(&bins, &mut mem, &mut cpu, 0x1000, 0, LISTS);
    assert_eq!(r, Ok(None));
    assert_eq!(mem.read(0x1000), PLAIN_STUB[0]);
    assert_eq!(mem.read(0x1004), PLAIN_STUB[1]);
    assert_eq!(mem.read(0x1008), 0x2000);
    assert_eq!(cpu.take_invalidated_ranges(), vec![(0x1000, 8)]);
    assert!(dyld.linked_host_functions().is_empty());
}

#[test]
fn guest_resolution_pic_layout() {
    let mut mem = Mem::new(0x10000, 0x20000);
    write_stubs(&mut mem, 0x1000, 16, 1, 0x800);
    let bins = vec![
        bin("App", Some(stub_section(0x1000, 16, &[Some("_qux")])), Vec::new()),
        bin("libstdc++", None, vec![("_qux".to_string(), 0x2000)]),
    ];
    let mut dyld = Dyld::new();
    let mut cpu = Cpu::new();
    dyld.do_initial_linking(&bins, &mut mem).unwrap();
    assert_eq!(mem.read(0x1008), TRAP);
    assert_eq!(dyld.get_svc_handler(&bins, &mut mem, &mut cpu, 0x1000, 0, LISTS), Ok(None));
    assert_eq!(mem.read(0x1000), PIC_STUB[0]);
    assert_eq!(mem.read(0x1004), PIC_STUB[1]);
    assert_eq!(mem.read(0x1008), PIC_STUB[2]);
    assert_eq!(mem.read(0x100c), 0x2000 - (0x1000 + 8));
    assert_eq!(cpu.take_invalidated_ranges(), vec![(0x1000, 12)]);
}

#[test]
fn guest_resolution_pic_layout_target_below_stub() {
    let mut mem = Mem::new(0x10000, 0x20000);
    write_stubs(&mut mem, 0x5000, 16, 1, 0x800);
    let bins = vec![
        bin("App", Some(stub_section(0x5000, 16, &[Some("_qux")])), Vec::new()),
        bin("libgcc", None, vec![("_qux".to_string(), 0x2000)]),
    ];
    let mut dyld = Dyld::new();
    let mut cpu = Cpu::new();
    dyld.do_initial_linking(&bins, &mut mem).unwrap();
    assert_eq!(dyld.get_svc_handler(&bins, &mut mem, &mut cpu, 0x5000, 0, LISTS), Ok(None));
    let cell = mem.read(0x500c);
    assert_eq!(cell, 0x2000u32.wrapping_sub(0x5008));
    assert_eq!(0x5008u32.wrapping_add(cell), 0x2000);
}

#[test]
fn guest_resolution_round_trip_restores_template() {
    let mut mem = Mem::new(0x10000, 0x20000);
    write_stubs(&mut mem, 0x1000, 16, 2, 0x800);
    let before: Vec<u32> = (0..8).map(|i| mem.read(0x1000 + 4 * i)).collect();
    let bins = vec![
        bin("App", Some(stub_section(0x1000, 16, &[Some("_x"), Some("_y")])), Vec::new()),
        bin("lib", None, vec![("_y".to_string(), 0x2000)]),
    ];
    let mut dyld = Dyld::new();
    let mut cpu = Cpu::new();
    dyld.do_initial_linking(&bins, &mut mem).unwrap();
    dyld.get_svc_handler(&bins, &mut mem, &mut cpu, 0x1010, 0, LISTS).unwrap();
    for j in 0..3 {
        assert_eq!(mem.read(0x1010 + 4 * j), before[4 + j as usize]);
    }
    // The first stub is still set up for lazy linking.
    assert_eq!(mem.read(0x1000), SVC_LAZY);
}

#[test]
fn guest_resolution_skips_the_calling_binary() {
    let mut mem = Mem::new(0x10000, 0x20000);
    write_stubs(&mut mem, 0x1000, 12, 1, 0x3000);
    let bins = vec![
        bin("App", Some(stub_section(0x1000, 12, &[Some("_qux")])), vec![("_qux".to_string(), 0x4000)]),
        bin("lib1", None, Vec::new()),
        bin("lib2", None, vec![("_qux".to_string(), 0x5000)]),
        bin("lib3", None, vec![("_qux".to_string(), 0x6000)]),
    ];
    let mut dyld = Dyld::new();
    let mut cpu = Cpu::new();
    dyld.do_initial_linking(&bins, &mut mem).unwrap();
    assert_eq!(dyld.get_svc_handler(&bins, &mut mem, &mut cpu, 0x1000, 0, LISTS), Ok(None));
    assert_eq!(mem.read(0x1008), 0x5000);
}

#[test]
fn end_to_end_unimplemented_function() {
    let (bins, mut mem) = app_with_stub("_nowhere");
    let mut dyld = Dyld::new();
    let mut cpu = Cpu::new();
    dyld.do_initial_linking(&bins, &mut mem).unwrap();
    let r = dyld.get_svc_handler(&bins, &mut mem, &mut cpu, 0x1000, 0, LISTS);
    assert_eq!(
        r,
        Err(DyldError::UnimplementedFunction { symbol: "_nowhere".to_string() })
    );
    assert_eq!(mem.read(0x1000), SVC_LAZY);
}

#[test]
fn lazy_link_outside_any_stub() {
    let (bins, mut mem) = app_with_stub("_foo");
    let mut dyld = Dyld::new();
    let mut cpu = Cpu::new();
    dyld.do_initial_linking(&bins, &mut mem).unwrap();
    assert_eq!(
        dyld.get_svc_handler(&bins, &mut mem, &mut cpu, 0x100c, 0, LISTS),
        Err(DyldError::NoStubAt { pc: 0x100c })
    );
}

#[test]
fn lazy_link_inside_a_stub() {
    let (bins, mut mem) = app_with_stub("_foo");
    let mut dyld = Dyld::new();
    let mut cpu = Cpu::new();
    dyld.do_initial_linking(&bins, &mut mem).unwrap();
    assert_eq!(
        dyld.get_svc_handler(&bins, &mut mem, &mut cpu, 0x1004, 0, LISTS),
        Err(DyldError::MisalignedStub { pc: 0x1004 })
    );
}

#[test]
fn lazy_link_of_unnamed_stub() {
    let mut mem = Mem::new(0x10000, 0x20000);
    write_stubs(&mut mem, 0x1000, 12, 1, 0x3000);
    let bins = vec![bin("App", Some(stub_section(0x1000, 12, &[None])), Vec::new())];
    let mut dyld = Dyld::new();
    let mut cpu = Cpu::new();
    dyld.do_initial_linking(&bins, &mut mem).unwrap();
    assert_eq!(
        dyld.get_svc_handler(&bins, &mut mem, &mut cpu, 0x1000, 0, LISTS),
        Err(DyldError::MissingSymbolName { pc: 0x1000 })
    );
}

#[test]
fn lazy_link_of_overwritten_stub() {
    let (bins, mut mem) = app_with_stub("_foo");
    let mut dyld = Dyld::new();
    let mut cpu = Cpu::new();
    dyld.do_initial_linking(&bins, &mut mem).unwrap();
    mem.write(0x1004, 0);
    assert_eq!(
        dyld.get_svc_handler(&bins, &mut mem, &mut cpu, 0x1000, 0, LISTS),
        Err(DyldError::StubNotLazy { pc: 0x1000 })
    );
    assert!(dyld.linked_host_functions().is_empty());
}

#[test]
fn lazy_link_with_malformed_stub_section() {
    let mut mem = Mem::new(0x10000, 0x20000);
    let mut stubs = stub_section(0x1000, 12, &[Some("_foo")]);
    stubs.indirect_undef_symbols.clear();
    let bins = vec![bin("App", Some(stubs), Vec::new())];
    let mut dyld = Dyld::new();
    let mut cpu = Cpu::new();
    assert_eq!(
        dyld.get_svc_handler(&bins, &mut mem, &mut cpu, 0x1000, 0, LISTS),
        Err(DyldError::MalformedSection { addr: 0x1000 })
    );
}

#[test]
fn dispatch_rejects_unassigned_codes() {
    let (bins, mut mem) = app_with_stub("_foo");
    let mut dyld = Dyld::new();
    let mut cpu = Cpu::new();
    dyld.do_initial_linking(&bins, &mut mem).unwrap();
    assert_eq!(
        dyld.get_svc_handler(&bins, &mut mem, &mut cpu, 0x1000, 1, LISTS),
        Err(DyldError::UnexpectedSvc { svc: 1, pc: 0x1000 })
    );
    assert_eq!(
        dyld.get_svc_handler(&bins, &mut mem, &mut cpu, 0x1000, 2, LISTS),
        Err(DyldError::UnexpectedSvc { svc: 2, pc: 0x1000 })
    );
    dyld.get_svc_handler(&bins, &mut mem, &mut cpu, 0x1000, 0, LISTS).unwrap();
    assert_eq!(
        dyld.get_svc_handler(&bins, &mut mem, &mut cpu, 0x2000, 3, LISTS),
        Err(DyldError::UnexpectedSvc { svc: 3, pc: 0x2000 })
    );
    assert_eq!(
        dyld.get_svc_handler(&bins, &mut mem, &mut cpu, 0x2000, 0xffffff, LISTS),
        Err(DyldError::UnexpectedSvc { svc: 0xffffff, pc: 0x2000 })
    );
}

#[test]
fn search_lists_earliest_list_wins() {
    assert_eq!(search_lists(LISTS, "_foo"), Some(&FOO));
    assert_eq!(search_lists(LISTS, "_bar"), Some(&BAR));
    assert_eq!(search_lists(LISTS, "_baz"), None);
    assert_eq!(search_lists(&[LIST_B, LIST_A], "_foo"), Some(&HostFunction { id: 99 }));
    let empty: &[FunctionExports] = &[];
    assert_eq!(search_lists(empty, "_foo"), None);
}

#[test]
fn non_lazy_linking_classifies_relocations() {
    let mut app = bin("App", None, Vec::new());
    app.external_relocations = vec![
        (0x4000, "_OBJC_CLASS_$_NSObject".to_string()),
        (0x4004, "_OBJC_METACLASS_$_NSObject".to_string()),
        (0x4008, "___CFConstantStringClassReference".to_string()),
        (0x400c, "_OBJC_CLASS_$_".to_string()),
    ];
    app.non_lazy_symbol_ptrs = Some(stub_section(0x5000, 4, &[Some("_kCFAllocatorDefault"), None, Some("_errno")]));
    let dyld = Dyld::new();
    let links = dyld.do_non_lazy_linking(&app).unwrap();
    assert_eq!(
        links.class_links,
        vec![
            ClassLink { target: 0x4000, class_name: "NSObject".to_string(), is_metaclass: false },
            ClassLink { target: 0x4004, class_name: "NSObject".to_string(), is_metaclass: true },
            ClassLink { target: 0x400c, class_name: String::new(), is_metaclass: false },
        ]
    );
    assert_eq!(
        links.unhandled_relocations,
        vec![(0x4008, "___CFConstantStringClassReference".to_string())]
    );
    assert_eq!(
        links.unhandled_pointers,
        vec![(0x5000, "_kCFAllocatorDefault".to_string()), (0x5008, "_errno".to_string())]
    );
}

#[test]
fn non_lazy_linking_rejects_odd_pointer_section() {
    let mut app = bin("App", None, Vec::new());
    app.non_lazy_symbol_ptrs = Some(stub_section(0x5000, 8, &[None]));
    let dyld = Dyld::new();
    assert!(matches!(
        dyld.do_non_lazy_linking(&app),
        Err(DyldError::MalformedSection { addr: 0x5000 })
    ));
}

#[test]
fn lookup_export_first_match() {
    let lib = bin("lib", None, vec![("_a".to_string(), 1), ("_b".to_string(), 2), ("_a".to_string(), 3)]);
    assert_eq!(lib.lookup_export("_a"), Some(1));
    assert_eq!(lib.lookup_export("_b"), Some(2));
    assert_eq!(lib.lookup_export("_c"), None);
}
