use std::rc::Rc;

use dart_kernel::builder::ComponentBuilder;
use dart_kernel::component::{
    Component, ComponentFile, ComponentHeader, Library, NonNullableMode, SourceInfo, StringTable,
};
use dart_kernel::error::{KernelError, SumKind};
use dart_kernel::expr::{Arguments, Expr, Stmt};
use dart_kernel::flags::ProcedureFlags;
use dart_kernel::names;
use dart_kernel::node::{Function, Procedure, Type};
use dart_kernel::prim::{CowRcStr, FileOffset, FileRange, StrRef};

#[test]
fn test_roundtrip() {
    let mut comp = Component::default();
    comp.strings.push(StrRef::Borrowed("test😵"));

    let buf = comp.encode(&ComponentHeader::dart_2_16_0_134()).unwrap();
    let loaded = ComponentFile::load(buf).unwrap();

    assert_eq!(loaded.libraries().unwrap().len(), 0);
    assert_eq!(loaded.constants().unwrap().len(), 0);

    let str_table = loaded.string_table().unwrap();
    let wtf_str = str_table.get_str(0);
    assert_eq!(wtf_str.as_deref(), Some("test😵"));
}

#[test]
fn non_ascii_string_bytes() {
    let mut comp = Component::default();
    comp.strings.push(StrRef::Shared(Rc::new("test😵".to_string())));
    let buf = comp.encode(&ComponentHeader::dart_2_16_0_134()).unwrap();
    let table = ComponentFile::load(buf).unwrap().string_table().unwrap();
    assert_eq!(table.get(0).unwrap(), b"test\xF0\x9F\x98\xB5".to_vec());
    assert_eq!(table.len(), 1);
}

#[test]
fn empty_component() {
    let comp = Component::default();
    let header = ComponentHeader::dart_2_16_0_134();
    assert_eq!(&header.sdk_hash, b"455fe9d180");
    let buf = comp.encode(&header).unwrap();
    let len = buf.len();
    let file = ComponentFile::load(buf).unwrap();
    assert!(file.libraries().unwrap().is_empty());
    assert!(file.constants().unwrap().is_empty());
    assert_eq!(file.string_table().unwrap().len(), 0);
    assert_eq!(file.metadata().file_size as usize, len);
    assert_eq!(file.metadata().library_count, 0);
    assert_eq!(file.index.library_offsets.len(), 1);
    assert_eq!(file.index.component_index_offset as usize, len - 52);
}

#[test]
fn header_round_trip_and_errors() {
    let header = ComponentHeader::dart_2_15_1();
    let mut out = Vec::new();
    header.encode(&mut out);
    assert_eq!(&out[..4], &[0x90, 0xAB, 0xCD, 0xEF]);
    let mut pos = 0usize;
    assert_eq!(ComponentHeader::decode(&out, &mut pos).unwrap(), header);
    let mut bad = out.clone();
    bad[0] = 0x91;
    let mut pos = 0usize;
    assert!(matches!(ComponentHeader::decode(&bad, &mut pos), Err(KernelError::WrongMagic { .. })));
    let mut old = out.clone();
    old[7] = 60;
    let mut pos = 0usize;
    assert_eq!(ComponentHeader::decode(&old, &mut pos), Err(KernelError::UnsupportedVersion(60)));
}

fn hello_world() -> (Component, dart_kernel::prim::CanonicalNameRef, dart_kernel::prim::CanonicalNameRef, dart_kernel::prim::StringRef) {
    let mut builder = ComponentBuilder::default();
    builder.add_source(SourceInfo::default());

    let lib_name_str = StrRef::Borrowed("hello_world_module");
    let lib_name = builder.add_name_from(vec![lib_name_str.clone()]);
    let main_name = builder.add_name_from(vec![
        lib_name_str.clone(),
        CowRcStr::Borrowed(names::METHODS),
        CowRcStr::Borrowed(names::MAIN),
    ]);
    let print_name = builder.add_name_from(vec![
        CowRcStr::Borrowed(names::DART_CORE),
        CowRcStr::Borrowed("@methods"),
        StrRef::Borrowed("print"),
    ]);
    let hello_world = builder.add_string(StrRef::Borrowed("Hello world!"));

    let args = Arguments::positional(vec![], vec![Expr::StringLit(hello_world)]);
    let body = Expr::StaticInvoke {
        offset: FileOffset::default(),
        target: print_name,
        arguments: Box::new(args),
    };
    let func = Function {
        body: Some(Box::new(Stmt::Block {
            range: FileRange::default(),
            statements: vec![Stmt::Expr(Box::new(body))],
        })),
        return_type: Type::Void,
        ..Function::default()
    };
    let proc = Procedure {
        canonical_name: main_name,
        function: Box::new(func),
        flags: ProcedureFlags::new().with_is_static(true),
        ..Procedure::default()
    };
    let lib = Library {
        version_major: 2.into(),
        version_minor: 15.into(),
        canonical_name: lib_name,
        procedures: vec![proc],
        ..Library::default()
    };
    builder.add_library(lib);
    assert_eq!(builder.get_str(hello_world).as_str(), "Hello world!");
    (builder.into_component(main_name, NonNullableMode::Strong), main_name, print_name, hello_world)
}

#[test]
fn hello_world_round_trip() {
    let (comp, main_name, print_name, hello) = hello_world();
    let strings: Vec<&str> = comp.strings.iter().map(|s| s.as_str()).collect();
    assert_eq!(
        strings,
        vec!["", "hello_world_module", "@methods", "main", "dart:core", "print", "Hello world!"]
    );
    let buf = comp.encode(&ComponentHeader::dart_2_15_1()).unwrap();
    let file = ComponentFile::load(buf).unwrap();
    let libs = file.libraries().unwrap();
    assert_eq!(libs.len(), 1);
    assert_eq!(libs[0].version_minor.0, 15);
    let proc = &libs[0].procedures[0];
    assert_eq!(proc.canonical_name, main_name);
    assert!(proc.flags.is_static());

    let names = file.canonical_names().unwrap();
    let table = file.string_table().unwrap();
    let mut chain = vec![];
    let mut r = main_name.value();
    while r != 0 {
        let n = names[r as usize - 1];
        chain.push(table.get_str(n.name.value() as usize).unwrap());
        r = n.parent.value();
    }
    chain.reverse();
    assert_eq!(chain, vec!["hello_world_module", "@methods", "main"]);

    match proc.function.body.as_deref() {
        Some(Stmt::Block { statements, .. }) => {
            assert_eq!(statements.len(), 1);
            match &statements[0] {
                Stmt::Expr(e) => match e.as_ref() {
                    Expr::StaticInvoke { target, arguments, .. } => {
                        assert_eq!(*target, print_name);
                        assert_eq!(arguments.positional.len(), 1);
                        assert_eq!(arguments.positional[0], Expr::StringLit(hello));
                    }
                    other => panic!("unexpected expression {:?}", other),
                },
                other => panic!("unexpected statement {:?}", other),
            }
        }
        other => panic!("unexpected body {:?}", other),
    }
    assert_eq!(proc.function.return_type, Type::Void);
}

#[test]
fn canonical_names_point_to_earlier_entries() {
    let (comp, _, _, _) = hello_world();
    for (i, n) in comp.canonical_names.iter().enumerate() {
        assert!((n.parent.value() as usize) < i + 1);
    }
    assert_eq!(comp.canonical_names.len(), 6);
}

#[test]
fn unknown_expression_tag() {
    let (comp, _, _, _) = hello_world();
    let mut buf = comp.encode(&ComponentHeader::dart_2_15_1()).unwrap();
    // The body's statement is an expression statement (61) holding a static invocation (30).
    let at = buf.windows(2).position(|w| w == [61, 30]).unwrap();
    buf[at + 1] = 0xFE;
    let file = ComponentFile::load(buf).unwrap();
    assert_eq!(
        file.libraries().unwrap_err(),
        KernelError::UnknownTag { sum: SumKind::Expr, tag: 0xFE }
    );
}

#[test]
fn truncated_tail() {
    let (comp, _, _, _) = hello_world();
    let mut buf = comp.encode(&ComponentHeader::dart_2_15_1()).unwrap();
    buf.truncate(buf.len() - 2);
    assert_eq!(ComponentFile::load(buf).err(), Some(KernelError::ShortRead));
    assert_eq!(ComponentFile::load(vec![1, 2, 3]).err(), Some(KernelError::ShortRead));
}

#[test]
fn file_size_matches_length() {
    let (comp, _, _, _) = hello_world();
    let buf = comp.encode(&ComponentHeader::dart_2_17_0_1()).unwrap();
    let len = buf.len();
    let file = ComponentFile::load(buf).unwrap();
    assert_eq!(file.metadata().file_size as usize, len);
    assert_eq!(file.metadata().library_count, 1);
    // The library offsets end with the position just after the last library,
    // which is where the source table starts.
    let offs = &file.index.library_offsets;
    assert_eq!(offs.len(), 2);
    assert_eq!(offs[1], file.index.source_table_offset);
    assert_eq!(file.source_map().unwrap().len(), 1);
}

#[test]
fn encoding_is_deterministic() {
    let (a, _, _, _) = hello_world();
    let (b, _, _, _) = hello_world();
    let h = ComponentHeader::dart_2_15_1();
    assert_eq!(a.encode(&h).unwrap(), b.encode(&h).unwrap());
    assert_eq!(a.encode(&h).unwrap(), a.encode(&h).unwrap());
}

#[test]
fn string_table_offsets_are_monotone() {
    let strs = vec![
        StrRef::Borrowed("a"),
        StrRef::Borrowed(""),
        StrRef::Borrowed("é"),
        StrRef::Borrowed("xyz"),
    ];
    let t = StringTable::new(&strs).unwrap();
    let ends: Vec<u32> = t.end_offsets.iter().map(|u| u.0).collect();
    assert_eq!(ends, vec![1, 1, 3, 6]);
    assert!(ends.windows(2).all(|w| w[0] <= w[1]));
    assert_eq!(*ends.last().unwrap() as usize, t.bytes.len());
    assert_eq!(t.get_str(2).as_deref(), Some("é"));
    assert_eq!(t.get(1).unwrap(), Vec::<u8>::new());
    assert_eq!(t.get(4), None);
    let empty = StringTable::new(&vec![]).unwrap();
    assert_eq!(empty.len(), 0);
    assert!(empty.bytes.is_empty());
}

#[test]
fn unsupported_versions_are_refused() {
    let comp = Component::default();
    let mut header = ComponentHeader::dart_2_16_0_134();
    header.version = 60;
    assert_eq!(comp.encode(&header).err(), Some(KernelError::UnsupportedVersion(60)));
    let mut buf = comp.encode(&ComponentHeader::dart_2_16_0_134()).unwrap();
    buf[7] = 60;
    assert_eq!(ComponentFile::load(buf).err(), Some(KernelError::UnsupportedVersion(60)));
}

#[test]
fn index_must_hold_its_own_position() {
    let comp = Component::default();
    let mut buf = comp.encode(&ComponentHeader::dart_2_16_0_134()).unwrap();
    let len = buf.len();
    let file = ComponentFile::load(buf.clone()).unwrap();
    assert_eq!(file.header.version, 75);
    assert_eq!(file.index.canonical_names_offset as usize, 18 + 1 + 4 + 1 + 4);
    buf[len - 52 + 31] ^= 1;
    assert_eq!(ComponentFile::load(buf).err(), Some(KernelError::ShortRead));
}

#[test]
fn shared_and_borrowed_strings_compare_by_text() {
    let a = StrRef::Borrowed("main");
    let b = StrRef::Shared(Rc::new("main".to_string()));
    assert_eq!(a, b);
    assert!(matches!(a.to_owned(), CowRcStr::Shared(_)));
    assert_ne!(a, StrRef::Borrowed("mains"));
}

#[test]
fn name_paths_intern_each_part_under_the_previous() {
    let mut builder = ComponentBuilder::default();
    let main_name = builder.add_name_from(vec![
        StrRef::Borrowed("hello_world_module"),
        StrRef::Borrowed("@methods"),
        StrRef::Borrowed("main"),
    ]);
    let print_name = builder.add_name_from(vec![
        StrRef::Borrowed("dart:core"),
        StrRef::Borrowed("@methods"),
        StrRef::Borrowed("print"),
    ]);
    assert_eq!(main_name.value(), 3);
    assert_eq!(print_name.value(), 6);
    let comp = builder.into_component(main_name, NonNullableMode::Strong);
    let pairs: Vec<(u32, u32)> =
        comp.canonical_names.iter().map(|n| (n.parent.value(), n.name.value())).collect();
    assert_eq!(pairs, vec![(0, 1), (1, 2), (2, 3), (0, 4), (4, 2), (5, 5)]);
}

#[test]
fn header_hash_bytes() {
    let comp = Component::default();
    let buf = comp.encode(&ComponentHeader::dart_2_16_0_134()).unwrap();
    assert_eq!(
        &buf[..18],
        &[0x90, 0xAB, 0xCD, 0xEF, 0, 0, 0, 0x4B, 0x34, 0x35, 0x35, 0x66, 0x65, 0x39, 0x64, 0x31, 0x38, 0x30]
    );
    assert_eq!(buf[18], 0);
}
