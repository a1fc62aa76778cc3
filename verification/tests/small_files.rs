use nbtdoc::parse::ast::{
    CompoundDef, EnumDef, EnumType, EnumValue, Field, FieldType, NbtDocFile, NumberPrimitiveType,
    PathPart, Range as DeclaredRange,
};
use nbtdoc::validation::format::{EnumType as ResolvedEnumType, ItemIndex, NbtValue};
use nbtdoc::validation::root::{NbtDocError, Root};
use nbtdoc::validation::tree::{flat_file, locate, ModuleTree};
use nbtdoc::Range;
use std::collections::HashMap;

fn plain(name: &str) -> PathPart {
    PathPart::Regular(String::from(name))
}

fn field(description: &str, field_type: FieldType) -> Field {
    Field { description: String::from(description), field_type }
}

/// The parsed form of the file that holds the root module.
fn small_file_root() -> NbtDocFile {
    NbtDocFile {
        uses: vec![(false, vec![plain("small_file_sibling"), plain("Sibling")])],
        compounds: vec![(
            String::from("Root"),
            CompoundDef {
                description: String::from("The root of the small fixture"),
                fields: vec![
                    (
                        String::from("sibling"),
                        field("A compound of the other file", FieldType::NamedType(vec![plain("Sibling")])),
                    ),
                    (
                        String::from("level"),
                        field(
                            "A bounded number",
                            FieldType::NumberType(NumberPrimitiveType::Byte(Some(DeclaredRange::Low(5)))),
                        ),
                    ),
                ],
                supers: None,
            },
        )],
        enums: vec![],
        describes: vec![],
        mods: vec![String::from("small_file_sibling")],
    }
}

/// The parsed form of the file beside it.
fn small_file_sibling() -> NbtDocFile {
    NbtDocFile {
        uses: vec![],
        compounds: vec![(
            String::from("Sibling"),
            CompoundDef {
                description: String::from("Declared in the sibling file"),
                fields: vec![(String::from("kind"), field("Its kind", FieldType::NamedType(vec![plain("Kind")])))],
                supers: None,
            },
        )],
        enums: vec![(
            String::from("Kind"),
            EnumDef {
                description: String::from("A kind"),
                values: EnumType::Byte(vec![
                    (String::from("First"), EnumValue { description: String::from("one"), value: 1 }),
                    (String::from("Second"), EnumValue { description: String::from("two"), value: 2 }),
                ]),
            },
        )],
        describes: vec![],
        mods: vec![],
    }
}

/// Parsed files under the paths of their files.
struct MockFileProvider {
    map: HashMap<String, fn() -> NbtDocFile>,
}

/// Reads the tree of the module `name` in `dir`, as a reader of files does:
/// each module from the file where the library says it lies.
fn read(fp: &MockFileProvider, dir: &str, name: &str) -> ModuleTree {
    let name = String::from(name);
    let flat = fp.map.contains_key(&format!("{}{}", dir, flat_file(&name)));
    let place = locate(&name, flat);
    let path = format!("{}{}", dir, place.file.join("/"));
    let val = fp.map.get(&path).unwrap()();
    let mut newdir = String::from(dir);
    for part in place.children.iter() {
        newdir = format!("{}{}/", newdir, part);
    }
    let mods = val.mods.clone();
    let mut tree = ModuleTree::new(val);
    for m in mods {
        let child = read(fp, &newdir, &m);
        tree.insert_child(m, child);
    }
    tree
}

fn fixture() -> ModuleTree {
    let mut fp = MockFileProvider { map: HashMap::new() };
    fp.map.insert(String::from("/small_file_root.nbtdoc"), small_file_root);
    fp.map.insert(String::from("/small_file_sibling.nbtdoc"), small_file_sibling);
    read(&fp, "/", "small_file_root")
}

#[test]
fn small_files() -> Result<(), NbtDocError> {
    let mut root = Root::new();
    root.add_root_module(String::from("small_file_root"), fixture())?;
    Ok(())
}

#[test]
fn small_files_are_linked() {
    let tree = fixture();
    assert!(tree.is_well_formed());
    let mut root = Root::new();
    root.add_root_module(String::from("small_file_root"), tree).unwrap();
    let top = root.get_root_module("small_file_root").unwrap();
    let sibling_module = match root.get_module(top).children.get(&String::from("small_file_sibling")) {
        Some(ItemIndex::Module(m)) => *m,
        other => panic!("not a module: {:?}", other),
    };
    assert_eq!(root.get_module(sibling_module).parent, Some(top));
    assert_eq!(root.get_module(top).parent, None);
    let sibling = match root.get_module(sibling_module).children.get(&String::from("Sibling")) {
        Some(ItemIndex::Compound(c)) => *c,
        other => panic!("not a compound: {:?}", other),
    };
    let kind = match root.get_module(sibling_module).children.get(&String::from("Kind")) {
        Some(ItemIndex::Enum(e)) => *e,
        other => panic!("not an enum: {:?}", other),
    };
    let top_compound = match root.get_module(top).children.get(&String::from("Root")) {
        Some(ItemIndex::Compound(c)) => *c,
        other => panic!("not a compound: {:?}", other),
    };
    let fields = &root.get_compound(top_compound).fields;
    assert_eq!(fields.len(), 2);
    match &fields.get(&String::from("sibling")).unwrap().nbttype {
        NbtValue::Compound(c) => assert_eq!(*c, sibling),
        other => panic!("not a compound: {:?}", other),
    }
    match &fields.get(&String::from("level")).unwrap().nbttype {
        NbtValue::Byte(tag) => assert_eq!(tag.range, Some(Range(5, 127))),
        other => panic!("not a byte: {:?}", other),
    }
    match &root.get_compound(sibling).fields.get(&String::from("kind")).unwrap().nbttype {
        NbtValue::Enum(e) => assert_eq!(*e, kind),
        other => panic!("not an enum: {:?}", other),
    }
    assert_eq!(root.get_enum(kind).description, "A kind");
    match &root.get_enum(kind).et {
        ResolvedEnumType::Byte(options) => {
            assert_eq!(options.len(), 2);
            assert_eq!(options[0].name, "First");
            assert_eq!(options[0].value, 1);
            assert_eq!(options[1].name, "Second");
            assert_eq!(options[1].description, "two");
        },
        other => panic!("not bytes: {:?}", other),
    }
    assert_eq!(root.get_modules().len(), 2);
    assert_eq!(root.get_compounds().len(), 2);
    assert_eq!(root.get_enums().len(), 1);
}

#[test]
fn module_in_a_directory_is_found_in_its_mod_file() {
    let mut fp = MockFileProvider { map: HashMap::new() };
    fp.map.insert(String::from("/small_file_root/mod.nbtdoc"), small_file_root);
    fp.map.insert(String::from("/small_file_root/small_file_sibling.nbtdoc"), small_file_sibling);
    let tree = read(&fp, "/", "small_file_root");
    assert_eq!(tree.children.len(), 1);
    assert_eq!(tree.children[0].0, "small_file_sibling");
    let mut root = Root::new();
    root.add_root_module(String::from("small_file_root"), tree).unwrap();
}

#[test]
fn module_location() {
    let name = String::from("items");
    let flat = locate(&name, true);
    assert_eq!(flat.file, vec![String::from("items.nbtdoc")]);
    assert!(flat.children.is_empty());
    let nested = locate(&name, false);
    assert_eq!(nested.file, vec![String::from("items"), String::from("mod.nbtdoc")]);
    assert_eq!(nested.children, vec![String::from("items")]);
    assert_eq!(flat_file(&name), "items.nbtdoc");
}

#[test]
fn same_fixture_twice() {
    let mut first = Root::new();
    first.add_root_module(String::from("small_file_root"), fixture()).unwrap();
    let mut second = Root::new();
    second.add_root_module(String::from("small_file_root"), fixture()).unwrap();
    assert_eq!(format!("{:?}", first), format!("{:?}", second));
    assert_eq!(first.get_compounds().len(), second.get_compounds().len());
    for (a, b) in first.get_compounds().iter().zip(second.get_compounds().iter()) {
        assert_eq!(a.description, b.description);
        assert_eq!(a.supers, b.supers);
        assert_eq!(a.fields.len(), b.fields.len());
    }
    for (a, b) in first.get_enums().iter().zip(second.get_enums().iter()) {
        assert_eq!(format!("{:?}", a), format!("{:?}", b));
    }
}
