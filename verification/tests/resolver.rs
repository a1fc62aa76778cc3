use nbtdoc::identifier::Identifier;
use nbtdoc::parse::ast::{
    CompoundDef, DescribeDef, EnumDef, EnumType, EnumValue, Field, FieldPath, FieldType,
    NbtDocFile, NumberArrayType, NumberPrimitiveType, PathPart, Range as DeclaredRange,
};
use nbtdoc::parse::failure::{
    decimal_string, diagnose, incomplete, position_fits, positions_fit, Expected, SyntaxFailure,
};
use nbtdoc::table::Table;
use nbtdoc::validation::arena::{Arena, Index};
use nbtdoc::validation::error::{ValidationError, ValidationErrorType};
use nbtdoc::validation::format::{
    CompoundTag, EnumItem, EnumType as ResolvedEnumType, ItemIndex, ItemType, Module, NbtValue,
    NumberArrayTag, NumberTag,
};
use nbtdoc::validation::root::{
    bound, convert_enum_type, name_of_import, name_of_part, syntax_error, NbtDocError, Registry,
    Root,
};
use nbtdoc::validation::tree::{has_duplicates, ModuleTree};
use nbtdoc::{convert_range, F32Bits, F64Bits, Range, F32_INFINITY, F32_NEG_INFINITY, F64_INFINITY, F64_NEG_INFINITY};

fn text(s: &str) -> String {
    String::from(s)
}

fn part(s: &str) -> PathPart {
    PathPart::Regular(text(s))
}

fn path(parts: &[&str]) -> Vec<PathPart> {
    parts.iter().map(|p| part(p)).collect()
}

fn id(namespace: &str, path: &str) -> Identifier {
    Identifier::new(text(namespace), text(path))
}

fn file() -> NbtDocFile {
    NbtDocFile { uses: vec![], compounds: vec![], enums: vec![], describes: vec![], mods: vec![] }
}

fn compound(description: &str, supers: Option<Vec<PathPart>>, fields: Vec<(&str, FieldType)>) -> CompoundDef {
    CompoundDef {
        description: text(description),
        supers,
        fields: fields
            .into_iter()
            .map(|(n, t)| (text(n), Field { description: format!("the field {}", n), field_type: t }))
            .collect(),
    }
}

fn bytes(description: &str, options: Vec<(&str, i8)>) -> EnumDef {
    EnumDef {
        description: text(description),
        values: EnumType::Byte(
            options
                .into_iter()
                .map(|(n, v)| (text(n), EnumValue { description: format!("the option {}", n), value: v }))
                .collect(),
        ),
    }
}

fn tree(val: NbtDocFile, children: Vec<(&str, ModuleTree)>) -> ModuleTree {
    let mut val = val;
    val.mods = children.iter().map(|(n, _)| text(n)).collect();
    let mut t = ModuleTree::new(val);
    for (n, c) in children {
        t.insert_child(text(n), c);
    }
    t
}

fn load(root: &mut Root, name: &str, t: ModuleTree) -> Result<(), NbtDocError> {
    assert!(t.is_well_formed());
    root.add_root_module(text(name), t)
}

fn failure(r: Result<(), NbtDocError>) -> ValidationError {
    match r {
        Err(NbtDocError::Validation(e)) => e,
        other => panic!("not a validation failure: {:?}", other),
    }
}

fn module_of(root: &Root, m: Index<Module>, name: &str) -> Index<Module> {
    match root.get_module(m).children.get(&text(name)) {
        Some(ItemIndex::Module(c)) => *c,
        other => panic!("{} is not a module: {:?}", name, other),
    }
}

fn compound_of(root: &Root, m: Index<Module>, name: &str) -> Index<CompoundTag> {
    match root.get_module(m).children.get(&text(name)) {
        Some(ItemIndex::Compound(c)) => *c,
        other => panic!("{} is not a compound: {:?}", name, other),
    }
}

fn enum_of(root: &Root, m: Index<Module>, name: &str) -> Index<EnumItem> {
    match root.get_module(m).children.get(&text(name)) {
        Some(ItemIndex::Enum(c)) => *c,
        other => panic!("{} is not an enum: {:?}", name, other),
    }
}

fn field_type<'a>(root: &'a Root, c: Index<CompoundTag>, name: &str) -> &'a NbtValue {
    &root.get_compound(c).fields.get(&text(name)).unwrap().nbttype
}

/// A root module `top` with the submodules `a` and `b`; `b` declares the
/// compound `Bar` and the enum `Kind`.
fn two_modules(a: NbtDocFile, top: NbtDocFile) -> ModuleTree {
    let mut b = file();
    b.compounds.push((text("Bar"), compound("a bar", None, vec![])));
    b.enums.push((text("Kind"), bytes("a kind", vec![("One", 1)])));
    tree(top, vec![("a", tree(a, vec![])), ("b", tree(b, vec![]))])
}

// Declarations without cross-references are mirrored.

#[test]
fn declarations_are_mirrored() {
    let mut inner = file();
    inner.compounds.push((
        text("Inner"),
        compound("inside", None, vec![("flag", FieldType::BooleanType), ("label", FieldType::StringType)]),
    ));
    let mut top = file();
    top.compounds.push((
        text("Outer"),
        compound(
            "outside",
            None,
            vec![(
                "numbers",
                FieldType::ListType {
                    item_type: Box::new(FieldType::NumberType(NumberPrimitiveType::Int(None))),
                    len_range: Some(DeclaredRange::High(4)),
                },
            )],
        ),
    ));
    top.enums.push((text("Level"), bytes("levels", vec![("Low", 1), ("Mid", 2), ("High", 3)])));
    let mut root = Root::new();
    load(&mut root, "top", tree(top, vec![("inner", tree(inner, vec![]))])).unwrap();

    let m = root.get_root_module("top").unwrap();
    let outer = root.get_compound(compound_of(&root, m, "Outer"));
    assert_eq!(outer.description, "outside");
    assert_eq!(outer.supers, None);
    assert_eq!(outer.fields.len(), 1);
    let numbers = outer.fields.get(&text("numbers")).unwrap();
    assert_eq!(numbers.description, "the field numbers");
    assert_eq!(
        numbers.nbttype,
        NbtValue::List {
            length_range: Some(Range(0, 4)),
            value_type: Box::new(NbtValue::Int(NumberTag { range: None })),
        }
    );
    let level = root.get_enum(enum_of(&root, m, "Level"));
    assert_eq!(level.description, "levels");
    match &level.et {
        ResolvedEnumType::Byte(options) => {
            let names: Vec<&str> = options.iter().map(|o| o.name.as_str()).collect();
            assert_eq!(names, vec!["Low", "Mid", "High"]);
            let values: Vec<i8> = options.iter().map(|o| o.value).collect();
            assert_eq!(values, vec![1, 2, 3]);
            assert_eq!(options[1].description, "the option Mid");
        },
        other => panic!("not bytes: {:?}", other),
    }
    let inner = root.get_compound(compound_of(&root, module_of(&root, m, "inner"), "Inner"));
    assert_eq!(inner.description, "inside");
    assert_eq!(inner.fields.get(&text("flag")).unwrap().nbttype, NbtValue::Boolean);
    assert_eq!(inner.fields.get(&text("label")).unwrap().nbttype, NbtValue::String);
}

#[test]
fn enum_kinds_are_kept() {
    let values = EnumType::String(vec![
        (text("A"), EnumValue { description: text("first"), value: text("a") }),
        (text("B"), EnumValue { description: text("second"), value: text("b") }),
    ]);
    match convert_enum_type(values) {
        ResolvedEnumType::String(options) => {
            assert_eq!(options.len(), 2);
            assert_eq!(options[0].value, "a");
            assert_eq!(options[1].name, "B");
            assert_eq!(options[1].description, "second");
        },
        other => panic!("not strings: {:?}", other),
    }
    let floats = EnumType::Float(vec![(
        text("Half"),
        EnumValue { description: text("one half"), value: F32Bits(0.5f32.to_bits()) },
    )]);
    match convert_enum_type(floats) {
        ResolvedEnumType::Float(options) => assert_eq!(f32::from_bits(options[0].value.0), 0.5),
        other => panic!("not floats: {:?}", other),
    }
    let mut top = file();
    top.enums.push((
        text("Long"),
        EnumDef {
            description: text("longs"),
            values: EnumType::Long(vec![(text("Big"), EnumValue { description: text("big"), value: i64::MAX })]),
        },
    ));
    let mut root = Root::new();
    load(&mut root, "top", tree(top, vec![])).unwrap();
    let m = root.get_root_module("top").unwrap();
    match &root.get_enum(enum_of(&root, m, "Long")).et {
        ResolvedEnumType::Long(options) => assert_eq!(options[0].value, i64::MAX),
        other => panic!("not longs: {:?}", other),
    }
}

// Forward references.

#[test]
fn forward_reference_to_a_later_module() {
    let mut a = file();
    a.compounds.push((
        text("Foo"),
        compound("a foo", None, vec![("bar", FieldType::NamedType(vec![PathPart::Super, part("b"), part("Bar")]))]),
    ));
    let mut root = Root::new();
    load(&mut root, "top", two_modules(a, file())).unwrap();
    let m = root.get_root_module("top").unwrap();
    let foo = compound_of(&root, module_of(&root, m, "a"), "Foo");
    let bar = compound_of(&root, module_of(&root, m, "b"), "Bar");
    assert_eq!(field_type(&root, foo, "bar"), &NbtValue::Compound(bar));
    assert_eq!(root.get_compound(bar).description, "a bar");
}

#[test]
fn forward_reference_in_one_module() {
    let mut top = file();
    top.compounds.push((
        text("First"),
        compound(
            "declared first",
            Some(path(&["Second"])),
            vec![("kind", FieldType::NamedType(path(&["Later"])))],
        ),
    ));
    top.compounds.push((text("Second"), compound("declared second", None, vec![])));
    top.enums.push((text("Later"), bytes("declared last", vec![])));
    let mut root = Root::new();
    load(&mut root, "top", tree(top, vec![])).unwrap();
    let m = root.get_root_module("top").unwrap();
    let first = compound_of(&root, m, "First");
    assert_eq!(root.get_compound(first).supers, Some(compound_of(&root, m, "Second")));
    assert_eq!(field_type(&root, first, "kind"), &NbtValue::Enum(enum_of(&root, m, "Later")));
}

#[test]
fn handles_follow_the_order_of_registration() {
    let mut a = file();
    a.compounds.push((text("InA"), compound("", None, vec![])));
    let mut top = file();
    top.compounds.push((text("One"), compound("", None, vec![])));
    top.compounds.push((text("Two"), compound("", None, vec![])));
    let mut root = Root::new();
    load(&mut root, "top", two_modules(a, top)).unwrap();
    let m = root.get_root_module("top").unwrap();
    assert_eq!(m.position(), 0);
    assert_eq!(module_of(&root, m, "a").position(), 1);
    assert_eq!(module_of(&root, m, "b").position(), 2);
    assert_eq!(compound_of(&root, m, "One").position(), 0);
    assert_eq!(compound_of(&root, m, "Two").position(), 1);
    assert_eq!(compound_of(&root, module_of(&root, m, "a"), "InA").position(), 2);
    assert_eq!(compound_of(&root, module_of(&root, m, "b"), "Bar").position(), 3);
    assert_eq!(root.get_module(module_of(&root, m, "b")).parent, Some(m));
}

// Paths.

#[test]
fn super_from_a_root_module_is_root_access() {
    let mut top = file();
    top.compounds.push((text("Foo"), compound("", Some(vec![PathPart::Super]), vec![])));
    let mut root = Root::new();
    let e = failure(load(&mut root, "top", tree(top, vec![])));
    assert_eq!(e.ety, ValidationErrorType::RootAccess);
    assert_eq!(e.module, vec![text("top")]);

    let m = root.get_root_module("top").unwrap();
    let module = vec![text("top")];
    let imports = Table::new();
    let twice = vec![PathPart::Super, PathPart::Super, part("Foo")];
    assert_eq!(
        root.get_item_path(&twice, Some(m), &imports, &module).unwrap_err().ety,
        ValidationErrorType::RootAccess
    );
    assert_eq!(
        root.get_child(&PathPart::Super, None, None, &module).unwrap_err().ety,
        ValidationErrorType::RootAccess
    );
    // `super` leads from a root module to the scope of the root modules.
    assert_eq!(root.get_child(&PathPart::Super, Some(m), None, &module).unwrap(), None);
    assert_eq!(
        root.get_item_path(&vec![PathPart::Super, part("top")], Some(m), &imports, &module).unwrap(),
        ItemIndex::Module(m)
    );
}

#[test]
fn super_in_an_import_is_super_import() {
    let mut a = file();
    a.uses.push((false, vec![part("x"), PathPart::Super]));
    let mut root = Root::new();
    let e = failure(load(&mut root, "top", two_modules(a, file())));
    assert_eq!(e.ety, ValidationErrorType::SuperImport);
    assert_eq!(e.module, vec![text("top"), text("a")]);

    let mut top = file();
    top.uses.push((true, vec![PathPart::Super]));
    let mut root = Root::new();
    let e = failure(load(&mut root, "top", tree(top, vec![])));
    assert_eq!(e.ety, ValidationErrorType::SuperImport);

    let module = vec![text("m")];
    assert_eq!(name_of_import(&path(&["a", "B"]), &module).unwrap(), "B");
    assert_eq!(name_of_import(&vec![], &module).unwrap_err().ety, ValidationErrorType::RootAccess);
    assert_eq!(
        name_of_import(&vec![part("a"), PathPart::Root], &module).unwrap_err().ety,
        ValidationErrorType::RootAccess
    );
}

#[test]
fn module_as_a_field_type_is_invalid() {
    let mut a = file();
    a.compounds.push((
        text("Foo"),
        compound("", None, vec![("b", FieldType::NamedType(vec![PathPart::Super, part("b")]))]),
    ));
    let mut root = Root::new();
    let e = failure(load(&mut root, "top", two_modules(a, file())));
    assert_eq!(
        e.ety,
        ValidationErrorType::InvalidType {
            name: text("b"),
            ex: vec![ItemType::Compound, ItemType::Enum],
            ty: ItemType::Module,
        }
    );
    assert_eq!(e.module, vec![text("top"), text("a")]);
}

#[test]
fn unknown_names_are_unresolved() {
    let mut top = file();
    top.compounds.push((text("Foo"), compound("", None, vec![("x", FieldType::NamedType(path(&["Nope"])))])));
    let mut root = Root::new();
    let e = failure(load(&mut root, "top", tree(top, vec![])));
    assert_eq!(e.ety, ValidationErrorType::UnresolvedName(text("Nope")));

    let m = root.get_root_module("top").unwrap();
    let module = vec![text("top")];
    let imports = Table::new();
    assert_eq!(
        root.get_item_path(&vec![PathPart::Root, part("elsewhere")], Some(m), &imports, &module)
            .unwrap_err()
            .ety,
        ValidationErrorType::UnresolvedName(text("elsewhere"))
    );
    assert_eq!(
        root.get_item_path(&vec![], Some(m), &imports, &module).unwrap_err().ety,
        ValidationErrorType::RootAccess
    );
    assert_eq!(
        root.get_item_path(&vec![PathPart::Root], Some(m), &imports, &module).unwrap_err().ety,
        ValidationErrorType::RootAccess
    );
    assert_eq!(name_of_part(&PathPart::Root), "root");
    assert_eq!(name_of_part(&PathPart::Super), "super");
    assert_eq!(name_of_part(&part("x")), "x");
}

#[test]
fn only_a_module_can_be_passed_through() {
    let mut top = file();
    top.compounds.push((text("Foo"), compound("", None, vec![])));
    top.enums.push((text("Kind"), bytes("", vec![])));
    let mut root = Root::new();
    load(&mut root, "top", tree(top, vec![])).unwrap();
    let m = root.get_root_module("top").unwrap();
    let module = vec![text("top")];
    let imports = Table::new();
    let e = root.get_item_path(&path(&["Foo", "bar"]), Some(m), &imports, &module).unwrap_err();
    assert_eq!(
        e.ety,
        ValidationErrorType::InvalidType { name: text("Foo"), ex: vec![ItemType::Module], ty: ItemType::Compound }
    );
    let e = root.get_item_path(&path(&["Kind", "bar"]), Some(m), &imports, &module).unwrap_err();
    assert_eq!(
        e.ety,
        ValidationErrorType::InvalidType { name: text("Kind"), ex: vec![ItemType::Module], ty: ItemType::Enum }
    );
    assert_eq!(e.module, module);
}

#[test]
fn absolute_paths_start_at_the_root_modules() {
    let mut a = file();
    a.compounds.push((
        text("Foo"),
        compound(
            "",
            None,
            vec![("bar", FieldType::NamedType(vec![PathPart::Root, part("top"), part("b"), part("Bar")]))],
        ),
    ));
    let mut root = Root::new();
    load(&mut root, "top", two_modules(a, file())).unwrap();
    let m = root.get_root_module("top").unwrap();
    let foo = compound_of(&root, module_of(&root, m, "a"), "Foo");
    let bar = compound_of(&root, module_of(&root, m, "b"), "Bar");
    assert_eq!(field_type(&root, foo, "bar"), &NbtValue::Compound(bar));
}

#[test]
fn imports_count_for_the_first_segment_only_and_after_the_children() {
    let mut a = file();
    a.uses.push((false, vec![PathPart::Super, part("b"), part("Bar")]));
    a.uses.push((false, vec![PathPart::Super, part("b")]));
    a.compounds.push((
        text("Foo"),
        compound(
            "",
            None,
            vec![
                ("imported", FieldType::NamedType(path(&["Bar"]))),
                ("through", FieldType::NamedType(path(&["b", "Kind"]))),
            ],
        ),
    ));
    let mut root = Root::new();
    load(&mut root, "top", two_modules(a, file())).unwrap();
    let m = root.get_root_module("top").unwrap();
    let a = module_of(&root, m, "a");
    let b = module_of(&root, m, "b");
    let foo = compound_of(&root, a, "Foo");
    assert_eq!(field_type(&root, foo, "imported"), &NbtValue::Compound(compound_of(&root, b, "Bar")));
    assert_eq!(field_type(&root, foo, "through"), &NbtValue::Enum(enum_of(&root, b, "Kind")));
    // A plain import is no child: the module has only what it declares.
    assert_eq!(root.get_module(a).children.len(), 1);

    let module = vec![text("top")];
    let mut imports = Table::new();
    imports.insert(text("Bar"), ItemIndex::Module(a));
    imports.insert(text("b"), ItemIndex::Compound(foo));
    // The child `b` of the module shadows the import of that name.
    assert_eq!(root.get_item_path(&path(&["b"]), Some(m), &imports, &module).unwrap(), ItemIndex::Module(b));
    // The import `Bar` counts where the module has no such child.
    assert_eq!(root.get_item_path(&path(&["Bar"]), Some(m), &imports, &module).unwrap(), ItemIndex::Module(a));
    // In the second segment the import `Bar` does not count: `b` has its own.
    assert_eq!(
        root.get_item_path(&path(&["b", "Bar"]), Some(m), &imports, &module).unwrap(),
        ItemIndex::Compound(compound_of(&root, b, "Bar"))
    );
    assert_eq!(
        root.get_item_path(&path(&["a", "Bar"]), Some(m), &imports, &module).unwrap_err().ety,
        ValidationErrorType::UnresolvedName(text("Bar"))
    );
    assert_eq!(
        root.get_child(&part("Bar"), Some(m), None, &module).unwrap_err().ety,
        ValidationErrorType::UnresolvedName(text("Bar"))
    );
    assert_eq!(root.get_child(&PathPart::Root, Some(m), Some(&imports), &module).unwrap(), None);
    assert_eq!(root.get_child(&PathPart::Super, Some(a), None, &module).unwrap(), Some(ItemIndex::Module(m)));
}

#[test]
fn supertype_must_be_a_compound() {
    let mut top = file();
    top.compounds.push((text("Foo"), compound("", Some(path(&["Kind"])), vec![])));
    top.enums.push((text("Kind"), bytes("", vec![])));
    let mut root = Root::new();
    let e = failure(load(&mut root, "top", tree(top, vec![])));
    assert_eq!(
        e.ety,
        ValidationErrorType::InvalidType { name: text("Foo"), ex: vec![ItemType::Compound], ty: ItemType::Enum }
    );
    // What was done before the failure stays done.
    let m = root.get_root_module("top").unwrap();
    assert_eq!(root.get_compounds().len(), 1);
    assert_eq!(root.get_enums().len(), 1);
    assert!(root.get_module(m).children.contains_key(&text("Foo")));
}

// Field types.

#[test]
fn low_bound_only_goes_to_the_maximum() {
    assert_eq!(convert_range(DeclaredRange::Low(5i8), i8::MIN, i8::MAX), Range(5, 127));
    assert_eq!(convert_range(DeclaredRange::High(5i8), i8::MIN, i8::MAX), Range(-128, 5));
    assert_eq!(convert_range(DeclaredRange::Single(5i8), i8::MIN, i8::MAX), Range(5, 5));
    assert_eq!(convert_range(DeclaredRange::Both(-3i8, 5), i8::MIN, i8::MAX), Range(-3, 5));
    assert_eq!(bound(Some(DeclaredRange::Low(7i16)), i16::MIN, i16::MAX), Some(Range(7, 32767)));
    assert_eq!(bound(None, i16::MIN, i16::MAX), None);

    let mut top = file();
    top.compounds.push((
        text("Numbers"),
        compound(
            "",
            None,
            vec![
                ("byte", FieldType::NumberType(NumberPrimitiveType::Byte(Some(DeclaredRange::Low(5))))),
                ("short", FieldType::NumberType(NumberPrimitiveType::Short(Some(DeclaredRange::Low(-1))))),
                ("int", FieldType::NumberType(NumberPrimitiveType::Int(Some(DeclaredRange::High(9))))),
                ("long", FieldType::NumberType(NumberPrimitiveType::Long(Some(DeclaredRange::Low(0))))),
                (
                    "float",
                    FieldType::NumberType(NumberPrimitiveType::Float(Some(DeclaredRange::Low(F32Bits(
                        1.5f32.to_bits(),
                    ))))),
                ),
                (
                    "double",
                    FieldType::NumberType(NumberPrimitiveType::Double(Some(DeclaredRange::High(F64Bits(
                        2.5f64.to_bits(),
                    ))))),
                ),
                ("free", FieldType::NumberType(NumberPrimitiveType::Long(None))),
            ],
        ),
    ));
    let mut root = Root::new();
    load(&mut root, "top", tree(top, vec![])).unwrap();
    let c = compound_of(&root, root.get_root_module("top").unwrap(), "Numbers");
    assert_eq!(field_type(&root, c, "byte"), &NbtValue::Byte(NumberTag { range: Some(Range(5, 127)) }));
    assert_eq!(field_type(&root, c, "short"), &NbtValue::Short(NumberTag { range: Some(Range(-1, 32767)) }));
    assert_eq!(field_type(&root, c, "int"), &NbtValue::Int(NumberTag { range: Some(Range(i32::MIN, 9)) }));
    assert_eq!(field_type(&root, c, "long"), &NbtValue::Long(NumberTag { range: Some(Range(0, i64::MAX)) }));
    assert_eq!(field_type(&root, c, "free"), &NbtValue::Long(NumberTag { range: None }));
    match field_type(&root, c, "float") {
        NbtValue::Float(NumberTag { range: Some(Range(low, high)) }) => {
            assert_eq!(f32::from_bits(low.0), 1.5);
            assert_eq!(f32::from_bits(high.0), f32::INFINITY);
        },
        other => panic!("not a float: {:?}", other),
    }
    match field_type(&root, c, "double") {
        NbtValue::Double(NumberTag { range: Some(Range(low, high)) }) => {
            assert_eq!(f64::from_bits(low.0), f64::NEG_INFINITY);
            assert_eq!(f64::from_bits(high.0), 2.5);
        },
        other => panic!("not a double: {:?}", other),
    }
    assert_eq!(F32_INFINITY, f32::INFINITY.to_bits());
    assert_eq!(F32_NEG_INFINITY, f32::NEG_INFINITY.to_bits());
    assert_eq!(F64_INFINITY, f64::INFINITY.to_bits());
    assert_eq!(F64_NEG_INFINITY, f64::NEG_INFINITY.to_bits());
}

#[test]
fn compound_types_are_converted_in_depth() {
    let mut top = file();
    top.enums.push((text("Kind"), bytes("", vec![])));
    top.compounds.push((text("Item"), compound("", None, vec![])));
    let root_module = {
        let mut root = Root::new();
        load(&mut root, "top", tree(top, vec![])).unwrap();
        root
    };
    let root = root_module;
    let m = root.get_root_module("top").unwrap();
    let module = vec![text("top")];
    let imports = Table::new();
    let convert = |ft: FieldType| root.convert_field_type(ft, m, &imports, &module);

    assert_eq!(
        convert(FieldType::ArrayType(NumberArrayType::Byte {
            value_range: Some(DeclaredRange::Low(3)),
            len_range: Some(DeclaredRange::Low(2)),
        }))
        .unwrap(),
        NbtValue::ByteArray(NumberArrayTag {
            length_range: Some(Range(2, i32::MAX)),
            value_range: Some(Range(3, 127)),
        })
    );
    assert_eq!(
        convert(FieldType::ArrayType(NumberArrayType::Int { value_range: None, len_range: Some(DeclaredRange::High(8)) }))
            .unwrap(),
        NbtValue::IntArray(NumberArrayTag { length_range: Some(Range(0, 8)), value_range: None })
    );
    assert_eq!(
        convert(FieldType::ArrayType(NumberArrayType::Long {
            value_range: Some(DeclaredRange::High(-1)),
            len_range: None,
        }))
        .unwrap(),
        NbtValue::LongArray(NumberArrayTag { length_range: None, value_range: Some(Range(i64::MIN, -1)) })
    );
    assert_eq!(
        convert(FieldType::OrType(vec![
            FieldType::BooleanType,
            FieldType::NamedType(path(&["Kind"])),
            FieldType::ListType { item_type: Box::new(FieldType::NamedType(path(&["Item"]))), len_range: None },
        ]))
        .unwrap(),
        NbtValue::Or(vec![
            NbtValue::Boolean,
            NbtValue::Enum(enum_of(&root, m, "Kind")),
            NbtValue::List {
                length_range: None,
                value_type: Box::new(NbtValue::Compound(compound_of(&root, m, "Item"))),
            },
        ])
    );
    assert_eq!(convert(FieldType::OrType(vec![])).unwrap(), NbtValue::Or(vec![]));
    // The first member that fails decides.
    assert_eq!(
        convert(FieldType::OrType(vec![
            FieldType::StringType,
            FieldType::NamedType(path(&["First"])),
            FieldType::NamedType(path(&["Second"])),
        ]))
        .unwrap_err()
        .ety,
        ValidationErrorType::UnresolvedName(text("First"))
    );
    assert_eq!(
        convert(FieldType::ListType { item_type: Box::new(FieldType::NamedType(vec![])), len_range: None })
            .unwrap_err()
            .ety,
        ValidationErrorType::RootAccess
    );
    // Index and identifier types are carried through.
    assert_eq!(
        convert(FieldType::IndexType {
            target: id("minecraft", "item"),
            path: vec![FieldPath::Super, FieldPath::Child(text("id"))],
        })
        .unwrap(),
        NbtValue::Index {
            target: id("minecraft", "item"),
            path: vec![FieldPath::Super, FieldPath::Child(text("id"))],
        }
    );
    assert_eq!(convert(FieldType::IdType(id("minecraft", "block"))).unwrap(), NbtValue::Id(id("minecraft", "block")));
}

#[test]
fn a_field_declared_twice_keeps_its_place_and_the_later_type() {
    let mut top = file();
    top.compounds.push((
        text("Foo"),
        compound(
            "",
            None,
            vec![("x", FieldType::BooleanType), ("y", FieldType::StringType), ("x", FieldType::StringType)],
        ),
    ));
    let mut root = Root::new();
    load(&mut root, "top", tree(top, vec![])).unwrap();
    let foo = root.get_compound(compound_of(&root, root.get_root_module("top").unwrap(), "Foo"));
    assert_eq!(foo.fields.len(), 2);
    assert_eq!(foo.fields.key_at(0), "x");
    assert_eq!(foo.fields.value_at(0).nbttype, NbtValue::String);
    assert_eq!(foo.fields.key_at(1), "y");
}

// Registries.

fn describes(top: &mut NbtDocFile, compound_name: &str, registry: Identifier, targets: Option<Vec<Identifier>>) {
    top.describes.push((path(&[compound_name]), DescribeDef { describe_type: registry, targets }));
}

#[test]
fn two_defaults_are_a_duplicate() {
    let mut top = file();
    top.compounds.push((text("A"), compound("", None, vec![])));
    top.compounds.push((text("B"), compound("", None, vec![])));
    describes(&mut top, "A", id("minecraft", "item"), None);
    describes(&mut top, "B", id("minecraft", "item"), None);
    let mut root = Root::new();
    let e = failure(load(&mut root, "top", tree(top, vec![])));
    assert_eq!(e.ety, ValidationErrorType::DuplicateDescribe { reg: id("minecraft", "item"), t: None });
    assert_eq!(e.module, vec![text("top")]);
    // The first default stays.
    let m = root.get_root_module("top").unwrap();
    let registry = root.get_registry(&id("minecraft", "item")).unwrap();
    assert_eq!(registry.default, Some(compound_of(&root, m, "A")));
}

#[test]
fn one_target_twice_is_a_duplicate() {
    let mut top = file();
    top.compounds.push((text("A"), compound("", None, vec![])));
    top.compounds.push((text("B"), compound("", None, vec![])));
    describes(&mut top, "A", id("minecraft", "item"), Some(vec![id("minecraft", "stick"), id("minecraft", "stone")]));
    describes(&mut top, "B", id("minecraft", "item"), Some(vec![id("minecraft", "dirt"), id("minecraft", "stone")]));
    let mut root = Root::new();
    let e = failure(load(&mut root, "top", tree(top, vec![])));
    assert_eq!(
        e.ety,
        ValidationErrorType::DuplicateDescribe { reg: id("minecraft", "item"), t: Some(id("minecraft", "stone")) }
    );
    // The targets before the duplicate are bound.
    let m = root.get_root_module("top").unwrap();
    let registry = root.get_registry(&id("minecraft", "item")).unwrap();
    assert_eq!(registry.targets.len(), 3);
    assert_eq!(registry.targets.get(&id("minecraft", "dirt")), Some(&compound_of(&root, m, "B")));
    assert_eq!(registry.targets.get(&id("minecraft", "stone")), Some(&compound_of(&root, m, "A")));

    let mut lone = Registry::new();
    let target = compound_of(&root, m, "A");
    let twice = vec![id("x", "a"), id("x", "b"), id("x", "a")];
    assert_eq!(
        lone.bind(&id("x", "reg"), Some(twice), target),
        Err(ValidationErrorType::DuplicateDescribe { reg: id("x", "reg"), t: Some(id("x", "a")) })
    );
    assert_eq!(lone.targets.len(), 2);
    assert_eq!(lone.bind(&id("x", "reg"), None, target), Ok(()));
    assert_eq!(
        lone.bind(&id("x", "reg"), None, target),
        Err(ValidationErrorType::DuplicateDescribe { reg: id("x", "reg"), t: None })
    );
}

#[test]
fn registries_are_shared_between_root_modules() {
    let mut first = file();
    first.compounds.push((text("Stick"), compound("a stick", None, vec![])));
    first.compounds.push((text("Any"), compound("any item", None, vec![])));
    describes(&mut first, "Stick", id("minecraft", "item"), Some(vec![id("minecraft", "stick")]));
    describes(&mut first, "Any", id("minecraft", "item"), None);
    let mut second = file();
    second.compounds.push((text("Stone"), compound("a stone", None, vec![])));
    describes(&mut second, "Stone", id("minecraft", "item"), Some(vec![id("minecraft", "stone")]));
    describes(&mut second, "Stone", id("minecraft", "block"), Some(vec![id("minecraft", "stone")]));
    let mut root = Root::new();
    load(&mut root, "first", tree(first, vec![])).unwrap();
    load(&mut root, "second", tree(second, vec![])).unwrap();

    let item = id("minecraft", "item");
    assert_eq!(root.get_regitry_item(&item, &id("minecraft", "stick")).unwrap().description, "a stick");
    assert_eq!(root.get_regitry_item(&item, &id("minecraft", "stone")).unwrap().description, "a stone");
    // A target without binding falls back to the default of its registry.
    assert_eq!(root.get_regitry_item(&item, &id("minecraft", "dirt")).unwrap().description, "any item");
    // A registry without default has nothing for such a target.
    let block = id("minecraft", "block");
    assert_eq!(root.get_regitry_item(&block, &id("minecraft", "stone")).unwrap().description, "a stone");
    assert!(root.get_regitry_item(&block, &id("minecraft", "dirt")).is_none());
    assert!(root.get_regitry_item(&id("minecraft", "entity"), &id("minecraft", "pig")).is_none());
    assert!(root.get_registry(&id("minecraft", "entity")).is_none());
    assert_eq!(root.get_registry(&item).unwrap().targets.len(), 2);
    assert!(root.get_registry(&block).unwrap().default.is_none());
    assert!(root.get_root_module("first").is_some());
    assert!(root.get_root_module("second").is_some());
    assert!(root.get_root_module("third").is_none());
    assert_eq!(root.get_modules().len(), 2);

    // The same target in the same registry from another root module.
    let mut third = file();
    third.compounds.push((text("Other"), compound("", None, vec![])));
    describes(&mut third, "Other", id("minecraft", "item"), Some(vec![id("minecraft", "stick")]));
    let e = failure(load(&mut root, "third", tree(third, vec![])));
    assert_eq!(
        e.ety,
        ValidationErrorType::DuplicateDescribe { reg: id("minecraft", "item"), t: Some(id("minecraft", "stick")) }
    );
    assert_eq!(e.module, vec![text("third")]);
}

#[test]
fn describes_needs_a_compound() {
    let mut top = file();
    top.enums.push((text("Kind"), bytes("", vec![])));
    describes(&mut top, "Kind", id("minecraft", "item"), None);
    let mut root = Root::new();
    let e = failure(load(&mut root, "top", tree(top, vec![])));
    assert_eq!(
        e.ety,
        ValidationErrorType::InvalidType { name: text("Kind"), ex: vec![ItemType::Compound], ty: ItemType::Enum }
    );
    assert!(root.get_registry(&id("minecraft", "item")).is_none());
}

// Re-exports.

#[test]
fn a_reexport_is_a_child_of_its_module() {
    // `top` re-exports `Bar` of its submodule `b`; `a` names it through `super`.
    let mut top = file();
    top.uses.push((true, path(&["b", "Bar"])));
    let mut a = file();
    a.compounds.push((
        text("Foo"),
        compound("", None, vec![("bar", FieldType::NamedType(vec![PathPart::Super, part("Bar")]))]),
    ));
    let mut deep = file();
    deep.compounds.push((
        text("Deep"),
        compound("", None, vec![("bar", FieldType::NamedType(vec![PathPart::Super, PathPart::Super, part("Bar")]))]),
    ));
    let mut b = file();
    b.compounds.push((text("Bar"), compound("a bar", None, vec![])));
    let t = tree(top, vec![("a", tree(a, vec![("deep", tree(deep, vec![]))])), ("b", tree(b, vec![]))]);
    let mut root = Root::new();
    load(&mut root, "top", t).unwrap();
    let m = root.get_root_module("top").unwrap();
    let a = module_of(&root, m, "a");
    let bar = compound_of(&root, module_of(&root, m, "b"), "Bar");
    assert_eq!(compound_of(&root, m, "Bar"), bar);
    assert_eq!(field_type(&root, compound_of(&root, a, "Foo"), "bar"), &NbtValue::Compound(bar));
    let deep = module_of(&root, a, "deep");
    assert_eq!(field_type(&root, compound_of(&root, deep, "Deep"), "bar"), &NbtValue::Compound(bar));
    // The plain name alone is looked up in the module itself, where it is not.
    let imports = Table::new();
    assert_eq!(
        root.get_item_path(&path(&["Bar"]), Some(a), &imports, &vec![text("top"), text("a")]).unwrap_err().ety,
        ValidationErrorType::UnresolvedName(text("Bar"))
    );
}

#[test]
fn a_plain_import_is_not_seen_from_below() {
    let mut top = file();
    top.uses.push((false, path(&["b", "Bar"])));
    let mut a = file();
    a.compounds.push((
        text("Foo"),
        compound("", None, vec![("bar", FieldType::NamedType(vec![PathPart::Super, part("Bar")]))]),
    ));
    let mut root = Root::new();
    let e = failure(load(&mut root, "top", two_modules(a, top)));
    assert_eq!(e.ety, ValidationErrorType::UnresolvedName(text("Bar")));
    assert_eq!(e.module, vec![text("top"), text("a")]);
}

#[test]
fn a_module_cannot_be_reexported() {
    // A module that re-exports its own submodule: the re-export fails before it binds.
    let mut top = file();
    top.uses.push((true, path(&["b"])));
    let t = two_modules(file(), top);
    assert!(!t.is_well_formed());
    let mut root = Root::new();
    let e = failure(root.add_root_module(text("top"), t));
    assert_eq!(
        e.ety,
        ValidationErrorType::InvalidType {
            name: text("b"),
            ex: vec![ItemType::Compound, ItemType::Enum],
            ty: ItemType::Module,
        }
    );
    assert_eq!(e.module, vec![text("top")]);
    let m = root.get_root_module("top").unwrap();
    assert_eq!(root.get_module(m).children.len(), 2);

    let mut a = file();
    a.uses.push((true, vec![PathPart::Super, part("b")]));
    let mut root = Root::new();
    let e = failure(load(&mut root, "top", two_modules(a, file())));
    assert_eq!(
        e.ety,
        ValidationErrorType::InvalidType {
            name: text("b"),
            ex: vec![ItemType::Compound, ItemType::Enum],
            ty: ItemType::Module,
        }
    );
    assert_eq!(e.module, vec![text("top"), text("a")]);
    let m = root.get_root_module("top").unwrap();
    assert!(!root.get_module(module_of(&root, m, "a")).children.contains_key(&text("b")));
}

#[test]
fn a_name_declared_twice_with_one_kind_denotes_the_later_slot() {
    let mut top = file();
    top.compounds.push((text("Foo"), compound("first", None, vec![("a", FieldType::BooleanType)])));
    top.compounds.push((text("Foo"), compound("second", None, vec![("b", FieldType::StringType)])));
    top.uses.push((true, path(&["Foo"])));
    top.uses.push((true, path(&["Foo"])));
    let t = tree(top, vec![]);
    assert!(!t.is_well_formed());
    let mut root = Root::new();
    assert!(matches!(root.try_add_root_module(text("top"), t), Some(Ok(()))));
    let m = root.get_root_module("top").unwrap();
    assert_eq!(root.get_compounds().len(), 2);
    let foo = compound_of(&root, m, "Foo");
    assert_eq!(foo.position(), 1);
    assert_eq!(root.get_compound(foo).description, "second");
    assert_eq!(root.get_compound(foo).fields.len(), 2);
    assert_eq!(root.get_compounds()[0].description, "");
}

#[test]
fn a_name_declared_with_two_kinds_is_not_found() {
    let mut top = file();
    top.compounds.push((text("Foo"), compound("", None, vec![])));
    top.enums.push((text("Foo"), bytes("", vec![])));
    let mut root = Root::new();
    assert!(root.try_add_root_module(text("top"), tree(top, vec![])).is_none());

    // A re-export that takes the name of a submodule.
    let mut top = file();
    top.uses.push((true, path(&["b", "Bar"])));
    let mut t = two_modules(file(), top);
    t.children[0].0 = text("Bar");
    let mut root = Root::new();
    assert!(root.try_add_root_module(text("top"), t).is_none());

    // A failure that comes first is reported.
    let mut top = file();
    top.uses.push((false, path(&["Nowhere"])));
    top.compounds.push((text("Foo"), compound("", None, vec![])));
    top.enums.push((text("Foo"), bytes("", vec![])));
    let mut root = Root::new();
    match root.try_add_root_module(text("top"), tree(top, vec![])) {
        Some(Err(NbtDocError::Validation(e))) => {
            assert_eq!(e.ety, ValidationErrorType::UnresolvedName(text("Nowhere")))
        },
        other => panic!("not a validation failure: {:?}", other),
    }
}

// Trees.

#[test]
fn names_must_not_come_twice() {
    let mut top = file();
    top.compounds.push((text("Foo"), compound("", None, vec![])));
    top.enums.push((text("Foo"), bytes("", vec![])));
    assert!(!tree(top, vec![]).is_well_formed());

    let mut top = file();
    top.compounds.push((text("a"), compound("", None, vec![])));
    assert!(!tree(top, vec![("a", tree(file(), vec![]))]).is_well_formed());

    let mut inner = file();
    inner.enums.push((text("Kind"), bytes("", vec![])));
    inner.uses.push((true, vec![PathPart::Super, part("Kind")]));
    assert!(!tree(file(), vec![("inner", tree(inner, vec![]))]).is_well_formed());

    // A plain import may share a name with a declaration, which shadows it.
    let mut top = file();
    top.compounds.push((text("Foo"), compound("", None, vec![])));
    top.uses.push((false, path(&["a", "Foo"])));
    top.uses.push((true, path(&["a", "Other"])));
    let t = tree(top, vec![("a", tree(file(), vec![]))]);
    assert!(t.is_well_formed());
    assert_eq!(t.names(), vec![text("Foo"), text("a"), text("Other")]);

    assert!(has_duplicates(&vec![text("a"), text("b"), text("a")]));
    assert!(!has_duplicates(&vec![text("a"), text("b"), text("c")]));
    assert!(!has_duplicates(&vec![]));
}

#[test]
fn a_submodule_is_kept_once() {
    let mut t = ModuleTree::new(file());
    let mut one = file();
    one.mods.push(text("first"));
    t.insert_child(text("a"), ModuleTree::new(one));
    t.insert_child(text("b"), ModuleTree::new(file()));
    let mut other = file();
    other.mods.push(text("second"));
    t.insert_child(text("a"), ModuleTree::new(other));
    assert_eq!(t.children.len(), 2);
    assert_eq!(t.children[0].0, "a");
    assert_eq!(t.children[0].1.val.mods, vec![text("second")]);
    assert_eq!(t.children[1].0, "b");
}

#[test]
fn adding_a_root_module_again_rebinds_its_name() {
    let mut first = file();
    first.compounds.push((text("Old"), compound("", None, vec![])));
    let mut second = file();
    second.compounds.push((text("New"), compound("", None, vec![])));
    let mut root = Root::new();
    load(&mut root, "top", tree(first, vec![])).unwrap();
    let old = root.get_root_module("top").unwrap();
    load(&mut root, "top", tree(second, vec![])).unwrap();
    let new = root.get_root_module("top").unwrap();
    assert!(old != new);
    assert_eq!(new.position(), 1);
    assert!(root.get_module(new).children.contains_key(&text("New")));
    assert!(root.get_module(old).children.contains_key(&text("Old")));
    assert_eq!(root.get_compounds().len(), 2);
}

// Failures.

#[test]
fn failures_keep_their_cause() {
    let missing = std::io::Error::from(std::io::ErrorKind::NotFound);
    match NbtDocError::from(missing) {
        NbtDocError::Io(e) => assert_eq!(e.kind(), std::io::ErrorKind::NotFound),
        other => panic!("not a failure to read: {:?}", other),
    }
    let cause = ValidationError::new(vec![text("top"), text("a")], ValidationErrorType::SuperImport);
    match NbtDocError::from(cause) {
        NbtDocError::Validation(e) => {
            assert_eq!(e.ety, ValidationErrorType::SuperImport);
            assert_eq!(e.module, vec![text("top"), text("a")]);
        },
        other => panic!("not a validation failure: {:?}", other),
    }
    let at = ValidationError::at(&vec![text("m")], ValidationErrorType::UnresolvedName(text("x")));
    assert_eq!(at, ValidationError::new(vec![text("m")], ValidationErrorType::UnresolvedName(text("x"))));
}

// Failures of the syntax stage.

#[test]
fn syntax_failures_become_diagnostics() {
    assert_eq!(incomplete(Some(12)), "Needs 12 more bytes of data");
    assert_eq!(incomplete(Some(0)), "Needs 0 more bytes of data");
    assert_eq!(incomplete(None), "Needs unknown number of bytes");
    assert_eq!(
        diagnose("compound", SyntaxFailure::Incomplete(Some(3))),
        Some(text("Needs 3 more bytes of data"))
    );
    match syntax_error("", SyntaxFailure::Incomplete(Some(7))) {
        Some(NbtDocError::Parse(message)) => assert_eq!(message, "Needs 7 more bytes of data"),
        other => panic!("not a parse failure: {:?}", other),
    }
    assert_eq!(decimal_string(0), "0");
    assert_eq!(decimal_string(9), "9");
    assert_eq!(decimal_string(10), "10");
    assert_eq!(decimal_string(4096), "4096");
    assert_eq!(decimal_string(usize::MAX), usize::MAX.to_string());
}

#[test]
fn a_rejected_text_is_shown_with_its_trace() {
    let source = "compound Foo {\n\tbar: baz\n}";
    // The parser wanted a `;` where the last line begins, within a field.
    let trace = vec![(25, Expected::Char(';')), (15, Expected::Context("field"))];
    let shown = diagnose(source, SyntaxFailure::Rejected(trace)).unwrap();
    assert_eq!(
        shown,
        "0: at line 3:\n}\n^\nexpected ';', found }\n\n1: at line 2, in field:\n\tbar: baz\n^\n\n"
    );
    let kind = nom::error::ErrorKind::Tag;
    let at_end = vec![(source.len(), Expected::Parser(kind))];
    match syntax_error(source, SyntaxFailure::Rejected(at_end)) {
        Some(NbtDocError::Parse(message)) => {
            assert_eq!(message, "0: at line 3, in Tag:\n}\n ^\n\n")
        },
        other => panic!("not a parse failure: {:?}", other),
    }
    assert_eq!(diagnose(source, SyntaxFailure::Rejected(vec![])), Some(String::new()));
    assert_eq!(
        diagnose("", SyntaxFailure::Rejected(vec![(0, Expected::Char('x'))])),
        Some(text("0: expected 'x', got empty input\n\n"))
    );
}

#[test]
fn a_caret_is_set_no_further_than_its_field_can_be_wide() {
    let mut source = String::from("first\n");
    for _ in 0..70000 {
        source.push('a');
    }
    let begin = 6;
    assert!(position_fits(&source, begin + 65534));
    assert!(!position_fits(&source, begin + 65535));
    assert!(position_fits(&source, 3));
    assert!(!position_fits(&source, source.len() + 1));
    let shown = diagnose(&source, SyntaxFailure::Rejected(vec![(begin + 65534, Expected::Char('b'))])).unwrap();
    assert!(shown.starts_with("0: at line 2:\naaaa"));
    assert!(shown.ends_with("^\nexpected 'b', found a\n\n"));
    assert_eq!(diagnose(&source, SyntaxFailure::Rejected(vec![(begin + 65535, Expected::Char('b'))])), None);
    assert!(syntax_error(&source, SyntaxFailure::Rejected(vec![(begin + 66000, Expected::Context("x"))]))
        .is_none());
}

#[test]
fn a_trace_of_another_text_has_no_diagnostic() {
    let beyond = vec![(0, Expected::Char('a')), (6, Expected::Char('b'))];
    assert!(positions_fit("hello!", &beyond));
    assert!(!positions_fit("hello", &beyond));
    assert_eq!(diagnose("hello", SyntaxFailure::Rejected(beyond)), None);
    // The second byte of a character that takes two is no position.
    let inside = vec![(1, Expected::Context("name"))];
    assert!(!positions_fit("\u{e9}t\u{e9}", &inside));
    assert!(syntax_error("\u{e9}t\u{e9}", SyntaxFailure::Rejected(inside)).is_none());
    assert!(positions_fit("\u{e9}t\u{e9}", &vec![(2, Expected::Context("name")), (5, Expected::Char('x'))]));
}

// The containers.

#[test]
fn table_keeps_the_order_of_first_insertion() {
    let mut t: Table<String, u32> = Table::new();
    assert_eq!(t.len(), 0);
    assert_eq!(t.get(&text("a")), None);
    t.insert(text("a"), 1);
    t.insert(text("b"), 2);
    t.insert(text("a"), 3);
    assert_eq!(t.len(), 2);
    assert_eq!(t.get(&text("a")), Some(&3));
    assert_eq!(t.get(&text("b")), Some(&2));
    assert_eq!(t.index_of(&text("b")), Some(1));
    assert_eq!(t.index_of(&text("c")), None);
    assert!(t.contains_key(&text("a")));
    assert!(!t.contains_key(&text("c")));
    assert_eq!(t.key_at(0), "a");
    assert_eq!(*t.value_at(1), 2);
    *t.get_mut(&text("b")).unwrap() += 10;
    *t.value_at_mut(0) += 1;
    assert_eq!(t.get(&text("b")), Some(&12));
    assert_eq!(t.get(&text("a")), Some(&4));
    assert!(t.get_mut(&text("c")).is_none());

    let mut ids: Table<Identifier, u8> = Table::new();
    ids.insert(id("a", "x"), 1);
    ids.insert(id("a", "y"), 2);
    ids.insert(id("b", "x"), 3);
    assert_eq!(ids.get(&id("a", "y")), Some(&2));
    assert_eq!(ids.get(&id("b", "y")), None);
    assert_eq!(ids.len(), 3);
}

#[test]
fn arena_hands_out_handles_in_order() {
    let mut arena: Arena<String> = Arena::new();
    let a = arena.push(text("a"));
    let b = arena.push(text("b"));
    assert_eq!(arena.len(), 2);
    assert_eq!(a.position(), 0);
    assert_eq!(b.position(), 1);
    assert!(a != b);
    assert_eq!(a, a.clone());
    assert_eq!(arena.get(b), "b");
    arena.get_mut(a).push('!');
    assert_eq!(arena.get(a), "a!");
    assert_eq!(arena.as_slice(), &[text("a!"), text("b")]);
}
