use semantic_editor::semantic::{
    build_field_attributes, enum_union_variant_attributes, get_lit_str, get_semantic_meta_items,
    infer_structure, is_enumeration_variant, is_union_variant, parse_role, Attr, Attributes,
    FieldAttributes, FieldsShape, MetaItem, MetaLit, Role, ShapeField, ShapeVariant, Structure,
    TypeShape, VariantFields,
};

fn semantic_attr(items: Vec<MetaItem>) -> Attr {
    Attr { path: String::from("semantic"), items }
}

fn role_attr(value: &str) -> Attr {
    semantic_attr(vec![MetaItem::NameValue(
        String::from("role"),
        MetaLit::Str(String::from(value)),
    )])
}

#[test]
fn role_names_parse_to_their_roles() {
    assert_eq!(parse_role("root"), Some(Role::Root));
    assert_eq!(parse_role("document"), Some(Role::Document));
    assert_eq!(parse_role("block"), Some(Role::Block));
    assert_eq!(parse_role("inline"), Some(Role::Inline));
    assert_eq!(parse_role("attribute"), Some(Role::Attribute));
    assert_eq!(parse_role("Block"), None);
    assert_eq!(parse_role(""), None);
}

#[test]
fn only_semantic_attributes_carry_meta_items() {
    let ours = semantic_attr(vec![MetaItem::Word(String::from("children"))]);
    assert!(get_semantic_meta_items(&ours).is_some());
    let foreign = Attr { path: String::from("derive"), items: vec![] };
    assert!(get_semantic_meta_items(&foreign).is_none());
}

#[test]
fn only_string_literals_carry_text() {
    assert_eq!(get_lit_str(&MetaLit::Str(String::from("x"))), Ok(&String::from("x")));
    assert!(get_lit_str(&MetaLit::OtherLit).is_err());
}

#[test]
fn the_last_role_attribute_wins() {
    let mut attributes = Attributes::new();
    assert!(attributes.role.is_none());
    attributes.set_from_attrs(&vec![role_attr("block"), role_attr("inline")]);
    assert_eq!(attributes.role, Some(Role::Inline));
}

#[test]
fn foreign_attributes_do_not_set_the_role() {
    let mut attributes = Attributes::new();
    let foreign = Attr {
        path: String::from("serde"),
        items: vec![MetaItem::NameValue(
            String::from("role"),
            MetaLit::Str(String::from("block")),
        )],
    };
    attributes.set_from_attrs(&vec![foreign]);
    assert!(attributes.role.is_none());
}

#[test]
fn the_children_word_marks_a_field() {
    let mut fa = FieldAttributes::new(String::from("children"), 7);
    assert!(!fa.is_children);
    fa.set_from_attrs(&vec![semantic_attr(vec![MetaItem::Word(String::from("children"))])]);
    assert!(fa.is_children);

    let mut other = FieldAttributes::new(String::from("depth"), 8);
    other.set_from_attrs(&vec![semantic_attr(vec![MetaItem::Word(String::from("depths"))])]);
    assert!(!other.is_children);
}

fn named_field(name: &str, ty: u64, attrs: Vec<Attr>) -> ShapeField {
    ShapeField { name: Some(String::from(name)), ty, attrs }
}

#[test]
fn a_unit_struct_infers_a_unit() {
    let shape = TypeShape::Struct { name: String::from("ThematicBreak"), fields: FieldsShape::Unit };
    match infer_structure(&shape) {
        Some(Structure::Unit { name }) => assert_eq!(name, "ThematicBreak"),
        other => panic!("unexpected structure: {:?}", other),
    }
}

#[test]
fn a_field_struct_infers_a_record_of_its_named_fields() {
    let shape = TypeShape::Struct {
        name: String::from("Heading"),
        fields: FieldsShape::Listed(vec![
            named_field("depth", 1, vec![]),
            named_field(
                "children",
                2,
                vec![semantic_attr(vec![MetaItem::Word(String::from("children"))])],
            ),
            ShapeField { name: None, ty: 3, attrs: vec![] },
        ]),
    };
    match infer_structure(&shape) {
        Some(Structure::Record { name, fields }) => {
            assert_eq!(name, "Heading");
            assert_eq!(fields.len(), 2);
            assert_eq!(fields[0].name, "depth");
            assert_eq!(fields[0].ty, 1);
            assert!(!fields[0].is_children);
            assert_eq!(fields[1].name, "children");
            assert!(fields[1].is_children);
        },
        other => panic!("unexpected structure: {:?}", other),
    }
}

fn union_variant(name: &str, ty: u64) -> ShapeVariant {
    ShapeVariant { name: String::from(name), fields: VariantFields::Unnamed(vec![ty]) }
}

fn unit_variant(name: &str) -> ShapeVariant {
    ShapeVariant { name: String::from(name), fields: VariantFields::Unit }
}

#[test]
fn an_enum_of_single_payload_variants_infers_a_union() {
    let shape = TypeShape::Enum {
        name: String::from("Inline"),
        variants: vec![union_variant("Text", 10), union_variant("Break", 11)],
    };
    match infer_structure(&shape) {
        Some(Structure::Union { variants }) => {
            assert_eq!(variants.len(), 2);
            assert_eq!(variants[0].name, "Text");
            assert_eq!(variants[0].ty, 10);
            assert_eq!(variants[1].name, "Break");
            assert_eq!(variants[1].ty, 11);
        },
        other => panic!("unexpected structure: {:?}", other),
    }
}

#[test]
fn an_enum_of_bare_variants_infers_an_enumeration() {
    let shape = TypeShape::Enum {
        name: String::from("AlignType"),
        variants: vec![unit_variant("Left"), unit_variant("Right")],
    };
    match infer_structure(&shape) {
        Some(Structure::Enumeration { variants }) => assert!(variants.is_empty()),
        other => panic!("unexpected structure: {:?}", other),
    }
}

#[test]
fn a_mixed_enum_infers_nothing() {
    let shape = TypeShape::Enum {
        name: String::from("Mixed"),
        variants: vec![union_variant("A", 1), unit_variant("B")],
    };
    assert!(infer_structure(&shape).is_none());
    assert!(infer_structure(&TypeShape::Other).is_none());
}

#[test]
fn variant_kind_tests_match_their_shapes() {
    assert!(is_union_variant(&union_variant("A", 1)));
    assert!(!is_union_variant(&unit_variant("B")));
    assert!(is_enumeration_variant(&unit_variant("B")));
    assert!(!is_enumeration_variant(&union_variant("A", 1)));
    let two = ShapeVariant {
        name: String::from("C"),
        fields: VariantFields::Unnamed(vec![1, 2]),
    };
    assert!(!is_union_variant(&two));
}

#[test]
fn field_and_variant_attribute_lists_keep_order() {
    let fields = vec![named_field("a", 1, vec![]), named_field("b", 2, vec![])];
    let fas = build_field_attributes(&fields);
    assert_eq!(fas.len(), 2);
    assert_eq!(fas[0].ident, "a");
    assert_eq!(fas[1].ident, "b");

    let variants = vec![union_variant("X", 5), union_variant("Y", 6)];
    let vas = enum_union_variant_attributes(&variants);
    assert_eq!(vas.len(), 2);
    assert_eq!(vas[0].ident, "X");
    assert_eq!(vas[0].ty, 5);
    assert_eq!(vas[1].ident, "Y");
    assert_eq!(vas[1].ty, 6);
}
