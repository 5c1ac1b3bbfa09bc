//! The semantic class model: every editable type reports a class — its
//! identity, its role in a document, and its structural shape — and the
//! shape is inferred from a plain description of the type's definition.

use vstd::prelude::*;

use crate::text::str_eq;

verus! {

/// A type's role in a document.
#[derive(Clone, Copy, Debug, PartialEq, Eq, Structural)]
pub enum Role {
    /// The document container itself.
    Root,
    /// A whole document.
    Document,
    /// A block-level element.
    Block,
    /// An inline element.
    Inline,
    /// A plain attribute value.
    Attribute,
}

/// One named, typed field of a record class.
#[derive(Clone, Debug)]
pub struct Field {
    /// The field's name.
    pub name: String,
    /// The erased identity of the field's type.
    pub ty: u64,
    /// Whether the field holds the element's children.
    pub is_children: bool,
}

/// One variant of a union class.
#[derive(Clone, Debug)]
pub struct Variant {
    /// The variant's name.
    pub name: String,
    /// The erased identity of the variant's payload type.
    pub ty: u64,
}

/// Reserved per-class payload.
#[derive(Clone, Copy, Debug, PartialEq, Eq, Structural)]
pub struct Data {}

/// The structural shape of a class.
#[derive(Debug)]
pub enum Structure {
    /// A scalar with no structure of its own.
    Primitive,
    /// A unit type.
    Unit {
        /// The type's name.
        name: String,
    },
    /// A closed set of named constants.
    Enumeration {
        /// The constant names.
        variants: Vec<String>,
    },
    /// A record of named fields.
    Record {
        /// The type's name.
        name: String,
        /// The fields, in declaration order.
        fields: Vec<Field>,
    },
    /// A closed union of payload-carrying variants.
    Union {
        /// The variants, in declaration order.
        variants: Vec<Variant>,
    },
    /// A homogeneous collection.
    Collection {
        /// The item class.
        item: Box<Class>,
    },
}

/// What a type reports about itself: its identity, role and shape.
#[derive(Debug)]
pub struct Class {
    /// The erased identity of the type.
    pub id: u64,
    /// The type's role in a document.
    pub role: Role,
    /// The type's structural shape.
    pub structure: Structure,
}

/// A type whose class can be asked of a value.
pub trait DynamicSemantic {
    /// The class of this value's type.
    fn class(&self) -> Class;
}

/// A type that reports its class statically.
pub trait Semantic {
    /// The class of this type.
    fn class_of() -> Class;
}

impl Semantic for bool {
    /// Booleans are primitive attribute values.
    fn class_of() -> Class {
        Class { id: 100, role: Role::Attribute, structure: Structure::Primitive }
    }
}

impl DynamicSemantic for bool {
    fn class(&self) -> Class {
        Class { id: 100, role: Role::Attribute, structure: Structure::Primitive }
    }
}

/// The text a role is written as, if it is one.
pub open spec fn spec_parse_role(s: Seq<char>) -> Option<Role> {
    if s == "root"@ {
        Some(Role::Root)
    } else if s == "document"@ {
        Some(Role::Document)
    } else if s == "block"@ {
        Some(Role::Block)
    } else if s == "inline"@ {
        Some(Role::Inline)
    } else if s == "attribute"@ {
        Some(Role::Attribute)
    } else {
        None
    }
}

/// Reads a role from its textual name.
pub fn parse_role(s: &str) -> (r: Option<Role>)
    ensures
        r == spec_parse_role(s@),
{
    if str_eq(s, "root") {
        Some(Role::Root)
    } else if str_eq(s, "document") {
        Some(Role::Document)
    } else if str_eq(s, "block") {
        Some(Role::Block)
    } else if str_eq(s, "inline") {
        Some(Role::Inline)
    } else if str_eq(s, "attribute") {
        Some(Role::Attribute)
    } else {
        None
    }
}

/// A literal inside an attribute's meta item.
#[derive(Clone, Debug)]
pub enum MetaLit {
    /// A string literal.
    Str(String),
    /// Any other literal; ignored.
    OtherLit,
}

/// One meta item inside an attribute list.
#[derive(Clone, Debug)]
pub enum MetaItem {
    /// A bare word, like `children`.
    Word(String),
    /// A `name = literal` pair, like `role = "block"`.
    NameValue(String, MetaLit),
    /// Anything else; ignored.
    OtherMeta,
}

/// One attribute of a definition: its path and its meta items.
#[derive(Clone, Debug)]
pub struct Attr {
    /// The attribute's path.
    pub path: String,
    /// The meta items inside the attribute.
    pub items: Vec<MetaItem>,
}

/// The meta items of an attribute, when it is a `semantic` attribute.
pub fn get_semantic_meta_items<'a>(attr: &'a Attr) -> (r: Option<&'a Vec<MetaItem>>)
    ensures
        attr.path@ == "semantic"@ ==> r == Some(&attr.items),
        attr.path@ != "semantic"@ ==> r is None,
{
    if str_eq(attr.path.as_str(), "semantic") {
        Some(&attr.items)
    } else {
        None
    }
}

/// The string inside a literal, when it is a string literal.
pub fn get_lit_str<'a>(lit: &'a MetaLit) -> (r: Result<&'a String, ()>)
    ensures
        match lit {
            MetaLit::Str(s) => r == Ok::<&'a String, ()>(s),
            MetaLit::OtherLit => r is Err,
        },
{
    match lit {
        MetaLit::Str(s) => Ok(s),
        MetaLit::OtherLit => Err(()),
    }
}

/// What one meta item does to the role being collected: a parseable
/// `role = "..."` pair replaces it; everything else leaves it alone.
pub open spec fn spec_role_step(acc: Option<Role>, item: MetaItem) -> Option<Role> {
    match item {
        MetaItem::NameValue(k, MetaLit::Str(v)) => if k@ == "role"@ && spec_parse_role(v@) is Some {
            spec_parse_role(v@)
        } else {
            acc
        },
        _ => acc,
    }
}

/// The role after folding one attribute's meta items, left to right.
pub open spec fn spec_role_of_items(items: Seq<MetaItem>, acc: Option<Role>) -> Option<Role>
    decreases items.len(),
{
    if items.len() == 0 {
        acc
    } else {
        spec_role_of_items(items.skip(1), spec_role_step(acc, items[0]))
    }
}

/// The role after folding every `semantic` attribute, left to right.
pub open spec fn spec_role_of_attrs(attrs: Seq<Attr>, acc: Option<Role>) -> Option<Role>
    decreases attrs.len(),
{
    if attrs.len() == 0 {
        acc
    } else {
        let next = if attrs[0].path@ == "semantic"@ {
            spec_role_of_items(attrs[0].items@, acc)
        } else {
            acc
        };
        spec_role_of_attrs(attrs.skip(1), next)
    }
}

/// Whether every `role = ...` string in the attributes names a role.
pub open spec fn attr_roles_ok(a: Attr) -> bool {
    a.path@ == "semantic"@ ==> forall|j: int|
        0 <= j < a.items@.len() ==> match #[trigger] a.items@[j] {
            MetaItem::NameValue(k, MetaLit::Str(v)) => k@ == "role"@ ==> spec_parse_role(
                v@,
            ) is Some,
            _ => true,
        }
}

/// The role collected off a definition's attributes.
#[derive(Clone, Debug)]
pub struct Attributes {
    /// The role named by the last `role = "..."` item, if any.
    pub role: Option<Role>,
}

impl Attributes {
    /// No role collected yet.
    pub fn new() -> (r: Attributes)
        ensures
            r.role is None,
    {
        Attributes { role: None }
    }

    /// Folds the `semantic` attributes into the collected role: the last
    /// `role = "..."` item wins.  A string that names no role is the
    /// caller's mistake and is left out by precondition.
    pub fn set_from_attrs(&mut self, attrs: &Vec<Attr>)
        requires
            forall|i: int| 0 <= i < attrs@.len() ==> attr_roles_ok(#[trigger] attrs@[i]),
        ensures
            final(self).role == spec_role_of_attrs(attrs@, old(self).role),
    {
        let ghost acc0 = self.role;
        proof {
            assert(attrs@.skip(0) =~= attrs@);
        }
        let mut i: usize = 0;
        while i < attrs.len()
            invariant
                i <= attrs@.len(),
                forall|t: int| 0 <= t < attrs@.len() ==> attr_roles_ok(#[trigger] attrs@[t]),
                spec_role_of_attrs(attrs@.skip(i as int), self.role) == spec_role_of_attrs(
                    attrs@,
                    acc0,
                ),
            decreases attrs@.len() - i,
        {
            let ghost before = self.role;
            match get_semantic_meta_items(&attrs[i]) {
                None => {},
                Some(items) => {
                    proof {
                        assert(items@.skip(0) =~= items@);
                    }
                    let mut j: usize = 0;
                    while j < items.len()
                        invariant
                            j <= items@.len(),
                            items == &attrs@[i as int].items,
                            i < attrs@.len(),
                            forall|t: int|
                                0 <= t < attrs@.len() ==> attr_roles_ok(#[trigger] attrs@[t]),
                            attrs@[i as int].path@ == "semantic"@,
                            spec_role_of_items(items@.skip(j as int), self.role)
                                == spec_role_of_items(items@, before),
                        decreases items@.len() - j,
                    {
                        let ghost jj = j as int;
                        match &items[j] {
                            MetaItem::NameValue(k, lit) => {
                                if str_eq(k.as_str(), "role") {
                                    match get_lit_str(lit) {
                                        Err(()) => {},
                                        Ok(v) => {
                                            match parse_role(v.as_str()) {
                                                Some(role) => {
                                                    self.role = Some(role);
                                                },
                                                None => {
                                                    proof {
                                                        assert(attr_roles_ok(attrs@[i as int]));
                                                        assert(false);
                                                    }
                                                },
                                            }
                                        },
                                    }
                                }
                            },
                            _ => {},
                        }
                        j = j + 1;
                        proof {
                            assert(items@.skip(jj).skip(1) =~= items@.skip(jj + 1));
                        }
                    }
                    proof {
                        assert(items@.skip(items@.len() as int) =~= Seq::<MetaItem>::empty());
                    }
                },
            }
            i = i + 1;
            proof {
                assert(attrs@.skip(i - 1).skip(1) =~= attrs@.skip(i as int));
                assert(attrs@.skip(i - 1)[0] == attrs@[i - 1]);
            }
        }
        proof {
            assert(attrs@.skip(attrs@.len() as int) =~= Seq::<Attr>::empty());
        }
    }
}

/// Whether some `semantic` attribute carries the bare word `children`.
pub open spec fn attr_has_children(a: Attr) -> bool {
    a.path@ == "semantic"@ && exists|j: int|
        0 <= j < a.items@.len() && ((#[trigger] a.items@[j]) matches MetaItem::Word(w) && w@
            == "children"@)
}

/// Whether any attribute in the list marks the children field.
pub open spec fn has_children_in(attrs: Seq<Attr>) -> bool {
    exists|i: int| 0 <= i < attrs.len() && attr_has_children(#[trigger] attrs[i])
}

/// The attributes collected off one field: its name, its type, and
/// whether it holds the children.
#[derive(Clone, Debug)]
pub struct FieldAttributes {
    /// The field's name.
    pub ident: String,
    /// The erased identity of the field's type.
    pub ty: u64,
    /// Whether the field holds the element's children.
    pub is_children: bool,
}

impl FieldAttributes {
    /// A field not yet marked as the children.
    pub fn new(ident: String, ty: u64) -> (r: FieldAttributes)
        ensures
            r.ident@ == ident@,
            r.ty == ty,
            !r.is_children,
    {
        FieldAttributes { ident, ty, is_children: false }
    }

    /// Marks the field as the children exactly when some `semantic`
    /// attribute carries the bare word `children`.
    pub fn set_from_attrs(&mut self, attrs: &Vec<Attr>)
        ensures
            final(self).ident@ == old(self).ident@,
            final(self).ty == old(self).ty,
            final(self).is_children == (old(self).is_children || has_children_in(attrs@)),
    {
        let mut i: usize = 0;
        while i < attrs.len()
            invariant
                i <= attrs@.len(),
                self.ident@ == old(self).ident@,
                self.ty == old(self).ty,
                self.is_children == (old(self).is_children || exists|t: int|
                    0 <= t < i && attr_has_children(#[trigger] attrs@[t])),
            decreases attrs@.len() - i,
        {
            let ghost before = self.is_children;
            match get_semantic_meta_items(&attrs[i]) {
                None => {},
                Some(items) => {
                    let mut j: usize = 0;
                    while j < items.len()
                        invariant
                            j <= items@.len(),
                            items == &attrs@[i as int].items,
                            i < attrs@.len(),
                            attrs@[i as int].path@ == "semantic"@,
                            self.ident@ == old(self).ident@,
                            self.ty == old(self).ty,
                            self.is_children == (before || exists|t: int|
                                0 <= t < j && ((#[trigger] items@[t]) matches MetaItem::Word(w)
                                    && w@ == "children"@)),
                        decreases items@.len() - j,
                    {
                        match &items[j] {
                            MetaItem::Word(w) => {
                                if str_eq(w.as_str(), "children") {
                                    self.is_children = true;
                                }
                            },
                            _ => {},
                        }
                        j = j + 1;
                    }
                    proof {
                        if self.is_children && !before {
                            assert(attr_has_children(attrs@[i as int]));
                        }
                        if attr_has_children(attrs@[i as int]) {
                            let w = choose|t: int|
                                0 <= t < items@.len() && ((#[trigger] items@[t])
                                    matches MetaItem::Word(w) && w@ == "children"@);
                            assert(self.is_children);
                        }
                    }
                },
            }
            i = i + 1;
        }
        proof {
            if !(old(self).is_children) && self.is_children {
                assert(has_children_in(attrs@));
            }
            if has_children_in(attrs@) {
                let t = choose|t: int|
                    0 <= t < attrs@.len() && attr_has_children(#[trigger] attrs@[t]);
                assert(self.is_children);
            }
        }
    }
}

/// The attributes collected off one union variant: its name and the
/// identity of its single payload type.
#[derive(Clone, Debug)]
pub struct VariantAttributes {
    /// The variant's name.
    pub ident: String,
    /// The erased identity of the payload type.
    pub ty: u64,
}


/// The fields of a struct definition: the unit form, or a listed form.
#[derive(Clone, Debug)]
pub enum FieldsShape {
    /// A unit struct, with no field list at all.
    Unit,
    /// A struct with a field list, named or not.
    Listed(Vec<ShapeField>),
}

/// One field of a described type: its name when it has one, its type's
/// erased identity, and its attributes.
#[derive(Clone, Debug)]
pub struct ShapeField {
    /// The field's name, absent for tuple fields.
    pub name: Option<String>,
    /// The erased identity of the field's type.
    pub ty: u64,
    /// The field's attributes.
    pub attrs: Vec<Attr>,
}

/// The fields of one enum variant.
#[derive(Clone, Debug)]
pub enum VariantFields {
    /// A bare variant.
    Unit,
    /// A tuple variant, with its fields' type identities.
    Unnamed(Vec<u64>),
    /// A struct variant.
    Named,
}

/// One variant of a described enum.
#[derive(Clone, Debug)]
pub struct ShapeVariant {
    /// The variant's name.
    pub name: String,
    /// The variant's fields.
    pub fields: VariantFields,
}

/// A plain description of a type definition, as far as shape inference
/// reads it.
#[derive(Clone, Debug)]
pub enum TypeShape {
    /// A struct definition.
    Struct {
        /// The type's name.
        name: String,
        /// Its fields.
        fields: FieldsShape,
    },
    /// An enum definition.
    Enum {
        /// The type's name.
        name: String,
        /// Its variants.
        variants: Vec<ShapeVariant>,
    },
    /// Anything else; no structure can be inferred from it.
    Other,
}

/// Whether a variant can stand in a union: one unnamed payload field.
pub open spec fn spec_is_union_variant(v: ShapeVariant) -> bool {
    v.fields matches VariantFields::Unnamed(tys) && tys@.len() == 1
}

/// Whether a variant can stand in an enumeration: no fields at all.
pub open spec fn spec_is_enumeration_variant(v: ShapeVariant) -> bool {
    v.fields is Unit
}

/// Tests whether a variant can stand in a union.
pub fn is_union_variant(v: &ShapeVariant) -> (r: bool)
    ensures
        r == spec_is_union_variant(*v),
{
    match &v.fields {
        VariantFields::Unnamed(tys) => tys.len() == 1,
        _ => false,
    }
}

/// Tests whether a variant can stand in an enumeration.
pub fn is_enumeration_variant(v: &ShapeVariant) -> (r: bool)
    ensures
        r == spec_is_enumeration_variant(*v),
{
    match &v.fields {
        VariantFields::Unit => true,
        _ => false,
    }
}

/// The named fields of a field list, in order; tuple fields are passed
/// over.
pub open spec fn spec_named_fields(s: Seq<ShapeField>) -> Seq<ShapeField>
    decreases s.len(),
{
    if s.len() == 0 {
        Seq::empty()
    } else if s[0].name is Some {
        seq![s[0]] + spec_named_fields(s.skip(1))
    } else {
        spec_named_fields(s.skip(1))
    }
}

/// Taking named fields distributes over concatenation.
pub proof fn lemma_named_fields_concat(a: Seq<ShapeField>, b: Seq<ShapeField>)
    ensures
        spec_named_fields(a + b) =~= spec_named_fields(a) + spec_named_fields(b),
    decreases a.len(),
{
    if a.len() == 0 {
        assert(a + b =~= b);
    } else {
        assert((a + b)[0] == a[0]);
        assert((a + b).skip(1) =~= a.skip(1) + b);
        lemma_named_fields_concat(a.skip(1), b);
        if a[0].name is Some {
            assert(seq![a[0]] + (spec_named_fields(a.skip(1)) + spec_named_fields(b)) =~= (
            seq![a[0]] + spec_named_fields(a.skip(1))) + spec_named_fields(b));
        }
    }
}

/// Whether `out` carries exactly the named fields of `named`: same
/// order, names and types verbatim, and the children mark set exactly
/// where the attributes ask for it.
pub open spec fn fields_match(out: Seq<Field>, named: Seq<ShapeField>) -> bool {
    &&& out.len() == named.len()
    &&& forall|k: int|
        0 <= k < named.len() ==> {
            &&& (#[trigger] out[k]).name@ == named[k].name->0@
            &&& out[k].ty == named[k].ty
            &&& out[k].is_children == has_children_in(named[k].attrs@)
        }
}

/// Whether `out` carries exactly the union variants of `vs`: same order,
/// names verbatim, each with its single payload type.
pub open spec fn variants_match(out: Seq<Variant>, vs: Seq<ShapeVariant>) -> bool {
    &&& out.len() == vs.len()
    &&& forall|k: int|
        0 <= k < vs.len() ==> {
            &&& (#[trigger] out[k]).name@ == vs[k].name@
            &&& out[k].ty == vs[k].fields->Unnamed_0@[0]
        }
}

/// The attributes of every named field of a list, in order.
pub fn build_field_attributes(fields: &Vec<ShapeField>) -> (r: Vec<FieldAttributes>)
    ensures
        ({
            let named = spec_named_fields(fields@);
            &&& r@.len() == named.len()
            &&& forall|k: int|
                0 <= k < named.len() ==> {
                    &&& (#[trigger] r@[k]).ident@ == named[k].name->0@
                    &&& r@[k].ty == named[k].ty
                    &&& r@[k].is_children == has_children_in(named[k].attrs@)
                }
        }),
{
    let mut r: Vec<FieldAttributes> = Vec::new();
    let mut i: usize = 0;
    proof {
        assert(fields@.take(0) =~= Seq::<ShapeField>::empty());
    }
    while i < fields.len()
        invariant
            i <= fields@.len(),
            ({
                let named = spec_named_fields(fields@.take(i as int));
                &&& r@.len() == named.len()
                &&& forall|k: int|
                    0 <= k < named.len() ==> {
                        &&& (#[trigger] r@[k]).ident@ == named[k].name->0@
                        &&& r@[k].ty == named[k].ty
                        &&& r@[k].is_children == has_children_in(named[k].attrs@)
                    }
            }),
        decreases fields@.len() - i,
    {
        match &fields[i].name {
            None => {},
            Some(ident) => {
                let mut fa = FieldAttributes::new(ident.clone(), fields[i].ty);
                fa.set_from_attrs(&fields[i].attrs);
                r.push(fa);
            },
        }
        i = i + 1;
        proof {
            assert(fields@.take(i as int) =~= fields@.take(i - 1) + seq![fields@[i - 1]]);
            lemma_named_fields_concat(fields@.take(i - 1), seq![fields@[i - 1]]);
            assert(seq![fields@[i - 1]].skip(1) =~= Seq::<ShapeField>::empty());
            assert(spec_named_fields(Seq::<ShapeField>::empty()) =~= Seq::<ShapeField>::empty());
            if fields@[i - 1].name is Some {
                assert(spec_named_fields(seq![fields@[i - 1]]) =~= seq![fields@[i - 1]]);
            } else {
                assert(spec_named_fields(seq![fields@[i - 1]]) =~= Seq::<ShapeField>::empty());
            }
        }
    }
    proof {
        assert(fields@.take(fields@.len() as int) =~= fields@);
    }
    r
}

/// The attributes of every variant of a union enum, in order.
pub fn enum_union_variant_attributes(variants: &Vec<ShapeVariant>) -> (r: Vec<VariantAttributes>)
    requires
        forall|k: int| 0 <= k < variants@.len() ==> spec_is_union_variant(#[trigger] variants@[k]),
    ensures
        r@.len() == variants@.len(),
        forall|k: int|
            0 <= k < variants@.len() ==> {
                &&& (#[trigger] r@[k]).ident@ == variants@[k].name@
                &&& r@[k].ty == variants@[k].fields->Unnamed_0@[0]
            },
{
    let mut r: Vec<VariantAttributes> = Vec::new();
    let mut i: usize = 0;
    while i < variants.len()
        invariant
            i <= variants@.len(),
            forall|k: int|
                0 <= k < variants@.len() ==> spec_is_union_variant(#[trigger] variants@[k]),
            r@.len() == i,
            forall|k: int|
                0 <= k < i ==> {
                    &&& (#[trigger] r@[k]).ident@ == variants@[k].name@
                    &&& r@[k].ty == variants@[k].fields->Unnamed_0@[0]
                },
        decreases variants@.len() - i,
    {
        let v = &variants[i];
        proof {
            assert(spec_is_union_variant(variants@[i as int]));
        }
        match &v.fields {
            VariantFields::Unnamed(tys) => {
                r.push(VariantAttributes { ident: v.name.clone(), ty: tys[0] });
            },
            _ => {
                proof {
                    assert(false);
                }
            },
        }
        i = i + 1;
    }
    r
}

/// Infers the structural shape of a described type: a unit struct is a
/// unit, any other struct a record of its named fields, an enum of
/// single-payload variants a union, an enum of bare variants an
/// enumeration, and nothing can be inferred from anything else.
pub open spec fn infers(shape: TypeShape, r: Option<Structure>) -> bool {
    match shape {
        TypeShape::Struct { name, fields: FieldsShape::Unit } => r is Some && (
        r->0 matches Structure::Unit { name: n } && n@ == name@),
        TypeShape::Struct { name, fields: FieldsShape::Listed(fs) } => r is Some && (
        r->0 matches Structure::Record { name: n, fields: out } && n@ == name@ && fields_match(
            out@,
            spec_named_fields(fs@),
        )),
        TypeShape::Enum { name, variants } => if forall|k: int|
            0 <= k < variants@.len() ==> spec_is_union_variant(#[trigger] variants@[k]) {
            r is Some && (r->0 matches Structure::Union { variants: out } && variants_match(
                out@,
                variants@,
            ))
        } else if forall|k: int|
            0 <= k < variants@.len() ==> spec_is_enumeration_variant(#[trigger] variants@[k]) {
            r is Some && (r->0 matches Structure::Enumeration { variants: out } && out@.len()
                == 0)
        } else {
            r is None
        },
        TypeShape::Other => r is None,
    }
}

/// Infers a described type's structure, as `infers` says.
pub fn infer_structure(shape: &TypeShape) -> (r: Option<Structure>)
    ensures
        infers(*shape, r),
{
    match shape {
        TypeShape::Struct { name, fields: FieldsShape::Unit } => Some(
            Structure::Unit { name: name.clone() },
        ),
        TypeShape::Struct { name, fields: FieldsShape::Listed(fs) } => {
            let fas = build_field_attributes(fs);
            let mut out: Vec<Field> = Vec::new();
            let mut i: usize = 0;
            while i < fas.len()
                invariant
                    i <= fas@.len(),
                    out@.len() == i,
                    forall|k: int|
                        0 <= k < i ==> {
                            &&& (#[trigger] out@[k]).name@ == fas@[k].ident@
                            &&& out@[k].ty == fas@[k].ty
                            &&& out@[k].is_children == fas@[k].is_children
                        },
                decreases fas@.len() - i,
            {
                let fa = &fas[i];
                out.push(
                    Field { name: fa.ident.clone(), ty: fa.ty, is_children: fa.is_children },
                );
                i = i + 1;
            }
            Some(Structure::Record { name: name.clone(), fields: out })
        },
        TypeShape::Enum { name: _, variants } => {
            let mut all_union = true;
            let mut i: usize = 0;
            while i < variants.len()
                invariant
                    i <= variants@.len(),
                    all_union == (forall|k: int|
                        0 <= k < i ==> spec_is_union_variant(#[trigger] variants@[k])),
                decreases variants@.len() - i,
            {
                if !is_union_variant(&variants[i]) {
                    all_union = false;
                }
                i = i + 1;
            }
            if all_union {
                let vas = enum_union_variant_attributes(variants);
                let mut out: Vec<Variant> = Vec::new();
                let mut k: usize = 0;
                while k < vas.len()
                    invariant
                        k <= vas@.len(),
                        out@.len() == k,
                        forall|t: int|
                            0 <= t < k ==> {
                                &&& (#[trigger] out@[t]).name@ == vas@[t].ident@
                                &&& out@[t].ty == vas@[t].ty
                            },
                    decreases vas@.len() - k,
                {
                    let va = &vas[k];
                    out.push(Variant { name: va.ident.clone(), ty: va.ty });
                    k = k + 1;
                }
                return Some(Structure::Union { variants: out });
            }
            let mut all_enumeration = true;
            let mut j: usize = 0;
            while j < variants.len()
                invariant
                    j <= variants@.len(),
                    all_enumeration == (forall|k: int|
                        0 <= k < j ==> spec_is_enumeration_variant(#[trigger] variants@[k])),
                decreases variants@.len() - j,
            {
                if !is_enumeration_variant(&variants[j]) {
                    all_enumeration = false;
                }
                j = j + 1;
            }
            if all_enumeration {
                Some(Structure::Enumeration { variants: Vec::new() })
            } else {
                None
            }
        },
        TypeShape::Other => None,
    }
}


/// The two facts a semantic implementation is generated from: the role
/// the attributes name and the structure the definition's shape infers.
/// A definition without a role, or whose shape infers nothing, is the
/// caller's mistake and is left out by precondition.
pub fn impl_semantic_parts(shape: &TypeShape, attrs: &Vec<Attr>) -> (r: (Role, Structure))
    requires
        forall|i: int| 0 <= i < attrs@.len() ==> attr_roles_ok(#[trigger] attrs@[i]),
        spec_role_of_attrs(attrs@, None) is Some,
        !infers(*shape, None),
    ensures
        r.0 == spec_role_of_attrs(attrs@, None)->0,
        infers(*shape, Some(r.1)),
{
    let mut attributes = Attributes::new();
    attributes.set_from_attrs(attrs);
    let role = match attributes.role {
        Some(role) => role,
        None => {
            proof {
                assert(false);
            }
            Role::Root
        },
    };
    match infer_structure(shape) {
        Some(structure) => (role, structure),
        None => {
            proof {
                assert(false);
            }
            (role, Structure::Primitive)
        },
    }
}

} // verus!
