//! The layout model: a language-agnostic description of one declared type,
//! its kind (plain record or tagged union) and its ordered fields, where a
//! field's type is a recursive descriptor over primitives, fixed-size arrays,
//! dynamic sequences, options, maps and by-name references to other types.

use vstd::prelude::*;

verus! {

/// Describes one field's type. `TypeRef` edges are by name, never by
/// containment, so two declared types may reference each other without
/// forming a cyclic object graph.
#[derive(Debug)]
pub enum TypeDescriptor {
    /// A scalar with a fixed wire representation, named by its source tag
    /// (a fixed-width integer, `bool`, `String`, or the 32-byte `Pubkey`).
    Primitive(String),
    /// Exactly the given number of elements of the element type, no length
    /// prefix on the wire.
    FixedArray(Box<TypeDescriptor>, u32),
    /// A variable-length, length-prefixed list of the element type.
    Sequence(Box<TypeDescriptor>),
    /// A presence flag followed conditionally by the inner type.
    Optional(Box<TypeDescriptor>),
    /// An ordered list of key/value pairs.
    Mapping(Box<TypeDescriptor>, Box<TypeDescriptor>),
    /// A reference, by name, to another declared type.
    TypeRef(String),
}

/// One named field of a declared type.
#[derive(Debug)]
pub struct Field {
    pub name: String,
    pub ty: TypeDescriptor,
}

/// Whether a declared type is a plain record or a tagged union whose fields
/// are its variants.
#[derive(Debug, Clone, Copy, PartialEq, Eq, Structural)]
pub enum LayoutKind {
    Record,
    TaggedUnion,
}

/// One source-side type declaration inside a schema container.
#[derive(Debug)]
pub struct TypeDecl {
    pub name: String,
    pub kind: LayoutKind,
    pub fields: Vec<Field>,
}

/// The source schema: an ordered collection of type declarations, queried
/// by type name (first declaration with a given name wins).
#[derive(Debug)]
pub struct SchemaContainer {
    pub decls: Vec<TypeDecl>,
}

/// The normalized result of resolving one declared type: same shape as a
/// declaration, but validated (recognized primitives, non-empty unions) and
/// collected into a closed, duplicate-free set by `build_layouts`.
#[derive(Debug)]
pub struct Layout {
    pub name: String,
    pub kind: LayoutKind,
    pub fields: Vec<Field>,
}

/// Why layout construction rejected a schema container; each variant carries
/// the offending name.
#[derive(Debug)]
pub enum SchemaError {
    /// A referenced type name is absent from the container.
    UnresolvedReference(String),
    /// A tagged union declares zero variants.
    MalformedUnion(String),
    /// A scalar tag is not one of the recognized primitives.
    UnsupportedPrimitive(String),
}

/// Mathematical image of a `TypeDescriptor`: names become character
/// sequences, lengths become naturals.
#[verifier::ext_equal]
pub enum TypeD {
    Prim { name: Seq<char> },
    FixedArr { elem: Box<TypeD>, len: nat },
    Sequence { elem: Box<TypeD> },
    Optional { inner: Box<TypeD> },
    Mapping { key: Box<TypeD>, value: Box<TypeD> },
    Ref { name: Seq<char> },
}

/// Mathematical image of a `Field`.
#[verifier::ext_equal]
pub struct FieldV {
    pub name: Seq<char>,
    pub ty: TypeD,
}

/// Mathematical image of a `TypeDecl` or a `Layout`.
#[verifier::ext_equal]
pub struct LayoutV {
    pub name: Seq<char>,
    pub kind: LayoutKind,
    pub fields: Seq<FieldV>,
}

/// Mathematical image of a `SchemaError`.
#[verifier::ext_equal]
pub enum SchemaErrorV {
    UnresolvedReference { name: Seq<char> },
    MalformedUnion { name: Seq<char> },
    UnsupportedPrimitive { name: Seq<char> },
}

pub open spec fn td_view(t: TypeDescriptor) -> TypeD
    decreases t,
{
    match t {
        TypeDescriptor::Primitive(s) => TypeD::Prim { name: s@ },
        TypeDescriptor::FixedArray(e, n) => TypeD::FixedArr {
            elem: Box::new(td_view(*e)),
            len: n as nat,
        },
        TypeDescriptor::Sequence(e) => TypeD::Sequence { elem: Box::new(td_view(*e)) },
        TypeDescriptor::Optional(e) => TypeD::Optional { inner: Box::new(td_view(*e)) },
        TypeDescriptor::Mapping(k, v) => TypeD::Mapping {
            key: Box::new(td_view(*k)),
            value: Box::new(td_view(*v)),
        },
        TypeDescriptor::TypeRef(s) => TypeD::Ref { name: s@ },
    }
}

impl View for TypeDescriptor {
    type V = TypeD;

    open spec fn view(&self) -> TypeD {
        td_view(*self)
    }
}

impl View for Field {
    type V = FieldV;

    open spec fn view(&self) -> FieldV {
        FieldV { name: self.name@, ty: self.ty@ }
    }
}

/// The image of an ordered field list.
pub open spec fn fields_view(fs: Seq<Field>) -> Seq<FieldV> {
    fs.map_values(|f: Field| f@)
}

impl View for TypeDecl {
    type V = LayoutV;

    open spec fn view(&self) -> LayoutV {
        LayoutV { name: self.name@, kind: self.kind, fields: fields_view(self.fields@) }
    }
}

impl View for Layout {
    type V = LayoutV;

    open spec fn view(&self) -> LayoutV {
        LayoutV { name: self.name@, kind: self.kind, fields: fields_view(self.fields@) }
    }
}

/// The image of a schema container: its declarations, in order.
pub open spec fn decls_view(ds: Seq<TypeDecl>) -> Seq<LayoutV> {
    ds.map_values(|d: TypeDecl| d@)
}

impl View for SchemaContainer {
    type V = Seq<LayoutV>;

    open spec fn view(&self) -> Seq<LayoutV> {
        decls_view(self.decls@)
    }
}

/// The image of an ordered layout list.
pub open spec fn layouts_view(ls: Seq<Layout>) -> Seq<LayoutV> {
    ls.map_values(|l: Layout| l@)
}

/// The image of a list of names.
pub open spec fn names_view(ns: Seq<String>) -> Seq<Seq<char>> {
    ns.map_values(|n: String| n@)
}

impl View for SchemaError {
    type V = SchemaErrorV;

    open spec fn view(&self) -> SchemaErrorV {
        match self {
            SchemaError::UnresolvedReference(n) => SchemaErrorV::UnresolvedReference {
                name: n@,
            },
            SchemaError::MalformedUnion(n) => SchemaErrorV::MalformedUnion { name: n@ },
            SchemaError::UnsupportedPrimitive(n) => SchemaErrorV::UnsupportedPrimitive {
                name: n@,
            },
        }
    }
}

} // verus!
