//! The language-independent model of functions and of what their callers
//! may rely on.

use vstd::prelude::*;

verus! {

/// A named value of an enumeration.
#[derive(Debug, PartialEq, Eq)]
pub struct EnumVariant {
    pub name: String,
    pub value: i128,
}

impl EnumVariant {
    pub fn new(name: &str, value: i128) -> (r: EnumVariant)
        ensures
            r.name@ == name@,
            r.value == value,
    {
        EnumVariant { name: name.to_owned(), value }
    }
}

/// A type of the analysed program.
#[derive(Debug, PartialEq, Eq)]
pub enum TypeInfo {
    Void,
    Bool,
    /// A signed integer of the given width in bits.
    SignedInt(u32),
    /// An unsigned integer of the given width in bits.
    UnsignedInt(u32),
    /// A floating-point number of the given width in bits.
    Float(u32),
    Pointer(Box<TypeInfo>),
    Struct { name: String, size_bytes: Option<usize>, fields: Vec<(String, TypeInfo)> },
    Enum { name: String, variants: Vec<EnumVariant>, discriminant_bits: u32 },
    /// A type known by name and size only; size 0 where it is not known.
    Opaque { name: String, size_bytes: usize },
    ByteArray(usize),
    Option(Box<TypeInfo>),
    Result(Box<TypeInfo>, Box<TypeInfo>),
}

/// What a type is, apart from how it is stored.
pub ghost enum TypeView {
    Void,
    Bool,
    SignedInt(u32),
    UnsignedInt(u32),
    Float(u32),
    Pointer(Box<TypeView>),
    Struct { name: Seq<char>, size: Option<usize>, fields: Seq<(Seq<char>, TypeView)> },
    Enum { name: Seq<char>, variants: Seq<(Seq<char>, i128)>, bits: u32 },
    Opaque { name: Seq<char>, size: usize },
    ByteArray(usize),
    Option(Box<TypeView>),
    Result(Box<TypeView>, Box<TypeView>),
}

pub open spec fn variants_view(v: Seq<EnumVariant>) -> Seq<(Seq<char>, i128)> {
    Seq::new(v.len(), |i: int| (v[i].name@, v[i].value))
}

pub open spec fn type_view(t: TypeInfo) -> TypeView
    decreases t,
{
    match t {
        TypeInfo::Void => TypeView::Void,
        TypeInfo::Bool => TypeView::Bool,
        TypeInfo::SignedInt(n) => TypeView::SignedInt(n),
        TypeInfo::UnsignedInt(n) => TypeView::UnsignedInt(n),
        TypeInfo::Float(n) => TypeView::Float(n),
        TypeInfo::Pointer(p) => TypeView::Pointer(Box::new(type_view(*p))),
        TypeInfo::Struct { name, size_bytes, fields } => TypeView::Struct {
            name: name@,
            size: size_bytes,
            fields: fields_view(fields@, fields@.len()),
        },
        TypeInfo::Enum { name, variants, discriminant_bits } => TypeView::Enum {
            name: name@,
            variants: variants_view(variants@),
            bits: discriminant_bits,
        },
        TypeInfo::Opaque { name, size_bytes } => TypeView::Opaque { name: name@, size: size_bytes },
        TypeInfo::ByteArray(n) => TypeView::ByteArray(n),
        TypeInfo::Option(p) => TypeView::Option(Box::new(type_view(*p))),
        TypeInfo::Result(p, q) => TypeView::Result(
            Box::new(type_view(*p)),
            Box::new(type_view(*q)),
        ),
    }
}

/// The first `n` fields: name and type.
pub open spec fn fields_view(fields: Seq<(String, TypeInfo)>, n: nat) -> Seq<(Seq<char>, TypeView)>
    decreases fields, n,
{
    if n == 0 || n > fields.len() {
        Seq::empty()
    } else {
        fields_view(fields, (n - 1) as nat).push(
            (fields[n - 1].0@, type_view(fields[n - 1].1)),
        )
    }
}

impl View for TypeInfo {
    type V = TypeView;

    open spec fn view(&self) -> TypeView {
        type_view(*self)
    }
}

impl TypeInfo {
    /// The same type once more.
    pub fn duplicate(&self) -> (r: TypeInfo)
        ensures
            r@ == self@,
        decreases self,
    {
        match self {
            TypeInfo::Void => TypeInfo::Void,
            TypeInfo::Bool => TypeInfo::Bool,
            TypeInfo::SignedInt(n) => TypeInfo::SignedInt(*n),
            TypeInfo::UnsignedInt(n) => TypeInfo::UnsignedInt(*n),
            TypeInfo::Float(n) => TypeInfo::Float(*n),
            TypeInfo::Pointer(p) => TypeInfo::Pointer(Box::new(p.duplicate())),
            TypeInfo::Struct { name, size_bytes, fields } => {
                let mut copy: Vec<(String, TypeInfo)> = Vec::new();
                let mut i: usize = 0;
                while i < fields.len()
                    invariant
                        i <= fields@.len(),
                        copy@.len() == i,
                        fields_view(copy@, i as nat) == fields_view(fields@, i as nat),
                        decreases_to!(self => fields@),
                    decreases fields@.len() - i,
                {
                    let t = fields[i].1.duplicate();
                    let ghost before = copy@;
                    copy.push((fields[i].0.clone(), t));
                    proof {
                        lemma_fields_view_prefix(before, copy@, i as nat);
                    }
                    i += 1;
                }
                TypeInfo::Struct { name: name.clone(), size_bytes: *size_bytes, fields: copy }
            },
            TypeInfo::Enum { name, variants, discriminant_bits } => {
                let mut copy: Vec<EnumVariant> = Vec::new();
                let mut i: usize = 0;
                while i < variants.len()
                    invariant
                        i <= variants@.len(),
                        copy@.len() == i,
                        forall|k: int|
                            0 <= k < i ==> (#[trigger] copy@[k]).name@ == variants@[k].name@
                                && copy@[k].value == variants@[k].value,
                    decreases variants@.len() - i,
                {
                    copy.push(EnumVariant::new(variants[i].name.as_str(), variants[i].value));
                    i += 1;
                }
                assert(variants_view(copy@) =~= variants_view(variants@));
                TypeInfo::Enum {
                    name: name.clone(),
                    variants: copy,
                    discriminant_bits: *discriminant_bits,
                }
            },
            TypeInfo::Opaque { name, size_bytes } => TypeInfo::Opaque {
                name: name.clone(),
                size_bytes: *size_bytes,
            },
            TypeInfo::ByteArray(n) => TypeInfo::ByteArray(*n),
            TypeInfo::Option(p) => TypeInfo::Option(Box::new(p.duplicate())),
            TypeInfo::Result(p, q) => TypeInfo::Result(
                Box::new(p.duplicate()),
                Box::new(q.duplicate()),
            ),
        }
    }
}

/// The first fields do not depend on what follows them.
pub proof fn lemma_fields_view_prefix(
    a: Seq<(String, TypeInfo)>,
    b: Seq<(String, TypeInfo)>,
    n: nat,
)
    requires
        n <= a.len() <= b.len(),
        forall|i: int| 0 <= i < n ==> a[i] == b[i],
    ensures
        fields_view(a, n) == fields_view(b, n),
    decreases n,
{
    if n > 0 {
        lemma_fields_view_prefix(a, b, (n - 1) as nat);
    }
}

#[derive(Debug, Clone, Copy, PartialEq, Eq, Structural)]
pub enum Mutability {
    Readonly,
    Mutable,
    WriteOnly,
}

#[derive(Debug, Clone, Copy, PartialEq, Eq, Structural)]
pub enum Nullability {
    NonNull,
    Nullable,
}

/// What an annotation or an attribute says of a parameter or a function.
#[derive(Debug, PartialEq, Eq)]
pub enum Annotation {
    /// The callee reads a buffer of the given size.
    InReads(usize),
    /// The callee writes a buffer of the given size.
    OutWrites(usize),
    Inout,
    NoThrow,
    NoAlias,
    NoCapture,
    Dereferenceable(usize),
    Custom(String),
}

#[derive(Debug, PartialEq, Eq)]
pub struct ParamInfo {
    pub name: String,
    pub ty: TypeInfo,
    pub mutability: Mutability,
    pub nullable: Nullability,
    pub annotations: Vec<Annotation>,
}

/// What an annotation says, apart from how it is stored.
pub ghost enum AnnotationView {
    InReads(usize),
    OutWrites(usize),
    Inout,
    NoThrow,
    NoAlias,
    NoCapture,
    Dereferenceable(usize),
    Custom(Seq<char>),
}

impl View for Annotation {
    type V = AnnotationView;

    open spec fn view(&self) -> AnnotationView {
        match *self {
            Annotation::InReads(n) => AnnotationView::InReads(n),
            Annotation::OutWrites(n) => AnnotationView::OutWrites(n),
            Annotation::Inout => AnnotationView::Inout,
            Annotation::NoThrow => AnnotationView::NoThrow,
            Annotation::NoAlias => AnnotationView::NoAlias,
            Annotation::NoCapture => AnnotationView::NoCapture,
            Annotation::Dereferenceable(n) => AnnotationView::Dereferenceable(n),
            Annotation::Custom(s) => AnnotationView::Custom(s@),
        }
    }
}

pub open spec fn annotations_view(v: Seq<Annotation>) -> Seq<AnnotationView> {
    Seq::new(v.len(), |i: int| v[i]@)
}

/// What a parameter is, apart from how it is stored.
pub ghost struct ParamView {
    pub name: Seq<char>,
    pub ty: TypeView,
    pub mutability: Mutability,
    pub nullable: Nullability,
    pub annotations: Seq<AnnotationView>,
}

impl View for ParamInfo {
    type V = ParamView;

    open spec fn view(&self) -> ParamView {
        ParamView {
            name: self.name@,
            ty: self.ty@,
            mutability: self.mutability,
            nullable: self.nullable,
            annotations: annotations_view(self.annotations@),
        }
    }
}

pub open spec fn params_view(v: Seq<ParamInfo>) -> Seq<ParamView> {
    Seq::new(v.len(), |i: int| v[i]@)
}

#[derive(Debug, PartialEq, Eq)]
pub struct CalledFunction {
    pub name: String,
    pub mangled_name: String,
    pub has_body: bool,
}

#[derive(Debug, PartialEq, Eq)]
pub struct GlobalVarInfo {
    pub name: String,
    pub mangled_name: String,
    pub ty: TypeInfo,
    pub init_value: Option<String>,
    pub has_static_initializer: bool,
}

/// What a global variable is, apart from how it is stored.
pub ghost struct GlobalView {
    pub name: Seq<char>,
    pub mangled_name: Seq<char>,
    pub ty: TypeView,
    pub init_value: Option<Seq<char>>,
    pub has_static_initializer: bool,
}

impl View for GlobalVarInfo {
    type V = GlobalView;

    open spec fn view(&self) -> GlobalView {
        GlobalView {
            name: self.name@,
            mangled_name: self.mangled_name@,
            ty: self.ty@,
            init_value: match self.init_value {
                Some(s) => Some(s@),
                None => None,
            },
            has_static_initializer: self.has_static_initializer,
        }
    }
}

pub open spec fn globals_view(v: Seq<GlobalVarInfo>) -> Seq<GlobalView> {
    Seq::new(v.len(), |i: int| v[i]@)
}

impl GlobalVarInfo {
    /// The same variable once more.
    pub fn duplicate(&self) -> (r: GlobalVarInfo)
        ensures
            r@ == self@,
    {
        GlobalVarInfo {
            name: self.name.clone(),
            mangled_name: self.mangled_name.clone(),
            ty: self.ty.duplicate(),
            init_value: match &self.init_value {
                Some(s) => Some(s.clone()),
                None => None,
            },
            has_static_initializer: self.has_static_initializer,
        }
    }
}

#[derive(Debug, PartialEq, Eq)]
pub struct FunctionInfo {
    pub name: String,
    pub mangled_name: Option<String>,
    pub params: Vec<ParamInfo>,
    pub return_type: TypeInfo,
    pub can_throw: bool,
    pub is_virtual: bool,
    pub has_body: bool,
    pub is_system: bool,
    pub called_functions: Vec<CalledFunction>,
    pub referenced_globals: Vec<GlobalVarInfo>,
    pub annotations: Vec<Annotation>,
}

/// What a function is, apart from how it is stored.
pub ghost struct FunctionView {
    pub name: Seq<char>,
    pub mangled_name: Option<Seq<char>>,
    pub params: Seq<ParamView>,
    pub return_type: TypeView,
    pub can_throw: bool,
    pub is_virtual: bool,
    pub has_body: bool,
    pub is_system: bool,
    pub called_functions: Seq<CalledFunction>,
    pub referenced_globals: Seq<GlobalView>,
    pub annotations: Seq<AnnotationView>,
}

impl View for FunctionInfo {
    type V = FunctionView;

    open spec fn view(&self) -> FunctionView {
        FunctionView {
            name: self.name@,
            mangled_name: match self.mangled_name {
                Some(s) => Some(s@),
                None => None,
            },
            params: params_view(self.params@),
            return_type: self.return_type@,
            can_throw: self.can_throw,
            is_virtual: self.is_virtual,
            has_body: self.has_body,
            is_system: self.is_system,
            called_functions: self.called_functions@,
            referenced_globals: globals_view(self.referenced_globals@),
            annotations: annotations_view(self.annotations@),
        }
    }
}

pub open spec fn functions_view(v: Seq<FunctionInfo>) -> Seq<FunctionView> {
    Seq::new(v.len(), |i: int| v[i]@)
}

/// How a parameter is set up in a specification.
#[derive(Debug, Clone, Copy, PartialEq, Eq, Structural)]
pub enum AllocType {
    FreshVar,
    AllocReadonly,
    AllocMutable,
}

#[derive(Debug, PartialEq, Eq)]
pub struct ParamConstraint {
    pub name: String,
    pub alloc_type: AllocType,
    pub saw_type: String,
    pub preconditions: Vec<String>,
    pub unchanged_after: bool,
    pub dereferenceable_size: Option<usize>,
    pub out_postcond: Option<String>,
}

#[derive(Debug, PartialEq, Eq)]
pub struct ReturnConstraint {
    pub saw_type: String,
    pub value_constraints: Vec<String>,
    /// The result is written through a hidden pointer parameter.
    pub is_sret: bool,
    pub returns_pointer: bool,
    pub sret_prestate: bool,
}

/// What a specification of one function states.
#[derive(Debug, PartialEq, Eq)]
pub struct SpecConstraint {
    pub function_name: String,
    pub mangled_name: Option<String>,
    pub params: Vec<ParamConstraint>,
    pub return_constraint: ReturnConstraint,
    pub can_throw: bool,
    pub is_virtual: bool,
    pub has_body: bool,
    pub referenced_globals: Vec<GlobalVarInfo>,
    pub postconditions: Vec<String>,
}

/// A virtual method of a class, at its place in the class's source.
#[derive(Debug, PartialEq, Eq)]
pub struct InterfaceMethod {
    pub class_name: String,
    pub method: FunctionInfo,
    pub is_pure: bool,
    pub is_override: bool,
    pub source_offset: u64,
}

/// A constructor of a class, with the fields of an object of the class:
/// name, type, and the literal that the field begins with; it is empty
/// where there is none.
#[derive(Debug, PartialEq, Eq)]
pub struct ClassConstructor {
    pub class_name: String,
    pub mangled_name: String,
    pub layout_fields: Vec<(String, TypeInfo, String)>,
}

} // verus!
