//! Overrides that model methods of standard containers.
//!
//! A string is modelled by its size field, a vector by a ghost variable
//! that holds the element last pushed.

use vstd::prelude::*;

use crate::bitcode_overrides_functional_string::{
    StringLayout, discover_string_layout, emit_string_override, layout_view, string_layout_of,
    string_text,
};
use crate::bitcode_overrides_functional_vector::{
    element_bits, element_bits_from_mangled, emit_vector_ghost_decl, emit_vector_override,
    ghost_decl, vector_text,
};
use crate::ir_layout::IrStructDef;
use crate::text::{contains, ends, ends_with, group_append, group_views, list_has, mentions, views};

verus! {

/// The methods that are modelled.
#[derive(Debug, Clone, Copy, PartialEq, Eq, Structural)]
pub enum StlMethod {
    /// `basic_string::basic_string()`
    BasicStringCtorDefault,
    /// `basic_string::~basic_string()`
    BasicStringDtor,
    /// `basic_string::size()` and `length()`
    BasicStringSize,
    /// `basic_string::resize(size_type)`
    BasicStringResize,
    /// A view of the bytes without an argument: `data()`, `c_str()`.
    BasicStringByteViewNoArg,
    /// A view of the bytes with an index: `operator[]`, `at()`.
    BasicStringByteViewIndexArg,
    /// `basic_string::basic_string(const char*)`
    BasicStringCtorFromCStr,
    /// `basic_string::basic_string(const basic_string&)`
    BasicStringCtorCopy,
    /// `basic_string::assign(const char*)`
    BasicStringAssignCStr,
    /// `basic_string::assign(const basic_string&)`
    BasicStringAssignStr,
    /// `basic_string::operator=(const char*)`
    BasicStringOpEqCStr,
    /// `basic_string::operator=(const basic_string&)`
    BasicStringOpEqStr,
    /// `basic_string::empty()`
    BasicStringEmpty,
    /// A query that leaves the size alone: `capacity()`.
    BasicStringSizeNeutralScalarQuery,
    /// A mutator that leaves the size alone: `reserve(size_type)`.
    BasicStringSizeNeutralMutator,
    /// `vector::vector()`
    VectorCtorDefault,
    /// `vector::~vector()`
    VectorDtor,
    /// `vector::push_back(T&&)`
    VectorPushBackRvalue,
    /// `vector::back()`
    VectorBack,
}

/// Is the method one of a vector?
pub open spec fn vector_method(m: StlMethod) -> bool {
    m is VectorCtorDefault || m is VectorDtor || m is VectorPushBackRvalue || m is VectorBack
}

/// The name of a method in comments.
pub open spec fn method_text(m: StlMethod) -> Seq<char> {
    match m {
        StlMethod::BasicStringCtorDefault => "BasicStringCtorDefault"@,
        StlMethod::BasicStringDtor => "BasicStringDtor"@,
        StlMethod::BasicStringSize => "BasicStringSize"@,
        StlMethod::BasicStringResize => "BasicStringResize"@,
        StlMethod::BasicStringByteViewNoArg => "BasicStringByteViewNoArg"@,
        StlMethod::BasicStringByteViewIndexArg => "BasicStringByteViewIndexArg"@,
        StlMethod::BasicStringCtorFromCStr => "BasicStringCtorFromCStr"@,
        StlMethod::BasicStringCtorCopy => "BasicStringCtorCopy"@,
        StlMethod::BasicStringAssignCStr => "BasicStringAssignCStr"@,
        StlMethod::BasicStringAssignStr => "BasicStringAssignStr"@,
        StlMethod::BasicStringOpEqCStr => "BasicStringOpEqCStr"@,
        StlMethod::BasicStringOpEqStr => "BasicStringOpEqStr"@,
        StlMethod::BasicStringEmpty => "BasicStringEmpty"@,
        StlMethod::BasicStringSizeNeutralScalarQuery => "BasicStringSizeNeutralScalarQuery"@,
        StlMethod::BasicStringSizeNeutralMutator => "BasicStringSizeNeutralMutator"@,
        StlMethod::VectorCtorDefault => "VectorCtorDefault"@,
        StlMethod::VectorDtor => "VectorDtor"@,
        StlMethod::VectorPushBackRvalue => "VectorPushBackRvalue"@,
        StlMethod::VectorBack => "VectorBack"@,
    }
}

impl StlMethod {
    /// Is the method one of a vector?
    pub fn is_vector(self) -> (r: bool)
        ensures
            r == vector_method(self),
    {
        match self {
            StlMethod::VectorCtorDefault => true,
            StlMethod::VectorDtor => true,
            StlMethod::VectorPushBackRvalue => true,
            StlMethod::VectorBack => true,
            _ => false,
        }
    }

    /// The name of the method in comments.
    pub fn name(self) -> (r: &'static str)
        ensures
            r@ == method_text(self),
    {
        match self {
            StlMethod::BasicStringCtorDefault => "BasicStringCtorDefault",
            StlMethod::BasicStringDtor => "BasicStringDtor",
            StlMethod::BasicStringSize => "BasicStringSize",
            StlMethod::BasicStringResize => "BasicStringResize",
            StlMethod::BasicStringByteViewNoArg => "BasicStringByteViewNoArg",
            StlMethod::BasicStringByteViewIndexArg => "BasicStringByteViewIndexArg",
            StlMethod::BasicStringCtorFromCStr => "BasicStringCtorFromCStr",
            StlMethod::BasicStringCtorCopy => "BasicStringCtorCopy",
            StlMethod::BasicStringAssignCStr => "BasicStringAssignCStr",
            StlMethod::BasicStringAssignStr => "BasicStringAssignStr",
            StlMethod::BasicStringOpEqCStr => "BasicStringOpEqCStr",
            StlMethod::BasicStringOpEqStr => "BasicStringOpEqStr",
            StlMethod::BasicStringEmpty => "BasicStringEmpty",
            StlMethod::BasicStringSizeNeutralScalarQuery => "BasicStringSizeNeutralScalarQuery",
            StlMethod::BasicStringSizeNeutralMutator => "BasicStringSizeNeutralMutator",
            StlMethod::VectorCtorDefault => "VectorCtorDefault",
            StlMethod::VectorDtor => "VectorDtor",
            StlMethod::VectorPushBackRvalue => "VectorPushBackRvalue",
            StlMethod::VectorBack => "VectorBack",
        }
    }
}

/// Does the symbol belong to a string class?
pub open spec fn string_symbol(m: Seq<char>) -> bool {
    ||| mentions(m, "St7__cxx1112basic_string"@)
    ||| mentions(m, "St12basic_string"@)
    ||| mentions(m, "NSt3__112basic_string"@)
    ||| mentions(m, "?$basic_string@"@)
}

fn is_basic_string(mangled: &str) -> (r: bool)
    ensures
        r == string_symbol(mangled@),
{
    contains(mangled, "St7__cxx1112basic_string") || contains(mangled, "St12basic_string")
        || contains(mangled, "NSt3__112basic_string") || contains(mangled, "?$basic_string@")
}

/// Does the symbol belong to a vector class?
pub open spec fn vector_symbol(m: Seq<char>) -> bool {
    mentions(m, "St6vector"@) || mentions(m, "?$vector@"@)
}

fn is_vector(mangled: &str) -> (r: bool)
    ensures
        r == vector_symbol(mangled@),
{
    contains(mangled, "St6vector") || contains(mangled, "?$vector@")
}

/// The method of a string class that the end of a symbol denotes.
pub open spec fn basic_string_of(m: Seq<char>) -> Option<StlMethod> {
    if ends(m, "C1EPKc"@) || ends(m, "C2EPKc"@) || ends(m, "EC1EPKc"@) || ends(m, "EC2EPKc"@) {
        Some(StlMethod::BasicStringCtorFromCStr)
    } else if ends(m, "C1Ev"@) || ends(m, "C2Ev"@) || ends(m, "EC1Ev"@) || ends(m, "EC2Ev"@) {
        Some(StlMethod::BasicStringCtorDefault)
    } else if mentions(m, "C1ERKS"@) || mentions(m, "C2ERKS"@) || mentions(m, "EC1ERKS"@) {
        Some(StlMethod::BasicStringCtorCopy)
    } else if ends(m, "D1Ev"@) || ends(m, "D2Ev"@) || ends(m, "ED1Ev"@) || ends(m, "ED2Ev"@) {
        Some(StlMethod::BasicStringDtor)
    } else if ends(m, "4sizeEv"@) || ends(m, "E4sizeEv"@) || ends(m, "6lengthEv"@) || ends(m, "E6lengthEv"@) {
        Some(StlMethod::BasicStringSize)
    } else if ends(m, "6resizeEm"@) || ends(m, "E6resizeEm"@) || ends(m, "6resizeEj"@) || ends(m, "E6resizeEj"@) {
        Some(StlMethod::BasicStringResize)
    } else if ends(m, "4dataEv"@) || ends(m, "E4dataEv"@) || ends(m, "5c_strEv"@) || ends(m, "E5c_strEv"@) {
        Some(StlMethod::BasicStringByteViewNoArg)
    } else if ends(m, "ixEm"@) || ends(m, "EixEm"@) || ends(m, "ixEj"@) || ends(m, "EixEj"@) || ends(m, "2atEm"@) || ends(m, "E2atEm"@) || ends(m, "2atEj"@) || ends(m, "E2atEj"@) {
        Some(StlMethod::BasicStringByteViewIndexArg)
    } else if ends(m, "6assignEPKc"@) || ends(m, "E6assignEPKc"@) {
        Some(StlMethod::BasicStringAssignCStr)
    } else if mentions(m, "6assignERKS"@) {
        Some(StlMethod::BasicStringAssignStr)
    } else if ends(m, "aSEPKc"@) || ends(m, "EaSEPKc"@) {
        Some(StlMethod::BasicStringOpEqCStr)
    } else if mentions(m, "aSERKS"@) {
        Some(StlMethod::BasicStringOpEqStr)
    } else if ends(m, "5emptyEv"@) || ends(m, "E5emptyEv"@) {
        Some(StlMethod::BasicStringEmpty)
    } else if ends(m, "8capacityEv"@) || ends(m, "E8capacityEv"@) {
        Some(StlMethod::BasicStringSizeNeutralScalarQuery)
    } else if ends(m, "7reserveEm"@) || ends(m, "E7reserveEm"@) || ends(m, "7reserveEj"@) || ends(m, "E7reserveEj"@) {
        Some(StlMethod::BasicStringSizeNeutralMutator)
    } else {
        None
    }
}

fn classify_basic_string(m: &str) -> (r: Option<StlMethod>)
    ensures
        r == basic_string_of(m@),
{
    if ends_with(m, "C1EPKc") || ends_with(m, "C2EPKc") || ends_with(m, "EC1EPKc") || ends_with(m, "EC2EPKc") {
        Some(StlMethod::BasicStringCtorFromCStr)
    } else if ends_with(m, "C1Ev") || ends_with(m, "C2Ev") || ends_with(m, "EC1Ev") || ends_with(m, "EC2Ev") {
        Some(StlMethod::BasicStringCtorDefault)
    } else if contains(m, "C1ERKS") || contains(m, "C2ERKS") || contains(m, "EC1ERKS") {
        Some(StlMethod::BasicStringCtorCopy)
    } else if ends_with(m, "D1Ev") || ends_with(m, "D2Ev") || ends_with(m, "ED1Ev") || ends_with(m, "ED2Ev") {
        Some(StlMethod::BasicStringDtor)
    } else if ends_with(m, "4sizeEv") || ends_with(m, "E4sizeEv") || ends_with(m, "6lengthEv") || ends_with(m, "E6lengthEv") {
        Some(StlMethod::BasicStringSize)
    } else if ends_with(m, "6resizeEm") || ends_with(m, "E6resizeEm") || ends_with(m, "6resizeEj") || ends_with(m, "E6resizeEj") {
        Some(StlMethod::BasicStringResize)
    } else if ends_with(m, "4dataEv") || ends_with(m, "E4dataEv") || ends_with(m, "5c_strEv") || ends_with(m, "E5c_strEv") {
        Some(StlMethod::BasicStringByteViewNoArg)
    } else if ends_with(m, "ixEm") || ends_with(m, "EixEm") || ends_with(m, "ixEj") || ends_with(m, "EixEj") || ends_with(m, "2atEm") || ends_with(m, "E2atEm") || ends_with(m, "2atEj") || ends_with(m, "E2atEj") {
        Some(StlMethod::BasicStringByteViewIndexArg)
    } else if ends_with(m, "6assignEPKc") || ends_with(m, "E6assignEPKc") {
        Some(StlMethod::BasicStringAssignCStr)
    } else if contains(m, "6assignERKS") {
        Some(StlMethod::BasicStringAssignStr)
    } else if ends_with(m, "aSEPKc") || ends_with(m, "EaSEPKc") {
        Some(StlMethod::BasicStringOpEqCStr)
    } else if contains(m, "aSERKS") {
        Some(StlMethod::BasicStringOpEqStr)
    } else if ends_with(m, "5emptyEv") || ends_with(m, "E5emptyEv") {
        Some(StlMethod::BasicStringEmpty)
    } else if ends_with(m, "8capacityEv") || ends_with(m, "E8capacityEv") {
        Some(StlMethod::BasicStringSizeNeutralScalarQuery)
    } else if ends_with(m, "7reserveEm") || ends_with(m, "E7reserveEm") || ends_with(m, "7reserveEj") || ends_with(m, "E7reserveEj") {
        Some(StlMethod::BasicStringSizeNeutralMutator)
    } else {
        None
    }
}

/// The method of a vector class that the end of a symbol denotes.
pub open spec fn vector_of(m: Seq<char>) -> Option<StlMethod> {
    if ends(m, "C1Ev"@) || ends(m, "C2Ev"@) || ends(m, "EC1Ev"@) || ends(m, "EC2Ev"@) {
        Some(StlMethod::VectorCtorDefault)
    } else if ends(m, "D1Ev"@) || ends(m, "D2Ev"@) || ends(m, "ED1Ev"@) || ends(m, "ED2Ev"@) {
        Some(StlMethod::VectorDtor)
    } else if ends(m, "E4backEv"@) {
        Some(StlMethod::VectorBack)
    } else if ends(m, "E9push_backEOj"@) || ends(m, "E9push_backEOi"@) || ends(m, "E9push_backEOm"@) || ends(m, "E9push_backEOl"@) {
        Some(StlMethod::VectorPushBackRvalue)
    } else {
        None
    }
}

fn classify_vector(m: &str) -> (r: Option<StlMethod>)
    ensures
        r == vector_of(m@),
{
    if ends_with(m, "C1Ev") || ends_with(m, "C2Ev") || ends_with(m, "EC1Ev") || ends_with(m, "EC2Ev") {
        Some(StlMethod::VectorCtorDefault)
    } else if ends_with(m, "D1Ev") || ends_with(m, "D2Ev") || ends_with(m, "ED1Ev") || ends_with(m, "ED2Ev") {
        Some(StlMethod::VectorDtor)
    } else if ends_with(m, "E4backEv") {
        Some(StlMethod::VectorBack)
    } else if ends_with(m, "E9push_backEOj") || ends_with(m, "E9push_backEOi") || ends_with(m, "E9push_backEOm") || ends_with(m, "E9push_backEOl") {
        Some(StlMethod::VectorPushBackRvalue)
    } else {
        None
    }
}

/// The modelled method that a symbol denotes.
pub open spec fn method_of(m: Seq<char>) -> Option<StlMethod> {
    if string_symbol(m) {
        basic_string_of(m)
    } else if vector_symbol(m) {
        vector_of(m)
    } else {
        None
    }
}

/// The modelled method that a symbol denotes.
pub fn classify(mangled: &str) -> (r: Option<StlMethod>)
    ensures
        r == method_of(mangled@),
{
    if is_basic_string(mangled) {
        classify_basic_string(mangled)
    } else if is_vector(mangled) {
        classify_vector(mangled)
    } else {
        None
    }
}

/// Does the symbol denote a modelled method?
pub fn is_stl_functional(mangled: &str) -> (r: bool)
    ensures
        r == (method_of(mangled@) is Some),
{
    classify(mangled).is_some()
}

/// The containers whose shape is known, by name.
#[derive(Debug, PartialEq, Eq)]
pub struct ContainerCatalog {
    pub names: Vec<String>,
}

impl ContainerCatalog {
    pub open spec fn knows(&self, name: Seq<char>) -> bool {
        views(self.names@).contains(name)
    }

    /// Is the shape of the container known?
    pub fn lookup(&self, name: &str) -> (r: bool)
        ensures
            r == self.knows(name@),
    {
        list_has(&self.names, name)
    }
}

/// The layouts that the models need.
#[derive(Debug, PartialEq, Eq)]
pub struct FunctionalLayouts {
    pub string: Option<StringLayout>,
}

impl Default for FunctionalLayouts {
    /// No layout is known.
    fn default() -> (r: FunctionalLayouts)
        ensures
            r.string is None,
    {
        FunctionalLayouts { string: None }
    }
}

/// The layouts found: that of a string, where the catalog knows it.
pub open spec fn layouts_of(
    struct_defs: Seq<(String, IrStructDef)>,
    catalog: &ContainerCatalog,
) -> Option<(Seq<char>, int)> {
    if catalog.knows("std::string"@) || catalog.knows("std::__cxx11::basic_string"@) {
        string_layout_of(struct_defs)
    } else {
        None
    }
}

impl FunctionalLayouts {
    /// Looks for the layouts that the models need among the structs of the
    /// bitcode. Only a container that the catalog knows is modelled.
    pub fn discover(
        struct_defs: &Vec<(String, IrStructDef)>,
        catalog: &ContainerCatalog,
    ) -> (r: FunctionalLayouts)
        ensures
            layout_view(r.string) == layouts_of(struct_defs@, catalog),
    {
        let string = if catalog.lookup("std::string") || catalog.lookup(
            "std::__cxx11::basic_string",
        ) {
            discover_string_layout(struct_defs)
        } else {
            None
        };
        FunctionalLayouts { string }
    }
}

/// The model of the method that a symbol denotes, where there is one: of a
/// vector method where the element is an integer, of a string method where
/// the layout is known.
pub open spec fn functional_text(
    symbol: Seq<char>,
    safe: Seq<char>,
    ov_name: Seq<char>,
    layouts: &FunctionalLayouts,
) -> Option<Seq<char>> {
    match method_of(symbol) {
        Some(method) => if vector_method(method) {
            match element_bits(symbol) {
                Some(bits) => Some(vector_text(method, bits, symbol, safe, ov_name)),
                None => None,
            }
        } else {
            match layouts.string {
                Some(layout) => Some(string_text(method, &layout, symbol, safe, ov_name)),
                None => None,
            }
        },
        None => None,
    }
}

/// Emits the model of the method that a symbol denotes, where there is
/// one; says whether it did.
pub fn try_emit_functional(
    out: &mut String,
    symbol: &str,
    safe: &str,
    ov_name: &str,
    layouts: &FunctionalLayouts,
) -> (r: bool)
    ensures
        match functional_text(symbol@, safe@, ov_name@, layouts) {
            Some(text) => r && final(out)@ == old(out)@ + text,
            None => !r && final(out)@ == old(out)@,
        },
{
    match classify(symbol) {
        Some(method) => if method.is_vector() {
            match element_bits_from_mangled(symbol) {
                Some(bits) => {
                    emit_vector_override(out, method, bits, symbol, safe, ov_name);
                    true
                },
                None => false,
            }
        } else {
            match &layouts.string {
                Some(layout) => {
                    emit_string_override(out, method, layout, symbol, safe, ov_name);
                    true
                },
                None => false,
            }
        },
        None => false,
    }
}

/// Does the symbol denote a vector method that is modelled?
pub open spec fn ghost_symbol(m: Seq<char>) -> bool {
    method_of(m) is Some && vector_method(method_of(m)->0) && element_bits(m) is Some
}

/// Does one of the symbols denote a vector method that is modelled? The
/// models of vector methods share a ghost variable.
pub fn needs_vector_ghost(symbols: &[&str]) -> (r: bool)
    ensures
        r == exists|i: int| 0 <= i < symbols@.len() && ghost_symbol((#[trigger] symbols@[i])@),
{
    let mut i: usize = 0;
    while i < symbols.len()
        invariant
            i <= symbols@.len(),
            forall|k: int| 0 <= k < i ==> !ghost_symbol((#[trigger] symbols@[k])@),
        decreases symbols@.len() - i,
    {
        let m = symbols[i];
        if let Some(method) = classify(m) {
            if method.is_vector() && element_bits_from_mangled(m).is_some() {
                assert(ghost_symbol(symbols@[i as int]@));
                return true;
            }
        }
        i += 1;
    }
    false
}

/// Emits the declaration of the ghost variable of the vector models.
pub fn emit_shared_ghost_decl(out: &mut String)
    ensures
        final(out)@ == old(out)@ + ghost_decl(),
{
    broadcast use {group_append, group_views};
    emit_vector_ghost_decl(out);
}

} // verus!
