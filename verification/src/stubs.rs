//! The files that resolve virtual calls: stubs and virtual tables, a
//! specification for each method, and the index of the overrides.

use vstd::prelude::*;

use crate::class_groups::{class_names, group_by_class, groups_of, lemma_group_names};
use crate::constraints::{globals_view, ClassConstructor, GlobalVarInfo, GlobalView, InterfaceMethod};
use crate::havoc::{generate_havoc_spec, havoc_text, layout_fits};
use crate::havoc_params::{class_bits, fits_layout};
use crate::llvm_spec::{GeneratedFile, files_view};
use crate::overrides::{
    generate_override_index_with_vtable, group_names, havoc_file, havoc_file_name, layouts_fit,
    override_index,
};
use crate::text::{group_append, group_views, opt_view, owned, put2, same, views};
use crate::vtable_ir::{generate_llvm_ir_stubs, stubs_ir};

verus! {

/// Is the name that of a method which overrides no other?
pub open spec fn originates(methods: Seq<InterfaceMethod>, name: Seq<char>) -> bool {
    exists|i: int|
        0 <= i < methods.len() && !(#[trigger] methods[i]).is_override && methods[i].method.name@
            == name
}

/// The method as it is modelled: one that overrides a method which is not
/// among the given ones has no stub to share, and gets its own.
pub open spec fn adopted(methods: Seq<InterfaceMethod>, m: InterfaceMethod) -> InterfaceMethod {
    if m.is_override && !originates(methods, m.method.name@) {
        InterfaceMethod { is_override: false, ..m }
    } else {
        m
    }
}

/// The methods as they are modelled.
pub open spec fn adopted_all(methods: Seq<InterfaceMethod>) -> Seq<InterfaceMethod> {
    Seq::new(methods.len(), |i: int| adopted(methods, methods[i]))
}

/// Of the methods as they are modelled, each one that overrides another
/// has that other among them.
pub proof fn law_no_orphan_overrides(methods: Seq<InterfaceMethod>)
    ensures
        forall|i: int|
            0 <= i < methods.len() && (#[trigger] adopted_all(methods)[i]).is_override
                ==> originates(adopted_all(methods), adopted_all(methods)[i].method.name@),
{
    let a = adopted_all(methods);
    assert forall|i: int| 0 <= i < methods.len() && (#[trigger] a[i]).is_override implies originates(
        a,
        a[i].method.name@,
    ) by {
        let j = choose|j: int|
            0 <= j < methods.len() && !(#[trigger] methods[j]).is_override
                && methods[j].method.name@ == methods[i].method.name@;
        assert(a[j] == methods[j]);
    }
}

pub fn originating(methods: &[InterfaceMethod], name: &str) -> (r: bool)
    ensures
        r == originates(methods@, name@),
{
    let mut i: usize = 0;
    while i < methods.len()
        invariant
            i <= methods@.len(),
            forall|k: int|
                0 <= k < i ==> (#[trigger] methods@[k]).is_override || methods@[k].method.name@
                    != name@,
        decreases methods@.len() - i,
    {
        if !methods[i].is_override && same(methods[i].method.name.as_str(), name) {
            return true;
        }
        i += 1;
    }
    false
}

fn orphan_flags(methods: &[InterfaceMethod]) -> (flags: Vec<bool>)
    ensures
        flags@.len() == methods@.len(),
        forall|i: int|
            0 <= i < flags@.len() ==> #[trigger] flags@[i] == (methods@[i].is_override
                && !originates(methods@, methods@[i].method.name@)),
{
    broadcast use {group_append, group_views};
    let mut flags: Vec<bool> = Vec::new();
    let mut i: usize = 0;
    while i < methods.len()
        invariant
            i <= methods@.len(),
            flags@.len() == i,
            forall|k: int|
                0 <= k < i ==> #[trigger] flags@[k] == (methods@[k].is_override && !originates(
                    methods@,
                    methods@[k].method.name@,
                )),
        decreases methods@.len() - i,
    {
        let m = &methods[i];
        flags.push(m.is_override && !originating(methods, m.method.name.as_str()));
        i += 1;
    }
    flags
}

fn adopt(methods: Vec<InterfaceMethod>) -> (r: Vec<InterfaceMethod>)
    ensures
        r@ == adopted_all(methods@),
{
    broadcast use {group_append, group_views};
    let flags = orphan_flags(methods.as_slice());
    let ghost all = methods@;
    let mut r: Vec<InterfaceMethod> = Vec::new();
    for m in it: methods.into_iter()
        invariant
            it.seq() == all,
            flags@.len() == all.len(),
            forall|i: int|
                0 <= i < flags@.len() ==> #[trigger] flags@[i] == (all[i].is_override
                    && !originates(all, all[i].method.name@)),
            r@ == adopted_all(all).take(it.index()),
    {
        let i: usize = r.len();
        proof {
            assert(adopted_all(all).take(i + 1) =~= adopted_all(all).take(i as int).push(
                adopted(all, all[i as int]),
            ));
        }
        if flags[i] {
            r.push(InterfaceMethod { is_override: false, ..m });
        } else {
            r.push(m);
        }
    }
    assert(adopted_all(all).take(all.len() as int) =~= adopted_all(all));
    r
}

/// The layout of a class: that of its last constructor among the first
/// `n`.
pub open spec fn layout_of<'a>(constructors: Seq<ClassConstructor>, name: Seq<char>, n: int) -> Option<
    &'a ClassConstructor,
>
    decreases n,
{
    if n <= 0 || n > constructors.len() {
        None
    } else if constructors[n - 1].class_name@ == name {
        Some(&constructors[n - 1])
    } else {
        layout_of(constructors, name, n - 1)
    }
}

fn find_layout<'a>(constructors: &'a [ClassConstructor], name: &str) -> (r: Option<
    &'a ClassConstructor,
>)
    requires
        exists|names: Seq<Seq<char>>| #[trigger]
            layouts_fit(constructors@, names) && names.contains(name@),
    ensures
        r == layout_of(constructors@, name@, constructors@.len() as int),
        layout_fits(r),
{
    let mut n: usize = constructors.len();
    while n > 0
        invariant
            exists|names: Seq<Seq<char>>| #[trigger]
                layouts_fit(constructors@, names) && names.contains(name@),
            n <= constructors@.len(),
            layout_of(constructors@, name@, constructors@.len() as int) == layout_of(
                constructors@,
                name@,
                n as int,
            ),
        decreases n,
    {
        if same(constructors[n - 1].class_name.as_str(), name) {
            return Some(&constructors[n - 1]);
        }
        n -= 1;
    }
    None
}

/// The file with the specification of a method.
#[verifier::opaque]
pub open spec fn havoc_entry(
    m: InterfaceMethod,
    globals: Seq<GlobalView>,
    constructors: Seq<ClassConstructor>,
    cryptol_fn: Option<Seq<char>>,
) -> (Seq<char>, Seq<char>) {
    (
        havoc_file_name(m.class_name@, m.method.name@),
        havoc_text(
            &m,
            globals,
            layout_of(constructors, m.class_name@, constructors.len() as int),
            cryptol_fn,
        ),
    )
}

fn havoc_of(
    m: &InterfaceMethod,
    constructors: &[ClassConstructor],
    globals: &[GlobalVarInfo],
    cryptol_fn: Option<&str>,
) -> (file: GeneratedFile)
    requires
        exists|names: Seq<Seq<char>>| #[trigger]
            layouts_fit(constructors@, names) && names.contains(m.class_name@),
    ensures
        file@ == havoc_entry(*m, globals_view(globals@), constructors@, opt_view(cryptol_fn)),
{
    reveal(havoc_entry);
    let layout = find_layout(constructors, m.class_name.as_str());
    GeneratedFile {
        name: havoc_file(m),
        content: generate_havoc_spec(m, globals, layout, cryptol_fn),
    }
}

/// The files with the specifications of the methods that override no
/// other.
pub open spec fn havoc_files(
    methods: Seq<InterfaceMethod>,
    globals: Seq<GlobalView>,
    constructors: Seq<ClassConstructor>,
    cryptol_fn: Option<Seq<char>>,
) -> Seq<(Seq<char>, Seq<char>)>
    decreases methods.len(),
{
    if methods.len() == 0 {
        Seq::empty()
    } else {
        let m = methods.last();
        let rest = havoc_files(methods.drop_last(), globals, constructors, cryptol_fn);
        if m.is_override {
            rest
        } else {
            rest.push(havoc_entry(m, globals, constructors, cryptol_fn))
        }
    }
}

fn push_havoc_files(
    files: &mut Vec<GeneratedFile>,
    methods: &[InterfaceMethod],
    constructors: &[ClassConstructor],
    globals: &[GlobalVarInfo],
    cryptol_fn: Option<&str>,
)
    requires
        layouts_fit(constructors@, class_names(methods@)),
    ensures
        files_view(final(files)@) == files_view(old(files)@) + havoc_files(
            methods@,
            globals_view(globals@),
            constructors@,
            opt_view(cryptol_fn),
        ),
{
    let ghost head = files_view(files@);
    let ghost gv = globals_view(globals@);
    let ghost fv = opt_view(cryptol_fn);
    let mut i: usize = 0;
    proof {
        assert(methods@.take(0) =~= Seq::empty());
        assert(head + havoc_files(methods@.take(0), gv, constructors@, fv) =~= head);
    }
    while i < methods.len()
        invariant
            layouts_fit(constructors@, class_names(methods@)),
            gv == globals_view(globals@),
            fv == opt_view(cryptol_fn),
            i <= methods@.len(),
            files_view(files@) == head + havoc_files(
                methods@.take(i as int),
                gv,
                constructors@,
                fv,
            ),
        decreases methods@.len() - i,
    {
        proof {
            assert(methods@.take(i + 1).drop_last() =~= methods@.take(i as int));
        }
        let m = &methods[i];
        if !m.is_override {
            assert(class_names(methods@)[i as int] == m.class_name@);
            let file = havoc_of(m, constructors, globals, cryptol_fn);
            let ghost f = file@;
            let ghost before = files_view(files@);
            files.push(file);
            assert(files_view(files@) =~= before.push(f));
        }
        i += 1;
    }
    assert(methods@.take(methods@.len() as int) =~= methods@);
}

/// Every method that overrides no other has its specification.
pub proof fn law_every_method_is_specified(
    methods: Seq<InterfaceMethod>,
    globals: Seq<GlobalView>,
    constructors: Seq<ClassConstructor>,
    cryptol_fn: Option<Seq<char>>,
    i: int,
)
    requires
        0 <= i < methods.len(),
        !methods[i].is_override,
    ensures
        havoc_files(methods, globals, constructors, cryptol_fn).contains(
            havoc_entry(methods[i], globals, constructors, cryptol_fn),
        ),
    decreases methods.len(),
{
    let all = havoc_files(methods, globals, constructors, cryptol_fn);
    let rest = havoc_files(methods.drop_last(), globals, constructors, cryptol_fn);
    let e = havoc_entry(methods[i], globals, constructors, cryptol_fn);
    if i < methods.len() - 1 {
        assert(methods.drop_last()[i] == methods[i]);
        law_every_method_is_specified(methods.drop_last(), globals, constructors, cryptol_fn, i);
        let k = choose|k: int| 0 <= k < rest.len() && rest[k] == e;
        assert(all[k] == e);
    } else {
        assert(all[rest.len() as int] == e);
    }
}

/// All files: the module of stubs, the specifications, and the index.
pub open spec fn stub_files(
    given: Seq<InterfaceMethod>,
    constructors: Seq<ClassConstructor>,
    globals: Seq<GlobalView>,
    vdtor: Seq<String>,
    cryptol_fn: Option<Seq<char>>,
    triple: Option<Seq<char>>,
) -> Seq<(Seq<char>, Seq<char>)> {
    if given.len() == 0 {
        Seq::empty()
    } else {
        let methods = adopted_all(given);
        let groups = groups_of(methods);
        (seq![("vtable_stubs.ll"@, stubs_ir(groups, views(vdtor), triple))] + havoc_files(
            methods,
            globals,
            constructors,
            cryptol_fn,
        )).push(
            (
                "interface_overrides.saw"@,
                override_index(methods, groups, constructors, vdtor),
            ),
        )
    }
}

/// What fits for the classes of the methods fits for their groups.
proof fn lemma_fewer_layouts(constructors: Seq<ClassConstructor>, methods: Seq<InterfaceMethod>)
    requires
        layouts_fit(constructors, class_names(methods)),
    ensures
        layouts_fit(constructors, group_names(groups_of(methods))),
{
    let g = groups_of(methods);
    lemma_group_names(methods);
    assert forall|i: int|
        0 <= i < constructors.len() && group_names(g).contains(
            (#[trigger] constructors[i]).class_name@,
        ) implies class_bits(constructors[i].layout_fields@) <= u32::MAX by {
        let name = constructors[i].class_name@;
        let k = choose|k: int| 0 <= k < g.len() && group_names(g)[k] == name;
        assert(g[k].name == name);
    }
}

fn has_class(methods: &[InterfaceMethod], name: &str) -> (r: bool)
    ensures
        r == class_names(methods@).contains(name@),
{
    let mut i: usize = 0;
    while i < methods.len()
        invariant
            i <= methods@.len(),
            forall|k: int| 0 <= k < i ==> (#[trigger] methods@[k]).class_name@ != name@,
        decreases methods@.len() - i,
    {
        if same(methods[i].class_name.as_str(), name) {
            assert(class_names(methods@)[i as int] == name@);
            return true;
        }
        i += 1;
    }
    false
}

/// Can the objects of the classes of the methods be described? The files
/// that resolve virtual calls are made of such classes only.
pub fn layouts_ok(constructors: &[ClassConstructor], methods: &[InterfaceMethod]) -> (r: bool)
    ensures
        r == layouts_fit(constructors@, class_names(methods@)),
{
    let mut i: usize = 0;
    while i < constructors.len()
        invariant
            i <= constructors@.len(),
            forall|k: int|
                0 <= k < i && class_names(methods@).contains(
                    (#[trigger] constructors@[k]).class_name@,
                ) ==> class_bits(constructors@[k].layout_fields@) <= u32::MAX,
        decreases constructors@.len() - i,
    {
        let c = &constructors[i];
        if has_class(methods, c.class_name.as_str()) && !fits_layout(c.layout_fields.as_slice()) {
            return false;
        }
        i += 1;
    }
    true
}

/// The files that resolve virtual calls; none where there is no method.
///
/// `target_triple` is that of the bitcode and selects the layout of the
/// virtual tables; where it is not given, that of MSVC is used.
pub fn emit_interface_stubs(
    methods: Vec<InterfaceMethod>,
    constructors: &[ClassConstructor],
    globals: &[GlobalVarInfo],
    classes_with_vdtor: &[String],
    cryptol_fn: Option<&str>,
    target_triple: Option<&str>,
) -> (r: Vec<GeneratedFile>)
    requires
        layouts_fit(constructors@, class_names(methods@)),
    ensures
        files_view(r@) == stub_files(
            methods@,
            constructors@,
            globals_view(globals@),
            classes_with_vdtor@,
            opt_view(cryptol_fn),
            opt_view(target_triple),
        ),
{
    let mut files: Vec<GeneratedFile> = Vec::new();
    if methods.len() == 0 {
        assert(files_view(files@) =~= Seq::empty());
        return files;
    }
    let ghost given = methods@;
    let methods = adopt(methods);
    proof {
        assert(class_names(methods@) =~= class_names(given));
        lemma_group_names(methods@);
        lemma_fewer_layouts(constructors@, methods@);
    }
    let groups = group_by_class(methods.as_slice());
    files.push(
        GeneratedFile {
            name: owned("vtable_stubs.ll"),
            content: generate_llvm_ir_stubs(groups.as_slice(), classes_with_vdtor, target_triple),
        },
    );
    push_havoc_files(&mut files, methods.as_slice(), constructors, globals, cryptol_fn);
    let ghost before = files_view(files@);
    files.push(
        GeneratedFile {
            name: owned("interface_overrides.saw"),
            content: generate_override_index_with_vtable(
                methods.as_slice(),
                groups.as_slice(),
                constructors,
                classes_with_vdtor,
            ),
        },
    );
    assert(files_view(files@) =~= before.push(files@[files@.len() - 1]@));
    files
}

/// What became of the module of stubs.
#[derive(Debug, PartialEq, Eq)]
pub enum AssembledStubs {
    /// There is none.
    NoStubs,
    /// It was assembled to bitcode.
    Bitcode { bc_filename: String, assembler: String },
    /// It was assembled, and linked with the program.
    LinkedBitcode { combined_filename: String, linker: String },
    /// No assembler was found.
    TextOnly { ll_filename: String },
}

/// The file that a script loads; `None` where there are no stubs. Where
/// no assembler was found, the user is to assemble that file.
pub open spec fn script_file(s: &AssembledStubs) -> Option<Seq<char>> {
    match s {
        AssembledStubs::NoStubs => None,
        AssembledStubs::Bitcode { bc_filename, .. } => Some(bc_filename@),
        AssembledStubs::LinkedBitcode { combined_filename, .. } => Some(combined_filename@),
        AssembledStubs::TextOnly { .. } => Some("vtable_stubs.bc"@),
    }
}

impl AssembledStubs {
    /// The file that a script loads.
    pub fn script_filename(&self) -> (r: Option<&str>)
        ensures
            opt_view(r) == script_file(self),
    {
        match self {
            AssembledStubs::NoStubs => None,
            AssembledStubs::Bitcode { bc_filename, .. } => Some(bc_filename.as_str()),
            AssembledStubs::LinkedBitcode { combined_filename, .. } => Some(
                combined_filename.as_str(),
            ),
            AssembledStubs::TextOnly { .. } => Some("vtable_stubs.bc"),
        }
    }
}

/// What is to be done about the module of stubs.
#[derive(Debug, PartialEq, Eq)]
pub enum StubStep {
    /// The tool is to be run with these arguments before the file names.
    Run { command: String, extra_args: Vec<String> },
    /// Nothing more: this is what became of the module.
    Done(AssembledStubs),
}

/// The tools that can assemble, in the order in which they are tried.
pub open spec fn assemblers() -> Seq<Seq<char>> {
    seq!["llvm-as"@, "llvm-as.exe"@, "clang"@, "clang.exe"@, "clang-cl"@, "clang-cl.exe"@]
}

/// The arguments of the tools that can assemble: a compiler is told to
/// stop at bitcode.
pub open spec fn assembler_args(i: int) -> Seq<Seq<char>> {
    if i < 2 {
        Seq::empty()
    } else {
        seq!["-c"@, "-emit-llvm"@]
    }
}

fn assembler(i: usize) -> (r: &'static str)
    requires
        i < 6,
    ensures
        r@ == assemblers()[i as int],
{
    match i {
        0 => "llvm-as",
        1 => "llvm-as.exe",
        2 => "clang",
        3 => "clang.exe",
        4 => "clang-cl",
        _ => "clang-cl.exe",
    }
}

/// Is `r` what is to be done about assembling?
pub open spec fn assembly_step(exists: bool, tried: int, succeeded: bool, r: StubStep) -> bool {
    if !exists {
        r == StubStep::Done(AssembledStubs::NoStubs)
    } else if tried > 0 && succeeded {
        r matches StubStep::Done(AssembledStubs::Bitcode { bc_filename, assembler })
            && bc_filename@ == "vtable_stubs.bc"@ && assembler@ == assemblers()[tried - 1]
    } else if tried < assemblers().len() {
        r matches StubStep::Run { command, extra_args } && command@ == assemblers()[tried]
            && views(extra_args@) == assembler_args(tried)
    } else {
        r matches StubStep::Done(AssembledStubs::TextOnly { ll_filename }) && ll_filename@
            == "vtable_stubs.ll"@
    }
}

/// What is to be done about assembling, given whether the module exists,
/// how many tools were tried, and whether the last of them made a file.
pub fn assemble_vtable_stubs(exists: bool, tried: usize, succeeded: bool) -> (r: StubStep)
    requires
        tried <= 6,
    ensures
        assembly_step(exists, tried as int, succeeded, r),
{
    broadcast use {group_append, group_views};
    if !exists {
        return StubStep::Done(AssembledStubs::NoStubs);
    }
    if tried > 0 && succeeded {
        return StubStep::Done(
            AssembledStubs::Bitcode {
                bc_filename: owned("vtable_stubs.bc"),
                assembler: owned(assembler(tried - 1)),
            },
        );
    }
    if tried < 6 {
        let mut extra_args: Vec<String> = Vec::new();
        if tried >= 2 {
            extra_args.push(owned("-c"));
            extra_args.push(owned("-emit-llvm"));
        }
        assert(views(extra_args@) =~= assembler_args(tried as int));
        StubStep::Run { command: owned(assembler(tried)), extra_args }
    } else {
        StubStep::Done(AssembledStubs::TextOnly { ll_filename: owned("vtable_stubs.ll") })
    }
}

/// The tools that can link, in the order in which they are tried.
pub open spec fn linkers() -> Seq<Seq<char>> {
    seq!["llvm-link"@, "llvm-link.exe"@]
}

fn linker(i: usize) -> (r: &'static str)
    requires
        i < 2,
    ensures
        r@ == linkers()[i as int],
{
    if i == 0 {
        "llvm-link"
    } else {
        "llvm-link.exe"
    }
}

/// Is `r` what is to be done about linking?
pub open spec fn link_step(
    stubs: AssembledStubs,
    stubs_bc: Seq<char>,
    inputs_exist: bool,
    tried: int,
    succeeded: bool,
    r: StubStep,
) -> bool {
    if !(stubs is Bitcode) || !inputs_exist {
        r == StubStep::Done(stubs)
    } else if tried > 0 && succeeded {
        r matches StubStep::Done(AssembledStubs::LinkedBitcode { combined_filename, linker })
            && combined_filename@ == "code.combined.bc"@ && linker@ == linkers()[tried - 1]
    } else if tried < linkers().len() {
        r matches StubStep::Run { command, extra_args } && command@ == linkers()[tried]
            && views(extra_args@) == seq!["--override="@ + stubs_bc]
    } else {
        r == StubStep::Done(stubs)
    }
}

/// What is to be done about linking the stubs with the program, given what
/// became of them, whether both files exist, how many tools were tried,
/// and whether the last of them made a file. Only assembled stubs are
/// linked; where no tool links them they stay as they are. `stubs_bc` is
/// the path of the assembled stubs, whose definitions are to win.
pub fn link_stubs_with_main(
    stubs: AssembledStubs,
    stubs_bc: &str,
    inputs_exist: bool,
    tried: usize,
    succeeded: bool,
) -> (r: StubStep)
    requires
        tried <= 2,
    ensures
        link_step(stubs, stubs_bc@, inputs_exist, tried as int, succeeded, r),
{
    broadcast use {group_append, group_views};
    let assembled = match &stubs {
        AssembledStubs::Bitcode { .. } => true,
        _ => false,
    };
    if !assembled || !inputs_exist {
        return StubStep::Done(stubs);
    }
    if tried > 0 && succeeded {
        return StubStep::Done(
            AssembledStubs::LinkedBitcode {
                combined_filename: owned("code.combined.bc"),
                linker: owned(linker(tried - 1)),
            },
        );
    }
    if tried < 2 {
        let mut arg = String::new();
        put2(&mut arg, "--override=", stubs_bc);
        let mut extra_args: Vec<String> = Vec::new();
        extra_args.push(arg);
        assert(views(extra_args@) =~= seq!["--override="@ + stubs_bc@]);
        StubStep::Run { command: owned(linker(tried)), extra_args }
    } else {
        StubStep::Done(stubs)
    }
}

} // verus!
