//! Names, hashes and orders.

use std::collections::hash_map::DefaultHasher;
use std::hash::{Hash, Hasher};

use saw_spec_gen::class_groups::group_by_class;
use saw_spec_gen::constraints::{FunctionInfo, InterfaceMethod, TypeInfo};
use saw_spec_gen::gen_verify_rust_async::sanitize_ident;
use saw_spec_gen::mangle::{sanitize_filename_chars, short_hash};
use saw_spec_gen::names::{sanitize_lower, sanitize_name, stub_function_name};
use saw_spec_gen::order::comes_before;
use saw_spec_gen::overrides::{havoc_file, stub_identifier};
use saw_spec_gen::path_utils::{pathdiff, pathdiff_or_absolute};

fn method(class: &str, name: &str, mangled: Option<&str>, offset: u64) -> InterfaceMethod {
    InterfaceMethod {
        class_name: class.into(),
        method: FunctionInfo {
            name: name.into(),
            mangled_name: mangled.map(String::from),
            params: vec![],
            return_type: TypeInfo::Void,
            can_throw: false,
            is_virtual: true,
            has_body: false,
            is_system: false,
            called_functions: vec![],
            referenced_globals: vec![],
            annotations: vec![],
        },
        is_pure: true,
        is_override: false,
        source_offset: offset,
    }
}

fn hash_of(name: &str) -> u64 {
    let mut h = DefaultHasher::new();
    name.hash(&mut h);
    h.finish()
}

#[test]
fn the_hash_is_that_of_the_default_hasher() {
    for name in ["", "a", "?foo@@YAXXZ", "é-ü", &"x".repeat(300)] {
        let full = format!("{:016x}", hash_of(name));
        assert_eq!(short_hash(name), full[..8]);
    }
    assert_ne!(short_hash("a"), short_hash("b"));
}

#[test]
fn letters_of_other_alphabets_are_kept() {
    assert_eq!(sanitize_name("größe-1"), "größe_1");
    assert_eq!(sanitize_ident("añb::c"), "añb__c");
    assert_eq!(sanitize_lower("IÉtat"), "iétat");
    assert_eq!(sanitize_lower("İx"), "i\u{307}x");
    assert_eq!(
        stub_function_name(&method("IÉtat", "Lire!", None, 0)),
        "iétat_lire__stub"
    );
}

#[test]
fn names_are_cut_at_whole_characters() {
    let name = format!("{}é{}", "a".repeat(119), "b".repeat(80));
    let out = sanitize_name(&name);
    assert!(out.starts_with(&"a".repeat(119)));
    assert!(out.ends_with(&short_hash(&name)));
}

#[test]
fn file_names_hold_no_separators() {
    let out = sanitize_filename_chars("a/b:c\\d");
    assert!(!out.contains(['/', ':', '\\']));
}

#[test]
fn stubs_are_named_alike_everywhere() {
    let m = method("ILog", "write", Some("?write@ILog@@UEAAXXZ"), 0);
    let stub = stub_function_name(&m);
    assert_eq!(stub_identifier(&m), stub);
    assert!(havoc_file(&m).ends_with(".saw"));
}

#[test]
fn the_order_is_that_of_texts() {
    let texts = ["", "a", "aa", "ab", "b", "é", "z", "\u{10000}", "\u{ffff}"];
    for a in texts {
        for b in texts {
            assert_eq!(comes_before(a, b), a < b, "{a} {b}");
        }
    }
}

#[test]
fn methods_are_grouped_by_class_and_declaration() {
    let methods = [
        method("B", "m1", None, 30),
        method("A", "n1", None, 20),
        method("B", "m2", None, 10),
        method("B", "m3", None, 30),
    ];
    let groups = group_by_class(&methods);
    let names: Vec<&str> = groups.iter().map(|g| g.name.as_str()).collect();
    assert_eq!(names, vec!["A", "B"]);
    let b: Vec<&str> = groups[1]
        .methods
        .iter()
        .map(|m| m.method.name.as_str())
        .collect();
    assert_eq!(b, vec!["m2", "m1", "m3"]);
    assert_eq!(groups[0].methods.len(), 1);
}

fn parts(a: &[&str]) -> Vec<String> {
    a.iter().map(|s| s.to_string()).collect()
}

#[test]
fn a_relative_path_leads_to_its_target() {
    let base = parts(&["/", "a", "b"]);
    let target = parts(&["/", "a", "c", "d"]);
    assert_eq!(
        pathdiff(&target, &base),
        Some(parts(&["..", "c", "d"]))
    );
    assert_eq!(pathdiff(&target, &target), Some(vec![]));
    assert_eq!(
        pathdiff_or_absolute("x", Some((&target, &base))),
        "../c/d"
    );
    assert_eq!(pathdiff_or_absolute("x\\y", None), "x/y");
    assert_eq!(pathdiff(&vec![], &base), None);
    assert_eq!(pathdiff(&base, &vec![]), None);
    assert_eq!(pathdiff_or_absolute("x", Some((&target, &vec![]))), "x");
    assert_eq!(
        pathdiff(&target, &parts(&["C:"])),
        Some(target.iter().cloned().collect())
    );
}
