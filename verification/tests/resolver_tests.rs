use cpc::ast::{ModuleItem, Stmt};
use cpc::parser::Parser;
use cpc::resolver::{cap_main, dir_candidate_files, main_base, is_local_import, search_bases_for, search_path_of, starts_with, ImportWalk, SearchBase};

#[test]
fn cap_sources_are_looked_up_under_cap() {
    assert_eq!(search_path_of("cap:io"), "cap/io");
    assert_eq!(search_path_of("./util"), "./util");
    assert_eq!(search_path_of("cap"), "cap");
}

#[test]
fn local_and_dependency_imports() {
    assert!(is_local_import("./a"));
    assert!(is_local_import("../a"));
    assert!(is_local_import("/abs/a"));
    assert!(is_local_import("cap/io"));
    assert!(!is_local_import("lodash"));
    assert!(!is_local_import(".hidden"));
    assert!(starts_with("abc", "ab"));
    assert!(!starts_with("a", "ab"));
}

#[test]
fn directory_candidates_in_order() {
    assert_eq!(
        dir_candidate_files(Some("pkg")),
        vec!["bin/pkg.d.cp", "index.d.cp", "index.cp", "main.d.cp", "main.cp"]
    );
    assert_eq!(dir_candidate_files(None), vec!["index.d.cp", "index.cp", "main.d.cp", "main.cp"]);
}

#[test]
fn manifest_main() {
    assert_eq!(cap_main("{\"name\": \"x\", \"main\": \"src/main.cp\"}"), Some("src/main.cp".to_string()));
    assert_eq!(cap_main("{\"main\": 3}"), None);
    assert_eq!(cap_main("[\"main\"]"), None);
    assert_eq!(cap_main("not json"), None);
}

#[test]
fn files_are_entered_once() {
    let mut w = ImportWalk::new();
    assert!(w.visit("/p/a.cp".to_string()));
    assert!(!w.visit("/p/a.cp".to_string()));
    assert!(w.visit("/p/b.cp".to_string()));
}

fn parse(text: &str) -> cpc::ast::Module {
    Parser::new(text).parse_module().unwrap()
}

#[test]
fn walk_collects_items_depth_first() {
    let mut w = ImportWalk::new();
    w.enter(
        "/p/m.cp".to_string(),
        parse("import { a } from \"./a\"; let x = 1; import { b } from \"cap:b\"; let z = 3;"),
        true,
    );
    assert_eq!(w.next_import(), Some(("/p/m.cp".to_string(), "./a".to_string())));
    w.import_result(false);
    assert_eq!(w.next_import(), Some(("/p/m.cp".to_string(), "cap/b".to_string())));
    w.import_result(true);
    w.enter("/p/cap/b.cp".to_string(), parse("let y = 2;"), true);
    assert_eq!(w.next_import(), None);
    let items = w.finish();
    assert_eq!(items.len(), 4);
    assert!(matches!(&items[0], ModuleItem::Import(i) if i.source == "./a"));
    let names: Vec<String> = items[1..]
        .iter()
        .map(|it| match it {
            ModuleItem::Stmt(Stmt::Var(v)) => match &v.pat {
                cpc::ast::Pattern::Ident(id) => id.sym.clone(),
                _ => String::new(),
            },
            _ => String::new(),
        })
        .collect();
    assert_eq!(names, vec!["x", "y", "z"]);
}

#[test]
fn dependencies_keep_only_what_imports_bring() {
    let mut w = ImportWalk::new();
    w.mark("/p/m.cp".to_string());
    w.enter("/p/m.cp".to_string(), parse("import { b } from \"./b\"; let x = 1;"), false);
    assert_eq!(w.next_import(), Some(("/p/m.cp".to_string(), "./b".to_string())));
    w.import_result(true);
    w.enter("/p/b.d.cp".to_string(), parse("fn f() {}"), true);
    assert_eq!(w.next_import(), None);
    let items = w.finish();
    assert_eq!(items.len(), 1);
    assert!(matches!(&items[0], ModuleItem::Decl(_)));
}

#[test]
fn search_bases_in_order() {
    assert_eq!(
        search_bases_for("./util", 2, 3),
        vec![SearchBase::Beside, SearchBase::Include(0), SearchBase::Include(1)]
    );
    assert_eq!(
        search_bases_for("cap/io", 1, 0),
        vec![SearchBase::Beside, SearchBase::Include(0)]
    );
    assert_eq!(
        search_bases_for("lodash", 1, 2),
        vec![SearchBase::CapModules(0), SearchBase::CapModules(1), SearchBase::Global]
    );
}

#[test]
fn manifest_main_without_extension() {
    assert_eq!(main_base("src/main.cp"), "src/main");
    assert_eq!(main_base("main.d.cp"), "main.d");
    assert_eq!(main_base("lib/index"), "lib/index");
    assert_eq!(main_base("lib.v2/mod"), "lib.v2/mod");
    assert_eq!(main_base(".hidden"), ".hidden");
    assert_eq!(main_base("a/.cfg"), "a/.cfg");
}
