use rust_build_tool::dependency_checker::{
    dependency_tables, locate_dependency, parse_cargo_toml, parse_udeps_output, process_removals,
    remove_dependency, DepCheckError,
    DependencyLocation, DependencyTables,
};

fn names(v: &[&str]) -> Vec<String> {
    v.iter().map(|s| s.to_string()).collect()
}

fn tables() -> DependencyTables {
    DependencyTables {
        dependencies: Some(names(&["serde", "regex"])),
        dev_dependencies: Some(names(&["proptest", "serde"])),
        build_dependencies: Some(names(&["cc"])),
    }
}

#[test]
fn udeps_report_is_read_and_sorted() {
    let report = "unused dependencies:\n`demo v0.1.0`\n└─── dependencies\n     ├─── \"toml\"\n     └─── \"regex\"\n\nNote: \"ignored\"\n";
    assert_eq!(parse_udeps_output(report), names(&["regex", "toml"]));
}

#[test]
fn udeps_report_skips_empty_quotes() {
    let report = "unused dependencies:\n  \"\"\"b\"  \n  x \"a\" y \"c\"\n";
    assert_eq!(parse_udeps_output(report), names(&["a", "b"]));
}

#[test]
fn udeps_report_without_list() {
    assert_eq!(parse_udeps_output("All deps seem to have been used.\n"), Vec::<String>::new());
}

#[test]
fn dependency_is_located_in_first_table() {
    let t = tables();
    let l = locate_dependency("serde", &t).ok().unwrap();
    assert_eq!(l.section, "dependencies");
    assert_eq!(l.flag, None);
    let l = locate_dependency("proptest", &t).ok().unwrap();
    assert_eq!(l.section, "dev-dependencies");
    assert_eq!(l.flag, Some("--dev".to_string()));
    let l = locate_dependency("cc", &t).ok().unwrap();
    assert_eq!(l.section, "build-dependencies");
    assert_eq!(l.flag, Some("--build".to_string()));
    match locate_dependency("rand", &t) {
        Err(DepCheckError::DependencyNotFound(d)) => assert_eq!(d, "rand"),
        _ => panic!("rand should not be found"),
    }
}

#[test]
fn removal_messages() {
    let loc = DependencyLocation { section: "dev-dependencies".to_string(), flag: Some("--dev".to_string()) };
    let ok = remove_dependency("proptest", &loc, &Ok(()));
    assert!(ok.success);
    assert_eq!(ok.message, "Removed proptest (dev-dependencies)");
    let bad = remove_dependency("proptest", &loc, &Err("no such package".to_string()));
    assert!(!bad.success);
    assert_eq!(bad.message, "Failed to remove proptest: no such package");
}

#[test]
fn removals_are_processed_one_by_one() {
    let deps = names(&["serde", "rand", "cc"]);
    let outcomes = vec![Ok(()), Ok(()), Err("locked".to_string())];
    let r = process_removals(&deps, &Ok(tables()), &outcomes);
    assert_eq!(r.len(), 3);
    assert!(r[0].success);
    assert_eq!(r[0].message, "Removed serde (dependencies)");
    assert!(!r[1].success);
    assert_eq!(r[1].message, "Failed to locate dependency: Dependency not found: rand");
    assert!(!r[2].success);
    assert_eq!(r[2].message, "Failed to remove cc: locked");
}

#[test]
fn unreadable_manifest_gives_one_result() {
    let deps = names(&["serde"]);
    let r = process_removals(&deps, &Err(DepCheckError::CargoTomlNotFound), &vec![Ok(())]);
    assert_eq!(r.len(), 1);
    assert!(!r[0].success);
    assert_eq!(r[0].message, "Failed to load Cargo.toml: Cargo.toml file not found");
    let r = process_removals(&deps, &Err(DepCheckError::TomlParseError("bad".to_string())), &vec![Ok(())]);
    assert_eq!(r[0].message, "Failed to parse Cargo.toml: TOML parse error: bad");
}

#[test]
fn dep_check_error_messages() {
    assert_eq!(DepCheckError::ToolMissing("x".to_string()).message(), "Tool missing: x");
    assert_eq!(DepCheckError::CommandFailed("y".to_string()).message(), "Command execution failed: y");
    assert_eq!(DepCheckError::DependencyNotFound("z".to_string()).message(), "Dependency not found: z");
}

#[test]
fn manifest_tables_are_read() {
    let doc = parse_cargo_toml(
        "[package]\nname = \"x\"\n\n[dependencies]\nserde = \"1\"\nregex = { version = \"1\" }\n\n[dev-dependencies]\nproptest = \"1\"\n",
    )
    .ok()
    .unwrap();
    let t = dependency_tables(&doc);
    let mut deps = t.dependencies.clone().unwrap();
    deps.sort();
    assert_eq!(deps, names(&["regex", "serde"]));
    assert_eq!(t.dev_dependencies, Some(names(&["proptest"])));
    assert_eq!(t.build_dependencies, None);
    let l = locate_dependency("proptest", &t).ok().unwrap();
    assert_eq!(l.flag, Some("--dev".to_string()));
}

#[test]
fn bad_manifest_is_a_parse_error() {
    assert!(matches!(parse_cargo_toml("[package\nname ="), Err(DepCheckError::TomlParseError(_))));
}
