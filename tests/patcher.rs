use rust_build_tool::cargo_config::CargoConfigManager;
use rust_build_tool::text::{join_lines_of, split_lines_of};

fn settings(pairs: &[(&str, &str)]) -> Vec<(String, String)> {
    pairs.iter().map(|(k, v)| (k.to_string(), v.to_string())).collect()
}

fn five() -> Vec<(String, String)> {
    settings(&[
        ("opt-level", "'z'"),
        ("lto", "true"),
        ("codegen-units", "1"),
        ("panic", "'abort'"),
        ("strip", "true"),
    ])
}

#[test]
fn end_to_end_example() {
    let original = "[package]\nname = \"demo\"\n";
    let mut m = CargoConfigManager::new("Cargo.toml", original.to_string());
    let out = m.ensure_section_with_settings("[profile.release]", &settings(&[("opt-level", "'z'"), ("lto", "true")]));
    assert_eq!(out, "[package]\nname = \"demo\"\n[profile.release]\nopt-level = 'z'\nlto = true");
    assert_eq!(m.write_file(), out);
    assert_eq!(m.restore(), original);
    assert_eq!(m.path(), "Cargo.toml");
}

#[test]
fn patching_twice_gives_same_text() {
    let original = "[package]\nname = \"x\"\n\n[profile.release]\nlto = false\n\n[dependencies]\nserde = \"1\"\n";
    let mut m = CargoConfigManager::new("Cargo.toml", original.to_string());
    let first = m.ensure_section_with_settings("[profile.release]", &five());
    let second = m.ensure_section_with_settings("[profile.release]", &five());
    assert_eq!(first, second);
}

#[test]
fn release_profile_twice_gives_same_text() {
    let mut m = CargoConfigManager::new("Cargo.toml", "[package]\nname = \"x\"".to_string());
    let first = m.ensure_release_profile();
    let second = m.ensure_release_profile();
    assert_eq!(first, second);
    assert_eq!(
        first,
        "[package]\nname = \"x\"\n[profile.release]\nopt-level = 'z'\nlto = true\ncodegen-units = 1\npanic = 'abort'\nstrip = true"
    );
}

#[test]
fn custom_key_is_kept() {
    let original = "[profile.release]\ndebug = 2\n";
    let mut m = CargoConfigManager::new("Cargo.toml", original.to_string());
    let out = m.ensure_section_with_settings("[profile.release]", &five());
    let lines: Vec<&str> = out.lines().collect();
    assert!(lines.contains(&"debug = 2"));
    assert_eq!(lines[0], "[profile.release]");
    assert_eq!(lines[1], "debug = 2");
}

#[test]
fn restore_after_many_patches_is_exact() {
    let original = "[package]\r\nname = \"x\"\r\n\r\n[profile.release]\r\nlto = false\r\n";
    let mut m = CargoConfigManager::new("Cargo.toml", original.to_string());
    m.ensure_section_with_settings("[profile.release]", &five());
    m.ensure_section_with_settings("[profile.dev]", &settings(&[("debug", "0")]));
    m.ensure_release_profile();
    assert_eq!(m.restore(), original);
}

#[test]
fn restore_without_patch_is_exact() {
    let m = CargoConfigManager::new("Cargo.toml", "a = 1\n\n".to_string());
    assert_eq!(m.restore(), "a = 1\n\n");
}

#[test]
fn section_is_created_with_all_settings_in_order() {
    let mut m = CargoConfigManager::new("Cargo.toml", "[package]\nname = \"x\"\n".to_string());
    let out = m.ensure_section_with_settings("[profile.release]", &five());
    let lines: Vec<&str> = out.lines().collect();
    assert_eq!(lines.iter().filter(|l| l.trim() == "[profile.release]").count(), 1);
    assert_eq!(
        lines,
        vec![
            "[package]",
            "name = \"x\"",
            "[profile.release]",
            "opt-level = 'z'",
            "lto = true",
            "codegen-units = 1",
            "panic = 'abort'",
            "strip = true",
        ]
    );
}

#[test]
fn partial_section_gets_missing_keys_in_order() {
    let original = "[profile.release]\nlto = false\npanic = 'unwind'\n";
    let mut m = CargoConfigManager::new("Cargo.toml", original.to_string());
    let out = m.ensure_section_with_settings("[profile.release]", &five());
    assert_eq!(
        out,
        "[profile.release]\nlto = false\npanic = 'unwind'\nopt-level = 'z'\ncodegen-units = 1\nstrip = true"
    );
}

#[test]
fn settings_never_go_past_next_section() {
    let original = "[profile.release]\nlto = true\n[dependencies]\nserde = \"1\"\n";
    let mut m = CargoConfigManager::new("Cargo.toml", original.to_string());
    let out = m.ensure_section_with_settings("[profile.release]", &settings(&[("opt-level", "3"), ("strip", "true")]));
    assert_eq!(
        out,
        "[profile.release]\nlto = true\nopt-level = 3\nstrip = true\n[dependencies]\nserde = \"1\""
    );
}

#[test]
fn body_ends_at_blank_line() {
    let original = "[profile.release]\nlto = true\n\nother = 1";
    let mut m = CargoConfigManager::new("Cargo.toml", original.to_string());
    let out = m.ensure_section_with_settings("[profile.release]", &settings(&[("strip", "true")]));
    assert_eq!(out, "[profile.release]\nlto = true\nstrip = true\n\nother = 1");
}

#[test]
fn header_with_surrounding_white_space_is_found() {
    let original = "  [profile.release]\t\n  lto   =  true  \n";
    let mut m = CargoConfigManager::new("Cargo.toml", original.to_string());
    let out = m.ensure_section_with_settings("[profile.release]", &settings(&[("lto", "false"), ("strip", "true")]));
    assert_eq!(out, "  [profile.release]\t\n  lto   =  true  \nstrip = true");
}

#[test]
fn header_in_a_comment_is_not_the_section() {
    let original = "# [profile.release] below\n[package]\n";
    let mut m = CargoConfigManager::new("Cargo.toml", original.to_string());
    let out = m.ensure_section_with_settings("[profile.release]", &settings(&[("lto", "true")]));
    assert_eq!(out, "# [profile.release] below\n[package]\n[profile.release]\nlto = true");
}

#[test]
fn empty_document_gets_the_section() {
    let mut m = CargoConfigManager::new("Cargo.toml", String::new());
    let out = m.ensure_section_with_settings("[profile.release]", &settings(&[("lto", "true")]));
    assert_eq!(out, "[profile.release]\nlto = true");
    assert_eq!(m.restore(), "");
}

#[test]
fn no_settings_only_adds_header() {
    let mut m = CargoConfigManager::new("Cargo.toml", "a = 1".to_string());
    let out = m.ensure_section_with_settings("[x]", &Vec::new());
    assert_eq!(out, "a = 1\n[x]");
}

#[test]
fn lines_split_like_std() {
    let cases = ["", "\n", "a", "a\n", "a\r\nb", "a\n\nb\n", "a\r", "\r\n\r\n", "x\ry\n"];
    for c in cases {
        let got = split_lines_of(c);
        let want: Vec<String> = c.lines().map(|s| s.to_string()).collect();
        assert_eq!(got, want, "input {:?}", c);
    }
}

#[test]
fn lines_join_with_line_feed() {
    let v = vec!["a".to_string(), "".to_string(), "b".to_string()];
    assert_eq!(join_lines_of(&v), "a\n\nb");
    assert_eq!(join_lines_of(&Vec::new()), "");
}
