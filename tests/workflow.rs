use rust_build_tool::build_system::{
    get_executable_path, get_target_directory, parse_project_name, BuildSystem, Step, TargetDirError, Workflow,
};
use rust_build_tool::error::BuildToolError;

fn drive(w: &mut Workflow, fail_at: Option<Step>) -> Vec<Step> {
    let mut seen = Vec::new();
    while let Some(step) = w.current() {
        seen.push(step);
        if Some(step) == fail_at {
            w.advance(Err(format!("{:?} failed", step)));
        } else {
            w.advance(Ok(()));
        }
    }
    seen
}

#[test]
fn full_plan_runs_every_step() {
    let mut w = Workflow::new(true, true);
    let seen = drive(&mut w, None);
    assert_eq!(
        seen,
        vec![Step::Open, Step::Patch, Step::Clean, Step::Build, Step::Compress, Step::ShowResult, Step::Restore]
    );
    assert!(w.is_finished());
    assert_eq!(w.failure(), None);
}

#[test]
fn plain_plan_skips_clean_and_compress() {
    let mut w = Workflow::new(false, false);
    let seen = drive(&mut w, None);
    assert_eq!(seen, vec![Step::Open, Step::Patch, Step::Build, Step::ShowResult, Step::Restore]);
}

#[test]
fn failed_build_still_restores_and_reports() {
    let mut w = Workflow::new(false, true);
    let seen = drive(&mut w, Some(Step::Build));
    assert_eq!(seen, vec![Step::Open, Step::Patch, Step::Build, Step::Restore]);
    assert_eq!(w.failure(), Some("Build failed".to_string()));
}

#[test]
fn failed_patch_still_restores() {
    let mut w = Workflow::new(false, false);
    let seen = drive(&mut w, Some(Step::Patch));
    assert_eq!(seen, vec![Step::Open, Step::Patch, Step::Restore]);
    assert_eq!(w.failure(), Some("Patch failed".to_string()));
}

#[test]
fn failed_open_ends_at_once() {
    let mut w = Workflow::new(true, true);
    let seen = drive(&mut w, Some(Step::Open));
    assert_eq!(seen, vec![Step::Open]);
    assert_eq!(w.failure(), Some("Open failed".to_string()));
}

#[test]
fn failed_restore_is_reported() {
    let mut w = Workflow::new(false, false);
    let seen = drive(&mut w, Some(Step::Restore));
    assert_eq!(seen.last(), Some(&Step::Restore));
    assert_eq!(w.failure(), Some("Restore failed".to_string()));
}

#[test]
fn project_name_is_read() {
    let m = "[package]\n  name = \"demo\"  \nversion = \"0.1.0\"\n";
    assert_eq!(parse_project_name(m), Some("demo".to_string()));
    assert_eq!(parse_project_name("[package]\nname = app=x\n"), Some("app".to_string()));
    assert_eq!(parse_project_name("[package]\nname=\"x\"\n"), None);
    assert_eq!(parse_project_name(""), None);
}

#[test]
fn executable_name_by_target() {
    assert_eq!(get_executable_path("demo", "x86_64-unknown-uefi", ".exe"), "demo.efi");
    assert_eq!(get_executable_path("demo", "x86_64-pc-windows-msvc", ".exe"), "demo.exe");
    assert_eq!(get_executable_path("demo", "x86_64-unknown-linux-gnu", ""), "demo");
}

#[test]
fn build_system_from_manifest() {
    let b = BuildSystem::new("x86_64-unknown-uefi", true, false, "[package]\nname = \"boot\"\n", "").unwrap();
    assert_eq!(b.executable(), "boot.efi");
    assert_eq!(b.target(), "x86_64-unknown-uefi");
    assert!(b.use_upx());
    assert!(!b.clean());
    let mut w = b.run();
    assert_eq!(w.current(), Some(Step::Open));
    let seen = drive(&mut w, None);
    assert!(seen.contains(&Step::Compress));
    let e = BuildSystem::new("t", false, false, "[package]\n", "").err().unwrap();
    assert_eq!(e, "Failed to find project name in Cargo.toml");
}

#[test]
fn target_directory_from_metadata() {
    let m = br#"{"packages":[],"target_directory":"/work/target","version":1}"#;
    assert_eq!(get_target_directory(m).ok(), Some("/work/target".to_string()));
    assert!(matches!(get_target_directory(br#"{"version":1}"#), Err(TargetDirError::Missing)));
    assert!(matches!(get_target_directory(br#"{"target_directory":3}"#), Err(TargetDirError::Missing)));
    assert!(matches!(get_target_directory(b"not json"), Err(TargetDirError::Json(_))));
}

#[test]
fn build_tool_error_messages() {
    assert_eq!(
        BuildToolError::MissingRustNightly.message(),
        "Rust nightly toolchain is required but not installed"
    );
    assert_eq!(BuildToolError::RustupUnavailable.message(), "rustup is not available or cannot be executed");
}

#[test]
fn host_target_from_rustc_output() {
    let out = "rustc 1.80.0-nightly (abc 2024-05-01)\nbinary: rustc\nhost: x86_64-unknown-linux-gnu\nrelease: 1.80.0-nightly\n";
    assert_eq!(
        rust_build_tool::platform_helper::get_default_target(out),
        Ok("x86_64-unknown-linux-gnu".to_string())
    );
    assert_eq!(
        rust_build_tool::platform_helper::get_default_target("host: host: a\n"),
        Ok("a".to_string())
    );
    assert_eq!(
        rust_build_tool::platform_helper::get_default_target(" host: a\nbinary: rustc"),
        Err("Unable to determine default target platform".to_string())
    );
}
