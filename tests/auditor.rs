use ai_auditor::auditor::{
    compile_verdict, probe_verdict, scratch_paths, CheckResult, CompileRun,
    ProbeRun,
};
use ai_auditor::error::AppError;

#[test]
fn scratch_paths_of_zero_token() {
    let p = scratch_paths(0);
    assert_eq!(p.source, "/tmp/audit_00000000000000000000000000000000.rs");
    assert_eq!(p.artifact, "/tmp/libaudit_00000000000000000000000000000000.rlib");
    assert_eq!(p.out_dir, "/tmp");
}

#[test]
fn scratch_paths_spell_the_token_in_hex() {
    let p = scratch_paths(0x0123_4567_89ab_cdef_fedc_ba98_7654_3210);
    assert_eq!(p.source, "/tmp/audit_0123456789abcdeffedcba9876543210.rs");
    assert_eq!(p.artifact, "/tmp/libaudit_0123456789abcdeffedcba9876543210.rlib");
    let q = scratch_paths(u128::MAX);
    assert_eq!(q.source, "/tmp/audit_ffffffffffffffffffffffffffffffff.rs");
}

#[test]
fn distinct_tokens_give_distinct_paths() {
    let a = scratch_paths(1);
    let b = scratch_paths(2);
    assert_ne!(a.source, b.source);
    assert_ne!(a.artifact, b.artifact);
}

#[test]
fn fresh_checks_do_not_share_scratch_files() {
    let a = scratch_paths(uuid::Uuid::new_v4().as_u128());
    let b = scratch_paths(uuid::Uuid::new_v4().as_u128());
    assert_ne!(a.source, b.source);
    assert_ne!(a.artifact, b.artifact);
    assert!(a.source.starts_with("/tmp/audit_") && a.source.ends_with(".rs"));
    assert_eq!(a.source.len(), "/tmp/audit_".len() + 32 + ".rs".len());
}

#[test]
fn successful_compile_passes() {
    let r = compile_verdict(CompileRun::Exited { success: true, stderr: String::new() });
    assert_eq!(r, Ok(CheckResult::Passed));
}

#[test]
fn failed_compile_keeps_diagnostic_verbatim() {
    let d = "error: expected one of `)`, `,`, or `:`\n --> x.rs:1:12\n".to_string();
    let r = compile_verdict(CompileRun::Exited { success: false, stderr: d.clone() });
    assert_eq!(r, Ok(CheckResult::Failed(d)));
}

#[test]
fn write_failure_is_a_toolchain_error() {
    let r = compile_verdict(CompileRun::WriteFailed("disk full".to_string()));
    assert_eq!(
        r,
        Err(AppError::Audit("Failed to write temporary audit file: disk full".to_string()))
    );
}

#[test]
fn launch_failure_is_a_toolchain_error() {
    let r = compile_verdict(CompileRun::LaunchFailed("not found".to_string()));
    assert_eq!(r, Err(AppError::Audit("Failed to execute rustc command: not found".to_string())));
}

#[test]
fn probe_trims_the_version_line() {
    let r = probe_verdict(ProbeRun::Exited {
        success: true,
        stdout: "  rustc 1.80.0 (051478957 2024-07-21)\n".to_string(),
        stderr: String::new(),
    });
    assert_eq!(r, Ok("rustc 1.80.0 (051478957 2024-07-21)".to_string()));
}

#[test]
fn probe_reports_failures() {
    let r = probe_verdict(ProbeRun::LaunchFailed("no such file".to_string()));
    assert_eq!(r, Err("Failed to execute rustc: no such file".to_string()));
    let r = probe_verdict(ProbeRun::Exited {
        success: false,
        stdout: String::new(),
        stderr: "broken".to_string(),
    });
    assert_eq!(r, Err("rustc execution failed: broken".to_string()));
}
