//! Bookkeeping around one compile check. Drawing a per-check token, writing
//! the snippet and running the toolchain happen outside this library; here
//! each token gets its own scratch paths, and what came back is turned into a
//! verdict.

use vstd::prelude::*;
use crate::error::AppError;
use crate::text::{trim_whitespace, trimmed};

verus! {

/// The verdict on a snippet that the toolchain did judge.
#[derive(Clone, Debug, PartialEq, Eq)]
pub enum CheckResult {
    Passed,
    Failed(String),
}

/// What one compile attempt came to.
#[derive(Clone, Debug, PartialEq, Eq)]
pub enum CompileRun {
    /// The snippet could not be written to its scratch file.
    WriteFailed(String),
    /// The toolchain could not be launched.
    LaunchFailed(String),
    /// The toolchain ran; whether it exited with success, and its error stream.
    Exited { success: bool, stderr: String },
}

/// What one version query of the toolchain came to.
#[derive(Clone, Debug, PartialEq, Eq)]
pub enum ProbeRun {
    LaunchFailed(String),
    Exited { success: bool, stdout: String, stderr: String },
}

/// Where one check keeps its files: the snippet, the directory for build
/// output, and the library the toolchain leaves there.
#[derive(Clone, Debug, PartialEq, Eq)]
pub struct ScratchPaths {
    pub source: String,
    pub out_dir: String,
    pub artifact: String,
}

/// Lower-case hexadecimal digit for `d < 16`.
pub open spec fn hex_digit(d: nat) -> char {
    if d < 10 {
        ((d + 48) as u8) as char
    } else {
        ((d + 87) as u8) as char
    }
}

/// The last `n` hexadecimal digits of `t`, most significant first.
pub open spec fn hex_fixed(t: nat, n: nat) -> Seq<char>
    decreases n,
{
    if n == 0 {
        seq![]
    } else {
        hex_fixed(t / 16, (n - 1) as nat).push(hex_digit(t % 16))
    }
}

/// `16` to the power `n`.
pub open spec fn pow16(n: nat) -> nat
    decreases n,
{
    if n == 0 {
        1
    } else {
        16 * pow16((n - 1) as nat)
    }
}

/// The 32 hexadecimal digits of a token.
pub open spec fn token_hex(t: u128) -> Seq<char> {
    hex_fixed(t as nat, 32)
}

pub open spec fn source_path_for(t: u128) -> Seq<char> {
    "/tmp/audit_"@ + token_hex(t) + ".rs"@
}

pub open spec fn artifact_path_for(t: u128) -> Seq<char> {
    "/tmp/libaudit_"@ + token_hex(t) + ".rlib"@
}

impl ScratchPaths {
    /// The paths that belong to token `t`.
    pub open spec fn of_token(&self, t: u128) -> bool {
        &&& self.source@ == source_path_for(t)
        &&& self.out_dir@ == "/tmp"@
        &&& self.artifact@ == artifact_path_for(t)
    }
}

proof fn lemma_hex_digit_injective(a: nat, b: nat)
    requires
        a < 16,
        b < 16,
        hex_digit(a) == hex_digit(b),
    ensures
        a == b,
{
}

proof fn lemma_hex_fixed_injective(x: nat, y: nat, n: nat)
    requires
        x < pow16(n),
        y < pow16(n),
        hex_fixed(x, n) == hex_fixed(y, n),
    ensures
        x == y,
    decreases n,
{
    if n > 0 {
        let m = (n - 1) as nat;
        assert(hex_fixed(x, n).last() == hex_digit(x % 16));
        assert(hex_fixed(y, n).last() == hex_digit(y % 16));
        lemma_hex_digit_injective(x % 16, y % 16);
        assert(hex_fixed(x / 16, m) =~= hex_fixed(x, n).drop_last());
        assert(hex_fixed(y / 16, m) =~= hex_fixed(y, n).drop_last());
        assert(x / 16 < pow16(m)) by (nonlinear_arith)
            requires x < pow16(n), pow16(n) == 16 * pow16(m);
        assert(y / 16 < pow16(m)) by (nonlinear_arith)
            requires y < pow16(n), pow16(n) == 16 * pow16(m);
        lemma_hex_fixed_injective(x / 16, y / 16, m);
    }
}

proof fn lemma_hex_fixed_len(t: nat, n: nat)
    ensures
        hex_fixed(t, n).len() == n,
    decreases n,
{
    if n > 0 {
        lemma_hex_fixed_len(t / 16, (n - 1) as nat);
    }
}

/// Two checks with different tokens never share a scratch file or a build
/// artifact, so concurrent checks cannot see each other's files.
pub proof fn lemma_scratch_paths_distinct(a: u128, b: u128)
    requires
        a != b,
    ensures
        source_path_for(a) != source_path_for(b),
        artifact_path_for(a) != artifact_path_for(b),
{
    reveal_strlit("/tmp/audit_");
    reveal_strlit("/tmp/libaudit_");
    lemma_hex_fixed_len(a as nat, 32);
    lemma_hex_fixed_len(b as nat, 32);
    reveal_with_fuel(pow16, 33);
    assert(pow16(32) == 0x1_0000_0000_0000_0000_0000_0000_0000_0000);
    if source_path_for(a) == source_path_for(b) {
        assert(source_path_for(a).subrange(11, 43) =~= token_hex(a));
        assert(source_path_for(b).subrange(11, 43) =~= token_hex(b));
        lemma_hex_fixed_injective(a as nat, b as nat, 32);
    }
    if artifact_path_for(a) == artifact_path_for(b) {
        assert(artifact_path_for(a).subrange(14, 46) =~= token_hex(a));
        assert(artifact_path_for(b).subrange(14, 46) =~= token_hex(b));
        lemma_hex_fixed_injective(a as nat, b as nat, 32);
    }
}

/// Appends the last `n` hexadecimal digits of `t` to `out`.
fn push_hex(out: &mut String, t: u128, n: usize)
    requires
        n <= 32,
    ensures
        final(out)@ == old(out)@ + hex_fixed(t as nat, n as nat),
    decreases n,
{
    if n > 0 {
        push_hex(out, t / 16, n - 1);
        let d = t % 16;
        let lit = if d == 0 { "0" } else if d == 1 { "1" } else if d == 2 { "2" }
            else if d == 3 { "3" } else if d == 4 { "4" } else if d == 5 { "5" }
            else if d == 6 { "6" } else if d == 7 { "7" } else if d == 8 { "8" }
            else if d == 9 { "9" } else if d == 10 { "a" } else if d == 11 { "b" }
            else if d == 12 { "c" } else if d == 13 { "d" } else if d == 14 { "e" }
            else { "f" };
        proof {
            reveal_strlit("0"); reveal_strlit("1"); reveal_strlit("2"); reveal_strlit("3");
            reveal_strlit("4"); reveal_strlit("5"); reveal_strlit("6"); reveal_strlit("7");
            reveal_strlit("8"); reveal_strlit("9"); reveal_strlit("a"); reveal_strlit("b");
            reveal_strlit("c"); reveal_strlit("d"); reveal_strlit("e"); reveal_strlit("f");
            assert(lit@ =~= seq![hex_digit(d as nat)]);
        }
        out.append(lit);
        proof {
            assert(final(out)@ =~= old(out)@ + hex_fixed(t as nat, n as nat));
        }
    }
}

/// The scratch paths that belong to `token`.
pub fn scratch_paths(token: u128) -> (r: ScratchPaths)
    ensures
        r.of_token(token),
{
    let mut source = String::from_str("/tmp/audit_");
    push_hex(&mut source, token, 32);
    source.append(".rs");
    let mut artifact = String::from_str("/tmp/libaudit_");
    push_hex(&mut artifact, token, 32);
    artifact.append(".rlib");
    ScratchPaths { source, out_dir: String::from_str("/tmp"), artifact }
}

/// Message for a scratch file that could not be written.
pub open spec fn write_failure_message(e: Seq<char>) -> Seq<char> {
    "Failed to write temporary audit file: "@ + e
}

/// Message for a toolchain that could not be launched.
pub open spec fn launch_failure_message(e: Seq<char>) -> Seq<char> {
    "Failed to execute rustc command: "@ + e
}

/// The verdict that a compile attempt comes to. A snippet that the toolchain
/// rejected is a `Failed` verdict with the error stream verbatim; a toolchain
/// that could not judge it is an `Audit` error.
pub fn compile_verdict(run: CompileRun) -> (r: Result<CheckResult, AppError>)
    ensures
        match run {
            CompileRun::WriteFailed(e) => r matches Err(AppError::Audit(m))
                && m@ == write_failure_message(e@),
            CompileRun::LaunchFailed(e) => r matches Err(AppError::Audit(m))
                && m@ == launch_failure_message(e@),
            CompileRun::Exited { success, stderr } => if success {
                r == Ok::<CheckResult, AppError>(CheckResult::Passed)
            } else {
                r matches Ok(CheckResult::Failed(d)) && d@ == stderr@
            },
        },
{
    match run {
        CompileRun::WriteFailed(e) => {
            let mut m = String::from_str("Failed to write temporary audit file: ");
            m.append(e.as_str());
            Err(AppError::Audit(m))
        },
        CompileRun::LaunchFailed(e) => {
            let mut m = String::from_str("Failed to execute rustc command: ");
            m.append(e.as_str());
            Err(AppError::Audit(m))
        },
        CompileRun::Exited { success, stderr } => {
            if success {
                Ok(CheckResult::Passed)
            } else {
                Ok(CheckResult::Failed(stderr))
            }
        },
    }
}


/// The answer of a version query: the trimmed version line, or why the
/// toolchain is not usable.
pub fn probe_verdict(run: ProbeRun) -> (r: Result<String, String>)
    ensures
        match run {
            ProbeRun::LaunchFailed(e) => r matches Err(m)
                && m@ == "Failed to execute rustc: "@ + e@,
            ProbeRun::Exited { success, stdout, stderr } => if success {
                r matches Ok(v) && v@ == trimmed(stdout@)
            } else {
                r matches Err(m) && m@ == "rustc execution failed: "@ + stderr@
            },
        },
{
    match run {
        ProbeRun::LaunchFailed(e) => {
            let mut m = String::from_str("Failed to execute rustc: ");
            m.append(e.as_str());
            Err(m)
        },
        ProbeRun::Exited { success, stdout, stderr } => {
            if success {
                Ok(trim_whitespace(stdout.as_str()))
            } else {
                let mut m = String::from_str("rustc execution failed: ");
                m.append(stderr.as_str());
                Err(m)
            }
        },
    }
}

} // verus!
