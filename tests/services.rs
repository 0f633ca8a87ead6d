use ai_auditor::auditor::CheckResult;
use ai_auditor::error::AppError;
use ai_auditor::models::{CreateAuditRequest, NewAudit};
use ai_auditor::services::prepare_audit;

fn request(code: &str) -> CreateAuditRequest {
    CreateAuditRequest { prompt: "add two numbers".to_string(), codigo_generado: code.to_string() }
}

#[test]
fn passing_snippet_is_stored_valid() {
    let input = request("pub fn add(a: i32, b: i32) -> i32 { a + b }");
    let r = prepare_audit(&input, Ok(CheckResult::Passed));
    assert_eq!(
        r,
        Ok(NewAudit {
            prompt: "add two numbers".to_string(),
            codigo_generado: "pub fn add(a: i32, b: i32) -> i32 { a + b }".to_string(),
            es_valido: true,
            error_compilacion: None,
        })
    );
}

#[test]
fn failing_snippet_is_stored_with_diagnostic() {
    let input = request("fn broken( { ");
    let d = "error: this file contains an unclosed delimiter".to_string();
    let r = prepare_audit(&input, Ok(CheckResult::Failed(d.clone())));
    let row = r.unwrap();
    assert!(!row.es_valido);
    assert_eq!(row.error_compilacion, Some(d));
    assert_eq!(row.codigo_generado, "fn broken( { ");
}

#[test]
fn toolchain_failure_stores_nothing() {
    let input = request("fn f() {}");
    let e = AppError::Audit("Failed to execute rustc command: not found".to_string());
    assert_eq!(prepare_audit(&input, Err(e.clone())), Err(e));
}

#[test]
fn errors_describe_themselves() {
    let e = AppError::Database("connection reset".to_string());
    assert_eq!(e.describe(), "Database error: connection reset");
    assert_eq!(e.client_message(), "An internal database error occurred");
    let e = AppError::NotFound("audit 7".to_string());
    assert_eq!(e.describe(), "Resource not found: audit 7");
    assert_eq!(e.client_message(), "audit 7");
    let e = AppError::Audit("boom".to_string());
    assert_eq!(e.describe(), "Audit error: boom");
    assert_eq!(e.client_message(), "The code validation service is unavailable");
}

fn stored(id: u128, created_at: i64) -> ai_auditor::models::AiAudit {
    ai_auditor::models::AiAudit {
        id,
        prompt: format!("prompt {}", id),
        codigo_generado: "fn f() {}".to_string(),
        es_valido: true,
        error_compilacion: None,
        created_at,
    }
}

#[test]
fn listing_is_most_recent_first_with_id_tie_break() {
    let recs = vec![stored(1, 10), stored(2, 30), stored(3, 20), stored(5, 20), stored(4, 20)];
    let ids: Vec<u128> = ai_auditor::services::order_for_listing(recs).iter().map(|a| a.id).collect();
    assert_eq!(ids, vec![2, 5, 4, 3, 1]);
}

#[test]
fn listing_is_repeatable_and_order_independent() {
    let a = vec![stored(7, 5), stored(8, 5), stored(9, 1)];
    let b = vec![stored(9, 1), stored(8, 5), stored(7, 5)];
    let la = ai_auditor::services::order_for_listing(a.clone());
    let la2 = ai_auditor::services::order_for_listing(a);
    let lb = ai_auditor::services::order_for_listing(b);
    assert_eq!(la, la2);
    assert_eq!(la, lb);
    assert!(ai_auditor::services::order_for_listing(Vec::new()).is_empty());
}
