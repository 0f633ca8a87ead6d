use ai_auditor::models::{AiAudit, AuditStats, CommonError};
use ai_auditor::stats::{compute_stats, top_errors};

fn record(id: u128, error: Option<&str>) -> AiAudit {
    AiAudit {
        id,
        prompt: "write a function".to_string(),
        codigo_generado: "fn f() {}".to_string(),
        es_valido: error.is_none(),
        error_compilacion: error.map(|e| e.to_string()),
        created_at: 1_700_000_000_000_000 + id as i64,
    }
}

fn bucket(text: &str, frequency: u64) -> CommonError {
    CommonError { error_message: text.to_string(), frequency }
}

#[test]
fn empty_store_gives_zero_summary() {
    let s = compute_stats(&Vec::new());
    assert_eq!(
        s,
        AuditStats { total_audits: 0, valid_audits: 0, invalid_audits: 0, common_errors: vec![] }
    );
    assert_eq!(s.validation_ratio(), (0, 1));
}

#[test]
fn counts_and_ratio() {
    let recs = vec![record(1, None), record(2, Some("e1")), record(3, None), record(4, None)];
    let s = compute_stats(&recs);
    assert_eq!(s.total_audits, 4);
    assert_eq!(s.valid_audits, 3);
    assert_eq!(s.invalid_audits, 1);
    assert_eq!(s.validation_ratio(), (3, 4));
    assert_eq!(s.common_errors, vec![bucket("e1", 1)]);
}

#[test]
fn long_diagnostics_share_a_bucket_by_prefix() {
    let head: String = "x".repeat(200);
    let mut recs = Vec::new();
    for i in 0..7u128 {
        let tail = format!("{:050}", i);
        let diag = format!("{}{}", head, tail);
        assert_eq!(diag.chars().count(), 250);
        recs.push(record(i, Some(&diag)));
    }
    let s = compute_stats(&recs);
    assert_eq!(s.common_errors, vec![CommonError { error_message: head, frequency: 7 }]);
    assert_eq!(s.invalid_audits, 7);
}

#[test]
fn prefix_counts_characters_not_bytes() {
    let head: String = "é".repeat(200);
    let a = format!("{}a", head);
    let b = format!("{}b", head);
    let recs = vec![record(1, Some(&a)), record(2, Some(&b))];
    let r = top_errors(&recs);
    assert_eq!(r, vec![CommonError { error_message: head, frequency: 2 }]);
}

#[test]
fn empty_diagnostics_are_not_bucketed() {
    let mut r = record(1, Some(""));
    r.es_valido = false;
    let s = compute_stats(&vec![r, record(2, None)]);
    assert_eq!(s.common_errors, vec![]);
    assert_eq!(s.invalid_audits, 1);
}

#[test]
fn ranks_by_frequency_then_text() {
    let recs = vec![
        record(1, Some("b")),
        record(2, Some("c")),
        record(3, Some("a")),
        record(4, Some("c")),
        record(5, Some("b")),
        record(6, Some("d")),
        record(7, Some("c")),
    ];
    let r = top_errors(&recs);
    assert_eq!(r, vec![bucket("c", 3), bucket("b", 2), bucket("a", 1), bucket("d", 1)]);
}

#[test]
fn keeps_at_most_ten_buckets() {
    let mut recs = Vec::new();
    let mut id: u128 = 0;
    for k in 0..12u64 {
        for _ in 0..(k + 1) {
            id += 1;
            recs.push(record(id, Some(&format!("err{:02}", k))));
        }
    }
    let r = top_errors(&recs);
    assert_eq!(r.len(), 10);
    assert_eq!(r[0], bucket("err11", 12));
    assert_eq!(r[9], bucket("err02", 3));
}

#[test]
fn shorter_key_ranks_first_on_ties() {
    let recs = vec![record(1, Some("ab")), record(2, Some("a")), record(3, Some("B"))];
    let r = top_errors(&recs);
    assert_eq!(r, vec![bucket("B", 1), bucket("a", 1), bucket("ab", 1)]);
}

#[test]
fn stats_are_repeatable() {
    let recs = vec![record(1, Some("z")), record(2, Some("y")), record(3, None)];
    assert_eq!(compute_stats(&recs), compute_stats(&recs));
}
