//! Turning a compile check into a record for the store.

use vstd::prelude::*;
use vstd::multiset::Multiset;
use crate::auditor::CheckResult;
use crate::error::AppError;
use crate::models::{AiAudit, CreateAuditRequest, NewAudit};

verus! {

/// The row to store for `input` once its check came back as `checked`. A
/// rejected snippet is data, stored with its diagnostic verbatim; a check
/// that could not run writes nothing and passes its error on.
pub fn prepare_audit(input: &CreateAuditRequest, checked: Result<CheckResult, AppError>) -> (r:
    Result<NewAudit, AppError>)
    ensures
        match checked {
            Err(e) => r == Err::<NewAudit, AppError>(e),
            Ok(v) => r matches Ok(row) && row.wf() && row.prompt@ == input.prompt@
                && row.codigo_generado@ == input.codigo_generado@ && match v {
                CheckResult::Passed => row.es_valido,
                CheckResult::Failed(d) => !row.es_valido && row.error_compilacion == Some(d),
            },
        },
{
    match checked {
        Err(e) => Err(e),
        Ok(v) => {
            let (es_valido, error_compilacion) = match v {
                CheckResult::Passed => (true, None),
                CheckResult::Failed(d) => (false, Some(d)),
            };
            Ok(
                NewAudit {
                    prompt: input.prompt.clone(),
                    codigo_generado: input.codigo_generado.clone(),
                    es_valido,
                    error_compilacion,
                },
            )
        },
    }
}


/// `a` is listed before `b`: the more recent first, and on equal
/// timestamps the larger identifier first.
pub open spec fn listed_before(a: AiAudit, b: AiAudit) -> bool {
    a.created_at > b.created_at || (a.created_at == b.created_at && a.id > b.id)
}

/// No record of `s` is listed before one that precedes it.
pub open spec fn in_listing_order(s: Seq<AiAudit>) -> bool {
    forall|i: int, j: int| 0 <= i < j < s.len() ==> !listed_before(#[trigger] s[j], #[trigger] s[i])
}

/// No two records of `s` share an identifier.
pub open spec fn ids_distinct(s: Seq<AiAudit>) -> bool {
    forall|i: int, j: int| 0 <= i < j < s.len() ==> (#[trigger] s[i]).id != (#[trigger] s[j]).id
}

fn is_listed_before(a: &AiAudit, b: &AiAudit) -> (r: bool)
    ensures
        r == listed_before(*a, *b),
{
    a.created_at > b.created_at || (a.created_at == b.created_at && a.id > b.id)
}

/// The records in listing order: most recent first, ties broken by the
/// larger identifier.
pub fn order_for_listing(records: Vec<AiAudit>) -> (r: Vec<AiAudit>)
    ensures
        in_listing_order(r@),
        r@.to_multiset() == records@.to_multiset(),
{
    broadcast use vstd::seq_lib::group_to_multiset_ensures;
    broadcast use vstd::multiset::group_multiset_axioms;

    let ghost orig = records@;
    let mut rest = records;
    let mut out: Vec<AiAudit> = Vec::new();
    proof {
        assert(out@.to_multiset() =~= Multiset::empty());
        assert(out@.to_multiset().add(rest@.to_multiset()) =~= orig.to_multiset());
    }
    while rest.len() > 0
        invariant
            in_listing_order(out@),
            out@.to_multiset().add(rest@.to_multiset()) == orig.to_multiset(),
        decreases rest.len(),
    {
        let ghost before_rest = rest@;
        let x = rest.pop().unwrap();
        proof {
            assert(before_rest =~= rest@.push(x));
            vstd::seq_lib::to_multiset_build(rest@, x);
            assert(out@.to_multiset().add(rest@.to_multiset().insert(x)) =~= orig.to_multiset());
        }
        let mut p: usize = out.len();
        let mut i: usize = 0;
        while i < out.len()
            invariant
                i <= out.len(),
                p <= out.len(),
                in_listing_order(out@),
                out@.to_multiset().add(rest@.to_multiset().insert(x)) == orig.to_multiset(),
                p == out.len() ==> forall|k: int| 0 <= k < i ==> !listed_before(x, #[trigger] out@[k]),
                p < out.len() ==> p < i && listed_before(x, out@[p as int]) && forall|k: int|
                    0 <= k < p ==> !listed_before(x, #[trigger] out@[k]),
            decreases out.len() - i,
        {
            if p == out.len() && is_listed_before(&x, &out[i]) {
                p = i;
            }
            i = i + 1;
        }
        let ghost old_out = out@;
        out.insert(p, x);
        proof {
            assert forall|a: int, b: int| 0 <= a < b < out@.len() implies !listed_before(
                #[trigger] out@[b],
                #[trigger] out@[a],
            ) by {
                if b < p {
                } else if b == p {
                    assert(out@[a] == old_out[a]);
                } else if a < p {
                    assert(out@[b] == old_out[b - 1]);
                    assert(out@[a] == old_out[a]);
                } else if a == p {
                    assert(out@[b] == old_out[b - 1]);
                    if p < old_out.len() && b - 1 > p {
                        assert(!listed_before(old_out[b - 1], old_out[p as int]));
                    }
                } else {
                    assert(out@[b] == old_out[b - 1]);
                    assert(out@[a] == old_out[a - 1]);
                }
            }
            vstd::seq_lib::to_multiset_insert(old_out, p as int, x);
            assert(out@ == old_out.insert(p as int, x));
            assert(out@.to_multiset().add(rest@.to_multiset()) =~= orig.to_multiset());
        }
    }
    proof {
        assert(rest@.to_multiset() =~= Multiset::empty());
        assert(out@.to_multiset() =~= orig.to_multiset());
    }
    out
}


proof fn lemma_sorted_unique(a: Seq<AiAudit>, b: Seq<AiAudit>)
    requires
        in_listing_order(a),
        in_listing_order(b),
        a.to_multiset() == b.to_multiset(),
        ids_distinct(a),
    ensures
        a == b,
    decreases a.len(),
{
    broadcast use vstd::seq_lib::group_to_multiset_ensures;
    broadcast use vstd::multiset::group_multiset_axioms;

    vstd::seq_lib::to_multiset_len(a);
    vstd::seq_lib::to_multiset_len(b);
    if a.len() == 0 {
        assert(a =~= b);
    } else {
        vstd::seq_lib::to_multiset_contains(a, a[0]);
        vstd::seq_lib::to_multiset_contains(b, a[0]);
        assert(a.contains(a[0]));
        let q = choose|q: int| 0 <= q < b.len() && b[q] == a[0];
        vstd::seq_lib::to_multiset_contains(b, b[0]);
        vstd::seq_lib::to_multiset_contains(a, b[0]);
        assert(b.contains(b[0]));
        let p = choose|p: int| 0 <= p < a.len() && a[p] == b[0];
        if p != 0 && q != 0 {
            assert(!listed_before(a[p], a[0]));
            assert(!listed_before(b[q], b[0]));
            assert(a[p].id == a[0].id);
        }
        assert(a[0] == b[0]);
        vstd::seq_lib::to_multiset_remove(a, 0);
        vstd::seq_lib::to_multiset_remove(b, 0);
        assert(a.remove(0) =~= a.drop_first());
        assert(b.remove(0) =~= b.drop_first());
        assert forall|i: int, j: int| 0 <= i < j < a.drop_first().len() implies !listed_before(
            #[trigger] a.drop_first()[j],
            #[trigger] a.drop_first()[i],
        ) by {
            assert(a.drop_first()[j] == a[j + 1] && a.drop_first()[i] == a[i + 1]);
        }
        assert forall|i: int, j: int| 0 <= i < j < b.drop_first().len() implies !listed_before(
            #[trigger] b.drop_first()[j],
            #[trigger] b.drop_first()[i],
        ) by {
            assert(b.drop_first()[j] == b[j + 1] && b.drop_first()[i] == b[i + 1]);
        }
        assert forall|i: int, j: int| 0 <= i < j < a.drop_first().len() implies (
        #[trigger] a.drop_first()[i]).id != (#[trigger] a.drop_first()[j]).id by {
            assert(a.drop_first()[j] == a[j + 1] && a.drop_first()[i] == a[i + 1]);
        }
        lemma_sorted_unique(a.drop_first(), b.drop_first());
        assert(a =~= b) by {
            assert forall|i: int| 0 <= i < a.len() implies a[i] == b[i] by {
                if i > 0 {
                    assert(a[i] == a.drop_first()[i - 1]);
                    assert(b[i] == b.drop_first()[i - 1]);
                }
            }
        }
    }
}

proof fn lemma_ids_distinct_kept(recs: Seq<AiAudit>, a: Seq<AiAudit>)
    requires
        ids_distinct(recs),
        a.to_multiset() == recs.to_multiset(),
    ensures
        ids_distinct(a),
{
    broadcast use vstd::seq_lib::group_to_multiset_ensures;
    broadcast use vstd::multiset::group_multiset_axioms;

    assert(recs.no_duplicates()) by {
        assert forall|i: int, j: int| 0 <= i < recs.len() && 0 <= j < recs.len() && i != j implies recs[i]
            != recs[j] by {
            if i < j {
                assert(recs[i].id != recs[j].id);
            } else {
                assert(recs[j].id != recs[i].id);
            }
        }
    }
    recs.lemma_multiset_has_no_duplicates();
    assert forall|i: int, j: int| 0 <= i < j < a.len() implies (#[trigger] a[i]).id != (
    #[trigger] a[j]).id by {
        if a[i].id == a[j].id {
            let x = a[i];
            let y = a[j];
            vstd::seq_lib::to_multiset_contains(a, x);
            vstd::seq_lib::to_multiset_contains(a, y);
            vstd::seq_lib::to_multiset_contains(recs, x);
            vstd::seq_lib::to_multiset_contains(recs, y);
            assert(a.contains(x));
            assert(a.contains(y));
            let p = choose|p: int| 0 <= p < recs.len() && recs[p] == x;
            let q = choose|q: int| 0 <= q < recs.len() && recs[q] == y;
            if p < q {
                assert(recs[p].id != recs[q].id);
            } else if q < p {
                assert(recs[q].id != recs[p].id);
            }
            assert(x == y);
            vstd::seq_lib::to_multiset_remove(a, i);
            assert(a.remove(i)[j - 1] == y);
            vstd::seq_lib::to_multiset_contains(a.remove(i), y);
            assert(a.remove(i).contains(y));
            assert(recs.to_multiset().count(x) == 1);
        }
    }
}

/// Listing keeps the records' consistency: where every record read from the
/// store carries a diagnostic exactly when its snippet was rejected, so does
/// every record of a listing of them.
pub proof fn lemma_listing_keeps_wf(recs: Seq<AiAudit>, a: Seq<AiAudit>)
    requires
        forall|i: int| 0 <= i < recs.len() ==> (#[trigger] recs[i]).wf(),
        a.to_multiset() == recs.to_multiset(),
    ensures
        forall|i: int| 0 <= i < a.len() ==> (#[trigger] a[i]).wf(),
{
    broadcast use vstd::multiset::group_multiset_axioms;

    assert forall|i: int| 0 <= i < a.len() implies (#[trigger] a[i]).wf() by {
        vstd::seq_lib::to_multiset_contains(a, a[i]);
        vstd::seq_lib::to_multiset_contains(recs, a[i]);
        assert(a.contains(a[i]));
        let p = choose|p: int| 0 <= p < recs.len() && recs[p] == a[i];
        assert(recs[p].wf());
    }
}

/// Listing is deterministic: where identifiers are unique, the records have
/// exactly one listing order, so two listings of the same records agree.
pub proof fn lemma_listing_unique(recs: Seq<AiAudit>, a: Seq<AiAudit>, b: Seq<AiAudit>)
    requires
        ids_distinct(recs),
        in_listing_order(a),
        in_listing_order(b),
        a.to_multiset() == recs.to_multiset(),
        b.to_multiset() == recs.to_multiset(),
    ensures
        a == b,
{
    lemma_ids_distinct_kept(recs, a);
    lemma_sorted_unique(a, b);
}

} // verus!
