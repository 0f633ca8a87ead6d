//! Summary statistics over the stored records: counts, and the most frequent
//! diagnostics, bucketed by their leading characters.

use vstd::prelude::*;
use crate::models::{AiAudit, AuditStats, CommonError};
use crate::text::{chars_of, prefix_of, truncate_chars};

verus! {

/// How many buckets of recurring diagnostics a summary lists at most.
pub const MAX_COMMON_ERRORS: usize = 10;

/// How many leading characters of a diagnostic make its bucket key.
pub const ERROR_KEY_CHARS: usize = 200;

/// The bucket key of a record: the leading characters of its diagnostic, or
/// nothing where it has none or an empty one.
pub open spec fn error_key(a: AiAudit) -> Option<Seq<char>> {
    match a.error_compilacion {
        Some(e) => if e@.len() > 0 {
            Some(prefix_of(e@, ERROR_KEY_CHARS as nat))
        } else {
            None
        },
        None => None,
    }
}

/// How many of `recs` fall in the bucket with key `k`.
pub open spec fn key_count(recs: Seq<AiAudit>, k: Seq<char>) -> nat
    decreases recs.len(),
{
    if recs.len() == 0 {
        0
    } else {
        key_count(recs.drop_last(), k) + if error_key(recs.last()) == Some(k) {
            1nat
        } else {
            0nat
        }
    }
}

/// How many of `recs` passed their check.
pub open spec fn valid_count(recs: Seq<AiAudit>) -> nat
    decreases recs.len(),
{
    if recs.len() == 0 {
        0
    } else {
        valid_count(recs.drop_last()) + if recs.last().es_valido {
            1nat
        } else {
            0nat
        }
    }
}

/// Lexicographic order of character sequences by code point.
pub open spec fn seq_less(a: Seq<char>, b: Seq<char>) -> bool
    decreases a.len(),
{
    if a.len() == 0 {
        b.len() > 0
    } else if b.len() == 0 {
        false
    } else if a[0] != b[0] {
        (a[0] as u32) < (b[0] as u32)
    } else {
        seq_less(a.drop_first(), b.drop_first())
    }
}

/// Bucket `(fa, a)` is listed before bucket `(fb, b)`: higher frequency
/// first, then the key that is smaller in `seq_less`.
pub open spec fn ranks_before(fa: nat, a: Seq<char>, fb: nat, b: Seq<char>) -> bool {
    fa > fb || (fa == fb && seq_less(a, b))
}

/// `r` lists the most frequent buckets of `recs`: each entry a bucket with
/// its exact frequency, in strict ranking order, at most
/// `MAX_COMMON_ERRORS` of them, and every bucket left out ranked after all
/// that are listed, which are then as many as allowed.
pub open spec fn is_top_errors(recs: Seq<AiAudit>, r: Seq<CommonError>) -> bool {
    &&& r.len() <= MAX_COMMON_ERRORS
    &&& forall|i: int|
        0 <= i < r.len() ==> key_count(recs, #[trigger] r[i].error_message@) > 0
            && r[i].frequency == key_count(recs, r[i].error_message@)
    &&& forall|i: int, j: int|
        0 <= i < j < r.len() ==> ranks_before(
            #[trigger] r[i].frequency as nat,
            r[i].error_message@,
            #[trigger] r[j].frequency as nat,
            r[j].error_message@,
        )
    &&& forall|k: Seq<char>|
        #[trigger] key_count(recs, k) > 0 && !message_listed(r, k) ==> r.len() == MAX_COMMON_ERRORS
            && all_before(r, key_count(recs, k), k)
}

/// Some entry of `r` has the key `k`.
pub open spec fn message_listed(r: Seq<CommonError>, k: Seq<char>) -> bool {
    exists|i: int| 0 <= i < r.len() && (#[trigger] r[i]).error_message@ == k
}

/// Every entry of `r` ranks before the bucket `(f, k)`.
pub open spec fn all_before(r: Seq<CommonError>, f: nat, k: Seq<char>) -> bool {
    forall|i: int|
        0 <= i < r.len() ==> ranks_before(
            #[trigger] r[i].frequency as nat,
            r[i].error_message@,
            f,
            k,
        )
}

/// Some entry of `src` is `j`.
pub open spec fn index_listed(src: Seq<int>, j: int) -> bool {
    exists|i: int| 0 <= i < src.len() && #[trigger] src[i] == j
}

proof fn lemma_seq_less_trans(a: Seq<char>, b: Seq<char>, c: Seq<char>)
    requires
        seq_less(a, b),
        seq_less(b, c),
    ensures
        seq_less(a, c),
    decreases a.len(),
{
    if a.len() > 0 && b.len() > 0 && c.len() > 0 && a[0] == b[0] && b[0] == c[0] {
        lemma_seq_less_trans(a.drop_first(), b.drop_first(), c.drop_first());
    }
}

proof fn lemma_seq_less_total(a: Seq<char>, b: Seq<char>)
    requires
        a != b,
    ensures
        seq_less(a, b) || seq_less(b, a),
    decreases a.len(),
{
    if a.len() == 0 && b.len() == 0 {
        assert(a =~= b);
    }
    if a.len() > 0 && b.len() > 0 && a[0] != b[0] {
        vstd::utf8::char_u32_cast(a[0], a[0] as u32);
        vstd::utf8::char_u32_cast(b[0], b[0] as u32);
    }
    if a.len() > 0 && b.len() > 0 && a[0] == b[0] {
        if a.drop_first() == b.drop_first() {
            assert(a.drop_first().len() == b.drop_first().len());
            assert(a =~= b) by {
                assert forall|i: int| 0 <= i < a.len() implies a[i] == b[i] by {
                    if i > 0 {
                        assert(a[i] == a.drop_first()[i - 1]);
                        assert(b[i] == b.drop_first()[i - 1]);
                    }
                }
            }
        }
        lemma_seq_less_total(a.drop_first(), b.drop_first());
    }
}

proof fn lemma_seq_less_irreflexive(a: Seq<char>)
    ensures
        !seq_less(a, a),
    decreases a.len(),
{
    if a.len() > 0 {
        lemma_seq_less_irreflexive(a.drop_first());
    }
}

proof fn lemma_ranks_before_trans(fa: nat, a: Seq<char>, fb: nat, b: Seq<char>, fc: nat, c: Seq<char>)
    requires
        ranks_before(fa, a, fb, b),
        ranks_before(fb, b, fc, c),
    ensures
        ranks_before(fa, a, fc, c),
{
    if fa == fb && fb == fc {
        lemma_seq_less_trans(a, b, c);
    }
}

proof fn lemma_ranks_before_total(fa: nat, a: Seq<char>, fb: nat, b: Seq<char>)
    requires
        a != b,
    ensures
        ranks_before(fa, a, fb, b) || ranks_before(fb, b, fa, a),
{
    lemma_seq_less_total(a, b);
}

/// Whether `a` comes before `b` in `seq_less`.
fn less_chars(a: &Vec<char>, b: &Vec<char>) -> (r: bool)
    ensures
        r == seq_less(a@, b@),
{
    let mut i: usize = 0;
    proof {
        assert(a@.skip(0) =~= a@);
        assert(b@.skip(0) =~= b@);
    }
    while i < a.len() && i < b.len() && a[i] == b[i]
        invariant
            i <= a.len(),
            i <= b.len(),
            seq_less(a@, b@) == seq_less(a@.skip(i as int), b@.skip(i as int)),
        decreases a.len() - i,
    {
        proof {
            assert(a@.skip(i as int).drop_first() =~= a@.skip(i + 1));
            assert(b@.skip(i as int).drop_first() =~= b@.skip(i + 1));
        }
        i = i + 1;
    }
    if i == a.len() {
        i < b.len()
    } else if i == b.len() {
        false
    } else {
        (a[i] as u32) < (b[i] as u32)
    }
}


proof fn lemma_ranks_before_asym(fa: nat, a: Seq<char>, fb: nat, b: Seq<char>)
    requires
        ranks_before(fa, a, fb, b),
    ensures
        !ranks_before(fb, b, fa, a),
{
    if fa == fb && seq_less(b, a) {
        lemma_seq_less_trans(a, b, a);
        lemma_seq_less_irreflexive(a);
    }
}

/// Entries `i` of `r1` and `r2` carry the same key and frequency.
pub open spec fn agree_at(r1: Seq<CommonError>, r2: Seq<CommonError>, i: int) -> bool {
    r1[i].error_message@ == r2[i].error_message@ && r1[i].frequency == r2[i].frequency
}

/// In a list meeting `is_top_errors`, no key is listed twice.
proof fn lemma_top_distinct(recs: Seq<AiAudit>, r: Seq<CommonError>, p: int, q: int)
    requires
        is_top_errors(recs, r),
        0 <= p < q < r.len(),
    ensures
        r[p].error_message@ != r[q].error_message@,
{
    if r[p].error_message@ == r[q].error_message@ {
        assert(ranks_before(
            r[p].frequency as nat,
            r[p].error_message@,
            r[q].frequency as nat,
            r[q].error_message@,
        ));
        lemma_seq_less_irreflexive(r[p].error_message@);
    }
}

/// Where both lists agree before `i`, the entry at `i` of `r2` ranks
/// before the entry at `i` of `r1` unless the keys are the same.
proof fn lemma_other_ranks_first(recs: Seq<AiAudit>, r1: Seq<CommonError>, r2: Seq<CommonError>, i: int)
    requires
        is_top_errors(recs, r1),
        is_top_errors(recs, r2),
        0 <= i < r1.len(),
        i < r2.len(),
        forall|j: int| 0 <= j < i ==> #[trigger] agree_at(r1, r2, j),
        r1[i].error_message@ != r2[i].error_message@,
    ensures
        ranks_before(
            r2[i].frequency as nat,
            r2[i].error_message@,
            r1[i].frequency as nat,
            r1[i].error_message@,
        ),
{
    let k = r1[i].error_message@;
    assert(key_count(recs, k) > 0);
    if message_listed(r2, k) {
        let p = choose|p: int| 0 <= p < r2.len() && (#[trigger] r2[p]).error_message@ == k;
        if p < i {
            assert(agree_at(r1, r2, p));
            lemma_top_distinct(recs, r1, p, i);
        } else {
            assert(ranks_before(
                r2[i].frequency as nat,
                r2[i].error_message@,
                r2[p].frequency as nat,
                r2[p].error_message@,
            ));
        }
    } else {
        assert(all_before(r2, key_count(recs, k), k));
        assert(ranks_before(
            r2[i].frequency as nat,
            r2[i].error_message@,
            key_count(recs, k),
            k,
        ));
    }
}

proof fn lemma_agree_upto(recs: Seq<AiAudit>, r1: Seq<CommonError>, r2: Seq<CommonError>, n: int)
    requires
        is_top_errors(recs, r1),
        is_top_errors(recs, r2),
        0 <= n <= r1.len(),
        n <= r2.len(),
    ensures
        forall|j: int| 0 <= j < n ==> #[trigger] agree_at(r1, r2, j),
    decreases n,
{
    if n > 0 {
        let i = n - 1;
        lemma_agree_upto(recs, r1, r2, i);
        if r1[i].error_message@ != r2[i].error_message@ {
            lemma_other_ranks_first(recs, r1, r2, i);
            assert forall|j: int| 0 <= j < i implies #[trigger] agree_at(r2, r1, j) by {
                assert(agree_at(r1, r2, j));
            }
            lemma_other_ranks_first(recs, r2, r1, i);
            lemma_ranks_before_asym(
                r2[i].frequency as nat,
                r2[i].error_message@,
                r1[i].frequency as nat,
                r1[i].error_message@,
            );
        }
        assert(agree_at(r1, r2, i));
    }
}

/// Where `r1` is shorter, the entry of `r2` just past its end would be a
/// bucket that `r1` left out although it had room.
proof fn lemma_not_shorter(recs: Seq<AiAudit>, r1: Seq<CommonError>, r2: Seq<CommonError>)
    requires
        is_top_errors(recs, r1),
        is_top_errors(recs, r2),
    ensures
        r2.len() <= r1.len(),
{
    if r1.len() < r2.len() {
        let n = r1.len() as int;
        lemma_agree_upto(recs, r1, r2, n);
        let k = r2[n].error_message@;
        assert(key_count(recs, k) > 0);
        if message_listed(r1, k) {
            let p = choose|p: int| 0 <= p < r1.len() && (#[trigger] r1[p]).error_message@ == k;
            assert(agree_at(r1, r2, p));
            lemma_top_distinct(recs, r2, p, n);
        }
    }
}

/// The most frequent buckets are determined by the records: two lists that
/// both meet `is_top_errors` have the same length and agree entry by entry,
/// ties included.
pub proof fn lemma_top_errors_unique(recs: Seq<AiAudit>, r1: Seq<CommonError>, r2: Seq<CommonError>)
    requires
        is_top_errors(recs, r1),
        is_top_errors(recs, r2),
    ensures
        r1.len() == r2.len(),
        forall|i: int| 0 <= i < r1.len() ==> #[trigger] agree_at(r1, r2, i),
{
    lemma_not_shorter(recs, r1, r2);
    lemma_not_shorter(recs, r2, r1);
    lemma_agree_upto(recs, r1, r2, r1.len() as int);
}

/// Whether bucket `(fa, a)` is listed before bucket `(fb, b)`.
fn ranks_first(fa: u64, a: &Vec<char>, fb: u64, b: &Vec<char>) -> (r: bool)
    ensures
        r == ranks_before(fa as nat, a@, fb as nat, b@),
{
    fa > fb || (fa == fb && less_chars(a, b))
}

/// The bucket key of one record.
fn record_key(a: &AiAudit) -> (r: Option<String>)
    ensures
        match r {
            Some(t) => error_key(*a) == Some(t@),
            None => error_key(*a) is None,
        },
{
    match &a.error_compilacion {
        Some(e) => {
            if e.as_str().unicode_len() > 0 {
                Some(truncate_chars(e.as_str(), ERROR_KEY_CHARS))
            } else {
                None
            }
        },
        None => None,
    }
}

/// `texts`, `chars` and `counts` describe the buckets of `recs`: one entry
/// per distinct key, with its characters and its exact count.
pub open spec fn buckets_of(
    recs: Seq<AiAudit>,
    texts: Seq<String>,
    chars: Seq<Vec<char>>,
    counts: Seq<u64>,
) -> bool {
    &&& texts.len() == chars.len() == counts.len()
    &&& forall|j: int|
        #![trigger chars[j]]
        #![trigger texts[j]]
        #![trigger counts[j]]
        0 <= j < texts.len() ==> chars[j]@ == texts[j]@ && counts[j] == key_count(
            recs,
            texts[j]@,
        ) && counts[j] > 0
    &&& forall|j: int, k: int|
        0 <= j < texts.len() && 0 <= k < texts.len() && j != k ==> (#[trigger] texts[j])@
            != (#[trigger] texts[k])@
    &&& forall|key: Seq<char>|
        #[trigger] key_count(recs, key) > 0 ==> exists|j: int|
            0 <= j < texts.len() && (#[trigger] texts[j])@ == key
}

proof fn lemma_key_count_step(recs: Seq<AiAudit>, i: int, k: Seq<char>)
    requires
        0 <= i < recs.len(),
    ensures
        key_count(recs.take(i + 1), k) == key_count(recs.take(i), k) + if error_key(recs[i])
            == Some(k) {
            1nat
        } else {
            0nat
        },
{
    assert(recs.take(i + 1).drop_last() =~= recs.take(i));
}

/// Groups the diagnostics of `records` into buckets.
fn bucket_errors(records: &Vec<AiAudit>) -> (r: (Vec<String>, Vec<Vec<char>>, Vec<u64>))
    ensures
        buckets_of(records@, r.0@, r.1@, r.2@),
{
    let mut texts: Vec<String> = Vec::new();
    let mut chars: Vec<Vec<char>> = Vec::new();
    let mut counts: Vec<u64> = Vec::new();
    for i in 0..records.len()
        invariant
            buckets_of(records@.take(i as int), texts@, chars@, counts@),
            forall|j: int| 0 <= j < counts.len() ==> counts[j] <= i,
    {
        let ghost before = records@.take(i as int);
        let ghost after = records@.take(i + 1);
        proof {
            assert forall|k: Seq<char>| #[trigger] key_count(after, k) == key_count(before, k)
                + if error_key(records@[i as int]) == Some(k) {
                1nat
            } else {
                0nat
            } by {
                lemma_key_count_step(records@, i as int, k);
            }
        }
        let key = record_key(&records[i]);
        match key {
            Some(t) => {
                assert(error_key(records@[i as int]) == Some(t@));
                let ghost old_counts = counts@;
                let ghost old_chars = chars@;
                assert forall|j: int| 0 <= j < texts.len() implies (#[trigger] old_chars[j])@ == texts[j]@
                    && old_counts[j] == key_count(before, texts[j]@) && old_counts[j] > 0 by {
                    assert(chars@[j] == old_chars[j]);
                    assert(counts@[j] == old_counts[j]);
                }
                let mut found: usize = texts.len();
                for j in 0..texts.len()
                    invariant
                        found == texts.len() ==> forall|j2: int| 0 <= j2 < j ==> texts[j2]@ != t@,
                        found < texts.len() ==> texts[found as int]@ == t@,
                        found <= texts.len(),
                {
                    if found == texts.len() && texts[j] == t {
                        found = j;
                    }
                }
                if found < texts.len() {
                    let c = counts[found] + 1;
                    counts.set(found, c);
                    proof {
                        assert forall|j: int| 0 <= j < texts.len() implies (#[trigger] chars[j])@ == texts[j]@
                            && counts[j] == key_count(after, texts[j]@) && counts[j] > 0 by {
                            assert(chars[j] == old_chars[j]);
                            if j != found {
                                assert(texts[j]@ != texts[found as int]@);
                                assert(counts[j] == old_counts[j]);
                                assert(key_count(after, texts[j]@) == key_count(before, texts[j]@));
                            } else {
                                assert(key_count(after, texts[j]@) == key_count(before, texts[j]@) + 1);
                            }
                        }
                        assert forall|key2: Seq<char>| #[trigger] key_count(after, key2) > 0 implies exists|j: int|
                            0 <= j < texts.len() && (#[trigger] texts[j])@ == key2 by {
                            if key_count(before, key2) == 0 {
                                assert(texts[found as int]@ == key2);
                            }
                        }
                    }
                } else {
                    let tc = chars_of(t.as_str());
                    let ghost old_texts = texts@;
                    texts.push(t);
                    chars.push(tc);
                    counts.push(1);
                    proof {
                        let n = texts.len() - 1;
                        assert(key_count(before, t@) == 0);
                        assert forall|j: int| 0 <= j < texts.len() implies (#[trigger] chars[j])@ == texts[j]@
                            && counts[j] == key_count(after, texts[j]@) && counts[j] > 0 by {
                            if j < n {
                                assert(texts[j] == old_texts[j]);
                                assert(chars[j] == old_chars[j]);
                                assert(counts[j] == old_counts[j]);
                                assert(old_texts[j]@ != texts[n]@);
                                assert(key_count(after, texts[j]@) == key_count(before, texts[j]@));
                            } else {
                                assert(key_count(after, texts[j]@) == key_count(before, texts[j]@) + 1);
                            }
                        }
                        assert forall|j: int, k: int|
                            0 <= j < texts.len() && 0 <= k < texts.len() && j != k implies (#[trigger] texts[j])@
                                != (#[trigger] texts[k])@ by {
                            if j < n && k < n {
                                assert(texts[j] == old_texts[j]);
                                assert(texts[k] == old_texts[k]);
                            } else if j < n {
                                assert(texts[j] == old_texts[j]);
                            } else {
                                assert(texts[k] == old_texts[k]);
                            }
                        }
                        assert forall|key2: Seq<char>| #[trigger] key_count(after, key2) > 0 implies exists|j: int|
                            0 <= j < texts.len() && (#[trigger] texts[j])@ == key2 by {
                            if key_count(before, key2) == 0 {
                                assert(texts[n]@ == key2);
                            } else {
                                let j0 = choose|j: int| 0 <= j < old_texts.len() && (#[trigger] old_texts[j])@ == key2;
                                assert(texts@[j0] == old_texts[j0]);
                            }
                        }
                    }
                }
            },
            None => {
                proof {
                    assert forall|key2: Seq<char>| #[trigger] key_count(after, key2) == key_count(before, key2) by {}
                    assert forall|j: int| 0 <= j < texts.len() implies (#[trigger] chars[j])@ == texts[j]@
                        && counts[j] == key_count(after, texts[j]@) && counts[j] > 0 by {
                        assert(key_count(after, texts[j]@) == key_count(before, texts[j]@));
                    }
                    assert(buckets_of(after, texts@, chars@, counts@));
                }
            },
        }
        assert(buckets_of(after, texts@, chars@, counts@));
    }
    proof {
        assert(records@.take(records.len() as int) =~= records@);
    }
    (texts, chars, counts)
}


/// `r` lists buckets of `texts` and `counts` in ranking order, at most
/// `MAX_COMMON_ERRORS` of them, and every bucket left out ranks after all
/// that are listed, which are then as many as allowed.
pub open spec fn ranked_from(
    texts: Seq<String>,
    counts: Seq<u64>,
    r: Seq<CommonError>,
    src: Seq<int>,
) -> bool {
    &&& r.len() <= MAX_COMMON_ERRORS
    &&& src.len() == r.len()
    &&& forall|i: int|
        0 <= i < r.len() ==> 0 <= #[trigger] src[i] < texts.len() && texts[src[i]]@
            == r[i].error_message@ && r[i].frequency == counts[src[i]]
    &&& forall|i: int, i2: int|
        0 <= i < i2 < r.len() ==> ranks_before(
            #[trigger] r[i].frequency as nat,
            r[i].error_message@,
            #[trigger] r[i2].frequency as nat,
            r[i2].error_message@,
        )
    &&& forall|j: int|
        0 <= j < texts.len() && !#[trigger] index_listed(src, j) ==> r.len() == MAX_COMMON_ERRORS
    &&& forall|j: int|
        0 <= j < texts.len() && !index_listed(src, j) ==> #[trigger] all_before(
            r,
            counts[j] as nat,
            texts[j]@,
        )
}

/// Picks the best-ranked buckets, at most `MAX_COMMON_ERRORS` of them, in
/// ranking order.
fn rank_buckets(texts: &Vec<String>, chars: &Vec<Vec<char>>, counts: &Vec<u64>) -> (res: (
    Vec<CommonError>,
    Ghost<Seq<int>>,
))
    requires
        texts.len() == chars.len() == counts.len(),
        forall|j: int| 0 <= j < texts.len() ==> (#[trigger] chars[j])@ == texts[j]@,
        forall|j: int, k: int|
            0 <= j < texts.len() && 0 <= k < texts.len() && j != k ==> (#[trigger] texts[j])@
                != (#[trigger] texts[k])@,
    ensures
        ranked_from(texts@, counts@, res.0@, res.1@),
{
    let n = texts.len();
    let mut chosen: Vec<bool> = Vec::new();
    for j in 0..n
        invariant
            chosen.len() == j,
            forall|j2: int| 0 <= j2 < j ==> !chosen[j2],
    {
        chosen.push(false);
    }
    let mut r: Vec<CommonError> = Vec::new();
    let ghost mut src: Seq<int> = seq![];
    let mut done = false;
    while r.len() < MAX_COMMON_ERRORS && !done
        invariant
            n == texts.len() == chars.len() == counts.len() == chosen.len(),
            forall|j: int| 0 <= j < texts.len() ==> (#[trigger] chars[j])@ == texts[j]@,
            forall|j: int, k: int|
                0 <= j < texts.len() && 0 <= k < texts.len() && j != k ==> (#[trigger] texts[j])@
                    != (#[trigger] texts[k])@,
            r.len() <= MAX_COMMON_ERRORS,
            src.len() == r.len(),
            forall|i: int|
                0 <= i < r.len() ==> 0 <= #[trigger] src[i] < n && chosen[src[i]]
                    && r[i].error_message@ == texts[src[i]]@ && r[i].frequency == counts[src[i]],
            forall|j: int| 0 <= j < n && #[trigger] chosen[j] ==> exists|i: int| 0 <= i < r.len() && src[i] == j,
            forall|i: int, i2: int|
                0 <= i < i2 < r.len() ==> ranks_before(
                    #[trigger] r[i].frequency as nat,
                    r[i].error_message@,
                    #[trigger] r[i2].frequency as nat,
                    r[i2].error_message@,
                ),
            forall|i: int, j: int|
                0 <= i < r.len() && 0 <= j < n && !#[trigger] chosen[j] ==> ranks_before(
                    #[trigger] r[i].frequency as nat,
                    r[i].error_message@,
                    counts[j] as nat,
                    texts[j]@,
                ),
            done ==> forall|j: int| 0 <= j < n ==> #[trigger] chosen[j],
        decreases MAX_COMMON_ERRORS - r.len(), if done { 0int } else { 1int },
    {
        let mut best: usize = n;
        for j in 0..n
            invariant
                n == texts.len() == chars.len() == counts.len() == chosen.len(),
                forall|j: int| 0 <= j < texts.len() ==> (#[trigger] chars[j])@ == texts[j]@,
                forall|j: int, k: int|
                    0 <= j < texts.len() && 0 <= k < texts.len() && j != k ==> (#[trigger] texts[j])@
                        != (#[trigger] texts[k])@,
                best == n || (best < j && !chosen[best as int]),
                best == n ==> forall|j2: int| 0 <= j2 < j ==> #[trigger] chosen[j2],
                best < n ==> forall|j2: int|
                    0 <= j2 < j && !#[trigger] chosen[j2] && j2 != best ==> ranks_before(
                        counts[best as int] as nat,
                        texts[best as int]@,
                        counts[j2] as nat,
                        texts[j2]@,
                    ),
        {
            if !chosen[j] {
                if best == n || ranks_first(counts[j], &chars[j], counts[best], &chars[best]) {
                    proof {
                        if best < n {
                            let b = best as int;
                            assert forall|j2: int|
                                0 <= j2 < j + 1 && !#[trigger] chosen[j2] && j2 != j implies ranks_before(
                                    counts[j as int] as nat,
                                    texts[j as int]@,
                                    counts[j2] as nat,
                                    texts[j2]@,
                                ) by {
                                if j2 != b {
                                    lemma_ranks_before_trans(
                                        counts[j as int] as nat,
                                        texts[j as int]@,
                                        counts[b] as nat,
                                        texts[b]@,
                                        counts[j2] as nat,
                                        texts[j2]@,
                                    );
                                }
                            }
                        }
                    }
                    best = j;
                } else {
                    proof {
                        lemma_ranks_before_total(
                            counts[best as int] as nat,
                            texts[best as int]@,
                            counts[j as int] as nat,
                            texts[j as int]@,
                        );
                    }
                }
            }
        }
        if best == n {
            done = true;
        } else {
            let ghost old_chosen = chosen@;
            let ghost old_src = src;
            chosen.set(best, true);
            let e = CommonError { error_message: texts[best].clone(), frequency: counts[best] };
            r.push(e);
            proof {
                src = src.push(best as int);
                assert forall|j: int| 0 <= j < n && #[trigger] chosen[j] implies exists|i: int| 0 <= i < r.len() && src[i] == j by {
                    if j != best {
                        assert(old_chosen[j]);
                        let i0 = choose|i: int| 0 <= i < r.len() - 1 && old_src[i] == j;
                        assert(src[i0] == old_src[i0]);
                    } else {
                        assert(src[r.len() - 1] == j);
                    }
                }
            }
        }
    }
    proof {
        let ts = texts@;
        let cs = counts@;
        let rs = r@;
        assert forall|j: int|
            0 <= j < ts.len() && !index_listed(src, j) implies rs.len() == MAX_COMMON_ERRORS
                && #[trigger] all_before(rs, cs[j] as nat, ts[j]@) by {
            if chosen[j] {
                let i0 = choose|i: int| 0 <= i < r.len() && src[i] == j;
                assert(index_listed(src, j));
            }
            assert forall|i: int| 0 <= i < rs.len() implies ranks_before(
                #[trigger] rs[i].frequency as nat,
                rs[i].error_message@,
                cs[j] as nat,
                ts[j]@,
            ) by {
                assert(ranks_before(r[i].frequency as nat, r[i].error_message@, counts[j] as nat, texts[j]@));
            }
        }
        assert(forall|i: int|
            0 <= i < rs.len() ==> 0 <= #[trigger] src[i] < ts.len() && ts[src[i]]@
                == rs[i].error_message@ && rs[i].frequency == cs[src[i]]);
        assert(forall|i: int, i2: int|
            0 <= i < i2 < rs.len() ==> ranks_before(
                #[trigger] rs[i].frequency as nat,
                rs[i].error_message@,
                #[trigger] rs[i2].frequency as nat,
                rs[i2].error_message@,
            ));
        assert forall|j: int|
            0 <= j < ts.len() && !#[trigger] index_listed(src, j) implies rs.len() == MAX_COMMON_ERRORS by {
            if chosen[j] {
                let i0 = choose|i: int| 0 <= i < r.len() && src[i] == j;
                assert(index_listed(src, j));
            }
        }
        assert(ranked_from(ts, cs, rs, src));
    }
    (r, Ghost(src))
}

/// The most frequent buckets of diagnostics among `records`.
pub fn top_errors(records: &Vec<AiAudit>) -> (r: Vec<CommonError>)
    ensures
        is_top_errors(records@, r@),
{
    let (texts, chars, counts) = bucket_errors(records);
    let (r, src) = rank_buckets(&texts, &chars, &counts);
    proof {
        let src = src@;
        let rs = r@;
        let ts = texts@;
        let cs = counts@;
        assert forall|k: Seq<char>|
            #[trigger] key_count(records@, k) > 0 && !message_listed(rs, k) implies rs.len()
                == MAX_COMMON_ERRORS && all_before(rs, key_count(records@, k), k) by {
            let j = choose|j: int| 0 <= j < texts.len() && (#[trigger] texts[j])@ == k;
            assert(ts[j]@ == k);
            if index_listed(src, j) {
                let i = choose|i: int| 0 <= i < src.len() && #[trigger] src[i] == j;
                assert(rs[i].error_message@ == k);
                assert(message_listed(rs, k));
            }
            assert(cs[j] == key_count(records@, k));
        }
        assert forall|i: int|
            0 <= i < rs.len() implies key_count(records@, #[trigger] rs[i].error_message@) > 0
                && rs[i].frequency == key_count(records@, rs[i].error_message@) by {
            let j = src[i];
            assert(ts[j]@ == rs[i].error_message@);
            assert(texts[j]@ == rs[i].error_message@);
        }
    }
    r
}

/// Valid records among `records`.
fn count_valid(records: &Vec<AiAudit>) -> (r: u64)
    ensures
        r == valid_count(records@),
        r <= records.len(),
{
    let mut n: u64 = 0;
    for i in 0..records.len()
        invariant
            n == valid_count(records@.take(i as int)),
            n <= i,
    {
        proof {
            assert(records@.take(i + 1).drop_last() =~= records@.take(i as int));
        }
        if records[i].es_valido {
            n = n + 1;
        }
    }
    proof {
        assert(records@.take(records.len() as int) =~= records@);
    }
    n
}

/// The summary over `records`. The number of invalid records is derived
/// from the two counts, never counted apart.
pub fn compute_stats(records: &Vec<AiAudit>) -> (r: AuditStats)
    ensures
        r.total_audits == records.len(),
        r.valid_audits == valid_count(records@),
        r.invalid_audits == r.total_audits - r.valid_audits,
        is_top_errors(records@, r.common_errors@),
{
    let total = records.len() as u64;
    let valid = count_valid(records);
    AuditStats {
        total_audits: total,
        valid_audits: valid,
        invalid_audits: total - valid,
        common_errors: top_errors(records),
    }
}

impl AuditStats {
    /// The validation rate as numerator and denominator: `0 / 1` where
    /// there are no records, else valid records over all records.
    pub fn validation_ratio(&self) -> (r: (u64, u64))
        ensures
            self.total_audits == 0 ==> r == (0u64, 1u64),
            self.total_audits != 0 ==> r == (self.valid_audits, self.total_audits),
    {
        if self.total_audits == 0 {
            (0, 1)
        } else {
            (self.valid_audits, self.total_audits)
        }
    }
}

} // verus!
