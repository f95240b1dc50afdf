//! Per-item outcome tallying for a KiCad `CreateItems` response.
//!
//! KiCad answers a batch write with one result per submitted item. An item
//! succeeded exactly when its status code is [`ITEM_STATUS_OK`]; every other
//! item (including one without a status, which counts as code 0) is a
//! rejection. Rejections are reported three ways: the number of successes,
//! the first [`MAX_FAILURES_TO_REPORT`] rejection messages verbatim, and a
//! complete code-grouped summary sorted by frequency.
use vstd::prelude::*;
use std::collections::BTreeMap;
use crate::code_counts::{count_rejection, take_count};
use crate::text::{int_text, nat_text, push_int, push_nat, push_str};

verus! {

/// KiCad's `ItemStatusCode::ISC_OK`: the only per-item success code.
pub const ITEM_STATUS_OK: i32 = 1;

/// Maximum number of individual rejection messages surfaced to the caller.
pub const MAX_FAILURES_TO_REPORT: usize = 1000;

/// Per-item status returned by KiCad.
pub struct ItemStatus {
    pub code: i32,
    pub error_message: String,
}

/// A packed protobuf message: its type URL and encoded bytes.
pub struct AnyMessage {
    pub type_url: String,
    pub value: Vec<u8>,
}

/// One entry of a `CreateItemsResponse`: the status of one submitted item and
/// the item KiCad created, if any.
pub struct ItemCreationResult {
    pub status: Option<ItemStatus>,
    pub item: Option<AnyMessage>,
}

/// The status code of a result; a missing status counts as code 0.
pub open spec fn result_code(r: ItemCreationResult) -> i32 {
    match r.status {
        Some(st) => st.code,
        None => 0,
    }
}

/// Whether KiCad accepted the item.
pub open spec fn result_ok(r: ItemCreationResult) -> bool {
    result_code(r) == ITEM_STATUS_OK
}

/// Number of accepted items.
pub open spec fn count_ok(s: Seq<ItemCreationResult>) -> nat
    decreases s.len(),
{
    if s.len() == 0 {
        0
    } else {
        count_ok(s.drop_last()) + if result_ok(s.last()) { 1nat } else { 0nat }
    }
}

/// Number of rejected items whose code is `c`.
pub open spec fn count_code(s: Seq<ItemCreationResult>, c: i32) -> nat
    decreases s.len(),
{
    if s.len() == 0 {
        0
    } else {
        count_code(s.drop_last(), c) + if !result_ok(s.last()) && result_code(s.last()) == c {
            1nat
        } else {
            0nat
        }
    }
}

/// The message text reported for a rejected item: KiCad's own message, or
/// `<no error message>` when there is none.
pub open spec fn reason_text(r: ItemCreationResult) -> Seq<char> {
    match r.status {
        Some(st) => if st.error_message@.len() > 0 {
            st.error_message@
        } else {
            "<no error message>"@
        },
        None => "<no error message>"@,
    }
}

/// `item {i}: code={code}: {reason}` for the item at index `i`.
pub open spec fn failure_text(i: nat, r: ItemCreationResult) -> Seq<char> {
    "item "@ + nat_text(i) + ": code="@ + int_text(result_code(r) as int) + ": "@ + reason_text(r)
}

/// Messages of all rejected items of `s` in order.
pub open spec fn failure_texts(s: Seq<ItemCreationResult>) -> Seq<Seq<char>>
    decreases s.len(),
{
    if s.len() == 0 {
        seq![]
    } else if result_ok(s.last()) {
        failure_texts(s.drop_last())
    } else {
        failure_texts(s.drop_last()).push(failure_text((s.len() - 1) as nat, s.last()))
    }
}

/// Summary order: higher count first, then lower code first.
pub open spec fn ranks_before(a: (i32, u32), b: (i32, u32)) -> bool {
    a.1 > b.1 || (a.1 == b.1 && a.0 < b.0)
}

/// `summary` is the complete code-grouped rejection summary of `s`: one
/// `(code, count)` entry per distinct rejection code, with its exact count,
/// sorted by count descending and code ascending.
pub open spec fn is_failure_summary(s: Seq<ItemCreationResult>, summary: Seq<(i32, u32)>) -> bool {
    &&& forall|k: int| 0 <= k < summary.len() ==>
        #[trigger] summary[k].1 == count_code(s, summary[k].0) && summary[k].1 > 0
    &&& forall|j: int, k: int| 0 <= j < k < summary.len() ==>
        ranks_before(#[trigger] summary[j], #[trigger] summary[k])
    &&& forall|i: int| 0 <= i < s.len() && !result_ok(#[trigger] s[i]) ==>
        exists|k: int| 0 <= k < summary.len() && summary[k].0 == result_code(s[i])
}

proof fn lemma_count_code_step(s: Seq<ItemCreationResult>, i: int, c: i32)
    requires
        0 <= i < s.len(),
    ensures
        count_code(s.take(i + 1), c) == count_code(s.take(i), c) + if !result_ok(s[i])
            && result_code(s[i]) == c {
            1nat
        } else {
            0nat
        },
{
    assert(s.take(i + 1).drop_last() =~= s.take(i));
}

proof fn lemma_count_code_pos(s: Seq<ItemCreationResult>, i: int)
    requires
        0 <= i < s.len(),
        !result_ok(s[i]),
    ensures
        count_code(s, result_code(s[i])) > 0,
    decreases s.len(),
{
    if i < s.len() - 1 {
        lemma_count_code_pos(s.drop_last(), i);
    }
}

fn failure_message(i: usize, r: &ItemCreationResult) -> (m: String)
    ensures
        m@ == failure_text(i as nat, *r),
{
    let mut m = String::new();
    push_str(&mut m, "item ");
    push_nat(&mut m, i as u64);
    push_str(&mut m, ": code=");
    let code: i32 = match &r.status {
        Some(st) => st.code,
        None => 0,
    };
    push_int(&mut m, code as i64);
    push_str(&mut m, ": ");
    match &r.status {
        Some(st) => {
            if st.error_message.as_str().is_empty() {
                push_str(&mut m, "<no error message>");
            } else {
                push_str(&mut m, st.error_message.as_str());
            }
        },
        None => {
            push_str(&mut m, "<no error message>");
        },
    }
    m
}

/// Insert `e` into the summary-ordered `sorted` at its place in the order.
fn insert_ranked(sorted: &mut Vec<(i32, u32)>, e: (i32, u32))
    requires
        forall|j: int, k: int| 0 <= j < k < old(sorted).len() ==>
            ranks_before(#[trigger] old(sorted)[j], #[trigger] old(sorted)[k]),
        forall|k: int| 0 <= k < old(sorted).len() ==> (#[trigger] old(sorted)[k]).0 != e.0,
    ensures
        forall|j: int, k: int| 0 <= j < k < final(sorted).len() ==>
            ranks_before(#[trigger] final(sorted)[j], #[trigger] final(sorted)[k]),
        final(sorted)@.len() == old(sorted)@.len() + 1,
        forall|x: (i32, u32)| final(sorted)@.contains(x) <==> (old(sorted)@.contains(x) || x == e),
{
    let mut p: usize = 0;
    while p < sorted.len() && (sorted[p].1 > e.1 || (sorted[p].1 == e.1 && sorted[p].0 < e.0))
        invariant
            p <= sorted.len(),
            sorted@ == old(sorted)@,
            forall|q: int| 0 <= q < p ==> ranks_before(#[trigger] sorted@[q], e),
        decreases sorted.len() - p,
    {
        p = p + 1;
    }
    let ghost old_s = sorted@;
    proof {
        if p < old_s.len() {
            assert(ranks_before(e, old_s[p as int]));
            assert forall|q: int| p <= q < old_s.len() implies ranks_before(e, #[trigger] old_s[q]) by {
                if q > p {
                    assert(ranks_before(old_s[p as int], old_s[q]));
                }
            }
        }
    }
    sorted.insert(p, e);
    proof {
        assert(sorted@ =~= old_s.insert(p as int, e));
        assert(old_s == old(sorted)@);
        assert forall|x: (i32, u32)| #[trigger] sorted@.contains(x) <==> (old(sorted)@.contains(x) || x == e) by {
            lemma_insert_contains(old_s, p as int, e, x);
        }
    }
}

/// A sequence with `e` inserted holds exactly what it held, and `e`.
proof fn lemma_insert_contains<A>(s: Seq<A>, p: int, e: A, x: A)
    requires
        0 <= p <= s.len(),
    ensures
        s.insert(p, e).contains(x) <==> (s.contains(x) || x == e),
{
    let t = s.insert(p, e);
    if t.contains(x) {
        let k = choose|k: int| 0 <= k < t.len() && t[k] == x;
        if k < p {
            assert(s[k] == x);
        } else if k > p {
            assert(s[k - 1] == x);
        }
    }
    if s.contains(x) {
        let k = choose|k: int| 0 <= k < s.len() && s[k] == x;
        if k < p {
            assert(t[k] == x);
        } else {
            assert(t[k + 1] == x);
        }
    }
    if x == e {
        assert(t[p] == e);
    }
}

/// Tally per-item outcomes from a `CreateItemsResponse`.
///
/// Returns `(items_created, failures, failure_summary)`: the number of items
/// with status [`ITEM_STATUS_OK`]; the message `item {i}: code={code}:
/// {message}` of each of the first [`MAX_FAILURES_TO_REPORT`] rejected items,
/// in order; and one `(code, count)` entry per distinct rejection code,
/// counted over **all** items, sorted by count descending, ties by code
/// ascending, so that the counts add up to the number of rejected items.
pub fn tally_item_results(created_items: &[ItemCreationResult]) -> (res: (u32, Vec<String>, Vec<(i32, u32)>))
    requires
        created_items@.len() <= u32::MAX,
    ensures
        res.0 == count_ok(created_items@),
        res.1@.map_values(|m: String| m@) =~= failure_texts(created_items@).take(
            if failure_texts(created_items@).len() < MAX_FAILURES_TO_REPORT {
                failure_texts(created_items@).len() as int
            } else {
                MAX_FAILURES_TO_REPORT as int
            },
        ),
        is_failure_summary(created_items@, res.2@),
        res.0 + summary_total(res.2@) == created_items@.len(),
{
    let ghost s = created_items@;
    let mut items_created: u32 = 0;
    let mut failures: Vec<String> = Vec::new();
    // Rejection count per code.
    let mut counts: BTreeMap<i32, u32> = BTreeMap::new();
    let n = created_items.len();
    let mut i: usize = 0;
    assert(s.take(0) =~= Seq::<ItemCreationResult>::empty());
    while i < n
        invariant
            n == s.len(),
            s == created_items@,
            n <= u32::MAX,
            i <= n,
            items_created == count_ok(s.take(i as int)),
            count_ok(s.take(i as int)) <= i,
            failures@.map_values(|m: String| m@) =~= failure_texts(s.take(i as int)).take(
                if failure_texts(s.take(i as int)).len() < MAX_FAILURES_TO_REPORT {
                    failure_texts(s.take(i as int)).len() as int
                } else {
                    MAX_FAILURES_TO_REPORT as int
                },
            ),
            forall|c: i32| #[trigger] counts@.contains_key(c) <==> count_code(s.take(i as int), c) > 0,
            forall|c: i32| counts@.contains_key(c) ==> #[trigger] counts@[c] == count_code(s.take(i as int), c),
            forall|c: i32| #[trigger] count_code(s.take(i as int), c) <= i,
        decreases n - i,
    {
        let r = &created_items[i];
        let code: i32 = match &r.status {
            Some(st) => st.code,
            None => 0,
        };
        proof {
            assert(s.take(i + 1).drop_last() =~= s.take(i as int));
            assert(s.take(i + 1).last() == s[i as int]);
            assert forall|c: i32| #![trigger count_code(s.take(i + 1), c)]
                count_code(s.take(i + 1), c) == count_code(s.take(i as int), c) + if !result_ok(s[i as int])
                    && result_code(s[i as int]) == c { 1nat } else { 0nat } by {
                lemma_count_code_step(s, i as int, c);
            }
        }
        if code == ITEM_STATUS_OK {
            items_created = items_created + 1;
            proof {
                assert forall|c: i32| #[trigger] counts@.contains_key(c) <==> count_code(s.take(i + 1), c) > 0 by {
                    assert(count_code(s.take(i + 1), c) == count_code(s.take(i as int), c));
                }
                assert forall|c: i32| counts@.contains_key(c) implies #[trigger] counts@[c] == count_code(s.take(i + 1), c) by {
                    assert(count_code(s.take(i + 1), c) == count_code(s.take(i as int), c));
                }
            }
        } else {
            let ghost old_counts = counts@;
            assert(count_code(s.take(i as int), code) <= i);
            count_rejection(&mut counts, code);
            proof {
                assert forall|c: i32| #[trigger] counts@.contains_key(c) <==> count_code(s.take(i + 1), c) > 0 by {
                    assert(count_code(s.take(i + 1), c) == count_code(s.take(i as int), c) + if c == code { 1nat } else { 0nat });
                }
                assert forall|c: i32| counts@.contains_key(c) implies #[trigger] counts@[c] == count_code(s.take(i + 1), c) by {
                    assert(count_code(s.take(i + 1), c) == count_code(s.take(i as int), c) + if c == code { 1nat } else { 0nat });
                    if c != code {
                        assert(counts@[c] == old_counts[c]);
                    }
                }
            }
            let ghost old_failures = failures@;
            let ghost ft = failure_texts(s.take(i as int));
            proof {
                assert(failure_texts(s.take(i + 1)) == ft.push(failure_text(i as nat, s[i as int])));
                assert(old_failures.map_values(|m: String| m@).len() == old_failures.len());
            }
            if failures.len() < MAX_FAILURES_TO_REPORT {
                let msg = failure_message(i, r);
                failures.push(msg);
                proof {
                    assert(ft.len() < MAX_FAILURES_TO_REPORT);
                    assert(failures@.map_values(|m: String| m@) =~= old_failures.map_values(|m: String| m@).push(msg@));
                    assert(ft.push(failure_text(i as nat, s[i as int])).take(ft.len() + 1 as int) =~= ft.push(failure_text(i as nat, s[i as int])));
                    assert(ft.take(ft.len() as int) =~= ft);
                }
            } else {
                proof {
                    assert(ft.len() >= MAX_FAILURES_TO_REPORT);
                    assert(ft.push(failure_text(i as nat, s[i as int])).take(MAX_FAILURES_TO_REPORT as int)
                        =~= ft.take(MAX_FAILURES_TO_REPORT as int));
                }
            }
        }
        proof {
            if code == ITEM_STATUS_OK {
                assert(failure_texts(s.take(i + 1)) == failure_texts(s.take(i as int)));
            }
        }
        i = i + 1;
    }
    proof {
        assert(s.take(n as int) =~= s);
    }

    // Collect the per-code counts, each once (taken out of the map the first
    // time its code comes up), in summary order: count descending, code
    // ascending.
    let mut sorted: Vec<(i32, u32)> = Vec::new();
    let mut j: usize = 0;
    while j < n
        invariant
            n == s.len(),
            s == created_items@,
            j <= n,
            forall|c: i32| counts@.contains_key(c) ==> #[trigger] counts@[c] == count_code(s, c) && count_code(s, c) > 0,
            forall|c: i32| #[trigger] count_code(s, c) > 0 ==> counts@.contains_key(c) || exists|k: int|
                0 <= k < sorted.len() && #[trigger] sorted@[k].0 == c,
            forall|x: (i32, u32)| #[trigger] sorted@.contains(x) ==>
                x.1 == count_code(s, x.0) && x.1 > 0 && !counts@.contains_key(x.0),
            forall|a: int, b: int| 0 <= a < b < sorted.len() ==>
                ranks_before(#[trigger] sorted@[a], #[trigger] sorted@[b]),
            forall|q: int| 0 <= q < j && !result_ok(#[trigger] s[q]) ==> !counts@.contains_key(result_code(s[q])),
        decreases n - j,
    {
        let r = &created_items[j];
        let code: i32 = match &r.status {
            Some(st) => st.code,
            None => 0,
        };
        if code != ITEM_STATUS_OK {
            let ghost old_counts = counts@;
            let ghost old_sorted = sorted@;
            let taken = take_count(&mut counts, code);
            match taken {
                Some(cnt) => {
                    proof {
                        assert forall|k: int| 0 <= k < sorted.len() implies (#[trigger] sorted@[k]).0 != code by {
                            assert(sorted@.contains(sorted@[k]));
                        }
                    }
                    insert_ranked(&mut sorted, (code, cnt));
                    proof {
                        assert forall|x: (i32, u32)| #[trigger] sorted@.contains(x) implies
                            x.1 == count_code(s, x.0) && x.1 > 0 && !counts@.contains_key(x.0) by {
                            if x != (code, cnt) {
                                assert(old_sorted.contains(x));
                            }
                        }
                        assert forall|c: i32| #[trigger] count_code(s, c) > 0 implies counts@.contains_key(c)
                            || exists|k: int| 0 <= k < sorted.len() && #[trigger] sorted@[k].0 == c by {
                            if c == code {
                                assert(sorted@.contains((code, cnt)));
                                let k = choose|k: int| 0 <= k < sorted.len() && sorted@[k] == (code, cnt);
                                assert(sorted@[k].0 == c);
                            } else if !counts@.contains_key(c) {
                                let k = choose|k: int| 0 <= k < old_sorted.len() && #[trigger] old_sorted[k].0 == c;
                                assert(old_sorted.contains(old_sorted[k]));
                                assert(sorted@.contains(old_sorted[k]));
                                let k2 = choose|k2: int| 0 <= k2 < sorted.len() && sorted@[k2] == old_sorted[k];
                                assert(sorted@[k2].0 == c);
                            }
                        }
                    }
                },
                None => {},
            }
        }
        j = j + 1;
    }
    proof {
        assert forall|k: int| 0 <= k < sorted.len() implies
            #[trigger] sorted@[k].1 == count_code(s, sorted@[k].0) && sorted@[k].1 > 0 by {
            assert(sorted@.contains(sorted@[k]));
        }
        assert forall|q: int| 0 <= q < s.len() && !result_ok(#[trigger] s[q]) implies
            exists|k: int| 0 <= k < sorted.len() && sorted@[k].0 == result_code(s[q]) by {
            lemma_count_code_pos(s, q);
            assert(count_code(s, result_code(s[q])) > 0);
        }
        lemma_summary_accounts_for_every_item(s, sorted@);
    }
    (items_created, failures, sorted)
}

/// Total number of rejections a summary accounts for.
pub open spec fn summary_total(summary: Seq<(i32, u32)>) -> nat
    decreases summary.len(),
{
    if summary.len() == 0 {
        0
    } else {
        summary_total(summary.drop_last()) + summary.last().1 as nat
    }
}

/// The codes of a summary, in order.
pub open spec fn summary_codes(summary: Seq<(i32, u32)>) -> Seq<i32> {
    summary.map_values(|e: (i32, u32)| e.0)
}

/// Rejections of `s` under each of `codes`, added up.
spec fn codes_total(s: Seq<ItemCreationResult>, codes: Seq<i32>) -> nat
    decreases codes.len(),
{
    if codes.len() == 0 {
        0
    } else {
        codes_total(s, codes.drop_last()) + count_code(s, codes.last())
    }
}

proof fn lemma_summary_total_is_codes_total(s: Seq<ItemCreationResult>, summary: Seq<(i32, u32)>)
    requires
        forall|k: int| 0 <= k < summary.len() ==> #[trigger] summary[k].1 == count_code(s, summary[k].0),
    ensures
        summary_total(summary) == codes_total(s, summary_codes(summary)),
    decreases summary.len(),
{
    if summary.len() > 0 {
        let init = summary.drop_last();
        assert forall|k: int| 0 <= k < init.len() implies #[trigger] init[k].1 == count_code(s, init[k].0) by {
            assert(init[k] == summary[k]);
        }
        lemma_summary_total_is_codes_total(s, init);
        assert(summary_codes(summary).drop_last() =~= summary_codes(init));
        assert(summary_codes(summary).last() == summary.last().0);
        assert(summary.last() == summary[summary.len() - 1]);
    }
}

proof fn lemma_codes_total_step(s: Seq<ItemCreationResult>, x: ItemCreationResult, codes: Seq<i32>)
    requires
        forall|j: int, k: int| 0 <= j < k < codes.len() ==> codes[j] != codes[k],
    ensures
        codes_total(s.push(x), codes) == codes_total(s, codes) + if !result_ok(x) && codes.contains(
            result_code(x),
        ) {
            1nat
        } else {
            0nat
        },
    decreases codes.len(),
{
    if codes.len() > 0 {
        let init = codes.drop_last();
        assert forall|j: int, k: int| 0 <= j < k < init.len() implies init[j] != init[k] by {
            assert(init[j] == codes[j] && init[k] == codes[k]);
        }
        lemma_codes_total_step(s, x, init);
        assert(s.push(x).drop_last() =~= s);
        let c = codes.last();
        assert(codes[codes.len() - 1] == c);
        if init.contains(result_code(x)) {
            let j = choose|j: int| 0 <= j < init.len() && init[j] == result_code(x);
            assert(codes[j] == result_code(x));
        }
        assert(codes.contains(result_code(x)) <==> (init.contains(result_code(x)) || c == result_code(x))) by {
            if codes.contains(result_code(x)) {
                let k = choose|k: int| 0 <= k < codes.len() && codes[k] == result_code(x);
                if k < init.len() {
                    assert(init[k] == codes[k]);
                }
            }
            if init.contains(result_code(x)) {
                let k = choose|k: int| 0 <= k < init.len() && init[k] == result_code(x);
                assert(codes[k] == init[k]);
            }
        }
    }
}

proof fn lemma_codes_total_counts_rejections(s: Seq<ItemCreationResult>, codes: Seq<i32>)
    requires
        forall|j: int, k: int| 0 <= j < k < codes.len() ==> codes[j] != codes[k],
        forall|i: int| 0 <= i < s.len() && !result_ok(#[trigger] s[i]) ==> codes.contains(result_code(s[i])),
    ensures
        count_ok(s) + codes_total(s, codes) == s.len(),
    decreases s.len(),
{
    if s.len() == 0 {
        assert(codes_total(s, codes) == 0) by {
            lemma_codes_total_empty(s, codes);
        }
    } else {
        let init = s.drop_last();
        assert forall|i: int| 0 <= i < init.len() && !result_ok(#[trigger] init[i]) implies codes.contains(
            result_code(init[i]),
        ) by {
            assert(init[i] == s[i]);
        }
        lemma_codes_total_counts_rejections(init, codes);
        assert(init.push(s.last()) =~= s);
        lemma_codes_total_step(init, s.last(), codes);
        assert(s.last() == s[s.len() - 1]);
    }
}

proof fn lemma_codes_total_empty(s: Seq<ItemCreationResult>, codes: Seq<i32>)
    requires
        s.len() == 0,
    ensures
        codes_total(s, codes) == 0,
    decreases codes.len(),
{
    if codes.len() > 0 {
        lemma_codes_total_empty(s, codes.drop_last());
    }
}

/// A failure summary accounts for every rejected item exactly once: the
/// accepted items plus the summary's counts make up the whole response.
pub proof fn lemma_summary_accounts_for_every_item(s: Seq<ItemCreationResult>, summary: Seq<(i32, u32)>)
    requires
        is_failure_summary(s, summary),
    ensures
        count_ok(s) + summary_total(summary) == s.len(),
{
    let codes = summary_codes(summary);
    assert forall|j: int, k: int| 0 <= j < k < codes.len() implies codes[j] != codes[k] by {
        assert(ranks_before(summary[j], summary[k]));
        assert(summary[j].1 == count_code(s, summary[j].0));
        assert(summary[k].1 == count_code(s, summary[k].0));
    }
    assert forall|i: int| 0 <= i < s.len() && !result_ok(#[trigger] s[i]) implies codes.contains(
        result_code(s[i]),
    ) by {
        let k = choose|k: int| 0 <= k < summary.len() && summary[k].0 == result_code(s[i]);
        assert(codes[k] == summary[k].0);
    }
    lemma_summary_total_is_codes_total(s, summary);
    lemma_codes_total_counts_rejections(s, codes);
}

/// Every rejected item, and only those, has a message.
pub proof fn lemma_failure_texts_len(s: Seq<ItemCreationResult>)
    ensures
        failure_texts(s).len() + count_ok(s) == s.len(),
    decreases s.len(),
{
    if s.len() > 0 {
        lemma_failure_texts_len(s.drop_last());
    }
}


/// Whether an item carries a status whose code is 1.
pub open spec fn has_ok_status() -> spec_fn(ItemCreationResult) -> bool {
    |r: ItemCreationResult| r.status is Some && r.status->0.code == 1
}

/// Whether an item is a rejection under code `c`: `c` is not 1 and the
/// item's status has code `c`, or it has no status and `c` is 0.
pub open spec fn rejected_under(c: i32) -> spec_fn(ItemCreationResult) -> bool {
    |r: ItemCreationResult|
        c != 1 && (if r.status is Some {
            r.status->0.code == c
        } else {
            c == 0
        })
}

/// An item counts as created exactly when it carries a status whose code is
/// 1 (`ISC_OK`), so the number created is the number of such items; every
/// other item is a rejection under its status code, a missing status
/// counting as code 0, and no rejection is ever counted under code 1.
pub proof fn lemma_tally_counts_by_status(s: Seq<ItemCreationResult>, c: i32)
    ensures
        count_ok(s) == s.filter(has_ok_status()).len(),
        count_code(s, c) == s.filter(rejected_under(c)).len(),
    decreases s.len(),
{
    reveal(Seq::filter);
    if s.len() > 0 {
        lemma_tally_counts_by_status(s.drop_last(), c);
        assert(s.filter(has_ok_status()) == if has_ok_status()(s.last()) {
            s.drop_last().filter(has_ok_status()).push(s.last())
        } else {
            s.drop_last().filter(has_ok_status())
        });
        assert(s.filter(rejected_under(c)) == if rejected_under(c)(s.last()) {
            s.drop_last().filter(rejected_under(c)).push(s.last())
        } else {
            s.drop_last().filter(rejected_under(c))
        });
    }
}

} // verus!
