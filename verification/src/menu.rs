//! The "Open Recent" menu: entry ids and their resolution to paths.
//!
//! Entry ids are index based (`menu:open-recent:<index>`) and resolve
//! against the recents list captured when the submenu was last rebuilt.
use vstd::prelude::*;
use crate::plugins::str_eq;
use crate::text::{digit_char, nat_text, push_nat, push_str};
use vstd::string::StrSliceExecFns;

verus! {

/// Prefix of the per-entry item ids.
pub open spec fn recent_prefix() -> Seq<char> {
    "menu:open-recent:"@
}

/// The recents list as last pushed by the front end, most recent first.
pub struct RecentFiles(pub Vec<String>);

/// A decimal digit.
pub open spec fn is_digit(c: char) -> bool {
    '0' <= c && c <= '9'
}

/// The value of a string of decimal digits.
pub open spec fn digits_value(s: Seq<char>) -> nat
    decreases s.len(),
{
    if s.len() == 0 {
        0
    } else {
        digits_value(s.drop_last()) * 10 + ((s.last() as u32) - 48) as nat
    }
}

/// `s` without its leading `+`, if any.
pub open spec fn unsigned_digits(s: Seq<char>) -> Seq<char> {
    if s.len() > 0 && s[0] == '+' {
        s.drop_first()
    } else {
        s
    }
}

/// Every character of `d` is a decimal digit.
pub open spec fn all_digits(d: Seq<char>) -> bool {
    forall|i: int| 0 <= i < d.len() ==> is_digit(#[trigger] d[i])
}

/// What parsing `s` as a `usize` gives: an optional `+`, then one or more
/// decimal digits whose value fits in a `usize`.
pub open spec fn parse_usize(s: Seq<char>) -> Option<nat> {
    let d = unsigned_digits(s);
    if d.len() > 0 && all_digits(d) && digits_value(d) <= usize::MAX {
        Some(digits_value(d))
    } else {
        None
    }
}

/// The index a menu item id addresses, if it is a recent-file entry id.
pub open spec fn recent_index(id: Seq<char>) -> Option<nat> {
    if id.len() >= recent_prefix().len() && id.take(recent_prefix().len() as int) == recent_prefix() {
        parse_usize(id.skip(recent_prefix().len() as int))
    } else {
        None
    }
}

proof fn lemma_digits_value_step(s: Seq<char>, k: int)
    requires
        0 <= k < s.len(),
    ensures
        digits_value(s.take(k + 1)) == digits_value(s.take(k)) * 10 + ((s[k] as u32) - 48) as nat,
{
    assert(s.take(k + 1).drop_last() =~= s.take(k));
}

proof fn lemma_digits_value_grows(s: Seq<char>, k: int, j: int)
    requires
        0 <= k <= j <= s.len(),
        forall|i: int| 0 <= i < s.len() ==> is_digit(#[trigger] s[i]),
    ensures
        digits_value(s.take(k)) <= digits_value(s.take(j)),
    decreases j - k,
{
    if k < j {
        lemma_digits_value_grows(s, k, j - 1);
        lemma_digits_value_step(s, j - 1);
    }
}

/// Parse `s` as a `usize` the way `str::parse` does.
fn parse_index(s: &str) -> (r: Option<usize>)
    ensures
        match parse_usize(s@) {
            Some(v) => r == Some(v as usize),
            None => r is None,
        },
{
    let n = s.unicode_len();
    let mut start: usize = 0;
    if n > 0 && s.get_char(0) == '+' {
        start = 1;
    }
    let ghost d = unsigned_digits(s@);
    assert(d =~= s@.skip(start as int));
    if start == n {
        assert(d.len() == 0);
        return None;
    }
    let mut value: usize = 0;
    let mut i: usize = start;
    while i < n
        invariant
            n == s@.len(),
            start == (if s@.len() > 0 && s@[0] == '+' { 1int } else { 0int }),
            start <= i <= n,
            d == s@.skip(start as int),
            forall|k: int| 0 <= k < i - start ==> is_digit(#[trigger] d[k]),
            value == digits_value(d.take(i - start)),
        decreases n - i,
    {
        let c = s.get_char(i);
        proof {
            assert(d[i - start] == c);
            lemma_digits_value_step(d, i - start);
        }
        if !('0' <= c && c <= '9') {
            assert(!is_digit(d[i - start]));
            return None;
        }
        let digit: usize = (c as u32 - 48) as usize;
        match value.checked_mul(10) {
            Some(v10) => match v10.checked_add(digit) {
                Some(v) => {
                    value = v;
                },
                None => {
                    proof {
                        lemma_overflow_fails(s@, start as int, i as int);
                    }
                    return None;
                },
            },
            None => {
                proof {
                    lemma_overflow_fails(s@, start as int, i as int);
                }
                return None;
            },
        }
        i = i + 1;
    }
    assert(d.take(d.len() as int) =~= d);
    Some(value)
}

/// Once the digits read so far overflow a `usize`, the parse fails.
proof fn lemma_overflow_fails(s: Seq<char>, start: int, i: int)
    requires
        start == (if s.len() > 0 && s[0] == '+' { 1int } else { 0int }),
        start <= i < s.len(),
        forall|k: int| 0 <= k <= i - start ==> is_digit(#[trigger] s.skip(start)[k]),
        digits_value(s.skip(start).take(i - start + 1)) > usize::MAX,
    ensures
        parse_usize(s) is None,
{
    let d = s.skip(start);
    let dd = unsigned_digits(s);
    assert(dd =~= d);
    if all_digits(dd) {
        lemma_digits_value_grows(d, i - start + 1, d.len() as int);
        assert(d.take(d.len() as int) =~= d);
        assert(digits_value(dd) > usize::MAX);
    }
}

/// Resolve a clicked item id (`menu:open-recent:<index>`) to the path
/// captured at the last submenu rebuild; `None` for any other id or an
/// index past the list.
pub fn recent_event_payload(state: &RecentFiles, id: &str) -> (r: Option<String>)
    ensures
        match recent_index(id@) {
            Some(k) => if k < state.0@.len() {
                r matches Some(p) && p == state.0@[k as int]
            } else {
                r is None
            },
            None => r is None,
        },
{
    proof {
        reveal_strlit("menu:open-recent:");
    }
    let prefix = "menu:open-recent:";
    let plen = prefix.unicode_len();
    let n = id.unicode_len();
    if n < plen {
        return None;
    }
    let head = id.substring_char(0, plen);
    let same = str_eq(head, prefix);
    assert(id@.take(plen as int) =~= head@);
    if !same {
        return None;
    }
    let rest = id.substring_char(plen, n);
    assert(rest@ =~= id@.skip(plen as int));
    match parse_index(rest) {
        Some(k) => {
            if k < state.0.len() {
                Some(state.0[k].clone())
            } else {
                None
            }
        },
        None => None,
    }
}

/// The item id of recent entry `index`: `menu:open-recent:<index>`.
pub fn recent_item_id(index: usize) -> (r: String)
    ensures
        r@ == recent_prefix() + nat_text(index as nat),
{
    let mut r = String::new();
    push_str(&mut r, "menu:open-recent:");
    push_nat(&mut r, index as u64);
    r
}

/// Id of the placeholder entry shown while the recents list is empty.
pub open spec fn recent_empty_id() -> Seq<char> {
    "menu:open-recent-empty"@
}

/// Id of the "Clear Recent Files" entry.
pub open spec fn clear_recent_id() -> Seq<char> {
    "menu:clear-recent-files"@
}

/// One entry of the Open Recent submenu.
pub enum RecentEntry {
    Item { id: String, label: String, enabled: bool },
    Separator,
}

/// What the Open Recent submenu holds, and whether it can be opened.
pub struct RecentSubmenu {
    pub entries: Vec<RecentEntry>,
    pub enabled: bool,
}

/// `e` is an item with this id, label and enabled state.
pub open spec fn is_item(e: RecentEntry, id: Seq<char>, label: Seq<char>, enabled: bool) -> bool {
    e matches RecentEntry::Item { id: i, label: l, enabled: en } && i@ == id && l@ == label && en == enabled
}

fn item(id: String, label: String, enabled: bool) -> (e: RecentEntry)
    ensures
        is_item(e, id@, label@, enabled),
{
    RecentEntry::Item { id, label, enabled }
}

fn text_of(t: &str) -> (r: String)
    ensures
        r@ == t@,
{
    let mut r = String::new();
    push_str(&mut r, t);
    r
}

/// The Open Recent submenu for `paths` (most recent first), entry `i`
/// labelled `labels[i]`: one enabled entry per path, with the item id of
/// its index, or a disabled "No Recent Files" placeholder when there are
/// none; then a separator and "Clear Recent Files", enabled with the
/// submenu itself only when there are paths.
pub fn recent_submenu(paths: &[String], labels: &[String]) -> (m: RecentSubmenu)
    requires
        labels@.len() == paths@.len(),
    ensures
        ({
            let n = paths@.len();
            let k: int = if n == 0 { 1 } else { n as int };
            &&& m.enabled == (n > 0)
            &&& m.entries@.len() == k + 2
            &&& n == 0 ==> is_item(m.entries@[0], recent_empty_id(), "No Recent Files"@, false)
            &&& forall|i: int| 0 <= i < n ==> is_item(
                #[trigger] m.entries@[i],
                recent_prefix() + nat_text(i as nat),
                labels@[i]@,
                true,
            )
            &&& m.entries@[k] is Separator
            &&& is_item(m.entries@[k + 1], clear_recent_id(), "Clear Recent Files"@, n > 0)
        }),
{
    let n = paths.len();
    let mut entries: Vec<RecentEntry> = Vec::new();
    if n == 0 {
        entries.push(item(text_of("menu:open-recent-empty"), text_of("No Recent Files"), false));
    } else {
        let mut i: usize = 0;
        while i < n
            invariant
                n == paths@.len(),
                labels@.len() == n,
                i <= n,
                entries@.len() == i,
                forall|j: int| 0 <= j < i ==> is_item(
                    #[trigger] entries@[j],
                    recent_prefix() + nat_text(j as nat),
                    labels@[j]@,
                    true,
                ),
            decreases n - i,
        {
            entries.push(item(recent_item_id(i), labels[i].clone(), true));
            i = i + 1;
        }
    }
    entries.push(RecentEntry::Separator);
    entries.push(item(text_of("menu:clear-recent-files"), text_of("Clear Recent Files"), n > 0));
    RecentSubmenu { entries, enabled: n > 0 }
}

proof fn lemma_nat_text_digits(n: nat)
    ensures
        nat_text(n).len() > 0,
        all_digits(nat_text(n)),
        digits_value(nat_text(n)) == n,
    decreases n,
{
    let d = n % 10;
    assert((digit_char(d) as u32) - 48 == d);
    let t = nat_text(n);
    if n < 10 {
        assert(t.drop_last() =~= Seq::<char>::empty());
        assert(t.last() == digit_char(d));
        assert(digits_value(t) == digits_value(t.drop_last()) * 10 + ((t.last() as u32) - 48) as nat);
    } else {
        lemma_nat_text_digits(n / 10);
        assert(t.drop_last() =~= nat_text(n / 10));
        assert(t.last() == digit_char(d));
        assert(digits_value(t) == digits_value(t.drop_last()) * 10 + ((t.last() as u32) - 48) as nat);
        assert(n == (n / 10) * 10 + d);
        assert forall|i: int| 0 <= i < t.len() implies is_digit(#[trigger] t[i]) by {
            if i < t.len() - 1 {
                assert(t[i] == nat_text(n / 10)[i]);
            }
        }
    }
}

/// The item id of entry `i` resolves back to index `i`: clicking entry `i`
/// of the submenu built for a recents list opens the list's `i`-th path.
pub proof fn lemma_recent_item_id_resolves(i: nat)
    requires
        i <= usize::MAX,
    ensures
        recent_index(recent_prefix() + nat_text(i)) == Some(i),
{
    lemma_nat_text_digits(i);
    let id = recent_prefix() + nat_text(i);
    let p = recent_prefix().len() as int;
    assert(id.take(p) =~= recent_prefix());
    assert(id.skip(p) =~= nat_text(i));
    assert(is_digit(nat_text(i)[0]));
    assert(unsigned_digits(nat_text(i)) == nat_text(i));
}

} // verus!
