use crate::errors::CoreError;
use crate::text::{dec_digit_char, dec_digits, str_eq, u64_to_dec_string};
use vstd::prelude::*;

verus! {

/// One open document session handed from window to window: path, content,
/// kind, and view state. The router never inspects these fields.
#[derive(Debug)]
pub struct TransferredTab {
    pub path: String,
    pub content: String,
    pub kind: String,
    pub writable: bool,
    pub is_dirty: bool,
    pub markdown_view_mode: String,
}

/// Asks one window to export all its tabs toward the merge target.
#[derive(Debug)]
pub struct RequestExportAllTabsPayload {
    pub request_id: String,
    pub target_label: String,
}

/// Delivers a tab list, with its correlation id, to the merge target.
#[derive(Debug)]
pub struct ReceiveTransferredTabsPayload {
    pub request_id: String,
    pub source_label: String,
    pub tabs: Vec<TransferredTab>,
}

/// Reports back to the exporting window how many tabs were accepted.
#[derive(Debug)]
pub struct TabTransferResultPayload {
    pub request_id: String,
    pub target_label: String,
    pub accepted_count: usize,
}

/// An export request addressed to one window.
#[derive(Debug)]
pub struct ExportRequest {
    pub to_label: String,
    pub payload: RequestExportAllTabsPayload,
}

proof fn lemma_dec_digits_len(n: nat)
    ensures
        dec_digits(n).len() >= 1,
        n >= 10 ==> dec_digits(n).len() >= 2,
    decreases n,
{
    if n >= 10 {
        lemma_dec_digits_len(n / 10);
    }
}

/// Decimal representations of distinct numbers are distinct.
proof fn lemma_dec_digits_injective(a: nat, b: nat)
    requires
        dec_digits(a) == dec_digits(b),
    ensures
        a == b,
    decreases a,
{
    lemma_dec_digits_len(a);
    lemma_dec_digits_len(b);
    if a < 10 && b < 10 {
        assert(dec_digits(a) == seq![dec_digit_char(a as int)]);
        assert(dec_digits(b) == seq![dec_digit_char(b as int)]);
        assert(seq![dec_digit_char(a as int)][0] == dec_digit_char(a as int));
        assert(seq![dec_digit_char(b as int)][0] == dec_digit_char(b as int));
        assert(dec_digit_char(a as int) == dec_digit_char(b as int));
    } else if a >= 10 && b >= 10 {
        let da = dec_digits(a / 10);
        let db = dec_digits(b / 10);
        let sa = da.push(dec_digit_char((a % 10) as int));
        let sb = db.push(dec_digit_char((b % 10) as int));
        assert(sa == sb);
        assert(da.len() == db.len());
        assert forall|i: int| 0 <= i < da.len() implies da[i] == db[i] by {
            assert(sa[i] == sb[i]);
        }
        assert(da =~= db);
        assert(sa[sa.len() - 1] == sb[sb.len() - 1]);
        assert(dec_digit_char((a % 10) as int) == dec_digit_char((b % 10) as int));
        assert(a % 10 == b % 10);
        lemma_dec_digits_injective(a / 10, b / 10);
    } else if a < 10 {
        assert(dec_digits(a).len() == 1);
        assert(dec_digits(b).len() >= 2);
    } else {
        assert(dec_digits(b).len() == 1);
        assert(dec_digits(a).len() >= 2);
    }
}

/// The correlation id minted for the `n`-th transfer request.
pub open spec fn transfer_id(n: nat) -> Seq<char> {
    "tab-transfer-"@ + dec_digits(n)
}

/// Correlation ids of distinct requests are distinct.
pub proof fn lemma_transfer_id_injective(a: nat, b: nat)
    requires
        transfer_id(a) == transfer_id(b),
    ensures
        a == b,
{
    let p = "tab-transfer-"@;
    let sa = transfer_id(a);
    let sb = transfer_id(b);
    assert(sa == p + dec_digits(a));
    assert(sb == p + dec_digits(b));
    assert(sa.len() == p.len() + dec_digits(a).len());
    assert(sb.len() == p.len() + dec_digits(b).len());
    assert(dec_digits(a).len() == dec_digits(b).len());
    assert forall|i: int| 0 <= i < dec_digits(a).len() implies dec_digits(a)[i] == dec_digits(
        b,
    )[i] by {
        assert(sa[p.len() + i] == sb[p.len() + i]);
        assert(sa[p.len() + i] == dec_digits(a)[i]);
        assert(sb[p.len() + i] == dec_digits(b)[i]);
    }
    assert(dec_digits(a) =~= dec_digits(b));
    lemma_dec_digits_injective(a, b);
}

/// Mints the correlation ids that tie a merge request to its eventual
/// result. Ids are opaque strings, unique for the process lifetime.
#[derive(Debug)]
pub struct TransferIdAllocator {
    pub next_id: u64,
}

impl TransferIdAllocator {
    /// An allocator whose first id is number 1.
    pub fn new() -> (r: Self)
        ensures
            r.next_id == 1,
    {
        TransferIdAllocator { next_id: 1 }
    }

    /// The next fresh correlation id.
    pub fn next_transfer_request_id(&mut self) -> (r: String)
        requires
            old(self).next_id < u64::MAX,
        ensures
            final(self).next_id == old(self).next_id + 1,
            r@ == transfer_id(old(self).next_id as nat),
    {
        let n = self.next_id;
        self.next_id = n + 1;
        let digits = u64_to_dec_string(n);
        let mut s = "tab-transfer-".to_owned();
        s.append(digits.as_str());
        s
    }
}

/// The labels of `ls` other than `t`, in order.
pub open spec fn others_of(ls: Seq<Seq<char>>, t: Seq<char>) -> Seq<Seq<char>>
    decreases ls.len(),
{
    if ls.len() == 0 {
        Seq::empty()
    } else if ls.last() != t {
        others_of(ls.drop_last(), t).push(ls.last())
    } else {
        others_of(ls.drop_last(), t)
    }
}

/// Build one export request per live window other than the merge target,
/// each carrying a fresh correlation id and the target's label.
pub fn merge_all_windows_requests(
    alloc: &mut TransferIdAllocator,
    live: &Vec<String>,
    target_label: &String,
) -> (r: Vec<ExportRequest>)
    requires
        old(alloc).next_id + live@.len() <= u64::MAX,
    ensures
        ({
            let others = others_of(live.deep_view(), target_label@);
            &&& r@.len() == others.len()
            &&& forall|k: int| 0 <= k < r@.len() ==> {
                &&& (#[trigger] r@[k]).to_label@ == others[k]
                &&& r@[k].payload.target_label@ == target_label@
                &&& r@[k].payload.request_id@ == transfer_id((old(alloc).next_id + k) as nat)
            }
            &&& final(alloc).next_id == old(alloc).next_id + r@.len()
            &&& forall|k1: int, k2: int|
                0 <= k1 < k2 < r@.len() ==> (#[trigger] r@[k1]).payload.request_id@ != (
                #[trigger] r@[k2]).payload.request_id@
        }),
{
    let ghost n0 = alloc.next_id;
    let mut out: Vec<ExportRequest> = Vec::new();
    let mut i: usize = 0;
    while i < live.len()
        invariant
            i <= live@.len(),
            n0 + live@.len() <= u64::MAX,
            alloc.next_id == n0 + out@.len(),
            out@.len() <= i,
            out@.len() == others_of(live.deep_view().take(i as int), target_label@).len(),
            forall|k: int| 0 <= k < out@.len() ==> {
                &&& (#[trigger] out@[k]).to_label@ == others_of(
                    live.deep_view().take(i as int),
                    target_label@,
                )[k]
                &&& out@[k].payload.target_label@ == target_label@
                &&& out@[k].payload.request_id@ == transfer_id((n0 + k) as nat)
            },
        decreases live@.len() - i,
    {
        let ghost pre = live.deep_view().take(i as int);
        let ghost post = live.deep_view().take(i + 1);
        proof {
            assert(post.drop_last() =~= pre);
            assert(post.last() == live.deep_view()[i as int]);
            assert(live.deep_view()[i as int] == live@[i as int]@);
        }
        let label = &live[i];
        if !str_eq(label.as_str(), target_label.as_str()) {
            let id = alloc.next_transfer_request_id();
            out.push(
                ExportRequest {
                    to_label: label.clone(),
                    payload: RequestExportAllTabsPayload {
                        request_id: id,
                        target_label: target_label.clone(),
                    },
                },
            );
            proof {
                assert(others_of(post, target_label@) =~= others_of(pre, target_label@).push(
                    live@[i as int]@,
                ));
            }
        } else {
            proof {
                assert(others_of(post, target_label@) =~= others_of(pre, target_label@));
            }
        }
        i += 1;
    }
    proof {
        assert(live.deep_view().take(live.deep_view().len() as int) =~= live.deep_view());
        assert forall|k1: int, k2: int|
            0 <= k1 < k2 < out@.len() implies (#[trigger] out@[k1]).payload.request_id@ != (
        #[trigger] out@[k2]).payload.request_id@ by {
            if out@[k1].payload.request_id@ == out@[k2].payload.request_id@ {
                lemma_transfer_id_injective((n0 + k1) as nat, (n0 + k2) as nat);
            }
        }
    }
    out
}

/// Whether some label in `live` equals `x`.
fn live_contains(live: &Vec<String>, x: &String) -> (r: bool)
    ensures
        r == live.deep_view().contains(x@),
{
    crate::text::vec_contains_string(live, x)
}

/// Route an exported tab list to the merge target.
///
/// Fails with `TargetUnavailable`, delivering nothing, exactly when the
/// target window is no longer live; otherwise the payload carries the
/// correlation id and source label through unchanged.
pub fn route_tab_transfer(
    live: &Vec<String>,
    source_label: String,
    target_label: &String,
    request_id: String,
    tabs: Vec<TransferredTab>,
) -> (r: Result<ReceiveTransferredTabsPayload, CoreError>)
    ensures
        match r {
            Ok(p) => {
                &&& live.deep_view().contains(target_label@)
                &&& p.request_id == request_id
                &&& p.source_label == source_label
                &&& p.tabs == tabs
            },
            Err(e) => {
                &&& !live.deep_view().contains(target_label@)
                &&& e == CoreError::TargetUnavailable
            },
        },
{
    if !live_contains(live, target_label) {
        return Err(CoreError::TargetUnavailable);
    }
    Ok(ReceiveTransferredTabsPayload { request_id, source_label, tabs })
}

/// Route the accepted-count report back to the exporting window.
///
/// Best-effort: when the source window has closed, this succeeds with no
/// payload to deliver; otherwise the payload carries the correlation id,
/// the target's label and the count through unchanged.
pub fn route_tab_transfer_result(
    live: &Vec<String>,
    source_label: &String,
    target_label: String,
    request_id: String,
    accepted_count: usize,
) -> (r: Option<TabTransferResultPayload>)
    ensures
        match r {
            Some(p) => {
                &&& live.deep_view().contains(source_label@)
                &&& p.request_id == request_id
                &&& p.target_label == target_label
                &&& p.accepted_count == accepted_count
            },
            None => !live.deep_view().contains(source_label@),
        },
{
    if !live_contains(live, source_label) {
        return None;
    }
    Some(TabTransferResultPayload { request_id, target_label, accepted_count })
}

} // verus!
