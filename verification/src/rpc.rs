//! The request/response broker.
//!
//! Outbound requests get a fresh, strictly increasing id; the continuation
//! that awaits the response is stored in the pending table *before* the
//! request is considered sent, so no response can arrive to an absent entry.
//! A response resolves its entry exactly once: the entry is removed as it is
//! resolved, and a duplicate or stale response is a no-op.

use crate::chan::{channel_pair, channel_send};
use crate::PluginId;
use std::collections::HashMap;
use vstd::prelude::*;

verus! {

broadcast use vstd::std_specs::hash::group_hash_axioms;

/// The error classification a continuation receives instead of a value.
pub struct RpcError {
    pub code: i64,
    pub message: String,
}

/// One-shot delivery channel for a response: the continuation side of one
/// pending request.
pub type ResponseSender = crossbeam_channel::Sender<Result<serde_json::Value, RpcError>>;

/// A host-to-plugin-server message.
pub enum ServerRpc {
    Request { id: u64, method: String, params: serde_json::Value },
    Notification { method: String, params: serde_json::Value },
    DidChange { uri: String, version: i64, text: String },
}

/// The command sender owned by one running plugin server, tagged with the
/// identity of the plugin that loaded it.
pub struct PluginServerRpcHandler {
    pub plugin_id: PluginId,
    pub server_tx: crossbeam_channel::Sender<ServerRpc>,
}

/// A catalog-internal event, applied serially by the catalog mainloop.
pub enum PluginCatalogNotification {
    PluginServerLoaded(PluginServerRpcHandler),
}

/// One command on the catalog's inbound queue.  The mainloop drains these and
/// applies each to the catalog serially, which is what makes sandbox calls
/// safe without per-call locking elsewhere.
pub enum PluginCatalogRpc {
    ServerRequest { id: u64, method: String, params: serde_json::Value },
    ServerNotification { method: String, params: serde_json::Value },
    DidChangeTextDocument { uri: String, version: i64, text: String },
    Handler(PluginCatalogNotification),
}

/// The broker: allocates request ids, stores pending continuations, resolves
/// them when responses arrive, and exposes fire-and-forget sends.
pub struct PluginCatalogRpcHandler {
    plugin_tx: crossbeam_channel::Sender<PluginCatalogRpc>,
    next_id: u64,
    pending: HashMap<u64, ResponseSender>,
}

impl PluginCatalogRpcHandler {
    /// The id the next request will be given.
    pub closed spec fn next_request_id(self) -> u64 {
        self.next_id
    }

    /// The pending table: every stored continuation, by request id.
    pub closed spec fn pending_view(self) -> Map<u64, ResponseSender> {
        self.pending@
    }

    /// Every pending id was allocated before the next one: ids are never
    /// reused, so an entry can never be overwritten.
    pub open spec fn wf(self) -> bool {
        forall|k: u64| self.pending_view().dom().contains(k) ==> k < self.next_request_id()
    }

    /// How one `send_request` call changes the broker: the returned id is the
    /// allocation cursor, the cursor advances by one, and the continuation is
    /// stored under the returned id.
    pub open spec fn request_sent(pre: Self, post: Self, id: u64, chan: ResponseSender) -> bool {
        &&& id == pre.next_request_id()
        &&& post.next_request_id() == pre.next_request_id() + 1
        &&& post.pending_view() == pre.pending_view().insert(id, chan)
    }

    /// How one `handle_response` call changes the broker: the entry for `id`,
    /// if any, is removed, and the response was delivered exactly when the
    /// entry existed.
    pub open spec fn response_resolved(pre: Self, post: Self, id: u64, delivered: bool) -> bool {
        &&& delivered == pre.pending_view().dom().contains(id)
        &&& post.next_request_id() == pre.next_request_id()
        &&& post.pending_view() == pre.pending_view().remove(id)
    }

    /// A fresh broker with an empty pending table, and the receiving end of
    /// its command queue for the mainloop to drain.
    pub fn new() -> (r: (Self, crossbeam_channel::Receiver<PluginCatalogRpc>))
        ensures
            r.0.wf(),
            r.0.next_request_id() == 0,
            r.0.pending_view() == Map::<u64, ResponseSender>::empty(),
    {
        let (tx, rx) = channel_pair();
        (Self { plugin_tx: tx, next_id: 0, pending: HashMap::new() }, rx)
    }

    /// Allocates the next request id, stores the continuation under it before
    /// the request is enqueued, then enqueues the request.  The returned id
    /// was never pending before this call.
    pub fn send_request(
        &mut self,
        method: String,
        params: serde_json::Value,
        chan: ResponseSender,
    ) -> (id: u64)
        requires
            old(self).wf(),
            old(self).next_request_id() < u64::MAX,
        ensures
            final(self).wf(),
            Self::request_sent(*old(self), *final(self), id, chan),
            !old(self).pending_view().dom().contains(id),
    {
        let id = self.next_id;
        self.next_id = self.next_id + 1;
        self.pending.insert(id, chan);
        proof {
            assert forall|k: u64| self.pending_view().dom().contains(k) implies k
                < self.next_request_id() by {
                if k != id {
                    assert(old(self).pending_view().dom().contains(k));
                }
            }
        }
        let _ = channel_send(
            &self.plugin_tx,
            PluginCatalogRpc::ServerRequest { id, method, params },
        );
        id
    }

    /// Enqueues a fire-and-forget notification.  No pending entry is created:
    /// the broker is not changed in any way, which the shared borrow shows.
    pub fn notify(&self, method: String, params: serde_json::Value) -> (accepted: bool) {
        channel_send(&self.plugin_tx, PluginCatalogRpc::ServerNotification { method, params })
    }

    /// Resolves the pending entry for `id`: removes it and delivers the
    /// result to its continuation.  When no entry exists — a duplicate, stale,
    /// or already-delivered response — the call is a no-op.
    pub fn handle_response(&mut self, id: u64, result: Result<serde_json::Value, RpcError>) -> (
        delivered: bool)
        requires
            old(self).wf(),
        ensures
            final(self).wf(),
            Self::response_resolved(*old(self), *final(self), id, delivered),
    {
        match self.pending.remove(&id) {
            Some(chan) => {
                let _ = channel_send(&chan, result);
                proof {
                    assert(old(self).pending_view().remove(id) =~= self.pending_view());
                }
                true
            },
            None => {
                proof {
                    assert(old(self).pending_view().remove(id) =~= self.pending_view());
                }
                false
            },
        }
    }

    /// Enqueues a document-change notification for the catalog to fan out.
    pub fn did_change_text_document(&self, uri: String, version: i64, text: String) -> (accepted:
        bool) {
        channel_send(
            &self.plugin_tx,
            PluginCatalogRpc::DidChangeTextDocument { uri, version, text },
        )
    }

    /// Hands a newly loaded plugin server to the catalog mainloop.
    pub fn plugin_server_loaded(&self, plugin: PluginServerRpcHandler) -> (accepted: bool) {
        channel_send(
            &self.plugin_tx,
            PluginCatalogRpc::Handler(PluginCatalogNotification::PluginServerLoaded(plugin)),
        )
    }

    /// Sends a completion request to the plugin servers; the caller builds
    /// the completion params at the edge and awaits the decoded response on
    /// its channel.
    pub fn completion(&mut self, params: serde_json::Value, chan: ResponseSender) -> (id: u64)
        requires
            old(self).wf(),
            old(self).next_request_id() < u64::MAX,
        ensures
            final(self).wf(),
            Self::request_sent(*old(self), *final(self), id, chan),
            !old(self).pending_view().dom().contains(id),
    {
        self.send_request(String::from_str("textDocument/completion"), params, chan)
    }

    /// Announces a newly opened document to the plugin servers;
    /// fire-and-forget, so the broker is unchanged.
    pub fn document_did_open(&self, params: serde_json::Value) -> (accepted: bool) {
        self.notify(String::from_str("textDocument/didOpen"), params)
    }

    /// Request ids are unique and strictly increasing across any sequence of
    /// `send_request` calls: between two sends the cursor never moves
    /// backwards (no operation ever lowers it), so the second id is strictly
    /// larger than the first.
    pub proof fn lemma_request_ids_strictly_increase(
        b0: Self,
        b1: Self,
        b2: Self,
        b3: Self,
        id1: u64,
        id2: u64,
        c1: ResponseSender,
        c2: ResponseSender,
    )
        requires
            Self::request_sent(b0, b1, id1, c1),
            b1.next_request_id() <= b2.next_request_id(),
            Self::request_sent(b2, b3, id2, c2),
        ensures
            id1 < id2,
    {
    }

    /// A response is delivered exactly once: after a response for `id` was
    /// delivered, a second response for the same `id` is a no-op — nothing is
    /// delivered and the broker is unchanged.
    pub proof fn lemma_response_delivered_once(
        b0: Self,
        b1: Self,
        b2: Self,
        id: u64,
        d1: bool,
        d2: bool,
    )
        requires
            Self::response_resolved(b0, b1, id, d1),
            d1,
            Self::response_resolved(b1, b2, id, d2),
        ensures
            !d2,
            b2.pending_view() == b1.pending_view(),
    {
        assert(!b1.pending_view().dom().contains(id));
        assert(b2.pending_view() =~= b1.pending_view());
    }

    /// A pending continuation survives every operation on other ids: sends
    /// and responses for other requests never disturb it.
    pub proof fn lemma_pending_entry_stable(
        b0: Self,
        b1: Self,
        id: u64,
        other: u64,
        chan: ResponseSender,
        c2: ResponseSender,
        delivered: bool,
    )
        requires
            b0.wf(),
            b0.pending_view().dom().contains(id),
            other != id,
            Self::request_sent(b0, b1, other, c2) || Self::response_resolved(
                b0,
                b1,
                other,
                delivered,
            ),
        ensures
            b1.pending_view().dom().contains(id),
            b1.pending_view()[id] == b0.pending_view()[id],
    {
    }
}

/// Enqueues one catalog-internal event on a command queue; fire-and-forget.
pub fn send_plugin_notification(
    plugin_tx: &crossbeam_channel::Sender<PluginCatalogRpc>,
    notification: PluginCatalogNotification,
) -> (accepted: bool) {
    channel_send(plugin_tx, PluginCatalogRpc::Handler(notification))
}

/// The id of an inbound JSON-RPC message: a number, a numeric string, or
/// absent.
pub enum RpcId {
    Num(i64),
    Str(String),
    Null,
}

/// A decimal digit.
pub open spec fn is_dec_digit(c: char) -> bool {
    '0' <= c && c <= '9'
}

/// The value of one decimal digit.
pub open spec fn digit_val(c: char) -> int {
    c as int - '0' as int
}

/// Every character is a decimal digit.
pub open spec fn all_dec_digits(s: Seq<char>) -> bool {
    forall|i: int| 0 <= i < s.len() ==> is_dec_digit(#[trigger] s[i])
}

/// The number the decimal digits spell.
pub open spec fn dec_val(s: Seq<char>) -> int
    decreases s.len(),
{
    if s.len() == 0 {
        0
    } else {
        dec_val(s.take(s.len() - 1)) * 10 + digit_val(s.last())
    }
}

proof fn lemma_dec_val_nonneg(s: Seq<char>)
    requires
        all_dec_digits(s),
    ensures
        dec_val(s) >= 0,
    decreases s.len(),
{
    if s.len() > 0 {
        assert(all_dec_digits(s.take(s.len() - 1))) by {
            assert(forall|i: int|
                0 <= i < s.len() - 1 ==> #[trigger] s.take(s.len() - 1)[i] == s[i]);
        }
        lemma_dec_val_nonneg(s.take(s.len() - 1));
        assert(digit_val(s.last()) >= 0);
    }
}

proof fn lemma_dec_val_prefix_le(s: Seq<char>, i: int)
    requires
        all_dec_digits(s),
        0 <= i <= s.len(),
    ensures
        dec_val(s.take(i)) <= dec_val(s),
    decreases s.len() - i,
{
    if i == s.len() {
        assert(s.take(i) =~= s);
    } else {
        lemma_dec_val_prefix_le(s, i + 1);
        let p = s.take(i + 1);
        assert(all_dec_digits(p)) by {
            assert(forall|k: int| 0 <= k < p.len() ==> #[trigger] p[k] == s[k]);
        }
        assert(p.take(p.len() - 1) =~= s.take(i));
        lemma_dec_val_nonneg(s.take(i));
        assert(dec_val(p) == dec_val(s.take(i)) * 10 + digit_val(p.last()));
        assert(dec_val(s.take(i)) * 10 >= dec_val(s.take(i))) by (nonlinear_arith)
            requires
                dec_val(s.take(i)) >= 0,
        ;
        assert(digit_val(p.last()) >= 0);
    }
}

/// Reads an unsigned decimal number; `None` when the text is empty, has a
/// non-digit, or spells a value too large for a `u64`.
pub fn parse_u64_digits(s: &str) -> (r: Option<u64>)
    ensures
        match r {
            Some(v) => s@.len() > 0 && all_dec_digits(s@) && v == dec_val(s@),
            None => s@.len() == 0 || !all_dec_digits(s@) || dec_val(s@) > u64::MAX,
        },
{
    let n = s.unicode_len();
    if n == 0 {
        return None;
    }
    let mut acc: u64 = 0;
    let mut i: usize = 0;
    while i < n
        invariant
            i <= n,
            n == s@.len(),
            all_dec_digits(s@.take(i as int)),
            acc == dec_val(s@.take(i as int)),
        decreases n - i,
    {
        let c = s.get_char(i);
        if c < '0' || c > '9' {
            proof {
                assert(!is_dec_digit(s@[i as int]));
            }
            return None;
        }
        let d = (c as u32 - '0' as u32) as u64;
        proof {
            assert(s@.take(i as int + 1).take(i as int) =~= s@.take(i as int));
            assert(s@.take(i as int + 1).last() == s@[i as int]);
            assert(all_dec_digits(s@.take(i as int + 1))) by {
                assert(forall|k: int|
                    0 <= k < i as int + 1 ==> #[trigger] s@.take(i as int + 1)[k] == s@[k]);
            }
        }
        if acc > (u64::MAX - d) / 10 {
            proof {
                assert(dec_val(s@.take(i as int + 1)) == acc * 10 + d);
                assert(acc * 10 + d > u64::MAX) by (nonlinear_arith)
                    requires
                        acc > (u64::MAX - d) / 10,
                        d <= 9,
                ;
                if all_dec_digits(s@) {
                    lemma_dec_val_prefix_le(s@, i as int + 1);
                    assert(dec_val(s@) > u64::MAX);
                }
            }
            return None;
        }
        proof {
            assert(acc * 10 + d <= u64::MAX) by (nonlinear_arith)
                requires
                    acc <= (u64::MAX - d) / 10,
                    d <= 9,
            ;
        }
        acc = acc * 10 + d;
        i = i + 1;
    }
    proof {
        assert(s@.take(n as int) =~= s@);
    }
    Some(acc)
}

/// The digits of an unsigned decimal text: an optional leading `+` sign is
/// dropped.
pub open spec fn unsigned_digits(s: Seq<char>) -> Seq<char> {
    if s.len() > 0 && s[0] == '+' {
        s.skip(1)
    } else {
        s
    }
}

/// Converts an inbound message id to the broker's numeric id space.  The
/// caller rules out absent ids and non-numeric strings; a numeric id is
/// nonnegative, and a string id is decimal digits after an optional `+`.
pub fn number_from_id(id: &RpcId) -> (r: u64)
    requires
        match id {
            RpcId::Num(n) => *n >= 0,
            RpcId::Str(s) => unsigned_digits(s@).len() > 0 && all_dec_digits(unsigned_digits(s@))
                && dec_val(unsigned_digits(s@)) <= u64::MAX,
            RpcId::Null => false,
        },
    ensures
        match id {
            RpcId::Num(n) => r == *n as u64,
            RpcId::Str(s) => r == dec_val(unsigned_digits(s@)),
            RpcId::Null => false,
        },
{
    match id {
        RpcId::Num(n) => *n as u64,
        RpcId::Str(s) => {
            let n = s.as_str().unicode_len();
            let digits = if n > 0 && s.as_str().get_char(0) == '+' {
                let rest = s.as_str().substring_char(1, n);
                proof {
                    assert(rest@ =~= unsigned_digits(s@));
                }
                rest
            } else {
                proof {
                    assert(s@ =~= unsigned_digits(s@));
                }
                s.as_str()
            };
            match parse_u64_digits(digits) {
                Some(v) => v,
                None => {
                    proof {
                        assert(false);
                    }
                    0
                },
            }
        },
        RpcId::Null => {
            proof {
                assert(false);
            }
            0
        },
    }
}

} // verus!
