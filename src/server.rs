use vstd::prelude::*;

use crate::api::{
    Frame, ERR_NOT_FOUND, TAG_BAD_REQUEST, TAG_OK, TAG_PUBLIC_KEY, TAG_REFRESH, TAG_SECRET_SHARE,
};
use crate::storage::{Shares, DB};
use crate::util::{join_words, merge, random};

verus! {

/// The `sum` word a server puts on its frames.
pub const SERVER_SUM: u32 = 42;

/// A frame sent by the server that holds the session key `key`: `sig` is
/// `key` in both halves.
pub open spec fn server_frame(now: u32, tag: u32, msg: u32, key: u32, ext: u32, sum: u32) -> Frame {
    Frame { idx: now, tag, msg, key, sig: join_words(key, key), ext, sum }
}

/// The reply to `request` from a store in state `s`.
pub open spec fn reply_to(s: Shares, request: Frame, key: u32, now: u32) -> Frame {
    if request.tag == TAG_SECRET_SHARE {
        server_frame(now, TAG_OK, 200, key, 0, SERVER_SUM)
    } else if request.tag == TAG_PUBLIC_KEY {
        match s.read_value(request.key) {
            Some(v) => server_frame(now, TAG_OK, v, key, 0, SERVER_SUM),
            None => server_frame(now, TAG_BAD_REQUEST, 0, key, ERR_NOT_FOUND, SERVER_SUM),
        }
    } else if request.tag == TAG_REFRESH {
        server_frame(now, TAG_OK, 0, key, 0, 0)
    } else {
        server_frame(now, TAG_BAD_REQUEST, 0, key, request.tag, SERVER_SUM)
    }
}

/// The store after serving `request` from state `s`.
pub open spec fn state_after(s: Shares, request: Frame) -> Shares {
    if request.tag == TAG_SECRET_SHARE {
        s.set(request.key, request.msg)
    } else if request.tag == TAG_PUBLIC_KEY {
        s.after_read(request.key)
    } else if request.tag == TAG_REFRESH {
        s.patch(request.ext, request.msg)
    } else {
        s
    }
}

/// Whether serving `request` from state `s` calls for a refresh toward the
/// peer: a read that found a value, on a server started in sync mode.
pub open spec fn wants_refresh(s: Shares, request: Frame, sync: bool) -> bool {
    sync && request.tag == TAG_PUBLIC_KEY && s.readable(request.key)
}

fn reply(now: u32, tag: u32, msg: u32, key: u32, ext: u32, sum: u32) -> (r: Frame)
    ensures
        r == server_frame(now, tag, msg, key, ext, sum),
{
    Frame { idx: now, tag, msg, key, sig: merge(key, key), ext, sum }
}

/// Serves one request on the store `db`, for a server holding the session
/// key `key`, at time `now`. Returns the reply and whether a refresh toward
/// the peer follows it.
pub fn handle_request(db: &mut DB, request: &Frame, key: u32, now: u32, sync: bool) -> (r: (
    Frame,
    bool,
))
    requires
        old(db).wf(),
    ensures
        final(db).wf(),
        final(db).model() == state_after(old(db).model(), *request),
        r.0 == reply_to(old(db).model(), *request, key, now),
        r.1 == wants_refresh(old(db).model(), *request, sync),
{
    if request.tag == TAG_SECRET_SHARE {
        db.set(request.key, request.msg);
        (reply(now, TAG_OK, 200, key, 0, SERVER_SUM), false)
    } else if request.tag == TAG_PUBLIC_KEY {
        match db.get(request.key) {
            Some(v) => (reply(now, TAG_OK, v, key, 0, SERVER_SUM), sync),
            None => (reply(now, TAG_BAD_REQUEST, 0, key, ERR_NOT_FOUND, SERVER_SUM), false),
        }
    } else if request.tag == TAG_REFRESH {
        db.patch(request.ext, request.msg);
        (reply(now, TAG_OK, 0, key, 0, 0), false)
    } else {
        (reply(now, TAG_BAD_REQUEST, 0, key, request.tag, SERVER_SUM), false)
    }
}

/// The request that asks the peer to XOR `mask` into its share of `owner`.
pub open spec fn refresh_frame(key: u32, owner: u32, mask: u32, now: u32) -> Frame {
    server_frame(now, TAG_REFRESH, mask, key, owner, SERVER_SUM)
}

/// The refresh request for the share of `owner`, with a fresh random mask
/// in `msg`.
pub fn refresh_request(key: u32, owner: u32, now: u32) -> (r: Frame)
    ensures
        r == refresh_frame(key, owner, r.msg, now),
{
    let mask = random();
    reply(now, TAG_REFRESH, mask, key, owner, SERVER_SUM)
}

/// Completes a refresh once the peer has answered `response` to `request`:
/// on `OK` the same mask is XOR-ed into the local share of the owner.
/// Returns whether it was.
pub fn finish_refresh(db: &mut DB, request: &Frame, response: &Frame) -> (r: bool)
    requires
        old(db).wf(),
    ensures
        final(db).wf(),
        r == (response.tag == TAG_OK),
        final(db).model() == (if r {
            old(db).model().patch(request.ext, request.msg)
        } else {
            old(db).model()
        }),
{
    if response.tag == TAG_OK {
        db.patch(request.ext, request.msg);
        true
    } else {
        false
    }
}

/// A read of a key that was never set is answered `BAD_REQUEST` with
/// `NOT_FOUND`, and starts no refresh.
pub proof fn lemma_unknown_key_not_found(s: Shares, request: Frame, key: u32, now: u32, sync: bool)
    requires
        request.tag == TAG_PUBLIC_KEY,
        !s.history.contains_key(request.key),
    ensures
        reply_to(s, request, key, now).tag == TAG_BAD_REQUEST,
        reply_to(s, request, key, now).ext == ERR_NOT_FOUND,
        !wants_refresh(s, request, sync),
{
}

/// On a server in sync mode, a read `get` of `k` that finds a value starts
/// a refresh. The peer accepts the refresh request, and once the same mask
/// is applied locally both histories of `k` have grown by one entry and the
/// XOR of their latest entries is what it was.
pub proof fn lemma_refresh_keeps_secret(
    p1: Shares,
    p2: Shares,
    get: Frame,
    key: u32,
    mask: u32,
    now: u32,
)
    requires
        p1.wf(),
        p2.wf(),
        get.tag == TAG_PUBLIC_KEY,
        p1.readable(get.key),
        p2.history.contains_key(get.key),
    ensures
        wants_refresh(p1, get, true),
        ({
            let k = get.key;
            let req = refresh_frame(key, k, mask, now);
            let q1 = state_after(p1, get).patch(req.ext, req.msg);
            let q2 = state_after(p2, req);
            &&& reply_to(p2, req, key, now).tag == TAG_OK
            &&& q1.history[k].len() == p1.history[k].len() + 1
            &&& q2.history[k].len() == p2.history[k].len() + 1
            &&& q1.history[k].last() ^ q2.history[k].last() == p1.history[k].last()
                ^ p2.history[k].last()
        }),
{
    let k = get.key;
    let a = p1.history[k].last();
    let b = p2.history[k].last();
    assert((a ^ mask) ^ (b ^ mask) == a ^ b) by (bit_vector);
}

} // verus!
