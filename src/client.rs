use vstd::prelude::*;

use crate::api::{Frame, TAG_OK, TAG_PUBLIC_KEY, TAG_SECRET_SHARE};
use crate::server::{reply_to, state_after};
use crate::storage::Shares;
use crate::util::{join_words, merge, random};
use crate::xor::{split, xor_all};

verus! {

/// The `sum` word a client puts on its requests.
pub const CLIENT_SUM: u32 = 0xFACE;

/// Why one peer of a quorum operation failed.
#[derive(Clone, Copy, Debug, PartialEq, Eq, Structural)]
pub enum PeerFault {
    /// The peer at this index could not be reached or did not answer.
    Unreachable { peer: usize },
    /// The peer at this index answered with a tag other than `OK`.
    Refused { peer: usize, tag: u32, ext: u32 },
}

/// A request from a client that owns `key`.
pub open spec fn client_frame(now: u32, tag: u32, msg: u32, key: u32) -> Frame {
    Frame { idx: now, tag, msg, key, sig: join_words(key, key), ext: 0, sum: CLIENT_SUM }
}

/// The request that reads one peer's share of `key`.
pub fn get_request(key: u32, now: u32) -> (r: Frame)
    ensures
        r == client_frame(now, TAG_PUBLIC_KEY, 0, key),
{
    Frame { idx: now, tag: TAG_PUBLIC_KEY, msg: 0, key, sig: merge(key, key), ext: 0, sum: CLIENT_SUM }
}

/// The request that stores `share` as a peer's share of `key`.
pub fn share_request(key: u32, share: u32, now: u32) -> (r: Frame)
    ensures
        r == client_frame(now, TAG_SECRET_SHARE, share, key),
{
    Frame {
        idx: now,
        tag: TAG_SECRET_SHARE,
        msg: share,
        key,
        sig: merge(key, key),
        ext: 0,
        sum: CLIENT_SUM,
    }
}

/// The `msg` words of a sequence of frames.
pub open spec fn msgs_of(frames: Seq<Frame>) -> Seq<u32> {
    frames.map_values(|f: Frame| f.msg)
}

/// One request per peer that stores a share of `secret` under `key`: the
/// shares are random but for the first, and together they XOR to `secret`.
pub fn set_requests(key: u32, secret: u32, n_peers: usize, now: u32) -> (r: Vec<Frame>)
    requires
        n_peers >= 1,
    ensures
        r@.len() == n_peers,
        forall|i: int| 0 <= i < n_peers ==> #[trigger] r@[i] == client_frame(
            now,
            TAG_SECRET_SHARE,
            r@[i].msg,
            key,
        ),
        xor_all(msgs_of(r@)) == secret,
{
    let shares = split(secret, n_peers, random);
    let mut r: Vec<Frame> = Vec::new();
    let mut i: usize = 0;
    while i < n_peers
        invariant
            i <= n_peers,
            shares@.len() == n_peers,
            r@.len() == i,
            forall|j: int| 0 <= j < i ==> #[trigger] r@[j] == client_frame(
                now,
                TAG_SECRET_SHARE,
                shares@[j],
                key,
            ),
        decreases n_peers - i,
    {
        r.push(share_request(key, shares[i], now));
        i = i + 1;
    }
    assert(msgs_of(r@) =~= shares@);
    r
}

/// The fault that the reply of peer `i` stands for, if any: no reply, or a
/// tag other than `OK`.
pub open spec fn fault_of(i: int, reply: Option<Frame>) -> Option<PeerFault> {
    match reply {
        None => Some(PeerFault::Unreachable { peer: i as usize }),
        Some(f) => if f.tag == TAG_OK {
            None
        } else {
            Some(PeerFault::Refused { peer: i as usize, tag: f.tag, ext: f.ext })
        },
    }
}

/// The faults of a sequence of replies, in peer order.
pub open spec fn faults_of(replies: Seq<Option<Frame>>) -> Seq<PeerFault>
    decreases replies.len(),
{
    if replies.len() == 0 {
        Seq::empty()
    } else {
        let n = replies.len() - 1;
        let rest = faults_of(replies.drop_last());
        match fault_of(n, replies[n]) {
            Some(e) => rest.push(e),
            None => rest,
        }
    }
}

/// The XOR of the `msg` words of the replies tagged `OK`.
pub open spec fn xor_of_ok(replies: Seq<Option<Frame>>) -> u32
    decreases replies.len(),
{
    if replies.len() == 0 {
        0
    } else {
        let n = replies.len() - 1;
        let rest = xor_of_ok(replies.drop_last());
        match replies[n] {
            Some(f) => if f.tag == TAG_OK {
                rest ^ f.msg
            } else {
                rest
            },
            None => rest,
        }
    }
}

/// Combines the replies of all peers to share reads of one key, where
/// `None` stands for a peer that could not be reached: the XOR of their
/// shares if every peer answered `OK`, else the fault of every peer that
/// did not.
pub fn combine_replies(replies: &Vec<Option<Frame>>) -> (r: Result<u32, Vec<PeerFault>>)
    ensures
        match r {
            Ok(v) => faults_of(replies@).len() == 0 && v == xor_of_ok(replies@),
            Err(e) => faults_of(replies@).len() > 0 && e@ == faults_of(replies@),
        },
{
    let mut secret: u32 = 0;
    let mut errors: Vec<PeerFault> = Vec::new();
    let mut i: usize = 0;
    while i < replies.len()
        invariant
            i <= replies@.len(),
            secret == xor_of_ok(replies@.subrange(0, i as int)),
            errors@ == faults_of(replies@.subrange(0, i as int)),
        decreases replies@.len() - i,
    {
        let ghost before = replies@.subrange(0, i as int);
        assert(replies@.subrange(0, i as int + 1).drop_last() =~= before);
        match &replies[i] {
            None => {
                errors.push(PeerFault::Unreachable { peer: i });
            },
            Some(f) => {
                if f.tag != TAG_OK {
                    errors.push(PeerFault::Refused { peer: i, tag: f.tag, ext: f.ext });
                } else {
                    secret = secret ^ f.msg;
                }
            },
        }
        i = i + 1;
    }
    assert(replies@.subrange(0, replies@.len() as int) =~= replies@);
    if errors.len() > 0 {
        Err(errors)
    } else {
        Ok(secret)
    }
}

/// Checks the replies of all peers to share writes: `Ok` if each answered
/// `OK`, else the fault of every peer that did not.
pub fn check_set_replies(replies: &Vec<Frame>) -> (r: Result<(), Vec<PeerFault>>)
    ensures
        ({
            let opt = replies@.map_values(|f: Frame| Some(f));
            match r {
                Ok(_) => faults_of(opt).len() == 0,
                Err(e) => faults_of(opt).len() > 0 && e@ == faults_of(opt),
            }
        }),
{
    let ghost opt = replies@.map_values(|f: Frame| Some(f));
    let mut errors: Vec<PeerFault> = Vec::new();
    let mut i: usize = 0;
    while i < replies.len()
        invariant
            i <= replies@.len(),
            opt == replies@.map_values(|f: Frame| Some(f)),
            errors@ == faults_of(opt.subrange(0, i as int)),
        decreases replies@.len() - i,
    {
        assert(opt.subrange(0, i as int + 1).drop_last() =~= opt.subrange(0, i as int));
        let f = &replies[i];
        if f.tag != TAG_OK {
            errors.push(PeerFault::Refused { peer: i, tag: f.tag, ext: f.ext });
        }
        i = i + 1;
    }
    assert(opt.subrange(0, replies@.len() as int) =~= opt);
    if errors.len() > 0 {
        Err(errors)
    } else {
        Ok(())
    }
}

/// A quorum read with one peer that could not be reached fails, whatever
/// the others answered.
pub proof fn lemma_unreachable_fails(replies: Seq<Option<Frame>>, i: int)
    requires
        0 <= i < replies.len(),
        replies[i] is None,
    ensures
        faults_of(replies).len() > 0,
    decreases replies.len(),
{
    lemma_faults_grow(replies);
    if i < replies.len() - 1 {
        lemma_unreachable_fails(replies.drop_last(), i);
    }
}

/// Storing the shares of `secret` on two peers and then reading `key` from
/// both gives two `OK` replies whose shares XOR to `secret`.
pub proof fn lemma_set_then_get(
    s1: Shares,
    s2: Shares,
    sets: Seq<Frame>,
    key: u32,
    secret: u32,
    server_keys: (u32, u32),
    times: (u32, u32),
)
    requires
        sets.len() == 2,
        forall|i: int| 0 <= i < 2 ==> #[trigger] sets[i] == client_frame(
            times.0,
            TAG_SECRET_SHARE,
            sets[i].msg,
            key,
        ),
        xor_all(msgs_of(sets)) == secret,
    ensures
        ({
            let g = client_frame(times.1, TAG_PUBLIC_KEY, 0, key);
            let t1 = state_after(s1, sets[0]);
            let t2 = state_after(s2, sets[1]);
            let replies = seq![
                Some(reply_to(t1, g, server_keys.0, times.1)),
                Some(reply_to(t2, g, server_keys.1, times.1)),
            ];
            &&& faults_of(replies).len() == 0
            &&& xor_of_ok(replies) == secret
        }),
{
    let g = client_frame(times.1, TAG_PUBLIC_KEY, 0, key);
    let t1 = state_after(s1, sets[0]);
    let t2 = state_after(s2, sets[1]);
    let replies = seq![
        Some(reply_to(t1, g, server_keys.0, times.1)),
        Some(reply_to(t2, g, server_keys.1, times.1)),
    ];
    let m = msgs_of(sets);
    assert(sets[0].tag == TAG_SECRET_SHARE && sets[1].tag == TAG_SECRET_SHARE);
    assert(t1.read_value(key) == Some(sets[0].msg));
    assert(t2.read_value(key) == Some(sets[1].msg));
    assert(replies.drop_last() =~= seq![Some(reply_to(t1, g, server_keys.0, times.1))]);
    assert(replies.drop_last().drop_last() =~= Seq::<Option<Frame>>::empty());
    assert(m.drop_last() =~= seq![sets[0].msg]);
    assert(m.drop_last().drop_last() =~= Seq::<u32>::empty());
    let r0 = reply_to(t1, g, server_keys.0, times.1);
    let r1 = reply_to(t2, g, server_keys.1, times.1);
    assert(r0.tag == TAG_OK && r0.msg == sets[0].msg);
    assert(r1.tag == TAG_OK && r1.msg == sets[1].msg);
    assert(xor_of_ok(replies.drop_last().drop_last()) == 0);
    assert(xor_of_ok(replies.drop_last()) == 0u32 ^ sets[0].msg);
    assert(xor_of_ok(replies) == (0u32 ^ sets[0].msg) ^ sets[1].msg);
    assert(faults_of(replies.drop_last().drop_last()).len() == 0);
    assert(faults_of(replies.drop_last()).len() == 0);
    assert(m[0] == sets[0].msg && m[1] == sets[1].msg);
    assert(xor_all(m.drop_last().drop_last()) == 0);
    assert(xor_all(m.drop_last()) == 0u32 ^ sets[0].msg);
    assert(xor_all(m) == (0u32 ^ sets[0].msg) ^ sets[1].msg);
}

proof fn lemma_faults_grow(replies: Seq<Option<Frame>>)
    requires
        replies.len() > 0,
    ensures
        faults_of(replies).len() >= faults_of(replies.drop_last()).len(),
{
}

} // verus!
