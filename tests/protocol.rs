use doing_some_blockchain::api::{
    Frame, ERR_NOT_FOUND, TAG_BAD_REQUEST, TAG_OK, TAG_PUBLIC_KEY, TAG_REFRESH, TAG_SECRET_SHARE,
};
use doing_some_blockchain::client::{
    check_set_replies, combine_replies, get_request, set_requests, share_request, PeerFault,
};
use doing_some_blockchain::server::{finish_refresh, handle_request, refresh_request};
use doing_some_blockchain::storage::DB;

const KEY1: u32 = 0x1111;
const KEY2: u32 = 0x2222;

#[test]
fn set_then_get_returns_secret() {
    let mut p1 = DB::new();
    let mut p2 = DB::new();
    let sets = set_requests(0xCAFE, 0xDEADBEEF, 2, 1);
    assert_eq!(sets.len(), 2);
    assert_eq!(sets[0].msg ^ sets[1].msg, 0xDEADBEEF);
    let (a, _) = handle_request(&mut p1, &sets[0], KEY1, 2, false);
    let (b, _) = handle_request(&mut p2, &sets[1], KEY2, 2, false);
    assert_eq!(check_set_replies(&vec![a, b]), Ok(()));

    let get = get_request(0xCAFE, 3);
    let (r1, t1) = handle_request(&mut p1, &get, KEY1, 4, false);
    let (r2, t2) = handle_request(&mut p2, &get, KEY2, 4, false);
    assert!(!t1 && !t2);
    assert_eq!(combine_replies(&vec![Some(r1), Some(r2)]), Ok(0xDEADBEEF));
}

#[test]
fn sync_refresh_keeps_secret() {
    let mut p1 = DB::new();
    let mut p2 = DB::new();
    let key = 0xCAFE;
    let (s0, s1) = (0x1234_0000, 0xDEAD_BEEF ^ 0x1234_0000);
    handle_request(&mut p1, &share_request(key, s0, 1), KEY1, 1, true);
    handle_request(&mut p2, &share_request(key, s1, 1), KEY2, 1, false);

    let (reply, trigger) = handle_request(&mut p1, &get_request(key, 2), KEY1, 2, true);
    assert_eq!(reply.tag, TAG_OK);
    assert_eq!(reply.msg, s0);
    assert!(trigger);

    let req = refresh_request(KEY1, key, 3);
    assert_eq!((req.tag, req.ext, req.key), (TAG_REFRESH, key, KEY1));
    let (ack, again) = handle_request(&mut p2, &req, KEY2, 3, false);
    assert_eq!(ack.tag, TAG_OK);
    assert!(!again);
    assert!(finish_refresh(&mut p1, &req, &ack));

    // p1: [s0, s0^m], cursor 1; p2: [s1, s1^m], cursor 0.
    assert_eq!(p1.get(key), Some(s0 ^ req.msg));
    assert_eq!(p1.get(key), None);
    assert_eq!(p2.get(key), Some(s1));
    assert_eq!(p2.get(key), Some(s1 ^ req.msg));
    assert_eq!(p2.get(key), None);
    assert_eq!((s0 ^ req.msg) ^ (s1 ^ req.msg), 0xDEAD_BEEF);
}

#[test]
fn refused_refresh_is_not_applied() {
    let mut p1 = DB::new();
    p1.set(7, 70);
    let req = refresh_request(KEY1, 7, 1);
    let nack = Frame { idx: 1, tag: TAG_BAD_REQUEST, msg: 0, key: KEY2, sig: 0, ext: 0, sum: 0 };
    assert!(!finish_refresh(&mut p1, &req, &nack));
    assert_eq!(p1.get(7), Some(70));
    assert_eq!(p1.get(7), None);
}

#[test]
fn get_of_unknown_key_is_not_found() {
    let mut db = DB::new();
    let (reply, trigger) = handle_request(&mut db, &get_request(0xBEEF, 5), KEY1, 6, true);
    assert_eq!(reply.tag, TAG_BAD_REQUEST);
    assert_eq!(reply.ext, ERR_NOT_FOUND);
    assert_eq!(reply.msg, 0);
    assert!(!trigger);
}

#[test]
fn server_reply_frames() {
    let mut db = DB::new();
    let (ok, _) = handle_request(&mut db, &share_request(3, 33, 9), 0xABCD, 10, false);
    assert_eq!(
        ok,
        Frame { idx: 10, tag: TAG_OK, msg: 200, key: 0xABCD, sig: 0x0000_ABCD_0000_ABCD, ext: 0, sum: 42 }
    );
    let odd = Frame { idx: 0, tag: 77, msg: 0, key: 3, sig: 0, ext: 0, sum: 0 };
    let (bad, _) = handle_request(&mut db, &odd, 0xABCD, 11, false);
    assert_eq!(bad.tag, TAG_BAD_REQUEST);
    assert_eq!(bad.ext, 77);
    let patch = Frame { idx: 0, tag: TAG_REFRESH, msg: 1, key: 0, sig: 0, ext: 3, sum: 0 };
    let (ack, _) = handle_request(&mut db, &patch, 0xABCD, 12, false);
    assert_eq!((ack.tag, ack.msg, ack.sum), (TAG_OK, 0, 0));
    assert_eq!(db.get(3), Some(33));
    assert_eq!(db.get(3), Some(32));
}

#[test]
fn get_with_unreachable_peer_fails() {
    let ok = Frame { idx: 1, tag: TAG_OK, msg: 0x1234, key: KEY1, sig: 0, ext: 0, sum: 42 };
    let r = combine_replies(&vec![Some(ok), None]);
    assert_eq!(r, Err(vec![PeerFault::Unreachable { peer: 1 }]));
}

#[test]
fn get_reports_every_fault() {
    let bad = Frame { idx: 1, tag: TAG_BAD_REQUEST, msg: 0, key: KEY1, sig: 0, ext: ERR_NOT_FOUND, sum: 42 };
    let r = combine_replies(&vec![None, Some(bad)]);
    assert_eq!(
        r,
        Err(vec![
            PeerFault::Unreachable { peer: 0 },
            PeerFault::Refused { peer: 1, tag: TAG_BAD_REQUEST, ext: ERR_NOT_FOUND },
        ])
    );
    assert_eq!(combine_replies(&vec![]), Ok(0));
}

#[test]
fn set_replies_collect_refusals() {
    let ok = Frame { idx: 1, tag: TAG_OK, msg: 200, key: KEY1, sig: 0, ext: 0, sum: 42 };
    let bad = Frame { idx: 1, tag: TAG_BAD_REQUEST, msg: 0, key: KEY2, sig: 0, ext: 5, sum: 42 };
    assert_eq!(check_set_replies(&vec![ok, ok]), Ok(()));
    assert_eq!(
        check_set_replies(&vec![bad, ok]),
        Err(vec![PeerFault::Refused { peer: 0, tag: TAG_BAD_REQUEST, ext: 5 }])
    );
}

#[test]
fn client_request_frames() {
    let g = get_request(0xCAFE, 5);
    assert_eq!(
        g,
        Frame { idx: 5, tag: TAG_PUBLIC_KEY, msg: 0, key: 0xCAFE, sig: 0x0000_CAFE_0000_CAFE, ext: 0, sum: 0xFACE }
    );
    let s = share_request(0xCAFE, 9, 6);
    assert_eq!((s.tag, s.msg, s.key), (TAG_SECRET_SHARE, 9, 0xCAFE));
}
