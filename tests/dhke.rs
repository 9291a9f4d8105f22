use doing_some_blockchain::api::Sender;
use doing_some_blockchain::dhke::{handshake_offer, modular_pow, session_key, Int, BASE, MODULUS};
use doing_some_blockchain::testkit::{network, Probe};

#[test]
fn test_dfke_math() {
    let a: Int = 101010;
    let b: Int = 202020;

    let sent_a = modular_pow(BASE, a, MODULUS);
    let sent_b = modular_pow(BASE, b, MODULUS);

    let s1 = modular_pow(sent_a, b, MODULUS);
    let s2 = modular_pow(sent_b, a, MODULUS);

    assert_eq!(s1, s2);
}

#[test]
fn test_dfke_handshake() {
    let network = network();

    let one = "1".to_string();
    let two = "2".to_string();
    let t1 = Probe::open(&(one.clone(), two.clone(), network.clone())).unwrap();
    let t2 = Probe::open(&(two.clone(), one.clone(), network.clone())).unwrap();

    let a: u32 = 30303030;
    let b: u32 = 40404040;

    t1.send(&handshake_offer(a)).unwrap();
    t2.send(&handshake_offer(b)).unwrap();
    let from_two = t1.recv_word().unwrap().unwrap();
    let from_one = t2.recv_word().unwrap().unwrap();
    let s1 = session_key(from_two, a);
    let s2 = session_key(from_one, b);

    assert_eq!(s1, s2);
}

#[test]
fn modular_pow_values() {
    assert_eq!(modular_pow(2, 10, 1000), 24);
    assert_eq!(modular_pow(7, 0, MODULUS), 1);
    assert_eq!(modular_pow(5, 3, 1), 0);
    assert_eq!(modular_pow(3, 5, 7), 5);
    assert_eq!(modular_pow(BASE, 2, MODULUS), 49);
    assert_eq!(modular_pow(u64::MAX, 2, 0x1_0000_0000), 1);
    assert_eq!(handshake_offer(1), 7);
    assert_eq!(session_key(2, 31), 1);
}

#[test]
fn probe_carries_words() {
    let net = network();
    let p = Probe::open(&("a".to_string(), "b".to_string(), net.clone())).unwrap();
    let q = Probe::open(&("b".to_string(), "a".to_string(), net.clone())).unwrap();
    assert_eq!(q.recv_word().unwrap(), None);
    p.send(&0xDEAD).unwrap();
    assert_eq!(p.recv_word().unwrap(), None);
    assert_eq!(q.recv_word().unwrap(), Some(0xDEAD));
    assert_eq!(q.recv_word().unwrap(), None);
}
