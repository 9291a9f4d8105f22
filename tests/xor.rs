use doing_some_blockchain::util::random;
use doing_some_blockchain::xor::{merge, split};

#[test]
fn test_split_merge() {
    let secret = 0xCAFEBABE;
    let n = 10;
    let shares = split(secret, n, || random());
    assert_eq!(merge(&shares), secret);
}

#[test]
fn test_refresh() {
    let secret = 0xCAFEBABE;
    let k = (random() as usize % 10).max(1);
    let n = k * 2; // works only with even number of shares
    let mut shares = split(secret, n, || random());

    let r = random();
    shares.iter_mut().for_each(|s| *s ^= r);

    assert_eq!(merge(&shares), secret);
}

#[test]
fn split_with_fixed_source() {
    let shares = split(0x12345678, 3, || 0x0F0F0F0F);
    assert_eq!(shares, vec![0x12345678, 0x0F0F0F0F, 0x0F0F0F0F]);
    let shares = split(0xFF, 2, || 0x0F);
    assert_eq!(shares, vec![0xF0, 0x0F]);
    let shares = split(7, 1, || 99);
    assert_eq!(shares, vec![7]);
}

#[test]
fn merge_values() {
    assert_eq!(merge(&[]), 0);
    assert_eq!(merge(&[0xF0, 0x0F, 0xFF]), 0);
    assert_eq!(merge(&[1, 2, 4]), 7);
}

#[test]
fn refresh_two_shares_keeps_secret() {
    let mut shares = split(0xDEADBEEF, 2, || random());
    shares[0] ^= 0x5555_5555;
    shares[1] ^= 0x5555_5555;
    assert_eq!(merge(&shares), 0xDEADBEEF);
}
