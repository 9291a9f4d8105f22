use doing_some_blockchain::util::{merge, split, stamp_of, time};

#[test]
fn test_split() {
    assert_eq!(split(0xCAFEBABEBEEFFACE), (0xCAFEBABE, 0xBEEFFACE));
}

#[test]
fn test_merge() {
    assert_eq!(merge(0xCAFEBABE, 0xBEEFFACE), 0xCAFEBABEBEEFFACE);
}

#[test]
fn split_merge_edges() {
    assert_eq!(split(0), (0, 0));
    assert_eq!(split(u64::MAX), (u32::MAX, u32::MAX));
    assert_eq!(merge(u32::MAX, 0), 0xFFFF_FFFF_0000_0000);
    assert_eq!(merge(0, u32::MAX), 0x0000_0000_FFFF_FFFF);
}

#[test]
fn stamp_keeps_low_bits() {
    assert_eq!(stamp_of(0x1_0000_0005), 5);
    assert_eq!(stamp_of(1_700_000_000), 1_700_000_000);
    assert!(time() > 0);
}
