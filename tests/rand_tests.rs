use snake::rand::Rand;

#[test]
fn first_bit_from_seed() {
    let mut r = Rand::new(1234);
    // 1234 * 1664525 + 1013904223 mod 2^32 = 3067928073, whose top bit is set.
    assert!(r.next_bool());
    assert!(!r.next_bool());
    assert!(r.next_bool());
}

#[test]
fn first_bytes_from_seed() {
    let mut r = Rand::new(1234);
    let got: Vec<u8> = (0..8).map(|_| r.next_u8()).collect();
    assert_eq!(got, vec![21, 204, 141, 53, 114, 202, 161, 88]);
}

#[test]
fn byte_packs_eight_bits_lsb_first() {
    for seed in [0u32, 1, 1234, 0xdead_beef, u32::MAX] {
        let mut bytes = Rand::new(seed);
        let mut bits = Rand::new(seed);
        for _ in 0..64 {
            let mut packed = 0u8;
            for i in 0..8 {
                if bits.next_bool() {
                    packed |= 1 << i;
                }
            }
            assert_eq!(bytes.next_u8(), packed);
        }
    }
}

#[test]
fn same_seed_same_stream() {
    for seed in [0u32, 7, 1234, u32::MAX] {
        let mut a = Rand::new(seed);
        let mut b = Rand::new(seed);
        for k in 0..2000 {
            if k % 3 == 0 {
                assert_eq!(a.next_u8(), b.next_u8());
            } else {
                assert_eq!(a.next_bool(), b.next_bool());
            }
        }
    }
}

#[test]
fn zero_seed_first_bit() {
    // From state 0 the first state is 1013904223, below 2^31.
    let mut r = Rand::new(0);
    assert!(!r.next_bool());
}
