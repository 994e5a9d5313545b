use polestar_models::arq::{max_grain, Arq};

#[test]
fn arq_unit_tests() {
    type A = Arq<u8>;

    assert_eq!(max_grain::<u8>(), 3);
    assert_eq!(max_grain::<u16>(), 4);
    assert_eq!(max_grain::<u32>(), 5);
    assert_eq!(max_grain::<u64>(), 6);
    assert_eq!(max_grain::<u128>(), 7);

    // 0

    assert_eq!(A::new(0, 0, 1).to_ascii(), "11111111");
    assert_eq!(A::new(1, 0, 2).to_ascii(), "11111111");
    assert_eq!(A::new(2, 0, 4).to_ascii(), "11111111");
    assert_eq!(A::new(3, 0, 8).to_ascii(), "11111111");

    assert_eq!(A::new(1, 0, 1).to_ascii(), "11110000");
    assert_eq!(A::new(2, 0, 1).to_ascii(), "11000000");
    assert_eq!(A::new(3, 0, 1).to_ascii(), "10000000");

    assert_eq!(A::new(2, 0, 2).to_ascii(), "11110000");
    assert_eq!(A::new(3, 0, 4).to_ascii(), "11110000");
    assert_eq!(A::new(3, 0, 3).to_ascii(), "11100000");
    assert_eq!(A::new(3, 0, 2).to_ascii(), "11000000");
    assert_eq!(A::new(3, 0, 1).to_ascii(), "10000000");

    // 1

    assert_eq!(A::new(1, 1, 2).to_ascii(), "11111111");
    assert_eq!(A::new(2, 1, 4).to_ascii(), "11111111");
    assert_eq!(A::new(3, 1, 8).to_ascii(), "11111111");

    assert_eq!(A::new(1, 1, 1).to_ascii(), "00001111");
    assert_eq!(A::new(2, 1, 1).to_ascii(), "00110000");
    assert_eq!(A::new(3, 1, 1).to_ascii(), "01000000");

    assert_eq!(A::new(2, 1, 2).to_ascii(), "00111100");
    assert_eq!(A::new(3, 1, 4).to_ascii(), "01111000");
    assert_eq!(A::new(3, 1, 3).to_ascii(), "01110000");
    assert_eq!(A::new(3, 1, 2).to_ascii(), "01100000");
    assert_eq!(A::new(3, 1, 1).to_ascii(), "01000000");

    // wrap

    assert_eq!(A::new(3, 0, 4).to_ascii(), "11110000");
    assert_eq!(A::new(3, 1, 4).to_ascii(), "01111000");
    assert_eq!(A::new(3, 2, 4).to_ascii(), "00111100");
    assert_eq!(A::new(3, 3, 4).to_ascii(), "00011110");
    assert_eq!(A::new(3, 4, 4).to_ascii(), "00001111");
    assert_eq!(A::new(3, 5, 4).to_ascii(), "10000111");
    assert_eq!(A::new(3, 6, 4).to_ascii(), "11000011");
    assert_eq!(A::new(3, 7, 4).to_ascii(), "11100001");
}

#[test]
fn arq_to_space_sets_the_covered_chunks() {
    // The first chunk is the highest bit.
    assert_eq!(Arq::<u8>::new(3, 0, 1).to_space(), 0b1000_0000u8);
    // An arc past the end wraps round to the start.
    assert_eq!(Arq::<u8>::new(3, 7, 2).to_space(), 0b1000_0001u8);
    // A whole-space arc covers every bit.
    assert_eq!(Arq::<u8>::new(0, 0, 1).to_space(), 0xffu8);
    assert_eq!(Arq::<u16>::new(4, 15, 1).to_space(), 0x0001u16);
    assert_eq!(Arq::<u16>::new(1, 1, 1).to_space(), 0x00ffu16);
}

#[test]
fn max_grain_counts_bits_of_the_space() {
    assert_eq!(max_grain::<u8>() , 3);
    assert_eq!(1u32 << max_grain::<u64>(), 64);
}
