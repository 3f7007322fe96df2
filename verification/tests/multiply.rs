use binfield_matrix::{matrix_mul, matrix_mul_systematic};

#[test]
fn test_mul() {
    let w: u16 = matrix_mul(0b0110011u32, &[
        0b1010101,
        0b0110011,
        0b0001111,
    ]);
    assert_eq!(w, 0b000);

    let w: u16 = matrix_mul(0b0110111u32, &[
        0b1010101,
        0b0110011,
        0b0001111,
    ]);
    assert_eq!(w, 0b101);
}

#[test]
fn test_mul_sys() {
    let w: u16 = matrix_mul_systematic(0u16, &[
        0b11111110000,
        0b11110001110,
        0b11001101101,
        0b10101011011,
    ]);
    assert_eq!(w, 0);

    let w: u16 = matrix_mul_systematic(0b11111111111u16, &[
        0b11111110000,
        0b11110001110,
        0b11001101101,
        0b10101011011,
    ]);
    assert_eq!(w, 0b11111111111_1111);

    let w: u16 = matrix_mul_systematic(0b11111111101u16, &[
        0b11111110000,
        0b11110001110,
        0b11001101101,
        0b10101011011,
    ]);
    assert_eq!(w, 0b11111111101_1010);
}

#[test]
fn parity_bits_of_a_six_row_matrix() {
    let w = matrix_mul::<u32, u32>(0b1010, &[
        0b1111,
        0b0010,
        0b1000,
        0b0101,
        0b0010,
        0b1010,
    ]);
    assert_eq!(w, 0b011010);
}

#[test]
fn systematic_codeword_of_a_six_row_matrix() {
    let w = matrix_mul_systematic::<u32, u32>(0b1010, &[
        0b1111,
        0b0010,
        0b1000,
        0b0101,
        0b0010,
        0b1010,
    ]);
    assert_eq!(w, 0b1010011010);
}

#[test]
fn no_rows_give_zero() {
    let none8: [u8; 0] = [];
    let none64: [u64; 0] = [];
    assert_eq!(matrix_mul::<u8, u8>(0xff, &none8), 0);
    assert_eq!(matrix_mul::<u8, u128>(0x5a, &none8), 0);
    assert_eq!(matrix_mul::<u64, u16>(u64::MAX, &none64), 0);
    assert_eq!(matrix_mul::<u64, usize>(1, &none64), 0);
}

#[test]
fn no_rows_give_the_vector_back() {
    let none8: [u8; 0] = [];
    let none32: [u32; 0] = [];
    let none128: [u128; 0] = [];
    assert_eq!(matrix_mul_systematic::<u8, u8>(0xa7, &none8), 0xa7);
    assert_eq!(matrix_mul_systematic::<u8, usize>(0xa7, &none8), 0xa7);
    assert_eq!(matrix_mul_systematic::<u32, u64>(u32::MAX, &none32), 0xffff_ffff);
    assert_eq!(matrix_mul_systematic::<u128, u128>(u128::MAX, &none128), u128::MAX);
}

#[test]
fn one_row_gives_its_parity() {
    assert_eq!(matrix_mul::<u8, u8>(0b0111, &[0b0110]), 0);
    assert_eq!(matrix_mul::<u8, u8>(0b0111, &[0b1110]), 0);
    assert_eq!(matrix_mul::<u8, u8>(0b0111, &[0b0100]), 1);
    assert_eq!(matrix_mul::<u8, u8>(0b0111, &[0b0111]), 1);
    assert_eq!(matrix_mul::<u8, u8>(0b0111, &[0b1000]), 0);
    assert_eq!(matrix_mul::<u8, u8>(0, &[0xff]), 0);
}

#[test]
fn each_bit_is_the_parity_of_its_row() {
    let v: u64 = 0xDEAD_BEEF_CAFE_F00D;
    let rows: [u64; 4] = [
        0xFFFF_FFFF_FFFF_FFFF,
        0x8000_0000_0000_0001,
        0x0123_4567_89AB_CDEF,
        0xF0F0_F0F0_F0F0_F0F0,
    ];
    let w: u64 = matrix_mul(v, &rows);
    assert_eq!(w, 0b0011);
    for i in 0..rows.len() {
        let parity = ((v & rows[rows.len() - 1 - i]).count_ones() & 1) as u64;
        assert_eq!((w >> i) & 1, parity);
    }
    assert_eq!(w >> rows.len(), 0);
}

#[test]
fn systematic_is_the_shifted_vector_or_the_product() {
    let v: u64 = 0xDEAD_BEEF_CAFE_F00D;
    let rows: [u64; 4] = [
        0xFFFF_FFFF_FFFF_FFFF,
        0x8000_0000_0000_0001,
        0x0123_4567_89AB_CDEF,
        0xF0F0_F0F0_F0F0_F0F0,
    ];
    let product: u128 = matrix_mul(v, &rows);
    let codeword: u128 = matrix_mul_systematic(v, &rows);
    assert_eq!(codeword, 0xDEAD_BEEF_CAFE_F00D_3);
    assert_eq!(codeword, (u128::from(v) << rows.len()) | product);
}

#[test]
fn product_is_linear_in_the_vector() {
    let a: u8 = 0b110101;
    let b: u8 = 0b011100;
    let rows: [u8; 5] = [0b101010, 0b111000, 0b000111, 0b110011, 0b100001];
    let pa: u8 = matrix_mul(a, &rows);
    let pb: u8 = matrix_mul(b, &rows);
    let pab: u8 = matrix_mul(a ^ b, &rows);
    assert_eq!(pa, 18);
    assert_eq!(pb, 22);
    assert_eq!(pab, 4);
    assert_eq!(pab, pa ^ pb);
}

#[test]
fn output_bits_follow_the_rows() {
    let v: u16 = 0b0011;
    let rows: [u16; 4] = [0b0001, 0b0110, 0b1111, 0b1000];
    let from: [usize; 4] = [2, 0, 3, 1];
    let moved: [u16; 4] = [rows[2], rows[0], rows[3], rows[1]];
    let w: u16 = matrix_mul(v, &rows);
    let m: u16 = matrix_mul(v, &moved);
    assert_eq!(w, 0b1100);
    assert_eq!(m, 0b0101);
    for j in 0..4 {
        assert_eq!((m >> (3 - j)) & 1, (w >> (3 - from[j])) & 1);
    }
}

#[test]
fn reversed_rows_give_reversed_bits() {
    let v: u8 = 0b1;
    let w: u8 = matrix_mul(v, &[1, 1, 0, 1, 0]);
    let r: u8 = matrix_mul(v, &[0, 1, 0, 1, 1]);
    assert_eq!(w, 0b11010);
    assert_eq!(r, 0b01011);
}

#[test]
fn only_shared_bits_count() {
    let rows: [u16; 2] = [0b0000_1111, 0b0000_0001];
    let low: u8 = matrix_mul(0b0000_0111u16, &rows);
    let high: u8 = matrix_mul(0b1111_0000_0000_0111u16, &rows);
    assert_eq!(low, 0b11);
    assert_eq!(high, low);
}

#[test]
fn rows_beyond_the_width_push_the_first_out() {
    let rows: [u8; 9] = [1, 1, 0, 1, 0, 0, 1, 1, 1];
    let narrow: u8 = matrix_mul(1u8, &rows);
    let wide: u16 = matrix_mul(1u8, &rows);
    assert_eq!(wide, 0b1_1010_0111);
    assert_eq!(narrow, 0b1010_0111);
}

#[test]
fn systematic_drops_the_highest_bits_without_room() {
    let rows: [u8; 3] = [0xff, 0x0f, 0xf0];
    let product: u8 = matrix_mul(0xb5u8, &rows);
    let narrow: u8 = matrix_mul_systematic(0xb5u8, &rows);
    let wide: u16 = matrix_mul_systematic(0xb5u8, &rows);
    assert_eq!(product, 0b101);
    assert_eq!(wide, 0x5ad);
    assert_eq!(narrow, 0xad);
}

#[test]
fn widest_words() {
    let big: u128 = (1 << 127) | 1;
    let rows: [u128; 4] = [big, 1 << 127, 1, u128::MAX];
    let product: u128 = matrix_mul(big, &rows);
    let codeword: u128 = matrix_mul_systematic(big, &rows);
    assert_eq!(product, 0b0110);
    assert_eq!(codeword, 0x16);
}

#[test]
fn platform_words() {
    let rows: [usize; 3] = [usize::MAX, 0b10, 0b01];
    let product: usize = matrix_mul(0b11usize, &rows);
    let codeword: usize = matrix_mul_systematic(0b11usize, &rows);
    assert_eq!(product, 0b011);
    assert_eq!(codeword, 0b11_011);
    let from_bytes: usize = matrix_mul_systematic(0b11u8, &[0xff, 0b10, 0b01]);
    assert_eq!(from_bytes, 0b11_011);
}

#[test]
fn input_and_output_widths_are_independent() {
    let rows: [u32; 3] = [0x8000_0001, 0x0000_ffff, 0xffff_0000];
    let v: u32 = 0x8000_8001;
    let a: u8 = matrix_mul(v, &rows);
    let b: u16 = matrix_mul(v, &rows);
    let c: u64 = matrix_mul(v, &rows);
    let d: u128 = matrix_mul(v, &rows);
    assert_eq!(a, 0b001);
    assert_eq!(b, 0b001);
    assert_eq!(c, 0b001);
    assert_eq!(d, 0b001);
    let s: u64 = matrix_mul_systematic(v, &rows);
    assert_eq!(s, 0x4_0004_0009);
}

#[test]
fn rows_are_left_as_they_were() {
    let rows: Vec<u16> = vec![0b101, 0b011, 0b110];
    let first: u16 = matrix_mul(0b111u16, &rows);
    let second: u16 = matrix_mul(0b111u16, &rows);
    assert_eq!(first, 0b000);
    assert_eq!(second, first);
    assert_eq!(rows, vec![0b101, 0b011, 0b110]);
}
