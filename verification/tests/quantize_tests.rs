use hologram_exec::dequant::{f16_bits_at, q4_0_block_interleaved, q4_0_locate, q4_0_quant, q6_k_quant, q6_k_scale};
use hologram_exec::q16::{
    encode_q16_indices, full_pages, page_members, page_position, q16_index, split_q16_index, PageKindTag,
};
use hologram_exec::quantize::{get_q4_flat_index, get_q4_index, pack_assignments_q4, pack_q4, unpack_q4};

#[test]
fn pack_unpack_roundtrip() {
    for hi in 0..16u8 {
        for lo in 0..16u8 {
            let packed = pack_q4(hi, lo);
            assert_eq!(unpack_q4(packed), (hi, lo));
        }
    }
}

#[test]
fn get_q4_index_row_col() {
    let assignments: Vec<u8> = (0..8).collect();
    let packed = pack_assignments_q4(&assignments);
    for r in 0..2u32 {
        for c in 0..4u32 {
            let expected = (r * 4 + c) as u8;
            assert_eq!(get_q4_index(&packed, r, c, 4), expected);
        }
    }
}

#[test]
fn odd_element_count_packing() {
    let assignments = vec![5u8, 10, 15];
    let packed = pack_assignments_q4(&assignments);
    assert_eq!(packed.len(), 2);
    assert_eq!(unpack_q4(packed[0]), (5, 10));
    assert_eq!(unpack_q4(packed[1]), (15, 0));
}

#[test]
fn packed_layout_puts_even_element_high() {
    let packed = pack_assignments_q4(&[1, 2, 3, 4]);
    assert_eq!(packed, vec![0x12, 0x34]);
    assert_eq!(pack_q4(0xA, 0x5), 0xA5);
    assert_eq!(pack_q4(0x3, 0xFF), 0x3F);
    assert_eq!(get_q4_flat_index(&packed, 3), 4);
}

#[test]
fn q16_index_packs_page_and_sub() {
    assert_eq!(q16_index(0x12, 0x34), 0x1234);
    assert_eq!(split_q16_index(0xABCD), (0xAB, 0xCD));
    for page in [0u8, 1, 127, 255] {
        for sub in [0u8, 3, 200, 255] {
            assert_eq!(split_q16_index(q16_index(page, sub)), (page, sub));
        }
    }
}

#[test]
fn full_pages_lists_full_tags_in_order() {
    let mut tags = vec![PageKindTag::Constant; 256];
    tags[3] = PageKindTag::Full;
    tags[7] = PageKindTag::Linear;
    tags[200] = PageKindTag::Full;
    assert_eq!(full_pages(&tags), vec![3, 200]);
    let pages = full_pages(&tags);
    assert_eq!(page_position(&pages, 200), Some(1));
    assert_eq!(page_position(&pages, 3), Some(0));
    assert_eq!(page_position(&pages, 7), None);
}

#[test]
fn page_members_keep_weight_order() {
    let values = [10, 11, 12, 13, 14];
    let pages = [2u8, 0, 2, 1, 2];
    assert_eq!(page_members(&values, &pages, 2), vec![10, 12, 14]);
    assert_eq!(page_members(&values, &pages, 0), vec![11]);
    assert_eq!(page_members(&values, &pages, 9), Vec::<i32>::new());
}

#[test]
fn q16_indices_take_sub_assignment_by_rank_in_page() {
    let pages = [2u8, 0, 2, 1, 2];
    let mut subs: Vec<Vec<u8>> = vec![Vec::new(); 256];
    subs[2] = vec![7, 8, 9];
    subs[0] = vec![5];
    subs[1] = vec![];
    let idx = encode_q16_indices(&pages, &subs);
    assert_eq!(idx, vec![0x0207, 0x0005, 0x0208, 0x0100, 0x0209]);
}

#[test]
fn q4_0_block_values() {
    let mut block = vec![0u8; 18];
    block[0] = 0x00;
    block[1] = 0x3c;
    for b in 0..16 {
        block[2 + b] = ((15 - b as u8) << 4) | (b as u8);
    }
    assert_eq!(f16_bits_at(&block, 0), 0x3c00);
    assert_eq!(q4_0_quant(&block, 0), -8);
    assert_eq!(q4_0_quant(&block, 15), 7);
    assert_eq!(q4_0_quant(&block, 16), 7);
    assert_eq!(q4_0_quant(&block, 31), -8);
    let inter = q4_0_block_interleaved(&block);
    assert_eq!(inter.len(), 32);
    assert_eq!(&inter[0..4], &[-8, 7, -7, 6]);
}

#[test]
fn q4_0_locate_block_of_column() {
    assert_eq!(q4_0_locate(0, 0, 64), (0, 0));
    assert_eq!(q4_0_locate(0, 33, 64), (18, 1));
    assert_eq!(q4_0_locate(2, 31, 64), (72, 31));
}

#[test]
fn q6_k_values_and_scales() {
    let mut block = vec![0u8; 210];
    block[0] = 0x5A;
    block[32] = 0xC3;
    block[128] = 0b11_10_01_00;
    block[192] = 0xFF;
    block[194] = 3;
    block[209] = 0x3c;
    assert_eq!(q6_k_quant(&block, 0), 10 - 32);
    assert_eq!(q6_k_quant(&block, 32), 3 + 16 - 32);
    assert_eq!(q6_k_quant(&block, 64), 5 + 32 - 32);
    assert_eq!(q6_k_quant(&block, 96), 12 + 48 - 32);
    assert_eq!(q6_k_scale(&block, 0), -1);
    assert_eq!(q6_k_scale(&block, 32), 3);
    assert_eq!(q6_k_scale(&block, 128), 0);
    assert_eq!(f16_bits_at(&block, 208), 0x3c00);
}
