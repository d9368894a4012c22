use main_flash::encoding::{
    concat_v3_hops, encode_trade, generate_v3_bytecode, pack_header, split_v3_hops, unpack_header, Header,
};
use main_flash::types::{Address, ArbHop, FlashLoan, V3Data};

fn addr(n: u128) -> Address {
    Address::from_u128(n)
}

fn tok(n: u128) -> V3Data {
    V3Data::Token(addr(n))
}

fn header_number(h: Header) -> (u128, u128) {
    (h.hi, h.lo)
}

#[test]
fn header_round_trip_all_listed_values() {
    let amounts: [u128; 3] = [0, 1, 1u128 << 40];
    let percentages: [u8; 3] = [0, 128, 255];
    let modes = [FlashLoan::Notused, FlashLoan::Balancer, FlashLoan::UniswapV2];
    for &amount in amounts.iter() {
        for &pct in percentages.iter() {
            for &mode in modes.iter() {
                let h = pack_header(amount, pct, mode);
                assert_eq!(unpack_header(h), Some((amount, pct, mode)));
            }
        }
    }
}

#[test]
fn header_packs_amount_percentage_and_mode() {
    // (1 << 16) | (128 << 8) | 1
    assert_eq!(header_number(pack_header(1, 128, FlashLoan::Balancer)), (0, 0x1_8001));
    assert_eq!(header_number(pack_header(0, 0, FlashLoan::UniswapV2)), (0, 2));
    assert_eq!(FlashLoan::Balancer.code(), 1);
}

#[test]
fn header_keeps_the_high_bits_of_large_amounts() {
    let amount = u128::MAX;
    let h = pack_header(amount, 7, FlashLoan::Notused);
    assert_eq!(h.hi, 0xffff);
    assert_eq!(h.lo, (u128::MAX << 16) | (7 << 8));
    assert_eq!(unpack_header(h), Some((amount, 7, FlashLoan::Notused)));
}

#[test]
fn header_with_unknown_mode_does_not_unpack() {
    assert_eq!(unpack_header(Header { hi: 0, lo: 0x0103 }), None);
}

#[test]
fn header_with_oversized_amount_does_not_unpack() {
    assert_eq!(unpack_header(Header { hi: 0x1_0000, lo: 0 }), None);
}

#[test]
fn compression_merges_shared_boundary_token() {
    let hops = vec![tok(1), V3Data::Fee(500), tok(2), tok(2), V3Data::Fee(3000), tok(3)];
    let merged = concat_v3_hops(&hops);
    assert_eq!(merged, vec![tok(1), V3Data::Fee(500), tok(2), V3Data::Fee(3000), tok(3)]);
}

#[test]
fn compression_of_single_item() {
    assert_eq!(concat_v3_hops(&vec![tok(9)]), vec![tok(9)]);
}

fn v3hop(router: u128, a: u128, b: u128, fee: u32) -> ArbHop {
    ArbHop { router_address: addr(router), token_in: addr(a), token_out: addr(b), fee: Some(fee) }
}

fn v2hop(router: u128, a: u128, b: u128) -> ArbHop {
    ArbHop { router_address: addr(router), token_in: addr(a), token_out: addr(b), fee: None }
}

#[test]
fn splitting_seven_token_chain_gives_one_run_per_router_boundary() {
    let hops = vec![
        v3hop(0x31, 1, 2, 500),
        v3hop(0x31, 2, 3, 3000),
        v3hop(0x32, 3, 4, 100),
        v3hop(0x32, 4, 5, 500),
        v3hop(0x33, 5, 6, 10000),
        v3hop(0x33, 6, 7, 3000),
    ];
    let runs = split_v3_hops(&hops);
    assert_eq!(runs.len(), 3);
    assert_eq!(runs[0], vec![tok(1), V3Data::Fee(500), tok(2), tok(2), V3Data::Fee(3000), tok(3)]);
    assert_eq!(runs[1], vec![tok(3), V3Data::Fee(100), tok(4), tok(4), V3Data::Fee(500), tok(5)]);
    assert_eq!(runs[2], vec![tok(5), V3Data::Fee(10000), tok(6), tok(6), V3Data::Fee(3000), tok(7)]);
    let call = encode_trade(&hops, 1, FlashLoan::Balancer, 128);
    assert_eq!(call.protocols, vec![true, true, true]);
    assert_eq!(call.v3_routers, vec![addr(0x31), addr(0x32), addr(0x33)]);
    assert_eq!(call.v3_data.len(), 3);
    assert_eq!(call.v3_data[1], generate_v3_bytecode(&vec![tok(3), V3Data::Fee(100), tok(4), V3Data::Fee(500), tok(5)]));
}

#[test]
fn splitting_one_router_chain_gives_one_run() {
    let hops = vec![v3hop(0x31, 1, 2, 500), v3hop(0x31, 2, 3, 3000)];
    let runs = split_v3_hops(&hops);
    assert_eq!(runs, vec![vec![tok(1), V3Data::Fee(500), tok(2), tok(2), V3Data::Fee(3000), tok(3)]]);
}

#[test]
fn splitting_two_asset_route_gives_no_run() {
    assert!(split_v3_hops(&vec![v2hop(7, 1, 2), v2hop(7, 2, 1)]).is_empty());
}

#[test]
fn groups_separated_by_a_two_asset_detour_stay_apart() {
    // A->X concentrated, X->Z and Z->X two-asset, X->A concentrated
    let hops = vec![v3hop(0x31, 1, 9, 500), v2hop(0x22, 9, 8), v2hop(0x22, 8, 9), v3hop(0x31, 9, 1, 500)];
    let call = encode_trade(&hops, 1, FlashLoan::Balancer, 128);
    assert_eq!(call.protocols, vec![true, false, false, true]);
    assert_eq!(call.v3_routers, vec![addr(0x31), addr(0x31)]);
    assert_eq!(call.v3_data.len(), 2);
    assert_eq!(call.v3_data[0], generate_v3_bytecode(&vec![tok(1), V3Data::Fee(500), tok(9)]));
    assert_eq!(call.v3_data[1], generate_v3_bytecode(&vec![tok(9), V3Data::Fee(500), tok(1)]));
}

#[test]
fn bytecode_packs_addresses_and_three_byte_fees() {
    let a = Address { high: 0x0102_0304, low: 0x0506_0708_090a_0b0c_0d0e_0f10_1112_1314 };
    let bytes = generate_v3_bytecode(&vec![V3Data::Token(a), V3Data::Fee(3000), tok(0xff)]);
    let mut expected: Vec<u8> = (1u8..=20).collect();
    expected.extend_from_slice(&[0x00, 0x0b, 0xb8]);
    let mut last = vec![0u8; 19];
    last.push(0xff);
    expected.extend_from_slice(&last);
    assert_eq!(bytes, expected);
}

#[test]
fn trade_encoding_of_mixed_hops() {
    let r3 = addr(0x33);
    let r2 = addr(0x22);
    let hops = vec![
        ArbHop { router_address: r3, token_in: addr(1), token_out: addr(2), fee: Some(500) },
        ArbHop { router_address: r3, token_in: addr(2), token_out: addr(3), fee: Some(3000) },
        ArbHop { router_address: r2, token_in: addr(3), token_out: addr(4), fee: None },
        ArbHop { router_address: r3, token_in: addr(4), token_out: addr(1), fee: Some(100) },
    ];
    let call = encode_trade(&hops, 1_000, FlashLoan::Balancer, 128);
    assert_eq!((call.header.hi, call.header.lo), (0, (1_000 << 16) | (128 << 8) | 1));
    assert_eq!(call.protocols, vec![true, false, true]);
    assert_eq!(call.v3_routers, vec![r3, r3]);
    assert_eq!(call.v2_tokens, vec![addr(3), addr(4)]);
    assert_eq!(call.v2_routers, vec![r2]);
    // runs: [1,500,2,3000,3] and [4,100,1]
    assert_eq!(call.v3_data.len(), 2);
    assert_eq!(call.v3_data[0], generate_v3_bytecode(&vec![tok(1), V3Data::Fee(500), tok(2), V3Data::Fee(3000), tok(3)]));
    assert_eq!(call.v3_data[1], generate_v3_bytecode(&vec![tok(4), V3Data::Fee(100), tok(1)]));
    assert_eq!(call.v3_data[1].len(), 43);
}

#[test]
fn trade_encoding_of_two_asset_hops_only() {
    let hops = vec![
        ArbHop { router_address: addr(7), token_in: addr(1), token_out: addr(2), fee: None },
        ArbHop { router_address: addr(8), token_in: addr(2), token_out: addr(1), fee: None },
    ];
    let call = encode_trade(&hops, 5, FlashLoan::Notused, 0);
    assert_eq!(call.protocols, vec![false, false]);
    assert!(call.v3_data.is_empty());
    assert!(call.v3_routers.is_empty());
    assert_eq!(call.v2_tokens, vec![addr(1), addr(2), addr(2), addr(1)]);
    assert_eq!(call.v2_routers, vec![addr(7), addr(8)]);
}
