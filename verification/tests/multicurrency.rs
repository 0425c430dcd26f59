use hydradx::abi::{encode_bool, encode_bytes, encode_uint, read_address, read_u128};
use hydradx::multicurrency::{
    Action, ExtendedAddressMapping, HydraErc20Mapping, MultiCurrencyPrecompile, PrecompileFailure, Reply,
    Request,
};
use sha3::{Digest, Keccak256};

const ALL: [(Action, &str); 9] = [
    (Action::Name, "name()"),
    (Action::Symbol, "symbol()"),
    (Action::Decimals, "decimals()"),
    (Action::TotalSupply, "totalSupply()"),
    (Action::BalanceOf, "balanceOf(address)"),
    (Action::Allowance, "allowance(address,address)"),
    (Action::Transfer, "transfer(address,uint256)"),
    (Action::Approve, "approve(address,uint256)"),
    (Action::TransferFrom, "transferFrom(address,address,uint256)"),
];

fn asset_address(asset_id: u32) -> [u8; 20] {
    let mut a = [0u8; 20];
    a[15] = 1;
    a[16..20].copy_from_slice(&asset_id.to_be_bytes());
    a
}

fn call(action: Action, args: &[[u8; 32]]) -> Vec<u8> {
    let mut input = action.selector().to_be_bytes().to_vec();
    for a in args {
        input.extend_from_slice(a);
    }
    input
}

fn address_word(address: [u8; 20]) -> [u8; 32] {
    let mut w = [0u8; 32];
    w[12..].copy_from_slice(&address);
    w
}

fn amount_word(amount: u128) -> [u8; 32] {
    let mut w = [0u8; 32];
    w[16..].copy_from_slice(&amount.to_be_bytes());
    w
}

fn account(address: [u8; 20]) -> [u8; 32] {
    let mut a = [0u8; 32];
    a[0..4].copy_from_slice(b"ETH\0");
    a[4..24].copy_from_slice(&address);
    a
}

#[test]
fn selectors_are_keccak_of_signatures() {
    for (action, signature) in ALL {
        let hash = Keccak256::digest(signature.as_bytes());
        let expected = u32::from_be_bytes([hash[0], hash[1], hash[2], hash[3]]);
        assert_eq!(action.selector(), expected, "{}", signature);
        assert_eq!(Action::from_selector(expected), Some(action));
    }
    assert_eq!(Action::from_selector(0xdeadbeef), None);
    assert_eq!(Action::Transfer.selector(), 0xa9059cbb);
}

#[test]
fn asset_addresses_decode_to_asset_ids() {
    assert_eq!(HydraErc20Mapping::decode_evm_address(asset_address(0)), Some(0));
    assert_eq!(HydraErc20Mapping::decode_evm_address(asset_address(5)), Some(5));
    assert_eq!(HydraErc20Mapping::decode_evm_address(asset_address(0x0102_0304)), Some(0x0102_0304));
    let mut not_asset = asset_address(5);
    not_asset[15] = 2;
    assert_eq!(HydraErc20Mapping::decode_evm_address(not_asset), None);
    let mut not_asset = asset_address(5);
    not_asset[0] = 1;
    assert_eq!(HydraErc20Mapping::decode_evm_address(not_asset), None);
}

#[test]
fn evm_addresses_map_to_eth_prefixed_accounts() {
    let address = [0xabu8; 20];
    let id = ExtendedAddressMapping::into_account_id(address);
    assert_eq!(&id[0..4], b"ETH\0");
    assert_eq!(&id[4..24], &address);
    assert_eq!(&id[24..], &[0u8; 8]);
}

#[test]
fn dispatch_finds_asset_and_function() {
    let input = call(Action::BalanceOf, &[address_word([7; 20])]);
    assert_eq!(
        MultiCurrencyPrecompile::dispatch(asset_address(9), &input, false, [0; 32]),
        Ok((9, Action::BalanceOf))
    );
    let input = call(Action::Transfer, &[address_word([7; 20]), amount_word(5)]);
    assert_eq!(
        MultiCurrencyPrecompile::dispatch(asset_address(9), &input, false, [0; 32]),
        Ok((9, Action::Transfer))
    );
}

#[test]
fn dispatch_refusals() {
    let name = call(Action::Name, &[]);
    assert_eq!(
        MultiCurrencyPrecompile::dispatch([0; 20], &name, false, [0; 32]),
        Err(PrecompileFailure::Revert("invalid currency id"))
    );
    assert_eq!(
        MultiCurrencyPrecompile::dispatch(asset_address(1), &[0x06, 0xfd, 0xde], false, [0; 32]),
        Err(PrecompileFailure::Revert("tried to parse selector out of bounds"))
    );
    assert_eq!(
        MultiCurrencyPrecompile::dispatch(asset_address(1), &[0xde, 0xad, 0xbe, 0xef], false, [0; 32]),
        Err(PrecompileFailure::Revert("unknown selector"))
    );
    let transfer = call(Action::Transfer, &[address_word([7; 20]), amount_word(5)]);
    assert_eq!(
        MultiCurrencyPrecompile::dispatch(asset_address(1), &transfer, true, [0; 32]),
        Err(PrecompileFailure::Revert("can't call non-static function in static context"))
    );
    // a view function may be called in a static context
    assert_eq!(MultiCurrencyPrecompile::dispatch(asset_address(1), &name, true, [0; 32]), Ok((1, Action::Name)));
    let mut value = [0u8; 32];
    value[31] = 1;
    assert_eq!(
        MultiCurrencyPrecompile::dispatch(asset_address(1), &transfer, false, value),
        Err(PrecompileFailure::Revert("function is not payable"))
    );
    for action in [Action::Allowance, Action::Approve, Action::TransferFrom] {
        let input = call(action, &[]);
        assert_eq!(
            MultiCurrencyPrecompile::dispatch(asset_address(1), &input, false, [0; 32]),
            Err(PrecompileFailure::Error("not supported"))
        );
    }
}

#[test]
fn parse_request_reads_arguments() {
    let caller = [3u8; 20];
    let owner = [7u8; 20];
    let input = call(Action::BalanceOf, &[address_word(owner)]);
    assert_eq!(
        MultiCurrencyPrecompile::parse_request(9, Action::BalanceOf, &input, caller),
        Ok(Request::BalanceOf { asset_id: 9, who: account(owner) })
    );
    let input = call(Action::Transfer, &[address_word(owner), amount_word(123_456_789_000)]);
    assert_eq!(
        MultiCurrencyPrecompile::parse_request(9, Action::Transfer, &input, caller),
        Ok(Request::Transfer { asset_id: 9, from: account(caller), to: account(owner), amount: 123_456_789_000 })
    );
    let input = call(Action::Name, &[]);
    assert_eq!(MultiCurrencyPrecompile::parse_request(9, Action::Name, &input, caller), Ok(Request::Name { asset_id: 9 }));
    assert_eq!(
        MultiCurrencyPrecompile::parse_request(9, Action::TotalSupply, &input, caller),
        Ok(Request::TotalSupply { asset_id: 9 })
    );
}

#[test]
fn parse_request_refusals() {
    let caller = [3u8; 20];
    let input = call(Action::Transfer, &[address_word([7; 20])]);
    assert_eq!(
        MultiCurrencyPrecompile::parse_request(9, Action::Transfer, &input, caller),
        Err(PrecompileFailure::Revert("input doesn't match expected length"))
    );
    assert_eq!(
        MultiCurrencyPrecompile::parse_request(9, Action::Name, &[1, 2], caller),
        Err(PrecompileFailure::Revert("input is too short"))
    );
    assert_eq!(
        MultiCurrencyPrecompile::parse_request(9, Action::Approve, &call(Action::Approve, &[]), caller),
        Err(PrecompileFailure::Error("not supported"))
    );
}

#[test]
fn replies_are_abi_encoded() {
    let name = MultiCurrencyPrecompile::encode_reply(Reply::Name(Some(b"HydraDX".to_vec()))).unwrap();
    assert_eq!(name.len(), 96);
    assert_eq!(name[31], 32);
    assert_eq!(name[63], 7);
    assert_eq!(&name[64..71], b"HydraDX");
    assert!(name[71..].iter().all(|b| *b == 0));
    let symbol = MultiCurrencyPrecompile::encode_reply(Reply::Symbol(Some(b"HDX".to_vec()))).unwrap();
    assert_eq!(&symbol[64..67], b"HDX");
    let decimals = MultiCurrencyPrecompile::encode_reply(Reply::Decimals(Some(12))).unwrap();
    assert_eq!(decimals, amount_word(12).to_vec());
    let supply = MultiCurrencyPrecompile::encode_reply(Reply::TotalSupply(u128::MAX)).unwrap();
    assert_eq!(supply, amount_word(u128::MAX).to_vec());
    let balance = MultiCurrencyPrecompile::encode_reply(Reply::BalanceOf(1_000)).unwrap();
    assert_eq!(balance, amount_word(1_000).to_vec());
    let transferred = MultiCurrencyPrecompile::encode_reply(Reply::Transfer(Ok(()))).unwrap();
    assert_eq!(transferred, amount_word(1).to_vec());
}

#[test]
fn reply_failures() {
    for reply in [Reply::Name(None), Reply::Symbol(None), Reply::Decimals(None)] {
        assert_eq!(
            MultiCurrencyPrecompile::encode_reply(reply),
            Err(PrecompileFailure::Error("Non-existing asset."))
        );
    }
    assert_eq!(
        MultiCurrencyPrecompile::encode_reply(Reply::Transfer(Err("BalanceTooLow"))),
        Err(PrecompileFailure::Revert("BalanceTooLow"))
    );
}

#[test]
fn abi_words_and_bytes() {
    assert_eq!(encode_uint(0x0102), {
        let mut w = vec![0u8; 32];
        w[30] = 1;
        w[31] = 2;
        w
    });
    assert_eq!(encode_bool(true), amount_word(1).to_vec());
    assert_eq!(encode_bool(false), vec![0u8; 32]);
    let empty = encode_bytes(&[]);
    assert_eq!(empty.len(), 64);
    assert_eq!(empty[31], 32);
    assert_eq!(empty[63], 0);
    let long = encode_bytes(&[9u8; 33]);
    assert_eq!(long.len(), 64 + 64);
    assert_eq!(long[63], 33);
    assert!(long[64..97].iter().all(|b| *b == 9));
    assert!(long[97..].iter().all(|b| *b == 0));
}

#[test]
fn a_written_amount_word_reads_back() {
    for v in [0u128, 1, 255, 256, 0xdead_beef, u128::MAX] {
        let mut input = vec![0xa9, 0x05, 0x9c, 0xbb];
        input.extend_from_slice(&[0u8; 32]);
        input.extend_from_slice(&encode_uint(v));
        assert_eq!(read_u128(&input, 1), v);
    }
    let mut input = vec![0u8; 4];
    input.extend_from_slice(&address_word([0x42; 20]));
    assert_eq!(read_address(&input, 0), [0x42; 20]);
}
