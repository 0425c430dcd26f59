//! The ERC-20 view of the assets of the chain: a precompile at the address of each asset that
//! answers `name`, `symbol`, `decimals`, `totalSupply`, `balanceOf` and `transfer`.
//!
//! A call goes through three steps that the EVM runtime drives. [`MultiCurrencyPrecompile::dispatch`]
//! finds the asset behind the called address, the function behind the selector, and checks
//! the call's context; the runtime then charges the gas of one storage read.
//! [`MultiCurrencyPrecompile::parse_request`] reads the arguments into a [`Request`], which the
//! runtime carries out against the asset registry and the balances; and
//! [`MultiCurrencyPrecompile::encode_reply`] turns what came back into the call's output.
use vstd::prelude::*;
use crate::abi::{
    be_bytes, zeros, pow256, padding, lemma_be_value_of_bytes, lemma_word_value, law_u128_word_roundtrip,
    be_value, word, bytes_encoding, argument, word_address, word_u128, encode_uint, encode_bool,
    encode_bytes, read_address, read_u128,
};
use crate::dca::{AccountId, AssetId, Balance};

verus! {

/// A 20-byte EVM address.
pub type EvmAddress = [u8; 20];

/// The functions of the ERC-20 interface, each known by the first four bytes of the Keccak-256
/// hash of its signature.
#[derive(Debug, Clone, Copy, PartialEq, Eq, Structural)]
pub enum Action {
    /// `name()`
    Name,
    /// `symbol()`
    Symbol,
    /// `decimals()`
    Decimals,
    /// `totalSupply()`
    TotalSupply,
    /// `balanceOf(address)`
    BalanceOf,
    /// `allowance(address,address)`
    Allowance,
    /// `transfer(address,uint256)`
    Transfer,
    /// `approve(address,uint256)`
    Approve,
    /// `transferFrom(address,address,uint256)`
    TransferFrom,
}

/// The selector of each function.
pub open spec fn selector_of(action: Action) -> u32 {
    match action {
        Action::Name => 0x06fdde03,
        Action::Symbol => 0x95d89b41,
        Action::Decimals => 0x313ce567,
        Action::TotalSupply => 0x18160ddd,
        Action::BalanceOf => 0x70a08231,
        Action::Allowance => 0xdd62ed3e,
        Action::Transfer => 0xa9059cbb,
        Action::Approve => 0x095ea7b3,
        Action::TransferFrom => 0x23b872dd,
    }
}

/// The function that a selector names, if any.
pub open spec fn action_of(selector: u32) -> Option<Action> {
    if selector == 0x06fdde03 {
        Some(Action::Name)
    } else if selector == 0x95d89b41 {
        Some(Action::Symbol)
    } else if selector == 0x313ce567 {
        Some(Action::Decimals)
    } else if selector == 0x18160ddd {
        Some(Action::TotalSupply)
    } else if selector == 0x70a08231 {
        Some(Action::BalanceOf)
    } else if selector == 0xdd62ed3e {
        Some(Action::Allowance)
    } else if selector == 0xa9059cbb {
        Some(Action::Transfer)
    } else if selector == 0x095ea7b3 {
        Some(Action::Approve)
    } else if selector == 0x23b872dd {
        Some(Action::TransferFrom)
    } else {
        None
    }
}

impl Action {
    /// The selector of this function.
    pub fn selector(&self) -> (selector: u32)
        ensures
            selector == selector_of(*self),
    {
        match self {
            Action::Name => 0x06fdde03,
            Action::Symbol => 0x95d89b41,
            Action::Decimals => 0x313ce567,
            Action::TotalSupply => 0x18160ddd,
            Action::BalanceOf => 0x70a08231,
            Action::Allowance => 0xdd62ed3e,
            Action::Transfer => 0xa9059cbb,
            Action::Approve => 0x095ea7b3,
            Action::TransferFrom => 0x23b872dd,
        }
    }

    /// The function that `selector` names, or `None` for a selector of no function here.
    pub fn from_selector(selector: u32) -> (action: Option<Action>)
        ensures
            action == action_of(selector),
    {
        if selector == 0x06fdde03 {
            Some(Action::Name)
        } else if selector == 0x95d89b41 {
            Some(Action::Symbol)
        } else if selector == 0x313ce567 {
            Some(Action::Decimals)
        } else if selector == 0x18160ddd {
            Some(Action::TotalSupply)
        } else if selector == 0x70a08231 {
            Some(Action::BalanceOf)
        } else if selector == 0xdd62ed3e {
            Some(Action::Allowance)
        } else if selector == 0xa9059cbb {
            Some(Action::Transfer)
        } else if selector == 0x095ea7b3 {
            Some(Action::Approve)
        } else if selector == 0x23b872dd {
            Some(Action::TransferFrom)
        } else {
            None
        }
    }
}

/// Selectors and functions correspond one to one: the selector of a function names that
/// function, and a selector that names a function is that function's selector.
pub proof fn law_selector_roundtrip(action: Action, selector: u32)
    ensures
        action_of(selector_of(action)) == Some(action),
        action_of(selector) == Some(action) ==> selector == selector_of(action),
{
}

/// What a function may be called with: in a static context only a `View` function, and with a
/// value only a `Payable` one.
#[derive(Debug, Clone, Copy, PartialEq, Eq, Structural)]
pub enum FunctionModifier {
    View,
    NonPayable,
    Payable,
}

/// Why a precompile call failed. `Revert` undoes the call and returns the message as output;
/// `Error` is an EVM error with the message.
#[derive(Debug, Clone, Copy, PartialEq, Eq)]
pub enum PrecompileFailure {
    Revert(&'static str),
    Error(&'static str),
}

/// Whether `address` is the address of an asset: 15 zero bytes, then a 1.
pub open spec fn is_asset_address(address: Seq<u8>) -> bool {
    &&& address.len() == 20
    &&& forall|i: int| 0 <= i < 15 ==> address[i] == 0
    &&& address[15] == 1
}

/// The asset id held by the last four bytes of an address, most significant first.
pub open spec fn address_asset_id(address: Seq<u8>) -> nat {
    be_value(address.subrange(16, 20))
}

/// The mapping between asset ids and the EVM addresses of their ERC-20 view.
pub struct HydraErc20Mapping;

/// The four bytes of `s` from `start` spell `be_value` of that range.
fn read_u32_be(s: &[u8], start: usize) -> (value: u32)
    requires
        start + 4 <= s.len(),
    ensures
        value == be_value(s@.subrange(start as int, start + 4)),
{
    let b0 = s[start] as u32;
    let b1 = s[start + 1] as u32;
    let b2 = s[start + 2] as u32;
    let b3 = s[start + 3] as u32;
    proof {
        let r = s@.subrange(start as int, start + 4);
        assert(r.drop_last().drop_last().drop_last().drop_last() =~= Seq::<u8>::empty());
        assert(r.drop_last().drop_last().drop_last() =~= seq![s@[start as int]]);
        assert(r.drop_last().drop_last() =~= seq![s@[start as int], s@[start + 1]]);
        assert(r.drop_last() =~= seq![s@[start as int], s@[start + 1], s@[start + 2]]);
        reveal_with_fuel(be_value, 5);
    }
    b0 * 16777216 + b1 * 65536 + b2 * 256 + b3
}

impl HydraErc20Mapping {
    /// The asset whose ERC-20 view lives at `address`, or `None` when `address` is no asset
    /// address.
    pub fn decode_evm_address(address: EvmAddress) -> (asset_id: Option<AssetId>)
        ensures
            asset_id == (if is_asset_address(address@) {
                Some(address_asset_id(address@) as AssetId)
            } else {
                None::<AssetId>
            }),
    {
        let mut i: usize = 0;
        while i < 15
            invariant
                i <= 15,
                forall|k: int| 0 <= k < i ==> address@[k] == 0,
            decreases 15 - i,
        {
            if address[i] != 0 {
                return None;
            }
            i = i + 1;
        }
        if address[15] != 1 {
            return None;
        }
        Some(read_u32_be(&address, 16))
    }
}

/// The account behind an EVM address: `"ETH\0"`, the 20 bytes of the address, then 8 zeros.
pub open spec fn account_of(address: Seq<u8>) -> Seq<u8> {
    seq![0x45u8, 0x54u8, 0x48u8, 0u8] + address + Seq::new(8, |i: int| 0u8)
}

/// The mapping from EVM addresses to accounts of the chain.
pub struct ExtendedAddressMapping;

impl ExtendedAddressMapping {
    /// The account behind `address`.
    pub fn into_account_id(address: EvmAddress) -> (account: AccountId)
        ensures
            account@ == account_of(address@),
    {
        let mut data = [0u8; 32];
        data[0] = 0x45;
        data[1] = 0x54;
        data[2] = 0x48;
        let mut i: usize = 0;
        while i < 20
            invariant
                i <= 20,
                data@[0] == 0x45u8,
                data@[1] == 0x54u8,
                data@[2] == 0x48u8,
                data@[3] == 0u8,
                forall|k: int| 4 <= k < 4 + i ==> data@[k] == address@[k - 4],
                forall|k: int| 24 <= k < 32 ==> data@[k] == 0u8,
            decreases 20 - i,
        {
            data[4 + i] = address[i];
            i = i + 1;
        }
        assert(data@ =~= account_of(address@));
        data
    }
}

/// What a call asks of the chain, once its arguments are read.
#[derive(Debug, Clone, Copy, PartialEq, Eq)]
pub enum Request {
    /// The name of the asset.
    Name { asset_id: AssetId },
    /// The symbol of the asset.
    Symbol { asset_id: AssetId },
    /// The decimals of the asset.
    Decimals { asset_id: AssetId },
    /// The total issuance of the asset.
    TotalSupply { asset_id: AssetId },
    /// The free balance of `who` in the asset.
    BalanceOf { asset_id: AssetId, who: AccountId },
    /// A transfer of `amount` of the asset from `from` to `to`.
    Transfer { asset_id: AssetId, from: AccountId, to: AccountId, amount: Balance },
}

/// What the chain answered to a [`Request`].
#[derive(Debug, PartialEq, Eq)]
pub enum Reply {
    /// The name of the asset, if it is registered.
    Name(Option<Vec<u8>>),
    /// The symbol of the asset, if it is registered.
    Symbol(Option<Vec<u8>>),
    /// The decimals of the asset, if it is registered.
    Decimals(Option<u8>),
    /// The total issuance of the asset.
    TotalSupply(Balance),
    /// The free balance asked for.
    BalanceOf(Balance),
    /// The outcome of the transfer, with the reason of a failure.
    Transfer(Result<(), &'static str>),
}

/// The modifier that each function is called under.
pub open spec fn modifier_of(action: Action) -> FunctionModifier {
    match action {
        Action::Transfer => FunctionModifier::NonPayable,
        _ => FunctionModifier::View,
    }
}

/// Whether the precompile serves the function.
pub open spec fn is_supported(action: Action) -> bool {
    match action {
        Action::Allowance | Action::Approve | Action::TransferFrom => false,
        _ => true,
    }
}

/// Whether a 32-byte big-endian value is above zero.
pub open spec fn is_nonzero(value: Seq<u8>) -> bool {
    exists|i: int| 0 <= i < value.len() && value[i] != 0
}

/// The outcome of the checks that come before the gas is charged.
pub open spec fn dispatch_result(
    code_address: Seq<u8>,
    input: Seq<u8>,
    is_static: bool,
    apparent_value: Seq<u8>,
) -> Result<(AssetId, Action), PrecompileFailure> {
    if !is_asset_address(code_address) {
        Err(PrecompileFailure::Revert("invalid currency id"))
    } else if input.len() < 4 {
        Err(PrecompileFailure::Revert("tried to parse selector out of bounds"))
    } else {
        match action_of(be_value(input.subrange(0, 4)) as u32) {
            None => Err(PrecompileFailure::Revert("unknown selector")),
            Some(action) => if is_static && modifier_of(action) != FunctionModifier::View {
                Err(PrecompileFailure::Revert("can't call non-static function in static context"))
            } else if modifier_of(action) != FunctionModifier::Payable && is_nonzero(
                apparent_value,
            ) {
                Err(PrecompileFailure::Revert("function is not payable"))
            } else if !is_supported(action) {
                Err(PrecompileFailure::Error("not supported"))
            } else {
                Ok((address_asset_id(code_address) as AssetId, action))
            },
        }
    }
}

/// The number of 32-byte arguments that each function takes.
pub open spec fn arity(action: Action) -> nat {
    match action {
        Action::BalanceOf => 1,
        Action::Transfer => 2,
        Action::Allowance => 2,
        Action::Approve => 2,
        Action::TransferFrom => 3,
        _ => 0,
    }
}

/// Why reading the arguments of a call of `action` from `input` (selector included) fails, if
/// it does.
pub open spec fn request_failure(action: Action, input: Seq<u8>) -> Option<PrecompileFailure> {
    if !is_supported(action) {
        Some(PrecompileFailure::Error("not supported"))
    } else if input.len() < 4 {
        Some(PrecompileFailure::Revert("input is too short"))
    } else if input.len() < 4 + 32 * arity(action) {
        Some(PrecompileFailure::Revert("input doesn't match expected length"))
    } else {
        None
    }
}

/// Whether `request` is what a call of `action` on `asset_id` asks for, with its arguments
/// read from `input` (selector included) and `caller` the address that made the call.
pub open spec fn is_request_of(
    request: Request,
    asset_id: AssetId,
    action: Action,
    input: Seq<u8>,
    caller: Seq<u8>,
) -> bool {
    match action {
        Action::Name => request == Request::Name { asset_id },
        Action::Symbol => request == Request::Symbol { asset_id },
        Action::Decimals => request == Request::Decimals { asset_id },
        Action::TotalSupply => request == Request::TotalSupply { asset_id },
        Action::BalanceOf => request matches Request::BalanceOf { asset_id: a, who } && a
            == asset_id && who@ == account_of(word_address(argument(input, 0))),
        Action::Transfer => request matches Request::Transfer { asset_id: a, from, to, amount }
            && a == asset_id && from@ == account_of(caller) && to@ == account_of(
            word_address(argument(input, 0)),
        ) && amount == word_u128(argument(input, 1)),
        _ => false,
    }
}

/// The output of a call, from what the chain answered.
pub open spec fn reply_result(reply: Reply) -> Result<Seq<u8>, PrecompileFailure> {
    match reply {
        Reply::Name(Some(name)) => Ok(bytes_encoding(name@)),
        Reply::Symbol(Some(symbol)) => Ok(bytes_encoding(symbol@)),
        Reply::Decimals(Some(decimals)) => Ok(word(decimals as nat)),
        Reply::Name(None) | Reply::Symbol(None) | Reply::Decimals(None) => Err(
            PrecompileFailure::Error("Non-existing asset."),
        ),
        Reply::TotalSupply(amount) => Ok(word(amount as nat)),
        Reply::BalanceOf(amount) => Ok(word(amount as nat)),
        Reply::Transfer(Ok(())) => Ok(word(1)),
        Reply::Transfer(Err(reason)) => Err(PrecompileFailure::Revert(reason)),
    }
}

/// The ERC-20 precompile of the multi-currency pallet.
pub struct MultiCurrencyPrecompile;

impl MultiCurrencyPrecompile {
    /// The checks of a call before its gas is charged: the called address must be an asset's,
    /// the selector a known function's, the context one that the function allows, and the
    /// function one that is served. Gives the asset and the function.
    pub fn dispatch(
        code_address: EvmAddress,
        input: &[u8],
        is_static: bool,
        apparent_value: [u8; 32],
    ) -> (res: Result<(AssetId, Action), PrecompileFailure>)
        ensures
            res == dispatch_result(code_address@, input@, is_static, apparent_value@),
    {
        let asset_id = match HydraErc20Mapping::decode_evm_address(code_address) {
            Some(asset_id) => asset_id,
            None => return Err(PrecompileFailure::Revert("invalid currency id")),
        };
        let selector = match Self::read_selector(input) {
            Ok(selector) => selector,
            Err(e) => return Err(e),
        };
        let modifier = match selector {
            Action::Transfer => FunctionModifier::NonPayable,
            _ => FunctionModifier::View,
        };
        match Self::check_function_modifier(is_static, apparent_value, modifier) {
            Ok(()) => {},
            Err(e) => return Err(e),
        }
        match selector {
            Action::Allowance | Action::Approve | Action::TransferFrom => Self::not_supported(),
            _ => Ok((asset_id, selector)),
        }
    }

    /// The function named by the first four bytes of `input`.
    fn read_selector(input: &[u8]) -> (res: Result<Action, PrecompileFailure>)
        ensures
            input@.len() < 4 ==> res == Err::<Action, PrecompileFailure>(
                PrecompileFailure::Revert("tried to parse selector out of bounds"),
            ),
            input@.len() >= 4 ==> res == (match action_of(be_value(input@.subrange(0, 4)) as u32) {
                Some(action) => Ok::<Action, PrecompileFailure>(action),
                None => Err::<Action, PrecompileFailure>(
                    PrecompileFailure::Revert("unknown selector"),
                ),
            }),
    {
        if input.len() < 4 {
            return Err(PrecompileFailure::Revert("tried to parse selector out of bounds"));
        }
        match Action::from_selector(read_u32_be(input, 0)) {
            Some(action) => Ok(action),
            None => Err(PrecompileFailure::Revert("unknown selector")),
        }
    }

    /// Whether `modifier` allows a call in the given context.
    fn check_function_modifier(
        is_static: bool,
        apparent_value: [u8; 32],
        modifier: FunctionModifier,
    ) -> (res: Result<(), PrecompileFailure>)
        ensures
            res == (if is_static && modifier != FunctionModifier::View {
                Err::<(), PrecompileFailure>(
                    PrecompileFailure::Revert("can't call non-static function in static context"),
                )
            } else if modifier != FunctionModifier::Payable && is_nonzero(apparent_value@) {
                Err::<(), PrecompileFailure>(PrecompileFailure::Revert("function is not payable"))
            } else {
                Ok::<(), PrecompileFailure>(())
            }),
    {
        if is_static && modifier != FunctionModifier::View {
            return Err(PrecompileFailure::Revert("can't call non-static function in static context"));
        }
        if modifier != FunctionModifier::Payable {
            let mut i: usize = 0;
            while i < 32
                invariant
                    i <= 32,
                    !(is_static && modifier != FunctionModifier::View),
                    modifier != FunctionModifier::Payable,
                    forall|k: int| 0 <= k < i ==> apparent_value@[k] == 0,
                decreases 32 - i,
            {
                if apparent_value[i] != 0 {
                    assert(apparent_value@[i as int] != 0);
                    return Err(PrecompileFailure::Revert("function is not payable"));
                }
                i = i + 1;
            }
        }
        Ok(())
    }

    /// The failure of a function that is not served.
    fn not_supported<T>() -> (res: Result<T, PrecompileFailure>)
        ensures
            res == Err::<T, PrecompileFailure>(PrecompileFailure::Error("not supported")),
    {
        Err(PrecompileFailure::Error("not supported"))
    }

    /// Reads the arguments of a call of `action` on `asset_id` from `input` (selector
    /// included); `caller` is the address that made the call.
    pub fn parse_request(
        asset_id: AssetId,
        action: Action,
        input: &[u8],
        caller: EvmAddress,
    ) -> (res: Result<Request, PrecompileFailure>)
        ensures
            match request_failure(action, input@) {
                Some(failure) => res == Err::<Request, PrecompileFailure>(failure),
                None => res matches Ok(request) && is_request_of(
                    request,
                    asset_id,
                    action,
                    input@,
                    caller@,
                ),
            },
    {
        match action {
            Action::Allowance | Action::Approve | Action::TransferFrom => {
                return Self::not_supported();
            },
            _ => {},
        }
        if input.len() < 4 {
            return Err(PrecompileFailure::Revert("input is too short"));
        }
        let args: usize = match action {
            Action::BalanceOf => 1,
            Action::Transfer => 2,
            _ => 0,
        };
        assert(args == arity(action));
        if input.len() - 4 < args * 32 {
            return Err(PrecompileFailure::Revert("input doesn't match expected length"));
        }
        assert(is_supported(action));
        assert(input@.len() >= 4 + 32 * arity(action));
        match action {
            Action::Name => Ok(Request::Name { asset_id }),
            Action::Symbol => Ok(Request::Symbol { asset_id }),
            Action::Decimals => Ok(Request::Decimals { asset_id }),
            Action::TotalSupply => Ok(Request::TotalSupply { asset_id }),
            Action::BalanceOf => {
                let owner = read_address(input, 0);
                let who = ExtendedAddressMapping::into_account_id(owner);
                Ok(Request::BalanceOf { asset_id, who })
            },
            _ => {
                let to = read_address(input, 0);
                let amount = read_u128(input, 1);
                let from = ExtendedAddressMapping::into_account_id(caller);
                let to = ExtendedAddressMapping::into_account_id(to);
                Ok(Request::Transfer { asset_id, from, to, amount })
            },
        }
    }

    /// The output of a call from what the chain answered to its request.
    pub fn encode_reply(reply: Reply) -> (res: Result<Vec<u8>, PrecompileFailure>)
        ensures
            match res {
                Ok(output) => reply_result(reply) == Ok::<Seq<u8>, PrecompileFailure>(output@),
                Err(e) => reply_result(reply) == Err::<Seq<u8>, PrecompileFailure>(e),
            },
    {
        match reply {
            Reply::Name(Some(name)) => Ok(encode_bytes(name.as_slice())),
            Reply::Symbol(Some(symbol)) => Ok(encode_bytes(symbol.as_slice())),
            Reply::Decimals(Some(decimals)) => Ok(encode_uint(decimals as u128)),
            Reply::Name(None) | Reply::Symbol(None) | Reply::Decimals(None) => Err(
                PrecompileFailure::Error("Non-existing asset."),
            ),
            Reply::TotalSupply(amount) => Ok(encode_uint(amount)),
            Reply::BalanceOf(amount) => Ok(encode_uint(amount)),
            Reply::Transfer(Ok(())) => Ok(encode_bool(true)),
            Reply::Transfer(Err(reason)) => Err(PrecompileFailure::Revert(reason)),
        }
    }
}

/// A `transfer(address,uint256)` call to an asset's address, encoded as the ABI does (the
/// selector, the recipient right-aligned in its word, the amount in a word), passes the checks
/// in any non-static call without value, and is read as a transfer of that amount of that
/// asset from the caller's account to the recipient's.
pub proof fn law_transfer_call_is_read_back(
    code_address: Seq<u8>,
    recipient: Seq<u8>,
    amount: u128,
    caller: Seq<u8>,
    request: Request,
)
    requires
        is_asset_address(code_address),
        recipient.len() == 20,
    ensures
        ({
            let input = be_bytes(selector_of(Action::Transfer) as nat, 4) + zeros(12) + recipient
                + word(amount as nat);
            &&& dispatch_result(code_address, input, false, zeros(32)) == Ok::<
                (AssetId, Action),
                PrecompileFailure,
            >((address_asset_id(code_address) as AssetId, Action::Transfer))
            &&& request_failure(Action::Transfer, input) == None::<PrecompileFailure>
            &&& is_request_of(
                request,
                address_asset_id(code_address) as AssetId,
                Action::Transfer,
                input,
                caller,
            ) <==> (request matches Request::Transfer { asset_id, from, to, amount: m }
                && asset_id == address_asset_id(code_address) as AssetId
                && from@ == account_of(caller) && to@ == account_of(recipient) && m == amount)
        }),
{
    let sel = be_bytes(selector_of(Action::Transfer) as nat, 4);
    let input = sel + zeros(12) + recipient + word(amount as nat);
    lemma_be_value_of_bytes(selector_of(Action::Transfer) as nat, 4);
    crate::abi::lemma_be_bytes_len(selector_of(Action::Transfer) as nat, 4);
    crate::abi::lemma_be_bytes_len(amount as nat, 32);
    reveal_with_fuel(pow256, 5);
    assert(input.subrange(0, 4) =~= sel);
    assert(argument(input, 0) =~= zeros(12) + recipient);
    assert(word_address(argument(input, 0)) =~= recipient);
    assert(argument(input, 1) =~= word(amount as nat));
    law_u128_word_roundtrip(amount);
    assert(pow256(4) == 0x1_0000_0000);
    assert(be_value(input.subrange(0, 4)) == 0xa9059cbb);
    assert(action_of(be_value(input.subrange(0, 4)) as u32) == Some(Action::Transfer));
    assert(input.len() == 68);
    assert(!is_nonzero(zeros(32)));
}

/// A transfer is never served in a static context, and `allowance`, `approve` and
/// `transferFrom` are never served: each such call fails before any gas is charged.
pub proof fn law_refused_calls(
    code_address: Seq<u8>,
    input: Seq<u8>,
    is_static: bool,
    apparent_value: Seq<u8>,
)
    ensures
        ({
            let res = dispatch_result(code_address, input, is_static, apparent_value);
            &&& res matches Ok((_, action)) ==> is_supported(action)
            &&& is_static ==> !(res matches Ok((_, Action::Transfer)))
            &&& !is_asset_address(code_address) ==> res == Err::<(AssetId, Action), PrecompileFailure>(
                PrecompileFailure::Revert("invalid currency id"),
            )
        }),
{
}

/// The asset addresses are exactly the addresses `0x00..0001` followed by the four bytes of
/// an asset id, most significant first: each such address names its asset id, and an address
/// with a nonzero byte among its first 15, or other than 1 as its 16th, names no asset.
pub proof fn law_asset_addresses(address: Seq<u8>, asset_id: u32)
    ensures
        ({
            let a = zeros(15).push(1u8) + be_bytes(asset_id as nat, 4);
            &&& is_asset_address(a)
            &&& address_asset_id(a) == asset_id
        }),
        address.len() == 20 && (address[15] != 1 || exists|i: int| 0 <= i < 15 && #[trigger] address[i]
            != 0) ==> !is_asset_address(address),
        is_asset_address(address) ==> address_asset_id(address) == address[16] * 16777216
            + address[17] * 65536 + address[18] * 256 + address[19],
{
    let a = zeros(15).push(1u8) + be_bytes(asset_id as nat, 4);
    crate::abi::lemma_be_bytes_len(asset_id as nat, 4);
    assert(a.subrange(16, 20) =~= be_bytes(asset_id as nat, 4));
    lemma_be_value_of_bytes(asset_id as nat, 4);
    reveal_with_fuel(pow256, 5);
    assert(pow256(4) == 0x1_0000_0000);
    vstd::arithmetic::div_mod::lemma_small_mod(asset_id as nat, pow256(4));
    assert(a.len() == 20);
    assert(a[15] == 1u8);
    assert(forall|i: int| 0 <= i < 15 ==> a[i] == 0u8);
    if is_asset_address(address) {
        let r = address.subrange(16, 20);
        assert(r.drop_last().drop_last().drop_last().drop_last() =~= Seq::<u8>::empty());
        assert(r.drop_last().drop_last().drop_last() =~= seq![address[16]]);
        assert(r.drop_last().drop_last() =~= seq![address[16], address[17]]);
        assert(r.drop_last() =~= seq![address[16], address[17], address[18]]);
        reveal_with_fuel(be_value, 5);
    }
}

/// The account behind an address holds the address's bytes in order: `"ETH\0"`, then the 20
/// bytes of the address, then 8 zeros.
pub proof fn law_account_holds_address(address: Seq<u8>)
    requires
        address.len() == 20,
    ensures
        account_of(address).len() == 32,
        account_of(address)[0] == 0x45u8,
        account_of(address)[1] == 0x54u8,
        account_of(address)[2] == 0x48u8,
        account_of(address)[3] == 0u8,
        forall|k: int| 0 <= k < 20 ==> #[trigger] account_of(address)[4 + k] == address[k],
        forall|k: int| 24 <= k < 32 ==> #[trigger] account_of(address)[k] == 0u8,
{
}

/// Which functions a context allows: for a call to an asset's address with a known selector
/// and no value, every function but `transfer` is a view, served or refused alike in a static
/// and a non-static context; `transfer` is served only outside a static context; `allowance`,
/// `approve` and `transferFrom` are never served. With a value, no call outside a static
/// context is served.
pub proof fn law_call_context(
    code_address: Seq<u8>,
    input: Seq<u8>,
    is_static: bool,
    apparent_value: Seq<u8>,
    action: Action,
)
    requires
        is_asset_address(code_address),
        input.len() >= 4,
        be_value(input.subrange(0, 4)) == selector_of(action),
    ensures
        ({
            let asset = address_asset_id(code_address) as AssetId;
            let res = dispatch_result(code_address, input, is_static, apparent_value);
            let no_value = forall|i: int| 0 <= i < apparent_value.len() ==> apparent_value[i] == 0;
            &&& no_value && (action == Action::Name || action == Action::Symbol || action
                == Action::Decimals || action == Action::TotalSupply || action
                == Action::BalanceOf) ==> res == Ok::<(AssetId, Action), PrecompileFailure>(
                (asset, action),
            )
            &&& no_value && action == Action::Transfer ==> res == (if is_static {
                Err::<(AssetId, Action), PrecompileFailure>(
                    PrecompileFailure::Revert("can't call non-static function in static context"),
                )
            } else {
                Ok::<(AssetId, Action), PrecompileFailure>((asset, action))
            })
            &&& no_value && (action == Action::Allowance || action == Action::Approve || action
                == Action::TransferFrom) ==> res == Err::<(AssetId, Action), PrecompileFailure>(
                PrecompileFailure::Error("not supported"),
            )
            &&& !is_static && !no_value ==> res == Err::<(AssetId, Action), PrecompileFailure>(
                PrecompileFailure::Revert("function is not payable"),
            )
        }),
{
    law_selector_roundtrip(action, 0);
    assert(action_of(be_value(input.subrange(0, 4)) as u32) == Some(action));
}

/// Each function without arguments is read as its own request, from any call data that holds
/// at least a selector: `name()` asks for the name, `symbol()` for the symbol, `decimals()` for
/// the decimals and `totalSupply()` for the total issuance of the called asset.
pub proof fn law_no_argument_requests(
    asset_id: AssetId,
    input: Seq<u8>,
    caller: Seq<u8>,
    request: Request,
)
    requires
        input.len() >= 4,
    ensures
        (request_failure(Action::Name, input) == None::<PrecompileFailure>),
        (request_failure(Action::Symbol, input) == None::<PrecompileFailure>),
        (request_failure(Action::Decimals, input) == None::<PrecompileFailure>),
        (request_failure(Action::TotalSupply, input) == None::<PrecompileFailure>),
        (is_request_of(request, asset_id, Action::Name, input, caller) <==> request
            == (Request::Name { asset_id })),
        (is_request_of(request, asset_id, Action::Symbol, input, caller) <==> request
            == (Request::Symbol { asset_id })),
        (is_request_of(request, asset_id, Action::Decimals, input, caller) <==> request
            == (Request::Decimals { asset_id })),
        (is_request_of(request, asset_id, Action::TotalSupply, input, caller) <==> request
            == (Request::TotalSupply { asset_id })),
{
}

/// The arguments of `balanceOf` and `transfer` are read from the bytes of the call data: the
/// owner or recipient is the last 20 bytes of the first word (bytes 16 to 36), the amount the
/// last 16 bytes of the second word (bytes 52 to 68); a transfer moves funds from the caller's
/// account. Call data too short for the arguments is refused.
pub proof fn law_argument_requests(
    asset_id: AssetId,
    input: Seq<u8>,
    caller: Seq<u8>,
    request: Request,
)
    ensures
        4 <= input.len() < 36 ==> request_failure(Action::BalanceOf, input) == Some(
            PrecompileFailure::Revert("input doesn't match expected length"),
        ),
        4 <= input.len() < 68 ==> request_failure(Action::Transfer, input) == Some(
            PrecompileFailure::Revert("input doesn't match expected length"),
        ),
        input.len() >= 36 ==> (request_failure(Action::BalanceOf, input) == None::<PrecompileFailure>),
        input.len() >= 68 ==> (request_failure(Action::Transfer, input) == None::<PrecompileFailure>),
        input.len() >= 36 ==> (is_request_of(request, asset_id, Action::BalanceOf, input, caller)
            <==> (request matches Request::BalanceOf { asset_id: a, who } && a == asset_id
            && who@ == account_of(input.subrange(16, 36)))),
        input.len() >= 68 ==> (is_request_of(request, asset_id, Action::Transfer, input, caller)
            <==> (request matches Request::Transfer { asset_id: a, from, to, amount } && a
            == asset_id && from@ == account_of(caller) && to@ == account_of(
            input.subrange(16, 36),
        ) && amount == be_value(input.subrange(52, 68)))),
{
    if input.len() >= 36 {
        assert(word_address(argument(input, 0)) =~= input.subrange(16, 36));
    }
    if input.len() >= 68 {
        assert(argument(input, 1).subrange(16, 32) =~= input.subrange(52, 68));
    }
}

/// The output of each reply as a caller decodes it: a name or symbol is the offset word 32, a
/// length word holding exactly its length, its bytes, then zeros up to a multiple of 32 bytes;
/// decimals, total supply and balance are one word holding that number; a transfer that went
/// through is the word 1. An unregistered asset is an error, and a failed transfer reverts with
/// its reason.
pub proof fn law_reply_encoding(reply: Reply)
    ensures
        match reply {
            Reply::Name(Some(b)) | Reply::Symbol(Some(b)) => reply_result(reply) matches Ok(out)
                && out.len() == 64 + b@.len() + padding(b@.len())
                && out.len() % 32 == 0
                && padding(b@.len()) < 32
                && be_value(out.subrange(0, 32)) == 32
                && be_value(out.subrange(32, 64)) == b@.len()
                && out.subrange(64, 64 + b@.len() as int) == b@
                && (forall|i: int| 64 + b@.len() <= i < out.len() ==> #[trigger] out[i] == 0u8),
            Reply::Decimals(Some(d)) => reply_result(reply) matches Ok(out) && out.len() == 32
                && be_value(out) == d,
            Reply::TotalSupply(x) | Reply::BalanceOf(x) => reply_result(reply) matches Ok(out)
                && out.len() == 32 && be_value(out) == x,
            Reply::Transfer(Ok(())) => reply_result(reply) matches Ok(out) && out.len() == 32
                && be_value(out) == 1,
            Reply::Transfer(Err(reason)) => reply_result(reply) == Err::<Seq<u8>, PrecompileFailure>(
                PrecompileFailure::Revert(reason),
            ),
            _ => reply_result(reply) == Err::<Seq<u8>, PrecompileFailure>(
                PrecompileFailure::Error("Non-existing asset."),
            ),
        },
{
    match reply {
        Reply::Name(Some(b)) | Reply::Symbol(Some(b)) => {
            let n = b@.len();
            assert(n == b.len() && b.len() <= usize::MAX);
            lemma_word_value(32);
            lemma_word_value(n);
            let out = bytes_encoding(b@);
            assert(out.subrange(0, 32) =~= word(32));
            assert(out.subrange(32, 64) =~= word(n));
            assert(out.subrange(64, 64 + n as int) =~= b@);
            assert(out.len() % 32 == 0) by {
                assert(out.len() == 64 + n + padding(n));
            }
        },
        Reply::Decimals(Some(d)) => {
            lemma_word_value(d as nat);
        },
        Reply::TotalSupply(x) | Reply::BalanceOf(x) => {
            lemma_word_value(x as nat);
        },
        Reply::Transfer(Ok(())) => {
            lemma_word_value(1);
        },
        _ => {},
    }
}

} // verus!
