//! Calls to the settlement chain's exchange: adding liquidity to a pool, and swapping through the
//! native coin.
use vstd::prelude::*;

verus! {

/// A coin the exchange trades.
#[derive(Clone, Copy, Debug, PartialEq, Eq, Structural)]
pub enum Coin {
    Serai,
    Bitcoin,
    Ether,
    Dai,
    Monero,
}

impl Coin {
    /// Whether this is the chain's own coin.
    pub fn is_native(&self) -> (r: bool)
        ensures
            r == (*self == Coin::Serai),
    {
        match self {
            Coin::Serai => true,
            _ => false,
        }
    }
}

/// An amount of some coin, in its smallest unit.
#[derive(Clone, Copy, Debug, PartialEq, Eq, Structural)]
pub struct Amount(pub u64);

/// An account on the settlement chain: its public key.
#[derive(Clone, Copy, Debug)]
pub struct SeraiAddress(pub [u8; 32]);

/// A call to the exchange.
#[derive(Debug)]
pub enum DexCall {
    AddLiquidity {
        coin1: Coin,
        coin2: Coin,
        amount1_desired: u64,
        amount2_desired: u64,
        amount1_min: u64,
        amount2_min: u64,
        mint_to: [u8; 32],
    },
    SwapExactTokensForTokens { path: Vec<Coin>, amount_in: u64, amount_out_min: u64, send_to: [u8; 32] },
}

/// The route of a swap: every pool pairs a coin with the native coin, so a swap goes through it
/// unless one side is the native coin.
pub open spec fn swap_path(from_coin: Coin, to_coin: Coin) -> Seq<Coin> {
    if to_coin == Coin::Serai {
        seq![from_coin, Coin::Serai]
    } else if from_coin == Coin::Serai {
        seq![Coin::Serai, to_coin]
    } else {
        seq![from_coin, Coin::Serai, to_coin]
    }
}

/// The exchange as seen from one block of the settlement chain.
#[derive(Clone, Copy, Debug)]
pub struct SeraiDex {
    pub block: [u8; 32],
}

impl SeraiDex {
    /// The call that adds `coin_amount` of `coin` and `sri_amount` of the native coin to their
    /// pool, accepting no less than the two minimums, and credits the pool's shares to `address`.
    pub fn add_liquidity(
        coin: Coin,
        coin_amount: Amount,
        sri_amount: Amount,
        min_coin_amount: Amount,
        min_sri_amount: Amount,
        address: SeraiAddress,
    ) -> (r: DexCall)
        ensures
            r == (DexCall::AddLiquidity {
                coin1: coin,
                coin2: Coin::Serai,
                amount1_desired: coin_amount.0,
                amount2_desired: sri_amount.0,
                amount1_min: min_coin_amount.0,
                amount2_min: min_sri_amount.0,
                mint_to: address.0,
            }),
    {
        DexCall::AddLiquidity {
            coin1: coin,
            coin2: Coin::Serai,
            amount1_desired: coin_amount.0,
            amount2_desired: sri_amount.0,
            amount1_min: min_coin_amount.0,
            amount2_min: min_sri_amount.0,
            mint_to: address.0,
        }
    }

    /// The call that swaps exactly `amount_in` of `from_coin` for at least `amount_out_min` of
    /// `to_coin`, sent to `address`.
    pub fn swap(from_coin: Coin, to_coin: Coin, amount_in: Amount, amount_out_min: Amount, address: SeraiAddress) -> (r:
        DexCall)
        ensures
            r matches DexCall::SwapExactTokensForTokens { path, amount_in: a, amount_out_min: m, send_to }
                && path@ == swap_path(from_coin, to_coin) && a == amount_in.0 && m == amount_out_min.0
                && send_to == address.0,
    {
        let mut path: Vec<Coin> = Vec::new();
        if to_coin.is_native() {
            path.push(from_coin);
            path.push(Coin::Serai);
        } else if from_coin.is_native() {
            path.push(Coin::Serai);
            path.push(to_coin);
        } else {
            path.push(from_coin);
            path.push(Coin::Serai);
            path.push(to_coin);
        }
        assert(path@ =~= swap_path(from_coin, to_coin));
        DexCall::SwapExactTokensForTokens {
            path,
            amount_in: amount_in.0,
            amount_out_min: amount_out_min.0,
            send_to: address.0,
        }
    }
}

} // verus!
