use substrate_signer::{Amount, Coin, DexCall, SeraiAddress, SeraiDex};

fn path_of(call: DexCall) -> Vec<Coin> {
    match call {
        DexCall::SwapExactTokensForTokens { path, .. } => path,
        other => panic!("unexpected {:?}", other),
    }
}

#[test]
fn add_liquidity_pairs_with_native_coin() {
    let call = SeraiDex::add_liquidity(Coin::Bitcoin, Amount(10), Amount(20), Amount(9), Amount(19), SeraiAddress([7; 32]));
    match call {
        DexCall::AddLiquidity { coin1, coin2, amount1_desired, amount2_desired, amount1_min, amount2_min, mint_to } => {
            assert_eq!(coin1, Coin::Bitcoin);
            assert_eq!(coin2, Coin::Serai);
            assert_eq!((amount1_desired, amount2_desired, amount1_min, amount2_min), (10, 20, 9, 19));
            assert_eq!(mint_to, [7; 32]);
        }
        other => panic!("unexpected {:?}", other),
    }
}

#[test]
fn swap_paths() {
    let to = SeraiAddress([1; 32]);
    assert_eq!(path_of(SeraiDex::swap(Coin::Ether, Coin::Serai, Amount(5), Amount(1), to)), vec![Coin::Ether, Coin::Serai]);
    assert_eq!(path_of(SeraiDex::swap(Coin::Serai, Coin::Dai, Amount(5), Amount(1), to)), vec![Coin::Serai, Coin::Dai]);
    assert_eq!(
        path_of(SeraiDex::swap(Coin::Bitcoin, Coin::Monero, Amount(5), Amount(1), to)),
        vec![Coin::Bitcoin, Coin::Serai, Coin::Monero]
    );
    match SeraiDex::swap(Coin::Bitcoin, Coin::Monero, Amount(5), Amount(1), to) {
        DexCall::SwapExactTokensForTokens { amount_in, amount_out_min, send_to, .. } => {
            assert_eq!((amount_in, amount_out_min, send_to), (5, 1, [1; 32]));
        }
        other => panic!("unexpected {:?}", other),
    }
}

#[test]
fn only_serai_is_native() {
    assert!(Coin::Serai.is_native());
    assert!(!Coin::Bitcoin.is_native());
}
