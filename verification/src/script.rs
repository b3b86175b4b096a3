//! Owner-key derivation and raw-transaction decoding.
//!
//! The canonical owner key of an output script is its address encoding where
//! one is derivable under the chosen network, else a raw-script fallback.
//! Both are deterministic in the script bytes and the network, which is all
//! the index relies on.

use vstd::prelude::*;

verus! {

/// The network that owner keys are derived for.
#[derive(Clone, Copy)]
pub enum Network {
    Mainnet,
    Testnet,
    Testnet4,
    Signet,
    Regtest,
}

/// A stable code for each network, used to state owner-key determinism.
pub open spec fn network_code(n: Network) -> int {
    match n {
        Network::Mainnet => 0,
        Network::Testnet => 1,
        Network::Testnet4 => 2,
        Network::Signet => 3,
        Network::Regtest => 4,
    }
}

/// The canonical owner key derived from an output script under a network:
/// the address encoding where one is derivable, else a raw-script fallback.
pub uninterp spec fn owner_key_of(script: Seq<u8>, network: int) -> Seq<u8>;

/// Relies on bitcoin::Address::from_script and Script::to_hex_string: the
/// derived address string, or the hex fallback where no address form exists,
/// depends on the script bytes and the network alone.
#[verifier::external_body]
pub(crate) fn script_owner_key(script: &Vec<u8>, network: Network) -> (r: Vec<u8>)
    ensures
        r@ == owner_key_of(script@, network_code(network)),
{
    let net = match network {
        Network::Mainnet => bitcoin::Network::Bitcoin,
        Network::Testnet => bitcoin::Network::Testnet,
        Network::Testnet4 => bitcoin::Network::Testnet4,
        Network::Signet => bitcoin::Network::Signet,
        Network::Regtest => bitcoin::Network::Regtest,
    };
    let s = bitcoin::ScriptBuf::from_bytes(script.clone());
    match bitcoin::Address::from_script(&s, net) {
        Ok(a) => a.to_string().into_bytes(),
        Err(_) => s.to_hex_string().into_bytes(),
    }
}

/// The output scripts of the transaction that `bytes` consensus-encodes, or
/// `None` where the bytes are not exactly one well-formed transaction.
pub uninterp spec fn tx_outputs_of(bytes: Seq<u8>) -> Option<Seq<Seq<u8>>>;

/// Relies on bitcoin::consensus::encode::deserialize for Transaction: the
/// decoded transaction, and so its outputs' scripts, depend on the bytes
/// alone, and decoding fails on trailing or malformed bytes.
#[verifier::external_body]
pub(crate) fn decode_tx_output_scripts(bytes: &Vec<u8>) -> (r: Option<Vec<Vec<u8>>>)
    ensures
        match r {
            Some(v) => tx_outputs_of(bytes@) == Some(v.deep_view()),
            None => tx_outputs_of(bytes@) is None,
        },
{
    bitcoin::consensus::encode::deserialize::<bitcoin::Transaction>(bytes.as_slice())
        .ok()
        .map(|tx| tx.output.iter().map(|o| o.script_pubkey.to_bytes()).collect())
}

} // verus!
