//! A network that comes with the program, as the bytes of its file.
use vstd::prelude::*;
use crate::nnue::format::Reader;
use crate::nnue::network::{load_from, LayerStack, Network};
use crate::nnue::network;

verus! {

/// Reads a network from the bytes of its file, as a file is read; nothing where
/// the bytes are no network that can be run.
pub fn load_embedded_network(bytes: &[u8]) -> (r: Option<Network>)
    ensures
        r is Some <==> network::net_of(bytes@) is Ok,
        r matches Some(n) ==> n.wf() && n.transformer().model() == (network::net_of(
            bytes@,
        )->Ok_0).ft && n.heads().map_values(|h: LayerStack| h.model()) == (network::net_of(
            bytes@,
        )->Ok_0).stacks && n.text() == (network::net_of(bytes@)->Ok_0).description,
{
    let mut reader: Reader = Reader::new(bytes);
    match load_from(&mut reader) {
        Ok(net) => Some(net),
        Err(_) => None,
    }
}

/// The size of a network file in bytes.
pub fn embedded_network_size(bytes: &[u8]) -> (r: usize)
    ensures
        r == bytes@.len(),
{
    bytes.len()
}

} // verus!
