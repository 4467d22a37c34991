//! An ordered list of transport layers (TLS, WebSocket, ...) that wrap a
//! raw TCP stream, the first pushed innermost. The caller applies them in
//! order when it connects.

use vstd::prelude::*;

verus! {

/// The layers, in the order they are applied; none means plain TCP.
pub struct TransportChain<L> {
    layers: Vec<L>,
}

impl<L> TransportChain<L> {
    pub closed spec fn spec_layers(&self) -> Seq<L> {
        self.layers@
    }

    /// No layers: plain TCP.
    pub fn empty() -> (r: TransportChain<L>)
        ensures
            r.spec_layers() == Seq::<L>::empty(),
    {
        TransportChain { layers: Vec::new() }
    }

    /// Number of layers (0 = plain TCP).
    pub fn len(&self) -> (r: usize)
        ensures
            r == self.spec_layers().len(),
    {
        self.layers.len()
    }

    pub fn is_empty(&self) -> (r: bool)
        ensures
            r == (self.spec_layers().len() == 0),
    {
        self.layers.len() == 0
    }

    /// Appends a layer, applied after all the others.
    pub fn push(&mut self, layer: L)
        ensures
            final(self).spec_layers() == old(self).spec_layers().push(layer),
    {
        self.layers.push(layer);
    }

    /// The layers in the order they are applied.
    pub fn layers(&self) -> (r: &Vec<L>)
        ensures
            r@ == self.spec_layers(),
    {
        &self.layers
    }
}

} // verus!
