//! What every proxied stream offers beyond reading and writing bytes.

use vstd::prelude::*;

verus! {

/// A stream produced by an outbound adapter. The byte transport itself is
/// the implementor's; the trait adds what callers may ask of the stream.
pub trait ProxyConn {
    /// The destination the stream was opened to, as the adapter reports it;
    /// by default nothing is reported (the empty string).
    fn remote_destination(&self) -> (r: String)
        default_ensures
            r@ == Seq::<char>::empty(),
    {
        String::new()
    }
}

} // verus!
