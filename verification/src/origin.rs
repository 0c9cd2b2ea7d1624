use vstd::prelude::*;

verus! {

/// One tenant's routing configuration.
///
/// The `domain` is the cache's lookup key; the cache itself never interprets
/// the rest of the record.  Lookups hand out an owned copy, so a caller's
/// value never reflects a later refresh.
#[derive(Debug, PartialEq, Eq)]
pub struct Origin {
    /// Lookup key.  The cache performs no normalization: callers must use the
    /// same case and spelling that the backing store holds.
    pub domain: String,
    /// Where requests for this domain are forwarded.
    pub origin_uri: String,
}

impl Clone for Origin {
    /// A copy equals the value it was taken from, field for field.
    fn clone(&self) -> (res: Self)
        ensures
            res == *self,
    {
        Origin { domain: self.domain.clone(), origin_uri: self.origin_uri.clone() }
    }
}

} // verus!
