use vstd::prelude::*;

verus! {

/// An owning identity, held as the text of its canonical key.
///
/// Two identities denote the same owner exactly when their keys are the same
/// sequence of characters; nothing else about the key is interpreted.
#[derive(Debug, PartialEq, Eq)]
pub struct Identity {
    pub key: String,
}

impl View for Identity {
    type V = Seq<char>;

    open spec fn view(&self) -> Seq<char> {
        self.key@
    }
}

impl Clone for Identity {
    fn clone(&self) -> (copy: Self)
        ensures
            copy@ == self@,
    {
        Identity { key: self.key.clone() }
    }
}

impl Identity {
    /// Wraps a key.
    pub fn new(key: String) -> (identity: Self)
        ensures
            identity@ == key@,
    {
        Identity { key }
    }

    /// Whether both identities denote the same owner.
    pub fn same_as(&self, other: &Identity) -> (same: bool)
        ensures
            same == (self@ == other@),
    {
        self.key == other.key
    }
}

} // verus!
