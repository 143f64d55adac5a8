use vstd::prelude::*;
use crate::error::{Error, Namespace};

verus! {

/// Issues identifiers: one counter per namespace, each holding the identifier
/// it issued last. A counter only ever grows, by one per identifier, so no
/// identifier is issued twice in a namespace and later ones are larger.
pub struct IdAllocator {
    nft_counter: u64,
    recipe_counter: u64,
}

impl IdAllocator {
    /// The identifier issued last in `namespace`, 0 if none was.
    pub closed spec fn last(self, namespace: Namespace) -> u64 {
        match namespace {
            Namespace::Asset => self.nft_counter,
            Namespace::Recipe => self.recipe_counter,
        }
    }

    /// An allocator that has issued nothing.
    pub fn new() -> (allocator: Self)
        ensures
            allocator.last(Namespace::Asset) == 0,
            allocator.last(Namespace::Recipe) == 0,
    {
        IdAllocator { nft_counter: 0, recipe_counter: 0 }
    }

    /// An allocator that goes on after the given last identifiers.
    pub fn resume(nft_counter: u64, recipe_counter: u64) -> (allocator: Self)
        ensures
            allocator.last(Namespace::Asset) == nft_counter,
            allocator.last(Namespace::Recipe) == recipe_counter,
    {
        IdAllocator { nft_counter, recipe_counter }
    }

    /// The identifier issued last in `namespace`, 0 if none was.
    pub fn last_issued(&self, namespace: Namespace) -> (id: u64)
        ensures
            id == self.last(namespace),
    {
        match namespace {
            Namespace::Asset => self.nft_counter,
            Namespace::Recipe => self.recipe_counter,
        }
    }

    /// Issues the next identifier of `namespace`: one more than the last. The
    /// other namespace is not touched. Once the largest identifier has been
    /// issued, nothing more is, and the allocator stays as it is.
    pub fn allocate(&mut self, namespace: Namespace) -> (issued: Result<u64, Error>)
        ensures
            match issued {
                Ok(id) => {
                    &&& old(self).last(namespace) < u64::MAX
                    &&& id == old(self).last(namespace) + 1
                    &&& final(self).last(namespace) == id
                },
                Err(error) => {
                    &&& old(self).last(namespace) == u64::MAX
                    &&& error == Error::CounterExhausted(namespace)
                    &&& final(self).last(namespace) == u64::MAX
                },
            },
            forall|other: Namespace|
                other != namespace ==> final(self).last(other) == old(self).last(other),
    {
        match namespace {
            Namespace::Asset => {
                if self.nft_counter == u64::MAX {
                    return Err(Error::CounterExhausted(Namespace::Asset));
                }
                let next: u64 = self.nft_counter + 1;
                self.nft_counter = next;
                Ok(next)
            },
            Namespace::Recipe => {
                if self.recipe_counter == u64::MAX {
                    return Err(Error::CounterExhausted(Namespace::Recipe));
                }
                let next: u64 = self.recipe_counter + 1;
                self.recipe_counter = next;
                Ok(next)
            },
        }
    }
}

} // verus!
