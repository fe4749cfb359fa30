//! Tokens and the block validation error.
use crate::blocks::Blockchain;
use crate::bytes::copy_bytes;
use crate::sorted_map::TextMap;
use vstd::prelude::*;

verus! {

/// Why a block was refused.
#[derive(Debug, Clone, Copy, PartialEq, Eq, Structural)]
pub enum BlockValidationError {
    /// The block is not laid out as a block
    ImproperBlockFormatting,
}

impl BlockValidationError {
    /// How the error reads.
    pub open spec fn text(&self) -> Seq<char> {
        match self {
            BlockValidationError::ImproperBlockFormatting => "ImproperBlockFormatting"@,
        }
    }

    /// The error as text.
    pub fn to_string(&self) -> (r: String)
        ensures
            r@ == self.text(),
    {
        match self {
            BlockValidationError::ImproperBlockFormatting => "ImproperBlockFormatting".to_owned(),
        }
    }
}

/// A token with its metadata and its chain of blocks.
#[derive(Debug)]
pub struct Token {
    pub id: Vec<u8>,
    pub metadata: TextMap,
    pub blockchain: Blockchain,
}

/// Two tokens agree in every field.
pub open spec fn same_token(a: Token, b: Token) -> bool {
    &&& a.id@ == b.id@
    &&& a.metadata@ == b.metadata@
    &&& a.metadata.pairs() == b.metadata.pairs()
    &&& crate::blocks::same_chain(a.blockchain, b.blockchain)
}

/// A copy of a token has the same id, metadata and chain tip, and a chain that is
/// as valid.
pub proof fn copied_tokens_are_as_valid(a: Token, b: Token)
    requires
        same_token(a, b),
    ensures
        a.id@ == b.id@,
        a.metadata@ == b.metadata@,
        a.blockchain.chain@.len() == b.blockchain.chain@.len(),
        crate::blocks::chain_valid(a.blockchain.chain@) == crate::blocks::chain_valid(
            b.blockchain.chain@,
        ),
        crate::blocks::chain_tip(a.blockchain.chain@) == crate::blocks::chain_tip(
            b.blockchain.chain@,
        ),
{
    crate::blocks::copied_chains_are_as_valid(a.blockchain, b.blockchain);
}

impl Clone for Token {
    fn clone(&self) -> (r: Self)
        ensures
            same_token(r, *self),
    {
        Token {
            id: copy_bytes(&self.id),
            metadata: self.metadata.duplicate(),
            blockchain: self.blockchain.clone(),
        }
    }
}

impl Default for Token {
    fn default() -> (r: Self)
        ensures
            r.id@ == Seq::<u8>::empty(),
            r.metadata@ == Map::<Seq<char>, Seq<char>>::empty(),
            r.blockchain.chain@.len() == 0,
    {
        Token { id: Vec::new(), metadata: TextMap::new(), blockchain: Blockchain::new() }
    }
}

} // verus!
