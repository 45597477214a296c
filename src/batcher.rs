//! Paging through the registered accounts. The store is asked for up to
//! `limit` registry documents starting at an offset that the caller keeps;
//! an empty page resets the offset so that the next pass starts over.
use vstd::prelude::*;
use crate::models::{Token, copy_opt_string};

verus! {

/// A registry document as the store hands it out: the account token, when
/// the document carries one as a string, and the device token, when set.
#[derive(Clone, Debug, PartialEq, Eq)]
pub struct TokenRecord {
    pub id: Option<String>,
    pub device_token: Option<String>,
}

/// The accounts of a page: one per document that carries a token, in order.
pub open spec fn batch_of(page: Seq<TokenRecord>) -> Seq<Token>
    decreases page.len(),
{
    if page.len() == 0 {
        Seq::empty()
    } else {
        let prev = batch_of(page.drop_last());
        match page.last().id {
            Some(t) => prev.push(Token { token: t, device_token: page.last().device_token }),
            None => prev,
        }
    }
}

/// The offset after a page: past every account taken, or back to the start
/// when the page was empty.
pub open spec fn next_offset(page: Seq<TokenRecord>, skip: nat) -> nat {
    if page.len() == 0 {
        0
    } else {
        skip + batch_of(page).len()
    }
}

/// What the registry yields for `limit` documents from `offset`.
pub open spec fn registry_page(registry: Seq<TokenRecord>, limit: nat, offset: nat) -> Seq<TokenRecord> {
    if offset >= registry.len() {
        Seq::empty()
    } else if offset + limit >= registry.len() {
        registry.subrange(offset as int, registry.len() as int)
    } else {
        registry.subrange(offset as int, (offset + limit) as int)
    }
}

pub proof fn lemma_batch_len_bound(page: Seq<TokenRecord>)
    ensures
        batch_of(page).len() <= page.len(),
    decreases page.len(),
{
    if page.len() > 0 {
        lemma_batch_len_bound(page.drop_last());
    }
}

/// Turns a fetched page into the batch of accounts to process and moves the
/// caller's offset on.
pub fn next_batch(page: &Vec<TokenRecord>, skip: &mut u64) -> (r: Vec<Token>)
    requires
        *old(skip) + page@.len() <= u64::MAX,
    ensures
        r@ == batch_of(page@),
        *final(skip) == next_offset(page@, *old(skip) as nat),
{
    let ghost start = *skip;
    let mut batch: Vec<Token> = Vec::new();
    let mut i: usize = 0;
    assert(page@.take(0) =~= Seq::<TokenRecord>::empty());
    while i < page.len()
        invariant
            0 <= i <= page.len(),
            start + page@.len() <= u64::MAX,
            batch@ == batch_of(page@.take(i as int)),
            *skip == start + batch@.len(),
        decreases page.len() - i,
    {
        proof {
            assert(page@.take(i + 1).drop_last() =~= page@.take(i as int));
            lemma_batch_len_bound(page@.take(i as int));
        }
        let rec = &page[i];
        match &rec.id {
            Some(t) => {
                batch.push(Token::new(t.clone(), copy_opt_string(&rec.device_token)));
                *skip = *skip + 1;
            },
            None => {},
        }
        i += 1;
    }
    assert(page@.take(page.len() as int) =~= page@);
    if page.len() == 0 {
        *skip = 0;
    }
    batch
}

} // verus!
