use vstd::prelude::*;
use crate::dna::clone_dna;
use crate::errors::Error;
use crate::kitty::{AccountId, Dna, Gender, Moment};
use crate::pallet::Pallet;

verus! {

/// Accounts and kitties to preload when a registry is first built.
/// Preloading is plain repeated minting of the configured entries; the
/// registry engine has no special bulk path.
pub struct GenesisConfig {
    pub kitties: Vec<(AccountId, Dna, Gender)>,
}

/// `chain` records the registry before and after each of `entries`' mints:
/// it runs from `pre` to `post`, and step `k` is a successful mint of entry
/// `k` — under its own identity, with its gender, at time `now`.
pub open spec fn preload_chain_ok(
    pre: Pallet,
    post: Pallet,
    entries: Seq<(AccountId, Dna, Gender)>,
    now: Moment,
    chain: Seq<Pallet>,
) -> bool {
    &&& chain.len() == entries.len() + 1
    &&& chain[0] == pre
    &&& chain[entries.len() as int] == post
    &&& forall|k: int|
        0 <= k < entries.len() ==> (#[trigger] chain[k].mint_err(entries[k].0, entries[k].1@))
            is None
    &&& forall|k: int|
        0 <= k < entries.len() ==> #[trigger] chain[k + 1].minted_from(
            chain[k],
            entries[k].0,
            entries[k].1@,
            entries[k].2,
            now,
        )
}

/// The registry `post` is `pre` after minting every one of `entries` in
/// order, with every mint succeeding.
pub open spec fn preload_ok(
    pre: Pallet,
    post: Pallet,
    entries: Seq<(AccountId, Dna, Gender)>,
    now: Moment,
) -> bool {
    exists|chain: Seq<Pallet>| #[trigger] preload_chain_ok(pre, post, entries, now, chain)
}

/// A kitty that exists at step `k` of a preload chain survives the remaining
/// mints untouched: each of them stores a then-fresh identity.
proof fn lemma_chain_keeps_kitty(
    pre: Pallet,
    post: Pallet,
    entries: Seq<(AccountId, Dna, Gender)>,
    now: Moment,
    chain: Seq<Pallet>,
    d: Seq<u8>,
    k: int,
)
    requires
        preload_chain_ok(pre, post, entries, now, chain),
        0 <= k <= entries.len(),
        chain[k].has_kitty(d),
    ensures
        post.has_kitty(d),
        post.kitty_of(d) == chain[k].kitty_of(d),
    decreases entries.len() - k,
{
    if k < entries.len() {
        assert(chain[k].mint_err(entries[k].0, entries[k].1@) is None);
        assert(chain[k + 1].minted_from(chain[k], entries[k].0, entries[k].1@, entries[k].2, now));
        assert(d != entries[k].1@);
        assert(chain[k + 1].has_kitty(d));
        assert(chain[k + 1].kitty_of(d) == chain[k].kitty_of(d));
        lemma_chain_keeps_kitty(pre, post, entries, now, chain, d, k + 1);
    }
}

/// What a successful preload stores, entry by entry: each configured
/// identity exists afterwards, owned by its configured account, with its
/// configured gender, created at time `now`.
pub proof fn lemma_preload_stores_entries(
    pre: Pallet,
    post: Pallet,
    entries: Seq<(AccountId, Dna, Gender)>,
    now: Moment,
    i: int,
)
    requires
        preload_ok(pre, post, entries, now),
        0 <= i < entries.len(),
    ensures
        post.has_kitty(entries[i].1@),
        post.kitty_of(entries[i].1@).owner == entries[i].0,
        post.kitty_of(entries[i].1@).gender == entries[i].2,
        post.kitty_of(entries[i].1@).created_date == now,
{
    let chain = choose|chain: Seq<Pallet>| preload_chain_ok(pre, post, entries, now, chain);
    assert(chain[i + 1].minted_from(chain[i], entries[i].0, entries[i].1@, entries[i].2, now));
    lemma_chain_keeps_kitty(pre, post, entries, now, chain, entries[i].1@, i + 1);
}

impl Default for GenesisConfig {
    fn default() -> (r: GenesisConfig)
        ensures
            r.kitties@ == Seq::<(AccountId, Dna, Gender)>::empty(),
    {
        GenesisConfig { kitties: Vec::new() }
    }
}

impl GenesisConfig {
    /// Mints one kitty per configured entry into `p`, in order, each under
    /// the entry's own identity, with its gender, at time `now`, stopping at
    /// the first failure. Either every entry was minted — `preload_ok`, so by
    /// `lemma_preload_stores_entries` each configured identity is stored for
    /// its account — or the first failing mint's error is returned and the
    /// registry stands exactly as the already-minted prefix left it: the
    /// failed mint wrote nothing.
    pub fn build(&self, p: &mut Pallet, now: Moment) -> (r: Result<(), Error>)
        requires
            old(p).wf(),
        ensures
            final(p).wf(),
            r is Ok ==> preload_ok(*old(p), *final(p), self.kitties@, now),
            r matches Err(e) ==> exists|k: int, mid: Pallet|
                {
                    &&& 0 <= k < self.kitties@.len()
                    &&& #[trigger] preload_ok(*old(p), mid, self.kitties@.subrange(0, k), now)
                    &&& mid.mint_err(self.kitties@[k].0, self.kitties@[k].1@) == Some(e)
                    &&& *final(p) == mid
                },
    {
        let ghost p0 = *p;
        let ghost mut chain: Seq<Pallet> = seq![p0];
        let n = self.kitties.len();
        let mut idx: usize = 0;
        #[verifier::loop_isolation(false)]
        while idx < n
            invariant
                0 <= idx <= n,
                p.wf(),
                preload_chain_ok(p0, *p, self.kitties@.subrange(0, idx as int), now, chain),
            decreases n - idx,
        {
            let ghost prefix = self.kitties@.subrange(0, idx as int);
            let account = self.kitties[idx].0;
            let dna = clone_dna(&self.kitties[idx].1);
            let gender = self.kitties[idx].2;
            let ghost cur = *p;
            match p.mint(account, dna, gender, now) {
                Ok(_) => {
                    proof {
                        chain = chain.push(*p);
                        let done = self.kitties@.subrange(0, idx as int + 1);
                        assert forall|k: int| 0 <= k < done.len() implies (#[trigger] chain[
                            k
                        ].mint_err(done[k].0, done[k].1@)) is None by {
                            assert(done[k] == self.kitties@[k]);
                            if k < idx {
                                assert(prefix[k] == self.kitties@[k]);
                                assert(chain[k].mint_err(prefix[k].0, prefix[k].1@) is None);
                            } else {
                                assert(chain[k] == cur);
                            }
                        }
                        assert forall|k: int| 0 <= k < done.len() implies #[trigger] chain[k
                            + 1].minted_from(chain[k], done[k].0, done[k].1@, done[k].2, now) by {
                            assert(done[k] == self.kitties@[k]);
                            if k < idx {
                                assert(prefix[k] == self.kitties@[k]);
                                assert(chain[k + 1].minted_from(
                                    chain[k],
                                    prefix[k].0,
                                    prefix[k].1@,
                                    prefix[k].2,
                                    now,
                                ));
                            } else {
                                assert(chain[k] == cur && chain[k + 1] == *p);
                            }
                        }
                        assert(preload_chain_ok(p0, *p, done, now, chain));
                    }
                },
                Err(e) => {
                    proof {
                        assert(preload_chain_ok(p0, cur, prefix, now, chain));
                        assert(preload_ok(p0, cur, prefix, now));
                    }
                    return Err(e);
                },
            }
            idx = idx + 1;
        }
        proof {
            assert(self.kitties@.subrange(0, n as int) =~= self.kitties@);
            assert(preload_ok(p0, *p, self.kitties@, now));
        }
        Ok(())
    }
}

} // verus!
