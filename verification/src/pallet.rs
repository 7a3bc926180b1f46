use vstd::prelude::*;
use crate::dna::{clone_dna, dna_eq, dna_payload};
use crate::errors::Error;
use crate::events::Event;
use crate::kitty::{gender_of, AccountId, Dna, Gender, Kitty, Moment};

verus! {

/// Registry configuration: the maximum amount of kitties a single account can
/// own.
#[derive(Clone, Copy, Debug, PartialEq, Eq, Structural)]
pub struct Config {
    pub max_kitties_owned: u32,
}

/// One account's slot of the ownership index: the DNAs of the kitties that
/// the account currently owns, in insertion order except where a removal
/// swapped the last element into the gap.
struct OwnedEntry {
    account: AccountId,
    dnas: Vec<Dna>,
}

/// The registry engine together with its storage: the token store (kitty by
/// DNA), the ownership index (DNAs by account), the supply counter, and the
/// log of emitted events. All mutation goes through `mint` and the transfer
/// operations, which keep the two indices consistent by construction.
pub struct Pallet {
    kitties: Vec<Kitty>,
    kitties_owned: Vec<OwnedEntry>,
    count_for_kitties: u64,
    max_kitties_owned: u32,
    events: Vec<Event>,
}

/// The mathematical contents of a list of DNAs.
pub open spec fn dnas_view(s: Seq<Dna>) -> Seq<Seq<u8>> {
    s.map_values(|d: Dna| d@)
}

/// The effect of removing the element at index `i` by swapping the last
/// element into its place and truncating.
pub open spec fn swap_removed<A>(s: Seq<A>, i: int) -> Seq<A> {
    s.update(i, s.last()).drop_last()
}

impl Pallet {
    /// The configured bound on how many kitties one account may hold.
    pub closed spec fn max_owned(self) -> u32 {
        self.max_kitties_owned
    }

    /// The supply counter: how many kitties have been minted.
    pub closed spec fn token_count(self) -> u64 {
        self.count_for_kitties
    }

    /// The events emitted so far, oldest first.
    pub closed spec fn emitted(self) -> Seq<Event> {
        self.events@
    }

    /// The DNAs of the stored kitties, in store order.
    spec fn dna_seq(self) -> Seq<Seq<u8>> {
        self.kitties@.map_values(|k: Kitty| k.dna@)
    }

    /// Whether a kitty with this DNA exists in the token store.
    pub closed spec fn has_kitty(self, dna: Seq<u8>) -> bool {
        exists|i: int| 0 <= i < self.kitties@.len() && self.kitties@[i].dna@ == dna
    }

    /// The store index of the kitty with this DNA.
    spec fn kitty_idx(self, dna: Seq<u8>) -> int {
        choose|i: int| 0 <= i < self.kitties@.len() && self.kitties@[i].dna@ == dna
    }

    /// The kitty stored under this DNA (meaningful when `has_kitty` holds).
    pub closed spec fn kitty_of(self, dna: Seq<u8>) -> Kitty {
        self.kitties@[self.kitty_idx(dna)]
    }

    /// Whether the ownership index has a slot for this account.
    spec fn has_owner_entry(self, account: AccountId) -> bool {
        exists|i: int|
            0 <= i < self.kitties_owned@.len() && self.kitties_owned@[i].account == account
    }

    /// The index of this account's slot of the ownership index.
    spec fn owner_idx(self, account: AccountId) -> int {
        choose|i: int|
            0 <= i < self.kitties_owned@.len() && self.kitties_owned@[i].account == account
    }

    /// The DNAs this account currently owns, as the ownership index records
    /// them. An account without a slot owns nothing.
    pub closed spec fn owned_of(self, account: AccountId) -> Seq<Seq<u8>> {
        if self.has_owner_entry(account) {
            dnas_view(self.kitties_owned@[self.owner_idx(account)].dnas@)
        } else {
            Seq::empty()
        }
    }

    /// The set of identities that exist in the token store.
    pub open spec fn live_dnas(self) -> Set<Seq<u8>> {
        Set::new(|d: Seq<u8>| self.has_kitty(d))
    }

    /// No two stored kitties share a DNA.
    spec fn dnas_unique(self) -> bool {
        self.dna_seq().no_duplicates()
    }

    /// No two slots of the ownership index belong to the same account.
    spec fn accounts_unique(self) -> bool {
        forall|i: int, j: int|
            #![trigger self.kitties_owned@[i].account, self.kitties_owned@[j].account]
            0 <= i < self.kitties_owned@.len() && 0 <= j < self.kitties_owned@.len() && i != j
                ==> self.kitties_owned@[i].account != self.kitties_owned@[j].account
    }

    /// Every slot of the ownership index lists each DNA at most once and
    /// respects the configured bound.
    spec fn entries_bounded(self) -> bool {
        forall|i: int|
            0 <= i < self.kitties_owned@.len()
                ==> (#[trigger] dnas_view(self.kitties_owned@[i].dnas@)).no_duplicates()
                    && self.kitties_owned@[i].dnas@.len() <= self.max_kitties_owned as int
    }

    /// Every DNA listed in an account's slot names a stored kitty whose owner
    /// is that account.
    spec fn entries_live(self) -> bool {
        forall|i: int, j: int|
            #![trigger self.kitties_owned@[i].dnas@[j]]
            0 <= i < self.kitties_owned@.len() && 0 <= j < self.kitties_owned@[i].dnas@.len()
                ==> self.has_kitty(self.kitties_owned@[i].dnas@[j]@)
                    && self.kitty_of(self.kitties_owned@[i].dnas@[j]@).owner
                        == self.kitties_owned@[i].account
    }

    /// Every stored kitty is listed in its owner's slot.
    spec fn kitties_indexed(self) -> bool {
        forall|i: int|
            0 <= i < self.kitties@.len()
                ==> (#[trigger] self.owned_of(self.kitties@[i].owner)).contains(
                    self.kitties@[i].dna@,
                )
    }

    /// The registry's internal invariant: identities are unique, the two
    /// indices agree in both directions, every account's holdings are bounded
    /// and duplicate-free, and the counter equals the number of stored
    /// kitties. Established by `new` and preserved by every operation.
    pub closed spec fn wf(self) -> bool {
        &&& self.dnas_unique()
        &&& self.accounts_unique()
        &&& self.entries_bounded()
        &&& self.entries_live()
        &&& self.kitties_indexed()
        &&& self.count_for_kitties as int == self.kitties@.len() as int
    }

    /// An empty registry with the given configuration.
    pub fn new(config: Config) -> (r: Pallet)
        ensures
            r.wf(),
            r.max_owned() == config.max_kitties_owned,
            r.token_count() == 0,
            forall|d: Seq<u8>| !r.has_kitty(d),
            forall|a: AccountId| r.owned_of(a) == Seq::<Seq<u8>>::empty(),
            r.emitted() == Seq::<Event>::empty(),
    {
        let r = Pallet {
            kitties: Vec::new(),
            kitties_owned: Vec::new(),
            count_for_kitties: 0,
            max_kitties_owned: config.max_kitties_owned,
            events: Vec::new(),
        };
        proof {
            assert(r.dna_seq().len() == 0);
        }
        r
    }

    /// Keeps track of the number of kitties in existence.
    pub fn count_for_kitties(&self) -> (r: u64)
        ensures
            r == self.token_count(),
    {
        self.count_for_kitties
    }

    /// The configured bound on how many kitties one account may hold.
    pub fn max_kitties_owned(&self) -> (r: u32)
        ensures
            r == self.max_owned(),
    {
        self.max_kitties_owned
    }

    /// The events emitted so far, oldest first.
    pub fn events(&self) -> (r: &Vec<Event>)
        ensures
            r@ == self.emitted(),
    {
        &self.events
    }

    /// Looks a kitty up by its DNA.
    pub fn get_kitty(&self, dna: &Dna) -> (r: Option<&Kitty>)
        requires
            self.wf(),
        ensures
            match r {
                Some(k) => self.has_kitty(dna@) && *k == self.kitty_of(dna@) && k.dna@ == dna@,
                None => !self.has_kitty(dna@),
            },
    {
        match self.find_kitty_index(dna) {
            Some(i) => {
                proof {
                    self.lemma_kitty_at(i as int);
                }
                Some(&self.kitties[i])
            },
            None => None,
        }
    }

    /// The kitties owned by this account, as a fresh list of DNAs.
    pub fn kitties_owned(&self, account: AccountId) -> (r: Vec<Dna>)
        requires
            self.wf(),
        ensures
            dnas_view(r@) == self.owned_of(account),
    {
        match self.find_owner_index(account) {
            Some(i) => {
                proof {
                    self.lemma_owner_at(i as int);
                }
                let entry = &self.kitties_owned[i];
                let mut out: Vec<Dna> = Vec::new();
                let n = entry.dnas.len();
                for j in 0..n
                    invariant
                        n == entry.dnas@.len(),
                        out@.len() == j,
                        forall|k: int| 0 <= k < j ==> out@[k]@ == entry.dnas@[k]@,
                {
                    out.push(clone_dna(&entry.dnas[j]));
                }
                proof {
                    assert(dnas_view(out@) =~= dnas_view(entry.dnas@));
                }
                out
            },
            None => {
                let out: Vec<Dna> = Vec::new();
                proof {
                    assert(dnas_view(out@) =~= Seq::<Seq<u8>>::empty());
                }
                out
            },
        }
    }

    /// Generates a candidate identity for a new kitty from the host's
    /// randomness seed, the operation's index within the current batch, and
    /// the current block height. Uniqueness is not guaranteed here; `mint`
    /// rejects duplicates.
    pub fn gen_dna(random_seed: &Dna, extrinsic_index: u32, block_number: u64) -> (r: Result<
        Dna,
        Error,
    >)
        ensures
            r matches Ok(d) && d@ == dna_payload(random_seed@, extrinsic_index, block_number),
    {
        let mut out = clone_dna(random_seed);
        let mut mid = vstd::bytes::u32_to_le_bytes(extrinsic_index);
        out.append(&mut mid);
        let mut tail = vstd::bytes::u64_to_le_bytes(block_number);
        out.append(&mut tail);
        Ok(out)
    }

    /// Derives a kitty's gender from its DNA: odd length means `Female`.
    pub fn gen_gender(dna: Dna) -> (r: Result<Gender, Error>)
        ensures
            r == Ok::<Gender, Error>(gender_of(dna@)),
    {
        let mut res = Gender::Male;
        if dna.len() % 2 != 0 {
            res = Gender::Female;
        }
        Ok(res)
    }

    /// Creates a new unique kitty for the authenticated caller `who` and
    /// returns its identity: the identity is generated from the injected
    /// randomness seed and block context, its gender is derived, and the
    /// kitty is minted at time `now`. Fails with the exact error `mint_err`
    /// names for the generated identity, leaving the registry untouched.
    pub fn create_kitty(
        &mut self,
        who: AccountId,
        random_seed: &Dna,
        extrinsic_index: u32,
        block_number: u64,
        now: Moment,
    ) -> (r: Result<Dna, Error>)
        requires
            old(self).wf(),
        ensures
            final(self).wf(),
            ({
                let dna = dna_payload(random_seed@, extrinsic_index, block_number);
                match old(self).mint_err(who, dna) {
                    Some(e) => r == Err::<Dna, Error>(e) && *final(self) == *old(self),
                    None => (r matches Ok(d) && d@ == dna) && final(self).minted_from(
                        *old(self),
                        who,
                        dna,
                        gender_of(dna),
                        now,
                    ),
                }
            }),
    {
        let dna = match Self::gen_dna(random_seed, extrinsic_index, block_number) {
            Ok(d) => d,
            Err(e) => {
                return Err(e);
            },
        };
        let gender = match Self::gen_gender(clone_dna(&dna)) {
            Ok(g) => g,
            Err(e) => {
                return Err(e);
            },
        };
        self.mint(who, dna, gender, now)
    }

    /// Mints a kitty: stores a new record under `dna` owned by `owner`,
    /// appends the DNA to the owner's ownership index, steps the supply
    /// counter, and emits a `Created` event — or fails with the exact error
    /// `mint_err` names, leaving the registry untouched. All checks precede
    /// all writes, so a failed mint has no effect at all.
    pub fn mint(&mut self, owner: AccountId, dna: Dna, gender: Gender, now: Moment) -> (r: Result<
        Dna,
        Error,
    >)
        requires
            old(self).wf(),
        ensures
            final(self).wf(),
            match old(self).mint_err(owner, dna@) {
                Some(e) => r == Err::<Dna, Error>(e) && *final(self) == *old(self),
                None => (r matches Ok(d) && d@ == dna@) && final(self).minted_from(
                    *old(self),
                    owner,
                    dna@,
                    gender,
                    now,
                ),
            },
    {
        // Check that the kitty does not already exist in the store.
        match self.find_kitty_index(&dna) {
            Some(i) => {
                proof {
                    assert(self.kitties@[i as int].dna@ == dna@);
                    assert(self.has_kitty(dna@));
                }
                return Err(Error::DuplicateKitty);
            },
            None => {},
        }
        // The owner must have room for one more kitty.
        let oi = self.find_owner_index(owner);
        let cur_len: usize = match oi {
            Some(i) => {
                proof {
                    self.lemma_owner_at(i as int);
                }
                self.kitties_owned[i].dnas.len()
            },
            None => 0,
        };
        proof {
            assert(cur_len as int == self.owned_of(owner).len() as int);
        }
        if cur_len >= self.max_kitties_owned as usize {
            return Err(Error::TooManyOwned);
        }
        // The counter must have room for one more.
        if self.count_for_kitties == u64::MAX {
            return Err(Error::Overflow);
        }
        let new_count = self.count_for_kitties + 1;
        // All checks passed; now apply all writes.
        let ghost pre = *self;
        let dna_for_owned = clone_dna(&dna);
        match oi {
            Some(i) => {
                let mut e = self.kitties_owned.remove(i);
                e.dnas.push(dna_for_owned);
                let ghost e_new = e;
                self.kitties_owned.insert(i, e);
                proof {
                    lemma_remove_insert_update(pre.kitties_owned@, i as int, e_new);
                    assert(self.kitties_owned@ == pre.kitties_owned@.update(i as int, e_new));
                    pre.lemma_owned_frame_update(*self, i as int, e_new);
                    lemma_dnas_view_push(pre.kitties_owned@[i as int].dnas@, e_new.dnas@.last());
                    assert(self.owned_of(owner) == pre.owned_of(owner).push(dna@));
                }
            },
            None => {
                let mut dnas: Vec<Dna> = Vec::new();
                dnas.push(dna_for_owned);
                let e = OwnedEntry { account: owner, dnas };
                let ghost e_new = e;
                self.kitties_owned.push(e);
                proof {
                    pre.lemma_owned_frame_push(*self, e_new);
                    assert(dnas_view(e_new.dnas@) =~= pre.owned_of(owner).push(dna@));
                    assert(self.owned_of(owner) == pre.owned_of(owner).push(dna@));
                }
            },
        }
        let ghost mid = *self;
        // Write the new kitty to the store.
        let kitty = Kitty {
            dna: clone_dna(&dna),
            price: None,
            gender,
            owner,
            created_date: now,
        };
        let ghost k_new = kitty;
        self.kitties.push(kitty);
        self.count_for_kitties = new_count;
        self.events.push(Event::Created { kitty: clone_dna(&dna), owner });
        proof {
            mid.lemma_kitties_frame_push(*self, k_new);
            self.lemma_mint_wf(pre, mid, owner, dna@, k_new);
            assert(self.emitted().subrange(0, pre.emitted().len() as int) =~= pre.emitted());
        }
        Ok(dna)
    }

    /// After `mint`'s writes the invariant holds again: the new kitty is
    /// consistently recorded in both indices and nothing else moved.
    proof fn lemma_mint_wf(
        self,
        pre: Pallet,
        mid: Pallet,
        owner: AccountId,
        dna: Seq<u8>,
        k: Kitty,
    )
        requires
            pre.wf(),
            !pre.has_kitty(dna),
            pre.owned_of(owner).len() < pre.max_owned() as int,
            pre.count_for_kitties < u64::MAX,
            // the ownership index was updated first
            mid.kitties == pre.kitties,
            mid.max_kitties_owned == pre.max_kitties_owned,
            mid.accounts_unique(),
            mid.owned_of(owner) == pre.owned_of(owner).push(dna),
            forall|a: AccountId| a != owner ==> #[trigger] mid.owned_of(a) == pre.owned_of(a),
            // then the store, the counter, and the event log
            k.dna@ == dna,
            k.owner == owner,
            self.kitties@ == mid.kitties@.push(k),
            self.kitties_owned == mid.kitties_owned,
            self.count_for_kitties == pre.count_for_kitties + 1,
            self.max_kitties_owned == pre.max_kitties_owned,
        ensures
            self.wf(),
            self.owned_of(owner) == pre.owned_of(owner).push(dna),
            forall|a: AccountId| a != owner ==> #[trigger] self.owned_of(a) == pre.owned_of(a),
            self.token_count() == pre.token_count() + 1,
            self.has_kitty(dna),
            self.kitty_of(dna) == k,
            forall|d: Seq<u8>| d != dna ==> #[trigger] self.has_kitty(d) == pre.has_kitty(d),
            forall|d: Seq<u8>|
                d != dna && pre.has_kitty(d) ==> #[trigger] self.kitty_of(d) == pre.kitty_of(d),
    {
        // `mid` has `pre`'s kitties, so the store lookups agree.
        assert(mid.kitties@ == pre.kitties@);
        assert(mid.dna_seq() == pre.dna_seq());
        assert(mid.dnas_unique());
        assert forall|d: Seq<u8>| #[trigger] mid.has_kitty(d) == pre.has_kitty(d) by {
            if pre.has_kitty(d) {
                let i = pre.kitty_idx(d);
                assert(mid.kitties@[i].dna@ == d);
            }
            if mid.has_kitty(d) {
                let i = mid.kitty_idx(d);
                assert(pre.kitties@[i].dna@ == d);
            }
        }
        assert forall|d: Seq<u8>| pre.has_kitty(d) implies #[trigger] mid.kitty_of(d)
            == pre.kitty_of(d) by {
            let i = pre.kitty_idx(d);
            assert(0 <= i < pre.kitties@.len() && pre.kitties@[i].dna@ == d);
            pre.lemma_kitty_at(i);
            assert(mid.kitties@[i].dna@ == d);
            mid.lemma_kitty_at(i);
        }
        mid.lemma_kitties_frame_push(self, k);
        assert forall|d: Seq<u8>| d != dna implies #[trigger] self.has_kitty(d) == pre.has_kitty(
            d,
        ) by {
            assert(self.has_kitty(d) == mid.has_kitty(d));
        }
        assert forall|d: Seq<u8>| d != dna && pre.has_kitty(d) implies #[trigger] self.kitty_of(d)
            == pre.kitty_of(d) by {
            assert(mid.kitty_of(d) == pre.kitty_of(d));
            assert(self.kitty_of(d) == mid.kitty_of(d));
        }
        assert(self.kitties_owned@ == mid.kitties_owned@);
        assert(self.accounts_unique());
        // Owned views did not change between mid and self: the ownership index
        // is the same sequence of slots.
        assert forall|a: AccountId| #[trigger] self.owned_of(a) == mid.owned_of(a) by {
            if mid.has_owner_entry(a) {
                let i = mid.owner_idx(a);
                assert(0 <= i < mid.kitties_owned@.len() && mid.kitties_owned@[i].account == a);
                mid.lemma_owner_at(i);
                self.lemma_owner_at(i);
                assert(self.kitties_owned@[i].account == a);
            } else {
                if self.has_owner_entry(a) {
                    let i = self.owner_idx(a);
                    assert(mid.kitties_owned@[i].account == a);
                    assert(false);
                }
            }
        }
        // No slot of the ownership index lists the fresh DNA, except the new tail
        // of the owner's slot.
        assert forall|i: int, j: int|
            #![trigger self.kitties_owned@[i].dnas@[j]]
            0 <= i < self.kitties_owned@.len() && 0 <= j < self.kitties_owned@[i].dnas@.len()
                implies self.has_kitty(self.kitties_owned@[i].dnas@[j]@) && self.kitty_of(
                self.kitties_owned@[i].dnas@[j]@,
            ).owner == self.kitties_owned@[i].account by {
            let a = self.kitties_owned@[i].account;
            self.lemma_owner_at_owned(i);
            let d = self.kitties_owned@[i].dnas@[j]@;
            assert(self.owned_of(a)[j] == d);
            if a == owner {
                if j < pre.owned_of(owner).len() {
                    assert(pre.owned_of(owner)[j] == d);
                    pre.lemma_owned_elem_live(owner, j);
                    assert(d != dna);
                } else {
                    assert(d == dna);
                }
            } else {
                assert(pre.owned_of(a)[j] == d);
                pre.lemma_owned_elem_live(a, j);
                assert(d != dna);
            }
        }
        assert(self.entries_live());
        // Bounds and per-slot uniqueness.
        assert forall|i: int| 0 <= i < self.kitties_owned@.len() implies (#[trigger] dnas_view(
            self.kitties_owned@[i].dnas@,
        )).no_duplicates() && self.kitties_owned@[i].dnas@.len()
            <= self.max_kitties_owned as int by {
            let a = self.kitties_owned@[i].account;
            self.lemma_owner_at_owned(i);
            let v = dnas_view(self.kitties_owned@[i].dnas@);
            assert(v == self.owned_of(a));
            assert(v.len() == self.kitties_owned@[i].dnas@.len());
            if a == owner {
                let pv = pre.owned_of(owner);
                pre.lemma_owned_no_dup(owner);
                assert forall|p: int, q: int|
                    0 <= p < v.len() && 0 <= q < v.len() && p != q implies v[p] != v[q] by {
                    if p < pv.len() && q < pv.len() {
                        assert(pv[p] != pv[q]);
                    } else if q == pv.len() && p < pv.len() {
                        pre.lemma_owned_elem_live(owner, p);
                    } else if p == pv.len() && q < pv.len() {
                        pre.lemma_owned_elem_live(owner, q);
                    }
                }
                assert(v.no_duplicates());
            } else {
                assert(v == pre.owned_of(a));
                pre.lemma_owned_no_dup(a);
                pre.lemma_owned_len(a);
            }
        }
        assert(self.entries_bounded());
        // Every kitty, old or new, is listed with its owner.
        assert forall|i: int| 0 <= i < self.kitties@.len() implies (#[trigger] self.owned_of(
            self.kitties@[i].owner,
        )).contains(self.kitties@[i].dna@) by {
            let len = pre.kitties@.len() as int;
            if i < len {
                assert(self.kitties@[i] == pre.kitties@[i]);
                let o = pre.kitties@[i].owner;
                let d = pre.kitties@[i].dna@;
                assert(pre.owned_of(o).contains(d));
                if o == owner {
                    let j = choose|j: int| 0 <= j < pre.owned_of(o).len() && pre.owned_of(o)[j] == d;
                    assert(self.owned_of(o)[j] == d);
                } else {
                    assert(self.owned_of(o) == pre.owned_of(o));
                }
            } else {
                assert(self.kitties@[i] == k);
                assert(self.owned_of(owner)[pre.owned_of(owner).len() as int] == dna);
            }
        }
        assert(self.kitties_indexed());
        assert(self.wf());
    }

    /// A slot index names the unique slot of its account; helper phrasing of
    /// `lemma_owner_at` for states already known to have unique accounts.
    proof fn lemma_owner_at_owned(self, i: int)
        requires
            self.accounts_unique(),
            0 <= i < self.kitties_owned@.len(),
        ensures
            self.owned_of(self.kitties_owned@[i].account) == dnas_view(
                self.kitties_owned@[i].dnas@,
            ),
            self.owned_of(self.kitties_owned@[i].account).len()
                == self.kitties_owned@[i].dnas@.len(),
    {
        self.lemma_owner_at(i);
    }

    /// Index consistency, from the index to the store: every DNA an
    /// account's ownership index lists names a live kitty, and that kitty's
    /// owner is the account.
    pub proof fn lemma_owned_elem_live(self, a: AccountId, j: int)
        requires
            self.wf(),
            0 <= j < self.owned_of(a).len(),
        ensures
            self.has_kitty(self.owned_of(a)[j]),
            self.kitty_of(self.owned_of(a)[j]).owner == a,
    {
        assert(self.has_owner_entry(a));
        let i = self.owner_idx(a);
        self.lemma_owner_at(i);
        assert(self.kitties_owned@[i].account == a);
        assert(self.owned_of(a)[j] == self.kitties_owned@[i].dnas@[j]@);
    }

    /// The store is keyed by identity: the record found under a DNA carries
    /// that DNA in its own field, in any well-formed registry. With the
    /// transfer contracts this makes a token's identity immutable across
    /// transfers, as its gender and creation date already are.
    pub proof fn lemma_kitty_keyed_by_dna(self, d: Seq<u8>)
        requires
            self.wf(),
            self.has_kitty(d),
        ensures
            self.kitty_of(d).dna@ == d,
    {
        let i = self.kitty_idx(d);
        assert(0 <= i < self.kitties@.len() && self.kitties@[i].dna@ == d);
    }

    /// Index consistency, from the store to the index: every live kitty's
    /// DNA is listed in its owner's ownership index.
    pub proof fn lemma_kitty_is_indexed(self, d: Seq<u8>)
        requires
            self.wf(),
            self.has_kitty(d),
        ensures
            self.owned_of(self.kitty_of(d).owner).contains(d),
    {
        let i = self.kitty_idx(d);
        assert(0 <= i < self.kitties@.len() && self.kitties@[i].dna@ == d);
        self.lemma_kitty_at(i);
        assert(self.owned_of(self.kitties@[i].owner).contains(self.kitties@[i].dna@));
    }

    /// An account's ownership index lists each DNA at most once; together
    /// with `lemma_kitty_is_indexed` and `lemma_owned_disjoint`, a kitty's
    /// identity appears in exactly one account's index, exactly once.
    pub proof fn lemma_owned_no_dup(self, a: AccountId)
        requires
            self.wf(),
        ensures
            self.owned_of(a).no_duplicates(),
    {
        if self.has_owner_entry(a) {
            let i = self.owner_idx(a);
            self.lemma_owner_at(i);
        }
    }

    /// No DNA is listed in two different accounts' ownership indices.
    pub proof fn lemma_owned_disjoint(self, a: AccountId, b: AccountId, d: Seq<u8>)
        requires
            self.wf(),
            a != b,
        ensures
            !(self.owned_of(a).contains(d) && self.owned_of(b).contains(d)),
    {
        if self.owned_of(a).contains(d) && self.owned_of(b).contains(d) {
            let ja = choose|j: int| 0 <= j < self.owned_of(a).len() && self.owned_of(a)[j] == d;
            let jb = choose|j: int| 0 <= j < self.owned_of(b).len() && self.owned_of(b)[j] == d;
            self.lemma_owned_elem_live(a, ja);
            self.lemma_owned_elem_live(b, jb);
            assert(false);
        }
    }

    /// Bound respected: an account's ownership index never exceeds the
    /// configured maximum.
    pub proof fn lemma_owned_len(self, a: AccountId)
        requires
            self.wf(),
        ensures
            self.owned_of(a).len() <= self.max_owned() as int,
    {
        if self.has_owner_entry(a) {
            let i = self.owner_idx(a);
            self.lemma_owner_at(i);
        }
    }

    /// Counter accuracy: the supply counter equals the number of distinct
    /// identities in the token store — which is finite — so no two stored
    /// kitties can share an identity.
    pub proof fn lemma_counter_accurate(self)
        requires
            self.wf(),
        ensures
            self.live_dnas().finite(),
            self.token_count() as int == self.live_dnas().len() as int,
    {
        broadcast use vstd::seq_lib::seq_to_set_is_finite;

        let s = self.dna_seq();
        assert forall|d: Seq<u8>| #[trigger] self.live_dnas().contains(d) implies s.to_set()
            .contains(d) by {
            let i = self.kitty_idx(d);
            assert(s[i] == d);
        }
        assert forall|d: Seq<u8>| #[trigger] s.to_set().contains(d) implies self.live_dnas()
            .contains(d) by {
            let i = choose|i: int| 0 <= i < s.len() && s[i] == d;
            assert(self.kitties@[i].dna@ == d);
        }
        assert(self.live_dnas() =~= s.to_set());
        s.unique_seq_to_set();
    }

    /// Transfers the kitty under `dna` to `to`: swap-removes the DNA from the
    /// current owner's index slot, appends it to the recipient's, rewrites
    /// the kitty with its new owner and a cleared price, and emits a
    /// `Transferred` event — or fails with the exact error `do_transfer_err`
    /// names, leaving the registry untouched. All checks precede all writes,
    /// so a transfer that fails at the recipient's bound has not touched the
    /// old owner's slot.
    pub fn do_transfer(&mut self, dna: Dna, to: AccountId) -> (r: Result<(), Error>)
        requires
            old(self).wf(),
        ensures
            final(self).wf(),
            match old(self).do_transfer_err(to, dna@) {
                Some(e) => r == Err::<(), Error>(e) && *final(self) == *old(self),
                None => r == Ok::<(), Error>(()) && final(self).transferred_from(
                    *old(self),
                    to,
                    dna@,
                ),
            },
    {
        // Get the kitty.
        let ki = match self.find_kitty_index(&dna) {
            Some(i) => {
                proof {
                    assert(self.has_kitty(dna@));
                    self.lemma_kitty_at(i as int);
                }
                i
            },
            None => {
                return Err(Error::NoKitty);
            },
        };
        let from = self.kitties[ki].owner;
        proof {
            assert(self.kitty_of(dna@) == self.kitties@[ki as int]);
        }
        if from == to {
            return Err(Error::TransferToSelf);
        }
        // Locate the DNA inside the owner's index slot. The invariant says it
        // is there; the lookups below guard against inconsistency all the
        // same, as the store and the index are separate structures.
        let fi = match self.find_owner_index(from) {
            Some(i) => i,
            None => {
                proof {
                    assert(self.owned_of(self.kitties@[ki as int].owner).contains(
                        self.kitties@[ki as int].dna@,
                    ));
                    assert(false);
                }
                return Err(Error::NoKitty);
            },
        };
        proof {
            self.lemma_owner_at(fi as int);
        }
        let pos = match find_dna_pos(&self.kitties_owned[fi].dnas, &dna) {
            Some(p) => p,
            None => {
                proof {
                    assert(self.owned_of(self.kitties@[ki as int].owner).contains(
                        self.kitties@[ki as int].dna@,
                    ));
                    let j = choose|j: int|
                        0 <= j < self.owned_of(from).len() && self.owned_of(from)[j] == dna@;
                    assert(self.kitties_owned@[fi as int].dnas@[j]@ == dna@);
                    assert(false);
                }
                return Err(Error::NoKitty);
            },
        };
        // The recipient must have room for one more kitty.
        let ti = self.find_owner_index(to);
        let to_len: usize = match ti {
            Some(t) => {
                proof {
                    self.lemma_owner_at(t as int);
                }
                self.kitties_owned[t].dnas.len()
            },
            None => 0,
        };
        proof {
            assert(to_len as int == self.owned_of(to).len() as int);
        }
        if to_len >= self.max_kitties_owned as usize {
            return Err(Error::TooManyOwned);
        }
        // All checks passed; now apply all writes.
        let ghost pre = *self;
        // Remove the DNA from the old owner's slot: swap with last, truncate.
        let mut fe = self.kitties_owned.remove(fi);
        let _removed_dna = fe.dnas.swap_remove(pos);
        let ghost fe_new = fe;
        self.kitties_owned.insert(fi, fe);
        proof {
            lemma_remove_insert_update(pre.kitties_owned@, fi as int, fe_new);
            pre.lemma_owned_frame_update(*self, fi as int, fe_new);
            lemma_dnas_view_swap_removed(pre.kitties_owned@[fi as int].dnas@, pos as int);
            assert(self.owned_of(from) == swap_removed(pre.owned_of(from), pos as int));
            assert(pre.owned_of(from)[pos as int] == dna@);
        }
        let ghost mid1 = *self;
        // Append the DNA to the recipient's slot.
        let dna_for_to = clone_dna(&dna);
        match ti {
            Some(t) => {
                proof {
                    assert(pre.kitties_owned@[t as int].account == to);
                    assert(t != fi);
                    assert(mid1.kitties_owned@[t as int] == pre.kitties_owned@[t as int]);
                }
                let mut te = self.kitties_owned.remove(t);
                te.dnas.push(dna_for_to);
                let ghost te_new = te;
                self.kitties_owned.insert(t, te);
                proof {
                    lemma_remove_insert_update(mid1.kitties_owned@, t as int, te_new);
                    mid1.lemma_owned_frame_update(*self, t as int, te_new);
                    lemma_dnas_view_push(mid1.kitties_owned@[t as int].dnas@, te_new.dnas@.last());
                    assert(mid1.owned_of(to) == pre.owned_of(to));
                    assert(self.owned_of(to) == pre.owned_of(to).push(dna@));
                }
            },
            None => {
                let mut dnas: Vec<Dna> = Vec::new();
                dnas.push(dna_for_to);
                let e = OwnedEntry { account: to, dnas };
                let ghost te_new = e;
                self.kitties_owned.push(e);
                proof {
                    assert(!mid1.has_owner_entry(to));
                    mid1.lemma_owned_frame_push(*self, te_new);
                    assert(mid1.owned_of(to) == pre.owned_of(to));
                    assert(dnas_view(te_new.dnas@) =~= mid1.owned_of(to).push(dna@));
                    assert(self.owned_of(to) == pre.owned_of(to).push(dna@));
                }
            },
        }
        proof {
            assert(self.owned_of(from) == swap_removed(pre.owned_of(from), pos as int));
            assert forall|a: AccountId| a != from && a != to implies #[trigger] self.owned_of(a)
                == pre.owned_of(a) by {
                assert(mid1.owned_of(a) == pre.owned_of(a));
            }
        }
        let ghost mid2 = *self;
        // Transfer succeeded: update the kitty's owner and reset its price.
        let mut kitty = self.kitties.remove(ki);
        kitty.owner = to;
        kitty.price = None;
        let ghost k_new = kitty;
        self.kitties.insert(ki, kitty);
        self.events.push(Event::Transferred { from, to, kitty: dna });
        proof {
            lemma_remove_insert_update(pre.kitties@, ki as int, k_new);
            assert(pre.owned_of(from).len() == pre.kitties_owned@[fi as int].dnas@.len());
            self.lemma_transfer_wf(pre, mid2, to, dna@, ki as int, pos as int, k_new);
            assert(self.emitted().subrange(0, pre.emitted().len() as int) =~= pre.emitted());
            // The exec scan found the first occurrence; the slot lists the DNA
            // only once, so it is the occurrence `index_of` names.
            let io = pre.owned_of(from).index_of(dna@);
            assert(pre.owned_of(from).contains(dna@));
            pre.lemma_owned_no_dup(from);
            assert(0 <= io < pre.owned_of(from).len() && pre.owned_of(from)[io] == dna@);
            assert(io == pos as int);
        }
        Ok(())
    }

    /// Directly transfer a kitty from `from` (the authenticated caller) to
    /// another recipient. Any account that holds a kitty can send it to
    /// another account; this resets the asking price of the kitty, marking it
    /// not for sale. Fails with the exact error `transfer_err` names, leaving
    /// the registry untouched.
    pub fn transfer(&mut self, from: AccountId, to: AccountId, dna: Dna) -> (r: Result<(), Error>)
        requires
            old(self).wf(),
        ensures
            final(self).wf(),
            match old(self).transfer_err(from, to, dna@) {
                Some(e) => r == Err::<(), Error>(e) && *final(self) == *old(self),
                None => r == Ok::<(), Error>(()) && final(self).transferred_from(
                    *old(self),
                    to,
                    dna@,
                ),
            },
    {
        match self.get_kitty(&dna) {
            Some(kitty) => {
                if kitty.owner != from {
                    return Err(Error::NotOwner);
                }
            },
            None => {
                return Err(Error::NoKitty);
            },
        }
        self.do_transfer(dna, to)
    }

    /// After `do_transfer`'s writes the invariant holds again: the kitty
    /// moved between the two slots and everything else stayed.
    proof fn lemma_transfer_wf(
        self,
        pre: Pallet,
        mid: Pallet,
        to: AccountId,
        dna: Seq<u8>,
        ki: int,
        pos: int,
        k: Kitty,
    )
        requires
            pre.wf(),
            pre.has_kitty(dna),
            pre.kitty_of(dna).owner != to,
            pre.owned_of(to).len() < pre.max_owned() as int,
            0 <= ki < pre.kitties@.len(),
            pre.kitties@[ki].dna@ == dna,
            // the ownership index was rewired first
            mid.kitties == pre.kitties,
            mid.max_kitties_owned == pre.max_kitties_owned,
            mid.count_for_kitties == pre.count_for_kitties,
            mid.accounts_unique(),
            0 <= pos < pre.owned_of(pre.kitty_of(dna).owner).len(),
            pre.owned_of(pre.kitty_of(dna).owner)[pos] == dna,
            mid.owned_of(pre.kitty_of(dna).owner) == swap_removed(
                pre.owned_of(pre.kitty_of(dna).owner),
                pos,
            ),
            mid.owned_of(to) == pre.owned_of(to).push(dna),
            forall|a: AccountId|
                a != pre.kitty_of(dna).owner && a != to ==> #[trigger] mid.owned_of(a)
                    == pre.owned_of(a),
            // then the kitty record was rewritten in place
            k.dna@ == dna,
            k.owner == to,
            k.price is None,
            k.gender == pre.kitty_of(dna).gender,
            k.created_date == pre.kitty_of(dna).created_date,
            self.kitties@ == mid.kitties@.update(ki, k),
            self.kitties_owned == mid.kitties_owned,
            self.count_for_kitties == mid.count_for_kitties,
            self.max_kitties_owned == mid.max_kitties_owned,
        ensures
            self.wf(),
            self.token_count() == pre.token_count(),
            forall|d: Seq<u8>| #[trigger] self.has_kitty(d) == pre.has_kitty(d),
            self.kitty_of(dna) == k,
            forall|d: Seq<u8>|
                d != dna && pre.has_kitty(d) ==> #[trigger] self.kitty_of(d) == pre.kitty_of(d),
            self.owned_of(pre.kitty_of(dna).owner) == swap_removed(
                pre.owned_of(pre.kitty_of(dna).owner),
                pos,
            ),
            self.owned_of(to) == pre.owned_of(to).push(dna),
            forall|a: AccountId|
                a != pre.kitty_of(dna).owner && a != to ==> #[trigger] self.owned_of(a)
                    == pre.owned_of(a),
    {
        let from = pre.kitty_of(dna).owner;
        pre.lemma_kitty_at(ki);
        assert(pre.kitty_of(dna) == pre.kitties@[ki]);
        // `mid` has `pre`'s kitties, so the store lookups agree.
        assert(mid.kitties@ == pre.kitties@);
        assert(mid.dna_seq() == pre.dna_seq());
        assert(mid.dnas_unique());
        assert forall|d: Seq<u8>| #[trigger] mid.has_kitty(d) == pre.has_kitty(d) by {
            if pre.has_kitty(d) {
                let i = pre.kitty_idx(d);
                assert(mid.kitties@[i].dna@ == d);
            }
            if mid.has_kitty(d) {
                let i = mid.kitty_idx(d);
                assert(pre.kitties@[i].dna@ == d);
            }
        }
        assert forall|d: Seq<u8>| pre.has_kitty(d) implies #[trigger] mid.kitty_of(d)
            == pre.kitty_of(d) by {
            let i = pre.kitty_idx(d);
            assert(0 <= i < pre.kitties@.len() && pre.kitties@[i].dna@ == d);
            pre.lemma_kitty_at(i);
            assert(mid.kitties@[i].dna@ == d);
            mid.lemma_kitty_at(i);
        }
        assert(mid.kitties@[ki].dna@ == dna);
        mid.lemma_kitties_frame_update(self, ki, k);
        assert forall|d: Seq<u8>| #[trigger] self.has_kitty(d) == pre.has_kitty(d) by {
            assert(self.has_kitty(d) == mid.has_kitty(d));
        }
        assert forall|d: Seq<u8>| d != dna && pre.has_kitty(d) implies #[trigger] self.kitty_of(d)
            == pre.kitty_of(d) by {
            assert(mid.kitty_of(d) == pre.kitty_of(d));
            assert(self.kitty_of(d) == mid.kitty_of(d));
        }
        // Owned views did not change between mid and self.
        assert(self.kitties_owned@ == mid.kitties_owned@);
        assert(self.accounts_unique());
        assert forall|a: AccountId| #[trigger] self.owned_of(a) == mid.owned_of(a) by {
            if mid.has_owner_entry(a) {
                let i = mid.owner_idx(a);
                assert(0 <= i < mid.kitties_owned@.len() && mid.kitties_owned@[i].account == a);
                mid.lemma_owner_at(i);
                self.lemma_owner_at(i);
                assert(self.kitties_owned@[i].account == a);
            } else {
                if self.has_owner_entry(a) {
                    let i = self.owner_idx(a);
                    assert(mid.kitties_owned@[i].account == a);
                    assert(false);
                }
            }
        }
        pre.lemma_owned_no_dup(from);
        lemma_swap_removed_props(pre.owned_of(from), pos);
        // Bounds and per-slot uniqueness.
        assert forall|i: int| 0 <= i < self.kitties_owned@.len() implies (#[trigger] dnas_view(
            self.kitties_owned@[i].dnas@,
        )).no_duplicates() && self.kitties_owned@[i].dnas@.len()
            <= self.max_kitties_owned as int by {
            let a = self.kitties_owned@[i].account;
            self.lemma_owner_at_owned(i);
            let v = dnas_view(self.kitties_owned@[i].dnas@);
            assert(v == self.owned_of(a));
            assert(v.len() == self.kitties_owned@[i].dnas@.len());
            if a == from {
                assert(v == swap_removed(pre.owned_of(from), pos));
                pre.lemma_owned_len(from);
            } else if a == to {
                let pv = pre.owned_of(to);
                pre.lemma_owned_no_dup(to);
                assert forall|p: int, q: int|
                    0 <= p < v.len() && 0 <= q < v.len() && p != q implies v[p] != v[q] by {
                    if p < pv.len() && q < pv.len() {
                        assert(pv[p] != pv[q]);
                    } else if q == pv.len() && p < pv.len() {
                        pre.lemma_owned_elem_live(to, p);
                        assert(pre.kitty_of(pv[p]).owner == to);
                    } else if p == pv.len() && q < pv.len() {
                        pre.lemma_owned_elem_live(to, q);
                        assert(pre.kitty_of(pv[q]).owner == to);
                    }
                }
                assert(v.no_duplicates());
            } else {
                assert(v == pre.owned_of(a));
                pre.lemma_owned_no_dup(a);
                pre.lemma_owned_len(a);
            }
        }
        assert(self.entries_bounded());
        // Every DNA a slot lists names a live kitty owned by that account.
        assert forall|i: int, j: int|
            #![trigger self.kitties_owned@[i].dnas@[j]]
            0 <= i < self.kitties_owned@.len() && 0 <= j < self.kitties_owned@[i].dnas@.len()
                implies self.has_kitty(self.kitties_owned@[i].dnas@[j]@) && self.kitty_of(
                self.kitties_owned@[i].dnas@[j]@,
            ).owner == self.kitties_owned@[i].account by {
            let a = self.kitties_owned@[i].account;
            self.lemma_owner_at_owned(i);
            let d = self.kitties_owned@[i].dnas@[j]@;
            assert(self.owned_of(a)[j] == d);
            if a == from {
                assert(self.owned_of(from).contains(d));
                assert(pre.owned_of(from).contains(d) && d != dna);
                let j2 = choose|j2: int|
                    0 <= j2 < pre.owned_of(from).len() && pre.owned_of(from)[j2] == d;
                pre.lemma_owned_elem_live(from, j2);
            } else if a == to {
                if j < pre.owned_of(to).len() {
                    assert(pre.owned_of(to)[j] == d);
                    pre.lemma_owned_elem_live(to, j);
                    assert(pre.kitty_of(d).owner == to);
                    assert(d != dna);
                } else {
                    assert(d == dna);
                }
            } else {
                assert(pre.owned_of(a)[j] == d);
                pre.lemma_owned_elem_live(a, j);
                assert(pre.kitty_of(d).owner == a);
                assert(d != dna);
            }
        }
        assert(self.entries_live());
        // Every kitty is still listed with its owner.
        assert forall|i: int| 0 <= i < self.kitties@.len() implies (#[trigger] self.owned_of(
            self.kitties@[i].owner,
        )).contains(self.kitties@[i].dna@) by {
            if i == ki {
                assert(self.kitties@[i] == k);
                assert(self.owned_of(to)[pre.owned_of(to).len() as int] == dna);
            } else {
                assert(self.kitties@[i] == pre.kitties@[i]);
                let o = pre.kitties@[i].owner;
                let d = pre.kitties@[i].dna@;
                assert(pre.owned_of(o).contains(d));
                assert(pre.dna_seq()[i] == d);
                assert(pre.dna_seq()[ki] == dna);
                assert(d != dna);
                if o == from {
                    assert(self.owned_of(from).contains(d));
                } else if o == to {
                    let j = choose|j: int| 0 <= j < pre.owned_of(o).len() && pre.owned_of(o)[j] == d;
                    assert(self.owned_of(o)[j] == d);
                } else {
                    assert(self.owned_of(o) == pre.owned_of(o));
                }
            }
        }
        assert(self.kitties_indexed());
        assert(self.wf());
    }

    /// The store index of the kitty with this DNA, if it exists.
    fn find_kitty_index(&self, dna: &Dna) -> (r: Option<usize>)
        ensures
            match r {
                Some(i) => i < self.kitties@.len() && self.kitties@[i as int].dna@ == dna@,
                None => !self.has_kitty(dna@),
            },
    {
        let n = self.kitties.len();
        for i in 0..n
            invariant
                n == self.kitties@.len(),
                forall|j: int| 0 <= j < i ==> self.kitties@[j].dna@ != dna@,
        {
            if dna_eq(&self.kitties[i].dna, dna) {
                return Some(i);
            }
        }
        None
    }

    /// The index of this account's slot of the ownership index, if present.
    fn find_owner_index(&self, account: AccountId) -> (r: Option<usize>)
        ensures
            match r {
                Some(i) => i < self.kitties_owned@.len()
                    && self.kitties_owned@[i as int].account == account,
                None => !self.has_owner_entry(account),
            },
    {
        let n = self.kitties_owned.len();
        for i in 0..n
            invariant
                n == self.kitties_owned@.len(),
                forall|j: int| 0 <= j < i ==> self.kitties_owned@[j].account != account,
        {
            if self.kitties_owned[i].account == account {
                return Some(i);
            }
        }
        None
    }

    /// The error, if any, that `mint` reports for this request, in the order
    /// the checks are made: an existing DNA, then the ownership bound of the
    /// would-be owner — both preconditions of the operation — and only then
    /// counter overflow, which belongs to the effects.
    pub open spec fn mint_err(self, owner: AccountId, dna: Seq<u8>) -> Option<Error> {
        if self.has_kitty(dna) {
            Some(Error::DuplicateKitty)
        } else if self.owned_of(owner).len() as int >= self.max_owned() as int {
            Some(Error::TooManyOwned)
        } else if self.token_count() == u64::MAX {
            Some(Error::Overflow)
        } else {
            None
        }
    }

    /// How a registry that minted a kitty (DNA `dna`, for `owner`, with
    /// `gender`, at time `now`) relates to the registry `pre` it was minted
    /// in: the new kitty is stored with an absent price, every other kitty is
    /// untouched, the owner's index gains exactly the new DNA at its end,
    /// every other account's index is unchanged, the counter went up by one,
    /// and a `Created` event was appended.
    pub open spec fn minted_from(
        self,
        pre: Pallet,
        owner: AccountId,
        dna: Seq<u8>,
        gender: Gender,
        now: Moment,
    ) -> bool {
        &&& self.max_owned() == pre.max_owned()
        &&& self.token_count() == pre.token_count() + 1
        &&& self.has_kitty(dna)
        &&& self.kitty_of(dna).dna@ == dna
        &&& self.kitty_of(dna).owner == owner
        &&& self.kitty_of(dna).gender == gender
        &&& self.kitty_of(dna).price is None
        &&& self.kitty_of(dna).created_date == now
        &&& forall|d: Seq<u8>| d != dna ==> #[trigger] self.has_kitty(d) == pre.has_kitty(d)
        &&& forall|d: Seq<u8>|
            d != dna && pre.has_kitty(d) ==> #[trigger] self.kitty_of(d) == pre.kitty_of(d)
        &&& self.owned_of(owner) == pre.owned_of(owner).push(dna)
        &&& forall|a: AccountId| a != owner ==> #[trigger] self.owned_of(a) == pre.owned_of(a)
        &&& self.emitted().len() == pre.emitted().len() + 1
        &&& self.emitted().subrange(0, pre.emitted().len() as int) == pre.emitted()
        &&& (self.emitted().last() matches Event::Created { kitty, owner: o } && kitty@ == dna
            && o == owner)
    }

    /// The error, if any, that `transfer` reports, in the order the checks
    /// are made: a missing kitty, then a caller who is not the owner, then a
    /// self-transfer, then the ownership bound of the recipient.
    pub open spec fn transfer_err(
        self,
        from: AccountId,
        to: AccountId,
        dna: Seq<u8>,
    ) -> Option<Error> {
        if !self.has_kitty(dna) {
            Some(Error::NoKitty)
        } else if self.kitty_of(dna).owner != from {
            Some(Error::NotOwner)
        } else if from == to {
            Some(Error::TransferToSelf)
        } else if self.owned_of(to).len() as int >= self.max_owned() as int {
            Some(Error::TooManyOwned)
        } else {
            None
        }
    }

    /// The error, if any, that `do_transfer` reports. It does not know the
    /// caller, so ownership is not checked here; a transfer whose recipient
    /// already owns the kitty is a self-transfer.
    pub open spec fn do_transfer_err(self, to: AccountId, dna: Seq<u8>) -> Option<Error> {
        if !self.has_kitty(dna) {
            Some(Error::NoKitty)
        } else if self.kitty_of(dna).owner == to {
            Some(Error::TransferToSelf)
        } else if self.owned_of(to).len() as int >= self.max_owned() as int {
            Some(Error::TooManyOwned)
        } else {
            None
        }
    }

    /// How a registry that transferred the kitty under `dna` to `to` relates
    /// to the registry `pre` it started from: the same kitties exist, the
    /// transferred kitty now belongs to `to` with its price cleared and every
    /// other field intact, every other kitty is untouched, the DNA was
    /// swap-removed from the old owner's index and appended to the
    /// recipient's, every other account's index is unchanged, the counter is
    /// unchanged, and a `Transferred` event was appended.
    pub open spec fn transferred_from(self, pre: Pallet, to: AccountId, dna: Seq<u8>) -> bool {
        let from = pre.kitty_of(dna).owner;
        &&& self.max_owned() == pre.max_owned()
        &&& self.token_count() == pre.token_count()
        &&& forall|d: Seq<u8>| #[trigger] self.has_kitty(d) == pre.has_kitty(d)
        &&& self.kitty_of(dna).dna@ == dna
        &&& self.kitty_of(dna).owner == to
        &&& self.kitty_of(dna).price is None
        &&& self.kitty_of(dna).gender == pre.kitty_of(dna).gender
        &&& self.kitty_of(dna).created_date == pre.kitty_of(dna).created_date
        &&& forall|d: Seq<u8>|
            d != dna && pre.has_kitty(d) ==> #[trigger] self.kitty_of(d) == pre.kitty_of(d)
        &&& self.owned_of(from) == swap_removed(
            pre.owned_of(from),
            pre.owned_of(from).index_of(dna),
        )
        &&& self.owned_of(to) == pre.owned_of(to).push(dna)
        &&& forall|a: AccountId|
            a != from && a != to ==> #[trigger] self.owned_of(a) == pre.owned_of(a)
        &&& self.emitted().len() == pre.emitted().len() + 1
        &&& self.emitted().subrange(0, pre.emitted().len() as int) == pre.emitted()
        &&& (self.emitted().last() matches Event::Transferred { from: f, to: t, kitty }
            && f == from && t == to && kitty@ == dna)
    }

    /// A store index with this DNA makes the kitty the unique one under that
    /// DNA.
    proof fn lemma_kitty_at(self, n: int)
        requires
            self.dnas_unique(),
            0 <= n < self.kitties@.len(),
        ensures
            self.has_kitty(self.kitties@[n].dna@),
            self.kitty_idx(self.kitties@[n].dna@) == n,
            self.kitty_of(self.kitties@[n].dna@) == self.kitties@[n],
    {
        let dna = self.kitties@[n].dna@;
        assert(self.has_kitty(dna));
        let m = self.kitty_idx(dna);
        assert(0 <= m < self.kitties@.len() && self.kitties@[m].dna@ == dna);
        if m != n {
            assert(self.dna_seq()[m] == dna);
            assert(self.dna_seq()[n] == dna);
            assert(false);
        }
    }

    /// An index-slot position for this account is the unique slot of that
    /// account.
    proof fn lemma_owner_at(self, n: int)
        requires
            self.accounts_unique(),
            0 <= n < self.kitties_owned@.len(),
        ensures
            self.has_owner_entry(self.kitties_owned@[n].account),
            self.owner_idx(self.kitties_owned@[n].account) == n,
            self.owned_of(self.kitties_owned@[n].account)
                == dnas_view(self.kitties_owned@[n].dnas@),
    {
        let account = self.kitties_owned@[n].account;
        assert(self.has_owner_entry(account));
        let m = self.owner_idx(account);
        assert(0 <= m < self.kitties_owned@.len() && self.kitties_owned@[m].account == account);
        if m != n {
            assert(false);
        }
    }

    /// Replacing one slot of the ownership index, keeping its account,
    /// changes that account's view alone.
    proof fn lemma_owned_frame_update(self, post: Pallet, n: int, e: OwnedEntry)
        requires
            self.accounts_unique(),
            0 <= n < self.kitties_owned@.len(),
            post.kitties_owned@ == self.kitties_owned@.update(n, e),
            e.account == self.kitties_owned@[n].account,
        ensures
            post.accounts_unique(),
            post.owned_of(e.account) == dnas_view(e.dnas@),
            self.owned_of(e.account) == dnas_view(self.kitties_owned@[n].dnas@),
            forall|a: AccountId| a != e.account ==> #[trigger] post.owned_of(a) == self.owned_of(a),
            forall|a: AccountId| #[trigger] post.has_owner_entry(a) == self.has_owner_entry(a),
    {
        assert forall|i: int| 0 <= i < post.kitties_owned@.len() implies #[trigger] post.kitties_owned@[i].account
            == self.kitties_owned@[i].account by {}
        assert(post.accounts_unique());
        self.lemma_owner_at(n);
        post.lemma_owner_at(n);
        assert(post.kitties_owned@[n] == e);
        assert forall|a: AccountId| #[trigger] post.has_owner_entry(a) == self.has_owner_entry(
            a,
        ) by {
            if self.has_owner_entry(a) {
                let i = self.owner_idx(a);
                assert(post.kitties_owned@[i].account == a);
            }
            if post.has_owner_entry(a) {
                let i = post.owner_idx(a);
                assert(self.kitties_owned@[i].account == a);
            }
        }
        assert forall|a: AccountId| a != e.account implies #[trigger] post.owned_of(a)
            == self.owned_of(a) by {
            if self.has_owner_entry(a) {
                let i = self.owner_idx(a);
                assert(0 <= i < self.kitties_owned@.len() && self.kitties_owned@[i].account == a);
                assert(i != n);
                assert(post.kitties_owned@[i] == self.kitties_owned@[i]);
                self.lemma_owner_at(i);
                post.lemma_owner_at(i);
            }
        }
    }

    /// Appending a slot for an account the index does not know changes that
    /// account's view alone.
    proof fn lemma_owned_frame_push(self, post: Pallet, e: OwnedEntry)
        requires
            self.accounts_unique(),
            !self.has_owner_entry(e.account),
            post.kitties_owned@ == self.kitties_owned@.push(e),
        ensures
            post.accounts_unique(),
            post.has_owner_entry(e.account),
            post.owned_of(e.account) == dnas_view(e.dnas@),
            self.owned_of(e.account) == Seq::<Seq<u8>>::empty(),
            forall|a: AccountId| a != e.account ==> #[trigger] post.owned_of(a) == self.owned_of(a),
    {
        let len = self.kitties_owned@.len() as int;
        assert forall|i: int, j: int|
            #![trigger post.kitties_owned@[i].account, post.kitties_owned@[j].account]
            0 <= i < post.kitties_owned@.len() && 0 <= j < post.kitties_owned@.len() && i
                != j implies post.kitties_owned@[i].account != post.kitties_owned@[j].account by {
            if i < len && j < len {
                assert(self.kitties_owned@[i].account != self.kitties_owned@[j].account);
            } else if j == len && i < len {
                if self.kitties_owned@[i].account == e.account {
                    assert(self.has_owner_entry(e.account));
                }
            } else if i == len && j < len {
                if self.kitties_owned@[j].account == e.account {
                    assert(self.has_owner_entry(e.account));
                }
            }
        }
        assert(post.accounts_unique());
        assert(post.kitties_owned@[len] == e);
        post.lemma_owner_at(len);
        assert forall|a: AccountId| a != e.account implies #[trigger] post.owned_of(a)
            == self.owned_of(a) by {
            if self.has_owner_entry(a) {
                let i = self.owner_idx(a);
                assert(0 <= i < len && self.kitties_owned@[i].account == a);
                assert(post.kitties_owned@[i] == self.kitties_owned@[i]);
                self.lemma_owner_at(i);
                post.lemma_owner_at(i);
            } else {
                if post.has_owner_entry(a) {
                    let i = post.owner_idx(a);
                    assert(0 <= i < len + 1 && post.kitties_owned@[i].account == a);
                    assert(i != len);
                    assert(self.kitties_owned@[i].account == a);
                    assert(false);
                }
            }
        }
    }

    /// Appending a kitty with a fresh DNA to the store leaves every other
    /// DNA's lookup unchanged.
    proof fn lemma_kitties_frame_push(self, post: Pallet, k: Kitty)
        requires
            self.dnas_unique(),
            !self.has_kitty(k.dna@),
            post.kitties@ == self.kitties@.push(k),
        ensures
            post.dnas_unique(),
            post.has_kitty(k.dna@),
            post.kitty_of(k.dna@) == k,
            forall|d: Seq<u8>| d != k.dna@ ==> #[trigger] post.has_kitty(d) == self.has_kitty(d),
            forall|d: Seq<u8>|
                d != k.dna@ && self.has_kitty(d) ==> #[trigger] post.kitty_of(d) == self.kitty_of(
                    d,
                ),
    {
        let len = self.kitties@.len() as int;
        assert forall|i: int, j: int|
            0 <= i < post.dna_seq().len() && 0 <= j < post.dna_seq().len() && i
                != j implies #[trigger] post.dna_seq()[i] != #[trigger] post.dna_seq()[j] by {
            if i < len && j < len {
                assert(self.dna_seq()[i] == post.dna_seq()[i]);
                assert(self.dna_seq()[j] == post.dna_seq()[j]);
                assert(self.dna_seq()[i] != self.dna_seq()[j]);
            } else if j == len && i < len {
                if self.kitties@[i].dna@ == k.dna@ {
                    assert(self.has_kitty(k.dna@));
                }
            } else if i == len && j < len {
                if self.kitties@[j].dna@ == k.dna@ {
                    assert(self.has_kitty(k.dna@));
                }
            }
        }
        assert(post.dnas_unique());
        post.lemma_kitty_at(len);
        assert forall|d: Seq<u8>| d != k.dna@ implies #[trigger] post.has_kitty(d)
            == self.has_kitty(d) by {
            if self.has_kitty(d) {
                let i = self.kitty_idx(d);
                assert(post.kitties@[i].dna@ == d);
            }
            if post.has_kitty(d) {
                let i = post.kitty_idx(d);
                assert(0 <= i < len + 1 && post.kitties@[i].dna@ == d);
                assert(i != len);
                assert(self.kitties@[i].dna@ == d);
            }
        }
        assert forall|d: Seq<u8>| d != k.dna@ && self.has_kitty(d) implies #[trigger] post.kitty_of(
            d,
        ) == self.kitty_of(d) by {
            let i = self.kitty_idx(d);
            assert(0 <= i < len && self.kitties@[i].dna@ == d);
            self.lemma_kitty_at(i);
            post.lemma_kitty_at(i);
        }
    }

    /// Replacing a stored kitty by one with the same DNA leaves every other
    /// DNA's lookup unchanged.
    proof fn lemma_kitties_frame_update(self, post: Pallet, n: int, k: Kitty)
        requires
            self.dnas_unique(),
            0 <= n < self.kitties@.len(),
            k.dna@ == self.kitties@[n].dna@,
            post.kitties@ == self.kitties@.update(n, k),
        ensures
            post.dnas_unique(),
            post.has_kitty(k.dna@),
            post.kitty_of(k.dna@) == k,
            forall|d: Seq<u8>| #[trigger] post.has_kitty(d) == self.has_kitty(d),
            forall|d: Seq<u8>|
                d != k.dna@ && self.has_kitty(d) ==> #[trigger] post.kitty_of(d) == self.kitty_of(
                    d,
                ),
    {
        assert forall|i: int| 0 <= i < post.dna_seq().len() implies #[trigger] post.dna_seq()[i]
            == self.dna_seq()[i] by {
            assert(post.dna_seq()[i] == post.kitties@[i].dna@);
        }
        assert(post.dnas_unique());
        post.lemma_kitty_at(n);
        assert forall|d: Seq<u8>| #[trigger] post.has_kitty(d) == self.has_kitty(d) by {
            if self.has_kitty(d) {
                let i = self.kitty_idx(d);
                assert(post.kitties@[i].dna@ == post.dna_seq()[i]);
                assert(post.kitties@[i].dna@ == d);
            }
            if post.has_kitty(d) {
                let i = post.kitty_idx(d);
                assert(self.kitties@[i].dna@ == self.dna_seq()[i]);
                assert(self.kitties@[i].dna@ == d);
            }
        }
        assert forall|d: Seq<u8>| d != k.dna@ && self.has_kitty(d) implies #[trigger] post.kitty_of(
            d,
        ) == self.kitty_of(d) by {
            let i = self.kitty_idx(d);
            assert(0 <= i < self.kitties@.len() && self.kitties@[i].dna@ == d);
            assert(i != n);
            self.lemma_kitty_at(i);
            assert(post.kitties@[i].dna@ == d);
            post.lemma_kitty_at(i);
        }
    }
}

/// Attribute immutability: a transfer changes no kitty's gender, so after any
/// number of transfers a kitty's gender is still the one it was minted with.
pub proof fn lemma_transfer_preserves_gender(
    pre: Pallet,
    post: Pallet,
    to: AccountId,
    dna: Seq<u8>,
    d: Seq<u8>,
)
    requires
        post.transferred_from(pre, to, dna),
        pre.has_kitty(d),
    ensures
        post.has_kitty(d),
        post.kitty_of(d).gender == pre.kitty_of(d).gender,
{
}

/// Removing a sequence element and inserting another at the same place is an
/// update.
proof fn lemma_remove_insert_update<A>(s: Seq<A>, i: int, a: A)
    requires
        0 <= i < s.len(),
    ensures
        s.remove(i).insert(i, a) == s.update(i, a),
{
    s.remove_ensures(i);
    s.remove(i).insert_ensures(i, a);
    assert(s.remove(i).insert(i, a) =~= s.update(i, a));
}

/// Viewing a list of DNAs commutes with appending one.
proof fn lemma_dnas_view_push(s: Seq<Dna>, d: Dna)
    ensures
        dnas_view(s.push(d)) == dnas_view(s).push(d@),
{
    assert(dnas_view(s.push(d)) =~= dnas_view(s).push(d@));
}

/// Viewing a list of DNAs commutes with swap-removal.
proof fn lemma_dnas_view_swap_removed(s: Seq<Dna>, i: int)
    requires
        0 <= i < s.len(),
    ensures
        dnas_view(swap_removed(s, i)) == swap_removed(dnas_view(s), i),
{
    assert(dnas_view(s).last() == s.last()@);
    assert(dnas_view(swap_removed(s, i)) =~= swap_removed(dnas_view(s), i));
}

/// The first position of this DNA inside a list of DNAs, if it occurs.
fn find_dna_pos(dnas: &Vec<Dna>, dna: &Dna) -> (r: Option<usize>)
    ensures
        match r {
            Some(p) => p < dnas@.len() && dnas@[p as int]@ == dna@,
            None => forall|j: int| 0 <= j < dnas@.len() ==> dnas@[j]@ != dna@,
        },
{
    let n = dnas.len();
    for i in 0..n
        invariant
            n == dnas@.len(),
            forall|j: int| 0 <= j < i ==> dnas@[j]@ != dna@,
    {
        if dna_eq(&dnas[i], dna) {
            return Some(i);
        }
    }
    None
}

/// What swap-removal keeps: one occurrence of the removed element is gone,
/// everything else stays, and a duplicate-free sequence stays duplicate-free.
proof fn lemma_swap_removed_props<A>(s: Seq<A>, i: int)
    requires
        0 <= i < s.len(),
        s.no_duplicates(),
    ensures
        swap_removed(s, i).len() == s.len() - 1,
        swap_removed(s, i).no_duplicates(),
        forall|x: A| #[trigger] swap_removed(s, i).contains(x) <==> (s.contains(x) && x != s[i]),
{
    let t = swap_removed(s, i);
    let len = s.len() as int;
    assert forall|j: int| 0 <= j < t.len() implies #[trigger] t[j] == (if j == i {
        s[len - 1]
    } else {
        s[j]
    }) by {}
    assert forall|j1: int, j2: int|
        0 <= j1 < t.len() && 0 <= j2 < t.len() && j1 != j2 implies t[j1] != t[j2] by {
        let m1: int = if j1 == i { len - 1 } else { j1 };
        let m2: int = if j2 == i { len - 1 } else { j2 };
        assert(t[j1] == s[m1]);
        assert(t[j2] == s[m2]);
        assert(m1 != m2);
    }
    assert(t.no_duplicates());
    assert forall|x: A| #[trigger] t.contains(x) <==> (s.contains(x) && x != s[i]) by {
        if t.contains(x) {
            let j = choose|j: int| 0 <= j < t.len() && t[j] == x;
            let m: int = if j == i { len - 1 } else { j };
            assert(s[m] == x);
            assert(m != i);
            assert(s[i] != s[m]);
        }
        if s.contains(x) && x != s[i] {
            let m = choose|m: int| 0 <= m < s.len() && s[m] == x;
            assert(m != i);
            if m == len - 1 {
                assert(i < len - 1);
                assert(t[i] == x);
                assert(t.contains(x));
            } else {
                assert(t[m] == x);
                assert(t.contains(x));
            }
        }
    }
}

} // verus!
