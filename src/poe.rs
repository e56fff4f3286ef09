//! A registry of claims: each claim is a byte string registered to the
//! account that made it, with the block it was made in.
use vstd::prelude::*;

verus! {

/// The account that makes claims.
pub type AccountId = u64;

/// The number of a block.
pub type BlockNumber = u64;

/// Who holds a claim, and since which block.
#[derive(Clone, Copy, Debug, PartialEq, Eq)]
pub struct ClaimRecord {
    pub owner: AccountId,
    pub block_number: BlockNumber,
}

/// What an operation that went through reports.
#[derive(Clone, Debug, PartialEq, Eq)]
pub enum Event {
    /// `(owner, claim)`
    ClaimCreated(AccountId, Vec<u8>),
    /// `(sender, claim)`
    ClaimRevoked(AccountId, Vec<u8>),
}

/// Why an operation was refused.
#[derive(Clone, Copy, Debug, PartialEq, Eq, Structural)]
pub enum Error {
    /// The claim is registered already.
    ProofAlreadyExist,
    /// The claim is not registered.
    ClaimNotExist,
    /// The sender does not hold the claim.
    NotClaimOwner,
}

/// The mathematical state of a claim registry.
pub struct PoeView {
    pub proofs: Map<Seq<u8>, ClaimRecord>,
    pub events: Seq<Event>,
}

/// The claim registry: each claim once, with its record, and the events
/// reported so far.
pub struct Pallet {
    entries: Vec<(Vec<u8>, ClaimRecord)>,
    proofs: Ghost<Map<Seq<u8>, ClaimRecord>>,
    events: Vec<Event>,
}

impl View for Pallet {
    type V = PoeView;

    closed spec fn view(&self) -> PoeView {
        PoeView { proofs: self.proofs@, events: self.events@ }
    }
}

/// Whether two byte strings are equal.
fn same_bytes(a: &Vec<u8>, b: &Vec<u8>) -> (r: bool)
    ensures
        r == (a@ == b@),
{
    if a.len() != b.len() {
        return false;
    }
    let mut i: usize = 0;
    while i < a.len()
        invariant
            a@.len() == b@.len(),
            i <= a@.len(),
            forall|k: int| 0 <= k < i ==> a@[k] == b@[k],
        decreases a@.len() - i,
    {
        if a[i] != b[i] {
            return false;
        }
        i += 1;
    }
    assert(a@ =~= b@);
    true
}

impl Pallet {
    /// The entries hold each claim once, and exactly the claims of the view,
    /// with their records.
    pub closed spec fn wf(&self) -> bool {
        &&& forall|i: int, j: int|
            0 <= i < j < self.entries@.len() ==> #[trigger] self.entries@[i].0@
                != #[trigger] self.entries@[j].0@
        &&& forall|i: int|
            0 <= i < self.entries@.len() ==> #[trigger] self.proofs@.contains_key(
                self.entries@[i].0@,
            ) && self.proofs@[self.entries@[i].0@] == self.entries@[i].1
        &&& forall|k: Seq<u8>| #[trigger]
            self.proofs@.contains_key(k) ==> exists|i: int|
                0 <= i < self.entries@.len() && #[trigger] self.entries@[i].0@ == k
    }

    /// An empty registry.
    pub fn new() -> (r: Pallet)
        ensures
            r.wf(),
            r@.proofs == Map::<Seq<u8>, ClaimRecord>::empty(),
            r@.events == Seq::<Event>::empty(),
    {
        Pallet { entries: Vec::new(), proofs: Ghost(Map::empty()), events: Vec::new() }
    }

    /// The position of `claim` in the entries, where it is registered.
    fn find(&self, claim: &Vec<u8>) -> (r: Option<usize>)
        requires
            self.wf(),
        ensures
            r is Some <==> self@.proofs.contains_key(claim@),
            r matches Some(i) ==> i < self.entries@.len() && self.entries@[i as int].0@ == claim@,
    {
        let mut i: usize = 0;
        while i < self.entries.len()
            invariant
                self.wf(),
                i <= self.entries@.len(),
                forall|k: int| 0 <= k < i ==> self.entries@[k].0@ != claim@,
            decreases self.entries@.len() - i,
        {
            if same_bytes(&self.entries[i].0, claim) {
                return Some(i);
            }
            i += 1;
        }
        proof {
            if self@.proofs.contains_key(claim@) {
                let j = choose|j: int|
                    0 <= j < self.entries@.len() && #[trigger] self.entries@[j].0@ == claim@;
                assert(self.entries@[j].0@ == claim@);
            }
        }
        None
    }

    /// The record of `claim`, where it is registered.
    pub fn proofs(&self, claim: &Vec<u8>) -> (r: Option<ClaimRecord>)
        requires
            self.wf(),
        ensures
            r is Some <==> self@.proofs.contains_key(claim@),
            r matches Some(c) ==> c == self@.proofs[claim@],
    {
        match self.find(claim) {
            Some(i) => Some(self.entries[i].1),
            None => None,
        }
    }

    /// The events reported so far, oldest first.
    pub fn events(&self) -> (r: &Vec<Event>)
        ensures
            r@ == self@.events,
    {
        &self.events
    }

    /// Registers `claim` to `sender` at `block_number`; refused where it is
    /// registered already.
    pub fn create_claim(
        &mut self,
        sender: AccountId,
        claim: Vec<u8>,
        block_number: BlockNumber,
    ) -> (r: Result<(), Error>)
        requires
            old(self).wf(),
        ensures
            final(self).wf(),
            old(self)@.proofs.contains_key(claim@) ==> r == Err::<(), Error>(
                Error::ProofAlreadyExist,
            ) && final(self)@ == old(self)@,
            !old(self)@.proofs.contains_key(claim@) ==> r == Ok::<(), Error>(()) && final(self)@
                == (PoeView {
                proofs: old(self)@.proofs.insert(
                    claim@,
                    ClaimRecord { owner: sender, block_number },
                ),
                events: old(self)@.events.push(Event::ClaimCreated(sender, claim)),
            }),
    {
        if self.find(&claim).is_some() {
            return Err(Error::ProofAlreadyExist);
        }
        let record = ClaimRecord { owner: sender, block_number };
        let key = claim.clone();
        let ghost old_entries = self.entries@;
        self.entries.push((key, record));
        self.proofs = Ghost(self.proofs@.insert(claim@, record));
        self.events.push(Event::ClaimCreated(sender, claim));
        proof {
            let n = old_entries.len() as int;
            assert forall|i: int| 0 <= i < self.entries@.len() implies #[trigger] self.proofs@.contains_key(
                self.entries@[i].0@,
            ) && self.proofs@[self.entries@[i].0@] == self.entries@[i].1 by {
                if i < n {
                    assert(self.entries@[i] == old_entries[i]);
                }
            }
            assert forall|k: Seq<u8>| #[trigger] self.proofs@.contains_key(k) implies exists|i: int|
                0 <= i < self.entries@.len() && #[trigger] self.entries@[i].0@ == k by {
                if k == self.entries@[n].0@ {
                    assert(self.entries@[n].0@ == k);
                } else {
                    let j = choose|j: int| 0 <= j < old_entries.len() && #[trigger] old_entries[j].0@ == k;
                    assert(self.entries@[j] == old_entries[j]);
                }
            }
        }
        Ok(())
    }

    /// Removes `claim`, which `sender` holds; refused where it is not
    /// registered, or held by another account.
    pub fn revoke_claim(&mut self, sender: AccountId, claim: Vec<u8>) -> (r: Result<(), Error>)
        requires
            old(self).wf(),
        ensures
            final(self).wf(),
            !old(self)@.proofs.contains_key(claim@) ==> r == Err::<(), Error>(Error::ClaimNotExist)
                && final(self)@ == old(self)@,
            old(self)@.proofs.contains_key(claim@) && old(self)@.proofs[claim@].owner != sender
                ==> r == Err::<(), Error>(Error::NotClaimOwner) && final(self)@ == old(self)@,
            old(self)@.proofs.contains_key(claim@) && old(self)@.proofs[claim@].owner == sender
                ==> r == Ok::<(), Error>(()) && final(self)@ == (PoeView {
                proofs: old(self)@.proofs.remove(claim@),
                events: old(self)@.events.push(Event::ClaimRevoked(sender, claim)),
            }),
    {
        let i = match self.find(&claim) {
            Some(i) => i,
            None => return Err(Error::ClaimNotExist),
        };
        if self.entries[i].1.owner != sender {
            return Err(Error::NotClaimOwner);
        }
        let ghost old_entries = self.entries@;
        let ghost old_proofs = self.proofs@;
        let _ = self.entries.swap_remove(i);
        self.proofs = Ghost(self.proofs@.remove(claim@));
        self.events.push(Event::ClaimRevoked(sender, claim));
        proof {
            let n = old_entries.len() - 1;
            assert forall|a: int| 0 <= a < self.entries@.len() implies self.entries@[a] == if a
                == i {
                old_entries[n]
            } else {
                old_entries[a]
            } by {}
            assert forall|a: int, b: int| 0 <= a < b < self.entries@.len() implies #[trigger] self.entries@[a].0@
                != #[trigger] self.entries@[b].0@ by {
                if a == i {
                    assert(old_entries[n].0@ != old_entries[b].0@);
                } else if b == i {
                    assert(old_entries[a].0@ != old_entries[n].0@);
                } else {
                    assert(old_entries[a].0@ != old_entries[b].0@);
                }
            }
            assert forall|a: int| 0 <= a < self.entries@.len() implies #[trigger] self.proofs@.contains_key(
                self.entries@[a].0@,
            ) && self.proofs@[self.entries@[a].0@] == self.entries@[a].1 by {
                if a == i {
                    assert(old_entries[n].0@ != old_entries[i as int].0@);
                    assert(old_proofs.contains_key(old_entries[n].0@));
                } else {
                    assert(old_entries[a].0@ != old_entries[i as int].0@);
                    assert(old_proofs.contains_key(old_entries[a].0@));
                }
            }
            assert forall|k: Seq<u8>| #[trigger] self.proofs@.contains_key(k) implies exists|a: int|
                0 <= a < self.entries@.len() && #[trigger] self.entries@[a].0@ == k by {
                assert(old_proofs.contains_key(k));
                let j = choose|j: int| 0 <= j < old_entries.len() && #[trigger] old_entries[j].0@ == k;
                assert(j != i);
                if j == n {
                    assert(self.entries@[i as int].0@ == k);
                } else {
                    assert(self.entries@[j].0@ == k);
                }
            }
        }
        Ok(())
    }

    /// Registers `claim` anew to its holder `sender` at `block_number`;
    /// refused where it is not registered, or held by another account.
    pub fn transfer_claim(
        &mut self,
        sender: AccountId,
        claim: Vec<u8>,
        block_number: BlockNumber,
    ) -> (r: Result<(), Error>)
        requires
            old(self).wf(),
        ensures
            final(self).wf(),
            !old(self)@.proofs.contains_key(claim@) ==> r == Err::<(), Error>(Error::ClaimNotExist)
                && final(self)@ == old(self)@,
            old(self)@.proofs.contains_key(claim@) && old(self)@.proofs[claim@].owner != sender
                ==> r == Err::<(), Error>(Error::NotClaimOwner) && final(self)@ == old(self)@,
            old(self)@.proofs.contains_key(claim@) && old(self)@.proofs[claim@].owner == sender
                ==> r == Ok::<(), Error>(()) && final(self)@ == (PoeView {
                proofs: old(self)@.proofs.insert(
                    claim@,
                    ClaimRecord { owner: sender, block_number },
                ),
                ..old(self)@
            }),
    {
        let i = match self.find(&claim) {
            Some(i) => i,
            None => return Err(Error::ClaimNotExist),
        };
        if self.entries[i].1.owner != sender {
            return Err(Error::NotClaimOwner);
        }
        let record = ClaimRecord { owner: sender, block_number };
        let ghost old_entries = self.entries@;
        self.entries.set(i, (claim, record));
        self.proofs = Ghost(self.proofs@.insert(self.entries@[i as int].0@, record));
        proof {
            assert forall|a: int, b: int| 0 <= a < b < self.entries@.len() implies #[trigger] self.entries@[a].0@
                != #[trigger] self.entries@[b].0@ by {
                assert(old_entries[a].0@ != old_entries[b].0@);
            }
            assert forall|a: int| 0 <= a < self.entries@.len() implies #[trigger] self.proofs@.contains_key(
                self.entries@[a].0@,
            ) && self.proofs@[self.entries@[a].0@] == self.entries@[a].1 by {
                if a != i {
                    assert(old_entries[a].0@ != old_entries[i as int].0@);
                }
            }
            assert forall|k: Seq<u8>| #[trigger] self.proofs@.contains_key(k) implies exists|a: int|
                0 <= a < self.entries@.len() && #[trigger] self.entries@[a].0@ == k by {
                if k == self.entries@[i as int].0@ {
                } else {
                    let j = choose|j: int| 0 <= j < old_entries.len() && #[trigger] old_entries[j].0@ == k;
                    assert(self.entries@[j].0@ == k);
                }
            }
        }
        Ok(())
    }
}

} // verus!
