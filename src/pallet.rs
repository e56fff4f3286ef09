//! The kitty registry and its five operations: create, transfer, breed, buy
//! and sell. Each operation checks all of its conditions before it changes
//! anything, so a refused operation leaves the registry and the ledger as
//! they were.
use vstd::prelude::*;
use std::collections::HashMap;
use crate::balances::{Balances, LedgerView};
use crate::dna::{blake2_128_of, mix_dna, mixed, random_value, seed_payload, SeedContext};

verus! {

broadcast use vstd::std_specs::hash::group_hash_axioms;

/// The id of a kitty; ids are handed out from 1 upwards.
pub type KittyIndex = u32;

/// The account that owns or trades kitties.
pub type AccountId = u64;

/// An amount of funds.
pub type Balance = u128;

/// A kitty: its dna and the price that its owner keeps reserved.
#[derive(Clone, Copy, Debug, PartialEq, Eq)]
pub struct Kitty {
    pub dna: [u8; 16],
    pub price: Balance,
}

/// What an operation that went through reports.
#[derive(Clone, Copy, Debug, PartialEq, Eq, Structural)]
pub enum Event {
    /// `(owner, id)`: a kitty was created or bred.
    KittyCreate(AccountId, KittyIndex),
    /// `(from, to, id)`
    KittyTransfer(AccountId, AccountId, KittyIndex),
    /// `(seller, buyer, id)`
    KittyBuy(AccountId, AccountId, KittyIndex),
    /// `(seller, buyer, id)`
    KittySell(AccountId, AccountId, KittyIndex),
}

/// Why an operation was refused.
#[derive(Clone, Copy, Debug, PartialEq, Eq, Structural)]
pub enum Error {
    /// No further id can be handed out.
    KittiesCountOverflow,
    /// The account named is not the kitty's owner.
    NotOwner,
    /// Both parents of a breeding are the same kitty.
    SameParentIndex,
    /// No kitty has this id.
    InvalidKittyIndex,
    /// An account cannot reserve or pay the amount needed.
    NotEnoughBalance,
}

/// The settings of a registry.
#[derive(Clone, Copy, Debug, PartialEq, Eq)]
pub struct Config {
    /// Every id handed out is below this bound.
    pub max_kitty_index_length: u32,
}

/// The mathematical state of a registry.
pub struct PalletView {
    pub count: u32,
    pub kitties: Map<KittyIndex, Kitty>,
    pub owner: Map<KittyIndex, AccountId>,
    pub max_kitty_index_length: u32,
    pub events: Seq<Event>,
}

impl PalletView {
    /// Every kitty has an owner and an id in `1..=count`, so `count + 1` is free.
    pub open spec fn wf(self) -> bool {
        &&& self.owner.dom() == self.kitties.dom()
        &&& forall|id: KittyIndex| #[trigger]
            self.kitties.contains_key(id) ==> 1 <= id <= self.count
    }

    /// The ids in use are exactly `1..=count`.
    pub open spec fn dense(self) -> bool {
        forall|id: KittyIndex| #[trigger]
            self.kitties.contains_key(id) <==> 1 <= id <= self.count
    }

    pub open spec fn owned_by(self, id: KittyIndex, who: AccountId) -> bool {
        self.owner.contains_key(id) && self.owner[id] == who
    }

    /// The id that the next kitty gets.
    pub open spec fn next_id(self) -> int {
        self.count + 1
    }

    /// Whether no further id can be handed out: the counter would overflow,
    /// or the next id is not below the configured bound.
    pub open spec fn count_exhausted(self) -> bool {
        self.count == u32::MAX || self.next_id() >= self.max_kitty_index_length
    }

    /// The registry after kitty `id` is added for `who`: the counter moves
    /// to `id` and both maps gain it; nothing else changes.
    pub open spec fn add_kitty(self, id: KittyIndex, kitty: Kitty, who: AccountId) -> PalletView {
        PalletView {
            count: id,
            kitties: self.kitties.insert(id, kitty),
            owner: self.owner.insert(id, who),
            ..self
        }
    }

    /// The registry after `event` is reported.
    pub open spec fn report(self, event: Event) -> PalletView {
        PalletView { events: self.events.push(event), ..self }
    }

    /// `next` is `self` with one kitty added for `who` under the next id,
    /// with dna `dna` and price `price`, and its creation reported.
    pub open spec fn added(
        self,
        next: PalletView,
        who: AccountId,
        price: Balance,
        dna: Seq<u8>,
    ) -> bool {
        let id = self.next_id() as KittyIndex;
        &&& next.kitties.contains_key(id)
        &&& next.kitties[id].dna@ == dna
        &&& next.kitties[id].price == price
        &&& next == self.add_kitty(id, next.kitties[id], who).report(Event::KittyCreate(who, id))
    }

    /// The registry after kitty `id` passes to `who`; nothing else changes.
    pub open spec fn set_owner(self, id: KittyIndex, who: AccountId) -> PalletView {
        PalletView { owner: self.owner.insert(id, who), ..self }
    }

    /// Every kitty of `self` is still in `next`, with the same dna and price.
    pub open spec fn kitties_kept(self, next: PalletView) -> bool {
        forall|id: KittyIndex| #[trigger]
            self.kitties.contains_key(id) ==> next.kitties.contains_key(id) && next.kitties[id]
                == self.kitties[id]
    }

    /// `next` follows `self` by an operation that went through: one that
    /// created kitty `id` (`Some(id)`), or one that only passed a kitty on
    /// (`None`).
    pub open spec fn succeeded(self, next: PalletView, created: Option<KittyIndex>) -> bool {
        match created {
            Some(id) => {
                &&& !self.count_exhausted()
                &&& id == self.next_id()
                &&& exists|who: AccountId, price: Balance, dna: Seq<u8>| #[trigger]
                    self.added(next, who, price, dna)
            },
            None => exists|id: KittyIndex, who: AccountId, e: Event|
                self.kitties.contains_key(id) && #[trigger] self.set_owner(id, who).report(e)
                    == next,
        }
    }

    /// The first condition of `create` that fails, in the order checked.
    pub open spec fn create_error(
        self,
        ledger: LedgerView,
        who: AccountId,
        price: Balance,
    ) -> Option<Error> {
        if self.count_exhausted() {
            Some(Error::KittiesCountOverflow)
        } else if !ledger.can_reserve(who, price) {
            Some(Error::NotEnoughBalance)
        } else {
            None
        }
    }

    /// The first condition of `transfer` that fails, in the order checked.
    pub open spec fn transfer_error(
        self,
        ledger: LedgerView,
        who: AccountId,
        new_owner: AccountId,
        id: KittyIndex,
    ) -> Option<Error> {
        if !self.kitties.contains_key(id) {
            Some(Error::InvalidKittyIndex)
        } else if !self.owned_by(id, who) {
            Some(Error::NotOwner)
        } else if !ledger.can_reserve(new_owner, self.kitties[id].price) {
            Some(Error::NotEnoughBalance)
        } else {
            None
        }
    }

    /// The first condition of `breed` that fails, in the order checked.
    pub open spec fn breed_error(
        self,
        ledger: LedgerView,
        who: AccountId,
        id1: KittyIndex,
        id2: KittyIndex,
        price: Balance,
    ) -> Option<Error> {
        if id1 == id2 {
            Some(Error::SameParentIndex)
        } else if !self.kitties.contains_key(id1) || !self.kitties.contains_key(id2) {
            Some(Error::InvalidKittyIndex)
        } else if !self.owned_by(id1, who) || !self.owned_by(id2, who) {
            Some(Error::NotOwner)
        } else if self.count_exhausted() {
            Some(Error::KittiesCountOverflow)
        } else if !ledger.can_reserve(who, price) {
            Some(Error::NotEnoughBalance)
        } else {
            None
        }
    }

    /// The first condition of a sale of kitty `id` by `seller` to `buyer`
    /// that fails, in the order checked: the kitty exists, `seller` owns it,
    /// `buyer` could reserve its price, and the price can be paid from
    /// `seller` to `buyer` once `seller`'s reservation is released.
    pub open spec fn trade_error(
        self,
        ledger: LedgerView,
        seller: AccountId,
        buyer: AccountId,
        id: KittyIndex,
    ) -> Option<Error> {
        if !self.kitties.contains_key(id) {
            Some(Error::InvalidKittyIndex)
        } else if !self.owned_by(id, seller) {
            Some(Error::NotOwner)
        } else if !ledger.can_reserve(buyer, self.kitties[id].price) {
            Some(Error::NotEnoughBalance)
        } else if ledger.unreserve(seller, self.kitties[id].price).transfer_error(
            seller,
            buyer,
            self.kitties[id].price,
        ) is Some {
            Some(Error::NotEnoughBalance)
        } else {
            None
        }
    }

    /// The ledger after a sale of kitty `id` from `seller` to `buyer`.
    pub open spec fn trade_ledger(
        self,
        ledger: LedgerView,
        seller: AccountId,
        buyer: AccountId,
        id: KittyIndex,
    ) -> LedgerView {
        let price = self.kitties[id].price;
        ledger.unreserve(seller, price).transfer(seller, buyer, price)
    }
}

/// The registry: the kitty counter, the kitties, their owners, and the
/// events reported so far.
pub struct Pallet {
    count: u32,
    kitties: HashMap<KittyIndex, Kitty>,
    owner: HashMap<KittyIndex, AccountId>,
    max_kitty_index_length: u32,
    events: Vec<Event>,
}

impl View for Pallet {
    type V = PalletView;

    closed spec fn view(&self) -> PalletView {
        PalletView {
            count: self.count,
            kitties: self.kitties@,
            owner: self.owner@,
            max_kitty_index_length: self.max_kitty_index_length,
            events: self.events@,
        }
    }
}

impl Pallet {
    /// An empty registry.
    pub fn new(config: Config) -> (r: Pallet)
        ensures
            r@.wf(),
            r@.dense(),
            r@.count == 0,
            r@.kitties == Map::<KittyIndex, Kitty>::empty(),
            r@.owner == Map::<KittyIndex, AccountId>::empty(),
            r@.max_kitty_index_length == config.max_kitty_index_length,
            r@.events == Seq::<Event>::empty(),
    {
        Pallet {
            count: 0,
            kitties: HashMap::new(),
            owner: HashMap::new(),
            max_kitty_index_length: config.max_kitty_index_length,
            events: Vec::new(),
        }
    }
}


impl Pallet {
    /// The id that the next kitty gets, or `None` where the counter is spent.
    fn next_kitty_id(&self) -> (r: Option<KittyIndex>)
        ensures
            self@.count_exhausted() <==> r is None,
            r matches Some(id) ==> id == self@.next_id(),
    {
        if self.count == u32::MAX {
            return None;
        }
        let id = self.count + 1;
        if id < self.max_kitty_index_length {
            Some(id)
        } else {
            None
        }
    }

    /// Adds kitty `id` for `who` and moves the counter to it.
    fn create_kitty(&mut self, id: KittyIndex, dna: [u8; 16], price: Balance, who: AccountId)
        requires
            old(self)@.wf(),
            !old(self)@.count_exhausted(),
            id == old(self)@.next_id(),
        ensures
            final(self)@ == old(self)@.add_kitty(id, Kitty { dna, price }, who),
            final(self)@.wf(),
    {
        self.kitties.insert(id, Kitty { dna, price });
        self.owner.insert(id, who);
        self.count = id;
        proof {
            let v = self@;
            assert(v.owner.dom() =~= v.kitties.dom());
        }
    }

    proof fn lemma_add_kitty(self, id: KittyIndex, kitty: Kitty, who: AccountId)
        requires
            self@.wf(),
            !self@.count_exhausted(),
            id == self@.next_id(),
        ensures
            self@.kitties_kept(self@.add_kitty(id, kitty, who)),
            self@.dense() ==> self@.add_kitty(id, kitty, who).dense(),
            !self@.kitties.contains_key(id),
    {
    }

    /// Creates a kitty with the given dna for `who`, reserving `price` from
    /// it; the kitty gets the next id, which is returned.
    pub fn create_with_dna(
        &mut self,
        escrow: &mut Balances,
        who: AccountId,
        price: Balance,
        dna: [u8; 16],
    ) -> (r: Result<KittyIndex, Error>)
        requires
            old(self)@.wf(),
            old(escrow)@.wf(),
        ensures
            r matches Ok(id) ==> old(self)@.succeeded(final(self)@, Some(id)),
            final(self)@.wf(),
            final(escrow)@.wf(),
            old(self)@.kitties_kept(final(self)@),
            old(self)@.dense() ==> final(self)@.dense(),
            match old(self)@.create_error(old(escrow)@, who, price) {
                Some(e) => r == Err::<KittyIndex, Error>(e) && final(self)@ == old(self)@
                    && final(escrow)@ == old(escrow)@,
                None => r == Ok::<KittyIndex, Error>(old(self)@.next_id() as KittyIndex)
                    && old(self)@.added(final(self)@, who, price, dna@)
                    && final(escrow)@ == old(escrow)@.reserve(who, price),
            },
    {
        let id = match self.next_kitty_id() {
            Some(id) => id,
            None => return Err(Error::KittiesCountOverflow),
        };
        if !escrow.can_reserve(who, price) {
            return Err(Error::NotEnoughBalance);
        }
        let _ = escrow.reserve(who, price);
        proof {
            self.lemma_add_kitty(id, Kitty { dna, price }, who);
        }
        self.create_kitty(id, dna, price, who);
        self.events.push(Event::KittyCreate(who, id));
        proof {
            assert(old(self)@.added(self@, who, price, dna@));
        }
        Ok(id)
    }

    /// Creates a kitty for `who`, reserving `price` from it. Its dna is the
    /// random value drawn for `who` under `seed`; it gets the next id, which
    /// is returned.
    pub fn create(
        &mut self,
        escrow: &mut Balances,
        who: AccountId,
        price: Balance,
        seed: &SeedContext,
    ) -> (r: Result<KittyIndex, Error>)
        requires
            old(self)@.wf(),
            old(escrow)@.wf(),
        ensures
            r matches Ok(id) ==> old(self)@.succeeded(final(self)@, Some(id)),
            final(self)@.wf(),
            final(escrow)@.wf(),
            old(self)@.kitties_kept(final(self)@),
            old(self)@.dense() ==> final(self)@.dense(),
            match old(self)@.create_error(old(escrow)@, who, price) {
                Some(e) => r == Err::<KittyIndex, Error>(e) && final(self)@ == old(self)@
                    && final(escrow)@ == old(escrow)@,
                None => r == Ok::<KittyIndex, Error>(old(self)@.next_id() as KittyIndex)
                    && old(self)@.added(
                    final(self)@,
                    who,
                    price,
                    blake2_128_of(seed_payload(*seed, who)),
                )
                    && final(escrow)@ == old(escrow)@.reserve(who, price),
            },
    {
        let dna = random_value(seed, who);
        let r = self.create_with_dna(escrow, who, price, dna);
        proof {
            if r is Ok {
                assert(old(self)@.added(self@, who, price, dna@));
            }
        }
        r
    }
}


impl Pallet {
    /// Looks up kitty `id`.
    fn kitty_of(&self, id: KittyIndex) -> (r: Option<Kitty>)
        ensures
            r is Some <==> self@.kitties.contains_key(id),
            r matches Some(k) ==> k == self@.kitties[id],
    {
        match self.kitties.get(&id) {
            Some(k) => Some(*k),
            None => None,
        }
    }

    /// Whether `who` owns kitty `id`.
    fn is_owner(&self, id: KittyIndex, who: AccountId) -> (r: bool)
        ensures
            r == self@.owned_by(id, who),
    {
        match self.owner.get(&id) {
            Some(o) => *o == who,
            None => false,
        }
    }

    /// Passes kitty `id` to `who` and reports `event`.
    fn pass_kitty(&mut self, id: KittyIndex, who: AccountId, event: Event)
        requires
            old(self)@.wf(),
            old(self)@.kitties.contains_key(id),
        ensures
            final(self)@ == old(self)@.set_owner(id, who).report(event),
            final(self)@.wf(),
            old(self)@.kitties_kept(final(self)@),
            old(self)@.dense() ==> final(self)@.dense(),
    {
        self.owner.insert(id, who);
        self.events.push(event);
        proof {
            let v = self@;
            assert(v.owner.dom() =~= v.kitties.dom());
        }
    }

    /// Passes kitty `id` from its owner `who` to `new_owner`: the price that
    /// `who` had reserved for it is released and `new_owner` reserves it.
    pub fn transfer(
        &mut self,
        escrow: &mut Balances,
        who: AccountId,
        new_owner: AccountId,
        id: KittyIndex,
    ) -> (r: Result<(), Error>)
        requires
            old(self)@.wf(),
            old(escrow)@.wf(),
        ensures
            r is Ok ==> old(self)@.succeeded(final(self)@, None),
            final(self)@.wf(),
            final(escrow)@.wf(),
            old(self)@.kitties_kept(final(self)@),
            old(self)@.dense() ==> final(self)@.dense(),
            match old(self)@.transfer_error(old(escrow)@, who, new_owner, id) {
                Some(e) => r == Err::<(), Error>(e) && final(self)@ == old(self)@
                    && final(escrow)@ == old(escrow)@,
                None => r == Ok::<(), Error>(())
                    && final(self)@ == old(self)@.set_owner(id, new_owner).report(
                    Event::KittyTransfer(who, new_owner, id),
                ) && final(escrow)@ == old(escrow)@.unreserve(
                    who,
                    old(self)@.kitties[id].price,
                ).reserve(new_owner, old(self)@.kitties[id].price),
            },
    {
        let kitty = match self.kitty_of(id) {
            Some(k) => k,
            None => return Err(Error::InvalidKittyIndex),
        };
        if !self.is_owner(id, who) {
            return Err(Error::NotOwner);
        }
        if !escrow.can_reserve(new_owner, kitty.price) {
            return Err(Error::NotEnoughBalance);
        }
        escrow.unreserve(who, kitty.price);
        let _ = escrow.reserve(new_owner, kitty.price);
        self.pass_kitty(id, new_owner, Event::KittyTransfer(who, new_owner, id));
        proof {
            assert(old(self)@.set_owner(id, new_owner).report(
                Event::KittyTransfer(who, new_owner, id),
            ) == self@);
        }
        Ok(())
    }

    /// Sells kitty `id` from `seller` to `buyer`: `seller`'s reservation for
    /// it is released and its price paid from `seller` to `buyer`, then
    /// `buyer` owns it and `event` is reported.
    fn trade(
        &mut self,
        escrow: &mut Balances,
        seller: AccountId,
        buyer: AccountId,
        id: KittyIndex,
        event: Event,
    ) -> (r: Result<(), Error>)
        requires
            old(self)@.wf(),
            old(escrow)@.wf(),
        ensures
            r is Ok ==> old(self)@.succeeded(final(self)@, None),
            final(self)@.wf(),
            final(escrow)@.wf(),
            old(self)@.kitties_kept(final(self)@),
            old(self)@.dense() ==> final(self)@.dense(),
            match old(self)@.trade_error(old(escrow)@, seller, buyer, id) {
                Some(e) => r == Err::<(), Error>(e) && final(self)@ == old(self)@
                    && final(escrow)@ == old(escrow)@,
                None => r == Ok::<(), Error>(())
                    && final(self)@ == old(self)@.set_owner(id, buyer).report(
                    event,
                ) && final(escrow)@ == old(self)@.trade_ledger(
                    old(escrow)@,
                    seller,
                    buyer,
                    id,
                ),
            },
    {
        let kitty = match self.kitty_of(id) {
            Some(k) => k,
            None => return Err(Error::InvalidKittyIndex),
        };
        if !self.is_owner(id, seller) {
            return Err(Error::NotOwner);
        }
        if !escrow.can_reserve(buyer, kitty.price) {
            return Err(Error::NotEnoughBalance);
        }
        let left = escrow.unreserve(seller, kitty.price);
        let moved = kitty.price - left;
        match escrow.transfer_keep_alive(seller, buyer, kitty.price) {
            Ok(()) => {},
            Err(_) => {
                proof {
                    crate::balances::lemma_unreserve_then_reserve(
                        old(escrow)@,
                        seller,
                        kitty.price,
                    );
                }
                let _ = escrow.reserve(seller, moved);
                return Err(Error::NotEnoughBalance);
            },
        }
        self.pass_kitty(id, buyer, event);
        proof {
            assert(old(self)@.set_owner(id, buyer).report(event) == self@);
        }
        Ok(())
    }

    /// `who` buys kitty `id` from its owner `seller`: `seller`'s reservation
    /// for it is released, then `who` owns it. The price moves from `seller`
    /// to `who`: the buyer receives the price rather than paying it. This
    /// direction of payment is kept as the registry has always had it, and is
    /// likely a defect of its design.
    pub fn buy(
        &mut self,
        escrow: &mut Balances,
        who: AccountId,
        id: KittyIndex,
        seller: AccountId,
    ) -> (r: Result<(), Error>)
        requires
            old(self)@.wf(),
            old(escrow)@.wf(),
        ensures
            r is Ok ==> old(self)@.succeeded(final(self)@, None),
            final(self)@.wf(),
            final(escrow)@.wf(),
            old(self)@.kitties_kept(final(self)@),
            old(self)@.dense() ==> final(self)@.dense(),
            match old(self)@.trade_error(old(escrow)@, seller, who, id) {
                Some(e) => r == Err::<(), Error>(e) && final(self)@ == old(self)@
                    && final(escrow)@ == old(escrow)@,
                None => r == Ok::<(), Error>(())
                    && final(self)@ == old(self)@.set_owner(id, who).report(
                    Event::KittyBuy(seller, who, id),
                ) && final(escrow)@ == old(self)@.trade_ledger(
                    old(escrow)@,
                    seller,
                    who,
                    id,
                ),
            },
    {
        self.trade(escrow, seller, who, id, Event::KittyBuy(seller, who, id))
    }

    /// `who` sells its kitty `id` to `dest`: `who`'s reservation for it is
    /// released, then `dest` owns it. The price moves from `who` to `dest`:
    /// the party that takes the kitty also receives its price, as with `buy`.
    pub fn sell(
        &mut self,
        escrow: &mut Balances,
        who: AccountId,
        id: KittyIndex,
        dest: AccountId,
    ) -> (r: Result<(), Error>)
        requires
            old(self)@.wf(),
            old(escrow)@.wf(),
        ensures
            r is Ok ==> old(self)@.succeeded(final(self)@, None),
            final(self)@.wf(),
            final(escrow)@.wf(),
            old(self)@.kitties_kept(final(self)@),
            old(self)@.dense() ==> final(self)@.dense(),
            match old(self)@.trade_error(old(escrow)@, who, dest, id) {
                Some(e) => r == Err::<(), Error>(e) && final(self)@ == old(self)@
                    && final(escrow)@ == old(escrow)@,
                None => r == Ok::<(), Error>(())
                    && final(self)@ == old(self)@.set_owner(id, dest).report(
                    Event::KittySell(who, dest, id),
                ) && final(escrow)@ == old(self)@.trade_ledger(
                    old(escrow)@,
                    who,
                    dest,
                    id,
                ),
            },
    {
        self.trade(escrow, who, dest, id, Event::KittySell(who, dest, id))
    }
}


impl Pallet {
    /// Breeds kitties `id1` and `id2` of `who` into a new kitty of `who`,
    /// reserving `price` from it. Each bit of the new dna is taken from
    /// `id1`'s dna where `selector` has a one and from `id2`'s where it has a
    /// zero; the new kitty gets the next id, which is returned.
    pub fn breed_with_selector(
        &mut self,
        escrow: &mut Balances,
        who: AccountId,
        id1: KittyIndex,
        id2: KittyIndex,
        price: Balance,
        selector: [u8; 16],
    ) -> (r: Result<KittyIndex, Error>)
        requires
            old(self)@.wf(),
            old(escrow)@.wf(),
        ensures
            r matches Ok(id) ==> old(self)@.succeeded(final(self)@, Some(id)),
            final(self)@.wf(),
            final(escrow)@.wf(),
            old(self)@.kitties_kept(final(self)@),
            old(self)@.dense() ==> final(self)@.dense(),
            match old(self)@.breed_error(old(escrow)@, who, id1, id2, price) {
                Some(e) => r == Err::<KittyIndex, Error>(e) && final(self)@ == old(self)@
                    && final(escrow)@ == old(escrow)@,
                None => r == Ok::<KittyIndex, Error>(old(self)@.next_id() as KittyIndex)
                    && old(self)@.added(
                    final(self)@,
                    who,
                    price,
                    mixed(selector@, old(self)@.kitties[id1].dna@, old(self)@.kitties[id2].dna@),
                ) && final(escrow)@ == old(escrow)@.reserve(who, price),
            },
    {
        if id1 == id2 {
            return Err(Error::SameParentIndex);
        }
        let kitty1 = match self.kitty_of(id1) {
            Some(k) => k,
            None => return Err(Error::InvalidKittyIndex),
        };
        let kitty2 = match self.kitty_of(id2) {
            Some(k) => k,
            None => return Err(Error::InvalidKittyIndex),
        };
        if !self.is_owner(id1, who) || !self.is_owner(id2, who) {
            return Err(Error::NotOwner);
        }
        let id = match self.next_kitty_id() {
            Some(id) => id,
            None => return Err(Error::KittiesCountOverflow),
        };
        let new_dna = mix_dna(&selector, &kitty1.dna, &kitty2.dna);
        if !escrow.can_reserve(who, price) {
            return Err(Error::NotEnoughBalance);
        }
        let _ = escrow.reserve(who, price);
        proof {
            self.lemma_add_kitty(id, Kitty { dna: new_dna, price }, who);
        }
        self.create_kitty(id, new_dna, price, who);
        self.events.push(Event::KittyCreate(who, id));
        proof {
            assert(old(self)@.added(self@, who, price, new_dna@));
        }
        Ok(id)
    }

    /// Breeds kitties `id1` and `id2` of `who` into a new kitty of `who`,
    /// reserving `price` from it. The selector that picks each bit of the new
    /// dna from the parents is the random value drawn for `who` under `seed`;
    /// the new kitty gets the next id, which is returned.
    pub fn breed(
        &mut self,
        escrow: &mut Balances,
        who: AccountId,
        id1: KittyIndex,
        id2: KittyIndex,
        price: Balance,
        seed: &SeedContext,
    ) -> (r: Result<KittyIndex, Error>)
        requires
            old(self)@.wf(),
            old(escrow)@.wf(),
        ensures
            r matches Ok(id) ==> old(self)@.succeeded(final(self)@, Some(id)),
            final(self)@.wf(),
            final(escrow)@.wf(),
            old(self)@.kitties_kept(final(self)@),
            old(self)@.dense() ==> final(self)@.dense(),
            match old(self)@.breed_error(old(escrow)@, who, id1, id2, price) {
                Some(e) => r == Err::<KittyIndex, Error>(e) && final(self)@ == old(self)@
                    && final(escrow)@ == old(escrow)@,
                None => r == Ok::<KittyIndex, Error>(old(self)@.next_id() as KittyIndex)
                    && old(self)@.added(
                    final(self)@,
                    who,
                    price,
                    mixed(
                        blake2_128_of(seed_payload(*seed, who)),
                        old(self)@.kitties[id1].dna@,
                        old(self)@.kitties[id2].dna@,
                    ),
                ) && final(escrow)@ == old(escrow)@.reserve(who, price),
            },
    {
        let selector = random_value(seed, who);
        let r = self.breed_with_selector(escrow, who, id1, id2, price, selector);
        proof {
            if r is Ok {
                let dna = mixed(
                    selector@,
                    old(self)@.kitties[id1].dna@,
                    old(self)@.kitties[id2].dna@,
                );
                assert(old(self)@.added(self@, who, price, dna));
            }
        }
        r
    }

    /// The number of ids handed out so far; the last kitty created has it as
    /// its id.
    pub fn kitties_count(&self) -> (r: u32)
        ensures
            r == self@.count,
    {
        self.count
    }

    /// Kitty `id`, where it exists.
    pub fn kitties(&self, id: KittyIndex) -> (r: Option<Kitty>)
        ensures
            r is Some <==> self@.kitties.contains_key(id),
            r matches Some(k) ==> k == self@.kitties[id],
    {
        self.kitty_of(id)
    }

    /// The owner of kitty `id`, where it exists.
    pub fn owner(&self, id: KittyIndex) -> (r: Option<AccountId>)
        ensures
            r is Some <==> self@.owner.contains_key(id),
            r matches Some(o) ==> o == self@.owner[id],
    {
        match self.owner.get(&id) {
            Some(o) => Some(*o),
            None => None,
        }
    }

    /// The bound that every id handed out stays below.
    pub fn max_kitty_index_length(&self) -> (r: u32)
        ensures
            r == self@.max_kitty_index_length,
    {
        self.max_kitty_index_length
    }

    /// The events reported so far, oldest first.
    pub fn events(&self) -> (r: &Vec<Event>)
        ensures
            r@ == self@.events,
    {
        &self.events
    }

    /// Whether `event` was reported.
    pub fn has_event(&self, event: Event) -> (r: bool)
        ensures
            r == self@.events.contains(event),
    {
        let mut i: usize = 0;
        while i < self.events.len()
            invariant
                i <= self.events@.len(),
                forall|k: int| 0 <= k < i ==> self.events@[k] != event,
            decreases self.events@.len() - i,
        {
            if self.events[i] == event {
                return true;
            }
            i += 1;
        }
        false
    }

    /// Moves the counter forward to `count`, so that the next id is
    /// `count + 1`; no kitty is created and no id is handed out twice.
    pub fn set_kitties_count(&mut self, count: u32)
        requires
            old(self)@.wf(),
            count >= old(self)@.count,
        ensures
            final(self)@.wf(),
            final(self)@ == (PalletView { count, ..old(self)@ }),
            old(self)@.kitties_kept(final(self)@),
    {
        self.count = count;
    }
}


/// A kitty's dna and price never change once it exists: every operation
/// keeps all kitties as they were, and so does any run of operations, since
/// keeping them composes.
pub proof fn lemma_kitties_kept_along_run(states: Seq<PalletView>)
    requires
        forall|i: int|
            0 <= i < states.len() - 1 ==> #[trigger] states[i].kitties_kept(states[i + 1]),
    ensures
        forall|i: int, j: int|
            0 <= i <= j < states.len() ==> #[trigger] states[i].kitties_kept(states[j]),
{
    assert forall|i: int, j: int| 0 <= i <= j < states.len() implies #[trigger] states[i].kitties_kept(
        states[j],
    ) by {
        lemma_kept_prefix(states, i, j);
    }
}

proof fn lemma_kept_prefix(states: Seq<PalletView>, i: int, j: int)
    requires
        forall|k: int|
            0 <= k < states.len() - 1 ==> #[trigger] states[k].kitties_kept(states[k + 1]),
        0 <= i <= j < states.len(),
    ensures
        states[i].kitties_kept(states[j]),
    decreases j - i,
{
    if i < j {
        lemma_kept_prefix(states, i, j - 1);
        let k = j - 1;
        assert(states[k].kitties_kept(states[k + 1]));
    }
}

/// How many operations of `created` made a kitty.
pub open spec fn created_count(created: Seq<Option<KittyIndex>>) -> nat
    decreases created.len(),
{
    if created.len() == 0 {
        0
    } else {
        created_count(created.drop_last()) + if created.last() is Some {
            1nat
        } else {
            0nat
        }
    }
}

/// Ids are handed out in order, without gaps and never twice: along any run
/// of operations that went through, the kitty made by the k-th creating
/// operation (counting from zero) gets the id `count + k + 1`, where `count`
/// is the counter before the run, and an id made later is larger than one
/// made earlier. Where every operation of the run creates, the i-th gets
/// `count + i + 1`. A run that starts from a registry whose ids are exactly
/// `1..=count` (an empty one, say) keeps it so, with an owner for each: from
/// an empty registry, n creations hand out 1, 2, ..., n and leave the ids
/// `1..=n` in use.
pub proof fn lemma_ids_in_order(states: Seq<PalletView>, created: Seq<Option<KittyIndex>>)
    requires
        states.len() == created.len() + 1,
        forall|i: int|
            0 <= i < created.len() ==> #[trigger] states[i].succeeded(states[i + 1], created[i]),
    ensures
        forall|i: int|
            0 <= i <= created.len() ==> #[trigger] states[i].count == states[0].count
                + created_count(created.take(i)),
        forall|i: int|
            0 <= i < created.len() && created[i] is Some ==> #[trigger] created[i]->Some_0
                == states[0].count + created_count(created.take(i)) + 1,
        forall|i: int, j: int|
            0 <= i < j < created.len() && created[i] is Some && created[j] is Some
                ==> #[trigger] created[i]->Some_0 < #[trigger] created[j]->Some_0,
        (forall|i: int| 0 <= i < created.len() ==> #[trigger] created[i] is Some) ==> forall|
            i: int,
        |
            0 <= i < created.len() ==> #[trigger] created[i]->Some_0 == states[0].count + i + 1,
        states[0].wf() && states[0].dense() ==> forall|i: int|
            0 <= i <= created.len() ==> #[trigger] states[i].wf() && states[i].dense(),
{
    if forall|i: int| 0 <= i < created.len() ==> #[trigger] created[i] is Some {
        assert forall|i: int| 0 <= i < created.len() implies #[trigger] created[i]->Some_0
            == states[0].count + i + 1 by {
            lemma_count_prefix(states, created, i);
            lemma_all_created(created, i);
            assert(states[i].succeeded(states[i + 1], created[i]));
        }
    }
    if states[0].wf() && states[0].dense() {
        assert forall|i: int| 0 <= i <= created.len() implies #[trigger] states[i].wf()
            && states[i].dense() by {
            lemma_dense_prefix(states, created, i);
        }
    }
    assert forall|i: int| 0 <= i <= created.len() implies #[trigger] states[i].count
        == states[0].count + created_count(created.take(i)) by {
        lemma_count_prefix(states, created, i);
    }
    assert forall|i: int| 0 <= i < created.len() && created[i] is Some implies #[trigger] created[i]->Some_0
        == states[0].count + created_count(created.take(i)) + 1 by {
        lemma_count_prefix(states, created, i);
        assert(states[i].succeeded(states[i + 1], created[i]));
    }
    assert forall|i: int, j: int|
        0 <= i < j < created.len() && created[i] is Some && created[j] is Some implies #[trigger] created[i]->Some_0
        < #[trigger] created[j]->Some_0 by {
        lemma_count_prefix(states, created, i + 1);
        lemma_count_prefix(states, created, j);
        lemma_count_prefix(states, created, i);
        assert(states[i].succeeded(states[i + 1], created[i]));
        assert(states[j].succeeded(states[j + 1], created[j]));
        lemma_count_monotone(states, created, i + 1, j);
    }
}

proof fn lemma_all_created(created: Seq<Option<KittyIndex>>, i: int)
    requires
        forall|k: int| 0 <= k < created.len() ==> #[trigger] created[k] is Some,
        0 <= i <= created.len(),
    ensures
        created_count(created.take(i)) == i,
    decreases i,
{
    if i > 0 {
        lemma_all_created(created, i - 1);
        assert(created.take(i).drop_last() =~= created.take(i - 1));
        assert(created[i - 1] is Some);
    }
}

proof fn lemma_dense_prefix(states: Seq<PalletView>, created: Seq<Option<KittyIndex>>, i: int)
    requires
        states.len() == created.len() + 1,
        forall|k: int|
            0 <= k < created.len() ==> #[trigger] states[k].succeeded(states[k + 1], created[k]),
        states[0].wf(),
        states[0].dense(),
        0 <= i <= created.len(),
    ensures
        states[i].wf(),
        states[i].dense(),
    decreases i,
{
    if i > 0 {
        lemma_dense_prefix(states, created, i - 1);
        let k = i - 1;
        assert(states[k].succeeded(states[k + 1], created[k]));
        let prev = states[k];
        let next = states[k + 1];
        match created[k] {
            Some(id) => {
                let (who, price, dna) = choose|who: AccountId, price: Balance, dna: Seq<u8>|
                    #[trigger] prev.added(next, who, price, dna);
                assert(prev.added(next, who, price, dna));
                assert(next.owner.dom() =~= next.kitties.dom());
            },
            None => {
                let (id, who, e) = choose|id: KittyIndex, who: AccountId, e: Event|
                    prev.kitties.contains_key(id) && #[trigger] prev.set_owner(id, who).report(e)
                        == next;
                assert(prev.set_owner(id, who).report(e) == next);
                assert(next.owner.dom() =~= next.kitties.dom());
            },
        }
    }
}

proof fn lemma_count_prefix(states: Seq<PalletView>, created: Seq<Option<KittyIndex>>, i: int)
    requires
        states.len() == created.len() + 1,
        forall|k: int|
            0 <= k < created.len() ==> #[trigger] states[k].succeeded(states[k + 1], created[k]),
        0 <= i <= created.len(),
    ensures
        states[i].count == states[0].count + created_count(created.take(i)),
    decreases i,
{
    if i > 0 {
        lemma_count_prefix(states, created, i - 1);
        assert(created.take(i).drop_last() =~= created.take(i - 1));
        let k = i - 1;
        assert(states[k].succeeded(states[k + 1], created[k]));
        let prev = states[k];
        let next = states[k + 1];
        match created[k] {
            Some(id) => {
                let (who, price, dna) = choose|who: AccountId, price: Balance, dna: Seq<u8>|
                    #[trigger] prev.added(next, who, price, dna);
                assert(prev.added(next, who, price, dna));
            },
            None => {
                let (id, who, e) = choose|id: KittyIndex, who: AccountId, e: Event|
                    prev.kitties.contains_key(id) && #[trigger] prev.set_owner(id, who).report(e)
                        == next;
                assert(prev.set_owner(id, who).report(e) == next);
            },
        }
    }
}

proof fn lemma_count_monotone(
    states: Seq<PalletView>,
    created: Seq<Option<KittyIndex>>,
    i: int,
    j: int,
)
    requires
        states.len() == created.len() + 1,
        forall|k: int|
            0 <= k < created.len() ==> #[trigger] states[k].succeeded(states[k + 1], created[k]),
        0 <= i <= j <= created.len(),
    ensures
        states[i].count <= states[j].count,
    decreases j - i,
{
    if i < j {
        lemma_count_monotone(states, created, i, j - 1);
        lemma_count_prefix(states, created, j - 1);
        lemma_count_prefix(states, created, j);
        assert(created.take(j).drop_last() =~= created.take(j - 1));
    }
}

} // verus!
