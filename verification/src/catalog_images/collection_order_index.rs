//! Collection memberships, their explicit order, and the derived index of the
//! memberships at the default position.
//!
//! Installing the index is constant work: memberships that were there before are
//! covered by bounded, restartable steps, while every later change keeps the
//! index up to date by itself.
use crate::ordering;
use crate::ordering::is_key_before;
use crate::support;
use crate::support::same;
use vstd::prelude::*;

verus! {

/// The most memberships one step of maintenance visits.
pub const STEP_LIMIT: usize = 1000;

/// Why index maintenance or a membership change was refused.
#[derive(Clone, Copy, Debug, PartialEq, Eq, Structural)]
pub enum OrderIndexError {
    /// The membership has an explicit position, which would be left behind.
    PlacedMember,
    /// The index is not installed.
    NotInstalled,
    /// The step limit is too large.
    StepLimit,
    /// The position is negative.
    NegativePosition,
    /// There is no such membership.
    MissingMember,
    /// There is such a membership already.
    MemberExists,
    /// The membership has an explicit position.
    OrderedMember,
}

/// An image's membership in a collection.
pub struct MemberRow {
    pub collection: String,
    pub sequence: i64,
    pub provenance: String,
}

/// The explicit position of a membership.
pub struct OrderRow {
    pub collection: String,
    pub image_sequence: i64,
    pub position: i64,
}

/// A membership at the default position.
pub struct ZeroRow {
    pub collection: String,
    pub image_sequence: i64,
}

/// How far maintenance has covered the memberships that were there when the
/// index was installed.
pub struct Backfill {
    pub after_collection: String,
    pub after_sequence: i64,
    pub high_collection: String,
    pub high_sequence: i64,
    pub complete: bool,
}

/// Memberships, positions and the index of default positions.
pub struct Membership {
    pub members: Vec<MemberRow>,
    pub order: Vec<OrderRow>,
    pub zero: Vec<ZeroRow>,
    pub backfill: Option<Backfill>,
}

/// A membership that maintenance visits, with its position.
pub struct VisitedMember {
    pub collection: String,
    pub sequence: i64,
    pub position: i64,
}

impl MemberRow {
    pub open spec fn key(self) -> ordering::Key {
        (self.collection@, self.sequence)
    }
}

impl OrderRow {
    pub open spec fn key(self) -> ordering::Key {
        (self.collection@, self.image_sequence)
    }
}

impl ZeroRow {
    pub open spec fn key(self) -> ordering::Key {
        (self.collection@, self.image_sequence)
    }
}

impl VisitedMember {
    pub open spec fn key(self) -> ordering::Key {
        (self.collection@, self.sequence)
    }
}

impl Backfill {
    /// The last key that maintenance has covered.
    pub open spec fn after(self) -> ordering::Key {
        (self.after_collection@, self.after_sequence)
    }

    /// The greatest key that was there when the index was installed.
    pub open spec fn high(self) -> ordering::Key {
        (self.high_collection@, self.high_sequence)
    }
}

pub open spec fn member_at(k: ordering::Key) -> spec_fn(MemberRow) -> bool {
    |m: MemberRow| m.key() == k
}

pub open spec fn order_at(k: ordering::Key) -> spec_fn(OrderRow) -> bool {
    |o: OrderRow| o.key() == k
}

pub open spec fn zero_at(k: ordering::Key) -> spec_fn(ZeroRow) -> bool {
    |z: ZeroRow| z.key() == k
}

impl Membership {
    /// There is a membership with this key.
    pub open spec fn is_member(self, k: ordering::Key) -> bool {
        support::first_where(self.members@, member_at(k)) is Some
    }

    /// The provenance of a membership.
    pub open spec fn provenance_of(self, k: ordering::Key) -> Option<Seq<char>> {
        match support::first_where(self.members@, member_at(k)) {
            Some(i) => Some(self.members@[i].provenance@),
            None => None,
        }
    }

    /// The explicit position of a membership.
    pub open spec fn position_of(self, k: ordering::Key) -> Option<i64> {
        match support::first_where(self.order@, order_at(k)) {
            Some(i) => Some(self.order@[i].position),
            None => None,
        }
    }

    /// The position of a membership: zero unless an explicit one was given.
    pub open spec fn effective_position(self, k: ordering::Key) -> i64 {
        match self.position_of(k) {
            Some(p) => p,
            None => 0,
        }
    }

    /// The index holds this key.
    pub open spec fn in_zero(self, k: ordering::Key) -> bool {
        support::first_where(self.zero@, zero_at(k)) is Some
    }

    /// What the index stands for: a membership at position zero.
    pub open spec fn zero_member(self, k: ordering::Key) -> bool {
        self.is_member(k) && self.effective_position(k) == 0
    }

    /// Maintenance has still to visit this key.
    pub open spec fn unvisited(self, k: ordering::Key) -> bool {
        self.backfill matches Some(b) && !b.complete && ordering::key_before(b.after(), k)
            && !ordering::key_before(b.high(), k)
    }

    /// The index holds a key only if it is that of a membership at position zero,
    /// and holds it unless maintenance has still to visit it.
    pub open spec fn indexed(self, k: ordering::Key) -> bool {
        &&& self.in_zero(k) ==> self.zero_member(k)
        &&& self.zero_member(k) ==> self.in_zero(k) || self.unvisited(k)
    }

    /// A position belongs to a membership and is not negative.
    pub open spec fn placed(self, k: ordering::Key) -> bool {
        self.position_of(k) matches Some(p) ==> self.is_member(k) && p >= 0
    }

    /// The index names memberships at position zero only, and all of them but
    /// those that maintenance has still to visit.
    pub open spec fn index_wf(self) -> bool {
        self.backfill is Some ==> forall|k: ordering::Key| #[trigger] self.indexed(k)
    }

    /// Every explicit position belongs to a membership and is not negative.
    pub open spec fn order_wf(self) -> bool {
        forall|k: ordering::Key| #[trigger] self.placed(k)
    }

    pub open spec fn wf(self) -> bool {
        self.index_wf() && self.order_wf()
    }

    fn find_member(&self, collection: &str, sequence: i64) -> (r: Option<usize>)
        ensures
            match r {
                Some(i) => i < self.members@.len() && support::first_where(
                    self.members@,
                    member_at((collection@, sequence)),
                ) == Some(i as int) && self.members@[i as int].key() == (collection@, sequence),
                None => !self.is_member((collection@, sequence)),
            },
    {
        let mut i: usize = 0;
        while i < self.members.len()
            invariant
                i <= self.members@.len(),
                forall|j: int|
                    0 <= j < i ==> !member_at((collection@, sequence))(#[trigger] self.members@[j]),
            decreases self.members@.len() - i,
        {
            if self.members[i].sequence == sequence && same(
                self.members[i].collection.as_str(),
                collection,
            ) {
                proof {
                    support::lemma_first_found(
                        self.members@,
                        member_at((collection@, sequence)),
                        i as int,
                    );
                }
                return Some(i);
            }
            i += 1;
        }
        proof {
            support::lemma_none_found(self.members@, member_at((collection@, sequence)));
        }
        None
    }

    fn find_order(&self, collection: &str, sequence: i64) -> (r: Option<usize>)
        ensures
            match r {
                Some(i) => i < self.order@.len() && support::first_where(
                    self.order@,
                    order_at((collection@, sequence)),
                ) == Some(i as int) && self.order@[i as int].key() == (collection@, sequence),
                None => self.position_of((collection@, sequence)) is None,
            },
    {
        let mut i: usize = 0;
        while i < self.order.len()
            invariant
                i <= self.order@.len(),
                forall|j: int|
                    0 <= j < i ==> !order_at((collection@, sequence))(#[trigger] self.order@[j]),
            decreases self.order@.len() - i,
        {
            if self.order[i].image_sequence == sequence && same(
                self.order[i].collection.as_str(),
                collection,
            ) {
                proof {
                    support::lemma_first_found(
                        self.order@,
                        order_at((collection@, sequence)),
                        i as int,
                    );
                }
                return Some(i);
            }
            i += 1;
        }
        proof {
            support::lemma_none_found(self.order@, order_at((collection@, sequence)));
        }
        None
    }

    fn find_zero(&self, collection: &str, sequence: i64) -> (r: Option<usize>)
        ensures
            match r {
                Some(i) => i < self.zero@.len() && self.in_zero((collection@, sequence))
                    && self.zero@[i as int].key() == (collection@, sequence),
                None => !self.in_zero((collection@, sequence)),
            },
    {
        let mut i: usize = 0;
        while i < self.zero.len()
            invariant
                i <= self.zero@.len(),
                forall|j: int|
                    0 <= j < i ==> !zero_at((collection@, sequence))(#[trigger] self.zero@[j]),
            decreases self.zero@.len() - i,
        {
            if self.zero[i].image_sequence == sequence && same(
                self.zero[i].collection.as_str(),
                collection,
            ) {
                proof {
                    support::lemma_first_found(
                        self.zero@,
                        zero_at((collection@, sequence)),
                        i as int,
                    );
                }
                return Some(i);
            }
            i += 1;
        }
        proof {
            support::lemma_none_found(self.zero@, zero_at((collection@, sequence)));
        }
        None
    }

    /// The membership's position, zero where none was given.
    pub fn position(&self, collection: &str, sequence: i64) -> (p: i64)
        ensures
            p == self.effective_position((collection@, sequence)),
    {
        match self.find_order(collection, sequence) {
            Some(i) => self.order[i].position,
            None => 0,
        }
    }

    /// Adds a key to the index unless it is there.
    fn add_zero(&mut self, collection: &str, sequence: i64)
        ensures
            final(self).members == old(self).members,
            final(self).order == old(self).order,
            final(self).backfill == old(self).backfill,
            forall|k: ordering::Key| #[trigger]
                final(self).in_zero(k) == (old(self).in_zero(k) || k == (collection@, sequence)),
    {
        if self.find_zero(collection, sequence).is_none() {
            self.zero.push(ZeroRow { collection: collection.to_owned(), image_sequence: sequence });
            proof {
                assert forall|k: ordering::Key| #[trigger]
                    self.in_zero(k) == (old(self).in_zero(k) || k == (collection@, sequence)) by {
                    support::lemma_pushed(old(self).zero@, self.zero@, zero_at(k));
                }
            }
        }
    }

    /// Takes a key out of the index.
    fn remove_zero(&mut self, collection: &str, sequence: i64)
        ensures
            final(self).members == old(self).members,
            final(self).order == old(self).order,
            final(self).backfill == old(self).backfill,
            forall|k: ordering::Key| #[trigger]
                final(self).in_zero(k) == (old(self).in_zero(k) && k != (collection@, sequence)),
    {
        let ghost key = (collection@, sequence);
        let mut found: Option<usize> = self.find_zero(collection, sequence);
        while found.is_some()
            invariant
                self.members == old(self).members,
                self.order == old(self).order,
                self.backfill == old(self).backfill,
                key == (collection@, sequence),
                forall|k: ordering::Key|
                    k != key ==> #[trigger] self.in_zero(k) == old(self).in_zero(k),
                match found {
                    Some(i) => i < self.zero@.len() && self.zero@[i as int].key() == key,
                    None => !self.in_zero(key),
                },
                found is Some ==> old(self).in_zero(key),
            decreases self.zero@.len(),
        {
            let i: usize = found.unwrap();
            let ghost before = *self;
            self.zero.remove(i);
            proof {
                assert forall|k: ordering::Key| k != key implies #[trigger] self.in_zero(k)
                    == before.in_zero(k) by {
                    support::lemma_removed(before.zero@, self.zero@, i as int, zero_at(k));
                }
            }
            found = self.find_zero(collection, sequence);
        }
    }
}

impl Membership {
    /// No membership, no position, and no index.
    pub fn new() -> (m: Self)
        ensures
            m.members@.len() == 0,
            m.order@.len() == 0,
            m.zero@.len() == 0,
            m.backfill is None,
            m.wf(),
    {
        Membership { members: Vec::new(), order: Vec::new(), zero: Vec::new(), backfill: None }
    }

    /// The greatest key of any membership.
    pub open spec fn greatest(self, k: ordering::Key) -> bool {
        self.is_member(k) && forall|other: ordering::Key| #[trigger]
            self.is_member(other) ==> !ordering::key_before(k, other)
    }

    /// Installs an empty index. Nothing is backfilled yet: the memberships that
    /// are there are left to `step`.
    pub fn install(&mut self)
        ensures
            final(self).members == old(self).members,
            final(self).order == old(self).order,
            final(self).zero@.len() == 0,
            final(self).backfill matches Some(b) && b.after_collection@ == Seq::<char>::empty()
                && b.after_sequence == 0 && b.complete == (old(self).members@.len() == 0) && if old(
                self,
            ).members@.len() == 0 {
                b.high() == (Seq::<char>::empty(), 0i64)
            } else {
                old(self).greatest(b.high())
            },
            old(self).order_wf() ==> final(self).order_wf(),
            old(self).above_start() ==> final(self).index_wf(),
    {
        let mut high: usize = 0;
        let mut i: usize = 0;
        while i < self.members.len()
            invariant
                i <= self.members@.len(),
                *self == *old(self),
                self.members@.len() > 0 ==> high < self.members@.len(),
                forall|j: int|
                    0 <= j < i ==> !ordering::key_before(
                        self.members@[high as int].key(),
                        (#[trigger] self.members@[j]).key(),
                    ),
            decreases self.members@.len() - i,
        {
            if is_key_before(
                self.members[high].collection.as_str(),
                self.members[high].sequence,
                self.members[i].collection.as_str(),
                self.members[i].sequence,
            ) {
                proof {
                    let a = self.members@[high as int].key();
                    let b = self.members@[i as int].key();
                    assert forall|j: int| 0 <= j < i implies !ordering::key_before(
                        b,
                        (#[trigger] self.members@[j]).key(),
                    ) by {
                        ordering::lemma_key_order(a, b, self.members@[j].key());
                    }
                    ordering::lemma_key_order(b, b, b);
                }
                high = i;
            }
            i += 1;
        }
        self.zero = Vec::new();
        if self.members.len() == 0 {
            self.backfill = Some(
                Backfill {
                    after_collection: String::new(),
                    after_sequence: 0,
                    high_collection: String::new(),
                    high_sequence: 0,
                    complete: true,
                },
            );
        } else {
            self.backfill = Some(
                Backfill {
                    after_collection: String::new(),
                    after_sequence: 0,
                    high_collection: self.members[high].collection.clone(),
                    high_sequence: self.members[high].sequence,
                    complete: false,
                },
            );
        }
        proof {
            if self.members@.len() > 0 {
                let h = self.members@[high as int].key();
                assert forall|k: ordering::Key| #[trigger] old(self).is_member(k) implies !ordering::key_before(
                    h,
                    k,
                ) by {
                    support::lemma_first_where(self.members@, member_at(k));
                }
                support::lemma_first_where(self.members@, member_at(h));
                assert(member_at(h)(self.members@[high as int]));
                assert(old(self).is_member(h));
            }
            assert forall|k: ordering::Key| old(self).above_start() implies #[trigger] self.indexed(
                k,
            ) by {
                support::lemma_none_found(self.zero@, zero_at(k));
                assert(self.is_member(k) == old(self).is_member(k));
            }
            assert forall|k: ordering::Key| old(self).order_wf() implies #[trigger] self.placed(
                k,
            ) by {
                assert(old(self).placed(k));
            }
        }
    }

    /// Every membership's key follows the key that maintenance starts from.
    pub open spec fn above_start(self) -> bool {
        forall|k: ordering::Key| #[trigger]
            self.is_member(k) ==> ordering::key_before((Seq::<char>::empty(), 0i64), k)
    }

    /// Whether the index covers every membership. Until it does, a key that is
    /// missing from it says nothing.
    pub fn ready(&self) -> (r: Result<bool, OrderIndexError>)
        ensures
            match r {
                Ok(complete) => self.backfill matches Some(b) && complete == b.complete,
                Err(e) => self.backfill is None && e == OrderIndexError::NotInstalled,
            },
    {
        match &self.backfill {
            Some(b) => Ok(b.complete),
            None => Err(OrderIndexError::NotInstalled),
        }
    }

    /// Adds a membership, or replaces the provenance of one that is there.
    pub fn put_member(&mut self, collection: &str, sequence: i64, provenance: &str)
        ensures
            final(self).order == old(self).order,
            final(self).backfill == old(self).backfill,
            forall|k: ordering::Key| #[trigger]
                final(self).provenance_of(k) == if k == (collection@, sequence) {
                    Some(provenance@)
                } else {
                    old(self).provenance_of(k)
                },
            forall|k: ordering::Key| #[trigger]
                final(self).is_member(k) == (old(self).is_member(k) || k == (
                    collection@,
                    sequence,
                )),
            forall|k: ordering::Key| #[trigger]
                final(self).in_zero(k) == (old(self).in_zero(k) || (k == (collection@, sequence)
                    && !old(self).is_member(k) && old(self).backfill is Some && !(old(
                    self,
                ).effective_position(k) > 0))),
            old(self).wf() ==> final(self).wf(),
    {
        let ghost key = (collection@, sequence);
        match self.find_member(collection, sequence) {
            Some(i) => {
                let row: MemberRow = MemberRow {
                    collection: collection.to_owned(),
                    sequence,
                    provenance: provenance.to_owned(),
                };
                self.members.set(i, row);
                proof {
                    assert forall|k: ordering::Key| #[trigger]
                        self.is_member(k) == (old(self).is_member(k) || k == key) by {
                        lemma_member_replaced(*old(self), *self, i as int, k);
                    }
                    assert forall|k: ordering::Key| #[trigger] self.provenance_of(k) == if k == key {
                        Some(provenance@)
                    } else {
                        old(self).provenance_of(k)
                    } by {
                        lemma_member_replaced(*old(self), *self, i as int, k);
                    }
                }
            },
            None => {
                self.members.push(
                    MemberRow {
                        collection: collection.to_owned(),
                        sequence,
                        provenance: provenance.to_owned(),
                    },
                );
                proof {
                    assert forall|k: ordering::Key| #[trigger]
                        self.is_member(k) == (old(self).is_member(k) || k == key) by {
                        support::lemma_pushed(old(self).members@, self.members@, member_at(k));
                    }
                    assert forall|k: ordering::Key| #[trigger] self.provenance_of(k) == if k == key {
                        Some(provenance@)
                    } else {
                        old(self).provenance_of(k)
                    } by {
                        support::lemma_pushed(old(self).members@, self.members@, member_at(k));
                        support::lemma_first_where(old(self).members@, member_at(k));
                    }
                }
                let ghost pushed = *self;
                if self.backfill.is_some() && !(self.position(collection, sequence) > 0) {
                    self.add_zero(collection, sequence);
                }
                proof {
                    assert forall|k: ordering::Key| #[trigger]
                        self.is_member(k) == (old(self).is_member(k) || k == key) by {
                        assert(pushed.is_member(k) == self.is_member(k));
                    }
                    assert forall|k: ordering::Key| #[trigger] self.provenance_of(k) == if k == key {
                        Some(provenance@)
                    } else {
                        old(self).provenance_of(k)
                    } by {
                        assert(pushed.provenance_of(k) == self.provenance_of(k));
                    }
                }
            },
        }
        proof {
            assert forall|k: ordering::Key| old(self).wf() implies #[trigger] self.placed(k) by {
                assert(old(self).placed(k));
                assert(self.is_member(k) == (old(self).is_member(k) || k == key));
            }
            assert forall|k: ordering::Key| old(self).wf() && self.backfill is Some implies #[trigger] self.indexed(
                k,
            ) by {
                assert(old(self).indexed(k));
                assert(old(self).placed(k));
                assert(self.is_member(k) == (old(self).is_member(k) || k == key));
                assert(self.position_of(k) == old(self).position_of(k));
            }
        }
    }
}

impl Membership {
    /// Why a position cannot be given.
    pub open spec fn place_refusal(self, k: ordering::Key, position: i64) -> Option<
        OrderIndexError,
    > {
        if position < 0 {
            Some(OrderIndexError::NegativePosition)
        } else if !self.is_member(k) {
            Some(OrderIndexError::MissingMember)
        } else {
            None
        }
    }

    /// Gives a membership an explicit position.
    pub fn set_position(&mut self, collection: &str, sequence: i64, position: i64) -> (r: Result<
        (),
        OrderIndexError,
    >)
        ensures
            match r {
                Err(e) => old(self).place_refusal((collection@, sequence), position) == Some(e)
                    && *final(self) == *old(self),
                Ok(()) => {
                    &&& old(self).place_refusal((collection@, sequence), position) is None
                    &&& final(self).members == old(self).members
                    &&& final(self).backfill == old(self).backfill
                    &&& forall|k: ordering::Key| #[trigger]
                        final(self).position_of(k) == if k == (collection@, sequence) {
                            Some(position)
                        } else {
                            old(self).position_of(k)
                        }
                    &&& forall|k: ordering::Key| #[trigger]
                        final(self).in_zero(k) == if k == (collection@, sequence) && old(
                            self,
                        ).backfill is Some {
                            position == 0
                        } else {
                            old(self).in_zero(k)
                        }
                },
            },
            old(self).wf() ==> final(self).wf(),
    {
        let ghost key = (collection@, sequence);
        if position < 0 {
            return Err(OrderIndexError::NegativePosition);
        }
        if self.find_member(collection, sequence).is_none() {
            return Err(OrderIndexError::MissingMember);
        }
        let row: OrderRow = OrderRow {
            collection: collection.to_owned(),
            image_sequence: sequence,
            position,
        };
        match self.find_order(collection, sequence) {
            Some(i) => {
                self.order.set(i, row);
                proof {
                    assert forall|k: ordering::Key| #[trigger] self.position_of(k) == if k == key {
                        Some(position)
                    } else {
                        old(self).position_of(k)
                    } by {
                        support::lemma_replaced(
                            old(self).order@,
                            self.order@,
                            i as int,
                            order_at(k),
                        );
                        support::lemma_first_where(old(self).order@, order_at(k));
                    }
                }
            },
            None => {
                self.order.push(row);
                proof {
                    assert forall|k: ordering::Key| #[trigger] self.position_of(k) == if k == key {
                        Some(position)
                    } else {
                        old(self).position_of(k)
                    } by {
                        support::lemma_pushed(old(self).order@, self.order@, order_at(k));
                        support::lemma_first_where(old(self).order@, order_at(k));
                    }
                }
            },
        }
        let ghost ordered = *self;
        if self.backfill.is_some() {
            self.remove_zero(collection, sequence);
            if position == 0 {
                self.add_zero(collection, sequence);
            }
        }
        proof {
            assert forall|k: ordering::Key| #[trigger] self.position_of(k) == if k == key {
                Some(position)
            } else {
                old(self).position_of(k)
            } by {
                assert(ordered.position_of(k) == self.position_of(k));
            }
            assert forall|k: ordering::Key| #[trigger]
                self.in_zero(k) == if k == key && old(self).backfill is Some {
                    position == 0
                } else {
                    old(self).in_zero(k)
                } by {
                assert(ordered.in_zero(k) == old(self).in_zero(k));
            }
            lemma_kept_wf(*old(self), *self, key);
        }
        Ok(())
    }

    /// Takes away the explicit position of a membership.
    pub fn clear_position(&mut self, collection: &str, sequence: i64)
        ensures
            final(self).members == old(self).members,
            final(self).backfill == old(self).backfill,
            forall|k: ordering::Key| #[trigger]
                final(self).position_of(k) == if k == (collection@, sequence) {
                    None
                } else {
                    old(self).position_of(k)
                },
            forall|k: ordering::Key| #[trigger]
                final(self).in_zero(k) == (old(self).in_zero(k) || (k == (collection@, sequence)
                    && old(self).position_of(k) is Some && old(self).backfill is Some && old(
                    self,
                ).is_member(k))),
            old(self).wf() ==> final(self).wf(),
    {
        let ghost key = (collection@, sequence);
        let had: bool = self.find_order(collection, sequence).is_some();
        self.remove_order(collection, sequence);
        let ghost cleared = *self;
        if had && self.backfill.is_some() && self.find_member(collection, sequence).is_some() {
            self.add_zero(collection, sequence);
        }
        proof {
            assert forall|k: ordering::Key| #[trigger] self.position_of(k) == if k == key {
                None
            } else {
                old(self).position_of(k)
            } by {
                assert(cleared.position_of(k) == self.position_of(k));
            }
            assert forall|k: ordering::Key| #[trigger]
                self.in_zero(k) == (old(self).in_zero(k) || (k == key && old(self).position_of(k)
                    is Some && old(self).backfill is Some && old(self).is_member(k))) by {
                assert(cleared.in_zero(k) == old(self).in_zero(k));
                assert(cleared.is_member(k) == old(self).is_member(k));
            }
            assert(old(self).wf() ==> old(self).placed(key));
            assert(old(self).wf() && old(self).backfill is Some ==> old(self).indexed(key));
            assert(cleared.is_member(key) == old(self).is_member(key));
            lemma_kept_wf(*old(self), *self, key);
        }
    }

    fn remove_order(&mut self, collection: &str, sequence: i64)
        ensures
            final(self).members == old(self).members,
            final(self).zero == old(self).zero,
            final(self).backfill == old(self).backfill,
            forall|k: ordering::Key| #[trigger]
                final(self).position_of(k) == if k == (collection@, sequence) {
                    None
                } else {
                    old(self).position_of(k)
                },
    {
        let ghost key = (collection@, sequence);
        let mut found: Option<usize> = self.find_order(collection, sequence);
        while found.is_some()
            invariant
                self.members == old(self).members,
                self.zero == old(self).zero,
                self.backfill == old(self).backfill,
                key == (collection@, sequence),
                forall|k: ordering::Key|
                    k != key ==> #[trigger] self.position_of(k) == old(self).position_of(k),
                match found {
                    Some(i) => i < self.order@.len() && self.order@[i as int].key() == key,
                    None => self.position_of(key) is None,
                },
            decreases self.order@.len(),
        {
            let i: usize = found.unwrap();
            let ghost before = *self;
            self.order.remove(i);
            proof {
                assert forall|k: ordering::Key| k != key implies #[trigger] self.position_of(k)
                    == before.position_of(k) by {
                    support::lemma_removed(before.order@, self.order@, i as int, order_at(k));
                }
            }
            found = self.find_order(collection, sequence);
        }
    }

    /// Takes a membership away, with its position and its place in the index.
    pub fn remove_member(&mut self, collection: &str, sequence: i64)
        ensures
            final(self).backfill == old(self).backfill,
            forall|k: ordering::Key| #[trigger]
                final(self).provenance_of(k) == if k == (collection@, sequence) {
                    None
                } else {
                    old(self).provenance_of(k)
                },
            forall|k: ordering::Key| #[trigger]
                final(self).is_member(k) == (old(self).is_member(k) && k != (
                    collection@,
                    sequence,
                )),
            forall|k: ordering::Key| #[trigger]
                final(self).position_of(k) == if k == (collection@, sequence) && old(
                    self,
                ).is_member(k) {
                    None
                } else {
                    old(self).position_of(k)
                },
            forall|k: ordering::Key| #[trigger]
                final(self).in_zero(k) == (old(self).in_zero(k) && !(k == (collection@, sequence)
                    && old(self).is_member(k))),
            old(self).wf() ==> final(self).wf(),
    {
        let ghost key = (collection@, sequence);
        let mut found: Option<usize> = self.find_member(collection, sequence);
        let ghost mut unordered = *self;
        if found.is_some() {
            self.remove_order(collection, sequence);
            proof {
                unordered = *self;
            }
            self.remove_zero(collection, sequence);
        }
        let ghost cleared = *self;
        assert(forall|k: ordering::Key| #[trigger]
            cleared.position_of(k) == unordered.position_of(k));
        assert(forall|k: ordering::Key| #[trigger]
            unordered.in_zero(k) == old(self).in_zero(k));
        assert(forall|k: ordering::Key| #[trigger]
            cleared.is_member(k) == old(self).is_member(k));
        assert(forall|k: ordering::Key| #[trigger]
            cleared.provenance_of(k) == old(self).provenance_of(k));
        while found.is_some()
            invariant
                self.order == cleared.order,
                self.zero == cleared.zero,
                self.backfill == cleared.backfill,
                key == (collection@, sequence),
                forall|k: ordering::Key|
                    k != key ==> #[trigger] self.provenance_of(k) == cleared.provenance_of(k),
                forall|k: ordering::Key|
                    k != key ==> #[trigger] self.is_member(k) == cleared.is_member(k),
                match found {
                    Some(i) => i < self.members@.len() && self.members@[i as int].key() == key,
                    None => !self.is_member(key),
                },
            decreases self.members@.len(),
        {
            let i: usize = found.unwrap();
            let ghost before = *self;
            self.members.remove(i);
            proof {
                assert forall|k: ordering::Key| k != key implies #[trigger] self.provenance_of(k)
                    == before.provenance_of(k) by {
                    support::lemma_removed(before.members@, self.members@, i as int, member_at(k));
                }
                assert forall|k: ordering::Key| k != key implies #[trigger] self.is_member(k)
                    == before.is_member(k) by {
                    support::lemma_removed(before.members@, self.members@, i as int, member_at(k));
                }
            }
            found = self.find_member(collection, sequence);
        }
        proof {
            assert forall|k: ordering::Key| #[trigger]
                self.position_of(k) == if k == key && old(self).is_member(k) {
                    None
                } else {
                    old(self).position_of(k)
                } by {
                assert(cleared.position_of(k) == self.position_of(k));
                assert(unordered.position_of(k) == cleared.position_of(k));
            }
            assert forall|k: ordering::Key| #[trigger]
                self.in_zero(k) == (old(self).in_zero(k) && !(k == key && old(self).is_member(k))) by {
                assert(cleared.in_zero(k) == self.in_zero(k));
                assert(unordered.in_zero(k) == old(self).in_zero(k));
            }
            assert(old(self).wf() ==> old(self).placed(key));
            assert(old(self).wf() && old(self).backfill is Some ==> old(self).indexed(key));
            lemma_kept_wf(*old(self), *self, key);
        }
    }
}

impl Membership {
    /// A key lies after `after` and not beyond `high`.
    pub open spec fn within(after: ordering::Key, high: ordering::Key, k: ordering::Key) -> bool {
        ordering::key_before(after, k) && !ordering::key_before(high, k)
    }

    /// `rows` are the memberships that come next after a key, up to another one
    /// and at most `limit` of them: in ascending order, with their positions, and
    /// without passing over any.
    pub open spec fn is_candidates(
        self,
        after: ordering::Key,
        high: ordering::Key,
        limit: nat,
        rows: Seq<VisitedMember>,
    ) -> bool {
        &&& rows.len() <= limit
        &&& forall|a: int|
            0 <= a < rows.len() ==> self.is_member((#[trigger] rows[a]).key()) && Self::within(
                after,
                high,
                rows[a].key(),
            ) && rows[a].position == self.effective_position(rows[a].key())
        &&& forall|a: int, b: int|
            0 <= a < b < rows.len() ==> ordering::key_before(
                (#[trigger] rows[a]).key(),
                (#[trigger] rows[b]).key(),
            )
        &&& forall|k: ordering::Key| #[trigger]
            self.is_member(k) && Self::within(after, high, k) ==> visits(rows, k) || (rows.len()
                == limit && (rows.len() > 0 ==> ordering::key_before(rows.last().key(), k)))
    }

    /// The memberships that come next after a key, up to another one, at most
    /// `limit` of them.
    pub fn candidates(
        &self,
        after_collection: &str,
        after_sequence: i64,
        high_collection: &str,
        high_sequence: i64,
        limit: usize,
    ) -> (rows: Vec<VisitedMember>)
        ensures
            self.is_candidates(
                (after_collection@, after_sequence),
                (high_collection@, high_sequence),
                limit as nat,
                rows@,
            ),
    {
        let ghost after = (after_collection@, after_sequence);
        let ghost high = (high_collection@, high_sequence);
        let mut rows: Vec<VisitedMember> = Vec::new();
        let mut cursor_collection: String = after_collection.to_owned();
        let mut cursor_sequence: i64 = after_sequence;
        let mut more: bool = true;
        while more && rows.len() < limit
            invariant
                after == (after_collection@, after_sequence),
                high == (high_collection@, high_sequence),
                rows@.len() <= limit,
                (cursor_collection@, cursor_sequence) == if rows@.len() == 0 {
                    after
                } else {
                    rows@.last().key()
                },
                forall|a: int|
                    0 <= a < rows@.len() ==> self.is_member((#[trigger] rows@[a]).key())
                        && Self::within(after, high, rows@[a].key()) && rows@[a].position
                        == self.effective_position(rows@[a].key()),
                forall|a: int, b: int|
                    0 <= a < b < rows@.len() ==> ordering::key_before(
                        (#[trigger] rows@[a]).key(),
                        (#[trigger] rows@[b]).key(),
                    ),
                forall|k: ordering::Key| #[trigger]
                    self.is_member(k) && Self::within(after, high, k) ==> visits(rows@, k)
                        || ordering::key_before((cursor_collection@, cursor_sequence), k),
                !more ==> forall|k: ordering::Key| #[trigger]
                    self.is_member(k) ==> !Self::within(
                        (cursor_collection@, cursor_sequence),
                        high,
                        k,
                    ),
            decreases limit - rows@.len(), more as int,
        {
            let ghost cursor = (cursor_collection@, cursor_sequence);
            let mut best: Option<usize> = None;
            let mut i: usize = 0;
            while i < self.members.len()
                invariant
                    i <= self.members@.len(),
                    cursor == (cursor_collection@, cursor_sequence),
                    high == (high_collection@, high_sequence),
                    match best {
                        None => forall|j: int|
                            0 <= j < i ==> !Self::within(
                                cursor,
                                high,
                                (#[trigger] self.members@[j]).key(),
                            ),
                        Some(b) => b < self.members@.len() && Self::within(
                            cursor,
                            high,
                            self.members@[b as int].key(),
                        ) && forall|j: int|
                            0 <= j < i && Self::within(
                                cursor,
                                high,
                                (#[trigger] self.members@[j]).key(),
                            ) ==> !ordering::key_before(
                                self.members@[j].key(),
                                self.members@[b as int].key(),
                            ),
                    },
                decreases self.members@.len() - i,
            {
                let row = &self.members[i];
                if is_key_before(
                    cursor_collection.as_str(),
                    cursor_sequence,
                    row.collection.as_str(),
                    row.sequence,
                ) && !is_key_before(
                    high_collection,
                    high_sequence,
                    row.collection.as_str(),
                    row.sequence,
                ) {
                    match best {
                        None => {
                            best = Some(i);
                            proof {
                                ordering::lemma_key_order(row.key(), row.key(), row.key());
                            }
                        },
                        Some(b) => {
                            let least = &self.members[b];
                            if is_key_before(
                                row.collection.as_str(),
                                row.sequence,
                                least.collection.as_str(),
                                least.sequence,
                            ) {
                                proof {
                                    assert forall|j: int|
                                        0 <= j < i + 1 && Self::within(
                                            cursor,
                                            high,
                                            (#[trigger] self.members@[j]).key(),
                                        ) implies !ordering::key_before(
                                        self.members@[j].key(),
                                        row.key(),
                                    ) by {
                                        ordering::lemma_key_order(
                                            self.members@[j].key(),
                                            row.key(),
                                            least.key(),
                                        );
                                    }
                                }
                                best = Some(i);
                            }
                        },
                    }
                }
                i += 1;
            }
            match best {
                None => {
                    more = false;
                    proof {
                        assert forall|k: ordering::Key| #[trigger] self.is_member(k) implies !Self::within(
                        cursor, high, k) by {
                            support::lemma_first_where(self.members@, member_at(k));
                        }
                    }
                },
                Some(b) => {
                    let ghost before = rows@;
                    let least = &self.members[b];
                    let position: i64 = self.position(least.collection.as_str(), least.sequence);
                    rows.push(
                        VisitedMember {
                            collection: least.collection.clone(),
                            sequence: least.sequence,
                            position,
                        },
                    );
                    cursor_collection = least.collection.clone();
                    cursor_sequence = least.sequence;
                    proof {
                        let found = least.key();
                        assert(rows@.last().key() == found);
                        support::lemma_first_where(self.members@, member_at(found));
                        assert(member_at(found)(self.members@[b as int]));
                        if before.len() > 0 {
                            ordering::lemma_key_order(after, cursor, found);
                        }
                        assert forall|a: int, c: int|
                            0 <= a < c < rows@.len() implies ordering::key_before(
                            (#[trigger] rows@[a]).key(),
                            (#[trigger] rows@[c]).key(),
                        ) by {
                            assert(rows@[a] == before[a]);
                            if c < before.len() {
                                assert(rows@[c] == before[c]);
                            } else if a < before.len() - 1 {
                                assert(ordering::key_before(
                                    before[a].key(),
                                    before[before.len() - 1].key(),
                                ));
                                ordering::lemma_key_order(before[a].key(), cursor, found);
                            }
                        }
                        assert forall|k: ordering::Key| #[trigger]
                            self.is_member(k) && Self::within(after, high, k) implies visits(
                            rows@,
                            k,
                        ) || ordering::key_before(found, k) by {
                            if visits(before, k) {
                                let a = choose|a: int|
                                    0 <= a < before.len() && (#[trigger] before[a]).key() == k;
                                assert(rows@[a] == before[a]);
                            } else {
                                support::lemma_first_where(self.members@, member_at(k));
                                ordering::lemma_key_order(k, found, found);
                                if k == found {
                                    assert(rows@[before.len() as int].key() == k);
                                }
                            }
                        }
                    }
                },
            }
        }
        rows
    }

    /// Why a step of maintenance is refused.
    pub open spec fn step_refusal(self, limit: usize) -> Option<OrderIndexError> {
        if limit > STEP_LIMIT {
            Some(OrderIndexError::StepLimit)
        } else if limit > 0 && self.backfill is None {
            Some(OrderIndexError::NotInstalled)
        } else {
            None
        }
    }

    /// The state `after` is this one once maintenance has visited `rows`.
    pub open spec fn visited(self, after: Self, limit: usize, rows: Seq<VisitedMember>) -> bool {
        let b = self.backfill->0;
        let n = after.backfill->0;
        &&& self.is_candidates(b.after(), b.high(), limit as nat, rows)
        &&& after.members == self.members
        &&& after.order == self.order
        &&& after.backfill is Some
        &&& n.high() == b.high()
        &&& n.after() == if rows.len() > 0 {
            rows.last().key()
        } else {
            b.high()
        }
        &&& n.complete == (rows.len() < limit || n.after() == b.high())
        &&& forall|k: ordering::Key| #[trigger]
            after.in_zero(k) == if visits(rows, k) {
                self.zero_member(k)
            } else {
                self.in_zero(k)
            }
    }

    /// Visits the next memberships that were there when the index was
    /// installed, and gives their number. Nothing is left to do once the index
    /// is complete.
    pub fn step(&mut self, limit: usize) -> (r: Result<usize, OrderIndexError>)
        ensures
            match r {
                Err(e) => old(self).step_refusal(limit) == Some(e) && *final(self) == *old(self),
                Ok(n) => {
                    &&& old(self).step_refusal(limit) is None
                    &&& if limit == 0 || old(self).backfill->0.complete {
                        n == 0 && *final(self) == *old(self)
                    } else {
                        exists|rows: Seq<VisitedMember>|
                            n == rows.len() && #[trigger] old(self).visited(
                                *final(self),
                                limit,
                                rows,
                            )
                    }
                },
            },
            old(self).wf() ==> final(self).wf(),
    {
        if limit > STEP_LIMIT {
            return Err(OrderIndexError::StepLimit);
        }
        if limit == 0 {
            return Ok(0);
        }
        let (after_collection, after_sequence, high_collection, high_sequence): (
            String,
            i64,
            String,
            i64,
        ) = match &self.backfill {
            None => return Err(OrderIndexError::NotInstalled),
            Some(b) => {
                if b.complete {
                    return Ok(0);
                }
                (
                    b.after_collection.clone(),
                    b.after_sequence,
                    b.high_collection.clone(),
                    b.high_sequence,
                )
            },
        };
        let rows: Vec<VisitedMember> = self.candidates(
            after_collection.as_str(),
            after_sequence,
            high_collection.as_str(),
            high_sequence,
            limit,
        );
        let ghost start = (after_collection@, after_sequence);
        let ghost end = (high_collection@, high_sequence);
        let mut i: usize = 0;
        while i < rows.len()
            invariant
                i <= rows@.len(),
                self.members == old(self).members,
                self.order == old(self).order,
                self.backfill == old(self).backfill,
                old(self).is_candidates(start, end, limit as nat, rows@),
                forall|k: ordering::Key| #[trigger]
                    self.in_zero(k) == if visits(rows@.take(i as int), k) {
                        old(self).zero_member(k)
                    } else {
                        old(self).in_zero(k)
                    },
            decreases rows@.len() - i,
        {
            let ghost before = *self;
            if rows[i].position == 0 {
                self.add_zero(rows[i].collection.as_str(), rows[i].sequence);
            } else {
                self.remove_zero(rows[i].collection.as_str(), rows[i].sequence);
            }
            proof {
                assert forall|k: ordering::Key| #[trigger]
                    self.in_zero(k) == if visits(rows@.take(i + 1), k) {
                        old(self).zero_member(k)
                    } else {
                        old(self).in_zero(k)
                    } by {
                    assert(before.in_zero(k) == before.in_zero(k));
                    lemma_visits_next(rows@, i as int, k);
                    assert(old(self).is_member(rows@[i as int].key()));
                }
            }
            i += 1;
        }
        assert(rows@.take(i as int) =~= rows@);
        let ghost indexed = *self;
        let n: usize = rows.len();
        let (next_collection, next_sequence): (String, i64) = if n > 0 {
            (rows[n - 1].collection.clone(), rows[n - 1].sequence)
        } else {
            (high_collection.clone(), high_sequence)
        };
        let complete: bool = n < limit || (next_sequence == high_sequence && same(
            next_collection.as_str(),
            high_collection.as_str(),
        ));
        self.backfill = Some(
            Backfill {
                after_collection: next_collection,
                after_sequence: next_sequence,
                high_collection,
                high_sequence,
                complete,
            },
        );
        proof {
            assert forall|k: ordering::Key| #[trigger]
                self.in_zero(k) == if visits(rows@, k) {
                    old(self).zero_member(k)
                } else {
                    old(self).in_zero(k)
                } by {
                assert(indexed.in_zero(k) == self.in_zero(k));
            }
            assert(old(self).visited(*self, limit, rows@));
            if old(self).wf() {
                lemma_visited_keeps_wf(*old(self), *self, limit, rows@);
            }
        }
        Ok(n)
    }
}

/// A key is that of one of the visited memberships.
pub open spec fn visits(rows: Seq<VisitedMember>, k: ordering::Key) -> bool {
    exists|a: int| 0 <= a < rows.len() && (#[trigger] rows[a]).key() == k
}

proof fn lemma_visits_next(rows: Seq<VisitedMember>, i: int, k: ordering::Key)
    requires
        0 <= i < rows.len(),
    ensures
        visits(rows.take(i + 1), k) == (visits(rows.take(i), k) || rows[i].key() == k),
{
    if visits(rows.take(i), k) {
        let a = choose|a: int| 0 <= a < i && (#[trigger] rows.take(i)[a]).key() == k;
        assert(rows.take(i + 1)[a].key() == k);
    }
    if rows[i].key() == k {
        assert(rows.take(i + 1)[i].key() == k);
    }
    if visits(rows.take(i + 1), k) && rows[i].key() != k {
        let a = choose|a: int| 0 <= a < i + 1 && (#[trigger] rows.take(i + 1)[a]).key() == k;
        assert(rows.take(i)[a].key() == k);
    }
}

proof fn lemma_visited_keeps_wf(
    before: Membership,
    after: Membership,
    limit: usize,
    rows: Seq<VisitedMember>,
)
    requires
        before.wf(),
        before.backfill is Some,
        !before.backfill->0.complete,
        limit > 0,
        before.visited(after, limit, rows),
    ensures
        after.wf(),
{
    let b = before.backfill->0;
    let n = after.backfill->0;
    assert forall|k: ordering::Key| #[trigger] after.placed(k) by {
        assert(before.placed(k));
        assert(after.is_member(k) == before.is_member(k));
    }
    assert forall|k: ordering::Key| #[trigger] after.indexed(k) by {
        assert(before.indexed(k));
        assert(after.is_member(k) == before.is_member(k));
        assert(after.position_of(k) == before.position_of(k));
        if !visits(rows, k) && before.zero_member(k) && !before.in_zero(k) {
            assert(before.unvisited(k));
            assert(Membership::within(b.after(), b.high(), k));
            assert(rows.len() == limit && ordering::key_before(rows.last().key(), k));
            ordering::lemma_key_order(k, b.high(), k);
        }
    }
}

/// Once the index is complete it holds exactly the memberships at position
/// zero.
pub proof fn law_complete_index_is_exact(m: Membership, k: ordering::Key)
    requires
        m.wf(),
        m.backfill matches Some(b) && b.complete,
    ensures
        m.in_zero(k) == m.zero_member(k),
{
    assert(m.indexed(k));
}

/// A change at one key, after which that key is indexed and placed, keeps the
/// whole well formed.
proof fn lemma_kept_wf(before: Membership, after: Membership, key: ordering::Key)
    requires
        after.backfill == before.backfill,
        forall|k: ordering::Key|
            k != key ==> #[trigger] after.position_of(k) == before.position_of(k),
        forall|k: ordering::Key| k != key ==> #[trigger] after.is_member(k) == before.is_member(k),
        forall|k: ordering::Key| k != key ==> #[trigger] after.in_zero(k) == before.in_zero(k),
        before.wf() ==> after.placed(key) && (after.backfill is Some ==> after.indexed(key)),
    ensures
        before.wf() ==> after.wf(),
{
    if before.wf() {
        assert forall|k: ordering::Key| #[trigger] after.placed(k) by {
            if k != key {
                assert(before.placed(k));
                assert(after.position_of(k) == before.position_of(k));
                assert(after.is_member(k) == before.is_member(k));
            }
        }
        assert forall|k: ordering::Key| after.backfill is Some implies #[trigger] after.indexed(
            k,
        ) by {
            if k != key {
                assert(before.indexed(k));
                assert(after.position_of(k) == before.position_of(k));
                assert(after.is_member(k) == before.is_member(k));
                assert(after.in_zero(k) == before.in_zero(k));
            }
        }
    }
}

proof fn lemma_member_replaced(before: Membership, after: Membership, i: int, k: ordering::Key)
    requires
        0 <= i < before.members@.len(),
        after.members@ == before.members@.update(i, after.members@[i]),
        after.members@[i].key() == before.members@[i].key(),
        support::first_where(before.members@, member_at(before.members@[i].key())) == Some(i),
    ensures
        after.is_member(k) == before.is_member(k),
        k == before.members@[i].key() ==> after.provenance_of(k) == Some(
            after.members@[i].provenance@,
        ),
        k != before.members@[i].key() ==> after.provenance_of(k) == before.provenance_of(k),
{
    support::lemma_replaced(before.members@, after.members@, i, member_at(k));
    support::lemma_first_where(before.members@, member_at(k));
}

impl Membership {
    /// Why a membership cannot be moved to another image.
    pub open spec fn move_refusal(self, from: ordering::Key, to: ordering::Key) -> Option<
        OrderIndexError,
    > {
        if !self.is_member(from) {
            Some(OrderIndexError::MissingMember)
        } else if self.position_of(from) is Some {
            Some(OrderIndexError::PlacedMember)
        } else if self.is_member(to) && to != from {
            Some(OrderIndexError::MemberExists)
        } else {
            None
        }
    }

    /// Moves a membership without an explicit position to another image.
    pub fn move_member(&mut self, collection: &str, sequence: i64, to: i64) -> (r: Result<
        (),
        OrderIndexError,
    >)
        ensures
            match r {
                Err(e) => old(self).move_refusal((collection@, sequence), (collection@, to))
                    == Some(e) && *final(self) == *old(self),
                Ok(()) => {
                    &&& old(self).move_refusal((collection@, sequence), (collection@, to)) is None
                    &&& final(self).backfill == old(self).backfill
                    &&& forall|k: ordering::Key| #[trigger]
                        final(self).provenance_of(k) == if k == (collection@, to) {
                            old(self).provenance_of((collection@, sequence))
                        } else if k == (collection@, sequence) {
                            None
                        } else {
                            old(self).provenance_of(k)
                        }
                    &&& forall|k: ordering::Key| #[trigger]
                        final(self).position_of(k) == old(self).position_of(k)
                },
            },
            old(self).wf() ==> final(self).wf(),
    {
        let i: usize = match self.find_member(collection, sequence) {
            None => return Err(OrderIndexError::MissingMember),
            Some(i) => i,
        };
        if self.find_order(collection, sequence).is_some() {
            return Err(OrderIndexError::PlacedMember);
        }
        if to != sequence && self.find_member(collection, to).is_some() {
            return Err(OrderIndexError::MemberExists);
        }
        let provenance: String = self.members[i].provenance.clone();
        self.remove_member(collection, sequence);
        let ghost removed = *self;
        self.put_member(collection, to, provenance.as_str());
        proof {
            assert forall|k: ordering::Key| #[trigger] self.position_of(k) == old(
                self,
            ).position_of(k) by {
                assert(removed.position_of(k) == self.position_of(k));
            }
            assert forall|k: ordering::Key| #[trigger] self.provenance_of(k) == if k == (
                collection@,
                to,
            ) {
                old(self).provenance_of((collection@, sequence))
            } else if k == (collection@, sequence) {
                None
            } else {
                old(self).provenance_of(k)
            } by {
                assert(removed.provenance_of(k) == if k == (collection@, sequence) {
                    None
                } else {
                    old(self).provenance_of(k)
                });
            }
        }
        Ok(())
    }

    /// One image's memberships were given to another image as well.
    pub open spec fn shared_with(self, after: Self, from: i64, to: i64) -> bool {
        &&& after.backfill == self.backfill
        &&& forall|k: ordering::Key| #[trigger]
            after.provenance_of(k) == if k.1 == to && self.provenance_of((k.0, from)) is Some {
                self.provenance_of((k.0, from))
            } else {
                self.provenance_of(k)
            }
        &&& forall|k: ordering::Key| #[trigger]
            after.position_of(k) == if k.1 == to && self.position_of((k.0, from)) is Some {
                self.position_of((k.0, from))
            } else {
                self.position_of(k)
            }
    }

    /// Gives an image the memberships of another image, with their positions.
    /// Fails only where a position does not belong to a membership or is negative.
    pub fn copy_members(&mut self, from: i64, to: i64) -> (r: Result<(), OrderIndexError>)
        ensures
            old(self).wf() ==> r is Ok && final(self).wf(),
            r is Ok ==> old(self).shared_with(*final(self), from, to),
    {
        if from == to {
            proof {
                assert forall|k: ordering::Key| #[trigger] self.provenance_of(k) == if k.1 == to
                    && old(self).provenance_of((k.0, from)) is Some {
                    old(self).provenance_of((k.0, from))
                } else {
                    old(self).provenance_of(k)
                } by {
                    if k.1 == to {
                        assert(k == (k.0, from));
                    }
                }
                assert forall|k: ordering::Key| #[trigger] self.position_of(k) == if k.1 == to
                    && old(self).position_of((k.0, from)) is Some {
                    old(self).position_of((k.0, from))
                } else {
                    old(self).position_of(k)
                } by {
                    if k.1 == to {
                        assert(k == (k.0, from));
                    }
                }
            }
            return Ok(());
        }
        let members: Vec<MemberRow> = copy_member_rows(&self.members);
        let order: Vec<OrderRow> = copy_order_rows(&self.order);
        let ghost before = *self;
        let mut i: usize = members.len();
        proof {
            assert forall|k: ordering::Key| #[trigger]
                self.provenance_of(k) == before.provenance_given(members@, i as int, from, to, k) by {
                assert(members@.skip(i as int).len() == 0);
            }
        }
        while i > 0
            invariant
                i <= members@.len(),
                from != to,
                self.order == before.order,
                self.backfill == before.backfill,
                before.wf() ==> self.wf(),
                forall|k: ordering::Key| #[trigger]
                    self.provenance_of(k) == before.provenance_given(
                        members@,
                        i as int,
                        from,
                        to,
                        k,
                    ),
            decreases i,
        {
            let ghost earlier = *self;
            i -= 1;
            if members[i].sequence == from {
                self.put_member(members[i].collection.as_str(), to, members[i].provenance.as_str());
            }
            proof {
                assert forall|k: ordering::Key| #[trigger]
                    self.provenance_of(k) == before.provenance_given(
                        members@,
                        i as int,
                        from,
                        to,
                        k,
                    ) by {
                    assert(earlier.provenance_of(k) == before.provenance_given(
                        members@,
                        i + 1,
                        from,
                        to,
                        k,
                    ));
                    let rest = members@.skip(i as int);
                    assert(rest.skip(1) =~= members@.skip(i + 1));
                    assert(rest[0] == members@[i as int]);
                    support::lemma_first_where(rest.skip(1), member_at((k.0, from)));
                }
            }
        }
        let ghost given = *self;
        proof {
            assert(members@.skip(0) =~= members@);
            assert forall|k: ordering::Key| #[trigger]
                self.provenance_of(k) == if k.1 == to && before.provenance_of((k.0, from)) is Some {
                    before.provenance_of((k.0, from))
                } else {
                    before.provenance_of(k)
                } by {
                lemma_same_members(before.members@, members@, (k.0, from));
            }
        }
        let mut j: usize = order.len();
        proof {
            assert forall|k: ordering::Key| #[trigger]
                self.position_of(k) == given.position_given(order@, j as int, from, to, k) by {
                assert(order@.skip(j as int).len() == 0);
            }
        }
        while j > 0
            invariant
                j <= order@.len(),
                from != to,
                self.members == given.members,
                self.backfill == given.backfill,
                given.order == before.order,
                before.wf() ==> self.wf() && given.wf(),
                old_rows_match(before.order@, order@),
                *old(self) == before,
                forall|k: ordering::Key| #[trigger]
                    given.provenance_of(k) == if k.1 == to && before.provenance_of((k.0, from))
                        is Some {
                        before.provenance_of((k.0, from))
                    } else {
                        before.provenance_of(k)
                    },
                forall|k: ordering::Key| #[trigger]
                    self.position_of(k) == given.position_given(order@, j as int, from, to, k),
            decreases j,
        {
            let ghost earlier = *self;
            j -= 1;
            if order[j].image_sequence == from {
                let ghost key = (order@[j as int].collection@, from);
                let first: usize = find_first(&order, j);
                proof {
                    lemma_same_order(before.order@, order@, key);
                    assert(before.wf() ==> before.placed(key));
                    assert(given.provenance_of((key.0, to)) == self.provenance_of((key.0, to)));
                }
                match self.set_position(order[j].collection.as_str(), to, order[first].position) {
                    Err(e) => return Err(e),
                    Ok(()) => {},
                }
            }
            proof {
                assert forall|k: ordering::Key| #[trigger]
                    self.position_of(k) == given.position_given(order@, j as int, from, to, k) by {
                    assert(earlier.position_of(k) == given.position_given(
                        order@,
                        j + 1,
                        from,
                        to,
                        k,
                    ));
                    let rest = order@.skip(j as int);
                    assert(rest.skip(1) =~= order@.skip(j + 1));
                    assert(rest[0] == order@[j as int]);
                    support::lemma_first_where(rest.skip(1), order_at((k.0, from)));
                }
            }
        }
        proof {
            assert(order@.skip(0) =~= order@);
            assert forall|k: ordering::Key| #[trigger]
                self.position_of(k) == if k.1 == to && before.position_of((k.0, from)) is Some {
                    before.position_of((k.0, from))
                } else {
                    before.position_of(k)
                } by {
                lemma_same_order(before.order@, order@, (k.0, from));
                assert(given.position_of(k) == before.position_of(k));
            }
            assert forall|k: ordering::Key| #[trigger]
                self.provenance_of(k) == if k.1 == to && before.provenance_of((k.0, from)) is Some {
                    before.provenance_of((k.0, from))
                } else {
                    before.provenance_of(k)
                } by {
                assert(given.provenance_of(k) == self.provenance_of(k));
            }
        }
        Ok(())
    }

    /// The provenance of a membership once the rows from `i` on were given away.
    spec fn provenance_given(
        self,
        rows: Seq<MemberRow>,
        i: int,
        from: i64,
        to: i64,
        k: ordering::Key,
    ) -> Option<Seq<char>> {
        match support::first_where(rows.skip(i), member_at((k.0, from))) {
            Some(j) if k.1 == to => Some(rows.skip(i)[j].provenance@),
            _ => self.provenance_of(k),
        }
    }

    /// The position of a membership once the rows from `i` on were given away.
    spec fn position_given(
        self,
        rows: Seq<OrderRow>,
        i: int,
        from: i64,
        to: i64,
        k: ordering::Key,
    ) -> Option<i64> {
        if k.1 == to && support::first_where(rows.skip(i), order_at((k.0, from))) is Some {
            first_position(rows, (k.0, from))
        } else {
            self.position_of(k)
        }
    }
}

/// The position that the first row with a key gives.
spec fn first_position(rows: Seq<OrderRow>, k: ordering::Key) -> Option<i64> {
    match support::first_where(rows, order_at(k)) {
        Some(i) => Some(rows[i].position),
        None => None,
    }
}

/// The first row with the same key as a row.
fn find_first(rows: &Vec<OrderRow>, j: usize) -> (first: usize)
    requires
        j < rows@.len(),
    ensures
        first < rows@.len(),
        support::first_where(rows@, order_at(rows@[j as int].key())) == Some(first as int),
{
    let ghost p = order_at(rows@[j as int].key());
    let mut i: usize = 0;
    while i < j
        invariant
            i <= j < rows@.len(),
            p == order_at(rows@[j as int].key()),
            forall|m: int| 0 <= m < i ==> !p(#[trigger] rows@[m]),
        decreases j - i,
    {
        if rows[i].image_sequence == rows[j].image_sequence && same(
            rows[i].collection.as_str(),
            rows[j].collection.as_str(),
        ) {
            proof {
                support::lemma_first_found(rows@, p, i as int);
            }
            return i;
        }
        i += 1;
    }
    proof {
        support::lemma_first_found(rows@, p, j as int);
    }
    j
}

/// Copied order rows match the rows they were copied from.
spec fn old_rows_match(rows: Seq<OrderRow>, copy: Seq<OrderRow>) -> bool {
    &&& copy.len() == rows.len()
    &&& forall|i: int|
        0 <= i < copy.len() ==> (#[trigger] copy[i]).key() == rows[i].key() && copy[i].position
            == rows[i].position
}

spec fn member_rows_match(rows: Seq<MemberRow>, copy: Seq<MemberRow>) -> bool {
    &&& copy.len() == rows.len()
    &&& forall|i: int|
        0 <= i < copy.len() ==> (#[trigger] copy[i]).key() == rows[i].key() && copy[i].provenance@
            == rows[i].provenance@
}

fn copy_member_rows(rows: &Vec<MemberRow>) -> (copy: Vec<MemberRow>)
    ensures
        member_rows_match(rows@, copy@),
{
    let mut copy: Vec<MemberRow> = Vec::new();
    let mut i: usize = 0;
    while i < rows.len()
        invariant
            i <= rows@.len(),
            copy@.len() == i,
            forall|j: int|
                0 <= j < i ==> (#[trigger] copy@[j]).key() == rows@[j].key()
                    && copy@[j].provenance@ == rows@[j].provenance@,
        decreases rows@.len() - i,
    {
        copy.push(
            MemberRow {
                collection: rows[i].collection.clone(),
                sequence: rows[i].sequence,
                provenance: rows[i].provenance.clone(),
            },
        );
        i += 1;
    }
    copy
}

fn copy_order_rows(rows: &Vec<OrderRow>) -> (copy: Vec<OrderRow>)
    ensures
        old_rows_match(rows@, copy@),
{
    let mut copy: Vec<OrderRow> = Vec::new();
    let mut i: usize = 0;
    while i < rows.len()
        invariant
            i <= rows@.len(),
            copy@.len() == i,
            forall|j: int|
                0 <= j < i ==> (#[trigger] copy@[j]).key() == rows@[j].key() && copy@[j].position
                    == rows@[j].position,
        decreases rows@.len() - i,
    {
        copy.push(
            OrderRow {
                collection: rows[i].collection.clone(),
                image_sequence: rows[i].image_sequence,
                position: rows[i].position,
            },
        );
        i += 1;
    }
    copy
}

proof fn lemma_same_members(rows: Seq<MemberRow>, copy: Seq<MemberRow>, k: ordering::Key)
    requires
        member_rows_match(rows, copy),
    ensures
        support::first_where(rows, member_at(k)) == support::first_where(copy, member_at(k)),
        match support::first_where(rows, member_at(k)) {
            Some(i) => rows[i].provenance@ == copy[i].provenance@,
            None => true,
        },
{
    support::lemma_first_where(rows, member_at(k));
    match support::first_where(rows, member_at(k)) {
        Some(i) => {
            assert(copy[i].key() == rows[i].key());
            support::lemma_first_found(copy, member_at(k), i);
        },
        None => {
            support::lemma_none_found(copy, member_at(k));
        },
    }
}

proof fn lemma_same_order(rows: Seq<OrderRow>, copy: Seq<OrderRow>, k: ordering::Key)
    requires
        old_rows_match(rows, copy),
    ensures
        support::first_where(rows, order_at(k)) == support::first_where(copy, order_at(k)),
        match support::first_where(rows, order_at(k)) {
            Some(i) => rows[i].position == copy[i].position,
            None => true,
        },
{
    support::lemma_first_where(rows, order_at(k));
    match support::first_where(rows, order_at(k)) {
        Some(i) => {
            assert(copy[i].key() == rows[i].key());
            support::lemma_first_found(copy, order_at(k), i);
        },
        None => {
            support::lemma_none_found(copy, order_at(k));
        },
    }
}

} // verus!
