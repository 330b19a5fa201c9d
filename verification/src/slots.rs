//! The slot table: live connections by token, with freed tokens reused.

use crate::connection::{Connection, ConnectionView};
use slab::Slab;
use vstd::prelude::*;

verus! {

/// The fixed-capacity arena of the `slab` crate.
#[verifier::external_type_specification]
#[verifier::external_body]
#[verifier::reject_recursive_types(T)]
#[verifier::reject_recursive_types(I)]
pub struct ExSlab<T, I>(Slab<T, I>);

/// What the occupied slots of a slab hold, by index.
pub uninterp spec fn slab_contents(slab: Slab<Connection, usize>) -> Map<usize, Connection>;

/// The vacant slots of a slab, in the order in which insertions take them.
pub uninterp spec fn slab_vacant(slab: Slab<Connection, usize>) -> Seq<usize>;

/// The largest table that can be asked for.
pub const MAX_SLOTS: usize = 10_000_000;

/// The indices below `capacity`, in rising order.
pub open spec fn all_vacant(capacity: usize) -> Seq<usize> {
    Seq::new(capacity as nat, |i: int| i as usize)
}

/// Calls `Slab::with_capacity`, which lays out `capacity` empty slots and
/// chains them so that they are handed out in rising order. It computes
/// `capacity + 1` and allocates all slots at once, so the capacity is kept
/// to a size whose slots fit in memory that can be addressed.
#[verifier::external_body]
fn slab_with_capacity(capacity: usize) -> (slab: Slab<Connection, usize>)
    requires
        capacity <= MAX_SLOTS,
    ensures
        slab_contents(slab) == (Map::<usize, Connection>::empty()),
        slab_vacant(slab) == all_vacant(capacity),
{
    Slab::with_capacity(capacity)
}

/// Calls `Slab::contains`: whether the slot at `index` is occupied. An index
/// beyond the capacity is not.
#[verifier::external_body]
fn slab_contains(slab: &Slab<Connection, usize>, index: usize) -> (found: bool)
    ensures
        found == slab_contents(*slab).contains_key(index),
{
    slab.contains(index)
}

/// Calls `Slab::vacant_entry` and `VacantEntry::index`: the slot that the
/// next insertion takes, if one is vacant. The slab is left as it was.
#[verifier::external_body]
fn slab_vacant_index(slab: &mut Slab<Connection, usize>) -> (index: Option<usize>)
    ensures
        index == (if slab_vacant(*old(slab)).len() > 0 {
            Some(slab_vacant(*old(slab))[0])
        } else {
            None
        }),
        *final(slab) == *old(slab),
{
    match slab.vacant_entry() {
        Some(entry) => Some(entry.index()),
        None => None,
    }
}

/// Calls `Slab::insert`: the value goes into the first vacant slot, whose
/// index is returned; with no slot vacant the value comes back and nothing
/// changes.
#[verifier::external_body]
fn slab_insert(slab: &mut Slab<Connection, usize>, connection: Connection) -> (r: Result<
    usize,
    Connection,
>)
    ensures
        match r {
            Ok(index) => {
                &&& slab_vacant(*old(slab)).len() > 0
                &&& index == slab_vacant(*old(slab))[0]
                &&& slab_contents(*final(slab)) == slab_contents(*old(slab)).insert(
                    index,
                    connection,
                )
                &&& slab_vacant(*final(slab)) == slab_vacant(*old(slab)).drop_first()
            },
            Err(back) => {
                &&& slab_vacant(*old(slab)).len() == 0
                &&& back == connection
                &&& *final(slab) == *old(slab)
            },
        },
{
    slab.insert(connection)
}

/// Calls `Slab::remove`: an occupied slot gives up its value and becomes the
/// first vacant slot; on any other index nothing changes.
#[verifier::external_body]
fn slab_remove(slab: &mut Slab<Connection, usize>, index: usize) -> (removed: Option<Connection>)
    ensures
        match removed {
            Some(connection) => {
                &&& slab_contents(*old(slab)).contains_key(index)
                &&& connection == slab_contents(*old(slab))[index]
                &&& slab_contents(*final(slab)) == slab_contents(*old(slab)).remove(index)
                &&& slab_vacant(*final(slab)) == seq![index] + slab_vacant(*old(slab))
            },
            None => {
                &&& !slab_contents(*old(slab)).contains_key(index)
                &&& *final(slab) == *old(slab)
            },
        },
{
    slab.remove(index)
}

/// Calls `Slab::get` on an occupied slot: a reference to its value.
#[verifier::external_body]
fn slab_get(slab: &Slab<Connection, usize>, index: usize) -> (connection: &Connection)
    requires
        slab_contents(*slab).contains_key(index),
    ensures
        *connection == slab_contents(*slab)[index],
{
    slab.get(index).unwrap()
}

/// Calls `Slab::get_mut` on an occupied slot: a mutable reference to its
/// value. What is written through it is what the slot holds afterwards;
/// nothing else changes.
#[verifier::external_body]
fn slab_get_mut(slab: &mut Slab<Connection, usize>, index: usize) -> (connection: &mut Connection)
    requires
        slab_contents(*old(slab)).contains_key(index),
    ensures
        *connection == slab_contents(*old(slab))[index],
        slab_contents(*final(slab)) == slab_contents(*old(slab)).insert(index, *final(connection)),
        slab_vacant(*final(slab)) == slab_vacant(*old(slab)),
{
    slab.get_mut(index).unwrap()
}

/// The mathematical content of a slot table.
pub struct SlotsView {
    /// The live connections, by token.
    pub conns: Map<usize, ConnectionView>,
    /// The free tokens, the next one to be handed out first.
    pub vacant: Seq<usize>,
    /// The number of slots.
    pub capacity: usize,
    /// For each slot, the number of connections that have left it.
    pub generations: Seq<u64>,
}

/// The generation that follows `generation`; the count starts over behind
/// the largest number.
pub open spec fn next_generation(generation: u64) -> u64 {
    if generation == u64::MAX {
        0
    } else {
        (generation + 1) as u64
    }
}

/// The live tokens below `bound`, in rising order.
pub open spec fn live_below(conns: Map<usize, ConnectionView>, bound: nat) -> Seq<usize>
    decreases bound,
{
    if bound == 0 {
        Seq::empty()
    } else {
        let rest = live_below(conns, (bound - 1) as nat);
        if conns.contains_key((bound - 1) as usize) {
            rest.push((bound - 1) as usize)
        } else {
            rest
        }
    }
}

impl SlotsView {
    /// Every slot is either live or vacant, never both and never twice; a
    /// live connection knows its own token and is well formed.
    pub open spec fn wf(self) -> bool {
        &&& self.vacant.no_duplicates()
        &&& forall|i: int|
            0 <= i < self.vacant.len() ==> (#[trigger] self.vacant[i]) < self.capacity
                && !self.conns.contains_key(self.vacant[i])
        &&& forall|k: usize| #[trigger]
            self.conns.contains_key(k) ==> k < self.capacity && self.conns[k].token == k
                && self.conns[k].wf()
        &&& forall|k: usize|
            k < self.capacity ==> self.conns.contains_key(k) || #[trigger] self.vacant.contains(k)
        &&& self.generations.len() == self.capacity
    }

    /// A table of `capacity` slots, all vacant.
    pub open spec fn empty(capacity: usize) -> SlotsView {
        SlotsView {
            conns: Map::empty(),
            vacant: all_vacant(capacity),
            capacity,
            generations: Seq::new(capacity as nat, |i: int| 0u64),
        }
    }

    /// The live tokens, in rising order.
    pub open spec fn live(self) -> Seq<usize> {
        live_below(self.conns, self.capacity as nat)
    }

    /// The table after a fresh connection has taken the first vacant slot,
    /// if there is one.
    pub open spec fn opened(self) -> SlotsView {
        if self.vacant.len() == 0 {
            self
        } else {
            SlotsView {
                conns: self.conns.insert(self.vacant[0], ConnectionView::fresh(self.vacant[0])),
                vacant: self.vacant.drop_first(),
                ..self
            }
        }
    }

    /// The table after the connection at `token` has been removed: its
    /// slot is the next to be handed out, under the next generation.
    pub open spec fn removed(self, token: usize) -> SlotsView {
        if self.conns.contains_key(token) {
            SlotsView {
                conns: self.conns.remove(token),
                vacant: seq![token] + self.vacant,
                generations: self.generations.update(
                    token as int,
                    next_generation(self.generations[token as int]),
                ),
                ..self
            }
        } else {
            self
        }
    }

    /// Whether the connection that had `token` under `generation` is still
    /// the one that lives there.
    pub open spec fn is_current(self, token: usize, generation: u64) -> bool {
        self.conns.contains_key(token) && self.generations[token as int] == generation
    }

    /// The table with the connection at `token` replaced.
    pub open spec fn updated(self, token: usize, connection: ConnectionView) -> SlotsView {
        SlotsView { conns: self.conns.insert(token, connection), ..self }
    }
}

/// A token is among the live tokens below a bound exactly if it is live and
/// below the bound, and the live tokens rise strictly.
pub proof fn lemma_live_below(conns: Map<usize, ConnectionView>, bound: nat)
    requires
        bound <= usize::MAX,
    ensures
        forall|k: usize|
            live_below(conns, bound).contains(k) <==> conns.contains_key(k) && k < bound,
        forall|i: int, j: int|
            0 <= i < j < live_below(conns, bound).len() ==> live_below(conns, bound)[i]
                < live_below(conns, bound)[j],
        forall|i: int|
            0 <= i < live_below(conns, bound).len() ==> (#[trigger] live_below(conns, bound)[i])
                < bound,
    decreases bound,
{
    if bound > 0 {
        let rest = live_below(conns, (bound - 1) as nat);
        let all = live_below(conns, bound);
        let top = (bound - 1) as usize;
        lemma_live_below(conns, (bound - 1) as nat);
        assert forall|k: usize| all.contains(k) <==> conns.contains_key(k) && k < bound by {
            if conns.contains_key(top) {
                assert(all == rest.push(top));
                assert(all[rest.len() as int] == top);
                if all.contains(k) {
                    let i = choose|i: int| 0 <= i < all.len() && all[i] == k;
                    if i < rest.len() {
                        assert(rest[i] == k);
                        assert(rest.contains(k));
                    }
                }
                if conns.contains_key(k) && k < bound {
                    if k == top {
                        assert(all.contains(k));
                    } else {
                        assert(rest.contains(k));
                        let i = choose|i: int| 0 <= i < rest.len() && rest[i] == k;
                        assert(all[i] == k);
                    }
                }
            } else {
                assert(all == rest);
            }
        }
    }
}

/// A table stays well formed when a fresh connection takes its first
/// vacant slot.
pub proof fn lemma_opened_wf(slots: SlotsView)
    requires
        slots.wf(),
    ensures
        slots.opened().wf(),
{
    let after = slots.opened();
    if slots.vacant.len() > 0 {
        let token = slots.vacant[0];
        assert forall|i: int| 0 <= i < after.vacant.len() implies (#[trigger] after.vacant[i])
            < after.capacity && !after.conns.contains_key(after.vacant[i]) by {
            assert(after.vacant[i] == slots.vacant[i + 1]);
        }
        assert forall|k: usize| k < after.capacity implies after.conns.contains_key(k)
            || #[trigger] after.vacant.contains(k) by {
            if k != token && !slots.conns.contains_key(k) {
                assert(slots.vacant.contains(k));
                let i = choose|i: int| 0 <= i < slots.vacant.len() && slots.vacant[i] == k;
                assert(after.vacant[i - 1] == k);
            }
        }
        assert forall|i: int, j: int|
            0 <= i < after.vacant.len() && 0 <= j < after.vacant.len() && i != j implies after.vacant[i]
            != after.vacant[j] by {
            assert(slots.vacant[i + 1] != slots.vacant[j + 1]);
        }
    }
}

/// A table stays well formed when a connection is removed.
pub proof fn lemma_removed_wf(slots: SlotsView, token: usize)
    requires
        slots.wf(),
    ensures
        slots.removed(token).wf(),
{
    let after = slots.removed(token);
    if slots.conns.contains_key(token) {
        assert forall|i: int| 0 <= i < after.vacant.len() implies (#[trigger] after.vacant[i])
            < after.capacity && !after.conns.contains_key(after.vacant[i]) by {
            if i > 0 {
                assert(after.vacant[i] == slots.vacant[i - 1]);
            }
        }
        assert forall|k: usize| k < after.capacity implies after.conns.contains_key(k)
            || #[trigger] after.vacant.contains(k) by {
            if k == token {
                assert(after.vacant[0] == k);
            } else if !slots.conns.contains_key(k) {
                assert(slots.vacant.contains(k));
                let i = choose|i: int| 0 <= i < slots.vacant.len() && slots.vacant[i] == k;
                assert(after.vacant[i + 1] == k);
            }
        }
        assert forall|i: int, j: int|
            0 <= i < after.vacant.len() && 0 <= j < after.vacant.len() && i != j implies after.vacant[i]
            != after.vacant[j] by {
            if i > 0 && j > 0 {
                assert(slots.vacant[i - 1] != slots.vacant[j - 1]);
            } else if i > 0 {
                assert(after.vacant[i] == slots.vacant[i - 1]);
            } else {
                assert(after.vacant[j] == slots.vacant[j - 1]);
            }
        }
    }
}

/// A table stays well formed when a live connection is replaced by a well
/// formed one that keeps the token.
pub proof fn lemma_updated_wf(slots: SlotsView, token: usize, connection: ConnectionView)
    requires
        slots.wf(),
        slots.conns.contains_key(token),
        connection.token == token,
        connection.wf(),
    ensures
        slots.updated(token, connection).wf(),
        slots.updated(token, connection).conns.dom() == slots.conns.dom(),
{
    assert(slots.updated(token, connection).conns.dom() =~= slots.conns.dom());
}

/// The content of each connection of a table.
pub open spec fn views(contents: Map<usize, Connection>) -> Map<usize, ConnectionView> {
    contents.map_values(|c: Connection| c@)
}

/// The slot table of a server.
pub struct Slots {
    slab: Slab<Connection, usize>,
    capacity: usize,
    generations: Vec<u64>,
}

impl View for Slots {
    type V = SlotsView;

    closed spec fn view(&self) -> SlotsView {
        SlotsView {
            conns: views(slab_contents(self.slab)),
            vacant: slab_vacant(self.slab),
            capacity: self.capacity,
            generations: self.generations@,
        }
    }
}

impl Slots {
    /// The invariant of a slot table.
    pub open spec fn wf(&self) -> bool {
        self@.wf()
    }

    /// A table of `capacity` vacant slots, handed out in rising order.
    pub fn with_capacity(capacity: usize) -> (slots: Slots)
        requires
            capacity <= MAX_SLOTS,
        ensures
            slots@ == SlotsView::empty(capacity),
            slots.wf(),
    {
        let mut generations: Vec<u64> = Vec::with_capacity(capacity);
        while generations.len() < capacity
            invariant
                generations@.len() <= capacity,
                forall|i: int| 0 <= i < generations@.len() ==> generations@[i] == 0,
            decreases capacity - generations@.len(),
        {
            generations.push(0);
        }
        let slots = Slots { slab: slab_with_capacity(capacity), capacity, generations };
        assert(slots@.conns =~= Map::empty());
        assert(slots@.generations =~= Seq::new(capacity as nat, |i: int| 0u64));
        assert forall|k: usize| k < capacity implies #[trigger] slots@.vacant.contains(k) by {
            assert(slots@.vacant[k as int] == k);
        }
        slots
    }

    /// The number of slots.
    pub fn capacity(&self) -> (capacity: usize)
        ensures
            capacity == self@.capacity,
    {
        self.capacity
    }

    /// Whether a connection lives at `token`.
    pub fn contains(&self, token: usize) -> (found: bool)
        ensures
            found == self@.conns.contains_key(token),
    {
        slab_contains(&self.slab, token)
    }

    /// Puts a fresh connection into the first vacant slot and returns its
    /// token, or `None` with nothing changed when no slot is vacant.
    pub fn open(&mut self) -> (token: Option<usize>)
        requires
            old(self).wf(),
        ensures
            final(self).wf(),
            final(self)@ == old(self)@.opened(),
            token == (if old(self)@.vacant.len() > 0 {
                Some(old(self)@.vacant[0])
            } else {
                None
            }),
    {
        match slab_vacant_index(&mut self.slab) {
            None => None,
            Some(token) => {
                let r = slab_insert(&mut self.slab, Connection::new(token));
                proof {
                    let before = old(self)@;
                    assert(self@.conns =~= before.conns.insert(token, ConnectionView::fresh(token)));
                    lemma_opened_wf(before);
                }
                Some(token)
            },
        }
    }

    /// Removes the connection at `token`, if one lives there, and says
    /// whether one did. The freed slot is the next to be handed out.
    pub fn remove(&mut self, token: usize) -> (found: bool)
        requires
            old(self).wf(),
        ensures
            final(self).wf(),
            final(self)@ == old(self)@.removed(token),
            found == old(self)@.conns.contains_key(token),
    {
        match slab_remove(&mut self.slab, token) {
            None => false,
            Some(_) => {
                assert(old(self)@.conns.contains_key(token));
                let generation = self.generations[token];
                let next = if generation == u64::MAX {
                    0
                } else {
                    generation + 1
                };
                self.generations.set(token, next);
                proof {
                    let before = old(self)@;
                    assert(self@.conns =~= before.conns.remove(token));
                    lemma_removed_wf(before, token);
                }
                true
            },
        }
    }

    /// The generation of the connection at `token`, if one lives there.
    /// It tells the connection apart from those that had the token before.
    pub fn generation(&self, token: usize) -> (generation: Option<u64>)
        requires
            self.wf(),
        ensures
            generation == (if self@.conns.contains_key(token) {
                Some(self@.generations[token as int])
            } else {
                None
            }),
    {
        if slab_contains(&self.slab, token) {
            assert(self@.conns.contains_key(token));
            Some(self.generations[token])
        } else {
            None
        }
    }

    /// The connection at a live token.
    pub fn get(&self, token: usize) -> (connection: &Connection)
        requires
            self@.conns.contains_key(token),
        ensures
            connection@ == self@.conns[token],
    {
        slab_get(&self.slab, token)
    }

    /// The connection at a live token, to be changed in place.
    pub(crate) fn get_mut(&mut self, token: usize) -> (connection: &mut Connection)
        requires
            old(self)@.conns.contains_key(token),
        ensures
            connection@ == old(self)@.conns[token],
            final(self)@ == old(self)@.updated(token, final(connection)@),
    {
        proof {
            let contents = slab_contents(self.slab);
            assert forall|c: Connection| #[trigger]
                views(contents.insert(token, c)) == self@.conns.insert(token, c@) by {
                assert(views(contents.insert(token, c)) =~= self@.conns.insert(token, c@));
            }
        }
        slab_get_mut(&mut self.slab, token)
    }

    /// The live tokens, in rising order.
    pub fn tokens(&self) -> (tokens: Vec<usize>)
        ensures
            tokens@ == self@.live(),
    {
        let mut tokens: Vec<usize> = Vec::new();
        let mut index: usize = 0;
        while index < self.capacity
            invariant
                index <= self.capacity,
                tokens@ == live_below(self@.conns, index as nat),
            decreases self.capacity - index,
        {
            if self.contains(index) {
                tokens.push(index);
            }
            index += 1;
        }
        tokens
    }
}

} // verus!
