//! The boundary ownership protocol.
//!
//! The foreign host never touches a table directly: it holds an opaque
//! `Handle` into a `TableArena` of generation-tagged slots. A handle is good
//! for exactly one table lifetime. Creating a table issues a fresh handle;
//! adopting a table into a parent leaves a permanent `moved` marker behind,
//! so a later use of the stale handle is detected and reported rather than
//! undefined; releasing a table vacates its slot and steps the generation,
//! so a double release is detected the same way. Every table is owned by
//! exactly one place at all times: its live slot, or the single parent value
//! that adopted it.

use vstd::prelude::*;
use crate::tables::LuaKey;
use crate::tables::LuaValue;
use crate::tables::Table;
use crate::tables::TableModel;
use crate::tables::ValueModel;
use crate::tables::dispose;
use crate::tables::empty_table_model;
use crate::tables::key_chars;
use crate::tables::map_put;
use crate::tables::number_values;
use crate::tables::numeric_projection;
use crate::tables::render_table;
use crate::tables::table_model;
use crate::tables::table_wf;
use crate::tables::value_model;
use crate::tables::value_wf;

verus! {

/// An opaque reference to a table: a slot index and the generation the slot
/// had when the table was created. A handle compares equal only to itself:
/// this is the identity equality of tables.
#[derive(Clone, Copy, Debug, PartialEq, Eq, Structural)]
pub struct Handle {
    index: usize,
    generation: u64,
}

/// What went wrong with a boundary call.
#[derive(Clone, Copy, Debug, PartialEq, Eq, Structural)]
pub enum TableError {
    /// The handle names no live table: it is null-like, was released, or
    /// belongs to an earlier occupant of its slot.
    InvalidHandle,
    /// The handle's table was adopted into a parent; the handle must not be
    /// used again.
    MovedHandle,
    /// A table cannot adopt itself.
    SelfAdoption,
}

/// One slot of the arena.
enum SlotState {
    /// No table; the slot can be reused.
    Vacant,
    /// A live table, owned by the external holder of its handle.
    Live(Table),
    /// The table that lived here was adopted into a parent; the slot stays
    /// marked so the stale handle is reported as moved.
    Moved,
}

struct Slot {
    generation: u64,
    state: SlotState,
}

/// The arena of all tables the boundary knows, and the sole enforcement
/// point of the ownership protocol.
pub struct TableArena {
    slots: Vec<Slot>,
    issued: Ghost<Set<(int, int)>>,
}

/// The slot and generation a handle names.
pub closed spec fn handle_id(h: Handle) -> (int, int) {
    (h.index as int, h.generation as int)
}

impl TableArena {
    /// The identities of every handle this arena has ever issued.
    pub closed spec fn issued_ids(self) -> Set<(int, int)> {
        self.issued@
    }

    /// Whether a handle names a live table.
    pub closed spec fn is_live(self, h: Handle) -> bool {
        &&& (h.index as int) < self.slots@.len()
        &&& self.slots@[h.index as int].generation == h.generation
        &&& self.slots@[h.index as int].state is Live
    }

    /// Whether a handle names a table that was adopted into a parent.
    pub closed spec fn is_moved(self, h: Handle) -> bool {
        &&& (h.index as int) < self.slots@.len()
        &&& self.slots@[h.index as int].generation == h.generation
        &&& self.slots@[h.index as int].state is Moved
    }

    /// The table a live handle names.
    pub closed spec fn table_at(self, h: Handle) -> TableModel {
        match self.slots@[h.index as int].state {
            SlotState::Live(t) => table_model(t),
            _ => empty_table_model(),
        }
    }

    /// The arena's invariant: every issued handle points inside the arena
    /// and at most at its slot's current generation; a slot at an issued
    /// handle's generation is never vacant, so the handle can never be
    /// reissued; and every live table is well formed.
    pub closed spec fn wf(self) -> bool {
        &&& forall|p: (int, int)|
            self.issued@.contains(p) ==> 0 <= p.0 < self.slots@.len() && 0 <= p.1
                <= self.slots@[p.0].generation && (p.1 == self.slots@[p.0].generation
                ==> !(self.slots@[p.0].state is Vacant))
        &&& forall|i: int|
            0 <= i < self.slots@.len() ==> ((#[trigger] self.slots@[i].state) matches
            SlotState::Live(t) ==> table_wf(table_model(t)))
    }

    /// Creates an empty arena.
    pub fn new() -> (a: TableArena)
        ensures
            a.wf(),
            a.issued_ids() == Set::<(int, int)>::empty(),
            forall|h: Handle| !(#[trigger] a.is_live(h)),
    {
        let a = TableArena { slots: Vec::new(), issued: Ghost(Set::empty()) };
        a
    }

    /// Creates an empty table and issues a handle for it. The handle is
    /// fresh: it differs from every handle this arena ever issued, so two
    /// created tables are never identity-equal.
    pub fn create_table(&mut self) -> (h: Handle)
        requires
            old(self).wf(),
        ensures
            final(self).wf(),
            !old(self).issued_ids().contains(handle_id(h)),
            final(self).issued_ids() == old(self).issued_ids().insert(handle_id(h)),
            final(self).is_live(h),
            final(self).table_at(h) == empty_table_model(),
            forall|h2: Handle|
                h2 != h ==> final(self).is_live(h2) == old(self).is_live(h2),
            forall|h2: Handle|
                h2 != h ==> final(self).is_moved(h2) == old(self).is_moved(h2),
            forall|h2: Handle|
                h2 != h && old(self).is_live(h2) ==> final(self).table_at(h2) == old(
                    self,
                ).table_at(h2),
    {
        let n = self.slots.len();
        let mut i: usize = 0;
        while i < n
            invariant
                n == self.slots@.len(),
                i <= n,
                *self == *old(self),
                old(self).wf(),
            decreases n - i,
        {
            let vacant = match &self.slots[i].state {
                SlotState::Vacant => true,
                _ => false,
            };
            if vacant {
                let g = self.slots[i].generation;
                let h = Handle { index: i, generation: g };
                self.slots[i].state = SlotState::Live(Table::new());
                proof {
                    let ii = i as int;
                    let gi = g as int;
                    if old(self).issued@.contains((ii, gi)) {
                        assert(old(self).slots@[ii].state is Vacant);
                    }
                    assert(!old(self).issued@.contains(handle_id(h)));
                    self.issued@ = old(self).issued@.insert((ii, gi));
                    assert forall|p: (int, int)| self.issued@.contains(p) implies 0 <= p.0
                        < self.slots@.len() && 0 <= p.1 <= self.slots@[p.0].generation && (
                    p.1 == self.slots@[p.0].generation ==> !(self.slots@[p.0].state
                        is Vacant)) by {
                        if p != (ii, gi) {
                            assert(old(self).issued@.contains(p));
                            assert(0 <= p.0 < old(self).slots@.len());
                            if p.0 != ii {
                                assert(self.slots@[p.0] == old(self).slots@[p.0]);
                            }
                        }
                    }
                    assert forall|i2: int| 0 <= i2 < self.slots@.len() implies ((
                    #[trigger] self.slots@[i2].state) matches SlotState::Live(t)
                        ==> table_wf(table_model(t))) by {
                        if i2 != ii {
                            assert(self.slots@[i2] == old(self).slots@[i2]);
                        }
                    }
                    assert forall|h2: Handle| h2 != h implies final(self).is_live(h2)
                        == old(self).is_live(h2) && final(self).is_moved(h2) == old(
                        self,
                    ).is_moved(h2) by {
                        let j = h2.index as int;
                        if j < self.slots@.len() && j != ii {
                            assert(self.slots@[j] == old(self).slots@[j]);
                        }
                    }
                }
                return h;
            }
            i = i + 1;
        }
        let g: u64 = 0;
        let h = Handle { index: n, generation: g };
        self.slots.push(Slot { generation: g, state: SlotState::Live(Table::new()) });
        proof {
            self.issued@ = self.issued@.insert((n as int, 0int));
        }
        h
    }
}

impl TableArena {
    /// Sorts a handle into live, moved, or invalid, and reports the error
    /// the mutators return for it.
    fn check_live(&self, h: Handle) -> (r: Result<(), TableError>)
        ensures
            (r is Ok) == self.is_live(h),
            (r == Err::<(), TableError>(TableError::MovedHandle)) == self.is_moved(h),
            (r == Err::<(), TableError>(TableError::InvalidHandle)) == (!self.is_live(h)
                && !self.is_moved(h)),
    {
        if h.index >= self.slots.len() {
            return Err(TableError::InvalidHandle);
        }
        if self.slots[h.index].generation != h.generation {
            return Err(TableError::InvalidHandle);
        }
        match &self.slots[h.index].state {
            SlotState::Live(_) => Ok(()),
            SlotState::Moved => Err(TableError::MovedHandle),
            SlotState::Vacant => Err(TableError::InvalidHandle),
        }
    }

    /// Appends one value to a live table's array part; reports and leaves
    /// everything unchanged on a dead handle.
    fn append_value_at(&mut self, h: Handle, v: LuaValue) -> (r: Result<(), TableError>)
        requires
            old(self).wf(),
            value_wf(value_model(v)),
        ensures
            final(self).wf(),
            final(self).issued_ids() == old(self).issued_ids(),
            (r is Ok) == old(self).is_live(h),
            (r == Err::<(), TableError>(TableError::MovedHandle)) == old(self).is_moved(h),
            (r == Err::<(), TableError>(TableError::InvalidHandle)) == (!old(self).is_live(
                h,
            ) && !old(self).is_moved(h)),
            !old(self).is_live(h) ==> *final(self) == *old(self),
            old(self).is_live(h) ==> final(self).table_at(h).arr == old(self).table_at(
                h,
            ).arr.push(value_model(v)) && final(self).table_at(h).map == old(
                self,
            ).table_at(h).map,
            forall|h2: Handle| final(self).is_live(h2) == old(self).is_live(h2),
            forall|h2: Handle| final(self).is_moved(h2) == old(self).is_moved(h2),
            forall|h2: Handle|
                h2 != h && old(self).is_live(h2) ==> final(self).table_at(h2) == old(
                    self,
                ).table_at(h2),
    {
        match self.check_live(h) {
            Err(e) => { return Err(e) },
            Ok(()) => {},
        }
        let ghost pre = *self;
        let mut st = SlotState::Vacant;
        core::mem::swap(&mut self.slots[h.index].state, &mut st);
        let mut t = match st {
            SlotState::Live(t) => t,
            _ => vstd::pervasive::unreached(),
        };
        t.add_value(v);
        let mut back = SlotState::Live(t);
        core::mem::swap(&mut self.slots[h.index].state, &mut back);
        proof {
            lemma_one_slot_table_change(pre, *self, h);
        }
        Ok(())
    }

    /// Upserts one entry in a live table's hash part; reports and leaves
    /// everything unchanged on a dead handle.
    fn put_value_at(&mut self, h: Handle, k: LuaKey, v: LuaValue) -> (r: Result<
        (),
        TableError,
    >)
        requires
            old(self).wf(),
            value_wf(value_model(v)),
        ensures
            final(self).wf(),
            final(self).issued_ids() == old(self).issued_ids(),
            (r is Ok) == old(self).is_live(h),
            (r == Err::<(), TableError>(TableError::MovedHandle)) == old(self).is_moved(h),
            (r == Err::<(), TableError>(TableError::InvalidHandle)) == (!old(self).is_live(
                h,
            ) && !old(self).is_moved(h)),
            !old(self).is_live(h) ==> *final(self) == *old(self),
            old(self).is_live(h) ==> final(self).table_at(h).map == map_put(
                old(self).table_at(h).map,
                key_chars(k),
                value_model(v),
            ) && final(self).table_at(h).arr == old(self).table_at(h).arr,
            forall|h2: Handle| final(self).is_live(h2) == old(self).is_live(h2),
            forall|h2: Handle| final(self).is_moved(h2) == old(self).is_moved(h2),
            forall|h2: Handle|
                h2 != h && old(self).is_live(h2) ==> final(self).table_at(h2) == old(
                    self,
                ).table_at(h2),
    {
        match self.check_live(h) {
            Err(e) => { return Err(e) },
            Ok(()) => {},
        }
        let ghost pre = *self;
        let mut st = SlotState::Vacant;
        core::mem::swap(&mut self.slots[h.index].state, &mut st);
        let mut t = match st {
            SlotState::Live(t) => t,
            _ => vstd::pervasive::unreached(),
        };
        t.put_key_value(k, v);
        let mut back = SlotState::Live(t);
        core::mem::swap(&mut self.slots[h.index].state, &mut back);
        proof {
            lemma_one_slot_table_change(pre, *self, h);
        }
        Ok(())
    }
}

impl TableArena {
    /// Appends a number, given as its double bit pattern, to a live
    /// table's array part. A dead handle is reported and nothing changes.
    pub fn append_number(&mut self, h: Handle, bits: u64) -> (r: Result<(), TableError>)
        requires
            old(self).wf(),
        ensures
            final(self).wf(),
            final(self).issued_ids() == old(self).issued_ids(),
            (r is Ok) == old(self).is_live(h),
            (r == Err::<(), TableError>(TableError::MovedHandle)) == old(self).is_moved(h),
            (r == Err::<(), TableError>(TableError::InvalidHandle)) == (!old(self).is_live(
                h,
            ) && !old(self).is_moved(h)),
            !old(self).is_live(h) ==> *final(self) == *old(self),
            old(self).is_live(h) ==> final(self).table_at(h).arr == old(self).table_at(
                h,
            ).arr.push(ValueModel::Number(bits)) && final(self).table_at(h).map == old(
                self,
            ).table_at(h).map,
            forall|h2: Handle| final(self).is_live(h2) == old(self).is_live(h2),
            forall|h2: Handle| final(self).is_moved(h2) == old(self).is_moved(h2),
            forall|h2: Handle|
                h2 != h && old(self).is_live(h2) ==> final(self).table_at(h2) == old(
                    self,
                ).table_at(h2),
    {
        self.append_value_at(h, LuaValue::Number(bits))
    }

    /// Appends owned text to a live table's array part. A dead handle is
    /// reported and nothing changes.
    pub fn append_text(&mut self, h: Handle, text: String) -> (r: Result<(), TableError>)
        requires
            old(self).wf(),
        ensures
            final(self).wf(),
            final(self).issued_ids() == old(self).issued_ids(),
            (r is Ok) == old(self).is_live(h),
            (r == Err::<(), TableError>(TableError::MovedHandle)) == old(self).is_moved(h),
            (r == Err::<(), TableError>(TableError::InvalidHandle)) == (!old(self).is_live(
                h,
            ) && !old(self).is_moved(h)),
            !old(self).is_live(h) ==> *final(self) == *old(self),
            old(self).is_live(h) ==> final(self).table_at(h).arr == old(self).table_at(
                h,
            ).arr.push(ValueModel::Text(text@)) && final(self).table_at(h).map == old(
                self,
            ).table_at(h).map,
            forall|h2: Handle| final(self).is_live(h2) == old(self).is_live(h2),
            forall|h2: Handle| final(self).is_moved(h2) == old(self).is_moved(h2),
            forall|h2: Handle|
                h2 != h && old(self).is_live(h2) ==> final(self).table_at(h2) == old(
                    self,
                ).table_at(h2),
    {
        self.append_value_at(h, LuaValue::Text(text))
    }

    /// Appends a boolean to a live table's array part. A dead handle is
    /// reported and nothing changes.
    pub fn append_boolean(&mut self, h: Handle, value: bool) -> (r: Result<(), TableError>)
        requires
            old(self).wf(),
        ensures
            final(self).wf(),
            final(self).issued_ids() == old(self).issued_ids(),
            (r is Ok) == old(self).is_live(h),
            (r == Err::<(), TableError>(TableError::MovedHandle)) == old(self).is_moved(h),
            (r == Err::<(), TableError>(TableError::InvalidHandle)) == (!old(self).is_live(
                h,
            ) && !old(self).is_moved(h)),
            !old(self).is_live(h) ==> *final(self) == *old(self),
            old(self).is_live(h) ==> final(self).table_at(h).arr == old(self).table_at(
                h,
            ).arr.push(ValueModel::Boolean(value)) && final(self).table_at(h).map == old(
                self,
            ).table_at(h).map,
            forall|h2: Handle| final(self).is_live(h2) == old(self).is_live(h2),
            forall|h2: Handle| final(self).is_moved(h2) == old(self).is_moved(h2),
            forall|h2: Handle|
                h2 != h && old(self).is_live(h2) ==> final(self).table_at(h2) == old(
                    self,
                ).table_at(h2),
    {
        self.append_value_at(h, LuaValue::Boolean(value))
    }

    /// Appends nil to a live table's array part. A dead handle is reported
    /// and nothing changes.
    pub fn append_nil(&mut self, h: Handle) -> (r: Result<(), TableError>)
        requires
            old(self).wf(),
        ensures
            final(self).wf(),
            final(self).issued_ids() == old(self).issued_ids(),
            (r is Ok) == old(self).is_live(h),
            (r == Err::<(), TableError>(TableError::MovedHandle)) == old(self).is_moved(h),
            (r == Err::<(), TableError>(TableError::InvalidHandle)) == (!old(self).is_live(
                h,
            ) && !old(self).is_moved(h)),
            !old(self).is_live(h) ==> *final(self) == *old(self),
            old(self).is_live(h) ==> final(self).table_at(h).arr == old(self).table_at(
                h,
            ).arr.push(ValueModel::Nil) && final(self).table_at(h).map == old(
                self,
            ).table_at(h).map,
            forall|h2: Handle| final(self).is_live(h2) == old(self).is_live(h2),
            forall|h2: Handle| final(self).is_moved(h2) == old(self).is_moved(h2),
            forall|h2: Handle|
                h2 != h && old(self).is_live(h2) ==> final(self).table_at(h2) == old(
                    self,
                ).table_at(h2),
    {
        self.append_value_at(h, LuaValue::Nil)
    }

    /// Upserts a text value under a text key in a live table's hash part:
    /// last write wins. A dead handle is reported and nothing changes.
    pub fn put_text_text(&mut self, h: Handle, key: String, value: String) -> (r: Result<
        (),
        TableError,
    >)
        requires
            old(self).wf(),
        ensures
            final(self).wf(),
            final(self).issued_ids() == old(self).issued_ids(),
            (r is Ok) == old(self).is_live(h),
            (r == Err::<(), TableError>(TableError::MovedHandle)) == old(self).is_moved(h),
            (r == Err::<(), TableError>(TableError::InvalidHandle)) == (!old(self).is_live(
                h,
            ) && !old(self).is_moved(h)),
            !old(self).is_live(h) ==> *final(self) == *old(self),
            old(self).is_live(h) ==> final(self).table_at(h).map == map_put(
                old(self).table_at(h).map,
                key@,
                ValueModel::Text(value@),
            ) && final(self).table_at(h).arr == old(self).table_at(h).arr,
            forall|h2: Handle| final(self).is_live(h2) == old(self).is_live(h2),
            forall|h2: Handle| final(self).is_moved(h2) == old(self).is_moved(h2),
            forall|h2: Handle|
                h2 != h && old(self).is_live(h2) ==> final(self).table_at(h2) == old(
                    self,
                ).table_at(h2),
    {
        self.put_value_at(h, LuaKey::Text(key), LuaValue::Text(value))
    }

    /// Upserts a boolean under a text key in a live table's hash part:
    /// last write wins. A dead handle is reported and nothing changes.
    pub fn put_text_boolean(&mut self, h: Handle, key: String, value: bool) -> (r: Result<
        (),
        TableError,
    >)
        requires
            old(self).wf(),
        ensures
            final(self).wf(),
            final(self).issued_ids() == old(self).issued_ids(),
            (r is Ok) == old(self).is_live(h),
            (r == Err::<(), TableError>(TableError::MovedHandle)) == old(self).is_moved(h),
            (r == Err::<(), TableError>(TableError::InvalidHandle)) == (!old(self).is_live(
                h,
            ) && !old(self).is_moved(h)),
            !old(self).is_live(h) ==> *final(self) == *old(self),
            old(self).is_live(h) ==> final(self).table_at(h).map == map_put(
                old(self).table_at(h).map,
                key@,
                ValueModel::Boolean(value),
            ) && final(self).table_at(h).arr == old(self).table_at(h).arr,
            forall|h2: Handle| final(self).is_live(h2) == old(self).is_live(h2),
            forall|h2: Handle| final(self).is_moved(h2) == old(self).is_moved(h2),
            forall|h2: Handle|
                h2 != h && old(self).is_live(h2) ==> final(self).table_at(h2) == old(
                    self,
                ).table_at(h2),
    {
        self.put_value_at(h, LuaKey::Text(key), LuaValue::Boolean(value))
    }

    /// Upserts a number, given as its double bit pattern, under a text key
    /// in a live table's hash part: last write wins. A dead handle is
    /// reported and nothing changes.
    pub fn put_text_number(&mut self, h: Handle, key: String, bits: u64) -> (r: Result<
        (),
        TableError,
    >)
        requires
            old(self).wf(),
        ensures
            final(self).wf(),
            final(self).issued_ids() == old(self).issued_ids(),
            (r is Ok) == old(self).is_live(h),
            (r == Err::<(), TableError>(TableError::MovedHandle)) == old(self).is_moved(h),
            (r == Err::<(), TableError>(TableError::InvalidHandle)) == (!old(self).is_live(
                h,
            ) && !old(self).is_moved(h)),
            !old(self).is_live(h) ==> *final(self) == *old(self),
            old(self).is_live(h) ==> final(self).table_at(h).map == map_put(
                old(self).table_at(h).map,
                key@,
                ValueModel::Number(bits),
            ) && final(self).table_at(h).arr == old(self).table_at(h).arr,
            forall|h2: Handle| final(self).is_live(h2) == old(self).is_live(h2),
            forall|h2: Handle| final(self).is_moved(h2) == old(self).is_moved(h2),
            forall|h2: Handle|
                h2 != h && old(self).is_live(h2) ==> final(self).table_at(h2) == old(
                    self,
                ).table_at(h2),
    {
        self.put_value_at(h, LuaKey::Text(key), LuaValue::Number(bits))
    }
}

impl TableArena {
    /// Moves the child table into the end of the parent's array part. The
    /// parent takes sole ownership of the whole child subtree; the child's
    /// handle is dead from here on and its slot stays marked as moved. A
    /// table cannot adopt itself, and dead handles are reported with
    /// nothing changed.
    pub fn append_table(&mut self, parent: Handle, child: Handle) -> (r: Result<
        (),
        TableError,
    >)
        requires
            old(self).wf(),
        ensures
            final(self).wf(),
            final(self).issued_ids() == old(self).issued_ids(),
            (r is Ok) == (old(self).is_live(parent) && old(self).is_live(child) && parent
                != child),
            !(r is Ok) ==> *final(self) == *old(self),
            !old(self).is_live(parent) ==> r == Err::<(), TableError>(
                if old(self).is_moved(parent) {
                    TableError::MovedHandle
                } else {
                    TableError::InvalidHandle
                },
            ),
            old(self).is_live(parent) && !old(self).is_live(child) ==> r == Err::<
                (),
                TableError,
            >(
                if old(self).is_moved(child) {
                    TableError::MovedHandle
                } else {
                    TableError::InvalidHandle
                },
            ),
            old(self).is_live(parent) && old(self).is_live(child) && parent == child
                ==> r == Err::<(), TableError>(TableError::SelfAdoption),
            (r is Ok) ==> final(self).is_live(parent) && final(self).table_at(parent).arr
                == old(self).table_at(parent).arr.push(
                ValueModel::Table(old(self).table_at(child)),
            ) && final(self).table_at(parent).map == old(self).table_at(parent).map
                && !final(self).is_live(child) && final(self).is_moved(child),
            forall|h2: Handle|
                h2 != child ==> final(self).is_live(h2) == old(self).is_live(h2),
            forall|h2: Handle|
                h2 != child ==> final(self).is_moved(h2) == old(self).is_moved(h2),
            forall|h2: Handle|
                h2 != parent && h2 != child && old(self).is_live(h2) ==> final(self).table_at(h2) == old(self).table_at(h2),
    {
        match self.check_live(parent) {
            Err(e) => { return Err(e) },
            Ok(()) => {},
        }
        match self.check_live(child) {
            Err(e) => { return Err(e) },
            Ok(()) => {},
        }
        if parent.index == child.index {
            proof {
                assert(parent == child);
            }
            return Err(TableError::SelfAdoption);
        }
        let ghost pre = *self;
        let mut cst = SlotState::Moved;
        core::mem::swap(&mut self.slots[child.index].state, &mut cst);
        let ct = match cst {
            SlotState::Live(t) => t,
            _ => vstd::pervasive::unreached(),
        };
        let ghost ct_model = table_model(ct);
        let mut pst = SlotState::Vacant;
        core::mem::swap(&mut self.slots[parent.index].state, &mut pst);
        let mut pt = match pst {
            SlotState::Live(t) => t,
            _ => vstd::pervasive::unreached(),
        };
        pt.add_value(LuaValue::Table(ct));
        let mut back = SlotState::Live(pt);
        core::mem::swap(&mut self.slots[parent.index].state, &mut back);
        proof {
            lemma_two_slot_adoption(pre, *self, parent, child);
        }
        Ok(())
    }

    /// Moves the child table into the parent's hash part under a text key:
    /// last write wins. The parent takes sole ownership of the whole child
    /// subtree; the child's handle is dead from here on and its slot stays
    /// marked as moved. A table cannot adopt itself, and dead handles are
    /// reported with nothing changed.
    pub fn put_text_table(&mut self, parent: Handle, key: String, child: Handle) -> (r:
        Result<(), TableError>)
        requires
            old(self).wf(),
        ensures
            final(self).wf(),
            final(self).issued_ids() == old(self).issued_ids(),
            (r is Ok) == (old(self).is_live(parent) && old(self).is_live(child) && parent
                != child),
            !(r is Ok) ==> *final(self) == *old(self),
            !old(self).is_live(parent) ==> r == Err::<(), TableError>(
                if old(self).is_moved(parent) {
                    TableError::MovedHandle
                } else {
                    TableError::InvalidHandle
                },
            ),
            old(self).is_live(parent) && !old(self).is_live(child) ==> r == Err::<
                (),
                TableError,
            >(
                if old(self).is_moved(child) {
                    TableError::MovedHandle
                } else {
                    TableError::InvalidHandle
                },
            ),
            old(self).is_live(parent) && old(self).is_live(child) && parent == child
                ==> r == Err::<(), TableError>(TableError::SelfAdoption),
            (r is Ok) ==> final(self).is_live(parent) && final(self).table_at(parent).map
                == map_put(
                old(self).table_at(parent).map,
                key@,
                ValueModel::Table(old(self).table_at(child)),
            ) && final(self).table_at(parent).arr == old(self).table_at(parent).arr
                && !final(self).is_live(child) && final(self).is_moved(child),
            forall|h2: Handle|
                h2 != child ==> final(self).is_live(h2) == old(self).is_live(h2),
            forall|h2: Handle|
                h2 != child ==> final(self).is_moved(h2) == old(self).is_moved(h2),
            forall|h2: Handle|
                h2 != parent && h2 != child && old(self).is_live(h2) ==> final(self).table_at(h2) == old(self).table_at(h2),
    {
        match self.check_live(parent) {
            Err(e) => { return Err(e) },
            Ok(()) => {},
        }
        match self.check_live(child) {
            Err(e) => { return Err(e) },
            Ok(()) => {},
        }
        if parent.index == child.index {
            proof {
                assert(parent == child);
            }
            return Err(TableError::SelfAdoption);
        }
        let ghost pre = *self;
        let mut cst = SlotState::Moved;
        core::mem::swap(&mut self.slots[child.index].state, &mut cst);
        let ct = match cst {
            SlotState::Live(t) => t,
            _ => vstd::pervasive::unreached(),
        };
        let mut pst = SlotState::Vacant;
        core::mem::swap(&mut self.slots[parent.index].state, &mut pst);
        let mut pt = match pst {
            SlotState::Live(t) => t,
            _ => vstd::pervasive::unreached(),
        };
        pt.put_key_value(LuaKey::Text(key), LuaValue::Table(ct));
        let mut back = SlotState::Live(pt);
        core::mem::swap(&mut self.slots[parent.index].state, &mut back);
        proof {
            lemma_two_slot_adoption(pre, *self, parent, child);
        }
        Ok(())
    }

    /// Releases a live table and, exactly once, every table it owns, the
    /// whole subtree. Its slot steps to a new generation, so releasing the
    /// same handle twice is reported as invalid, not undefined.
    pub fn free_table(&mut self, h: Handle) -> (r: Result<(), TableError>)
        requires
            old(self).wf(),
        ensures
            final(self).wf(),
            final(self).issued_ids() == old(self).issued_ids(),
            (r is Ok) == old(self).is_live(h),
            (r == Err::<(), TableError>(TableError::MovedHandle)) == old(self).is_moved(h),
            (r == Err::<(), TableError>(TableError::InvalidHandle)) == (!old(self).is_live(
                h,
            ) && !old(self).is_moved(h)),
            !old(self).is_live(h) ==> *final(self) == *old(self),
            !final(self).is_live(h),
            forall|h2: Handle|
                h2 != h ==> final(self).is_live(h2) == old(self).is_live(h2),
            forall|h2: Handle|
                h2 != h ==> final(self).is_moved(h2) == old(self).is_moved(h2),
            forall|h2: Handle|
                h2 != h && old(self).is_live(h2) ==> final(self).table_at(h2) == old(
                    self,
                ).table_at(h2),
    {
        match self.check_live(h) {
            Err(e) => {
                return Err(e);
            },
            Ok(()) => {},
        }
        let ghost pre = *self;
        let mut st = SlotState::Vacant;
        core::mem::swap(&mut self.slots[h.index].state, &mut st);
        let t = match st {
            SlotState::Live(t) => t,
            _ => vstd::pervasive::unreached(),
        };
        let g = self.slots[h.index].generation;
        if g < u64::MAX {
            self.slots[h.index].generation = g + 1;
        } else {
            // After the last generation this slot can never be reused;
            // it stays as a permanent tombstone.
            self.slots[h.index].state = SlotState::Moved;
        }
        dispose(t);
        proof {
            assert forall|h2: Handle| h2 != h implies final(self).is_live(h2) == pre.is_live(
                h2,
            ) && final(self).is_moved(h2) == pre.is_moved(h2) by {
                let j = h2.index as int;
                if j < pre.slots@.len() && j != h.index as int {
                    assert(self.slots@[j] == pre.slots@[j]);
                }
            }
            assert forall|h2: Handle| h2 != h && pre.is_live(h2) implies final(self).table_at(h2) == pre.table_at(h2) by {
                let j = h2.index as int;
                if j != h.index as int {
                    assert(self.slots@[j] == pre.slots@[j]);
                }
            }
            assert forall|p: (int, int)| self.issued@.contains(p) implies 0 <= p.0
                < self.slots@.len() && 0 <= p.1 <= self.slots@[p.0].generation && (p.1
                == self.slots@[p.0].generation ==> !(self.slots@[p.0].state is Vacant)) by {
                if p.0 != h.index as int {
                    assert(self.slots@[p.0] == pre.slots@[p.0]);
                }
            }
        }
        Ok(())
    }

    /// Whether the handle names a live table.
    pub fn has_table(&self, h: Handle) -> (r: bool)
        ensures
            r == self.is_live(h),
    {
        if h.index >= self.slots.len() {
            return false;
        }
        if self.slots[h.index].generation != h.generation {
            return false;
        }
        match &self.slots[h.index].state {
            SlotState::Live(_) => true,
            _ => false,
        }
    }

    /// Renders a live table's whole tree; a dead handle yields nothing and
    /// changes nothing.
    pub fn debug_render(&self, h: Handle) -> (r: Option<String>)
        requires
            self.wf(),
        ensures
            (r is Some) == self.is_live(h),
            self.is_live(h) ==> (r matches Some(s) && s@ == render_table(
                self.table_at(h),
            )),
    {
        if h.index >= self.slots.len() {
            return None;
        }
        if self.slots[h.index].generation != h.generation {
            return None;
        }
        match &self.slots[h.index].state {
            SlotState::Live(t) => Some(t.render()),
            _ => None,
        }
    }

    /// Copies out the numbers in a live table's array part, in order. The
    /// handle must be live: asking a dead handle for values is a contract
    /// violation, not a recoverable condition.
    pub fn export_numeric_array(&self, h: Handle) -> (r: Vec<u64>)
        requires
            self.wf(),
            self.is_live(h),
        ensures
            r@ == numeric_projection(self.table_at(h).arr),
    {
        match &self.slots[h.index].state {
            SlotState::Live(t) => t.numeric_array(),
            _ => vstd::pervasive::unreached(),
        }
    }

    /// Replaces a live table's array part wholesale with the given numbers;
    /// the hash part stays. A dead handle is reported and nothing changes.
    pub fn import_numeric_array(&mut self, h: Handle, bits: &Vec<u64>) -> (r: Result<
        (),
        TableError,
    >)
        requires
            old(self).wf(),
        ensures
            final(self).wf(),
            final(self).issued_ids() == old(self).issued_ids(),
            (r is Ok) == old(self).is_live(h),
            (r == Err::<(), TableError>(TableError::MovedHandle)) == old(self).is_moved(h),
            (r == Err::<(), TableError>(TableError::InvalidHandle)) == (!old(self).is_live(
                h,
            ) && !old(self).is_moved(h)),
            !old(self).is_live(h) ==> *final(self) == *old(self),
            old(self).is_live(h) ==> final(self).table_at(h).arr == number_values(bits@)
                && final(self).table_at(h).map == old(self).table_at(h).map,
            forall|h2: Handle| final(self).is_live(h2) == old(self).is_live(h2),
            forall|h2: Handle| final(self).is_moved(h2) == old(self).is_moved(h2),
            forall|h2: Handle|
                h2 != h && old(self).is_live(h2) ==> final(self).table_at(h2) == old(
                    self,
                ).table_at(h2),
    {
        match self.check_live(h) {
            Err(e) => { return Err(e) },
            Ok(()) => {},
        }
        let ghost pre = *self;
        let mut st = SlotState::Vacant;
        core::mem::swap(&mut self.slots[h.index].state, &mut st);
        let mut t = match st {
            SlotState::Live(t) => t,
            _ => vstd::pervasive::unreached(),
        };
        t.set_numeric_array(bits);
        let mut back = SlotState::Live(t);
        core::mem::swap(&mut self.slots[h.index].state, &mut back);
        proof {
            lemma_one_slot_table_change(pre, *self, h);
        }
        Ok(())
    }
}

/// When a child's live slot became a moved marker and its table went into
/// the parent's slot, which stayed well formed, the arena is still well
/// formed and every third handle sees what it saw before.
proof fn lemma_two_slot_adoption(a: TableArena, b: TableArena, parent: Handle, child: Handle)
    requires
        a.wf(),
        a.is_live(parent),
        a.is_live(child),
        parent.index != child.index,
        b.issued@ == a.issued@,
        b.slots@.len() == a.slots@.len(),
        forall|j: int|
            0 <= j < a.slots@.len() && j != parent.index as int && j != child.index as int
                ==> b.slots@[j] == a.slots@[j],
        b.slots@[parent.index as int].generation == a.slots@[parent.index as int].generation,
        b.slots@[parent.index as int].state is Live,
        b.slots@[parent.index as int].state matches SlotState::Live(t) ==> table_wf(
            table_model(t),
        ),
        b.slots@[child.index as int].generation == a.slots@[child.index as int].generation,
        b.slots@[child.index as int].state is Moved,
    ensures
        b.wf(),
        b.is_live(parent),
        !b.is_live(child),
        b.is_moved(child),
        forall|h2: Handle| h2 != child ==> b.is_live(h2) == a.is_live(h2),
        forall|h2: Handle| h2 != child ==> b.is_moved(h2) == a.is_moved(h2),
        forall|h2: Handle|
            h2 != parent && h2 != child && a.is_live(h2) ==> b.table_at(h2) == a.table_at(
                h2,
            ),
{
    assert forall|p: (int, int)| b.issued@.contains(p) implies 0 <= p.0 < b.slots@.len() && 0
        <= p.1 <= b.slots@[p.0].generation && (p.1 == b.slots@[p.0].generation ==> !(
    b.slots@[p.0].state is Vacant)) by {
        if p.0 != parent.index as int && p.0 != child.index as int {
            assert(b.slots@[p.0] == a.slots@[p.0]);
        }
    }
    assert forall|h2: Handle| h2 != child implies b.is_live(h2) == a.is_live(h2) && b.is_moved(
        h2,
    ) == a.is_moved(h2) by {
        let j = h2.index as int;
        if j < a.slots@.len() && j != parent.index as int && j != child.index as int {
            assert(b.slots@[j] == a.slots@[j]);
        }
    }
    assert forall|h2: Handle| h2 != parent && h2 != child && a.is_live(h2) implies b.table_at(
        h2,
    ) == a.table_at(h2) by {
        let j = h2.index as int;
        if j != parent.index as int && j != child.index as int {
            assert(b.slots@[j] == a.slots@[j]);
        }
    }
}

/// When only the table in one live slot changed, and it stayed well
/// formed, the arena is still well formed and every other handle sees
/// what it saw before.
proof fn lemma_one_slot_table_change(a: TableArena, b: TableArena, h: Handle)
    requires
        a.wf(),
        a.is_live(h),
        b.issued@ == a.issued@,
        b.slots@.len() == a.slots@.len(),
        forall|j: int|
            0 <= j < a.slots@.len() && j != h.index as int ==> b.slots@[j] == a.slots@[j],
        b.slots@[h.index as int].generation == a.slots@[h.index as int].generation,
        b.slots@[h.index as int].state is Live,
        b.slots@[h.index as int].state matches SlotState::Live(t) ==> table_wf(
            table_model(t),
        ),
    ensures
        b.wf(),
        b.is_live(h),
        forall|h2: Handle| b.is_live(h2) == a.is_live(h2),
        forall|h2: Handle| b.is_moved(h2) == a.is_moved(h2),
        forall|h2: Handle| h2 != h && a.is_live(h2) ==> b.table_at(h2) == a.table_at(h2),
{
    assert forall|h2: Handle| b.is_live(h2) == a.is_live(h2) && b.is_moved(h2) == a.is_moved(
        h2,
    ) by {
        let j = h2.index as int;
        if j < a.slots@.len() && j != h.index as int {
            assert(b.slots@[j] == a.slots@[j]);
        }
    }
    assert forall|h2: Handle| h2 != h && a.is_live(h2) implies b.table_at(h2) == a.table_at(
        h2,
    ) by {
        let j = h2.index as int;
        if j != h.index as int {
            assert(b.slots@[j] == a.slots@[j]);
        }
    }
}

/// Law: handles with distinct identities are distinct handles, so a handle
/// that an arena has already issued can never come out of `create_table`
/// again: two created tables are never identity-equal, and a table is
/// always identity-equal to itself.
pub proof fn lemma_issued_handle_differs(issued: Set<(int, int)>, h1: Handle, h2: Handle)
    requires
        issued.contains(handle_id(h1)),
        !issued.contains(handle_id(h2)),
    ensures
        h1 != h2,
{
}

impl Handle {
    /// Whether two handles name the same table creation: the identity
    /// equality of tables. Two distinct creations never compare equal, and
    /// a handle always compares equal to itself.
    pub fn identity_equals(&self, other: &Handle) -> (r: bool)
        ensures
            r == (*self == *other),
    {
        self.index == other.index && self.generation == other.generation
    }
}

} // verus!
