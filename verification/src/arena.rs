//! The tables of players and bullets, which are arenas of the crate
//! `generational_arena`.
//!
//! The contracts here are taken from that crate's source and are not proved.
//! They describe an arena by the state of a [`SlotTable`]: its list of entries,
//! its free list and its generation counter.

use crate::entity::{Projectile, Session};
use crate::slots::{Entry, Handle, SlotTable};
use generational_arena::{Arena, Index};
use vstd::prelude::*;

verus! {

/// Declares the arena to the verifier. Nothing is known of what is inside.
#[verifier::external_type_specification]
#[verifier::external_body]
#[verifier::reject_recursive_types(T)]
pub struct ExArena<T>(Arena<T>);

/// The slots of an arena of sessions.
pub uninterp spec fn session_slots(arena: Arena<Session>) -> Seq<Option<Entry<Session>>>;

/// The free list of an arena of sessions.
pub uninterp spec fn session_vacant(arena: Arena<Session>) -> Seq<usize>;

/// The generation counter of an arena of sessions.
pub uninterp spec fn session_generation(arena: Arena<Session>) -> u64;

/// The slots of an arena of projectiles.
pub uninterp spec fn projectile_slots(arena: Arena<Projectile>) -> Seq<Option<Entry<Projectile>>>;

/// The free list of an arena of projectiles.
pub uninterp spec fn projectile_vacant(arena: Arena<Projectile>) -> Seq<usize>;

/// The generation counter of an arena of projectiles.
pub uninterp spec fn projectile_generation(arena: Arena<Projectile>) -> u64;

/// The state of an arena of sessions.
pub open spec fn sessions(arena: Arena<Session>) -> SlotTable<Session> {
    SlotTable {
        slots: session_slots(arena),
        vacant: session_vacant(arena),
        generation: session_generation(arena) as int,
    }
}

/// The state of an arena of projectiles.
pub open spec fn projectiles(arena: Arena<Projectile>) -> SlotTable<Projectile> {
    SlotTable {
        slots: projectile_slots(arena),
        vacant: projectile_vacant(arena),
        generation: projectile_generation(arena) as int,
    }
}

/// Calls `Arena::with_capacity`: `n` empty slots, the free list from the first
/// to the last, generation zero. The bound on `n` keeps the allocation small.
#[verifier::external_body]
pub(crate) fn new_sessions(n: usize) -> (arena: Arena<Session>)
    requires
        0 < n <= 1024,
    ensures
        session_slots(arena) == SlotTable::<Session>::empty(n as nat).slots,
        session_vacant(arena) == SlotTable::<Session>::empty(n as nat).vacant,
        session_generation(arena) == 0,
{
    Arena::with_capacity(n)
}

/// Calls `Arena::with_capacity`: `n` empty slots, the free list from the first
/// to the last, generation zero. The bound on `n` keeps the allocation small.
#[verifier::external_body]
pub(crate) fn new_projectiles(n: usize) -> (arena: Arena<Projectile>)
    requires
        0 < n <= 65536,
    ensures
        projectile_slots(arena) == SlotTable::<Projectile>::empty(n as nat).slots,
        projectile_vacant(arena) == SlotTable::<Projectile>::empty(n as nat).vacant,
        projectile_generation(arena) == 0,
{
    Arena::with_capacity(n)
}

/// Calls `Arena::try_insert`: the value goes into the slot at the head of the
/// free list, under the current generation, and the index of that slot comes
/// back. Without a free slot nothing changes and the value comes back.
#[verifier::external_body]
pub(crate) fn insert_session(arena: &mut Arena<Session>, value: Session) -> (result: Result<
    Handle,
    Session,
>)
    ensures
        match result {
            Ok(handle) => !sessions(*old(arena)).full() && handle == sessions(
                *old(arena),
            ).next_handle() && sessions(*final(arena)) == sessions(*old(arena)).insert(value),
            Err(back) => sessions(*old(arena)).full() && back == value && sessions(*final(arena))
                == sessions(*old(arena)),
        },
{
    match arena.try_insert(value) {
        Ok(index) => {
            let (slot, generation) = index.into_raw_parts();
            Ok(Handle { slot, generation })
        },
        Err(back) => Err(back),
    }
}

/// Calls `Arena::try_insert`: the value goes into the slot at the head of the
/// free list, under the current generation, and the index of that slot comes
/// back. Without a free slot nothing changes and the value comes back.
#[verifier::external_body]
pub(crate) fn insert_projectile(arena: &mut Arena<Projectile>, value: Projectile) -> (result:
    Result<Handle, Projectile>)
    ensures
        match result {
            Ok(handle) => !projectiles(*old(arena)).full() && handle == projectiles(
                *old(arena),
            ).next_handle() && projectiles(*final(arena)) == projectiles(*old(arena)).insert(value),
            Err(back) => projectiles(*old(arena)).full() && back == value && projectiles(
                *final(arena),
            ) == projectiles(*old(arena)),
        },
{
    match arena.try_insert(value) {
        Ok(index) => {
            let (slot, generation) = index.into_raw_parts();
            Ok(Handle { slot, generation })
        },
        Err(back) => Err(back),
    }
}

/// Calls `Arena::remove`: an entry under that very index comes out, its slot
/// goes to the head of the free list, and the generation counter, which must
/// not be at its end, goes up by one. With no such entry nothing changes.
#[verifier::external_body]
pub(crate) fn remove_session(arena: &mut Arena<Session>, handle: Handle) -> (result: Option<
    Session,
>)
    requires
        sessions(*old(arena)).live(handle) ==> sessions(*old(arena)).generation < u64::MAX,
    ensures
        result == sessions(*old(arena)).get(handle),
        sessions(*final(arena)) == if sessions(*old(arena)).live(handle) {
            sessions(*old(arena)).remove(handle)
        } else {
            sessions(*old(arena))
        },
{
    arena.remove(Index::from_raw_parts(handle.slot, handle.generation))
}

/// Calls `Arena::remove`: an entry under that very index comes out, its slot
/// goes to the head of the free list, and the generation counter, which must
/// not be at its end, goes up by one. With no such entry nothing changes.
#[verifier::external_body]
pub(crate) fn remove_projectile(arena: &mut Arena<Projectile>, handle: Handle) -> (result: Option<
    Projectile,
>)
    requires
        projectiles(*old(arena)).live(handle) ==> projectiles(*old(arena)).generation < u64::MAX,
    ensures
        result == projectiles(*old(arena)).get(handle),
        projectiles(*final(arena)) == if projectiles(*old(arena)).live(handle) {
            projectiles(*old(arena)).remove(handle)
        } else {
            projectiles(*old(arena))
        },
{
    arena.remove(Index::from_raw_parts(handle.slot, handle.generation))
}

/// Calls `Arena::get`: the entry under that very index, if there is one.
#[verifier::external_body]
pub(crate) fn get_session(arena: &Arena<Session>, handle: Handle) -> (result: Option<Session>)
    ensures
        result == sessions(*arena).get(handle),
{
    arena.get(Index::from_raw_parts(handle.slot, handle.generation)).copied()
}

/// Calls `IndexMut::index_mut` of the arena, which panics unless there is an
/// entry under that very index, and assigns to the entry.
#[verifier::external_body]
pub(crate) fn set_session(arena: &mut Arena<Session>, handle: Handle, value: Session)
    requires
        sessions(*old(arena)).live(handle),
    ensures
        sessions(*final(arena)) == sessions(*old(arena)).set(handle, value),
{
    arena[Index::from_raw_parts(handle.slot, handle.generation)] = value;
}

/// Calls `IndexMut::index_mut` of the arena, which panics unless there is an
/// entry under that very index, and assigns to the entry.
#[verifier::external_body]
pub(crate) fn set_projectile(arena: &mut Arena<Projectile>, handle: Handle, value: Projectile)
    requires
        projectiles(*old(arena)).live(handle),
    ensures
        projectiles(*final(arena)) == projectiles(*old(arena)).set(handle, value),
{
    arena[Index::from_raw_parts(handle.slot, handle.generation)] = value;
}

/// Calls `Arena::iter`, which hands out the entries with their indices, in the
/// order of the slots.
#[verifier::external_body]
pub(crate) fn session_rows(arena: &Arena<Session>) -> (rows: Vec<(Handle, Session)>)
    ensures
        rows@ == sessions(*arena).rows(),
{
    arena.iter().map(
        |(index, value)|
            {
                let (slot, generation) = index.into_raw_parts();
                (Handle { slot, generation }, *value)
            },
    ).collect()
}

/// Calls `Arena::iter`, which hands out the entries with their indices, in the
/// order of the slots.
#[verifier::external_body]
pub(crate) fn projectile_rows(arena: &Arena<Projectile>) -> (rows: Vec<(Handle, Projectile)>)
    ensures
        rows@ == projectiles(*arena).rows(),
{
    arena.iter().map(
        |(index, value)|
            {
                let (slot, generation) = index.into_raw_parts();
                (Handle { slot, generation }, *value)
            },
    ).collect()
}

} // verus!
