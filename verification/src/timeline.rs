//! The two latest pictures of the world that a client has, between which it
//! draws the world.

use crate::protocol::{Bullet, Id, Player, PlayerUpdate, Tick, WorldUpdate};
use crate::search::{first_where, lemma_first_where};
use vstd::prelude::*;

verus! {

/// The two latest pictures of the world, the older one first.
#[derive(Debug, PartialEq, Eq)]
pub struct Timeline {
    pub previous: WorldUpdate,
    pub current: WorldUpdate,
}

/// How far the client's clock is into the time between the two pictures.
#[derive(Clone, Copy, Debug, PartialEq, Eq, Structural)]
pub struct Progress {
    /// Whole ticks since the start.
    pub elapsed: i32,
    /// Ticks between the two pictures.
    pub span: u16,
}

/// Whether a player has this id.
pub open spec fn is_player(id: Id) -> spec_fn(Player) -> bool {
    |player: Player| player.id == id
}

/// Whether a bullet has this id.
pub open spec fn is_bullet(id: u16) -> spec_fn(Bullet) -> bool {
    |bullet: Bullet| bullet.id == id
}

/// The first player with this id.
pub open spec fn player_in(players: Seq<Player>, id: Id) -> Option<Player> {
    let k = first_where(players, is_player(id));
    if k < players.len() {
        Some(players[k])
    } else {
        None
    }
}

/// The first bullet with this id.
pub open spec fn bullet_in(bullets: Seq<Bullet>, id: u16) -> Option<Bullet> {
    let k = first_where(bullets, is_bullet(id));
    if k < bullets.len() {
        Some(bullets[k])
    } else {
        None
    }
}

impl WorldUpdate {
    /// The player with this id, if the picture shows one.
    pub fn player(&self, id: Id) -> (result: Option<PlayerUpdate>)
        ensures
            result == match player_in(self.players@, id) {
                None => None,
                Some(player) => Some(PlayerUpdate { tick: self.tick, player }),
            },
    {
        let mut i: usize = 0;
        while i < self.players.len()
            invariant
                i <= self.players@.len(),
                forall|j: int| 0 <= j < i ==> !is_player(id)(#[trigger] self.players@[j]),
            decreases self.players@.len() - i,
        {
            let player = self.players[i];
            if player.id == id {
                proof {
                    lemma_first_where(self.players@, is_player(id), i as int);
                }
                return Some(PlayerUpdate { tick: self.tick, player });
            }
            i = i + 1;
        }
        proof {
            lemma_first_where(self.players@, is_player(id), i as int);
        }
        None
    }

    /// The first bullet with this id, if the picture shows one.
    pub fn bullet(&self, id: u16) -> (result: Option<Bullet>)
        ensures
            result == bullet_in(self.bullets@, id),
    {
        let mut i: usize = 0;
        while i < self.bullets.len()
            invariant
                i <= self.bullets@.len(),
                forall|j: int| 0 <= j < i ==> !is_bullet(id)(#[trigger] self.bullets@[j]),
            decreases self.bullets@.len() - i,
        {
            let bullet = self.bullets[i];
            if bullet.id == id {
                proof {
                    lemma_first_where(self.bullets@, is_bullet(id), i as int);
                }
                return Some(bullet);
            }
            i = i + 1;
        }
        proof {
            lemma_first_where(self.bullets@, is_bullet(id), i as int);
        }
        None
    }
}

/// The two that are left when of three pictures, put in the order of their
/// ticks, the first is dropped. Of equal ticks the new picture comes first.
pub open spec fn latest_two(
    previous: WorldUpdate,
    current: WorldUpdate,
    update: WorldUpdate,
) -> (WorldUpdate, WorldUpdate)
    recommends
        previous.tick <= current.tick,
{
    if update.tick <= previous.tick {
        (previous, current)
    } else if update.tick <= current.tick {
        (update, current)
    } else {
        (current, update)
    }
}

impl Timeline {
    /// The pictures stand in the order of their ticks.
    pub open spec fn wf(&self) -> bool {
        self.previous.tick <= self.current.tick
    }

    /// How far the clock is when a shot is aimed.
    pub open spec fn aimed_at(&self, tick: int) -> int {
        tick - self.previous.tick - 1
    }

    /// How far the clock is when the world is drawn.
    pub open spec fn drawn_at(&self, tick: int) -> int {
        tick - self.current.tick
    }

    /// A timeline that starts with `update`, before which there was nothing.
    pub fn new(update: WorldUpdate) -> (timeline: Timeline)
        ensures
            timeline.wf(),
            timeline.current == update,
            timeline.previous.tick == 0,
            timeline.previous.players@ == Seq::<Player>::empty(),
            timeline.previous.bullets@ == Seq::<Bullet>::empty(),
    {
        Timeline {
            previous: WorldUpdate { tick: 0, players: Vec::new(), bullets: Vec::new() },
            current: update,
        }
    }

    /// Sorts a picture in, and drops the oldest.
    pub fn merge(&mut self, update: WorldUpdate)
        requires
            old(self).wf(),
        ensures
            final(self).wf(),
            (final(self).previous, final(self).current) == latest_two(
                old(self).previous,
                old(self).current,
                update,
            ),
    {
        if update.tick <= self.previous.tick {
        } else if update.tick <= self.current.tick {
            self.previous = update;
        } else {
            let mut replaced = update;
            std::mem::swap(&mut self.current, &mut replaced);
            self.previous = replaced;
        }
    }

    /// How far the clock is, seen from the previous picture, when a shot is aimed.
    pub fn aim_progress(&self, tick: Tick) -> (progress: Progress)
        requires
            self.wf(),
        ensures
            progress.elapsed == tick - self.previous.tick - 1,
            progress.elapsed == self.aimed_at(tick as int),
            progress.span == self.current.tick - self.previous.tick,
    {
        Progress {
            elapsed: tick as i32 - self.previous.tick as i32 - 1,
            span: self.current.tick - self.previous.tick,
        }
    }

    /// How far the clock is when the world is drawn: one span behind.
    pub fn draw_progress(&self, tick: Tick) -> (progress: Progress)
        requires
            self.wf(),
        ensures
            progress.span == self.current.tick - self.previous.tick,
            progress.elapsed == tick - self.previous.tick - progress.span,
            progress.elapsed == tick - self.current.tick,
            progress.elapsed == self.drawn_at(tick as int),
    {
        let span: u16 = self.current.tick - self.previous.tick;
        Progress { elapsed: tick as i32 - self.previous.tick as i32 - span as i32, span }
    }
}

} // verus!
