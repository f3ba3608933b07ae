//! One step of the world.
//!
//! The caller's physics says how a player moves, when a bullet is spent, and so
//! on. What is asked of it, in which order, and what becomes of the answers is
//! decided here.

use crate::entity::{Projectile, Session};
use crate::laws::{evolves, room_stays_the_same};
use crate::protocol::{Bullet, Player};
use crate::scalar::{Scalar, Vector2, HALF, ZERO};
use crate::slots::{values_of, Handle, SlotTable};
use crate::world::{handles, numbered, World};
use vstd::prelude::*;

verus! {

/// Where a player is, and where the player goes.
#[derive(Clone, Copy, Debug, PartialEq, Eq, Structural)]
pub struct Motion {
    pub position: Vector2,
    pub velocity: Vector2,
}

/// What becomes of a firing player's weapon: how much is loaded afterwards, and
/// the velocity of the shot, if there is one.
#[derive(Clone, Copy, Debug, PartialEq, Eq, Structural)]
pub struct Loading {
    pub fire_counter: Scalar,
    pub shot: Option<Vector2>,
}

/// Where a bullet is, and how long it has been in flight.
#[derive(Clone, Copy, Debug, PartialEq, Eq, Structural)]
pub struct Flight {
    pub position: Vector2,
    pub lifetime: Scalar,
}

/// A player after a motion.
pub open spec fn moved(session: Session, motion: Motion) -> Session {
    Session {
        player: Player { position: motion.position, velocity: motion.velocity, ..session.player },
        ..session
    }
}

/// A player whose weapon has been loaded.
pub open spec fn loaded(session: Session, loading: Loading) -> Session {
    Session { fire_counter: loading.fire_counter, ..session }
}

/// A bullet after a part of its flight.
pub open spec fn flown(projectile: Projectile, flight: Flight) -> Projectile {
    Projectile {
        bullet: Bullet { position: flight.position, ..projectile.bullet },
        lifetime: flight.lifetime,
        ..projectile
    }
}

/// The bullet that a player fires. It has no id yet.
pub open spec fn shot_by(session: Session, velocity: Vector2) -> Projectile {
    Projectile {
        bullet: Bullet {
            id: 0,
            player_id: session.player.id,
            position: session.player.position,
            angle: session.angle,
            radius: HALF,
        },
        velocity,
        lifetime: ZERO,
    }
}

/// The players after each has made the motion that is listed for it.
pub open spec fn after_motions(
    players: SlotTable<Session>,
    motions: Seq<Motion>,
) -> SlotTable<Session> {
    players.with_values(
        Seq::new(players.rows().len(), |k: int| moved(players.rows()[k].1, motions[k])),
    )
}

/// The bullets after the flights that are listed for them.
pub open spec fn after_flights(
    bullets: SlotTable<Projectile>,
    flights: Seq<Flight>,
) -> SlotTable<Projectile> {
    bullets.with_values(
        Seq::new(bullets.rows().len(), |k: int| flown(bullets.rows()[k].1, flights[k])),
    )
}

/// The bullets after those of the first `n` that are marked were taken away, one
/// after the other.
pub open spec fn after_expiry(
    bullets: SlotTable<Projectile>,
    expired: Seq<bool>,
    n: int,
) -> SlotTable<Projectile>
    decreases n,
{
    if n <= 0 {
        bullets
    } else if expired[n - 1] {
        after_expiry(bullets, expired, n - 1).remove(bullets.rows()[n - 1].0)
    } else {
        after_expiry(bullets, expired, n - 1)
    }
}

/// Players and bullets while the players fire.
pub struct Volley {
    pub players: SlotTable<Session>,
    pub bullets: SlotTable<Projectile>,
    /// Whether a shot found no room, which ends the firing.
    pub blocked: bool,
}

/// Players and bullets after the first `n` players had their turn to fire.
pub open spec fn after_firing(
    players: SlotTable<Session>,
    bullets: SlotTable<Projectile>,
    loadings: Seq<Option<Loading>>,
    n: int,
) -> Volley
    decreases n,
{
    if n <= 0 {
        Volley { players, bullets, blocked: false }
    } else {
        let volley = after_firing(players, bullets, loadings, n - 1);
        let (handle, session) = players.rows()[n - 1];
        match loadings[n - 1] {
            None => volley,
            Some(loading) => if volley.blocked {
                volley
            } else {
                let armed = volley.players.set(handle, loaded(session, loading));
                match loading.shot {
                    None => Volley { players: armed, ..volley },
                    Some(velocity) => if volley.bullets.full() {
                        Volley { players: armed, blocked: true, ..volley }
                    } else {
                        Volley {
                            players: armed,
                            bullets: volley.bullets.insert(
                                numbered(
                                    shot_by(session, velocity),
                                    volley.bullets.next_handle(),
                                ),
                            ),
                            ..volley
                        }
                    },
                }
            },
        }
    }
}

/// `hs[i]` with each handle behind it, up to but without place `j`.
pub open spec fn pairs_with(hs: Seq<Handle>, i: int, j: int) -> Seq<(Handle, Handle)> {
    Seq::new((if j > i + 1 { j - i - 1 } else { 0 }) as nat, |k: int| (hs[i], hs[i + 1 + k]))
}

/// Each of the first `n` handles with each handle behind it.
pub open spec fn pairs(hs: Seq<Handle>, n: int) -> Seq<(Handle, Handle)>
    decreases n,
{
    if n <= 0 {
        Seq::empty()
    } else {
        pairs(hs, n - 1) + pairs_with(hs, n - 1, hs.len() as int)
    }
}

/// The players after one encounter, which has left the two as they were or given
/// them new motions.
pub open spec fn after_encounter(
    players: SlotTable<Session>,
    met: (Handle, Handle),
    outcome: Option<(Motion, Motion)>,
) -> SlotTable<Session> {
    match outcome {
        None => players,
        Some((motion_a, motion_b)) => players.set(met.0, moved(players.at(met.0), motion_a)).set(
            met.1,
            moved(players.at(met.1), motion_b),
        ),
    }
}

/// The players after the first `n` of the encounters `met`, one after the other.
pub open spec fn after_encounters(
    players: SlotTable<Session>,
    met: Seq<(Handle, Handle)>,
    outcomes: Seq<Option<(Motion, Motion)>>,
    n: int,
) -> SlotTable<Session>
    decreases n,
{
    if n <= 0 {
        players
    } else {
        after_encounter(
            after_encounters(players, met, outcomes, n - 1),
            met[n - 1],
            outcomes[n - 1],
        )
    }
}

/// What the physics answered in the course of one step.
pub struct Answers {
    /// Of each player, how the player moves.
    pub motions: Seq<Motion>,
    /// Of each bullet, whether it is spent.
    pub expired: Seq<bool>,
    /// Of each player who fires, what becomes of the weapon.
    pub loadings: Seq<Option<Loading>>,
    /// Of each bullet, how it flies.
    pub flights: Seq<Flight>,
    /// Of each two players, what their encounter does.
    pub outcomes: Seq<Option<(Motion, Motion)>>,
}

impl Answers {
    /// The players after their motions.
    pub open spec fn pushed(self, players: SlotTable<Session>) -> SlotTable<Session> {
        after_motions(players, self.motions)
    }

    /// The bullets that are not spent.
    pub open spec fn unspent(self, bullets: SlotTable<Projectile>) -> SlotTable<Projectile> {
        after_expiry(bullets, self.expired, bullets.rows().len() as int)
    }

    /// Players and bullets after the firing.
    pub open spec fn volley(
        self,
        players: SlotTable<Session>,
        bullets: SlotTable<Projectile>,
    ) -> Volley {
        after_firing(
            self.pushed(players),
            self.unspent(bullets),
            self.loadings,
            self.pushed(players).rows().len() as int,
        )
    }

    /// The bullets at the end of the step.
    pub open spec fn bullets(
        self,
        players: SlotTable<Session>,
        bullets: SlotTable<Projectile>,
    ) -> SlotTable<Projectile> {
        after_flights(self.volley(players, bullets).bullets, self.flights)
    }

    /// The players as they are when they meet.
    pub open spec fn meeting(
        self,
        players: SlotTable<Session>,
        bullets: SlotTable<Projectile>,
    ) -> SlotTable<Session> {
        self.volley(players, bullets).players
    }

    /// Who meets whom, and in which order.
    pub open spec fn met(
        self,
        players: SlotTable<Session>,
        bullets: SlotTable<Projectile>,
    ) -> Seq<(Handle, Handle)> {
        all_pairs(self.meeting(players, bullets))
    }

    /// The players at the end of the step.
    pub open spec fn players(
        self,
        players: SlotTable<Session>,
        bullets: SlotTable<Projectile>,
    ) -> SlotTable<Session> {
        let met = self.met(players, bullets);
        after_encounters(self.meeting(players, bullets), met, self.outcomes, met.len() as int)
    }

    /// Whether these answers lead from one world to the other, and block a shot
    /// on the way or do not.
    pub open spec fn lead(self, before: World, after: World, blocked: bool) -> bool {
        &&& after.players() == self.players(before.players(), before.bullets())
        &&& after.bullets() == self.bullets(before.players(), before.bullets())
        &&& blocked == self.volley(before.players(), before.bullets()).blocked
    }
}

/// Every two players, once, in slot order.
pub open spec fn all_pairs(players: SlotTable<Session>) -> Seq<(Handle, Handle)> {
    pairs(handles(players.rows()), players.rows().len() as int)
}

/// Whether `motions` are the answers of `impulse` on these players.
pub open spec fn answers_motions<I: Fn(Session) -> Motion>(
    impulse: I,
    players: SlotTable<Session>,
    motions: Seq<Motion>,
) -> bool {
    &&& motions.len() == players.rows().len()
    &&& forall|k: int|
        0 <= k < motions.len() ==> call_ensures(
            impulse,
            (players.rows()[k].1,),
            #[trigger] motions[k],
        )
}

/// Whether `expired` are the answers of `spent` on these bullets.
pub open spec fn answers_expired<S: Fn(Projectile) -> bool>(
    spent: S,
    bullets: SlotTable<Projectile>,
    expired: Seq<bool>,
) -> bool {
    &&& expired.len() == bullets.rows().len()
    &&& forall|k: int|
        0 <= k < expired.len() ==> call_ensures(
            spent,
            (bullets.rows()[k].1,),
            #[trigger] expired[k],
        )
}

/// Whether `loadings` are the answers of `load` on those players who fire.
pub open spec fn answers_loadings<L: Fn(Session) -> Loading>(
    load: L,
    players: SlotTable<Session>,
    loadings: Seq<Option<Loading>>,
) -> bool {
    &&& loadings.len() == players.rows().len()
    &&& forall|k: int|
        0 <= k < loadings.len() ==> match #[trigger] loadings[k] {
            None => !players.rows()[k].1.firing,
            Some(loading) => players.rows()[k].1.firing && call_ensures(
                load,
                (players.rows()[k].1,),
                loading,
            ),
        }
}

/// Whether `flights` are the answers of `fly` on these bullets.
pub open spec fn answers_flights<F: Fn(Projectile) -> Flight>(
    fly: F,
    bullets: SlotTable<Projectile>,
    flights: Seq<Flight>,
) -> bool {
    &&& flights.len() == bullets.rows().len()
    &&& forall|k: int|
        0 <= k < flights.len() ==> call_ensures(fly, (bullets.rows()[k].1,), #[trigger] flights[k])
}

/// Whether the k-th outcome is the answer of `collide` on the k-th two players,
/// asked with the players as the earlier encounters left them.
pub open spec fn answers_outcome<C: Fn(Session, Session) -> Option<(Motion, Motion)>>(
    collide: C,
    players: SlotTable<Session>,
    met: Seq<(Handle, Handle)>,
    outcomes: Seq<Option<(Motion, Motion)>>,
    k: int,
) -> bool {
    let now = after_encounters(players, met, outcomes, k);
    call_ensures(collide, (now.at(met[k].0), now.at(met[k].1)), outcomes[k])
}

/// Whether `outcomes` are the answers of `collide` on every two players.
pub open spec fn answers_outcomes<C: Fn(Session, Session) -> Option<(Motion, Motion)>>(
    collide: C,
    players: SlotTable<Session>,
    outcomes: Seq<Option<(Motion, Motion)>>,
) -> bool {
    &&& outcomes.len() == all_pairs(players).len()
    &&& forall|k: int|
        0 <= k < outcomes.len() ==> #[trigger] answers_outcome(
            collide,
            players,
            all_pairs(players),
            outcomes,
            k,
        )
}

/// Later outcomes do not matter to earlier encounters.
proof fn lemma_encounters_prefix(
    players: SlotTable<Session>,
    met: Seq<(Handle, Handle)>,
    a: Seq<Option<(Motion, Motion)>>,
    b: Seq<Option<(Motion, Motion)>>,
    n: int,
)
    requires
        forall|k: int| 0 <= k < n ==> a[k] == b[k],
    ensures
        after_encounters(players, met, a, n) == after_encounters(players, met, b, n),
    decreases n,
{
    if n > 0 {
        lemma_encounters_prefix(players, met, a, b, n - 1);
    }
}

/// Every pair is made of two of the handles, the first before the second.
pub proof fn lemma_pairs(hs: Seq<Handle>, n: int)
    requires
        0 <= n <= hs.len(),
    ensures
        forall|k: int|
            0 <= k < pairs(hs, n).len() ==> exists|i: int, j: int|
                0 <= i < n && i < j < hs.len() && #[trigger] pairs(hs, n)[k] == (hs[i], hs[j]),
    decreases n,
{
    if n > 0 {
        lemma_pairs(hs, n - 1);
        let front = pairs(hs, n - 1);
        assert forall|k: int| 0 <= k < pairs(hs, n).len() implies exists|i: int, j: int|
            0 <= i < n && i < j < hs.len() && #[trigger] pairs(hs, n)[k] == (hs[i], hs[j]) by {
            if k < front.len() {
                assert(pairs(hs, n)[k] == front[k]);
                let (i, j) = choose|i: int, j: int|
                    0 <= i < n - 1 && i < j < hs.len() && front[k] == (hs[i], hs[j]);
                assert(pairs(hs, n)[k] == (hs[i], hs[j]));
            } else {
                let j = n + (k - front.len());
                assert(pairs(hs, n)[k] == (hs[n - 1], hs[j]));
            }
        }
    }
}

/// Every pair is made of two players, the one in the lower slot first.
pub proof fn lemma_pairs_are_live(players: SlotTable<Session>)
    requires
        players.slots.len() <= usize::MAX,
    ensures
        forall|k: int|
            0 <= k < all_pairs(players).len() ==> players.live(
                (#[trigger] all_pairs(players)[k]).0,
            ) && players.live(all_pairs(players)[k].1) && all_pairs(players)[k].0.slot < all_pairs(
                players,
            )[k].1.slot,
{
    let met = all_pairs(players);
    let hs = handles(players.rows());
    players.rows_are_live();
    lemma_pairs(hs, players.rows().len() as int);
    assert forall|k: int| 0 <= k < met.len() implies players.live((#[trigger] met[k]).0)
        && players.live(met[k].1) && met[k].0.slot < met[k].1.slot by {
        let (i, j) = choose|i: int, j: int|
            0 <= i < players.rows().len() && i < j < hs.len() && met[k] == (hs[i], hs[j]);
        assert(players.rows()[i].0.slot < players.rows()[j].0.slot);
    }
}

impl World {
    /// Moves every player.
    fn push_players<I: Fn(Session) -> Motion>(&mut self, impulse: &I) -> (motions: Ghost<
        Seq<Motion>,
    >)
        requires
            old(self).wf(),
            forall|s: Session| call_requires(*impulse, (s,)),
        ensures
            final(self).wf(),
            final(self).bullets() == old(self).bullets(),
            final(self).now() == old(self).now(),
            final(self).players() == after_motions(old(self).players(), motions@),
            answers_motions(*impulse, old(self).players(), motions@),
    {
        let ghost start = self.players();
        let rows = self.player_rows();
        let mut motions: Ghost<Seq<Motion>> = Ghost(Seq::empty());
        let ghost mut values = values_of(start.rows());
        proof {
            start.same_values();
            start.rows_are_live();
        }
        let mut i: usize = 0;
        while i < rows.len()
            invariant
                i <= rows@.len(),
                rows@ == start.rows(),
                start == old(self).players(),
                old(self).wf(),
                self.wf(),
                self.bullets() == old(self).bullets(),
                self.now() == old(self).now(),
                self.players() == start.with_values(values),
                motions@.len() == i,
                values.len() == rows@.len(),
                forall|k: int|
                    0 <= k < i ==> #[trigger] values[k] == moved(rows@[k].1, motions@[k]),
                forall|k: int| i <= k < rows@.len() ==> #[trigger] values[k] == rows@[k].1,
                forall|k: int|
                    0 <= k < rows@.len() ==> start.live((#[trigger] rows@[k]).0) && start.at(
                        rows@[k].0,
                    ) == rows@[k].1,
                forall|s: Session| call_requires(*impulse, (s,)),
                forall|k: int|
                    0 <= k < i ==> call_ensures(*impulse, (rows@[k].1,), #[trigger] motions@[k]),
            decreases rows@.len() - i,
        {
            let (handle, session) = rows[i];
            let motion = impulse(session);
            let next = Session {
                player: Player {
                    position: motion.position,
                    velocity: motion.velocity,
                    ..session.player
                },
                ..session
            };
            proof {
                start.set_value(values, i as int, next);
                assert(start.live(rows@[i as int].0));
                values = values.update(i as int, next);
                motions@ = motions@.push(motion);
            }
            self.set_player(handle, next);
            i = i + 1;
        }
        proof {
            assert(values =~= Seq::new(
                start.rows().len(),
                |k: int| moved(start.rows()[k].1, motions@[k]),
            ));
        }
        motions
    }

    /// Takes away the bullets that are spent.
    fn drop_spent<S: Fn(Projectile) -> bool>(&mut self, spent: &S) -> (expired: Ghost<Seq<bool>>)
        requires
            old(self).wf(),
            old(self).bullets().generation + old(self).bullets().rows().len() <= u64::MAX,
            forall|p: Projectile| call_requires(*spent, (p,)),
        ensures
            final(self).wf(),
            final(self).players() == old(self).players(),
            final(self).now() == old(self).now(),
            final(self).bullets() == after_expiry(
                old(self).bullets(),
                expired@,
                old(self).bullets().rows().len() as int,
            ),
            answers_expired(*spent, old(self).bullets(), expired@),
    {
        let ghost start = self.bullets();
        let rows = self.bullet_rows();
        proof {
            start.rows_are_live();
        }
        // All bullets are looked at before any of them goes.
        let mut marked: Vec<bool> = Vec::new();
        let mut i: usize = 0;
        while i < rows.len()
            invariant
                i <= rows@.len(),
                marked@.len() == i,
                forall|p: Projectile| call_requires(*spent, (p,)),
                forall|k: int|
                    0 <= k < i ==> call_ensures(*spent, (rows@[k].1,), #[trigger] marked@[k]),
            decreases rows@.len() - i,
        {
            let mark: bool = spent(rows[i].1);
            marked.push(mark);
            i = i + 1;
        }
        let mut j: usize = 0;
        while j < rows.len()
            invariant
                j <= rows@.len(),
                marked@.len() == rows@.len(),
                rows@ == start.rows(),
                start == old(self).bullets(),
                start.generation + rows@.len() <= u64::MAX,
                self.wf(),
                self.players() == old(self).players(),
                self.now() == old(self).now(),
                self.bullets() == after_expiry(start, marked@, j as int),
                self.bullets().generation <= start.generation + j,
                forall|k: int|
                    j <= k < rows@.len() ==> self.bullets().live((#[trigger] rows@[k]).0),
                forall|a: int, b: int|
                    0 <= a < b < rows@.len() ==> (#[trigger] rows@[a]).0.slot < (
                    #[trigger] rows@[b]).0.slot,
            decreases rows@.len() - j,
        {
            if marked[j] {
                assert(self.bullets().live(rows@[j as int].0));
                let ghost before = self.bullets();
                self.remove_bullet(rows[j].0);
                assert forall|k: int| j < k < rows@.len() implies self.bullets().live(
                    (#[trigger] rows@[k]).0,
                ) by {
                    assert(before.live(rows@[k].0));
                    assert(rows@[j as int].0.slot < rows@[k].0.slot);
                }
            }
            j = j + 1;
        }
        Ghost(marked@)
    }

    /// Lets the players fire.
    fn fire_all<L: Fn(Session) -> Loading>(&mut self, load: &L) -> (result: (
        bool,
        Ghost<Seq<Option<Loading>>>,
    ))
        requires
            old(self).wf(),
            forall|s: Session| call_requires(*load, (s,)),
        ensures
            final(self).wf(),
            final(self).now() == old(self).now(),
            answers_loadings(*load, old(self).players(), result.1@),
            ({
                let volley = after_firing(
                    old(self).players(),
                    old(self).bullets(),
                    result.1@,
                    old(self).players().rows().len() as int,
                );
                &&& final(self).players() == volley.players
                &&& final(self).bullets() == volley.bullets
                &&& result.0 == volley.blocked
            }),
    {
        let ghost start = self.players();
        let ghost bullets = self.bullets();
        let rows = self.player_rows();
        proof {
            start.rows_are_live();
        }
        let mut loadings: Vec<Option<Loading>> = Vec::new();
        let mut i: usize = 0;
        while i < rows.len()
            invariant
                i <= rows@.len(),
                loadings@.len() == i,
                forall|s: Session| call_requires(*load, (s,)),
                forall|k: int|
                    0 <= k < i ==> match #[trigger] loadings@[k] {
                        None => !rows@[k].1.firing,
                        Some(loading) => rows@[k].1.firing && call_ensures(
                            *load,
                            (rows@[k].1,),
                            loading,
                        ),
                    },
            decreases rows@.len() - i,
        {
            let session = rows[i].1;
            if session.firing {
                let loading: Loading = load(session);
                loadings.push(Some(loading));
            } else {
                loadings.push(None);
            }
            i = i + 1;
        }
        let mut blocked = false;
        let mut j: usize = 0;
        while j < rows.len()
            invariant
                j <= rows@.len(),
                loadings@.len() == rows@.len(),
                rows@ == start.rows(),
                old(self).wf(),
                start == old(self).players(),
                self.wf(),
                self.now() == old(self).now(),
                self.players() == after_firing(start, bullets, loadings@, j as int).players,
                self.bullets() == after_firing(start, bullets, loadings@, j as int).bullets,
                blocked == after_firing(start, bullets, loadings@, j as int).blocked,
                forall|h: Handle| self.players().live(h) <==> start.live(h),
                forall|k: int|
                    0 <= k < rows@.len() ==> start.live((#[trigger] rows@[k]).0) && start.at(
                        rows@[k].0,
                    ) == rows@[k].1,
            decreases rows@.len() - j,
        {
            let (handle, session) = rows[j];
            if !blocked {
                if let Some(loading) = loadings[j] {
                    assert(start.live(rows@[j as int].0));
                    self.set_player(
                        handle,
                        Session { fire_counter: loading.fire_counter, ..session },
                    );
                    if let Some(velocity) = loading.shot {
                        let added = self.add_bullet(
                            Projectile {
                                bullet: Bullet {
                                    id: 0,
                                    player_id: session.player.id,
                                    position: session.player.position,
                                    angle: session.angle,
                                    radius: HALF,
                                },
                                velocity,
                                lifetime: ZERO,
                            },
                        );
                        blocked = !added;
                    }
                }
            }
            j = j + 1;
        }
        (blocked, Ghost(loadings@))
    }

    /// Lets every bullet fly.
    fn fly_all<F: Fn(Projectile) -> Flight>(&mut self, fly: &F) -> (flights: Ghost<Seq<Flight>>)
        requires
            old(self).wf(),
            forall|p: Projectile| call_requires(*fly, (p,)),
        ensures
            final(self).wf(),
            final(self).players() == old(self).players(),
            final(self).now() == old(self).now(),
            final(self).bullets() == after_flights(old(self).bullets(), flights@),
            answers_flights(*fly, old(self).bullets(), flights@),
    {
        let ghost start = self.bullets();
        let rows = self.bullet_rows();
        let mut flights: Ghost<Seq<Flight>> = Ghost(Seq::empty());
        let ghost mut values = values_of(start.rows());
        proof {
            start.same_values();
            start.rows_are_live();
        }
        let mut i: usize = 0;
        while i < rows.len()
            invariant
                i <= rows@.len(),
                rows@ == start.rows(),
                start == old(self).bullets(),
                old(self).wf(),
                self.wf(),
                self.players() == old(self).players(),
                self.now() == old(self).now(),
                self.bullets() == start.with_values(values),
                flights@.len() == i,
                values.len() == rows@.len(),
                forall|k: int|
                    0 <= k < i ==> #[trigger] values[k] == flown(rows@[k].1, flights@[k]),
                forall|k: int| i <= k < rows@.len() ==> #[trigger] values[k] == rows@[k].1,
                forall|k: int|
                    0 <= k < rows@.len() ==> start.live((#[trigger] rows@[k]).0) && start.at(
                        rows@[k].0,
                    ) == rows@[k].1,
                forall|p: Projectile| call_requires(*fly, (p,)),
                forall|k: int|
                    0 <= k < i ==> call_ensures(*fly, (rows@[k].1,), #[trigger] flights@[k]),
            decreases rows@.len() - i,
        {
            let (handle, projectile) = rows[i];
            let flight = fly(projectile);
            let next = Projectile {
                bullet: Bullet { position: flight.position, ..projectile.bullet },
                lifetime: flight.lifetime,
                ..projectile
            };
            proof {
                start.set_value(values, i as int, next);
                assert(start.live(rows@[i as int].0));
                values = values.update(i as int, next);
                flights@ = flights@.push(flight);
            }
            self.set_bullet(handle, next);
            i = i + 1;
        }
        proof {
            assert(values =~= Seq::new(
                start.rows().len(),
                |k: int| flown(start.rows()[k].1, flights@[k]),
            ));
        }
        flights
    }

    /// Every two players, once, in slot order.
    pub fn player_pairs(&self) -> (result: Vec<(Handle, Handle)>)
        requires
            self.wf(),
        ensures
            result@ == all_pairs(self.players()),
    {
        let rows = self.player_rows();
        let ghost hs = handles(rows@);
        let mut result: Vec<(Handle, Handle)> = Vec::new();
        proof {
            self.players().rows_are_live();
        }
        let mut i: usize = 0;
        while i < rows.len()
            invariant
                i <= rows@.len(),
                hs == handles(rows@),
                result@ == pairs(hs, i as int),
                forall|a: int, b: int|
                    0 <= a < b < rows@.len() ==> (#[trigger] rows@[a]).0.slot < (
                    #[trigger] rows@[b]).0.slot,
            decreases rows@.len() - i,
        {
            let first = rows[i].0;
            let mut j: usize = 0;
            while j < rows.len()
                invariant
                    i < rows@.len(),
                    j <= rows@.len(),
                    hs == handles(rows@),
                    first == hs[i as int],
                    result@ == pairs(hs, i as int) + pairs_with(hs, i as int, j as int),
                    forall|a: int, b: int|
                        0 <= a < b < rows@.len() ==> (#[trigger] rows@[a]).0.slot < (
                        #[trigger] rows@[b]).0.slot,
                decreases rows@.len() - j,
            {
                let second = rows[j].0;
                if first.slot < second.slot {
                    assert(i < j) by {
                        if j < i {
                            assert(rows@[j as int].0.slot < rows@[i as int].0.slot);
                        }
                    }
                    result.push((first, second));
                    assert(pairs_with(hs, i as int, j + 1) =~= pairs_with(
                        hs,
                        i as int,
                        j as int,
                    ).push((first, second)));
                } else {
                    assert(j <= i) by {
                        if i < j {
                            assert(rows@[i as int].0.slot < rows@[j as int].0.slot);
                        }
                    }
                    assert(pairs_with(hs, i as int, j + 1) =~= pairs_with(hs, i as int, j as int));
                }
                assert(result@ =~= pairs(hs, i as int) + pairs_with(hs, i as int, j + 1));
                j = j + 1;
            }
            i = i + 1;
        }
        result
    }

    /// Lets two players meet.
    fn meet<C: Fn(Session, Session) -> Option<(Motion, Motion)>>(
        &mut self,
        handle_a: Handle,
        handle_b: Handle,
        collide: &C,
    ) -> (outcome: Ghost<Option<(Motion, Motion)>>)
        requires
            old(self).wf(),
            old(self).players().live(handle_a),
            old(self).players().live(handle_b),
            handle_a.slot != handle_b.slot,
            forall|a: Session, b: Session| call_requires(*collide, (a, b)),
        ensures
            final(self).wf(),
            final(self).bullets() == old(self).bullets(),
            final(self).now() == old(self).now(),
            final(self).players() == after_encounter(
                old(self).players(),
                (handle_a, handle_b),
                outcome@,
            ),
            outcome@ matches Some((motion_a, motion_b)) ==> {
                let a = final(self).players().at(handle_a).player;
                let b = final(self).players().at(handle_b).player;
                &&& a.position == motion_a.position && a.velocity == motion_a.velocity
                &&& b.position == motion_b.position && b.velocity == motion_b.velocity
            },
            forall|h: Handle| final(self).players().live(h) <==> old(self).players().live(h),
            call_ensures(
                *collide,
                (old(self).players().at(handle_a), old(self).players().at(handle_b)),
                outcome@,
            ),
    {
        let mut outcome: Option<(Motion, Motion)> = None;
        if let (Some(a), Some(b)) = (self.player(handle_a), self.player(handle_b)) {
            outcome = collide(a, b);
            if let Some((motion_a, motion_b)) = outcome {
                self.set_player(
                    handle_a,
                    Session {
                        player: Player {
                            position: motion_a.position,
                            velocity: motion_a.velocity,
                            ..a.player
                        },
                        ..a
                    },
                );
                self.set_player(
                    handle_b,
                    Session {
                        player: Player {
                            position: motion_b.position,
                            velocity: motion_b.velocity,
                            ..b.player
                        },
                        ..b
                    },
                );
            }
        }
        Ghost(outcome)
    }

    /// Lets every two players meet.
    fn collide_all<C: Fn(Session, Session) -> Option<(Motion, Motion)>>(&mut self, collide: &C) -> (
        outcomes: Ghost<Seq<Option<(Motion, Motion)>>>)
        requires
            old(self).wf(),
            forall|a: Session, b: Session| call_requires(*collide, (a, b)),
        ensures
            final(self).wf(),
            final(self).bullets() == old(self).bullets(),
            final(self).now() == old(self).now(),
            final(self).players() == after_encounters(
                old(self).players(),
                all_pairs(old(self).players()),
                outcomes@,
                all_pairs(old(self).players()).len() as int,
            ),
            answers_outcomes(*collide, old(self).players(), outcomes@),
    {
        let ghost start = self.players();
        let met = self.player_pairs();
        proof {
            lemma_pairs_are_live(start);
        }
        let mut outcomes: Ghost<Seq<Option<(Motion, Motion)>>> = Ghost(Seq::empty());
        let mut i: usize = 0;
        while i < met.len()
            invariant
                i <= met@.len(),
                met@ == all_pairs(start),
                start == old(self).players(),
                self.wf(),
                self.bullets() == old(self).bullets(),
                self.now() == old(self).now(),
                outcomes@.len() == i,
                self.players() == after_encounters(start, met@, outcomes@, i as int),
                forall|h: Handle| self.players().live(h) <==> start.live(h),
                forall|k: int|
                    0 <= k < met@.len() ==> start.live((#[trigger] met@[k]).0) && start.live(
                        met@[k].1,
                    ) && met@[k].0.slot < met@[k].1.slot,
                forall|a: Session, b: Session| call_requires(*collide, (a, b)),
                forall|k: int|
                    0 <= k < outcomes@.len() ==> #[trigger] answers_outcome(
                        *collide,
                        start,
                        met@,
                        outcomes@,
                        k,
                    ),
            decreases met@.len() - i,
        {
            let (handle_a, handle_b) = met[i];
            assert(start.live(met@[i as int].0));
            let ghost told = outcomes@;
            let outcome = self.meet(handle_a, handle_b, collide);
            proof {
                outcomes@ = told.push(outcome@);
                lemma_encounters_prefix(start, met@, told, outcomes@, i as int);
                assert forall|k: int| 0 <= k < outcomes@.len() implies #[trigger] answers_outcome(
                    *collide,
                    start,
                    met@,
                    outcomes@,
                    k,
                ) by {
                    lemma_encounters_prefix(start, met@, told, outcomes@, k);
                    if k < i {
                        assert(answers_outcome(*collide, start, met@, told, k));
                    }
                }
            }
            i = i + 1;
        }
        outcomes
    }
}

/// Whether these are the answers of this physics in the course of one step from
/// this world.
pub open spec fn answered<I, S, L, F, C>(
    answers: Answers,
    world: World,
    impulse: I,
    spent: S,
    load: L,
    fly: F,
    collide: C,
) -> bool where
    I: Fn(Session) -> Motion,
    S: Fn(Projectile) -> bool,
    L: Fn(Session) -> Loading,
    F: Fn(Projectile) -> Flight,
    C: Fn(Session, Session) -> Option<(Motion, Motion)>,
 {
    let players = world.players();
    let bullets = world.bullets();
    &&& answers_motions(impulse, players, answers.motions)
    &&& answers_expired(spent, bullets, answers.expired)
    &&& answers_loadings(load, answers.pushed(players), answers.loadings)
    &&& answers_flights(fly, answers.volley(players, bullets).bullets, answers.flights)
    &&& answers_outcomes(collide, answers.meeting(players, bullets), answers.outcomes)
}

impl World {
    /// One step: the players move, spent bullets go, players fire, bullets fly,
    /// and every two players meet. Says whether a shot found no room, in which
    /// case the players after that one have not fired.
    pub fn step<I, S, L, F, C>(
        &mut self,
        impulse: I,
        spent: S,
        load: L,
        fly: F,
        collide: C,
    ) -> (blocked: bool) where
        I: Fn(Session) -> Motion,
        S: Fn(Projectile) -> bool,
        L: Fn(Session) -> Loading,
        F: Fn(Projectile) -> Flight,
        C: Fn(Session, Session) -> Option<(Motion, Motion)>,

        requires
            old(self).wf(),
            old(self).bullets().generation + old(self).bullets().rows().len() <= u64::MAX,
            forall|s: Session| call_requires(impulse, (s,)),
            forall|p: Projectile| call_requires(spent, (p,)),
            forall|s: Session| call_requires(load, (s,)),
            forall|p: Projectile| call_requires(fly, (p,)),
            forall|a: Session, b: Session| call_requires(collide, (a, b)),
        ensures
            final(self).wf(),
            final(self).now() == old(self).now(),
            evolves(*old(self), *final(self)),
            final(self).players().slots.len() == old(self).players().slots.len(),
            final(self).bullets().slots.len() == old(self).bullets().slots.len(),
            exists|answers: Answers|
                #![trigger answers.lead(*old(self), *final(self), blocked)]
                answered(answers, *old(self), impulse, spent, load, fly, collide) && answers.lead(
                    *old(self),
                    *final(self),
                    blocked,
                ),
    {
        let motions = self.push_players(&impulse);
        let expired = self.drop_spent(&spent);
        let (blocked, loadings) = self.fire_all(&load);
        let flights = self.fly_all(&fly);
        let outcomes = self.collide_all(&collide);
        proof {
            let answers = Answers {
                motions: motions@,
                expired: expired@,
                loadings: loadings@,
                flights: flights@,
                outcomes: outcomes@,
            };
            assert(answers.lead(*old(self), *self, blocked));
            room_stays_the_same(*old(self), *self);
        }
        blocked
    }

    /// One step, and one tick more on the clock. After the last tick comes tick
    /// zero.
    pub fn run_tick<I, S, L, F, C>(
        &mut self,
        impulse: I,
        spent: S,
        load: L,
        fly: F,
        collide: C,
    ) -> (blocked: bool) where
        I: Fn(Session) -> Motion,
        S: Fn(Projectile) -> bool,
        L: Fn(Session) -> Loading,
        F: Fn(Projectile) -> Flight,
        C: Fn(Session, Session) -> Option<(Motion, Motion)>,

        requires
            old(self).wf(),
            old(self).bullets().generation + old(self).bullets().rows().len() <= u64::MAX,
            forall|s: Session| call_requires(impulse, (s,)),
            forall|p: Projectile| call_requires(spent, (p,)),
            forall|s: Session| call_requires(load, (s,)),
            forall|p: Projectile| call_requires(fly, (p,)),
            forall|a: Session, b: Session| call_requires(collide, (a, b)),
        ensures
            final(self).wf(),
            final(self).now() == (old(self).now() + 1) % 65536,
            evolves(*old(self), *final(self)),
            final(self).players().slots.len() == old(self).players().slots.len(),
            final(self).bullets().slots.len() == old(self).bullets().slots.len(),
            exists|answers: Answers|
                #![trigger answers.lead(*old(self), *final(self), blocked)]
                answered(answers, *old(self), impulse, spent, load, fly, collide) && answers.lead(
                    *old(self),
                    *final(self),
                    blocked,
                ),
    {
        let blocked = self.step(impulse, spent, load, fly, collide);
        let ghost stepped = *self;
        self.advance();
        proof {
            let answers = choose|answers: Answers|
                #![trigger answers.lead(*old(self), stepped, blocked)]
                answered(answers, *old(self), impulse, spent, load, fly, collide) && answers.lead(
                    *old(self),
                    stepped,
                    blocked,
                );
            assert(answers.lead(*old(self), *self, blocked));
        }
        blocked
    }
}

} // verus!
