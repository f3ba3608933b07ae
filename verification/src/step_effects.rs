//! What a step does to each player and to each bullet, field by field: what is asked of
//! the physics, and where each part of the answers goes.

use crate::entity::{Projectile, Session};
use crate::laws::{
    bullets_are_counted, bullets_come_from_shooters, bullets_fly_or_go, fired_by,
    flying_changes_place_and_time, lemma_alike_rows, lemma_encounters_keep_counters, lemma_expiry,
    lemma_firing_moves_nobody, lemma_motions_same_players, lemma_row_at, lemma_volley, shots,
    spent as spent_count, spent_bullets_go, step_keeps_players, weapons_are_loaded_in_turn,
};
use crate::protocol::Player;
use crate::slots::{rank, Handle, SlotTable};
use crate::step::{
    after_encounters, after_expiry, after_firing, all_pairs, answered, answers_outcome,
    lemma_pairs, lemma_pairs_are_live, moved, pairs, pairs_with, Answers, Flight, Loading, Motion,
};
use crate::world::{handles, World};
use vstd::prelude::*;

verus! {

/// Whether one pair comes before another: the one with the lower first slot, and of two
/// with the same first slot the one with the lower second.
pub open spec fn earlier(a: (Handle, Handle), b: (Handle, Handle)) -> bool {
    a.0.slot < b.0.slot || (a.0.slot == b.0.slot && a.1.slot < b.1.slot)
}

proof fn lemma_pairs_ordered(hs: Seq<Handle>, n: int)
    requires
        0 <= n <= hs.len(),
        forall|x: int, y: int|
            0 <= x < y < hs.len() ==> (#[trigger] hs[x]).slot < (#[trigger] hs[y]).slot,
    ensures
        forall|x: int, y: int|
            0 <= x < y < pairs(hs, n).len() ==> earlier(
                #[trigger] pairs(hs, n)[x],
                #[trigger] pairs(hs, n)[y],
            ),
    decreases n,
{
    if n > 0 {
        lemma_pairs_ordered(hs, n - 1);
        lemma_pairs(hs, n - 1);
        let front = pairs(hs, n - 1);
        let back = pairs_with(hs, n - 1, hs.len() as int);
        let all = pairs(hs, n);
        assert forall|x: int, y: int| 0 <= x < y < all.len() implies earlier(
            #[trigger] all[x],
            #[trigger] all[y],
        ) by {
            if y < front.len() {
                assert(all[x] == front[x] && all[y] == front[y]);
            } else if x < front.len() {
                assert(all[x] == front[x]);
                assert(all[y] == back[y - front.len()]);
                let (i, j) = choose|i: int, j: int|
                    0 <= i < n - 1 && i < j < hs.len() && front[x] == (hs[i], hs[j]);
                assert(hs[i].slot < hs[n - 1].slot);
            } else {
                assert(all[x] == back[x - front.len()]);
                assert(all[y] == back[y - front.len()]);
                assert(hs[n + (x - front.len())].slot < hs[n + (y - front.len())].slot);
            }
        }
    }
}

/// Players meet in slot order: the first with each other, then the second with each who
/// comes after, and so on.
pub proof fn encounters_go_in_slot_order(players: SlotTable<Session>, i: int, j: int)
    requires
        players.wf(),
        0 <= i < j < all_pairs(players).len(),
    ensures
        earlier(all_pairs(players)[i], all_pairs(players)[j]),
{
    players.rows_are_live();
    let hs = handles(players.rows());
    assert forall|x: int, y: int| 0 <= x < y < hs.len() implies (#[trigger] hs[x]).slot < (
    #[trigger] hs[y]).slot by {
        assert(players.rows()[x].0.slot < players.rows()[y].0.slot);
    }
    lemma_pairs_ordered(hs, players.rows().len() as int);
}

/// Whether the k-th encounter has changed the motion of `h`.
pub open spec fn took_part(
    met: Seq<(Handle, Handle)>,
    outcomes: Seq<Option<(Motion, Motion)>>,
    k: int,
    h: Handle,
) -> bool {
    outcomes[k] is Some && (met[k].0 == h || met[k].1 == h)
}

/// Whether a player is where the last of the first `n` encounters that has changed the
/// player's motion has put the player, and goes where it said; or, if there is none,
/// is where `motion` says and goes where it says.
pub open spec fn last_sent(
    motion: Motion,
    met: Seq<(Handle, Handle)>,
    outcomes: Seq<Option<(Motion, Motion)>>,
    n: int,
    h: Handle,
    player: Player,
) -> bool {
    &&& (forall|k: int| 0 <= k < n ==> !#[trigger] took_part(met, outcomes, k, h))
        ==> player.position == motion.position && player.velocity == motion.velocity
    &&& forall|k: int|
        0 <= k < n && #[trigger] took_part(met, outcomes, k, h) && (forall|j: int|
            k < j < n ==> !#[trigger] took_part(met, outcomes, j, h)) ==> {
            let (first, second) = outcomes[k]->0;
            &&& met[k].0 == h ==> player.position == first.position && player.velocity
                == first.velocity
            &&& met[k].1 == h ==> player.position == second.position && player.velocity
                == second.velocity
        }
}

proof fn lemma_last_sent(
    motion: Motion,
    players: SlotTable<Session>,
    met: Seq<(Handle, Handle)>,
    outcomes: Seq<Option<(Motion, Motion)>>,
    n: int,
    h: Handle,
)
    requires
        0 <= n <= met.len(),
        players.live(h),
        players.at(h).player.position == motion.position,
        players.at(h).player.velocity == motion.velocity,
        forall|k: int|
            0 <= k < met.len() ==> players.live((#[trigger] met[k]).0) && players.live(met[k].1)
                && met[k].0.slot < met[k].1.slot,
    ensures
        ({
            let now = after_encounters(players, met, outcomes, n);
            &&& forall|g: Handle| #[trigger] now.live(g) <==> players.live(g)
            &&& last_sent(motion, met, outcomes, n, h, now.at(h).player)
            &&& now.at(h).player.id == players.at(h).player.id
            &&& now.at(h).player.radius == players.at(h).player.radius
            &&& now.at(h).random_bytes == players.at(h).random_bytes
            &&& now.at(h).udp_addr == players.at(h).udp_addr
            &&& now.at(h).input == players.at(h).input
            &&& now.at(h).angle == players.at(h).angle
            &&& now.at(h).firing == players.at(h).firing
            &&& now.at(h).fire_counter == players.at(h).fire_counter
        }),
    decreases n,
{
    lemma_encounters_keep_counters(players, met, outcomes, n);
    if n > 0 {
        lemma_last_sent(motion, players, met, outcomes, n - 1, h);
        lemma_encounters_keep_counters(players, met, outcomes, n - 1);
        let was = after_encounters(players, met, outcomes, n - 1);
        let now = after_encounters(players, met, outcomes, n);
        let (a, b) = met[n - 1];
        assert(players.live(met[n - 1].0));
        assert(was.live(a) && was.live(b) && was.live(h));
        assert(now.live(h));
        if !took_part(met, outcomes, n - 1, h) {
            assert(now.at(h) == was.at(h));
        }
        assert forall|k: int|
            0 <= k < n && #[trigger] took_part(met, outcomes, k, h) && (forall|j: int|
                k < j < n ==> !#[trigger] took_part(met, outcomes, j, h)) implies {
            let (first, second) = outcomes[k]->0;
            &&& met[k].0 == h ==> now.at(h).player.position == first.position && now.at(
                h,
            ).player.velocity == first.velocity
            &&& met[k].1 == h ==> now.at(h).player.position == second.position && now.at(
                h,
            ).player.velocity == second.velocity
        } by {
            if k < n - 1 {
                assert(!took_part(met, outcomes, n - 1, h));
            }
        }
    }
}

/// How the players stand when they meet: under the same handles, with the motions that
/// the impulses gave them, and changed in nothing else but what is loaded.
proof fn lemma_meeting(
    answers: Answers,
    players: SlotTable<Session>,
    bullets: SlotTable<Projectile>,
    r: int,
)
    requires
        players.wf(),
        0 <= r < players.rows().len(),
    ensures
        ({
            let (h, session) = players.rows()[r];
            let meeting = answers.meeting(players, bullets);
            let pushed = answers.pushed(players);
            &&& pushed.wf()
            &&& pushed.rows().len() == players.rows().len()
            &&& pushed.rows()[r] == (h, moved(session, answers.motions[r]))
            &&& meeting.live(h)
            &&& meeting.slots.len() == players.slots.len()
            &&& meeting.at(h).player.position == answers.motions[r].position
            &&& meeting.at(h).player.velocity == answers.motions[r].velocity
            &&& meeting.at(h).player.id == session.player.id
            &&& meeting.at(h).player.radius == session.player.radius
            &&& meeting.at(h).random_bytes == session.random_bytes
            &&& meeting.at(h).udp_addr == session.udp_addr
            &&& meeting.at(h).input == session.input
            &&& meeting.at(h).angle == session.angle
            &&& meeting.at(h).firing == session.firing
            &&& all_pairs(meeting) == all_pairs(players)
        }),
{
    let pushed = answers.pushed(players);
    let meeting = answers.meeting(players, bullets);
    let h = players.rows()[r].0;
    let m = pushed.rows().len() as int;
    lemma_motions_same_players(players, answers.motions);
    players.with_values_rows(
        Seq::new(players.rows().len(), |k: int| moved(players.rows()[k].1, answers.motions[k])),
    );
    pushed.rows_are_live();
    assert(pushed.live(pushed.rows()[r].0));
    lemma_firing_moves_nobody(pushed, answers.unspent(bullets), answers.loadings, m);
    let _ = pushed.slots[h.slot as int];
    lemma_firing_keeps_the_rest(pushed, answers.unspent(bullets), answers.loadings, m, r);
    lemma_alike_rows(pushed, meeting, pushed.slots.len() as int);
    assert forall|k: int| 0 <= k < m implies (#[trigger] meeting.rows()[k]).0
        == players.rows()[k].0 by {
        assert(pushed.rows()[k].0 == meeting.rows()[k].0);
    }
    assert(handles(meeting.rows()) =~= handles(players.rows()));
}

proof fn lemma_firing_keeps_the_rest(
    players: SlotTable<Session>,
    bullets: SlotTable<Projectile>,
    loadings: Seq<Option<Loading>>,
    n: int,
    r: int,
)
    requires
        players.wf(),
        0 <= n <= players.rows().len(),
        0 <= r < players.rows().len(),
    ensures
        ({
            let (h, session) = players.rows()[r];
            let after = after_firing(players, bullets, loadings, n).players;
            &&& after.live(h)
            &&& after.at(h).player == session.player
            &&& after.at(h).random_bytes == session.random_bytes
            &&& after.at(h).udp_addr == session.udp_addr
            &&& after.at(h).input == session.input
            &&& after.at(h).angle == session.angle
            &&& after.at(h).firing == session.firing
        }),
    decreases n,
{
    players.rows_are_live();
    assert(players.live(players.rows()[r].0));
    if n > 0 {
        lemma_firing_keeps_the_rest(players, bullets, loadings, n - 1, r);
        lemma_firing_keeps_the_rest(players, bullets, loadings, n - 1, n - 1);
        assert(players.live(players.rows()[n - 1].0));
        if r < n - 1 {
            assert(players.rows()[r].0.slot < players.rows()[n - 1].0.slot);
        } else if n - 1 < r {
            assert(players.rows()[n - 1].0.slot < players.rows()[r].0.slot);
        }
    }
}

/// A player after a step. The impulse is asked about the player as the player was. The
/// player ends up, in place and in velocity, as the last encounter said that has changed
/// the player's motion, or else as the impulse said; and keeps the id, the radius, the
/// bytes, the address, the push, the aim and whether the player fires.
pub proof fn players_end_up_where_they_were_last_sent<I, S, L, F, C>(
    answers: Answers,
    before: World,
    after: World,
    blocked: bool,
    impulse: I,
    spent: S,
    load: L,
    fly: F,
    collide: C,
    r: int,
) where
    I: Fn(Session) -> Motion,
    S: Fn(Projectile) -> bool,
    L: Fn(Session) -> Loading,
    F: Fn(Projectile) -> Flight,
    C: Fn(Session, Session) -> Option<(Motion, Motion)>,

    requires
        before.wf(),
        answered(answers, before, impulse, spent, load, fly, collide),
        answers.lead(before, after, blocked),
        0 <= r < before.players().rows().len(),
    ensures
        ({
            let (h, session) = before.players().rows()[r];
            let met = all_pairs(before.players());
            let end = after.players().at(h);
            &&& call_ensures(impulse, (session,), answers.motions[r])
            &&& answers.outcomes.len() == met.len()
            &&& after.players().live(h)
            &&& last_sent(
                answers.motions[r],
                met,
                answers.outcomes,
                met.len() as int,
                h,
                end.player,
            )
            &&& end.player.id == session.player.id
            &&& end.player.radius == session.player.radius
            &&& end.random_bytes == session.random_bytes
            &&& end.udp_addr == session.udp_addr
            &&& end.input == session.input
            &&& end.angle == session.angle
            &&& end.firing == session.firing
        }),
{
    let players = before.players();
    let h = players.rows()[r].0;
    lemma_meeting(answers, players, before.bullets(), r);
    let meeting = answers.meeting(players, before.bullets());
    lemma_pairs_are_live(meeting);
    lemma_last_sent(
        answers.motions[r],
        meeting,
        all_pairs(meeting),
        answers.outcomes,
        all_pairs(meeting).len() as int,
        h,
    );
}

/// What the physics is asked about an encounter: two players as the encounters before
/// have left them, the one in the lower slot first.
pub proof fn encounters_see_what_earlier_ones_did<I, S, L, F, C>(
    answers: Answers,
    before: World,
    impulse: I,
    spent: S,
    load: L,
    fly: F,
    collide: C,
    k: int,
    r: int,
    q: int,
) -> (asked: (Session, Session)) where
    I: Fn(Session) -> Motion,
    S: Fn(Projectile) -> bool,
    L: Fn(Session) -> Loading,
    F: Fn(Projectile) -> Flight,
    C: Fn(Session, Session) -> Option<(Motion, Motion)>,

    requires
        before.wf(),
        answered(answers, before, impulse, spent, load, fly, collide),
        0 <= k < all_pairs(before.players()).len(),
        0 <= r < before.players().rows().len(),
        0 <= q < before.players().rows().len(),
        all_pairs(before.players())[k] == (
            before.players().rows()[r].0,
            before.players().rows()[q].0,
        ),
    ensures
        ({
            let (a, first) = before.players().rows()[r];
            let (b, second) = before.players().rows()[q];
            let met = all_pairs(before.players());
            &&& a.slot < b.slot
            &&& call_ensures(collide, asked, answers.outcomes[k])
            &&& last_sent(answers.motions[r], met, answers.outcomes, k, a, asked.0.player)
            &&& last_sent(answers.motions[q], met, answers.outcomes, k, b, asked.1.player)
            &&& asked.0.player.id == first.player.id && asked.1.player.id == second.player.id
            &&& asked.0.player.radius == first.player.radius && asked.1.player.radius
                == second.player.radius
        }),
{
    let players = before.players();
    let bullets = before.bullets();
    lemma_meeting(answers, players, bullets, r);
    lemma_meeting(answers, players, bullets, q);
    let meeting = answers.meeting(players, bullets);
    let met = all_pairs(meeting);
    lemma_pairs_are_live(meeting);
    lemma_last_sent(answers.motions[r], meeting, met, answers.outcomes, k, players.rows()[r].0);
    lemma_last_sent(answers.motions[q], meeting, met, answers.outcomes, k, players.rows()[q].0);
    assert(met[k].0.slot < met[k].1.slot);
    assert(answers_outcome(collide, meeting, met, answers.outcomes, k));
    let now = after_encounters(meeting, met, answers.outcomes, k);
    (now.at(met[k].0), now.at(met[k].1))
}

/// Two players alone meet once, in slot order. If that changes their motions, each ends
/// up in the place and with the velocity that was answered for that very player; if not,
/// each ends up as the impulse said.
pub proof fn two_players_bounce_off_each_other<I, S, L, F, C>(
    answers: Answers,
    before: World,
    after: World,
    blocked: bool,
    impulse: I,
    spent: S,
    load: L,
    fly: F,
    collide: C,
) where
    I: Fn(Session) -> Motion,
    S: Fn(Projectile) -> bool,
    L: Fn(Session) -> Loading,
    F: Fn(Projectile) -> Flight,
    C: Fn(Session, Session) -> Option<(Motion, Motion)>,

    requires
        before.wf(),
        answered(answers, before, impulse, spent, load, fly, collide),
        answers.lead(before, after, blocked),
        before.players().rows().len() == 2,
    ensures
        ({
            let a = before.players().rows()[0].0;
            let b = before.players().rows()[1].0;
            let first = after.players().at(a).player;
            let second = after.players().at(b).player;
            &&& a.slot < b.slot
            &&& answers.outcomes.len() == 1
            &&& match answers.outcomes[0] {
                Some((ma, mb)) => {
                    &&& first.position == ma.position
                    &&& first.velocity == ma.velocity
                    &&& second.position == mb.position
                    &&& second.velocity == mb.velocity
                },
                None => {
                    &&& first.position == answers.motions[0].position
                    &&& first.velocity == answers.motions[0].velocity
                    &&& second.position == answers.motions[1].position
                    &&& second.velocity == answers.motions[1].velocity
                },
            }
        }),
{
    let players = before.players();
    let a = players.rows()[0].0;
    let b = players.rows()[1].0;
    let met = all_pairs(players);
    players.rows_are_live();
    assert(players.rows()[0].0.slot < players.rows()[1].0.slot);
    let hs = handles(players.rows());
    assert(pairs(hs, 0) =~= Seq::<(Handle, Handle)>::empty());
    assert(pairs(hs, 1) =~= pairs(hs, 0) + pairs_with(hs, 0, 2));
    assert(pairs(hs, 2) =~= pairs(hs, 1) + pairs_with(hs, 1, 2));
    assert(met =~= seq![(a, b)]);
    players_end_up_where_they_were_last_sent(
        answers, before, after, blocked, impulse, spent, load, fly, collide, 0,
    );
    players_end_up_where_they_were_last_sent(
        answers, before, after, blocked, impulse, spent, load, fly, collide, 1,
    );
    assert(took_part(met, answers.outcomes, 0, a) == (answers.outcomes[0] is Some));
    assert(took_part(met, answers.outcomes, 0, b) == (answers.outcomes[0] is Some));
}

/// What has become of a bullet when it has flown: it is where the flight has taken it,
/// and as old; its id, its owner, its angle, its radius and its velocity are the same.
pub open spec fn has_flown(start: Projectile, flight: Flight, end: Projectile) -> bool {
    &&& end.bullet.position == flight.position
    &&& end.lifetime == flight.lifetime
    &&& end.bullet.id == start.bullet.id
    &&& end.bullet.player_id == start.bullet.player_id
    &&& end.bullet.angle == start.bullet.angle
    &&& end.bullet.radius == start.bullet.radius
    &&& end.velocity == start.velocity
}

/// A bullet that was in flight. It is asked whether the bullet is spent, as it was; if
/// it is, nothing is left under its handle, and if it is not, it flies as is answered
/// for this bullet as it was.
pub proof fn old_bullets_go_or_fly<I, S, L, F, C>(
    answers: Answers,
    before: World,
    after: World,
    blocked: bool,
    impulse: I,
    spent: S,
    load: L,
    fly: F,
    collide: C,
    k: int,
) -> (flight: Flight) where
    I: Fn(Session) -> Motion,
    S: Fn(Projectile) -> bool,
    L: Fn(Session) -> Loading,
    F: Fn(Projectile) -> Flight,
    C: Fn(Session, Session) -> Option<(Motion, Motion)>,

    requires
        before.wf(),
        before.bullets().generation + before.bullets().rows().len() <= u64::MAX,
        answered(answers, before, impulse, spent, load, fly, collide),
        answers.lead(before, after, blocked),
        0 <= k < before.bullets().rows().len(),
    ensures
        ({
            let (h, projectile) = before.bullets().rows()[k];
            &&& call_ensures(spent, (projectile,), answers.expired[k])
            &&& after.bullets().live(h) <==> !answers.expired[k]
            &&& !answers.expired[k] ==> call_ensures(fly, (projectile,), flight) && has_flown(
                projectile,
                flight,
                after.bullets().at(h),
            )
        }),
{
    let players = before.players();
    let bullets = before.bullets();
    let h = bullets.rows()[k].0;
    bullets_fly_or_go(answers, players, bullets, k);
    let flying = answers.volley(players, bullets).bullets;
    let r = rank(flying.slots, h.slot as int);
    if !answers.expired[k] {
        assert(call_ensures(fly, (flying.rows()[r].1,), answers.flights[r]));
    }
    answers.flights[r]
}

/// Whether a bullet has just left a player who has moved: it is the player's own, starts
/// where the motion has put the player, goes in the direction in which the player aims,
/// has a radius of a half and no age.
pub open spec fn leaves(
    shot: Projectile,
    h: Handle,
    session: Session,
    motion: Motion,
    loading: Loading,
) -> bool {
    &&& shot.bullet.id == h.slot
    &&& shot.bullet.player_id == session.player.id
    &&& shot.bullet.position == motion.position
    &&& shot.bullet.angle == session.angle
    &&& shot.bullet.radius == 0x3FE0_0000_0000_0000u64
    &&& shot.lifetime == 0
    &&& loading.shot == Some(shot.velocity)
}

/// Whether a weapon was loaded as is answered for a player who has moved.
pub open spec fn loads<L: Fn(Session) -> Loading>(
    load: L,
    session: Session,
    motion: Motion,
    loading: Loading,
) -> bool {
    call_ensures(
        load,
        (Session {
            player: Player {
                position: motion.position,
                velocity: motion.velocity,
                ..session.player
            },
            ..session
        },),
        loading,
    )
}

/// A bullet that is new after a step was fired by a player, one who fires. It started
/// at the place of that player after the motions, with that player's aim and the shot
/// that was loaded, and has flown since as is answered for it.
pub proof fn new_bullets_start_at_their_players<I, S, L, F, C>(
    answers: Answers,
    before: World,
    after: World,
    blocked: bool,
    impulse: I,
    spent: S,
    load: L,
    fly: F,
    collide: C,
    h: Handle,
) -> (result: (int, Projectile, Flight)) where
    I: Fn(Session) -> Motion,
    S: Fn(Projectile) -> bool,
    L: Fn(Session) -> Loading,
    F: Fn(Projectile) -> Flight,
    C: Fn(Session, Session) -> Option<(Motion, Motion)>,

    requires
        before.wf(),
        before.bullets().generation + before.bullets().rows().len() <= u64::MAX,
        answered(answers, before, impulse, spent, load, fly, collide),
        answers.lead(before, after, blocked),
        after.bullets().live(h),
        !before.bullets().live(h),
    ensures
        ({
            let (r, shot, flight) = result;
            let session = before.players().rows()[r].1;
            let motion = answers.motions[r];
            let end = after.bullets().at(h);
            &&& 0 <= r < before.players().rows().len()
            &&& session.firing
            &&& call_ensures(impulse, (session,), motion)
            &&& answers.loadings[r] is Some
            &&& loads(load, session, motion, answers.loadings[r]->0)
            &&& leaves(shot, h, session, motion, answers.loadings[r]->0)
            &&& call_ensures(fly, (shot,), flight)
            &&& has_flown(shot, flight, end)
            // There is no other player with that id.
            &&& forall|q: int|
                0 <= q < before.players().rows().len() && (
                #[trigger] before.players().rows()[q]).1.player.id == end.bullet.player_id ==> q
                    == r
        }),
{
    let players = before.players();
    let bullets = before.bullets();
    let pushed = answers.pushed(players);
    let m = pushed.rows().len() as int;
    players.rows_are_live();
    bullets.rows_are_live();
    bullets_are_counted(answers, players, bullets);
    lemma_expiry(bullets, answers.expired, bullets.rows().len() as int);
    lemma_motions_same_players(players, answers.motions);
    lemma_volley(pushed, answers.unspent(bullets), answers.loadings, m);
    flying_changes_place_and_time(answers, players, bullets, h);
    let flying = answers.volley(players, bullets).bullets;
    flying.rows_are_live();
    let _ = answers.unspent(bullets).live(h);
    let shot = flying.at(h);
    let i = rank(flying.slots, h.slot as int);
    assert(flying.live(h));
    assert(call_ensures(fly, (flying.rows()[i].1,), answers.flights[i]));
    let r = choose|r: int|
        0 <= r < m && #[trigger] fired_by(pushed, answers.loadings, r, shot, h);
    players.with_values_rows(
        Seq::new(players.rows().len(), |k: int| moved(players.rows()[k].1, answers.motions[k])),
    );
    let session = players.rows()[r].1;
    assert(pushed.rows()[r] == (players.rows()[r].0, moved(session, answers.motions[r])));
    let loading = answers.loadings[r]->0;
    assert(call_ensures(load, (pushed.rows()[r].1,), loading));
    assert(h.slot < flying.slots.len());
    assert(players.live(players.rows()[r].0));
    assert forall|q: int|
        0 <= q < players.rows().len() && (#[trigger] players.rows()[q]).1.player.id
            == shot.bullet.player_id implies q == r by {
        assert(players.live(players.rows()[q].0));
        lemma_row_at(players, q, players.rows()[r].0);
        lemma_row_at(players, r, players.rows()[r].0);
    }
    (r, shot, answers.flights[i])
}

proof fn lemma_firing_takes_slots_in_order(
    players: SlotTable<Session>,
    bullets: SlotTable<Projectile>,
    loadings: Seq<Option<Loading>>,
    n: int,
)
    requires
        players.wf(),
        bullets.wf(),
        0 <= n <= players.rows().len(),
    ensures
        ({
            let volley = after_firing(players, bullets, loadings, n);
            &&& 0 <= shots(loadings, n)
            &&& volley.bullets.generation == bullets.generation
            &&& !volley.blocked ==> shots(loadings, n) <= bullets.vacant.len()
                && volley.bullets.vacant == bullets.vacant.skip(shots(loadings, n))
        }),
    decreases n,
{
    if n > 0 {
        lemma_firing_takes_slots_in_order(players, bullets, loadings, n - 1);
        let before = after_firing(players, bullets, loadings, n - 1);
        let after = after_firing(players, bullets, loadings, n);
        if !after.blocked {
            assert(after.bullets.vacant =~= bullets.vacant.skip(shots(loadings, n)));
        }
    } else {
        assert(bullets.vacant =~= bullets.vacant.skip(0));
    }
}

proof fn lemma_fired_in_turn(
    players: SlotTable<Session>,
    bullets: SlotTable<Projectile>,
    loadings: Seq<Option<Loading>>,
    n: int,
    r: int,
) -> (h: Handle)
    requires
        players.wf(),
        bullets.wf(),
        0 <= r < n <= players.rows().len(),
        loadings[r] is Some,
        loadings[r]->0.shot is Some,
        bullets.rows().len() + shots(loadings, r + 1) <= bullets.slots.len(),
    ensures
        ({
            let volley = after_firing(players, bullets, loadings, n);
            &&& volley.bullets.live(h)
            &&& !bullets.live(h)
            &&& 0 <= shots(loadings, r) < bullets.vacant.len()
            &&& h.slot == bullets.vacant[shots(loadings, r)]
            &&& h.generation == bullets.generation
            &&& fired_by(players, loadings, r, volley.bullets.at(h), h)
        }),
    decreases n,
{
    lemma_volley(players, bullets, loadings, n - 1);
    lemma_volley(players, bullets, loadings, n);
    let before = after_firing(players, bullets, loadings, n - 1);
    let after = after_firing(players, bullets, loadings, n);
    let fresh = before.bullets.next_handle();
    if r == n - 1 {
        assert(!before.blocked);
        assert(!before.bullets.full());
        lemma_firing_takes_slots_in_order(players, bullets, loadings, n - 1);
        before.bullets.insert_is_wf(after.bullets.at(fresh));
        if bullets.live(fresh) {
            assert(before.bullets.live(fresh));
        }
        fresh
    } else {
        let h = lemma_fired_in_turn(players, bullets, loadings, n - 1, r);
        if before.bullets != after.bullets {
            assert(before.bullets.slots[fresh.slot as int] is None);
        }
        h
    }
}

proof fn lemma_spent_slots(bullets: SlotTable<Projectile>, expired: Seq<bool>, n: int)
    requires
        0 <= n <= bullets.rows().len(),
    ensures
        ({
            let vacant = after_expiry(bullets, expired, n).vacant;
            &&& 0 <= spent_count(expired, n)
            &&& vacant.len() == bullets.vacant.len() + spent_count(expired, n)
            &&& forall|k: int|
                0 <= k < n && #[trigger] expired[k] ==> 1 <= spent_count(expired, k + 1)
                    <= spent_count(expired, n) && vacant[spent_count(expired, n) - spent_count(
                    expired,
                    k + 1,
                )] == bullets.rows()[k].0.slot
            &&& forall|i: int|
                0 <= i < bullets.vacant.len() ==> vacant[spent_count(expired, n) + i]
                    == #[trigger] bullets.vacant[i]
        }),
    decreases n,
{
    if n > 0 {
        lemma_spent_slots(bullets, expired, n - 1);
        let was = after_expiry(bullets, expired, n - 1).vacant;
        let now = after_expiry(bullets, expired, n).vacant;
        let all = spent_count(expired, n);
        if expired[n - 1] {
            assert(now == seq![bullets.rows()[n - 1].0.slot] + was);
            assert forall|k: int| 0 <= k < n && #[trigger] expired[k] implies 1 <= spent_count(
                expired,
                k + 1,
            ) <= all && now[all - spent_count(expired, k + 1)] == bullets.rows()[k].0.slot by {
                if k < n - 1 {
                    let x = all - 1 - spent_count(expired, k + 1);
                    assert(was[x] == bullets.rows()[k].0.slot);
                    assert(now[x + 1] == was[x]);
                }
            }
            assert forall|i: int| 0 <= i < bullets.vacant.len() implies now[all + i]
                == #[trigger] bullets.vacant[i] by {
                assert(was[all - 1 + i] == bullets.vacant[i]);
                assert(now[all + i] == was[all - 1 + i]);
            }
        }
    }
}

/// The slots of spent bullets are filled again first, the last of them before the first;
/// then come those that were empty before.
pub proof fn spent_slots_are_filled_again_first(
    answers: Answers,
    bullets: SlotTable<Projectile>,
    k: int,
    i: int,
)
    ensures
        ({
            let n = bullets.rows().len() as int;
            let vacant = answers.unspent(bullets).vacant;
            let all = spent_count(answers.expired, n);
            &&& vacant.len() == bullets.vacant.len() + all
            &&& 0 <= k < n && answers.expired[k] ==> vacant[all - spent_count(
                answers.expired,
                k + 1,
            )] == bullets.rows()[k].0.slot
            &&& 0 <= i < bullets.vacant.len() ==> vacant[all + i] == bullets.vacant[i]
        }),
{
    lemma_spent_slots(bullets, answers.expired, bullets.rows().len() as int);
}

/// Every shot is fired for which there is room, after the spent bullets have gone and
/// the players in lower slots have fired: there is a new bullet of that player. It
/// started where the motions have put the player.
pub proof fn every_shot_with_room_is_fired<I, S, L, F, C>(
    answers: Answers,
    before: World,
    after: World,
    blocked: bool,
    impulse: I,
    spent: S,
    load: L,
    fly: F,
    collide: C,
    r: int,
) -> (result: (Handle, Projectile, Flight)) where
    I: Fn(Session) -> Motion,
    S: Fn(Projectile) -> bool,
    L: Fn(Session) -> Loading,
    F: Fn(Projectile) -> Flight,
    C: Fn(Session, Session) -> Option<(Motion, Motion)>,

    requires
        before.wf(),
        before.bullets().generation + before.bullets().rows().len() <= u64::MAX,
        answered(answers, before, impulse, spent, load, fly, collide),
        answers.lead(before, after, blocked),
        0 <= r < before.players().rows().len(),
        answers.loadings[r] is Some,
        answers.loadings[r]->0.shot is Some,
        before.bullets().rows().len() - spent_count(
            answers.expired,
            before.bullets().rows().len() as int,
        ) + shots(answers.loadings, r + 1) <= before.bullets().slots.len(),
    ensures
        ({
            let (h, shot, flight) = result;
            let session = before.players().rows()[r].1;
            &&& after.bullets().live(h)
            &&& !before.bullets().live(h)
            &&& h.slot == answers.unspent(before.bullets()).vacant[shots(answers.loadings, r)]
            &&& h.generation == before.bullets().generation + spent_count(
                answers.expired,
                before.bullets().rows().len() as int,
            )
            &&& leaves(shot, h, session, answers.motions[r], answers.loadings[r]->0)
            &&& call_ensures(fly, (shot,), flight)
            &&& has_flown(shot, flight, after.bullets().at(h))
        }),
{
    let players = before.players();
    let bullets = before.bullets();
    let pushed = answers.pushed(players);
    let unspent = answers.unspent(bullets);
    let n = bullets.rows().len() as int;
    let m = pushed.rows().len() as int;
    lemma_meeting(answers, players, bullets, r);
    lemma_expiry(bullets, answers.expired, n);
    let h = lemma_fired_in_turn(pushed, unspent, answers.loadings, m, r);
    flying_changes_place_and_time(answers, players, bullets, h);
    bullets.rows_are_live();
    if bullets.live(h) {
        let k = rank(bullets.slots, h.slot as int);
        bullets_fly_or_go(answers, players, bullets, k);
        spent_bullets_go(answers, bullets, k);
    }
    let (q, shot, flight) = new_bullets_start_at_their_players(
        answers, before, after, blocked, impulse, spent, load, fly, collide, h,
    );
    let flying = answers.volley(players, bullets).bullets;
    players.rows_are_live();
    assert(after.bullets().at(h).bullet.player_id == flying.at(h).bullet.player_id);
    assert(players.rows()[r].1.player.id == after.bullets().at(h).bullet.player_id);
    assert(q == r);
    (h, shot, flight)
}

/// What a player has loaded after a step. Who does not fire keeps it. Who fires has what
/// is answered for the player after the motions, unless the shots of the players in
/// lower slots have already found no room. A shot is blocked just when there is no room
/// for all.
pub proof fn weapons_are_loaded_as_answered<I, S, L, F, C>(
    answers: Answers,
    before: World,
    after: World,
    blocked: bool,
    impulse: I,
    spent: S,
    load: L,
    fly: F,
    collide: C,
    r: int,
) where
    I: Fn(Session) -> Motion,
    S: Fn(Projectile) -> bool,
    L: Fn(Session) -> Loading,
    F: Fn(Projectile) -> Flight,
    C: Fn(Session, Session) -> Option<(Motion, Motion)>,

    requires
        before.wf(),
        before.bullets().generation + before.bullets().rows().len() <= u64::MAX,
        answered(answers, before, impulse, spent, load, fly, collide),
        answers.lead(before, after, blocked),
        0 <= r < before.players().rows().len(),
    ensures
        ({
            let (h, session) = before.players().rows()[r];
            let end = after.players().at(h);
            let room = before.bullets().slots.len();
            let n = before.bullets().rows().len() as int;
            let left = n - spent_count(answers.expired, n);
            let all = before.players().rows().len() as int;
            &&& answers.loadings[r] is Some <==> session.firing
            &&& !session.firing ==> end.fire_counter == session.fire_counter
            &&& session.firing ==> loads(
                load,
                session,
                answers.motions[r],
                answers.loadings[r]->0,
            )
            &&& session.firing && left + shots(answers.loadings, r) <= room ==> end.fire_counter
                == answers.loadings[r]->0.fire_counter
            &&& left + shots(answers.loadings, r) > room ==> end.fire_counter
                == session.fire_counter
            &&& blocked <==> left + shots(answers.loadings, all) > room
        }),
{
    let players = before.players();
    let bullets = before.bullets();
    let pushed = answers.pushed(players);
    let n = bullets.rows().len() as int;
    lemma_meeting(answers, players, bullets, r);
    weapons_are_loaded_in_turn(answers, players, bullets, r);
    lemma_expiry(bullets, answers.expired, n);
    lemma_volley(pushed, answers.unspent(bullets), answers.loadings, r);
    bullets_come_from_shooters(answers, players, bullets);
    let _ = answers.loadings[r];
}

/// Nobody joins or leaves in a step, and the bullets after it are those that were not
/// spent, and one for each shot, as long as there is room.
pub proof fn nobody_joins_or_leaves_in_a_step<I, S, L, F, C>(
    answers: Answers,
    before: World,
    after: World,
    blocked: bool,
    impulse: I,
    spent: S,
    load: L,
    fly: F,
    collide: C,
    h: Handle,
) where
    I: Fn(Session) -> Motion,
    S: Fn(Projectile) -> bool,
    L: Fn(Session) -> Loading,
    F: Fn(Projectile) -> Flight,
    C: Fn(Session, Session) -> Option<(Motion, Motion)>,

    requires
        before.wf(),
        before.bullets().generation + before.bullets().rows().len() <= u64::MAX,
        answered(answers, before, impulse, spent, load, fly, collide),
        answers.lead(before, after, blocked),
    ensures
        after.players().live(h) <==> before.players().live(h),
        after.players().vacant == before.players().vacant,
        after.players().generation == before.players().generation,
        ({
            let room = before.bullets().slots.len() as int;
            let n = before.bullets().rows().len() as int;
            let wanted = n - spent_count(answers.expired, n) + shots(
                answers.loadings,
                before.players().rows().len() as int,
            );
            after.bullets().rows().len() == if wanted <= room {
                wanted
            } else {
                room
            }
        }),
{
    let players = before.players();
    let bullets = before.bullets();
    lemma_motions_same_players(players, answers.motions);
    players.with_values_rows(
        Seq::new(players.rows().len(), |k: int| moved(players.rows()[k].1, answers.motions[k])),
    );
    let pushed = answers.pushed(players);
    assert forall|k: int| 0 <= k < pushed.rows().len() implies ((#[trigger] answers.loadings[k])
        is Some <==> pushed.rows()[k].1.firing) by {}
    step_keeps_players(answers, players, bullets);
    bullets_are_counted(answers, players, bullets);
    let _ = players.slots[h.slot as int];
}

} // verus!
