use vstd::prelude::*;

use crate::action::{Action, Actions};
use crate::grid::{step_vec, vec_add, IVec2};
use crate::store::{Ent, Store};

verus! {

/// Turn-advance signal the scheduler emits and the AI consumes.
pub struct TickEvent;

/// Marker for AI-controlled entities.
pub struct GoblinAi;

/// Some player-controlled entity stands on cell `c`.
pub open spec fn is_player_cell(ents: Seq<Ent>, c: IVec2) -> bool {
    exists|i: int| 0 <= i < ents.len() && ents[i].controllable && ents[i].coords == c
}

/// The first orthogonal neighbour of `cell` holding a player, scanning in
/// the fixed order: up, down, right, left.
pub open spec fn first_adjacent_dir(ents: Seq<Ent>, cell: IVec2) -> Option<IVec2> {
    if is_player_cell(ents, vec_add(cell, IVec2 { x: 0i32, y: 1i32 })) {
        Some(IVec2 { x: 0i32, y: 1i32 })
    } else if is_player_cell(ents, vec_add(cell, IVec2 { x: 0i32, y: -1i32 })) {
        Some(IVec2 { x: 0i32, y: -1i32 })
    } else if is_player_cell(ents, vec_add(cell, IVec2 { x: 1i32, y: 0i32 })) {
        Some(IVec2 { x: 1i32, y: 0i32 })
    } else if is_player_cell(ents, vec_add(cell, IVec2 { x: -1i32, y: 0i32 })) {
        Some(IVec2 { x: -1i32, y: 0i32 })
    } else {
        None
    }
}

/// The random step an AI entity takes: a nonzero horizontal draw forces the
/// vertical component to zero, so the step is never diagonal.
pub open spec fn ai_step(x: i32, y: i32) -> IVec2 {
    if x != 0 {
        IVec2 { x, y: 0 }
    } else {
        IVec2 { x: 0, y }
    }
}

/// What one AI entity does on a turn signal: attack if any orthogonal
/// neighbour holds a player (first match in scan order wins, one attack at
/// most), else take the drawn random step.
pub open spec fn ai_decision(ents: Seq<Ent>, g: Ent, x: i32, y: i32) -> Action {
    if first_adjacent_dir(ents, g.coords) is Some {
        Action::Attack(g.id)
    } else {
        Action::Move(g.id, ai_step(x, y))
    }
}

/// The AI's random step is never diagonal: one component is always zero,
/// and both stay single-cell.
pub proof fn lemma_ai_step_never_diagonal(x: i32, y: i32)
    requires
        -1 <= x <= 1,
        -1 <= y <= 1,
    ensures
        step_vec(ai_step(x, y)),
        ai_step(x, y).x == 0 || ai_step(x, y).y == 0,
{
}

/// The AI attacks only when a player stands on an orthogonally adjacent
/// cell at signal time; otherwise it moves, by a non-diagonal step.
pub proof fn lemma_ai_attacks_only_adjacent(ents: Seq<Ent>, g: Ent, x: i32, y: i32)
    requires
        -1 <= x <= 1,
        -1 <= y <= 1,
    ensures
        ai_decision(ents, g, x, y) matches Action::Attack(_) ==> exists|d: IVec2|
            step_vec(d) && (d.x == 0 || d.y == 0) && !(d.x == 0 && d.y == 0) && is_player_cell(
                ents,
                vec_add(g.coords, d),
            ),
        ai_decision(ents, g, x, y) matches Action::Move(_, d) ==> step_vec(d) && (d.x == 0 || d.y
            == 0),
{
    if first_adjacent_dir(ents, g.coords) is Some {
        let d = first_adjacent_dir(ents, g.coords)->Some_0;
        assert(step_vec(d) && (d.x == 0 || d.y == 0) && !(d.x == 0 && d.y == 0)
            && is_player_cell(ents, vec_add(g.coords, d)));
    }
}

/// When players stand on several sides at once, the only ambiguity is which
/// neighbour the fixed scan order picks: up before down before right before
/// left -- and a single attack is decided either way.
pub proof fn lemma_ai_scan_order(ents: Seq<Ent>, cell: IVec2)
    ensures
        is_player_cell(ents, vec_add(cell, IVec2 { x: 0i32, y: 1i32 }))
            ==> first_adjacent_dir(ents, cell) == Some(IVec2 { x: 0i32, y: 1i32 }),
        ({
            &&& !is_player_cell(ents, vec_add(cell, IVec2 { x: 0i32, y: 1i32 }))
            &&& is_player_cell(ents, vec_add(cell, IVec2 { x: 0i32, y: -1i32 }))
        }) ==> first_adjacent_dir(ents, cell) == Some(IVec2 { x: 0i32, y: -1i32 }),
        ({
            &&& !is_player_cell(ents, vec_add(cell, IVec2 { x: 0i32, y: 1i32 }))
            &&& !is_player_cell(ents, vec_add(cell, IVec2 { x: 0i32, y: -1i32 }))
            &&& is_player_cell(ents, vec_add(cell, IVec2 { x: 1i32, y: 0i32 }))
        }) ==> first_adjacent_dir(ents, cell) == Some(IVec2 { x: 1i32, y: 0i32 }),
{
}

/// Every drawn step component lies in {-1, 0, 1}.
pub open spec fn draws_in_range(draws: Seq<(i32, i32)>) -> bool {
    forall|k: int|
        0 <= k < draws.len() ==> -1 <= (#[trigger] draws[k]).0 <= 1 && -1 <= draws[k].1 <= 1
}

/// Actions the decisions of the AI entities of `full` would produce, one
/// per AI entity from index `i` on, in creation order, drawing the step for
/// entity `k` from `draws[k]`.
pub open spec fn decisions_rec(full: Seq<Ent>, i: int, draws: Seq<(i32, i32)>) -> Seq<Action>
    decreases full.len() - i,
{
    if i < 0 || i >= full.len() {
        Seq::empty()
    } else {
        let rest = decisions_rec(full, i + 1, draws);
        if full[i].goblin {
            seq![ai_decision(full, full[i], draws[i].0, draws[i].1)] + rest
        } else {
            rest
        }
    }
}

/// The decisions from index `i` on read only the draws from `i` on.
proof fn lemma_decisions_draws_agree(
    full: Seq<Ent>,
    i: int,
    draws1: Seq<(i32, i32)>,
    draws2: Seq<(i32, i32)>,
)
    requires
        forall|k: int| i <= k < full.len() ==> draws1[k] == draws2[k],
    ensures
        decisions_rec(full, i, draws1) == decisions_rec(full, i, draws2),
    decreases full.len() - i,
{
    if 0 <= i < full.len() {
        lemma_decisions_draws_agree(full, i + 1, draws1, draws2);
    }
}

/// The queue after one turn signal's AI pass: each AI entity's decision
/// front-inserted in creation order, and one pacing `Delay` appended.
pub open spec fn turn_batch(ents: Seq<Ent>, q: Seq<Action>, draws: Seq<(i32, i32)>) -> Seq<
    Action,
> {
    decisions_rec(ents, 0, draws) + q.push(Action::Delay)
}

/// The queue after one AI pass per pending turn signal, in order, signal
/// `t` drawing its steps from `draws[t]`.
pub open spec fn batches_rec(ents: Seq<Ent>, q: Seq<Action>, draws: Seq<Seq<(i32, i32)>>) -> Seq<
    Action,
>
    decreases draws.len(),
{
    if draws.len() == 0 {
        q
    } else {
        batches_rec(ents, turn_batch(ents, q, draws[0]), draws.drop_first())
    }
}

/// Appending one more signal's draws applies one more batch at the end.
proof fn lemma_batches_push(
    ents: Seq<Ent>,
    q: Seq<Action>,
    draws: Seq<Seq<(i32, i32)>>,
    d: Seq<(i32, i32)>,
)
    ensures
        batches_rec(ents, q, draws.push(d)) == turn_batch(ents, batches_rec(ents, q, draws), d),
    decreases draws.len(),
{
    if draws.len() == 0 {
        assert(draws.push(d)[0] == d);
        assert(draws.push(d).drop_first() =~= Seq::<Seq<(i32, i32)>>::empty());
        assert(batches_rec(ents, q, draws.push(d)) == batches_rec(
            ents,
            turn_batch(ents, q, d),
            Seq::<Seq<(i32, i32)>>::empty(),
        ));
        assert(batches_rec(ents, turn_batch(ents, q, d), Seq::<Seq<(i32, i32)>>::empty())
            == turn_batch(ents, q, d));
        assert(batches_rec(ents, q, draws) == q);
    } else {
        assert(draws.push(d)[0] == draws[0]);
        assert(draws.push(d).drop_first() =~= draws.drop_first().push(d));
        lemma_batches_push(ents, turn_batch(ents, q, draws[0]), draws.drop_first(), d);
        assert(batches_rec(ents, q, draws.push(d)) == batches_rec(
            ents,
            turn_batch(ents, q, draws[0]),
            draws.drop_first().push(d),
        ));
        assert(batches_rec(ents, q, draws) == batches_rec(
            ents,
            turn_batch(ents, q, draws[0]),
            draws.drop_first(),
        ));
    }
}

/// Process one turn-advance signal: each AI entity, independently and in
/// creation order, either attacks (a player is orthogonally adjacent) or
/// takes a random non-diagonal step, one front-inserted action per entity;
/// the batch ends with one pacing `Delay` appended at the back.
///
/// The entities are scanned back to front so that the front-inserted block
/// reads in creation order.
pub fn goblin_turn(
    acts: &mut Actions,
    store: &Store,
    rng: &mut rand::rngs::StdRng,
)
    requires
        old(acts).wf(),
        store.wf(),
    ensures
        final(acts).wf(),
        final(acts).locked() == old(acts).locked(),
        final(acts).timer_spec() == old(acts).timer_spec(),
        exists|draws: Seq<(i32, i32)>|
            {
                &&& draws.len() == store.s().len()
                &&& draws_in_range(draws)
                &&& final(acts).queue_seq() == turn_batch(
                    store.s(),
                    old(acts).queue_seq(),
                    draws,
                )
            },
{
    let n = store.len();
    acts.queue(Action::Delay);
    let ghost base = acts.queue_seq();
    let ghost mut draws: Seq<(i32, i32)> = Seq::new(n as nat, |k: int| (0i32, 0i32));
    let mut i: usize = n;
    while i > 0
        invariant
            acts.wf(),
            store.wf(),
            acts.locked() == old(acts).locked(),
            acts.timer_spec() == old(acts).timer_spec(),
            n == store.s().len(),
            0 <= i <= n,
            draws.len() == n,
            forall|k: int| 0 <= k < n ==> -1 <= (#[trigger] draws[k]).0 <= 1 && -1 <= draws[k].1
                <= 1,
            base == old(acts).queue_seq().push(Action::Delay),
            acts.queue_seq() == decisions_rec(store.s(), i as int, draws) + base,
        decreases i,
    {
        i = i - 1;
        proof {
            assert(decisions_rec(store.s(), i as int, draws) == if store.s()[i as int].goblin {
                seq![
                    ai_decision(store.s(), store.s()[i as int], draws[i as int].0, draws[
                        i as int
                    ].1),
                ] + decisions_rec(store.s(), i as int + 1, draws)
            } else {
                decisions_rec(store.s(), i as int + 1, draws)
            });
        }
        let e = store.ents[i];
        if e.goblin {
            let up = player_at(store, e.coords.x, e.coords.y, 0, 1);
            let down = player_at(store, e.coords.x, e.coords.y, 0, -1);
            let right = player_at(store, e.coords.x, e.coords.y, 1, 0);
            let left = player_at(store, e.coords.x, e.coords.y, -1, 0);
            if up || down || right || left {
                acts.push(Action::Attack(e.id));
                proof {
                    assert(first_adjacent_dir(store.s(), e.coords) is Some);
                    assert(ai_decision(store.s(), e, draws[i as int].0, draws[i as int].1)
                        == Action::Attack(e.id));
                    assert(acts.queue_seq() =~= decisions_rec(store.s(), i as int, draws)
                        + base);
                }
            } else {
                let x = crate::rng::gen_step(rng);
                let mut y: i32 = 0;
                if x == 0 {
                    y = crate::rng::gen_step(rng);
                }
                let ghost dpre = draws;
                proof {
                    draws = draws.update(i as int, (x, y));
                    lemma_decisions_draws_agree(store.s(), i as int + 1, draws, dpre);
                }
                let step = if x != 0 {
                    IVec2 { x, y: 0 }
                } else {
                    IVec2 { x: 0, y }
                };
                acts.push(Action::Move(e.id, step));
                proof {
                    assert(first_adjacent_dir(store.s(), e.coords) is None);
                    assert(step == ai_step(x, y));
                    assert(ai_decision(store.s(), e, draws[i as int].0, draws[i as int].1)
                        == Action::Move(e.id, step));
                    assert(acts.queue_seq() =~= decisions_rec(store.s(), i as int, draws)
                        + base);
                }
            }
        }
    }
    proof {
        assert(draws.len() == store.s().len() && draws_in_range(draws) && acts.queue_seq()
            == turn_batch(store.s(), old(acts).queue_seq(), draws));
    }
}

/// Does a player stand on the cell one step `(dx, dy)` from `(cx, cy)`?
fn player_at(store: &Store, cx: i32, cy: i32, dx: i32, dy: i32) -> (r: bool)
    requires
        store.wf(),
        i32::MIN <= cx + dx <= i32::MAX,
        i32::MIN <= cy + dy <= i32::MAX,
    ensures
        r == is_player_cell(
            store.s(),
            IVec2 { x: (cx + dx) as i32, y: (cy + dy) as i32 },
        ),
{
    let c = IVec2 { x: cx + dx, y: cy + dy };
    let n = store.ents.len();
    let mut i: usize = 0;
    while i < n
        invariant
            n == store.s().len(),
            0 <= i <= n,
            c == (IVec2 { x: (cx + dx) as i32, y: (cy + dy) as i32 }),
            forall|m: int|
                0 <= m < i ==> !(store.s()[m].controllable && (#[trigger] store.s()[m]).coords
                    == c),
        decreases n - i,
    {
        if store.ents[i].controllable && store.ents[i].coords == c {
            proof {
                assert(store.s()[i as int].controllable && store.s()[i as int].coords == c);
                assert(is_player_cell(store.s(), c));
            }
            return true;
        }
        i = i + 1;
    }
    false
}

/// Consume the turn-advance signals of one frame: one AI pass per signal,
/// each a `turn_batch` -- exactly one front-inserted decision per AI
/// entity (an attack only with a player orthogonally adjacent at signal
/// time, else a non-diagonal step) and one trailing pacing delay. With no
/// signal pending the queue is untouched.
pub fn goblin_ai_movement(
    acts: &mut Actions,
    ticks: usize,
    store: &Store,
    rng: &mut rand::rngs::StdRng,
)
    requires
        old(acts).wf(),
        store.wf(),
    ensures
        final(acts).wf(),
        final(acts).locked() == old(acts).locked(),
        final(acts).timer_spec() == old(acts).timer_spec(),
        exists|draws: Seq<Seq<(i32, i32)>>|
            {
                &&& draws.len() == ticks
                &&& (forall|t: int|
                    0 <= t < draws.len() ==> (#[trigger] draws[t]).len() == store.s().len()
                        && draws_in_range(draws[t]))
                &&& final(acts).queue_seq() == batches_rec(
                    store.s(),
                    old(acts).queue_seq(),
                    draws,
                )
            },
{
    let ghost q0 = acts.queue_seq();
    let ghost mut all_draws: Seq<Seq<(i32, i32)>> = Seq::empty();
    let mut t: usize = 0;
    while t < ticks
        invariant
            acts.wf(),
            store.wf(),
            acts.locked() == old(acts).locked(),
            acts.timer_spec() == old(acts).timer_spec(),
            q0 == old(acts).queue_seq(),
            0 <= t <= ticks,
            all_draws.len() == t,
            forall|m: int|
                0 <= m < all_draws.len() ==> (#[trigger] all_draws[m]).len() == store.s().len()
                    && draws_in_range(all_draws[m]),
            acts.queue_seq() == batches_rec(store.s(), q0, all_draws),
        decreases ticks - t,
    {
        let ghost qpre = acts.queue_seq();
        goblin_turn(acts, store, rng);
        proof {
            let d = choose|d: Seq<(i32, i32)>|
                {
                    &&& d.len() == store.s().len()
                    &&& draws_in_range(d)
                    &&& acts.queue_seq() == turn_batch(store.s(), qpre, d)
                };
            lemma_batches_push(store.s(), q0, all_draws, d);
            all_draws = all_draws.push(d);
        }
        t = t + 1;
    }
}

} // verus!
