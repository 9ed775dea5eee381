//! Running a match to its end.
use vstd::prelude::*;
use crate::game::{GameState, GameStep, Player};

verus! {

/// Cards left in all libraries.
pub open spec fn library_total(ps: Seq<Player>) -> nat
    decreases ps.len(),
{
    if ps.len() == 0 {
        0
    } else {
        library_total(ps.drop_last()) + ps.last().zones.library@.len()
    }
}

/// Steps left before the next Draw (or the end) of the turn in progress.
pub open spec fn phase_rank(s: GameState) -> nat {
    match s.step {
        GameStep::GameOver => 0,
        GameStep::Draw => 1,
        GameStep::Upkeep => 2,
        GameStep::Untap => 3,
        GameStep::StartTurn => 4,
        GameStep::EndTurn => 5,
        GameStep::AssignDamage => 6,
        GameStep::DeclareBlockers => if s.waiting_for_block_decision {
            7
        } else {
            8
        },
        GameStep::DeclareAttackers => if s.waiting_for_attack_decision {
            9
        } else {
            10
        },
        GameStep::Main => if s.waiting_for_main_decision {
            11
        } else {
            12
        },
    }
}

/// A bound on the steps left in the match: each Draw takes a library card, and at most
/// twelve steps separate two Draws.
pub open spec fn progress(s: GameState) -> nat {
    library_total(s.players@) * 13 + phase_rank(s)
}

proof fn lemma_library_total_update(ps: Seq<Player>, qs: Seq<Player>, c: int)
    requires
        ps.len() == qs.len(),
        0 <= c < ps.len(),
        forall|i: int|
            0 <= i < ps.len() && i != c ==> #[trigger] qs[i].zones.library@.len()
                == ps[i].zones.library@.len(),
    ensures
        library_total(qs) + ps[c].zones.library@.len() == library_total(ps)
            + qs[c].zones.library@.len(),
    decreases ps.len(),
{
    if c < ps.len() - 1 {
        lemma_library_total_update(ps.drop_last(), qs.drop_last(), c);
    } else {
        assert(ps.drop_last() =~= ps.drop_last());
        lemma_library_total_same(ps.drop_last(), qs.drop_last());
    }
}

proof fn lemma_library_total_same(ps: Seq<Player>, qs: Seq<Player>)
    requires
        ps.len() == qs.len(),
        forall|i: int|
            0 <= i < ps.len() ==> #[trigger] qs[i].zones.library@.len() == ps[i].zones.library@.len(),
    ensures
        library_total(qs) == library_total(ps),
    decreases ps.len(),
{
    if ps.len() > 0 {
        lemma_library_total_same(ps.drop_last(), qs.drop_last());
    }
}

/// 1 when the next turn-counting event is a StartTurn, 0 when it is a Draw or the match
/// is over.
pub open spec fn turn_pending(s: GameState) -> nat {
    match s.step {
        GameStep::Untap | GameStep::Upkeep | GameStep::Draw | GameStep::GameOver => 0,
        _ => 1,
    }
}

/// A step never lowers the turn counter, and a turn is counted only after a library
/// card has been drawn: the counter, the cards left in libraries and the pending turn
/// never grow together.
pub proof fn lemma_step_turns(pre: GameState, post: GameState)
    requires
        pre.wf(),
        GameState::step_spec(pre, post),
    ensures
        post.turns >= pre.turns,
        post.turns + library_total(post.players@) + turn_pending(post) <= pre.turns
            + library_total(pre.players@) + turn_pending(pre),
{
    let c = pre.current_player_index as int;
    if pre.players@ != post.players@ {
        assert forall|i: int| 0 <= i < pre.players@.len() && i != c implies #[trigger]
            post.players@[i].zones.library@.len() == pre.players@[i].zones.library@.len() by {
            if pre.step == GameStep::AssignDamage {
                assert(post.players@[i].zones == pre.players@[i].zones);
            } else {
                assert(post.players@[i] == pre.players@[i]);
            }
        }
        lemma_library_total_update(pre.players@, post.players@, c);
    }
}

/// Every step before the end brings the match closer to its end.
pub proof fn lemma_step_progress(pre: GameState, post: GameState)
    requires
        pre.wf(),
        GameState::step_spec(pre, post),
        pre.step != GameStep::GameOver,
    ensures
        progress(post) < progress(pre),
{
    let c = pre.current_player_index as int;
    if pre.players@ != post.players@ {
        assert forall|i: int| 0 <= i < pre.players@.len() && i != c implies #[trigger]
            post.players@[i].zones.library@.len() == pre.players@[i].zones.library@.len() by {
            if pre.step == GameStep::AssignDamage {
                assert(post.players@[i].zones == pre.players@[i].zones);
            } else {
                assert(post.players@[i] == pre.players@[i]);
            }
        }
        lemma_library_total_update(pre.players@, post.players@, c);
    }
}

/// Cards are never added to a library, so the match always ends; the result is the
/// turn counter at the end. The match goes through one `step` after another.
pub fn run_to_completion(game: &mut GameState) -> (r: u32)
    requires
        old(game).wf(),
    ensures
        final(game).step == GameStep::GameOver,
        r == final(game).turns,
        old(game).turns <= r <= old(game).turns + library_total(old(game).players@) + 1,
        exists|trace: Seq<GameState>| #[trigger] steps_to(*old(game), *final(game), trace),
{
    let ghost mut trace: Seq<GameState> = seq![*game];
    while !game.is_game_over()
        invariant
            game.wf(),
            steps_to(*old(game), *game, trace),
            old(game).turns <= game.turns,
            game.turns + library_total(game.players@) + turn_pending(*game) <= old(game).turns
                + library_total(old(game).players@) + turn_pending(*old(game)),
        decreases progress(*game),
    {
        let ghost pre = *game;
        game.step();
        proof {
            lemma_step_progress(pre, *game);
            lemma_step_turns(pre, *game);
            let t = trace.push(*game);
            assert(t[t.len() - 2] == pre);
            assert forall|i: int| 0 <= i < t.len() - 1 implies GameState::step_spec(
                #[trigger] t[i],
                t[i + 1],
            ) && t[i].step != GameStep::GameOver by {
                if i < t.len() - 2 {
                    assert(t[i] == trace[i] && t[i + 1] == trace[i + 1]);
                }
            }
            trace = t;
        }
    }
    game.turns
}

/// `trace` goes from `s` to `t` one `step` at a time, never passing the end of the match.
pub open spec fn steps_to(s: GameState, t: GameState, trace: Seq<GameState>) -> bool {
    &&& trace.len() >= 1
    &&& trace[0] == s
    &&& trace.last() == t
    &&& forall|i: int|
        0 <= i < trace.len() - 1 ==> GameState::step_spec(#[trigger] trace[i], trace[i + 1])
            && trace[i].step != GameStep::GameOver
}

} // verus!
