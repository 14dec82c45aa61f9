//! What holds of every lobby, whatever happens to it.

use vstd::prelude::*;

use crate::model::{
    at_most, best_total, elapsed, entry_of, entry_score, has_id, has_token, lacks_id, nearest,
    printable, round_secs, sanitized, scored, standing_of, standing_total, total_reset, EventView,
    LobbyView, OutView, Phase, PlayerView, RangesView, Step, TimerView,
};
use crate::ordering::{
    first, is_first, law_ranked_is_sorted, law_ranked_is_stable, lemma_filter_all,
    lemma_filter_keeps, lemma_filter_keeps_first, lemma_filter_keeps_front,
    lemma_filter_keeps_pairs, lemma_first, lemma_first_exists, lemma_first_none, worth_exactly,
};
use crate::protocol::{ClientMsgView, Config, ServerMsgView, Spot};
use crate::rng::RngView;
use crate::scoring::{docked, law_score_bounds, MISS_PENALTY, WALDO_HIT_RADIUS};
use crate::text::{is_control, lemma_trimmed, lemma_untrimmed, trimmed};

verus! {

/// Nobody's total can overflow: a game has ten rounds at most.
pub proof fn law_totals_fit(lobby: LobbyView, i: int)
    requires
        lobby.valid(),
        0 <= i < lobby.players.len(),
    ensures
        0 <= lobby.players[i].total <= best_total(10),
        lobby.players[i].total + lobby.players[i].round_score() <= u32::MAX,
{
    let p = lobby.players[i];
    assert(p.valid());
    law_score_bounds(p.found_rank, p.misses, p.wenda, p.woof, p.wizard, p.odlaw);
}

pub(crate) proof fn lemma_with_player_valid(lobby: LobbyView, i: int, q: PlayerView)
    requires
        lobby.valid(),
        0 <= i < lobby.players.len(),
        q.valid(),
        q.total == lobby.players[i].total,
    ensures
        lobby.with_player(i, q).valid(),
{
    let after = lobby.with_player(i, q);
    assert forall|j: int| 0 <= j < after.players.len() implies (#[trigger] after.players[j]).valid()
        && after.players[j].total <= best_total(after.rounds_scored()) by {
        assert(lobby.players[j].valid());
    }
}

pub(crate) proof fn lemma_without_valid(lobby: LobbyView, id: int)
    requires
        lobby.valid(),
    ensures
        lobby.without(id).valid(),
{
    let left = lobby.without(id);
    lemma_filter_keeps(lobby.players, lacks_id(id));
    assert forall|j: int| 0 <= j < left.players.len() implies (#[trigger] left.players[j]).valid()
        && left.players[j].total <= best_total(left.rounds_scored()) by {
        let m = choose|m: int| 0 <= m < lobby.players.len() && lobby.players[m] == left.players[j];
        assert(lobby.players[m].valid());
    }
}

proof fn lemma_scored_valid(lobby: LobbyView)
    requires
        lobby.valid(),
        lobby.phase == Phase::Playing,
    ensures
        lobby.scored_round().valid(),
{
    let after = lobby.scored_round();
    assert forall|j: int| 0 <= j < after.players.len() implies (#[trigger] after.players[j]).valid()
        && after.players[j].total <= best_total(after.rounds_scored()) by {
        let p = lobby.players[j];
        assert(p.valid());
        law_score_bounds(p.found_rank, p.misses, p.wenda, p.woof, p.wizard, p.odlaw);
    }
}

proof fn lemma_started_valid(lobby: LobbyView, now: int, rng: RngView)
    requires
        lobby.valid(),
        lobby.round < lobby.config.rounds,
        forall|i: int|
            0 <= i < lobby.players.len() ==> (#[trigger] lobby.players[i]).total <= best_total(
                lobby.round,
            ),
    ensures
        lobby.start_round(now, rng).lobby.valid(),
{
    let after = lobby.start_round(now, rng).lobby;
    assert forall|j: int| 0 <= j < after.players.len() implies (#[trigger] after.players[j]).valid()
        && after.players[j].total <= best_total(after.rounds_scored()) by {
        assert(lobby.players[j].valid());
    }
}

proof fn lemma_click_valid(
    lobby: LobbyView,
    now: int,
    rng: RngView,
    id: int,
    pos: Spot,
    ranges: RangesView,
)
    requires
        lobby.valid(),
        lobby.headroom(now),
    ensures
        lobby.click(now, rng, id, pos, ranges).lobby.valid(),
{
    if let Some(i) = lobby.find(id) {
        let p = lobby.players[i];
        assert(p.valid() && p.headroom());
        if lobby.phase == Phase::Playing && pos.finite() {
            if ranges.waldo <= WALDO_HIT_RADIUS {
                let remaining = if lobby.round_ends_ms > now {
                    lobby.round_ends_ms - now
                } else {
                    0
                };
                let q = PlayerView {
                    found_rank: lobby.found + 1,
                    found_at_ms: elapsed(lobby.round_len_ms, remaining),
                    ..p
                };
                lemma_with_player_valid(lobby, i, q);
                lemma_scored_valid(LobbyView { found: lobby.found + 1, ..lobby.with_player(i, q) });
            } else {
                match nearest(ranges.cast, lobby.cast_in_view(ranges)) {
                    Some(c) => {
                        lemma_with_player_valid(lobby, i, p.meeting(lobby.cast[c].0));
                    },
                    None => {
                        lemma_with_player_valid(
                            lobby,
                            i,
                            PlayerView { misses: p.misses + 1, ..p },
                        );
                    },
                }
            }
        }
    }
}

proof fn lemma_removed_valid(lobby: LobbyView, now: int, rng: RngView, id: int)
    requires
        lobby.valid(),
    ensures
        lobby.removed(now, rng, id).lobby.valid(),
{
    let left = lobby.without(id);
    lemma_without_valid(lobby, id);
    if left.phase == Phase::Playing {
        lemma_scored_valid(left);
    }
}

proof fn lemma_client_valid(
    lobby: LobbyView,
    now: int,
    rng: RngView,
    from: Option<int>,
    msg: ClientMsgView,
    id: int,
    token: Seq<char>,
    ranges: RangesView,
)
    requires
        lobby.valid(),
        lobby.headroom(now),
    ensures
        lobby.client(now, rng, from, msg, id, token, ranges).lobby.valid(),
{
    match (from, msg) {
        (Some(who), ClientMsgView::Leave) => {
            lemma_removed_valid(lobby, now, rng, who);
        },
        (Some(who), ClientMsgView::Click { pos }) => {
            lemma_click_valid(lobby, now, rng, who, pos, ranges);
        },
        (Some(who), ClientMsgView::Start) => {
            let fresh = LobbyView {
                players: lobby.players.map_values(total_reset()),
                round: 0,
                ..lobby
            };
            assert forall|j: int| 0 <= j < fresh.players.len() implies (
            #[trigger] fresh.players[j]).valid() && fresh.players[j].total == 0 by {
                assert(lobby.players[j].valid());
            }
            if lobby.phase == Phase::Waiting {
                lemma_started_valid(fresh, now, rng);
            }
        },
        (None, ClientMsgView::Rejoin { token: offered, .. }) => {
            if let Some(i) = first(lobby.players, has_token(offered)) {
                let p = lobby.players[i];
                assert(p.valid());
                lemma_with_player_valid(
                    lobby,
                    i,
                    PlayerView { connected: true, disconnect_gen: p.disconnect_gen + 1, ..p },
                );
            }
        },
        (None, ClientMsgView::Create { name }) => {
            lemma_seated_valid(lobby, id, name, token);
        },
        (None, ClientMsgView::Join { name, .. }) => {
            lemma_seated_valid(lobby, id, name, token);
        },
        _ => {},
    }
}

proof fn lemma_seated_valid(lobby: LobbyView, id: int, name: Seq<char>, token: Seq<char>)
    requires
        lobby.valid(),
    ensures
        lobby.seating(id, name, token).valid(),
{
    let after = lobby.seating(id, name, token);
    assert forall|j: int| 0 <= j < after.players.len() implies (#[trigger] after.players[j]).valid()
        && after.players[j].total <= best_total(after.rounds_scored()) by {
        if j < lobby.players.len() {
            assert(lobby.players[j].valid());
        }
    }
}

/// A valid lobby stays valid, whatever event it is given: the settings stay in range,
/// no game runs past its last round, and every player's record stays consistent.
#[verifier::spinoff_prover]
pub proof fn law_events_keep_lobby_valid(
    lobby: LobbyView,
    now: int,
    rng: RngView,
    event: EventView,
)
    requires
        lobby.valid(),
        lobby.headroom(now),
    ensures
        lobby.apply(now, rng, event).lobby.valid(),
{
    match event {
        EventView::Client { from, msg, id, token, ranges } => {
            lemma_client_valid(lobby, now, rng, from, msg, id, token, ranges);
        },
        EventView::Dropped(id) => {
            if let Some(i) = lobby.find(id) {
                let p = lobby.players[i];
                assert(p.valid());
                let q = PlayerView {
                    connected: false,
                    disconnect_gen: p.disconnect_gen + 1,
                    ..p
                };
                lemma_with_player_valid(lobby, i, q);
                if lobby.phase == Phase::Playing {
                    lemma_scored_valid(lobby.with_player(i, q));
                }
            }
        },
        EventView::Fired(TimerView::RoundEnd { .. }) => {
            if lobby.phase == Phase::Playing {
                lemma_scored_valid(lobby);
            }
        },
        EventView::Fired(TimerView::Intermission { .. }) => {
            if lobby.phase == Phase::Intermission && lobby.round < lobby.config.rounds {
                assert forall|i: int| 0 <= i < lobby.players.len() implies (
                #[trigger] lobby.players[i]).total <= best_total(lobby.round) by {
                    assert(lobby.players[i].valid());
                }
                lemma_started_valid(lobby, now, rng);
            } else if lobby.phase == Phase::Intermission {
                let after = LobbyView { phase: Phase::Waiting, round: 0, ..lobby };
                assert forall|i: int| 0 <= i < after.players.len() implies (
                #[trigger] after.players[i]).valid() && after.players[i].total
                    <= best_total(after.rounds_scored()) by {
                    assert(lobby.players[i].valid());
                }
            }
        },
        EventView::Fired(TimerView::Grace { player, .. }) => {
            lemma_removed_valid(lobby, now, rng, player);
        },
    }
}

/// Where a player is once another has been dropped.
proof fn lemma_find_without(lobby: LobbyView, gone: int, id: int)
    ensures
        gone == id ==> lobby.without(gone).find(id) is None,
        gone != id && lobby.find(id) is Some ==> {
            let left = lobby.without(gone);
            &&& left.find(id) is Some
            &&& is_first(left.players, has_id(id), left.find(id)->0)
            &&& left.players[left.find(id)->0] == lobby.players[lobby.find(id)->0]
        },
{
    let left = lobby.without(gone).players;
    lemma_filter_keeps(lobby.players, lacks_id(gone));
    if gone == id {
        assert forall|j: int| 0 <= j < left.len() implies !has_id(id)(#[trigger] left[j]) by {
            assert(lacks_id(gone)(left[j]));
        }
        lemma_first_none(left, has_id(id));
    } else if lobby.find(id) is Some {
        let i = lobby.find(id)->0;
        lemma_filter_keeps_first(lobby.players, lacks_id(gone), has_id(id), i);
        let j = choose|j: int| is_first(left, has_id(id), j) && left[j] == lobby.players[i];
        lemma_first(left, has_id(id), j);
    }
}

/// Scoring a round moves nobody.
proof fn lemma_find_scored(lobby: LobbyView, id: int)
    requires
        lobby.find(id) is Some,
    ensures
        lobby.scored_round().find(id) == lobby.find(id),
{
    let i = lobby.find(id)->0;
    let after = lobby.scored_round().players;
    assert forall|j: int| 0 <= j < i implies !has_id(id)(#[trigger] after[j]) by {
        assert(!has_id(id)(lobby.players[j]));
    }
    lemma_first(after, has_id(id), i);
}

/// Where a player is once another has been removed and the round perhaps scored.
proof fn lemma_find_removed(lobby: LobbyView, now: int, rng: RngView, gone: int, id: int)
    requires
        lobby.find(id) is Some,
    ensures
        ({
            let was = lobby.players[lobby.find(id)->0];
            let after = lobby.removed(now, rng, gone).lobby;
            match after.find(id) {
                Some(j) => {
                    let is = after.players[j];
                    &&& gone != id
                    &&& 0 <= j < after.players.len()
                    &&& is == (PlayerView { total: is.total, ..was })
                },
                None => gone == id,
            }
        }),
{
    lemma_find_without(lobby, gone, id);
    let left = lobby.without(gone);
    lemma_filter_keeps(lobby.players, lacks_id(gone));
    if gone == id {
        assert(left.players != lobby.players);
        let after = left.scored_round().players;
        assert forall|j: int| 0 <= j < after.len() implies !has_id(id)(#[trigger] after[j]) by {
            assert(lacks_id(gone)(left.players[j]));
        }
        lemma_first_none(after, has_id(id));
    } else {
        lemma_find_scored(left, id);
    }
}

/// Where a player is after an event, if they were there before it: in the same place
/// or an earlier one, with the seat's own history, or gone.
proof fn lemma_find_after(
    lobby: LobbyView,
    now: int,
    rng: RngView,
    event: EventView,
    id: int,
)
    requires
        lobby.find(id) is Some,
    ensures
        ({
            let was = lobby.players[lobby.find(id)->0];
            let after = lobby.apply(now, rng, event).lobby;
            match after.find(id) {
                Some(j) => {
                    let is = after.players[j];
                    &&& 0 <= j < after.players.len()
                    &&& is.id == id
                    &&& is.name == was.name
                    &&& is.token == was.token
                    &&& is.disconnect_gen >= was.disconnect_gen
                    &&& is.connected == was.connected || is.disconnect_gen > was.disconnect_gen
                },
                None => true,
            }
        }),
{
    let i = lobby.find(id)->0;
    assert(is_first(lobby.players, has_id(id), i));
    let after = lobby.apply(now, rng, event).lobby;
    match event {
        EventView::Client { from: Some(who), msg: ClientMsgView::Leave, .. } => {
            lemma_find_removed(lobby, now, rng, who, id);
        },
        EventView::Fired(TimerView::Grace { player, .. }) => {
            lemma_find_removed(lobby, now, rng, player, id);
        },
        _ => {
            assert forall|j: int| 0 <= j < i implies !has_id(id)(#[trigger] after.players[j]) by {
                assert(!has_id(id)(lobby.players[j]));
            }
            assert(is_first(after.players, has_id(id), i));
            lemma_first(after.players, has_id(id), i);
        },
    }
}

/// A lobby keeps its code.
pub proof fn law_lobbies_keep_their_code(
    lobby: LobbyView,
    now: int,
    rng: RngView,
    event: EventView,
)
    ensures
        lobby.apply(now, rng, event).lobby.code == lobby.code,
{
}

/// A lobby never seats more players than its settings allow. Whoever opens it always
/// has a seat.
pub proof fn law_seats_are_limited(lobby: LobbyView, now: int, rng: RngView, event: EventView)
    requires
        lobby.players.len() <= 1 || lobby.players.len() <= lobby.settings.max_players,
    ensures
        ({
            let after = lobby.apply(now, rng, event).lobby;
            &&& after.settings == lobby.settings
            &&& after.players.len() <= 1 || after.players.len() <= after.settings.max_players
        }),
{
    match event {
        EventView::Client { from: Some(who), msg: ClientMsgView::Leave, .. } => {
            lemma_filter_keeps(lobby.players, lacks_id(who));
        },
        EventView::Fired(TimerView::Grace { player, .. }) => {
            lemma_filter_keeps(lobby.players, lacks_id(player));
        },
        _ => {},
    }
}

/// Whether a timer has been overtaken: its generation or its phase is over, or the
/// player it waits for is back or gone.
pub open spec fn is_stale(lobby: LobbyView, timer: TimerView) -> bool {
    match timer {
        TimerView::RoundEnd { gen } => gen != lobby.timer_gen || lobby.phase != Phase::Playing,
        TimerView::Intermission { gen } => gen != lobby.timer_gen || lobby.phase
            != Phase::Intermission,
        TimerView::Grace { player, gen } => match lobby.find(player) {
            Some(i) => lobby.players[i].connected || lobby.players[i].disconnect_gen != gen,
            None => true,
        },
    }
}

/// Whether a timer is one that this lobby asked for, now or earlier.
pub open spec fn was_scheduled(lobby: LobbyView, timer: TimerView) -> bool {
    match timer {
        TimerView::RoundEnd { gen } => gen <= lobby.timer_gen,
        TimerView::Intermission { gen } => gen <= lobby.timer_gen,
        TimerView::Grace { player, gen } => lobby.find(player) matches Some(i)
            && gen <= lobby.players[i].disconnect_gen,
    }
}

/// A timer that has been overtaken is ignored on arrival.
pub proof fn law_stale_timers_do_nothing(
    lobby: LobbyView,
    now: int,
    rng: RngView,
    timer: TimerView,
)
    requires
        is_stale(lobby, timer),
    ensures
        lobby.handled(now, rng, EventView::Fired(timer)) == lobby.idle(rng),
{
}

/// A timer that has been overtaken stays so: no later event brings it back.
#[verifier::spinoff_prover]
pub proof fn law_stale_timers_stay_stale(
    lobby: LobbyView,
    now: int,
    rng: RngView,
    event: EventView,
    timer: TimerView,
)
    requires
        was_scheduled(lobby, timer),
        is_stale(lobby, timer),
    ensures
        is_stale(lobby.apply(now, rng, event).lobby, timer),
{
    if let TimerView::Grace { player, gen } = timer {
        lemma_find_after(lobby, now, rng, event, player);
    }
}

/// A round or intermission timer does its work at most once: firing it overtakes it.
pub proof fn law_timers_fire_once(lobby: LobbyView, now: int, rng: RngView, timer: TimerView)
    requires
        !(timer is Grace),
    ensures
        is_stale(lobby.apply(now, rng, EventView::Fired(timer)).lobby, timer),
{
}

/// Whether a timer is set for a time to come, and, if it belongs to a round or a pause,
/// in a generation newer than any before.
pub open spec fn is_timely(lobby: LobbyView, after: LobbyView, now: int, out: OutView) -> bool {
    match out {
        OutView::Schedule { at_ms, timer } => at_ms >= now && (match timer {
            TimerView::RoundEnd { gen } => gen == after.timer_gen && gen > lobby.timer_gen,
            TimerView::Intermission { gen } => gen == after.timer_gen && gen > lobby.timer_gen,
            TimerView::Grace { .. } => true,
        }),
        _ => true,
    }
}

/// Whether this sets no timer but one for a player's return.
spec fn is_untimed(now: int, out: OutView) -> bool {
    out matches OutView::Schedule { at_ms, timer } ==> timer is Grace && at_ms >= now
}

proof fn lemma_broadcast_is_untimed(lobby: LobbyView, now: int)
    ensures
        forall|k: int|
            0 <= k < lobby.broadcast().len() ==> is_untimed(now, #[trigger] lobby.broadcast()[k]),
{
}

proof fn lemma_finishing_is_timely(
    lobby: LobbyView,
    mid: LobbyView,
    now: int,
    rng: RngView,
    said: Seq<OutView>,
)
    requires
        forall|k: int| 0 <= k < said.len() ==> is_untimed(now, #[trigger] said[k]),
        mid.timer_gen == lobby.timer_gen,
        mid.settings.intermission_ms >= 0,
    ensures
        ({
            let step = mid.finish_if_found(now, rng, said);
            forall|k: int|
                0 <= k < step.outs.len() ==> is_timely(
                    lobby,
                    step.lobby,
                    now,
                    #[trigger] step.outs[k],
                )
        }),
{
    let step = mid.finish_if_found(now, rng, said);
    assert forall|k: int| 0 <= k < step.outs.len() implies is_timely(
        lobby,
        step.lobby,
        now,
        #[trigger] step.outs[k],
    ) by {
        if k < said.len() {
            assert(step.outs[k] == said[k]);
            assert(is_untimed(now, said[k]));
        }
    }
}

proof fn lemma_removal_is_timely(lobby: LobbyView, now: int, rng: RngView, id: int)
    requires
        lobby.settings.intermission_ms >= 0,
    ensures
        ({
            let step = lobby.removed(now, rng, id);
            forall|k: int|
                0 <= k < step.outs.len() ==> is_timely(
                    lobby,
                    step.lobby,
                    now,
                    #[trigger] step.outs[k],
                )
        }),
{
    let left = lobby.without(id);
    lemma_broadcast_is_untimed(left, now);
    let said = seq![OutView::Unbound(id)] + left.broadcast();
    assert forall|k: int| 0 <= k < said.len() implies is_untimed(now, #[trigger] said[k]) by {
        if k > 0 {
            assert(said[k] == left.broadcast()[k - 1]);
        }
    }
    lemma_finishing_is_timely(lobby, left, now, rng, said);
}

proof fn lemma_click_is_timely(
    lobby: LobbyView,
    now: int,
    rng: RngView,
    id: int,
    pos: Spot,
    ranges: RangesView,
)
    requires
        lobby.settings.intermission_ms >= 0,
    ensures
        ({
            let step = lobby.click(now, rng, id, pos, ranges);
            forall|k: int|
                0 <= k < step.outs.len() ==> is_timely(
                    lobby,
                    step.lobby,
                    now,
                    #[trigger] step.outs[k],
                )
        }),
{
}

#[verifier::spinoff_prover]
#[verifier::rlimit(20)]
proof fn lemma_is_timely(
    lobby: LobbyView,
    now: int,
    rng: RngView,
    event: EventView,
    k: int,
)
    requires
        lobby.valid(),
        lobby.settings.grace_ms >= 0,
        lobby.settings.intermission_ms >= 0,
        0 <= k < lobby.apply(now, rng, event).outs.len(),
    ensures
        is_timely(
            lobby,
            lobby.apply(now, rng, event).lobby,
            now,
            lobby.apply(now, rng, event).outs[k],
        ),
{
    let step = lobby.handled(now, rng, event);
    lemma_broadcast_is_untimed(step.lobby, now);
    match event {
        EventView::Client { from: Some(who), msg: ClientMsgView::Leave, .. } => {
            lemma_removal_is_timely(lobby, now, rng, who);
        },
        EventView::Client { from: Some(who), msg: ClientMsgView::Click { pos }, ranges, .. } => {
            lemma_click_is_timely(lobby, now, rng, who, pos, ranges);
        },
        EventView::Client { .. } => {},
        EventView::Dropped(id) => {
            if let Some(i) = lobby.find(id) {
                let p = lobby.players[i];
                let gen = p.disconnect_gen + 1;
                let gone = lobby.with_player(
                    i,
                    PlayerView { connected: false, disconnect_gen: gen, ..p },
                );
                let timer = OutView::Schedule {
                    at_ms: now + lobby.settings.grace_ms,
                    timer: TimerView::Grace { player: id, gen },
                };
                let said = gone.broadcast().push(timer);
                lemma_broadcast_is_untimed(gone, now);
                assert forall|k: int| 0 <= k < said.len() implies is_untimed(
                    now,
                    #[trigger] said[k],
                ) by {
                    if k < gone.broadcast().len() {
                        assert(said[k] == gone.broadcast()[k]);
                    }
                }
                lemma_finishing_is_timely(lobby, gone, now, rng, said);
            }
        },
        EventView::Fired(TimerView::Grace { player, .. }) => {
            lemma_removal_is_timely(lobby, now, rng, player);
        },
        EventView::Fired(_) => {},
    }
    if k < step.outs.len() {
        assert(is_timely(lobby, step.lobby, now, step.outs[k]));
    }
}

/// Nothing is scheduled in the past, and a round or intermission timer is scheduled in a
/// generation newer than any before.
pub proof fn law_timers_are_timely(lobby: LobbyView, now: int, rng: RngView, event: EventView)
    requires
        lobby.valid(),
        lobby.settings.grace_ms >= 0,
        lobby.settings.intermission_ms >= 0,
    ensures
        ({
            let step = lobby.apply(now, rng, event);
            forall|k: int|
                0 <= k < step.outs.len() ==> is_timely(
                    lobby,
                    step.lobby,
                    now,
                    #[trigger] step.outs[k],
                )
        }),
{
    let step = lobby.apply(now, rng, event);
    assert forall|k: int| 0 <= k < step.outs.len() implies is_timely(
        lobby,
        step.lobby,
        now,
        #[trigger] step.outs[k],
    ) by {
        lemma_is_timely(lobby, now, rng, event, k);
    }
}

/// Whether this tells a connection no.
pub open spec fn is_error(out: OutView) -> bool {
    match out {
        OutView::To(_, msg) => msg is Error,
        OutView::Reply(msg) => msg is Error,
        _ => false,
    }
}

#[verifier::spinoff_prover]
#[verifier::rlimit(20)]
proof fn lemma_refusal_changes_nothing(
    lobby: LobbyView,
    now: int,
    rng: RngView,
    event: EventView,
    k: int,
)
    requires
        0 <= k < lobby.handled(now, rng, event).outs.len(),
        is_error(lobby.handled(now, rng, event).outs[k]),
    ensures
        is_refusal(lobby, rng, event, lobby.handled(now, rng, event)),
{
}

/// Whether a step tells whoever asked no, and nobody else anything, and changes nothing.
pub open spec fn is_refusal(lobby: LobbyView, rng: RngView, event: EventView, step: Step) -> bool {
    &&& step.lobby == lobby
    &&& step.rng == rng
    &&& step.outs.len() == 1
    &&& answers(event, step.outs[0])
}

/// A refused request changes nothing, and its sender hears of it and nobody else.
pub proof fn law_refusals_change_nothing(
    lobby: LobbyView,
    now: int,
    rng: RngView,
    event: EventView,
)
    ensures
        ({
            let step = lobby.handled(now, rng, event);
            forall|k: int|
                0 <= k < step.outs.len() && is_error(#[trigger] step.outs[k]) ==> is_refusal(
                    lobby,
                    rng,
                    event,
                    step,
                )
        }),
{
    let step = lobby.handled(now, rng, event);
    assert forall|k: int| 0 <= k < step.outs.len() && is_error(#[trigger] step.outs[k]) implies
        is_refusal(lobby, rng, event, step) by {
        lemma_refusal_changes_nothing(lobby, now, rng, event, k);
    }
}

/// Only the host changes the settings or starts a game, and only while no game runs.
#[verifier::spinoff_prover]
pub proof fn law_only_the_host_decides(
    lobby: LobbyView,
    now: int,
    rng: RngView,
    event: EventView,
)
    ensures
        ({
            let after = lobby.apply(now, rng, event).lobby;
            &&& after.config != lobby.config ==> (event matches EventView::Client {
                from: Some(who),
                msg: ClientMsgView::Configure { .. },
                ..
            } && lobby.is_host(who) && lobby.phase == Phase::Waiting)
            &&& lobby.phase == Phase::Waiting && after.phase != Phase::Waiting ==> (
            event matches EventView::Client { from: Some(who), msg: ClientMsgView::Start, .. }
                && lobby.is_host(who))
        }),
{
}

/// The host is whoever has been in the lobby longest, and stays host for as long as
/// they are in it.
pub proof fn law_host_stays_host(lobby: LobbyView, now: int, rng: RngView, event: EventView)
    requires
        lobby.players.len() > 0,
    ensures
        ({
            let host = lobby.players[0].id;
            let after = lobby.apply(now, rng, event).lobby;
            after.find(host) is Some ==> after.is_host(host)
        }),
{
    let host = lobby.players[0].id;
    lemma_first(lobby.players, has_id(host), 0);
    match event {
        EventView::Client { from: Some(who), msg: ClientMsgView::Leave, .. } => {
            lemma_filter_keeps_front(lobby.players, lacks_id(who));
            lemma_find_removed(lobby, now, rng, who, host);
        },
        EventView::Fired(TimerView::Grace { player, .. }) => {
            lemma_filter_keeps_front(lobby.players, lacks_id(player));
            lemma_find_removed(lobby, now, rng, player, host);
        },
        _ => {},
    }
}

/// Whether none of these tells the caller to drop the lobby.
spec fn goes_on(said: Seq<OutView>) -> bool {
    forall|k: int| 0 <= k < said.len() ==> #[trigger] said[k] != OutView::Empty
}

proof fn lemma_finishing_goes_on(mid: LobbyView, now: int, rng: RngView, said: Seq<OutView>)
    requires
        goes_on(said),
    ensures
        goes_on(mid.finish_if_found(now, rng, said).outs),
{
}

proof fn lemma_broadcast_goes_on(lobby: LobbyView)
    ensures
        goes_on(lobby.broadcast()),
{
}

proof fn lemma_removal_goes_on(lobby: LobbyView, now: int, rng: RngView, id: int)
    ensures
        goes_on(lobby.removed(now, rng, id).outs),
{
    let left = lobby.without(id);
    lemma_broadcast_goes_on(left);
    lemma_finishing_goes_on(left, now, rng, seq![OutView::Unbound(id)] + left.broadcast());
}

proof fn lemma_click_goes_on(
    lobby: LobbyView,
    now: int,
    rng: RngView,
    id: int,
    pos: Spot,
    ranges: RangesView,
)
    ensures
        goes_on(lobby.click(now, rng, id, pos, ranges).outs),
{
}

#[verifier::spinoff_prover]
proof fn lemma_client_goes_on(
    lobby: LobbyView,
    now: int,
    rng: RngView,
    from: Option<int>,
    msg: ClientMsgView,
    id: int,
    token: Seq<char>,
    ranges: RangesView,
)
    ensures
        goes_on(lobby.client(now, rng, from, msg, id, token, ranges).outs),
{
    lemma_broadcast_goes_on(lobby.client(now, rng, from, msg, id, token, ranges).lobby);
    match (from, msg) {
        (Some(who), ClientMsgView::Leave) => {
            lemma_removal_goes_on(lobby, now, rng, who);
        },
        (Some(who), ClientMsgView::Click { pos }) => {
            lemma_click_goes_on(lobby, now, rng, who, pos, ranges);
        },
        _ => {},
    }
}

#[verifier::spinoff_prover]
proof fn lemma_handling_goes_on(lobby: LobbyView, now: int, rng: RngView, event: EventView)
    ensures
        goes_on(lobby.handled(now, rng, event).outs),
{
    match event {
        EventView::Client { from, msg, id, token, ranges } => {
            lemma_client_goes_on(lobby, now, rng, from, msg, id, token, ranges);
        },
        EventView::Dropped(id) => {
            if let Some(i) = lobby.find(id) {
                let p = lobby.players[i];
                let gen = p.disconnect_gen + 1;
                let gone = lobby.with_player(
                    i,
                    PlayerView { connected: false, disconnect_gen: gen, ..p },
                );
                let timer = OutView::Schedule {
                    at_ms: now + lobby.settings.grace_ms,
                    timer: TimerView::Grace { player: id, gen },
                };
                lemma_broadcast_goes_on(gone);
                lemma_finishing_goes_on(gone, now, rng, gone.broadcast().push(timer));
            }
        },
        EventView::Fired(timer) => {
            lemma_broadcast_goes_on(lobby.fired(now, rng, timer).lobby);
            if let TimerView::Grace { player, .. } = timer {
                lemma_removal_goes_on(lobby, now, rng, player);
            }
        },
    }
}

/// The caller is told to drop the lobby exactly when nobody is left, once and last of all.
pub proof fn law_empty_is_announced(lobby: LobbyView, now: int, rng: RngView, event: EventView)
    ensures
        ({
            let step = lobby.apply(now, rng, event);
            &&& step.outs.contains(OutView::Empty) <==> step.lobby.players.len() == 0
            &&& forall|k: int|
                0 <= k < step.outs.len() && #[trigger] step.outs[k] == OutView::Empty ==> k
                    == step.outs.len() - 1
        }),
{
    let step = lobby.apply(now, rng, event);
    lemma_handling_goes_on(lobby, now, rng, event);
    if step.lobby.players.len() == 0 {
        assert(step.outs[step.outs.len() - 1] == OutView::Empty);
    }
}

/// Whether a message keeps tokens private: a lobby message goes to one player, says
/// who they are, and holds their own token.
pub open spec fn is_private(lobby: LobbyView, out: OutView) -> bool {
    match out {
        OutView::All(msg) => !(msg is Lobby),
        OutView::Reply(msg) => !(msg is Lobby),
        OutView::To(id, ServerMsgView::Lobby { you, token, .. }) => you == id && (
        lobby.find(id) matches Some(i) && token == lobby.players[i].token),
        _ => true,
    }
}

proof fn lemma_broadcast_is_private(lobby: LobbyView)
    ensures
        forall|k: int|
            0 <= k < lobby.broadcast().len() ==> is_private(
                lobby,
                #[trigger] lobby.broadcast()[k],
            ) && is_private(lobby.scored_round(), lobby.broadcast()[k]),
{
    assert forall|k: int| 0 <= k < lobby.broadcast().len() implies is_private(
        lobby,
        #[trigger] lobby.broadcast()[k],
    ) && is_private(lobby.scored_round(), lobby.broadcast()[k]) by {
        let id = lobby.players[k].id;
        lemma_first_exists(lobby.players, has_id(id), k);
        lemma_find_scored(lobby, id);
    }
}

#[verifier::spinoff_prover]
#[verifier::rlimit(20)]
proof fn lemma_is_private(
    lobby: LobbyView,
    now: int,
    rng: RngView,
    event: EventView,
    k: int,
)
    requires
        0 <= k < lobby.apply(now, rng, event).outs.len(),
    ensures
        is_private(
            lobby.apply(now, rng, event).lobby,
            lobby.apply(now, rng, event).outs[k],
        ),
{
    let after = lobby.apply(now, rng, event).lobby;
    lemma_broadcast_is_private(after);
    match event {
        EventView::Client { from: Some(who), msg: ClientMsgView::Leave, .. } => {
            lemma_broadcast_is_private(lobby.without(who));
        },
        EventView::Fired(TimerView::Grace { player, .. }) => {
            lemma_broadcast_is_private(lobby.without(player));
        },
        EventView::Dropped(id) => {
            if let Some(i) = lobby.find(id) {
                let p = lobby.players[i];
                lemma_broadcast_is_private(
                    lobby.with_player(
                        i,
                        PlayerView { connected: false, disconnect_gen: p.disconnect_gen + 1, ..p },
                    ),
                );
            }
        },
        _ => {},
    }
}

/// Tokens are private: a player's token goes only into lobby messages to that player,
/// and nothing said to everyone is a lobby message.
pub proof fn law_tokens_are_private(lobby: LobbyView, now: int, rng: RngView, event: EventView)
    ensures
        ({
            let step = lobby.apply(now, rng, event);
            forall|k: int|
                0 <= k < step.outs.len() ==> is_private(step.lobby, #[trigger] step.outs[k])
        }),
{
    let step = lobby.apply(now, rng, event);
    assert forall|k: int| 0 <= k < step.outs.len() implies is_private(
        step.lobby,
        #[trigger] step.outs[k],
    ) by {
        lemma_is_private(lobby, now, rng, event, k);
    }
}

/// A round ends as soon as everyone who is connected has found Waldo: no event leaves
/// one running that is already decided. Coming back is the exception, for a returning
/// player may be the only one there.
#[verifier::spinoff_prover]
pub proof fn law_rounds_end_early(lobby: LobbyView, now: int, rng: RngView, event: EventView)
    requires
        !lobby.round_is_over(),
        !(event matches EventView::Client { msg: ClientMsgView::Rejoin { .. }, .. }),
    ensures
        !lobby.apply(now, rng, event).lobby.round_is_over(),
{
    let after = lobby.handled(now, rng, event).lobby;
    if after.round_is_over() {
        if after.players.len() > lobby.players.len() {
            let newcomer = after.players[lobby.players.len() as int];
            assert(newcomer.connected && newcomer.found_rank == 0);
        } else if after.players.len() == lobby.players.len() {
            assert forall|j: int|
                0 <= j < lobby.players.len() && (#[trigger] lobby.players[j]).connected implies
                after.players[j].connected || event is Dropped by {}
        }
    }
}

/// A player whose connection drops keeps their seat, name, token and progress, and a
/// grace timer is set.
pub proof fn law_dropping_keeps_the_seat(
    lobby: LobbyView,
    now: int,
    rng: RngView,
    id: int,
    i: int,
)
    requires
        lobby.find(id) == Some(i),
    ensures
        ({
            let step = lobby.apply(now, rng, EventView::Dropped(id));
            let p = lobby.players[i];
            let q = step.lobby.players[i];
            &&& step.lobby.players.len() == lobby.players.len()
            &&& step.lobby.find(id) == Some(i)
            &&& q == (PlayerView {
                connected: false,
                disconnect_gen: p.disconnect_gen + 1,
                total: q.total,
                ..p
            })
            &&& step.outs.contains(
                OutView::Schedule {
                    at_ms: now + lobby.settings.grace_ms,
                    timer: TimerView::Grace { player: id, gen: q.disconnect_gen },
                },
            )
        }),
{
    let step = lobby.apply(now, rng, EventView::Dropped(id));
    let after = step.lobby.players;
    assert forall|j: int| 0 <= j < i implies !has_id(id)(#[trigger] after[j]) by {
        assert(!has_id(id)(lobby.players[j]));
    }
    lemma_first(after, has_id(id), i);
    let timer = OutView::Schedule {
        at_ms: now + lobby.settings.grace_ms,
        timer: TimerView::Grace { player: id, gen: after[i].disconnect_gen },
    };
    assert(step.outs[lobby.players.len() as int] == timer);
}

/// A player who comes back before their grace period is over is not evicted by it.
pub proof fn law_rejoining_cancels_the_grace_timer(
    lobby: LobbyView,
    dropped_at: int,
    back_at: int,
    fired_at: int,
    rng: RngView,
    id: int,
    i: int,
    code: Seq<char>,
    fresh: int,
    minted: Seq<char>,
    ranges: RangesView,
)
    requires
        lobby.find(id) == Some(i),
        first(lobby.players, has_token(lobby.players[i].token)) == Some(i),
    ensures
        ({
            let gone = lobby.apply(dropped_at, rng, EventView::Dropped(id)).lobby;
            let back = gone.apply(
                back_at,
                rng,
                EventView::Client {
                    from: None,
                    msg: ClientMsgView::Rejoin { code, token: lobby.players[i].token },
                    id: fresh,
                    token: minted,
                    ranges,
                },
            );
            let timer = TimerView::Grace { player: id, gen: gone.players[i].disconnect_gen };
            &&& back.outs.contains(OutView::Bound(id))
            &&& back.lobby.find(id) == Some(i)
            &&& back.lobby.players[i].connected
            &&& back.lobby.handled(fired_at, rng, EventView::Fired(timer)) == back.lobby.idle(rng)
        }),
{
    let gone = lobby.apply(dropped_at, rng, EventView::Dropped(id)).lobby;
    let token = lobby.players[i].token;
    law_dropping_keeps_the_seat(lobby, dropped_at, rng, id, i);
    assert forall|j: int| 0 <= j < i implies !has_token(token)(#[trigger] gone.players[j]) by {
        assert(!has_token(token)(lobby.players[j]));
    }
    lemma_first(gone.players, has_token(token), i);
    let back = gone.apply(
        back_at,
        rng,
        EventView::Client {
            from: None,
            msg: ClientMsgView::Rejoin { code, token },
            id: fresh,
            token: minted,
            ranges,
        },
    );
    assert forall|j: int| 0 <= j < i implies !has_id(id)(#[trigger] back.lobby.players[j]) by {
        assert(!has_id(id)(gone.players[j]));
    }
    lemma_first(back.lobby.players, has_id(id), i);
    assert(back.outs[0] == OutView::Bound(id));
}

/// A player who does not come back is removed when the grace timer fires.
pub proof fn law_grace_expires(
    lobby: LobbyView,
    dropped_at: int,
    fired_at: int,
    rng: RngView,
    id: int,
    i: int,
)
    requires
        lobby.find(id) == Some(i),
    ensures
        ({
            let gone = lobby.apply(dropped_at, rng, EventView::Dropped(id)).lobby;
            let timer = TimerView::Grace { player: id, gen: gone.players[i].disconnect_gen };
            let step = gone.apply(fired_at, rng, EventView::Fired(timer));
            &&& step.lobby.find(id) is None
            &&& step.outs.contains(OutView::Unbound(id))
        }),
{
    let gone = lobby.apply(dropped_at, rng, EventView::Dropped(id)).lobby;
    law_dropping_keeps_the_seat(lobby, dropped_at, rng, id, i);
    lemma_removal(gone, fired_at, rng, id);
    let timer = TimerView::Grace { player: id, gen: gone.players[i].disconnect_gen };
    let step = gone.apply(fired_at, rng, EventView::Fired(timer));
    assert(step.outs[0] == OutView::Unbound(id));
}

proof fn lemma_removal(lobby: LobbyView, now: int, rng: RngView, id: int)
    requires
        lobby.find(id) is Some,
    ensures
        lobby.removed(now, rng, id).lobby.find(id) is None,
        lobby.removed(now, rng, id).outs.len() > 0,
        lobby.removed(now, rng, id).outs[0] == OutView::Unbound(id),
{
    lemma_find_removed(lobby, now, rng, id, id);
    lemma_find_without(lobby, id, id);
    lemma_filter_keeps(lobby.players, lacks_id(id));
    assert(lobby.without(id).players != lobby.players);
}

/// Leaving is immediate: the player is gone, the connection is freed, and no grace
/// timer is set.
#[verifier::spinoff_prover]
pub proof fn law_leaving_is_immediate(
    lobby: LobbyView,
    now: int,
    rng: RngView,
    id: int,
    fresh: int,
    minted: Seq<char>,
    ranges: RangesView,
)
    requires
        lobby.find(id) is Some,
    ensures
        ({
            let step = lobby.apply(
                now,
                rng,
                EventView::Client {
                    from: Some(id),
                    msg: ClientMsgView::Leave,
                    id: fresh,
                    token: minted,
                    ranges,
                },
            );
            &&& step.lobby.find(id) is None
            &&& step.outs.contains(OutView::Unbound(id))
            &&& forall|k: int|
                0 <= k < step.outs.len() ==> !((#[trigger] step.outs[k]) matches OutView::Schedule {
                    timer: TimerView::Grace { .. },
                    ..
                })
        }),
{
    lemma_removal(lobby, now, rng, id);
    let step = lobby.apply(
        now,
        rng,
        EventView::Client {
            from: Some(id),
            msg: ClientMsgView::Leave,
            id: fresh,
            token: minted,
            ranges,
        },
    );
    assert(step.outs[0] == OutView::Unbound(id));
}

/// A click outside a round does nothing.
pub proof fn law_clicks_outside_a_round_are_ignored(
    lobby: LobbyView,
    now: int,
    rng: RngView,
    id: int,
    pos: Spot,
    ranges: RangesView,
)
    requires
        lobby.phase != Phase::Playing,
    ensures
        lobby.click(now, rng, id, pos, ranges) == lobby.idle(rng),
{
}

/// Waldo and each of the cast count once per round: the same click again does nothing,
/// unless it was a miss.
pub proof fn law_finds_count_once(
    lobby: LobbyView,
    now: int,
    later: int,
    rng: RngView,
    id: int,
    pos: Spot,
    ranges: RangesView,
)
    requires
        lobby.valid(),
        ranges.waldo <= WALDO_HIT_RADIUS || nearest(
            ranges.cast,
            lobby.cast_in_view(ranges),
        ) is Some,
    ensures
        ({
            let after = lobby.click(now, rng, id, pos, ranges).lobby;
            after.click(later, rng, id, pos, ranges) == after.idle(rng)
        }),
{
    let after = lobby.click(now, rng, id, pos, ranges).lobby;
    if let Some(i) = lobby.find(id) {
        assert forall|j: int| 0 <= j < i implies !has_id(id)(#[trigger] after.players[j]) by {
            assert(!has_id(id)(lobby.players[j]));
        }
        lemma_first(after.players, has_id(id), i);
    }
}

/// A wrong click costs the clicker its penalty as far as their score reaches, and nobody
/// else anything, and it says so.
pub proof fn law_misses_cost(
    lobby: LobbyView,
    now: int,
    rng: RngView,
    id: int,
    i: int,
    pos: Spot,
    ranges: RangesView,
)
    requires
        lobby.phase == Phase::Playing,
        pos.finite(),
        lobby.find(id) == Some(i),
        ranges.waldo > WALDO_HIT_RADIUS,
        nearest(ranges.cast, lobby.cast_in_view(ranges)) is None,
    ensures
        ({
            let step = lobby.click(now, rng, id, pos, ranges);
            let p = lobby.players[i];
            &&& step.lobby == lobby.with_player(i, PlayerView { misses: p.misses + 1, ..p })
            &&& step.lobby.players[i].round_score() == docked(p.round_score(), MISS_PENALTY)
            &&& step.outs == seq![step.lobby.players[i].verdict("miss"@, -MISS_PENALTY)]
        }),
{
}

/// A name is clean: it is never empty, has at most 20 characters, none of them a control
/// character, and no white space at either end, and cleaning it again changes nothing.
pub proof fn law_names_are_clean(name: Seq<char>)
    ensures
        ({
            let clean = sanitized(name);
            &&& 0 < clean.len() <= 20
            &&& forall|i: int| 0 <= i < clean.len() ==> !is_control(#[trigger] clean[i])
            &&& trimmed(clean) == clean
            &&& sanitized(clean) == clean
        }),
{
    let clean = sanitized(name);
    let kept = name.filter(printable());
    let short = at_most(kept, 20);
    lemma_filter_keeps(name, printable());
    lemma_trimmed(short);
    reveal_strlit("Player");
    assert forall|i: int| 0 <= i < clean.len() implies !is_control(#[trigger] clean[i]) by {
        if trimmed(short).len() > 0 {
            let j = choose|j: int| 0 <= j < short.len() && short[j] == clean[i];
            assert(printable()(kept[j]));
        }
    }
    if trimmed(short).len() == 0 {
        lemma_untrimmed(clean);
    }
    lemma_filter_all(clean, printable());
}

/// No two players share an id.
pub open spec fn ids_are_unique(lobby: LobbyView) -> bool {
    forall|i: int, j: int|
        0 <= i < j < lobby.players.len() ==> (#[trigger] lobby.players[i]).id != (
        #[trigger] lobby.players[j]).id
}

spec fn differ_in_id() -> spec_fn(PlayerView, PlayerView) -> bool {
    |p: PlayerView, q: PlayerView| p.id != q.id
}

/// Ids stay unique as long as newcomers are given ids that nobody has.
pub proof fn law_ids_stay_unique(lobby: LobbyView, now: int, rng: RngView, event: EventView)
    requires
        ids_are_unique(lobby),
        event matches EventView::Client { id, .. } ==> lobby.find(id) is None,
    ensures
        ids_are_unique(lobby.apply(now, rng, event).lobby),
{
    match event {
        EventView::Client { from: Some(who), msg: ClientMsgView::Leave, .. } => {
            lemma_filter_keeps_pairs(lobby.players, lacks_id(who), differ_in_id());
        },
        EventView::Fired(TimerView::Grace { player, .. }) => {
            lemma_filter_keeps_pairs(lobby.players, lacks_id(player), differ_in_id());
        },
        EventView::Client { id, .. } => {
            assert forall|j: int| 0 <= j < lobby.players.len() implies (
            #[trigger] lobby.players[j]).id != id by {
                if lobby.players[j].id == id {
                    lemma_first_exists(lobby.players, has_id(id), j);
                }
            }
        },
        _ => {},
    }
}

/// Finish order: no two of the players who found Waldo this round share a rank, and no
/// rank is beyond the number of finds.
pub open spec fn ranks_are_in_order(lobby: LobbyView) -> bool {
    &&& forall|i: int|
        0 <= i < lobby.players.len() ==> 0 <= (#[trigger] lobby.players[i]).found_rank
            <= lobby.found
    &&& forall|i: int, j: int|
        0 <= i < j < lobby.players.len() && (#[trigger] lobby.players[i]).found_rank > 0 ==> lobby
            .players[i].found_rank != (#[trigger] lobby.players[j]).found_rank
}

spec fn differ_in_rank() -> spec_fn(PlayerView, PlayerView) -> bool {
    |p: PlayerView, q: PlayerView| p.found_rank > 0 ==> p.found_rank != q.found_rank
}

proof fn lemma_ranks_without(lobby: LobbyView, gone: int)
    requires
        ranks_are_in_order(lobby),
    ensures
        ranks_are_in_order(lobby.without(gone)),
{
    lemma_filter_keeps(lobby.players, lacks_id(gone));
    lemma_filter_keeps_pairs(lobby.players, lacks_id(gone), differ_in_rank());
    let left = lobby.without(gone).players;
    assert forall|i: int| 0 <= i < left.len() implies 0 <= (#[trigger] left[i]).found_rank
        <= lobby.found by {
        let m = choose|m: int| 0 <= m < lobby.players.len() && lobby.players[m] == left[i];
        assert(lobby.players[m].found_rank <= lobby.found);
    }
}

proof fn lemma_ranks_same(a: LobbyView, b: LobbyView)
    requires
        ranks_are_in_order(a),
        a.players.len() == b.players.len(),
        a.found == b.found,
        forall|i: int|
            0 <= i < a.players.len() ==> (#[trigger] b.players[i]).found_rank
                == a.players[i].found_rank,
    ensures
        ranks_are_in_order(b),
{
}

/// Finish order holds throughout a round, also when finders leave: each finder ranks
/// behind all before them, so no two share a rank.
#[verifier::spinoff_prover]
#[verifier::rlimit(20)]
pub proof fn law_finish_order_is_kept(lobby: LobbyView, now: int, rng: RngView, event: EventView)
    requires
        ranks_are_in_order(lobby),
        lobby.found >= 0,
    ensures
        ranks_are_in_order(lobby.apply(now, rng, event).lobby),
        lobby.apply(now, rng, event).lobby.found >= 0,
{
    let after = lobby.apply(now, rng, event).lobby;
    match event {
        EventView::Client { from: Some(who), msg: ClientMsgView::Leave, .. } => {
            lemma_ranks_without(lobby, who);
            lemma_ranks_same(lobby.without(who), lobby.without(who).scored_round());
        },
        EventView::Fired(TimerView::Grace { player, .. }) => {
            lemma_ranks_without(lobby, player);
            lemma_ranks_same(lobby.without(player), lobby.without(player).scored_round());
        },
        EventView::Client { from: Some(who), msg: ClientMsgView::Click { .. }, .. } => {
            if let Some(i) = lobby.find(who) {
                if after.found == lobby.found {
                    lemma_ranks_same(lobby, after);
                } else {
                    let mid = LobbyView {
                        found: lobby.found + 1,
                        ..lobby.with_player(i, after.players[i])
                    };
                    assert(ranks_are_in_order(mid));
                    lemma_ranks_same(mid, after);
                }
            }
        },
        EventView::Client { .. } => {
            if after.players.len() > lobby.players.len() {
                assert(after.players.drop_last() =~= lobby.players);
            } else if !(after.phase == Phase::Playing && lobby.phase == Phase::Waiting) {
                lemma_ranks_same(lobby, after);
            }
        },
        EventView::Dropped(_) => {
            lemma_ranks_same(lobby, after);
        },
        EventView::Fired(_) => {
            if !(after.phase == Phase::Playing && lobby.phase != Phase::Playing) {
                lemma_ranks_same(lobby, after);
            }
        },
    }
}

/// Each find of a round ranks one behind the find before it, whoever has left since, and
/// happened within the round: the count of finds goes up by one with each, and only a new
/// round starts it over.
#[verifier::spinoff_prover]
pub proof fn law_finds_are_ranked_in_turn(
    lobby: LobbyView,
    now: int,
    rng: RngView,
    event: EventView,
)
    requires
        lobby.valid(),
    ensures
        ({
            let after = lobby.apply(now, rng, event).lobby;
            ||| after.found == lobby.found
            ||| after.found == 0 && after.phase == Phase::Playing && after.round == 1 + (
            if lobby.phase == Phase::Waiting {
                0
            } else {
                lobby.round
            })
            ||| {
                &&& after.found == lobby.found + 1
                &&& event matches EventView::Client {
                    from: Some(who),
                    msg: ClientMsgView::Click { .. },
                    ..
                }
                &&& lobby.find(who) matches Some(i)
                &&& lobby.players[i].found_rank == 0
                &&& after.players[i].found_rank == after.found
                &&& 0 <= after.players[i].found_at_ms <= lobby.round_len_ms
            }
        }),
{
}

/// A mutator never makes a round longer than the host chose.
pub proof fn law_mutators_only_shorten(config: Config, mutator: Seq<char>)
    ensures
        0 <= round_secs(config, mutator) <= config.round_secs,
{
}

/// An identity that the caller mints serves newcomers alone: for anything but a request
/// to create or join a lobby, it makes no difference which it is.
pub proof fn law_identities_are_for_newcomers(
    lobby: LobbyView,
    now: int,
    rng: RngView,
    from: Option<int>,
    msg: ClientMsgView,
    ids: (int, int),
    tokens: (Seq<char>, Seq<char>),
    ranges: RangesView,
)
    requires
        !(msg is Create),
        !(msg is Join),
    ensures
        lobby.client(now, rng, from, msg, ids.0, tokens.0, ranges) == lobby.client(
            now,
            rng,
            from,
            msg,
            ids.1,
            tokens.1,
            ranges,
        ),
{
}

/// Whether what is said to everyone about the course of a game is true of the step from
/// one state of the lobby to another.
pub open spec fn tells_the_course(lobby: LobbyView, after: LobbyView, out: OutView) -> bool {
    match out {
        OutView::All(ServerMsgView::RoundStart { round, total_rounds, .. }) => {
            &&& total_rounds == lobby.config.rounds
            &&& round == after.round
            &&& round == lobby.round + 1
            &&& round <= total_rounds
            &&& after.phase == Phase::Playing
        },
        OutView::All(ServerMsgView::RoundResult { round, .. }) => {
            &&& lobby.phase == Phase::Playing
            &&& round == lobby.round
            &&& after.phase == Phase::Intermission
        },
        OutView::All(ServerMsgView::GameOver { .. }) => {
            &&& lobby.phase == Phase::Intermission
            &&& lobby.round == lobby.config.rounds
            &&& after.phase == Phase::Waiting
            &&& after.round == 0
        },
        _ => true,
    }
}

/// Whether this is neither the start of a round nor its end, nor that of a game.
spec fn is_aside(out: OutView) -> bool {
    !(out matches OutView::All(_)) || (out matches OutView::All(ServerMsgView::PlayerFound { .. }))
}

/// What ending a round adds to asides tells the course of the game.
proof fn lemma_finishing_tells(
    lobby: LobbyView,
    before: LobbyView,
    now: int,
    rng: RngView,
    said: Seq<OutView>,
)
    requires
        forall|k: int| 0 <= k < said.len() ==> is_aside(#[trigger] said[k]),
        lobby.phase == before.phase,
        lobby.round == before.round,
    ensures
        ({
            let step = before.finish_if_found(now, rng, said);
            forall|k: int|
                0 <= k < step.outs.len() ==> tells_the_course(
                    lobby,
                    step.lobby,
                    #[trigger] step.outs[k],
                )
        }),
{
}

proof fn lemma_broadcast_is_aside(lobby: LobbyView)
    ensures
        forall|k: int| 0 <= k < lobby.broadcast().len() ==> is_aside(#[trigger] lobby.broadcast()[k]),
{
}

proof fn lemma_removal_tells(lobby: LobbyView, now: int, rng: RngView, id: int)
    ensures
        ({
            let step = lobby.removed(now, rng, id);
            forall|k: int|
                0 <= k < step.outs.len() ==> tells_the_course(
                    lobby,
                    step.lobby,
                    #[trigger] step.outs[k],
                )
        }),
{
    let left = lobby.without(id);
    lemma_broadcast_is_aside(left);
    let said = seq![OutView::Unbound(id)] + left.broadcast();
    assert forall|k: int| 0 <= k < said.len() implies is_aside(#[trigger] said[k]) by {
        if k > 0 {
            assert(said[k] == left.broadcast()[k - 1]);
        }
    }
    lemma_finishing_tells(lobby, left, now, rng, said);
}

#[verifier::spinoff_prover]
proof fn lemma_tells_the_course(
    lobby: LobbyView,
    now: int,
    rng: RngView,
    event: EventView,
    k: int,
)
    requires
        lobby.valid(),
        0 <= k < lobby.apply(now, rng, event).outs.len(),
    ensures
        tells_the_course(
            lobby,
            lobby.apply(now, rng, event).lobby,
            lobby.apply(now, rng, event).outs[k],
        ),
{
    let step = lobby.handled(now, rng, event);
    lemma_broadcast_is_aside(step.lobby);
    match event {
        EventView::Client { from: Some(who), msg: ClientMsgView::Leave, .. } => {
            lemma_removal_tells(lobby, now, rng, who);
        },
        EventView::Client { from: Some(who), msg: ClientMsgView::Click { pos }, ranges, .. } => {
            lemma_click_tells(lobby, now, rng, who, pos, ranges);
        },
        EventView::Client { .. } => {},
        EventView::Dropped(id) => {
            if let Some(i) = lobby.find(id) {
                let p = lobby.players[i];
                let gen = p.disconnect_gen + 1;
                let gone = lobby.with_player(
                    i,
                    PlayerView { connected: false, disconnect_gen: gen, ..p },
                );
                let timer = OutView::Schedule {
                    at_ms: now + lobby.settings.grace_ms,
                    timer: TimerView::Grace { player: id, gen },
                };
                lemma_broadcast_is_aside(gone);
                assert forall|k: int| 0 <= k < gone.broadcast().push(timer).len() implies is_aside(
                    #[trigger] gone.broadcast().push(timer)[k],
                ) by {
                    if k < gone.broadcast().len() {
                        assert(gone.broadcast().push(timer)[k] == gone.broadcast()[k]);
                    }
                }
                lemma_finishing_tells(lobby, gone, now, rng, gone.broadcast().push(timer));
            }
        },
        EventView::Fired(timer) => {
            if let TimerView::Grace { player, .. } = timer {
                lemma_removal_tells(lobby, now, rng, player);
            }
        },
    }
    if k < step.outs.len() {
        assert(tells_the_course(lobby, step.lobby, step.outs[k]));
    }
}

/// A game has exactly the rounds the host chose: they are numbered from one, each
/// follows the last, and the final standings come after the last and at no other time.
pub proof fn law_games_last_their_rounds(lobby: LobbyView, now: int, rng: RngView, event: EventView)
    requires
        lobby.valid(),
    ensures
        ({
            let step = lobby.apply(now, rng, event);
            forall|k: int|
                0 <= k < step.outs.len() ==> tells_the_course(
                    lobby,
                    step.lobby,
                    #[trigger] step.outs[k],
                )
        }),
{
    let step = lobby.apply(now, rng, event);
    assert forall|k: int| 0 <= k < step.outs.len() implies tells_the_course(
        lobby,
        step.lobby,
        #[trigger] step.outs[k],
    ) by {
        lemma_tells_the_course(lobby, now, rng, event, k);
    }
}

proof fn lemma_click_tells(
    lobby: LobbyView,
    now: int,
    rng: RngView,
    id: int,
    pos: Spot,
    ranges: RangesView,
)
    ensures
        ({
            let step = lobby.click(now, rng, id, pos, ranges);
            forall|k: int|
                0 <= k < step.outs.len() ==> tells_the_course(
                    lobby,
                    step.lobby,
                    #[trigger] step.outs[k],
                )
        }),
{
}

/// A round's results hold one line per player, best score first and in seating order
/// among equals, and what a player scored has been added to their total.
pub proof fn law_results_are_ranked(lobby: LobbyView, points: int)
    ensures
        ({
            let lines = lobby.players.map_values(scored()).map_values(entry_of());
            let results = lobby.results();
            &&& results.len() == lobby.players.len()
            &&& results.to_multiset() == lines.to_multiset()
            &&& forall|i: int, j: int|
                0 <= i <= j < results.len() ==> (#[trigger] results[i]).score >= (
                #[trigger] results[j]).score
            &&& worth_exactly(results, entry_score(), points) == worth_exactly(
                lines,
                entry_score(),
                points,
            )
            &&& forall|i: int|
                0 <= i < lines.len() ==> (#[trigger] lines[i]).total == lobby.players[i].total
                    + lines[i].score
        }),
{
    let lines = lobby.players.map_values(scored()).map_values(entry_of());
    law_ranked_is_sorted(lines, entry_score());
    law_ranked_is_stable(lines, entry_score(), points);
    let results = lobby.results();
    assert forall|i: int, j: int| 0 <= i <= j < results.len() implies (#[trigger] results[i]).score
        >= (#[trigger] results[j]).score by {
        assert(entry_score()(results[i]) >= entry_score()(results[j]));
    }
}

/// The final standings hold one line per player, highest total first and in seating
/// order among equals.
pub proof fn law_highest_total_wins(lobby: LobbyView, points: int)
    ensures
        ({
            let lines = lobby.players.map_values(standing_of());
            let board = lobby.leaderboard();
            &&& board.len() == lobby.players.len()
            &&& board.to_multiset() == lines.to_multiset()
            &&& forall|i: int, j: int|
                0 <= i <= j < board.len() ==> (#[trigger] board[i]).total >= (
                #[trigger] board[j]).total
            &&& worth_exactly(board, standing_total(), points) == worth_exactly(
                lines,
                standing_total(),
                points,
            )
        }),
{
    let lines = lobby.players.map_values(standing_of());
    law_ranked_is_sorted(lines, standing_total());
    law_ranked_is_stable(lines, standing_total(), points);
    let board = lobby.leaderboard();
    assert forall|i: int, j: int| 0 <= i <= j < board.len() implies (#[trigger] board[i]).total >= (
    #[trigger] board[j]).total by {
        assert(standing_total()(board[i]) >= standing_total()(board[j]));
    }
}

/// What everyone is told when a round starts.
pub open spec fn announcement(lobby: LobbyView) -> OutView {
    OutView::All(
        ServerMsgView::RoundStart {
            round: lobby.round,
            total_rounds: lobby.config.rounds as int,
            seed: lobby.seed,
            round_secs: lobby.round_len_ms / 1000,
            mutator: lobby.mutator,
            ends_at_ms: lobby.round_ends_ms,
        },
    )
}

/// Everyone plays in the same world: it changes only as a round starts, whose seed,
/// mutator and end everyone is told.
#[verifier::spinoff_prover]
#[verifier::rlimit(20)]
pub proof fn law_worlds_are_announced(lobby: LobbyView, now: int, rng: RngView, event: EventView)
    ensures
        ({
            let step = lobby.apply(now, rng, event);
            ||| step.outs.len() > 0 && step.outs[0] == announcement(step.lobby)
            ||| {
                &&& step.lobby.seed == lobby.seed
                &&& step.lobby.mutator == lobby.mutator
                &&& step.lobby.round_ends_ms == lobby.round_ends_ms
                &&& step.lobby.round_len_ms == lobby.round_len_ms
                &&& step.lobby.waldo == lobby.waldo
                &&& step.lobby.cast == lobby.cast
            }
        }),
{
}

/// Whether what a returning player is told of the round is what everyone was told as it
/// started.
pub open spec fn tells_the_same(after: LobbyView, out: OutView) -> bool {
    match out {
        OutView::To(
            id,
            ServerMsgView::Restore {
                round,
                total_rounds,
                seed,
                round_secs,
                mutator,
                ends_at_ms,
                ..
            },
        ) => announcement(after) == OutView::All(
            ServerMsgView::RoundStart {
                round,
                total_rounds,
                seed,
                round_secs,
                mutator,
                ends_at_ms,
            },
        ) && after.find(id) is Some,
        _ => true,
    }
}

#[verifier::spinoff_prover]
#[verifier::rlimit(20)]
proof fn lemma_tells_the_same(
    lobby: LobbyView,
    now: int,
    rng: RngView,
    event: EventView,
    k: int,
)
    requires
        0 <= k < lobby.apply(now, rng, event).outs.len(),
    ensures
        tells_the_same(
            lobby.apply(now, rng, event).lobby,
            lobby.apply(now, rng, event).outs[k],
        ),
{
    if let EventView::Client { from: None, msg: ClientMsgView::Rejoin { token, .. }, .. } = event {
        if let Some(i) = first(lobby.players, has_token(token)) {
            let after = lobby.apply(now, rng, event).lobby;
            lemma_first_exists(after.players, has_id(lobby.players[i].id), i);
        }
    }
}

/// A player who comes back mid-round gets the world that everyone else is in.
pub proof fn law_returning_players_get_the_same_world(
    lobby: LobbyView,
    now: int,
    rng: RngView,
    event: EventView,
)
    ensures
        ({
            let step = lobby.apply(now, rng, event);
            forall|k: int|
                0 <= k < step.outs.len() ==> tells_the_same(step.lobby, #[trigger] step.outs[k])
        }),
{
    let step = lobby.apply(now, rng, event);
    assert forall|k: int| 0 <= k < step.outs.len() implies tells_the_same(
        step.lobby,
        #[trigger] step.outs[k],
    ) by {
        lemma_tells_the_same(lobby, now, rng, event, k);
    }
}

/// Whether something the caller must do concerns who it should: a player who is bound is
/// in the lobby, one who is let go is not, and a message has someone to go to.
pub open spec fn is_addressed(after: LobbyView, event: EventView, out: OutView) -> bool {
    match out {
        OutView::Bound(id) => after.find(id) is Some,
        OutView::Unbound(id) => after.find(id) is None,
        OutView::To(id, _) => after.find(id) is Some || (is_error(out) && answers(event, out)),
        OutView::Reply(_) => is_error(out) && answers(event, out),
        _ => true,
    }
}

/// Whether this goes to whoever an event came from: where a lobby or a seat was asked for,
/// by the id that came with the request; where it was asked back, or the connection has no
/// player, by that connection; and otherwise by the player's id.
pub open spec fn answers(event: EventView, out: OutView) -> bool {
    match event {
        EventView::Client { from, msg, id: offered, .. } => {
            if msg is Create || msg is Join {
                out matches OutView::To(id, _) && id == offered
            } else if msg is Rejoin || from is None {
                out is Reply
            } else {
                out matches OutView::To(id, _) && from == Some(id)
            }
        },
        _ => false,
    }
}

proof fn lemma_broadcast_is_addressed(lobby: LobbyView, event: EventView)
    ensures
        forall|k: int|
            0 <= k < lobby.broadcast().len() ==> is_addressed(
                lobby,
                event,
                #[trigger] lobby.broadcast()[k],
            ) && is_addressed(lobby.scored_round(), event, lobby.broadcast()[k]),
{
    assert forall|k: int| 0 <= k < lobby.broadcast().len() implies is_addressed(
        lobby,
        event,
        #[trigger] lobby.broadcast()[k],
    ) && is_addressed(lobby.scored_round(), event, lobby.broadcast()[k]) by {
        let id = lobby.players[k].id;
        lemma_first_exists(lobby.players, has_id(id), k);
        lemma_find_scored(lobby, id);
    }
}

proof fn lemma_removal_is_addressed(
    lobby: LobbyView,
    now: int,
    rng: RngView,
    id: int,
    event: EventView,
)
    ensures
        ({
            let step = lobby.removed(now, rng, id);
            forall|k: int|
                0 <= k < step.outs.len() ==> is_addressed(
                    step.lobby,
                    event,
                    #[trigger] step.outs[k],
                )
        }),
{
    let left = lobby.without(id);
    let step = lobby.removed(now, rng, id);
    lemma_broadcast_is_addressed(left, event);
    lemma_find_without(lobby, id, id);
    let scored = left.scored_round().players;
    assert forall|j: int| 0 <= j < scored.len() implies !has_id(id)(#[trigger] scored[j]) by {
        lemma_filter_keeps(lobby.players, lacks_id(id));
        assert(lacks_id(id)(left.players[j]));
    }
    lemma_first_none(scored, has_id(id));
    assert forall|k: int| 0 <= k < step.outs.len() implies is_addressed(
        step.lobby,
        event,
        #[trigger] step.outs[k],
    ) by {
        if 1 <= k <= left.broadcast().len() {
            assert(step.outs[k] == left.broadcast()[k - 1]);
        }
    }
}

proof fn lemma_click_is_addressed(
    lobby: LobbyView,
    now: int,
    rng: RngView,
    id: int,
    pos: Spot,
    ranges: RangesView,
    event: EventView,
)
    ensures
        ({
            let step = lobby.click(now, rng, id, pos, ranges);
            forall|k: int|
                0 <= k < step.outs.len() ==> is_addressed(
                    step.lobby,
                    event,
                    #[trigger] step.outs[k],
                )
        }),
{
    let after = lobby.click(now, rng, id, pos, ranges).lobby;
    if let Some(i) = lobby.find(id) {
        assert forall|j: int| 0 <= j < i implies !has_id(id)(#[trigger] after.players[j]) by {
            assert(!has_id(id)(lobby.players[j]));
        }
        lemma_first(after.players, has_id(id), i);
    }
}

#[verifier::spinoff_prover]
#[verifier::rlimit(20)]
proof fn lemma_is_addressed(
    lobby: LobbyView,
    now: int,
    rng: RngView,
    event: EventView,
    k: int,
)
    requires
        0 <= k < lobby.apply(now, rng, event).outs.len(),
    ensures
        is_addressed(
            lobby.apply(now, rng, event).lobby,
            event,
            lobby.apply(now, rng, event).outs[k],
        ),
{
    let step = lobby.handled(now, rng, event);
    lemma_broadcast_is_addressed(step.lobby, event);
    match event {
        EventView::Client { from: Some(who), msg: ClientMsgView::Leave, .. } => {
            lemma_removal_is_addressed(lobby, now, rng, who, event);
        },
        EventView::Client { from: Some(who), msg: ClientMsgView::Click { pos }, ranges, .. } => {
            lemma_click_is_addressed(lobby, now, rng, who, pos, ranges, event);
        },
        EventView::Client { from: None, msg: ClientMsgView::Rejoin { token, .. }, .. } => {
            if let Some(i) = first(lobby.players, has_token(token)) {
                lemma_first_exists(step.lobby.players, has_id(lobby.players[i].id), i);
            }
        },
        EventView::Client { id, .. } => {
            if step.lobby.players.len() > lobby.players.len() {
                lemma_first_exists(step.lobby.players, has_id(id), lobby.players.len() as int);
            }
        },
        EventView::Dropped(id) => {
            if let Some(i) = lobby.find(id) {
                let p = lobby.players[i];
                lemma_broadcast_is_addressed(
                    lobby.with_player(
                        i,
                        PlayerView { connected: false, disconnect_gen: p.disconnect_gen + 1, ..p },
                    ),
                    event,
                );
            }
        },
        EventView::Fired(TimerView::Grace { player, .. }) => {
            lemma_removal_is_addressed(lobby, now, rng, player, event);
        },
        EventView::Fired(_) => {},
    }
    if k < step.outs.len() {
        assert(is_addressed(step.lobby, event, step.outs[k]));
    }
}

/// Everything the lobby asks for is addressed to someone: players are bound as they come
/// and let go as they leave, and a message goes to a player of the lobby, or says no to
/// whoever asked.
pub proof fn law_messages_are_addressed(lobby: LobbyView, now: int, rng: RngView, event: EventView)
    ensures
        ({
            let step = lobby.apply(now, rng, event);
            forall|k: int|
                0 <= k < step.outs.len() ==> is_addressed(
                    step.lobby,
                    event,
                    #[trigger] step.outs[k],
                )
        }),
{
    let step = lobby.apply(now, rng, event);
    assert forall|k: int| 0 <= k < step.outs.len() implies is_addressed(
        step.lobby,
        event,
        #[trigger] step.outs[k],
    ) by {
        lemma_is_addressed(lobby, now, rng, event, k);
    }
}

} // verus!
