//! The rules of the game as its players know them: what each thing a player does, and
//! each timer, changes for whom, and what everyone gets to see of it.

use vstd::prelude::*;

use crate::laws::{law_highest_total_wins, law_results_are_ranked};
use crate::model::{
    at_most, entry_of, entry_score, finders, has_id, has_token, is_nearest, lacks_id,
    nearest, printable, sanitized, scored, standing_of, standing_total, EventView, LobbyView,
    OutView, Phase, PlayerView, RangesView, SettingsView, Step, TimerView,
};
use crate::ordering::{
    is_first, is_worth, lemma_filter_all, lemma_filter_concat, lemma_first, lemma_first_exists,
    lemma_first_none,
};
use crate::protocol::{
    law_places_are_finite, ClientMsgView, RoundEntryView, ServerMsgView, Spot, StandingView,
};
use crate::rng::RngView;
use crate::scoring::{bonus_value, rank_value, round_value};
use crate::text::{
    is_blank, is_control, is_space, law_padding_is_trimmed, law_trimming_takes_only_padding,
    lemma_trimmed, trimmed,
};

verus! {

/// The player of this id sits here: the first one of that id.
pub open spec fn sits(lobby: LobbyView, id: int, i: int) -> bool {
    &&& 0 <= i < lobby.players.len()
    &&& lobby.players[i].id == id
    &&& forall|j: int| 0 <= j < i ==> (#[trigger] lobby.players[j]).id != id
}

/// Nobody of this id is in the lobby.
pub open spec fn is_absent(lobby: LobbyView, id: int) -> bool {
    forall|j: int| 0 <= j < lobby.players.len() ==> (#[trigger] lobby.players[j]).id != id
}

/// What a client does: `fresh` and `minted` are the id and the token ready for whoever
/// takes a seat by it.
pub open spec fn asks(
    from: Option<int>,
    msg: ClientMsgView,
    fresh: int,
    minted: Seq<char>,
    ranges: RangesView,
) -> EventView {
    EventView::Client { from, msg, id: fresh, token: minted, ranges }
}

/// Nothing changed, and nobody is told anything.
pub open spec fn is_quiet(lobby: LobbyView, rng: RngView, step: Step) -> bool {
    &&& step.lobby == lobby
    &&& step.rng == rng
    &&& forall|k: int| 0 <= k < step.outs.len() ==> #[trigger] step.outs[k] is Empty
}

/// Player `i` is `q` now, and nothing else changed.
pub open spec fn becomes(lobby: LobbyView, after: LobbyView, i: int, q: PlayerView) -> bool {
    &&& after.players.len() == lobby.players.len()
    &&& after.players[i] == q
    &&& forall|j: int|
        0 <= j < lobby.players.len() && j != i ==> #[trigger] after.players[j] == lobby.players[j]
    &&& after == (LobbyView { players: after.players, ..lobby })
}

/// What a player has scored this round.
pub open spec fn score(p: PlayerView) -> int {
    round_value(p.found_rank, p.misses, p.wenda, p.woof, p.wizard, p.odlaw)
}

/// What a player is told of a click that made them who they are.
pub open spec fn is_verdict(out: OutView, p: PlayerView, target: Seq<char>, points: int) -> bool {
    out == OutView::To(
        p.id,
        ServerMsgView::ClickResult {
            target,
            points,
            round_score: score(p),
            misses: p.misses,
        },
    )
}

/// Player `i` became `q` by a click, and only they are told, only this.
pub open spec fn is_judged(
    lobby: LobbyView,
    rng: RngView,
    step: Step,
    i: int,
    q: PlayerView,
    target: Seq<char>,
    points: int,
) -> bool {
    &&& becomes(lobby, step.lobby, i, q)
    &&& step.rng == rng
    &&& step.outs.len() == 1
    &&& is_verdict(step.outs[0], q, target, points)
}

/// A place in the world: none of its coordinates is infinite or not a number.
pub open spec fn is_place(pos: Spot) -> bool {
    &&& (pos.x & 0x7fff_ffff) < 0x7f80_0000
    &&& (pos.y & 0x7fff_ffff) < 0x7f80_0000
    &&& (pos.z & 0x7fff_ffff) < 0x7f80_0000
}

/// A member of the cast whom the click was measured against.
pub open spec fn in_view(lobby: LobbyView, ranges: RangesView, c: int) -> bool {
    0 <= c < lobby.cast.len() && c < ranges.cast.len()
}

/// The click fell within 1.2 of `c` and nearer to them than to anyone before them, and no
/// nearer to anyone after.
pub open spec fn is_hit(lobby: LobbyView, ranges: RangesView, c: int) -> bool {
    &&& in_view(lobby, ranges, c)
    &&& ranges.cast[c] <= 0x3f99_999a
    &&& forall|j: int|
        #![trigger ranges.cast[j]]
        in_view(lobby, ranges, j) ==> if j < c {
            ranges.cast[c] < ranges.cast[j]
        } else {
            ranges.cast[c] <= ranges.cast[j]
        }
}

proof fn lemma_place(pos: Spot)
    ensures
        pos.finite() <==> is_place(pos),
{
    law_places_are_finite(pos);
}

proof fn lemma_sits(lobby: LobbyView, id: int, i: int)
    requires
        sits(lobby, id, i),
    ensures
        lobby.find(id) == Some(i),
{
    lemma_first(lobby.players, has_id(id), i);
}

proof fn lemma_absent(lobby: LobbyView, id: int)
    requires
        is_absent(lobby, id),
    ensures
        lobby.find(id) is None,
{
    lemma_first_none(lobby.players, has_id(id));
}

proof fn lemma_hit(lobby: LobbyView, ranges: RangesView, c: int)
    requires
        is_hit(lobby, ranges, c),
    ensures
        nearest(ranges.cast, lobby.cast_in_view(ranges)) == Some(c),
{
    let n = lobby.cast_in_view(ranges);
    assert(is_nearest(ranges.cast, n, c)) by {
        assert forall|j: int| 0 <= j < n implies ranges.cast[c] <= #[trigger] ranges.cast[j] by {
            assert(in_view(lobby, ranges, j));
        }
        assert forall|j: int| 0 <= j < c implies ranges.cast[c] < #[trigger] ranges.cast[j] by {
            assert(in_view(lobby, ranges, j));
        }
    }
    let d = choose|d: int| is_nearest(ranges.cast, n, d);
    assert(is_nearest(ranges.cast, n, d));
    assert(ranges.cast[c] <= ranges.cast[d] && ranges.cast[d] <= ranges.cast[c]);
    assert(c == d);
}

/// A click in a running round that hits one of the cast, and not Waldo, counts for that
/// one alone. If the player had not found them this round, whatever else they have found
/// or missed, they have now, and are told whom they found and what it is worth: Wenda 100,
/// Woof 150, the Wizard 75, and anyone else is Odlaw, who costs 150. If they had, nothing
/// happens.
pub proof fn law_cast_finds_count(
    lobby: LobbyView,
    now: int,
    rng: RngView,
    who: int,
    i: int,
    pos: Spot,
    ranges: RangesView,
    c: int,
    fresh: int,
    minted: Seq<char>,
)
    requires
        lobby.phase == Phase::Playing,
        sits(lobby, who, i),
        is_place(pos),
        ranges.waldo > 0x3f99_999a,
        is_hit(lobby, ranges, c),
    ensures
        ({
            let step = lobby.apply(
                now,
                rng,
                asks(Some(who), ClientMsgView::Click { pos }, fresh, minted, ranges),
            );
            let p = lobby.players[i];
            let role = lobby.cast[c].0;
            if role == "wenda"@ {
                if p.wenda {
                    is_quiet(lobby, rng, step)
                } else {
                    let q = PlayerView { wenda: true, ..p };
                    is_judged(lobby, rng, step, i, q, "wenda"@, 100)
                }
            } else if role == "woof"@ {
                if p.woof {
                    is_quiet(lobby, rng, step)
                } else {
                    let q = PlayerView { woof: true, ..p };
                    is_judged(lobby, rng, step, i, q, "woof"@, 150)
                }
            } else if role == "wizard"@ {
                if p.wizard {
                    is_quiet(lobby, rng, step)
                } else {
                    let q = PlayerView { wizard: true, ..p };
                    is_judged(lobby, rng, step, i, q, "wizard"@, 75)
                }
            } else {
                if p.odlaw {
                    is_quiet(lobby, rng, step)
                } else {
                    let q = PlayerView { odlaw: true, ..p };
                    is_judged(lobby, rng, step, i, q, "odlaw"@, -150)
                }
            }
        }),
{
    lemma_sits(lobby, who, i);
    lemma_place(pos);
    lemma_hit(lobby, ranges, c);
    reveal_strlit("wenda");
    reveal_strlit("woof");
    reveal_strlit("wizard");
    reveal_strlit("odlaw");
}

/// A click in a running round that hits nobody costs 25 points, whatever the player has
/// found so far: it adds one miss to theirs, and they alone are told.
pub proof fn law_hitting_nobody_is_a_miss(
    lobby: LobbyView,
    now: int,
    rng: RngView,
    who: int,
    i: int,
    pos: Spot,
    ranges: RangesView,
    fresh: int,
    minted: Seq<char>,
)
    requires
        lobby.phase == Phase::Playing,
        sits(lobby, who, i),
        is_place(pos),
        ranges.waldo > 0x3f99_999a,
        forall|c: int|
            #![trigger ranges.cast[c]]
            in_view(lobby, ranges, c) ==> ranges.cast[c] > 0x3f99_999a,
    ensures
        ({
            let step = lobby.apply(
                now,
                rng,
                asks(Some(who), ClientMsgView::Click { pos }, fresh, minted, ranges),
            );
            let p = lobby.players[i];
            let q = PlayerView { misses: p.misses + 1, ..p };
            is_judged(lobby, rng, step, i, q, "miss"@, -25)
        }),
{
    lemma_sits(lobby, who, i);
    lemma_place(pos);
    let n = lobby.cast_in_view(ranges);
    assert forall|c: int| !is_nearest(ranges.cast, n, c) by {
        if is_nearest(ranges.cast, n, c) {
            assert(in_view(lobby, ranges, c));
        }
    }
    assert(nearest(ranges.cast, n) is None);
}

/// A click counts only in a running round, on a place, and from someone who has a seat.
pub proof fn law_other_clicks_do_nothing(
    lobby: LobbyView,
    now: int,
    rng: RngView,
    from: Option<int>,
    pos: Spot,
    ranges: RangesView,
    fresh: int,
    minted: Seq<char>,
)
    requires
        lobby.phase != Phase::Playing || !is_place(pos) || from is None || is_absent(
            lobby,
            from->0,
        ),
    ensures
        is_quiet(
            lobby,
            rng,
            lobby.apply(
                now,
                rng,
                asks(from, ClientMsgView::Click { pos }, fresh, minted, ranges),
            ),
        ),
{
    lemma_place(pos);
    if from is Some && is_absent(lobby, from->0) {
        lemma_absent(lobby, from->0);
    }
}

/// Somebody is connected, and everybody who is has found Waldo.
pub open spec fn nobody_is_looking(players: Seq<PlayerView>) -> bool {
    &&& exists|i: int| 0 <= i < players.len() && (#[trigger] players[i]).connected
    &&& forall|i: int|
        0 <= i < players.len() && (#[trigger] players[i]).connected ==> players[i].found_rank > 0
}

/// What the results say of a player whose score has been added to their total.
pub open spec fn line(p: PlayerView) -> RoundEntryView {
    RoundEntryView {
        id: p.id,
        name: p.name,
        found: p.found_rank > 0,
        rank: p.found_rank,
        time_ms: p.found_at_ms,
        misses: p.misses,
        bonus: bonus_value(p.wenda, p.woof, p.wizard, p.odlaw),
        score: score(p),
        total: p.total,
    }
}

/// The lines worth exactly so many points.
pub open spec fn scoring(points: int) -> spec_fn(RoundEntryView) -> bool {
    |e: RoundEntryView| e.score == points
}

/// One line per player, best score first and in seating order among equals.
pub open spec fn are_results(players: Seq<PlayerView>, results: Seq<RoundEntryView>) -> bool {
    let lines = Seq::new(players.len(), |i: int| line(players[i]));
    &&& results.len() == lines.len()
    &&& results.to_multiset() == lines.to_multiset()
    &&& forall|i: int, j: int|
        0 <= i <= j < results.len() ==> (#[trigger] results[i]).score >= (
        #[trigger] results[j]).score
    &&& forall|points: int|
        results.filter(#[trigger] scoring(points)) == lines.filter(scoring(points))
}

/// The round is over: everyone's score is added to their total, and otherwise they are
/// who they were. Everyone is told the results and where Waldo was, and the pause is on.
pub open spec fn is_over(
    lobby: LobbyView,
    now: int,
    after: LobbyView,
    said: OutView,
    next: OutView,
) -> bool {
    &&& after == (LobbyView {
        phase: Phase::Intermission,
        timer_gen: lobby.timer_gen + 1,
        players: after.players,
        ..lobby
    })
    &&& after.players.len() == lobby.players.len()
    &&& forall|i: int|
        #![trigger after.players[i]]
        0 <= i < lobby.players.len() ==> after.players[i] == (PlayerView {
            total: lobby.players[i].total + score(lobby.players[i]),
            ..lobby.players[i]
        })
    &&& said matches OutView::All(
        ServerMsgView::RoundResult { round, waldo, results, next_in_ms },
    ) && round == lobby.round && waldo == lobby.waldo && next_in_ms
        == lobby.settings.intermission_ms && are_results(after.players, results)
    &&& next == OutView::Schedule {
        at_ms: now + lobby.settings.intermission_ms,
        timer: TimerView::Intermission { gen: lobby.timer_gen + 1 },
    }
}

/// From `lobby` on, with `said` to be told: the round is over where one was on and nobody
/// is looking any more, and otherwise nothing more happens.
pub open spec fn wraps_up(
    lobby: LobbyView,
    now: int,
    rng: RngView,
    said: Seq<OutView>,
    step: Step,
) -> bool {
    &&& step.rng == rng
    &&& if lobby.phase == Phase::Playing && nobody_is_looking(lobby.players) {
        let n = said.len() as int;
        &&& step.outs.len() == n + 2
        &&& step.outs.take(n) == said
        &&& is_over(lobby, now, step.lobby, step.outs[n], step.outs[n + 1])
    } else {
        step.lobby == lobby && step.outs == said
    }
}

proof fn lemma_results(lobby: LobbyView)
    ensures
        are_results(lobby.players.map_values(scored()), lobby.results()),
{
    let players = lobby.players.map_values(scored());
    let lines = Seq::new(players.len(), |i: int| line(players[i]));
    assert(lines =~= players.map_values(entry_of()));
    law_results_are_ranked(lobby, 0);
    let results = lobby.results();
    assert forall|points: int|
        results.filter(#[trigger] scoring(points)) == lines.filter(scoring(points)) by {
        law_results_are_ranked(lobby, points);
        assert(is_worth(entry_score(), points) =~= scoring(points));
    }
}

proof fn lemma_wraps_up(lobby: LobbyView, now: int, rng: RngView, said: Seq<OutView>)
    ensures
        wraps_up(lobby, now, rng, said, lobby.finish_if_found(now, rng, said)),
{
    lemma_results(lobby);
    assert(lobby.all_connected_found() == nobody_is_looking(lobby.players));
    let step = lobby.finish_if_found(now, rng, said);
    if lobby.phase == Phase::Playing && nobody_is_looking(lobby.players) {
        assert(step.outs.take(said.len() as int) =~= said);
    }
}

/// The players who have found Waldo.
pub open spec fn has_found() -> spec_fn(PlayerView) -> bool {
    |p: PlayerView| p.found_rank > 0
}

proof fn lemma_finders(players: Seq<PlayerView>)
    ensures
        finders(players) == players.filter(has_found()).len(),
    decreases players.len(),
{
    reveal(Seq::filter);
    if players.len() > 0 {
        lemma_finders(players.drop_last());
    }
}

/// Who hits Waldo in a running round has found him, also where one of the cast stands
/// nearer: they rank behind all who have this round, earn their place, and it took them
/// as long as the round has been on. They are told so, everyone is told how many have found
/// him, and the round is over when nobody is looking any more. A second find does nothing.
pub proof fn law_waldo_finds_count(
    lobby: LobbyView,
    now: int,
    rng: RngView,
    who: int,
    i: int,
    took: int,
    pos: Spot,
    ranges: RangesView,
    fresh: int,
    minted: Seq<char>,
)
    requires
        lobby.phase == Phase::Playing,
        sits(lobby, who, i),
        is_place(pos),
        ranges.waldo <= 0x3f99_999a,
        0 <= took <= lobby.round_len_ms,
        took > 0 ==> lobby.round_ends_ms - lobby.round_len_ms + took <= now,
        took < lobby.round_len_ms ==> lobby.round_ends_ms - lobby.round_len_ms + took >= now,
    ensures
        ({
            let step = lobby.apply(
                now,
                rng,
                asks(Some(who), ClientMsgView::Click { pos }, fresh, minted, ranges),
            );
            let p = lobby.players[i];
            let q = PlayerView { found_rank: lobby.found + 1, found_at_ms: took, ..p };
            if p.found_rank != 0 {
                is_quiet(lobby, rng, step)
            } else {
                wraps_up(
                    LobbyView {
                        found: lobby.found + 1,
                        players: lobby.players.update(i, q),
                        ..lobby
                    },
                    now,
                    rng,
                    seq![
                        OutView::To(
                            who,
                            ServerMsgView::ClickResult {
                                target: "waldo"@,
                                points: rank_value(lobby.found + 1),
                                round_score: score(q),
                                misses: p.misses,
                            },
                        ),
                        OutView::All(
                            ServerMsgView::PlayerFound {
                                id: who,
                                found: lobby.players.filter(has_found()).len() as int + 1,
                                total: lobby.players.len() as int,
                            },
                        ),
                    ],
                    step,
                )
            }
        }),
{
    lemma_sits(lobby, who, i);
    lemma_place(pos);
    lemma_finders(lobby.players);
    let p = lobby.players[i];
    if p.found_rank == 0 {
        let q = PlayerView { found_rank: lobby.found + 1, found_at_ms: took, ..p };
        lemma_wraps_up(
            LobbyView { found: lobby.found + 1, players: lobby.players.update(i, q), ..lobby },
            now,
            rng,
            seq![
                q.verdict("waldo"@, rank_value(lobby.found + 1)),
                OutView::All(
                    ServerMsgView::PlayerFound {
                        id: p.id,
                        found: finders(lobby.players) as int + 1,
                        total: lobby.players.len() as int,
                    },
                ),
            ],
        );
    }
}

/// Everyone is told the same but for who they are: the code, the players in the order of
/// their seats, the first of whom is the host, and the settings, with their own id and the
/// token of their own seat.
pub open spec fn tells_everyone(lobby: LobbyView, outs: Seq<OutView>) -> bool {
    &&& outs.len() == lobby.players.len()
    &&& forall|k: int| #![trigger outs[k]]
        0 <= k < outs.len() ==> tells_how_it_stands(lobby, lobby.players[k].id, outs[k])
}

/// The player of this id is told how the lobby stands.
pub open spec fn tells_how_it_stands(lobby: LobbyView, id: int, out: OutView) -> bool {
    out matches OutView::To(
        to,
        ServerMsgView::Lobby { code, you, token, players, config },
    ) && {
        &&& to == id
        &&& you == id
        &&& code == lobby.code
        &&& config == lobby.config
        &&& forall|i: int| #[trigger] sits(lobby, id, i) ==> token == lobby.players[i].token
        &&& players.len() == lobby.players.len()
        &&& forall|i: int|
            #![trigger players[i]]
            0 <= i < players.len() ==> {
                let p = lobby.players[i];
                &&& players[i].id == p.id
                &&& players[i].name == p.name
                &&& players[i].connected == p.connected
                &&& players[i].is_host == (i == 0)
            }
    }
}

proof fn lemma_tells_everyone(lobby: LobbyView)
    ensures
        tells_everyone(lobby, lobby.broadcast()),
{
    let outs = lobby.broadcast();
    assert forall|k: int| #![trigger outs[k]] 0 <= k < outs.len() implies tells_how_it_stands(
        lobby,
        lobby.players[k].id,
        outs[k],
    ) by {
        let id = lobby.players[k].id;
        assert forall|i: int| #[trigger] sits(lobby, id, i) implies lobby.find(id) == Some(i) by {
            lemma_sits(lobby, id, i);
        }
    }
}

/// A player who has done nothing in this round, but is otherwise who they were.
pub open spec fn starts_afresh(p: PlayerView, q: PlayerView) -> bool {
    &&& q.found_rank == 0
    &&& q.found_at_ms == -1
    &&& q.misses == 0
    &&& !q.wenda && !q.woof && !q.wizard && !q.odlaw
    &&& score(q) == 0
    &&& q.id == p.id
    &&& q.name == p.name
    &&& q.token == p.token
    &&& q.connected == p.connected
    &&& q.disconnect_gen == p.disconnect_gen
}

/// What the draw of `n` out of nine makes of a round: one of the four mutators, and in five
/// cases nothing special.
pub open spec fn is_drawn(m: Seq<char>, n: nat) -> bool {
    &&& m == "night"@ <==> n == 0
    &&& m == "lightning"@ <==> n == 1
    &&& m == "crowded"@ <==> n == 2
    &&& m == "tiny"@ <==> n == 3
    &&& m == ""@ <==> n >= 4
}

/// Round `round` of the game begins at `now`: its seed is the next number drawn, and
/// nobody has done anything in it. Everyone is told of it, and its end is set: after the
/// time chosen, or a third of it in a lightning round.
pub open spec fn begins(lobby: LobbyView, now: int, rng: RngView, round: int, step: Step) -> bool {
    let after = step.lobby;
    let secs = if after.mutator == "lightning"@ {
        lobby.config.round_secs as int / 3
    } else {
        lobby.config.round_secs as int
    };
    &&& after.phase == Phase::Playing
    &&& after.round == round
    &&& after.seed == rng.drawn()
    &&& after.found == 0
    &&& after.cast.len() == 0
    &&& after.timer_gen == lobby.timer_gen + 1
    &&& after.code == lobby.code
    &&& after.config == lobby.config
    &&& after.settings == lobby.settings
    &&& after.round_len_ms == 1000 * secs
    &&& after.round_ends_ms == now + 1000 * secs
    &&& match lobby.settings.mutator {
        Some(m) => after.mutator == m && step.rng == rng.next(),
        None => is_drawn(after.mutator, rng.next().picked(9)) && step.rng == rng.next().next(),
    }
    &&& after.players.len() == lobby.players.len()
    &&& forall|i: int|
        #![trigger after.players[i]]
        0 <= i < lobby.players.len() ==> starts_afresh(lobby.players[i], after.players[i])
    &&& step.outs == seq![
        OutView::All(
            ServerMsgView::RoundStart {
                round,
                total_rounds: lobby.config.rounds as int,
                seed: after.seed,
                round_secs: secs,
                mutator: after.mutator,
                ends_at_ms: now + 1000 * secs,
            },
        ),
        OutView::Schedule {
            at_ms: now + 1000 * secs,
            timer: TimerView::RoundEnd { gen: lobby.timer_gen + 1 },
        },
    ]
}

/// The host starts the game: its first round begins, and everyone has a total of zero.
pub proof fn law_games_start_afresh(
    lobby: LobbyView,
    now: int,
    rng: RngView,
    who: int,
    fresh: int,
    minted: Seq<char>,
    ranges: RangesView,
)
    requires
        lobby.phase == Phase::Waiting,
        lobby.players.len() > 0,
        lobby.players[0].id == who,
    ensures
        ({
            let step = lobby.apply(
                now,
                rng,
                asks(Some(who), ClientMsgView::Start, fresh, minted, ranges),
            );
            &&& begins(lobby, now, rng, 1, step)
            &&& forall|i: int|
                0 <= i < lobby.players.len() ==> (#[trigger] step.lobby.players[i]).total == 0
        }),
{
    lemma_drawn(lobby, rng);
}

/// When the pause after a round is over, the next round begins. Nobody takes anything into
/// it but their total.
pub proof fn law_rounds_start_afresh(lobby: LobbyView, now: int, rng: RngView)
    requires
        lobby.phase == Phase::Intermission,
        lobby.players.len() > 0,
        lobby.round < lobby.config.rounds,
    ensures
        ({
            let timer = TimerView::Intermission { gen: lobby.timer_gen };
            let step = lobby.apply(now, rng, EventView::Fired(timer));
            &&& begins(lobby, now, rng, lobby.round + 1, step)
            &&& forall|i: int|
                0 <= i < lobby.players.len() ==> (#[trigger] step.lobby.players[i]).total
                    == lobby.players[i].total
        }),
{
    lemma_drawn(lobby, rng);
}

proof fn lemma_drawn(lobby: LobbyView, rng: RngView)
    ensures
        lobby.settings.mutator is None ==> is_drawn(
            lobby.chosen_mutator(rng),
            rng.next().picked(9),
        ),
{
    reveal_strlit("night");
    reveal_strlit("lightning");
    reveal_strlit("crowded");
    reveal_strlit("tiny");
    reveal_strlit("");
    assert("night"@.len() == 5 && "lightning"@.len() == 9 && "crowded"@.len() == 7);
    assert("tiny"@.len() == 4 && ""@.len() == 0);
}

/// A running round ends when its time is up.
pub proof fn law_rounds_end_in_time(lobby: LobbyView, now: int, rng: RngView)
    requires
        lobby.phase == Phase::Playing,
        lobby.players.len() > 0,
    ensures
        ({
            let timer = TimerView::RoundEnd { gen: lobby.timer_gen };
            let step = lobby.apply(now, rng, EventView::Fired(timer));
            &&& step.rng == rng
            &&& step.outs.len() == 2
            &&& is_over(lobby, now, step.lobby, step.outs[0], step.outs[1])
        }),
{
    lemma_results(lobby);
}

/// The standings worth exactly so many points.
pub open spec fn totalling(points: int) -> spec_fn(StandingView) -> bool {
    |s: StandingView| s.total == points
}

/// Everyone's total, the highest first and in seating order among equals.
pub open spec fn are_standings(players: Seq<PlayerView>, board: Seq<StandingView>) -> bool {
    let lines = Seq::new(
        players.len(),
        |i: int|
            StandingView { id: players[i].id, name: players[i].name, total: players[i].total },
    );
    &&& board.len() == lines.len()
    &&& board.to_multiset() == lines.to_multiset()
    &&& forall|i: int, j: int|
        0 <= i <= j < board.len() ==> (#[trigger] board[i]).total >= (#[trigger] board[j]).total
    &&& forall|points: int|
        board.filter(#[trigger] totalling(points)) == lines.filter(totalling(points))
}

/// When the pause after the last round is over, everyone is told the standings, and the
/// lobby waits for another game with everyone and all they have in it.
pub proof fn law_games_end_with_standings(lobby: LobbyView, now: int, rng: RngView)
    requires
        lobby.phase == Phase::Intermission,
        lobby.players.len() > 0,
        lobby.round >= lobby.config.rounds,
    ensures
        ({
            let timer = TimerView::Intermission { gen: lobby.timer_gen };
            let step = lobby.apply(now, rng, EventView::Fired(timer));
            &&& step.rng == rng
            &&& step.lobby == (LobbyView { phase: Phase::Waiting, round: 0, ..lobby })
            &&& step.outs.len() == 1 + lobby.players.len()
            &&& step.outs[0] matches OutView::All(ServerMsgView::GameOver { leaderboard })
                && are_standings(lobby.players, leaderboard)
            &&& tells_everyone(step.lobby, step.outs.skip(1))
        }),
{
    let timer = TimerView::Intermission { gen: lobby.timer_gen };
    let step = lobby.apply(now, rng, EventView::Fired(timer));
    let after = LobbyView { phase: Phase::Waiting, round: 0, ..lobby };
    lemma_tells_everyone(after);
    assert(step.outs.skip(1) =~= after.broadcast());
    let players = lobby.players;
    let lines = Seq::new(
        players.len(),
        |i: int|
            StandingView { id: players[i].id, name: players[i].name, total: players[i].total },
    );
    assert(lines =~= players.map_values(standing_of()));
    law_highest_total_wins(lobby, 0);
    let board = lobby.leaderboard();
    assert forall|points: int|
        board.filter(#[trigger] totalling(points)) == lines.filter(totalling(points)) by {
        law_highest_total_wins(lobby, points);
        assert(is_worth(standing_total(), points) =~= totalling(points));
    }
}

/// A timer does something only while it is the one the lobby waits for.
pub proof fn law_other_timers_do_nothing(lobby: LobbyView, now: int, rng: RngView, timer: TimerView)
    requires
        match timer {
            TimerView::RoundEnd { gen } => gen != lobby.timer_gen || lobby.phase != Phase::Playing,
            TimerView::Intermission { gen } => gen != lobby.timer_gen || lobby.phase
                != Phase::Intermission,
            TimerView::Grace { player, gen } => forall|i: int|
                #[trigger] sits(lobby, player, i) ==> lobby.players[i].connected
                    || lobby.players[i].disconnect_gen != gen,
        },
    ensures
        is_quiet(lobby, rng, lobby.apply(now, rng, EventView::Fired(timer))),
{
    if let TimerView::Grace { player, gen } = timer {
        lemma_seated_or_absent(lobby, player);
    }
}

proof fn lemma_seated_or_absent(lobby: LobbyView, id: int)
    ensures
        match lobby.find(id) {
            Some(i) => sits(lobby, id, i),
            None => is_absent(lobby, id),
        },
{
    if !is_absent(lobby, id) {
        let k = choose|k: int|
            0 <= k < lobby.players.len() && (#[trigger] lobby.players[k]).id == id;
        lemma_first_exists(lobby.players, has_id(id), k);
        let i = lobby.find(id)->0;
        assert(is_first(lobby.players, has_id(id), i));
        assert forall|j: int| 0 <= j < i implies (#[trigger] lobby.players[j]).id != id by {
            assert(!has_id(id)(lobby.players[j]));
        }
        assert(has_id(id)(lobby.players[i]));
    } else {
        lemma_absent(lobby, id);
    }
}

/// A player whose connection drops stays in their seat with all they have, for as long as
/// the grace period. Everyone is told, and nobody waits for them to find Waldo.
pub proof fn law_drops_are_forgiven(lobby: LobbyView, now: int, rng: RngView, id: int, i: int)
    requires
        sits(lobby, id, i),
    ensures
        ({
            let step = lobby.apply(now, rng, EventView::Dropped(id));
            let p = lobby.players[i];
            let q = PlayerView { connected: false, disconnect_gen: p.disconnect_gen + 1, ..p };
            let after = LobbyView { players: lobby.players.update(i, q), ..lobby };
            let said = after.broadcast().push(
                OutView::Schedule {
                    at_ms: now + lobby.settings.grace_ms,
                    timer: TimerView::Grace { player: id, gen: p.disconnect_gen + 1 },
                },
            );
            &&& wraps_up(after, now, rng, said, step)
            &&& tells_everyone(after, after.broadcast())
        }),
{
    lemma_sits(lobby, id, i);
    let p = lobby.players[i];
    let q = PlayerView { connected: false, disconnect_gen: p.disconnect_gen + 1, ..p };
    let after = LobbyView { players: lobby.players.update(i, q), ..lobby };
    lemma_tells_everyone(after);
    lemma_wraps_up(
        after,
        now,
        rng,
        after.broadcast().push(
            OutView::Schedule {
                at_ms: now + lobby.settings.grace_ms,
                timer: TimerView::Grace { player: id, gen: p.disconnect_gen + 1 },
            },
        ),
    );
}

/// Someone who has no seat has none to lose.
pub proof fn law_strangers_cannot_leave(
    lobby: LobbyView,
    now: int,
    rng: RngView,
    id: int,
    fresh: int,
    minted: Seq<char>,
    ranges: RangesView,
)
    requires
        is_absent(lobby, id),
    ensures
        is_quiet(lobby, rng, lobby.apply(now, rng, EventView::Dropped(id))),
        is_quiet(
            lobby,
            rng,
            lobby.apply(now, rng, asks(Some(id), ClientMsgView::Leave, fresh, minted, ranges)),
        ),
        is_quiet(
            lobby,
            rng,
            lobby.apply(now, rng, asks(None, ClientMsgView::Leave, fresh, minted, ranges)),
        ),
{
    lemma_absent(lobby, id);
    lemma_filter_all(lobby.players, lacks_id(id));
}

/// Everyone but the one of this id.
pub open spec fn but(id: int) -> spec_fn(PlayerView) -> bool {
    |p: PlayerView| p.id != id
}

/// The player of this id gives up their seat. The others keep theirs, in the same order,
/// with all they have. They are told, and nobody waits for the one who is gone.
pub open spec fn gives_up_seat(
    lobby: LobbyView,
    now: int,
    rng: RngView,
    id: int,
    step: Step,
) -> bool {
    let after = LobbyView { players: lobby.players.filter(but(id)), ..lobby };
    if after.players.len() == 0 {
        &&& step.lobby == after
        &&& step.rng == rng
        &&& step.outs == seq![OutView::Unbound(id), OutView::Empty]
    } else {
        &&& wraps_up(after, now, rng, seq![OutView::Unbound(id)] + after.broadcast(), step)
        &&& tells_everyone(after, after.broadcast())
    }
}

proof fn lemma_gives_up_seat(lobby: LobbyView, now: int, rng: RngView, id: int, i: int)
    requires
        sits(lobby, id, i),
    ensures
        lobby.without(id).players.len() < lobby.players.len(),
        lobby.without(id).players.len() == 0 ==> lobby.removed(now, rng, id) == (Step {
            lobby: lobby.without(id),
            rng,
            outs: seq![OutView::Unbound(id)],
        }),
        lobby.without(id) == (LobbyView { players: lobby.players.filter(but(id)), ..lobby }),
        lobby.without(id).players.len() > 0 ==> gives_up_seat(
            lobby,
            now,
            rng,
            id,
            lobby.removed(now, rng, id),
        ),
{
    assert(lacks_id(id) =~= but(id));
    lemma_filter_drops(lobby.players, but(id), i);
    let after = lobby.without(id);
    lemma_tells_everyone(after);
    lemma_wraps_up(after, now, rng, seq![OutView::Unbound(id)] + after.broadcast());
}

proof fn lemma_filter_drops(s: Seq<PlayerView>, keep: spec_fn(PlayerView) -> bool, i: int)
    requires
        0 <= i < s.len(),
        !keep(s[i]),
    ensures
        s.filter(keep).len() < s.len(),
    decreases s.len(),
{
    reveal(Seq::filter);
    if i < s.len() - 1 {
        lemma_filter_drops(s.drop_last(), keep, i);
    } else {
        lemma_filter_len(s.drop_last(), keep);
    }
}

proof fn lemma_filter_len(s: Seq<PlayerView>, keep: spec_fn(PlayerView) -> bool)
    ensures
        s.filter(keep).len() <= s.len(),
    decreases s.len(),
{
    reveal(Seq::filter);
    if s.len() > 0 {
        lemma_filter_len(s.drop_last(), keep);
    }
}

/// Who leaves gives up their seat, and so does who stays away for the grace period.
pub proof fn law_leavers_give_up_their_seat(
    lobby: LobbyView,
    now: int,
    rng: RngView,
    id: int,
    i: int,
    fresh: int,
    minted: Seq<char>,
    ranges: RangesView,
)
    requires
        sits(lobby, id, i),
    ensures
        gives_up_seat(
            lobby,
            now,
            rng,
            id,
            lobby.apply(now, rng, asks(Some(id), ClientMsgView::Leave, fresh, minted, ranges)),
        ),
        !lobby.players[i].connected ==> gives_up_seat(
            lobby,
            now,
            rng,
            id,
            lobby.apply(
                now,
                rng,
                EventView::Fired(
                    TimerView::Grace { player: id, gen: lobby.players[i].disconnect_gen },
                ),
            ),
        ),
{
    lemma_sits(lobby, id, i);
    lemma_gives_up_seat(lobby, now, rng, id, i);
    let step = lobby.removed(now, rng, id);
    assert(seq![OutView::Unbound(id)].push(OutView::Empty) =~= seq![
        OutView::Unbound(id),
        OutView::Empty,
    ]);
    assert(step.lobby.players.len() == lobby.without(id).players.len());
}

/// Only this is said, and nothing changed.
pub open spec fn is_refused(
    lobby: LobbyView,
    rng: RngView,
    step: Step,
    said: OutView,
) -> bool {
    &&& step.lobby == lobby
    &&& step.rng == rng
    &&& step.outs == if lobby.players.len() == 0 {
        seq![said, OutView::Empty]
    } else {
        seq![said]
    }
}

/// A refusal to the player or newcomer of this id.
pub open spec fn refusal(id: int, message: Seq<char>) -> OutView {
    OutView::To(id, ServerMsgView::Error { message })
}

/// A refusal to the connection that asked.
pub open spec fn answer(message: Seq<char>) -> OutView {
    OutView::Reply(ServerMsgView::Error { message })
}

/// Someone takes the last seat under this name: they are connected, have done nothing and
/// have no points. Everyone else is who they were, and everyone is told.
pub open spec fn takes_seat(
    lobby: LobbyView,
    rng: RngView,
    id: int,
    name: Seq<char>,
    token: Seq<char>,
    step: Step,
) -> bool {
    let n = lobby.players.len() as int;
    let after = step.lobby;
    let p = after.players[n];
    &&& step.rng == rng
    &&& after == (LobbyView { players: after.players, ..lobby })
    &&& after.players.len() == n + 1
    &&& forall|i: int| 0 <= i < n ==> #[trigger] after.players[i] == lobby.players[i]
    &&& starts_afresh(p, p)
    &&& p.id == id
    &&& p.token == token
    &&& p.name == sanitized(name)
    &&& p.connected
    &&& p.disconnect_gen == 0
    &&& p.total == 0
    &&& step.outs.len() == n + 2
    &&& step.outs[0] == OutView::Bound(id)
    &&& tells_everyone(after, step.outs.skip(1))
}

proof fn lemma_takes_seat(
    lobby: LobbyView,
    rng: RngView,
    id: int,
    name: Seq<char>,
    token: Seq<char>,
)
    ensures
        takes_seat(lobby, rng, id, name, token, lobby.seated(rng, id, name, token)),
{
    let step = lobby.seated(rng, id, name, token);
    lemma_tells_everyone(step.lobby);
    assert(step.outs.skip(1) =~= step.lobby.broadcast());
}

/// Joining gives a seat to whoever has none here, while the lobby waits and is not full.
/// Everyone else is told why not.
pub proof fn law_joining_takes_a_seat(
    lobby: LobbyView,
    now: int,
    rng: RngView,
    from: Option<int>,
    code: Seq<char>,
    name: Seq<char>,
    fresh: int,
    minted: Seq<char>,
    ranges: RangesView,
)
    ensures
        ({
            let step = lobby.apply(
                now,
                rng,
                asks(from, ClientMsgView::Join { code, name }, fresh, minted, ranges),
            );
            let is_full = lobby.players.len() >= lobby.settings.max_players;
            &&& from is Some ==> is_refused(
                lobby,
                rng,
                step,
                refusal(fresh, "already in a lobby"@),
            )
            &&& from is None && lobby.phase != Phase::Waiting ==> is_refused(
                lobby,
                rng,
                step,
                refusal(fresh, "game already in progress"@),
            )
            &&& from is None && lobby.phase == Phase::Waiting && is_full ==> is_refused(
                lobby,
                rng,
                step,
                refusal(fresh, "lobby is full"@),
            )
            &&& from is None && lobby.phase == Phase::Waiting && !is_full ==> takes_seat(
                lobby,
                rng,
                fresh,
                name,
                minted,
                step,
            )
        }),
{
    lemma_takes_seat(lobby, rng, fresh, name, minted);
    let step = lobby.handled(
        now,
        rng,
        asks(from, ClientMsgView::Join { code, name }, fresh, minted, ranges),
    );
    assert(step.outs.push(OutView::Empty) =~= step.outs + seq![OutView::Empty]);
    assert(seq![step.outs[0]] + seq![OutView::Empty] =~= seq![step.outs[0], OutView::Empty]);
    assert(step.outs.len() == 1 ==> step.outs =~= seq![step.outs[0]]);
}

/// Creating gives the first seat of an empty lobby to whoever has none. Nobody else gets one
/// that way.
pub proof fn law_creating_takes_the_first_seat(
    lobby: LobbyView,
    now: int,
    rng: RngView,
    from: Option<int>,
    name: Seq<char>,
    fresh: int,
    minted: Seq<char>,
    ranges: RangesView,
)
    ensures
        ({
            let step = lobby.apply(
                now,
                rng,
                asks(from, ClientMsgView::Create { name }, fresh, minted, ranges),
            );
            if from is None && lobby.players.len() == 0 {
                takes_seat(lobby, rng, fresh, name, minted, step)
            } else {
                is_refused(lobby, rng, step, refusal(fresh, "already in a lobby"@))
            }
        }),
{
    lemma_takes_seat(lobby, rng, fresh, name, minted);
    let step = lobby.handled(
        now,
        rng,
        asks(from, ClientMsgView::Create { name }, fresh, minted, ranges),
    );
    assert(step.outs.push(OutView::Empty) =~= step.outs + seq![OutView::Empty]);
    assert(seq![step.outs[0]] + seq![OutView::Empty] =~= seq![step.outs[0], OutView::Empty]);
    assert(step.outs.len() == 1 ==> step.outs =~= seq![step.outs[0]]);
}

/// The host of a waiting lobby chooses the settings: the nearest ones that a game may have.
/// Everyone is told, and nothing else changes. Nobody else chooses anything.
pub proof fn law_hosts_choose_settings(
    lobby: LobbyView,
    now: int,
    rng: RngView,
    who: int,
    rounds: u32,
    round_secs: u32,
    fresh: int,
    minted: Seq<char>,
    ranges: RangesView,
)
    ensures
        ({
            let msg = ClientMsgView::Configure { rounds, round_secs };
            let step = lobby.apply(now, rng, asks(Some(who), msg, fresh, minted, ranges));
            let chosen = step.lobby.config;
            let hosts = lobby.players.len() > 0 && lobby.players[0].id == who;
            if !hosts {
                is_refused(lobby, rng, step, refusal(who, "only the host can change settings"@))
            } else if lobby.phase != Phase::Waiting {
                is_refused(lobby, rng, step, refusal(who, "cannot change settings mid-game"@))
            } else {
                &&& step.rng == rng
                &&& step.lobby == (LobbyView { config: chosen, ..lobby })
                &&& 1 <= rounds <= 10 ==> chosen.rounds == rounds
                &&& rounds < 1 ==> chosen.rounds == 1
                &&& rounds > 10 ==> chosen.rounds == 10
                &&& 10 <= round_secs <= 300 ==> chosen.round_secs == round_secs
                &&& round_secs < 10 ==> chosen.round_secs == 10
                &&& round_secs > 300 ==> chosen.round_secs == 300
                &&& tells_everyone(step.lobby, step.outs)
            }
        }),
{
    let msg = ClientMsgView::Configure { rounds, round_secs };
    let step = lobby.handled(now, rng, asks(Some(who), msg, fresh, minted, ranges));
    lemma_tells_everyone(step.lobby);
    assert(step.outs.push(OutView::Empty) =~= step.outs + seq![OutView::Empty]);
    assert(seq![step.outs[0]] + seq![OutView::Empty] =~= seq![step.outs[0], OutView::Empty]);
    assert(step.outs.len() == 1 ==> step.outs =~= seq![step.outs[0]]);
}

/// Nobody but the host of a waiting lobby starts a game, and who has no seat neither starts
/// one nor chooses its settings.
pub proof fn law_others_start_nothing(
    lobby: LobbyView,
    now: int,
    rng: RngView,
    who: int,
    rounds: u32,
    round_secs: u32,
    fresh: int,
    minted: Seq<char>,
    ranges: RangesView,
)
    ensures
        ({
            let step = lobby.apply(
                now,
                rng,
                asks(Some(who), ClientMsgView::Start, fresh, minted, ranges),
            );
            let hosts = lobby.players.len() > 0 && lobby.players[0].id == who;
            &&& !hosts ==> is_refused(lobby, rng, step, refusal(who, "only the host can start"@))
            &&& hosts && lobby.phase != Phase::Waiting ==> is_refused(
                lobby,
                rng,
                step,
                refusal(who, "game already running"@),
            )
        }),
        is_refused(
            lobby,
            rng,
            lobby.apply(now, rng, asks(None, ClientMsgView::Start, fresh, minted, ranges)),
            answer("not in a lobby"@),
        ),
        is_refused(
            lobby,
            rng,
            lobby.apply(
                now,
                rng,
                asks(
                    None,
                    ClientMsgView::Configure { rounds, round_secs },
                    fresh,
                    minted,
                    ranges,
                ),
            ),
            answer("not in a lobby"@),
        ),
{
    let a = refusal(who, "only the host can start"@);
    let b = answer("not in a lobby"@);
    assert(seq![a].push(OutView::Empty) =~= seq![a, OutView::Empty]);
    assert(seq![b].push(OutView::Empty) =~= seq![b, OutView::Empty]);
}

/// The seat with this token: the first one that has it.
pub open spec fn is_seat_of(lobby: LobbyView, token: Seq<char>, i: int) -> bool {
    &&& 0 <= i < lobby.players.len()
    &&& lobby.players[i].token == token
    &&& forall|j: int| 0 <= j < i ==> (#[trigger] lobby.players[j]).token != token
}

/// A player comes back to their seat by its token. They are connected again and otherwise
/// who they were, and so is everyone else. Everyone is told, and if a round is on they are
/// told, last, what it is and all that they have done in it.
pub proof fn law_tokens_give_seats_back(
    lobby: LobbyView,
    now: int,
    rng: RngView,
    i: int,
    code: Seq<char>,
    token: Seq<char>,
    fresh: int,
    minted: Seq<char>,
    ranges: RangesView,
)
    requires
        is_seat_of(lobby, token, i),
    ensures
        ({
            let msg = ClientMsgView::Rejoin { code, token };
            let step = lobby.apply(now, rng, asks(None, msg, fresh, minted, ranges));
            let n = lobby.players.len() as int;
            let p = lobby.players[i];
            let q = PlayerView { connected: true, disconnect_gen: p.disconnect_gen + 1, ..p };
            &&& step.rng == rng
            &&& becomes(lobby, step.lobby, i, q)
            &&& step.outs[0] == OutView::Bound(p.id)
            &&& tells_everyone(step.lobby, step.outs.subrange(1, n + 1))
            &&& lobby.phase != Phase::Playing ==> step.outs.len() == n + 1
            &&& lobby.phase == Phase::Playing ==> step.outs.len() == n + 2
            &&& lobby.phase == Phase::Playing && sits(lobby, p.id, i) ==> step.outs[n + 1]
                == OutView::To(
                p.id,
                ServerMsgView::Restore {
                    round: lobby.round,
                    total_rounds: lobby.config.rounds as int,
                    seed: lobby.seed,
                    round_secs: lobby.round_len_ms / 1000,
                    mutator: lobby.mutator,
                    ends_at_ms: lobby.round_ends_ms,
                    found_rank: p.found_rank,
                    misses: p.misses,
                    wenda: p.wenda,
                    woof: p.woof,
                    wizard: p.wizard,
                    odlaw: p.odlaw,
                },
            )
        }),
{
    lemma_first(lobby.players, has_token(token), i);
    let msg = ClientMsgView::Rejoin { code, token };
    let step = lobby.apply(now, rng, asks(None, msg, fresh, minted, ranges));
    let n = lobby.players.len() as int;
    lemma_tells_everyone(step.lobby);
    assert(step.outs.subrange(1, n + 1) =~= step.lobby.broadcast());
    let id = lobby.players[i].id;
    if sits(lobby, id, i) {
        assert(sits(step.lobby, id, i));
        lemma_sits(step.lobby, id, i);
    }
}

/// No other token gives a seat, and who has a seat gets no other.
pub proof fn law_other_tokens_give_nothing(
    lobby: LobbyView,
    now: int,
    rng: RngView,
    from: Option<int>,
    code: Seq<char>,
    token: Seq<char>,
    fresh: int,
    minted: Seq<char>,
    ranges: RangesView,
)
    ensures
        ({
            let msg = ClientMsgView::Rejoin { code, token };
            let step = lobby.apply(now, rng, asks(from, msg, fresh, minted, ranges));
            let unknown = forall|i: int|
                0 <= i < lobby.players.len() ==> (#[trigger] lobby.players[i]).token != token;
            &&& from is Some ==> is_refused(lobby, rng, step, answer("already in a lobby"@))
            &&& from is None && unknown ==> is_refused(
                lobby,
                rng,
                step,
                answer("session expired"@),
            )
        }),
{
    if forall|i: int|
        0 <= i < lobby.players.len() ==> (#[trigger] lobby.players[i]).token != token {
        lemma_first_none(lobby.players, has_token(token));
    }
    let a = answer("session expired"@);
    let b = answer("already in a lobby"@);
    assert(seq![a].push(OutView::Empty) =~= seq![a, OutView::Empty]);
    assert(seq![b].push(OutView::Empty) =~= seq![b, OutView::Empty]);
}

/// Whoever is told of a round they came back to is told of their own doings in it, however
/// it came about.
#[verifier::spinoff_prover]
#[verifier::rlimit(20)]
pub proof fn law_restores_are_personal(
    lobby: LobbyView,
    now: int,
    rng: RngView,
    event: EventView,
    id: int,
    i: int,
)
    requires
        sits(lobby.apply(now, rng, event).lobby, id, i),
    ensures
        ({
            let step = lobby.apply(now, rng, event);
            forall|k: int|
                0 <= k < step.outs.len() ==> is_own_restore(
                    #[trigger] step.outs[k],
                    id,
                    step.lobby.players[i],
                )
        }),
{
    lemma_sits(lobby.apply(now, rng, event).lobby, id, i);
}

/// If this tells the player of this id of a round they came back to, it tells what `p` has
/// done in it.
pub open spec fn is_own_restore(out: OutView, id: int, p: PlayerView) -> bool {
    out matches OutView::To(to, msg) ==> to == id ==> (msg matches ServerMsgView::Restore {
        found_rank,
        misses,
        wenda,
        woof,
        wizard,
        odlaw,
        ..
    } ==> {
        &&& found_rank == p.found_rank
        &&& misses == p.misses
        &&& wenda == p.wenda
        &&& woof == p.woof
        &&& wizard == p.wizard
        &&& odlaw == p.odlaw
    })
}

/// A lobby opens empty and waits, for three rounds of 90 seconds.
pub proof fn law_lobbies_open_empty(code: Seq<char>, settings: SettingsView)
    ensures
        ({
            let lobby = LobbyView::opened(code, settings);
            &&& lobby.code == code
            &&& lobby.settings == settings
            &&& lobby.players.len() == 0
            &&& lobby.phase == Phase::Waiting
            &&& lobby.round == 0
            &&& lobby.config.rounds == 3
            &&& lobby.config.round_secs == 90
            &&& lobby.timer_gen == 0
            &&& lobby.cast.len() == 0
            &&& lobby.found == 0
        }),
{
}

/// Laying out the world puts Waldo and the cast where they stand, and changes nothing for
/// anyone.
pub proof fn law_laying_out_changes_only_the_world(
    lobby: LobbyView,
    waldo: Spot,
    cast: Seq<(Seq<char>, Spot)>,
)
    ensures
        lobby.laid_out(waldo, cast).waldo == waldo,
        lobby.laid_out(waldo, cast).cast == cast,
        lobby == (LobbyView {
            waldo: lobby.waldo,
            cast: lobby.cast,
            ..lobby.laid_out(waldo, cast)
        }),
{
}

/// A text without control characters.
pub open spec fn is_plain(s: Seq<char>) -> bool {
    forall|i: int| 0 <= i < s.len() ==> !is_control(#[trigger] s[i])
}

/// A name of up to 20 characters is the one the player goes by, less white space around it.
pub proof fn law_names_are_kept(before: Seq<char>, name: Seq<char>, after: Seq<char>)
    requires
        is_plain(before + name + after),
        before.len() + name.len() + after.len() <= 20,
        is_blank(before),
        is_blank(after),
        name.len() > 0,
        !is_space(name.first()),
        !is_space(name.last()),
    ensures
        sanitized(before + name + after) == name,
{
    let all = before + name + after;
    lemma_filter_all(all, printable());
    law_padding_is_trimmed(before, name, after);
}

/// Who gives white space for a name is "Player".
pub proof fn law_nobody_is_nameless(name: Seq<char>)
    requires
        is_plain(name),
        is_blank(name),
    ensures
        sanitized(name) == "Player"@,
{
    lemma_filter_all(name, printable());
    let short = at_most(name, 20);
    let t = trimmed(short);
    lemma_trimmed(short);
    law_trimming_takes_only_padding(short);
    if t.len() > 0 {
        let j = choose|j: int| 0 <= j < short.len() && short[j] == t[0];
        assert(name[j] == t[0]);
        assert(is_space(t.first()));
    }
}

/// A control character in a name is as good as not there.
pub proof fn law_controls_are_dropped_from_names(a: Seq<char>, c: char, b: Seq<char>)
    requires
        is_control(c),
    ensures
        sanitized(a.push(c) + b) == sanitized(a + b),
{
    reveal(Seq::filter);
    lemma_filter_concat(a.push(c), b, printable());
    lemma_filter_concat(a, b, printable());
    assert(a.push(c).drop_last() =~= a);
}

/// Of a longer name the first 20 characters count.
pub proof fn law_long_names_are_cut(name: Seq<char>)
    requires
        name.len() >= 20,
        is_plain(name),
    ensures
        sanitized(name) == sanitized(name.take(20)),
{
    lemma_filter_all(name, printable());
    lemma_filter_all(name.take(20), printable());
    assert(name.len() == 20 ==> name.take(20) =~= name);
}

/// Unless told otherwise a lobby seats twelve, pauses eight seconds between rounds, keeps a
/// seat for a minute, and leaves the mutators to chance.
pub proof fn law_usual_settings()
    ensures
        ({
            let usual = SettingsView::usual();
            &&& usual.max_players == 12
            &&& usual.intermission_ms == 8000
            &&& usual.grace_ms == 60_000
            &&& usual.mutator is None
        }),
{
}

/// A lobby can take one more event as long as no count of its own is at the end of its range
/// and neither of its pauses, nor its longest round, would run past the end of time. Nothing
/// else stops it.
pub proof fn law_lobbies_go_on(lobby: LobbyView, now: int)
    ensures
        lobby.headroom(now) <==> {
            &&& lobby.players.len() < 0xffff_ffff
            &&& lobby.found < 0xffff_ffff
            &&& lobby.timer_gen < 0xffff_ffff_ffff_ffff
            &&& now + lobby.settings.grace_ms <= 0xffff_ffff_ffff_ffff
            &&& now + lobby.settings.intermission_ms <= 0xffff_ffff_ffff_ffff
            &&& now + 300_000 <= 0xffff_ffff_ffff_ffff
            &&& forall|i: int|
                #![trigger lobby.players[i]]
                0 <= i < lobby.players.len() ==> lobby.players[i].misses < 0xffff_ffff
                    && lobby.players[i].disconnect_gen < 0xffff_ffff_ffff_ffff
        },
{
    if lobby.headroom(now) {
        assert forall|i: int| #![trigger lobby.players[i]] 0 <= i < lobby.players.len() implies
            lobby.players[i].misses < 0xffff_ffff && lobby.players[i].disconnect_gen
            < 0xffff_ffff_ffff_ffff by {
            assert(lobby.players[i].headroom());
        }
    }
}

} // verus!
