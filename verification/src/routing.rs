//! Who hears what: how what a lobby asks for reaches the people in it, through a hosting
//! browser or through the server.

use vstd::prelude::*;

use crate::model::{EventView, LobbyView, OutView, RangesView, SettingsView, TimerView};
use crate::netplay::{
    dispatched, host_seed, is_channel, is_not, is_unrelated, lemma_dispatch_keeps_lobby,
    seats_told, EffectView, HostView, Hosting,
};
use crate::ordering::{first, lemma_first, lemma_first_exists, lemma_first_none};
use crate::protocol::{ClientMsgView, ServerMsgView, Spot};
use crate::rendezvous::ErrorView;
use crate::rng::RngView;
use crate::server::{
    clock_seed, code_meant, delivered, has_code, is_other, law_empty_lobbies_are_dropped,
    ActionView, Delivery, RoomView, Served, ServerView,
};
use crate::session::{code_text, token_text};
use crate::text::decimal;

verus! {

/// Player `id` is reached by link `i`: the first one of theirs.
pub open spec fn reaches(links: Seq<(u32, u64)>, id: int, i: int) -> bool {
    &&& 0 <= i < links.len()
    &&& links[i].0 == id
    &&& forall|j: int| 0 <= j < i ==> (#[trigger] links[j]).0 != id
}

/// No link reaches player `id`.
pub open spec fn is_unreached(links: Seq<(u32, u64)>, id: int) -> bool {
    forall|j: int| 0 <= j < links.len() ==> (#[trigger] links[j]).0 != id
}

/// What comes in over `chan` comes from the player of link `i`.
pub open spec fn comes_over(links: Seq<(u32, u64)>, chan: u64, i: int) -> bool {
    &&& 0 <= i < links.len()
    &&& links[i].1 == chan
    &&& forall|j: int| 0 <= j < i ==> (#[trigger] links[j]).1 != chan
}

/// How long to wait at `now` for something due at `at_ms`, with timers that count no
/// further than 2^31 - 1 milliseconds.
pub open spec fn is_wait(delay_ms: int, at_ms: int, now: int) -> bool {
    &&& now <= at_ms <= now + 0x7fff_ffff ==> now + delay_ms == at_ms
    &&& at_ms < now ==> delay_ms == 0
    &&& at_ms > now + 0x7fff_ffff ==> delay_ms == 0x7fff_ffff
}

/// The hosting browser did one more thing and nothing else.
pub open spec fn does(before: Hosting, after: Hosting, e: EffectView) -> bool {
    after.host == before.host && after.effects == before.effects.push(e)
}

proof fn lemma_reaches(links: Seq<(u32, u64)>, id: int, i: int)
    requires
        reaches(links, id, i),
    ensures
        first(links, crate::netplay::is_player(id)) == Some(i),
        first(links, crate::server::is_player(id)) == Some(i),
{
    lemma_first(links, crate::netplay::is_player(id), i);
    lemma_first(links, crate::server::is_player(id), i);
}

proof fn lemma_unreached(links: Seq<(u32, u64)>, id: int)
    requires
        is_unreached(links, id),
    ensures
        first(links, crate::netplay::is_player(id)) is None,
        first(links, crate::server::is_player(id)) is None,
{
    lemma_first_none(links, crate::netplay::is_player(id));
    lemma_first_none(links, crate::server::is_player(id));
}

/// The host's timers are on time: one that is due within what a browser can count fires
/// when it is due, and none is forgotten or lost among the rest.
pub proof fn law_host_timers_are_on_time(before: Hosting, now: int, at_ms: int, timer: TimerView)
    ensures
        ({
            let after = before.dispatch(now, OutView::Schedule { at_ms, timer });
            &&& after.effects.len() > 0
            &&& after.effects.last() matches EffectView::Wake { delay_ms, timer: t } && t == timer
                && is_wait(delay_ms, at_ms, now)
            &&& does(before, after, after.effects.last())
        }),
{
}

/// Every timer that an event of the lobby asks for is set, and is on time.
pub proof fn law_host_sets_every_timer(host: HostView, now: int, event: EventView, k: int)
    requires
        0 <= k < host.lobby.apply(now, host.rng, event).outs.len(),
        host.lobby.apply(now, host.rng, event).outs[k] is Schedule,
    ensures
        ({
            let out = host.lobby.apply(now, host.rng, event).outs[k];
            let after = host.applied(now, event);
            exists|m: int|
                0 <= m < after.effects.len() && sets_timer(#[trigger] after.effects[m], out, now)
        }),
{
    let step = host.lobby.apply(now, host.rng, event);
    lemma_sets_timer(
        HostView { lobby: step.lobby, rng: step.rng, ..host },
        now,
        step.outs,
        k,
    );
}

/// The timer asked for is set, and on time.
pub open spec fn sets_timer(e: EffectView, out: OutView, now: int) -> bool {
    match (e, out) {
        (
            EffectView::Wake { delay_ms, timer: t },
            OutView::Schedule { at_ms, timer },
        ) => t == timer && is_wait(delay_ms, at_ms, now),
        _ => false,
    }
}

proof fn lemma_sets_timer(host: HostView, now: int, outs: Seq<OutView>, k: int)
    requires
        0 <= k < outs.len(),
        outs[k] is Schedule,
    ensures
        ({
            let after = dispatched(host, now, outs);
            exists|m: int|
                0 <= m < after.effects.len() && sets_timer(
                    #[trigger] after.effects[m],
                    outs[k],
                    now,
                )
        }),
    decreases outs.len(),
{
    let fewer = outs.drop_last();
    let before = dispatched(host, now, fewer);
    let after = dispatched(host, now, outs);
    if k < fewer.len() {
        lemma_sets_timer(host, now, fewer, k);
        let m = choose|m: int|
            0 <= m < before.effects.len() && sets_timer(
                #[trigger] before.effects[m],
                outs[k],
                now,
            );
        assert(after.effects[m] == before.effects[m]);
    } else {
        let m = after.effects.len() - 1;
        assert(sets_timer(after.effects[m], outs[k], now));
    }
}

/// The host sees to all that the lobby asks for, one by one and in order.
pub proof fn law_host_sees_to_everything(
    host: HostView,
    now: int,
    outs: Seq<OutView>,
    out: OutView,
)
    ensures
        dispatched(host, now, Seq::empty()) == (Hosting { host, effects: Seq::empty() }),
        dispatched(host, now, outs.push(out)) == dispatched(host, now, outs).dispatch(now, out),
{
    assert(outs.push(out).drop_last() =~= outs);
}

/// A message to a player reaches them and nobody else: the host itself directly, and anyone
/// else over their own channel, or, before they have one, over the channel they are asking
/// on.
pub proof fn law_host_messages_arrive(
    before: Hosting,
    now: int,
    id: int,
    msg: ServerMsgView,
    i: int,
)
    ensures
        ({
            let after = before.dispatch(now, OutView::To(id, msg));
            let peers = before.host.peers;
            &&& id == before.host.me ==> does(
                before,
                after,
                EffectView::Tell { chans: Seq::empty(), us: true, msg },
            )
            &&& id != before.host.me && reaches(peers, id, i) ==> does(
                before,
                after,
                EffectView::Tell { chans: seq![peers[i].1], us: false, msg },
            )
            &&& id != before.host.me && is_unreached(peers, id) && before.host.current is Some
                ==> does(
                before,
                after,
                EffectView::Tell { chans: seq![before.host.current->0], us: false, msg },
            )
            &&& id != before.host.me && is_unreached(peers, id) && before.host.current is None
                ==> after == before
        }),
        ({
            let after = before.dispatch(now, OutView::Reply(msg));
            &&& before.host.current matches Some(chan) ==> does(
                before,
                after,
                EffectView::Tell { chans: seq![chan], us: false, msg },
            )
            &&& before.host.current is None ==> does(
                before,
                after,
                EffectView::Tell { chans: Seq::empty(), us: true, msg },
            )
        }),
{
    let peers = before.host.peers;
    if reaches(peers, id, i) {
        lemma_reaches(peers, id, i);
    }
    if is_unreached(peers, id) {
        lemma_unreached(peers, id);
    }
}

/// What is for all reaches every channel, in order, and the host itself. Before a round is
/// announced its world is laid out, the same for the host as for everyone.
pub proof fn law_host_tells_all(before: Hosting, now: int, msg: ServerMsgView)
    ensures
        ({
            let after = before.dispatch(now, OutView::All(msg));
            let n = before.effects.len() as int;
            let last = after.effects.len() - 1;
            &&& after.host == before.host
            &&& after.effects.take(n) == before.effects
            &&& last == if msg is RoundStart {
                n + 1
            } else {
                n
            }
            &&& after.effects[last] matches EffectView::Tell { chans, us, msg: told } && us && told
                == msg && chans.len() == before.host.peers.len() && forall|k: int|
                0 <= k < chans.len() ==> #[trigger] chans[k] == before.host.peers[k].1
            &&& msg matches ServerMsgView::RoundStart { seed, mutator, .. } ==> after.effects[n]
                == EffectView::LayOut { seed, mutator }
        }),
{
    let after = before.dispatch(now, OutView::All(msg));
    assert(after.effects.take(before.effects.len() as int) =~= before.effects);
}

/// Everyone else's links, and those over other channels.
pub open spec fn apart_from(id: int, chan: u64) -> spec_fn((u32, u64)) -> bool {
    |p: (u32, u64)| p.0 != id && p.1 != chan
}

/// The other channels.
pub open spec fn other_than(chan: u64) -> spec_fn(u64) -> bool {
    |c: u64| c != chan
}

/// Who takes a seat is reached over the channel they asked on, from then on and by that
/// alone, and everyone else as before. Nothing is done about it. Who gives their seat up has
/// their channel closed, and nobody else has.
pub proof fn law_host_channels_follow_seats(before: Hosting, now: int, id: int, i: int)
    requires
        0 <= id <= u32::MAX,
    ensures
        ({
            let after = before.dispatch(now, OutView::Bound(id));
            &&& before.host.current is None ==> after == before
            &&& before.host.current matches Some(chan) ==> after == (Hosting {
                host: HostView {
                    peers: before.host.peers.filter(apart_from(id, chan)).push((id as u32, chan)),
                    unclaimed: before.host.unclaimed.filter(other_than(chan)),
                    ..before.host
                },
                effects: before.effects,
            })
        }),
        ({
            let after = before.dispatch(now, OutView::Unbound(id));
            let peers = before.host.peers;
            &&& is_unreached(peers, id) ==> after == before
            &&& reaches(peers, id, i) ==> after == (Hosting {
                host: HostView { peers: peers.take(i) + peers.skip(i + 1), ..before.host },
                effects: before.effects.push(EffectView::Close(peers[i].1)),
            })
        }),
{
    let peers = before.host.peers;
    if let Some(chan) = before.host.current {
        assert(is_unrelated(id, chan) =~= apart_from(id, chan));
        assert(is_not(chan) =~= other_than(chan));
    }
    if reaches(peers, id, i) {
        lemma_reaches(peers, id, i);
        assert(peers.remove(i) =~= peers.take(i) + peers.skip(i + 1));
    }
    if is_unreached(peers, id) {
        lemma_unreached(peers, id);
    }
}

/// When the lobby is empty the host gives its room up and looks for nobody any more.
pub proof fn law_host_gives_up_its_room(before: Hosting, now: int)
    ensures
        ({
            let after = before.dispatch(now, OutView::Empty);
            &&& after.host == (HostView { open: false, ..before.host })
            &&& after.effects == before.effects.push(EffectView::CloseRoom(before.host.code))
        }),
{
}

/// The number after the last one given out, from zero again after the highest.
pub open spec fn is_next(n: u32, next: u32) -> bool {
    n < 0xffff_ffff && next == n + 1 || n == 0xffff_ffff && next == 0
}

/// What comes in over a channel is to the lobby what its player says, or, where the channel
/// is nobody's yet, what a stranger says. It comes with an id that was not given out before
/// and a token drawn for the purpose. What it leads to is seen to with that channel at hand.
pub proof fn law_joiners_speak_for_themselves(
    host: HostView,
    now: int,
    chan: u64,
    msg: ClientMsgView,
    ranges: RangesView,
    i: int,
    next: u32,
)
    requires
        is_next(host.next_id, next),
        comes_over(host.peers, chan, i) || forall|j: int|
            0 <= j < host.peers.len() ==> (#[trigger] host.peers[j]).1 != chan,
    ensures
        ({
            let event = EventView::Client {
                from: if comes_over(host.peers, chan, i) {
                    Some(host.peers[i].0 as int)
                } else {
                    None
                },
                msg,
                id: host.next_id as int,
                token: token_text(host.rng),
                ranges,
            };
            let step = host.lobby.apply(now, host.rng.after(3), event);
            let seen_to = dispatched(
                HostView {
                    lobby: step.lobby,
                    rng: step.rng,
                    next_id: next,
                    current: Some(chan),
                    ..host
                },
                now,
                step.outs,
            );
            let after = host.received(now, chan, msg, ranges);
            &&& after.effects == seen_to.effects
            &&& after.host == (HostView { current: None, ..seen_to.host })
            &&& after.host.lobby == step.lobby
        }),
{
    if comes_over(host.peers, chan, i) {
        lemma_first(host.peers, is_channel(chan), i);
    } else {
        lemma_first_none(host.peers, is_channel(chan));
    }
    let step = host.lobby.apply(now, host.rng.after(3), host.raised(chan, msg, ranges));
    lemma_dispatch_keeps_lobby(
        HostView { lobby: step.lobby, rng: step.rng, next_id: next, current: Some(chan), ..host },
        now,
        step.outs,
    );
}

/// What the host says itself is to the lobby what its own player says, and no channel is at
/// hand for the answer.
pub proof fn law_hosts_speak_for_themselves(
    host: HostView,
    now: int,
    msg: ClientMsgView,
    ranges: RangesView,
)
    ensures
        ({
            let event = EventView::Client {
                from: Some(host.me as int),
                msg,
                id: host.me as int,
                token: token_text(host.rng),
                ranges,
            };
            let step = host.lobby.apply(now, host.rng.after(3), event);
            host.said(now, msg, ranges) == dispatched(
                HostView { lobby: step.lobby, rng: step.rng, current: None, ..host },
                now,
                step.outs,
            )
        }),
{
}

/// The host is the first in its own lobby, under its own id.
pub proof fn law_hosts_create_their_lobby(
    host: HostView,
    now: int,
    name: Seq<char>,
    ranges: RangesView,
)
    ensures
        ({
            let event = EventView::Client {
                from: None,
                msg: ClientMsgView::Create { name },
                id: host.me as int,
                token: token_text(host.rng),
                ranges,
            };
            let step = host.lobby.apply(now, host.rng.after(3), event);
            host.begun(now, name, ranges) == dispatched(
                HostView { lobby: step.lobby, rng: step.rng, ..host },
                now,
                step.outs,
            )
        }),
{
}

/// When a channel closes, its player has dropped. If it was nobody's it is forgotten, and
/// nothing else happens.
pub proof fn law_closed_channels_drop_their_player(host: HostView, now: int, chan: u64, i: int)
    ensures
        comes_over(host.peers, chan, i) ==> ({
            let dropped = EventView::Dropped(host.peers[i].0 as int);
            let step = host.lobby.apply(now, host.rng, dropped);
            host.closed(now, chan) == dispatched(
                HostView { lobby: step.lobby, rng: step.rng, ..host },
                now,
                step.outs,
            )
        }),
        (forall|j: int| 0 <= j < host.peers.len() ==> (#[trigger] host.peers[j]).1 != chan) ==> ({
            let after = host.closed(now, chan);
            &&& after.effects.len() == 0
            &&& after.host == (HostView {
                unclaimed: host.unclaimed.filter(other_than(chan)),
                ..host
            })
        }),
{
    assert(is_not(chan) =~= other_than(chan));
    if comes_over(host.peers, chan, i) {
        lemma_first(host.peers, is_channel(chan), i);
    }
    if forall|j: int| 0 <= j < host.peers.len() ==> (#[trigger] host.peers[j]).1 != chan {
        lemma_first_none(host.peers, is_channel(chan));
    }
}

/// What happens in the lobby happens there at the host's time and by its random stream, and
/// the host sees to all of what comes of it.
pub proof fn law_hosts_run_their_lobby(host: HostView, now: int, event: EventView)
    ensures
        ({
            let step = host.lobby.apply(now, host.rng, event);
            let after = host.applied(now, event);
            &&& after.host.lobby == step.lobby
            &&& after.host.code == host.code
            &&& after.host.me == host.me
            &&& after.host.next_id == host.next_id
            &&& after == dispatched(
                HostView { lobby: step.lobby, rng: step.rng, ..host },
                now,
                step.outs,
            )
        }),
{
    let step = host.lobby.apply(now, host.rng, event);
    lemma_dispatch_keeps_names(
        HostView { lobby: step.lobby, rng: step.rng, ..host },
        now,
        step.outs,
    );
    lemma_dispatch_keeps_lobby(
        HostView { lobby: step.lobby, rng: step.rng, ..host },
        now,
        step.outs,
    );
}

proof fn lemma_dispatch_keeps_names(host: HostView, now: int, outs: Seq<OutView>)
    ensures
        ({
            let after = dispatched(host, now, outs).host;
            after.code == host.code && after.me == host.me && after.next_id == host.next_id
        }),
    decreases outs.len(),
{
    if outs.len() > 0 {
        lemma_dispatch_keeps_names(host, now, outs.drop_last());
    }
}

/// A host opens an empty lobby under its code, is player 1 and gives out ids from 2 on. It
/// has a seat beside those who join, and no lobby has more than twelve.
pub proof fn law_hosts_open_a_lobby(code: Seq<char>, max_joiners: int, rng: RngView)
    ensures
        ({
            let host = HostView::opened(code, max_joiners, rng);
            &&& host.code == code
            &&& host.rng == rng
            &&& host.me == 1
            &&& host.next_id == 2
            &&& host.peers.len() == 0
            &&& host.unclaimed.len() == 0
            &&& host.current is None
            &&& host.open
            &&& host.lobby == LobbyView::opened(code, host.lobby.settings)
            &&& host.lobby.settings.intermission_ms == 8000
            &&& host.lobby.settings.grace_ms == 60_000
            &&& host.lobby.settings.mutator is None
            &&& max_joiners <= 11 ==> host.lobby.settings.max_players == max_joiners + 1
            &&& max_joiners > 11 ==> host.lobby.settings.max_players == 12
        }),
{
}

/// A channel that is let in waits behind those that wait already, and nothing else changes.
pub proof fn law_channels_wait_to_be_claimed(host: HostView, chan: u64)
    ensures
        ({
            let after = host.letting_in(chan);
            &&& after.unclaimed == host.unclaimed + seq![chan]
            &&& after == (HostView { unclaimed: after.unclaimed, ..host })
        }),
{
    assert(host.letting_in(chan).unclaimed =~= host.unclaimed + seq![chan]);
}

/// The host stops looking for joiners when its room is gone, and says so. Any other failure
/// passes.
pub proof fn law_failures_to_poll_pass(host: HostView, e: ErrorView)
    ensures
        e.missing() ==> host.after_failure(e) == (
            HostView { open: false, ..host },
            Some("The lobby expired."@),
        ),
        !e.missing() ==> host.after_failure(e) == (host, None::<Seq<char>>),
{
}

/// The host is told of a lobby that holds fewer than twelve, with how many it holds, their
/// own seat among them.
pub proof fn law_small_lobbies_are_announced(max_joiners: nat)
    ensures
        max_joiners < 11 ==> seats_told(max_joiners as int) == Some(
            "This lobby holds "@ + decimal(max_joiners + 1) + " players."@,
        ),
        max_joiners >= 11 ==> seats_told(max_joiners as int) is None,
{
}

/// How long the server waits at `now` for something due at `at_ms`.
pub open spec fn is_long_wait(delay_ms: int, at_ms: int, now: int) -> bool {
    &&& at_ms >= now ==> now + delay_ms == at_ms
    &&& at_ms < now ==> delay_ms == 0
}

/// The server did one more thing and nothing else.
pub open spec fn adds(before: Delivery, after: Delivery, a: ActionView) -> bool {
    after == (Delivery { actions: before.actions.push(a), ..before })
}

/// The server's timers are on time and name their lobby.
pub proof fn law_server_timers_are_on_time(
    before: Delivery,
    code: Seq<char>,
    pending: Option<u64>,
    now: int,
    at_ms: int,
    timer: TimerView,
)
    ensures
        ({
            let after = before.deliver(code, pending, now, OutView::Schedule { at_ms, timer });
            &&& after.actions.len() > 0
            &&& after.actions.last() matches ActionView::Wake { code: c, delay_ms, timer: t } && c
                == code && t == timer && is_long_wait(delay_ms, at_ms, now)
            &&& adds(before, after, after.actions.last())
        }),
{
}

/// The timer asked for is set for this lobby, and on time.
pub open spec fn sets_long_timer(a: ActionView, code: Seq<char>, out: OutView, now: int) -> bool {
    match (a, out) {
        (
            ActionView::Wake { code: c, delay_ms, timer: t },
            OutView::Schedule { at_ms, timer },
        ) => c == code && t == timer && is_long_wait(delay_ms, at_ms, now),
        _ => false,
    }
}

/// Every timer that a lobby asks for is set, and is on time.
pub proof fn law_server_sets_every_timer(
    sockets: Seq<(u32, u64)>,
    code: Seq<char>,
    pending: Option<u64>,
    now: int,
    outs: Seq<OutView>,
    k: int,
)
    requires
        0 <= k < outs.len(),
        outs[k] is Schedule,
    ensures
        ({
            let after = delivered(sockets, code, pending, now, outs);
            exists|m: int|
                0 <= m < after.actions.len() && sets_long_timer(
                    #[trigger] after.actions[m],
                    code,
                    outs[k],
                    now,
                )
        }),
    decreases outs.len(),
{
    let fewer = outs.drop_last();
    let before = delivered(sockets, code, pending, now, fewer);
    let after = delivered(sockets, code, pending, now, outs);
    if k < fewer.len() {
        law_server_sets_every_timer(sockets, code, pending, now, fewer, k);
        let m = choose|m: int|
            0 <= m < before.actions.len() && sets_long_timer(
                #[trigger] before.actions[m],
                code,
                outs[k],
                now,
            );
        assert(after.actions[m] == before.actions[m]);
    } else {
        let m = after.actions.len() - 1;
        assert(sets_long_timer(after.actions[m], code, outs[k], now));
    }
}

/// The server delivers all that a lobby asks for, one by one and in order.
pub proof fn law_server_delivers_everything(
    sockets: Seq<(u32, u64)>,
    code: Seq<char>,
    pending: Option<u64>,
    now: int,
    outs: Seq<OutView>,
    out: OutView,
)
    ensures
        ({
            let nothing = delivered(sockets, code, pending, now, Seq::empty());
            &&& nothing.sockets == sockets
            &&& nothing.actions.len() == 0
            &&& nothing.bound is None
            &&& nothing.unbound.len() == 0
            &&& !nothing.empty
        }),
        delivered(sockets, code, pending, now, outs.push(out)) == delivered(
            sockets,
            code,
            pending,
            now,
            outs,
        ).deliver(code, pending, now, out),
{
    assert(outs.push(out).drop_last() =~= outs);
}

/// A message to a player reaches them and nobody else: over their own connection, or, before
/// they have one, over the connection that is asking. An answer goes to that one.
pub proof fn law_server_messages_arrive(
    before: Delivery,
    code: Seq<char>,
    pending: Option<u64>,
    now: int,
    id: int,
    msg: ServerMsgView,
    i: int,
)
    ensures
        ({
            let after = before.deliver(code, pending, now, OutView::To(id, msg));
            &&& reaches(before.sockets, id, i) ==> adds(
                before,
                after,
                ActionView::Send { conns: seq![before.sockets[i].1], msg },
            )
            &&& is_unreached(before.sockets, id) && pending is Some ==> adds(
                before,
                after,
                ActionView::Send { conns: seq![pending->0], msg },
            )
            &&& is_unreached(before.sockets, id) && pending is None ==> after == before
        }),
        ({
            let after = before.deliver(code, pending, now, OutView::Reply(msg));
            &&& pending is Some ==> adds(
                before,
                after,
                ActionView::Send { conns: seq![pending->0], msg },
            )
            &&& pending is None ==> after == before
        }),
{
    if reaches(before.sockets, id, i) {
        lemma_reaches(before.sockets, id, i);
    }
    if is_unreached(before.sockets, id) {
        lemma_unreached(before.sockets, id);
    }
}

/// What is for all reaches every connection of the lobby, in order. Before a round is
/// announced its world is laid out.
pub proof fn law_server_tells_all(
    before: Delivery,
    code: Seq<char>,
    pending: Option<u64>,
    now: int,
    msg: ServerMsgView,
)
    ensures
        ({
            let after = before.deliver(code, pending, now, OutView::All(msg));
            let n = before.actions.len() as int;
            let last = after.actions.len() - 1;
            &&& before == (Delivery { actions: before.actions, ..after })
            &&& after.actions.take(n) == before.actions
            &&& last == if msg is RoundStart {
                n + 1
            } else {
                n
            }
            &&& after.actions[last] matches ActionView::Send { conns, msg: told } && told == msg
                && conns.len() == before.sockets.len() && forall|k: int|
                0 <= k < conns.len() ==> #[trigger] conns[k] == before.sockets[k].1
            &&& msg matches ServerMsgView::RoundStart { seed, mutator, .. } ==> after.actions[n]
                == ActionView::LayOut { code, seed, mutator }
        }),
{
    let after = before.deliver(code, pending, now, OutView::All(msg));
    assert(after.actions.take(before.actions.len() as int) =~= before.actions);
}

/// Everyone else's links.
pub open spec fn not_of(id: int) -> spec_fn((u32, u64)) -> bool {
    |s: (u32, u64)| s.0 != id
}

/// Who takes a seat is reached over the connection that asked, from then on and by that
/// alone, and everyone else as before. Who gives their seat up is reached no more.
pub proof fn law_server_links_follow_seats(
    before: Delivery,
    code: Seq<char>,
    pending: Option<u64>,
    now: int,
    id: int,
)
    ensures
        ({
            let after = before.deliver(code, pending, now, OutView::Bound(id));
            &&& after.bound == Some(id)
            &&& after == (Delivery { bound: after.bound, sockets: after.sockets, ..before })
            &&& pending is None ==> after.sockets == before.sockets
            &&& pending is Some ==> after.sockets == before.sockets.filter(not_of(id)).push(
                (id as u32, pending->0),
            )
        }),
        ({
            let after = before.deliver(code, pending, now, OutView::Unbound(id));
            &&& after.unbound == before.unbound.push(id)
            &&& after.sockets == before.sockets.filter(not_of(id))
            &&& after == (Delivery { unbound: after.unbound, sockets: after.sockets, ..before })
        }),
        before.deliver(code, pending, now, OutView::Empty) == (Delivery { empty: true, ..before }),
{
    assert(is_other(id) =~= not_of(id));
}

/// Room `i` is the one of that code.
pub open spec fn is_room(server: ServerView, code: Seq<char>, i: int) -> bool {
    &&& 0 <= i < server.rooms.len()
    &&& server.rooms[i].lobby.code == code
    &&& forall|j: int| 0 <= j < i ==> (#[trigger] server.rooms[j]).lobby.code != code
}

/// No room has that code.
pub open spec fn is_free(server: ServerView, code: Seq<char>) -> bool {
    forall|j: int| 0 <= j < server.rooms.len() ==> (#[trigger] server.rooms[j]).lobby.code != code
}

proof fn lemma_is_room(server: ServerView, code: Seq<char>, i: int)
    requires
        is_room(server, code, i),
    ensures
        server.find(code) == Some(i),
{
    lemma_first(server.rooms, has_code(code), i);
}

proof fn lemma_is_free(server: ServerView, code: Seq<char>)
    ensures
        is_free(server, code) <==> server.find(code) is None,
{
    if is_free(server, code) {
        lemma_first_none(server.rooms, has_code(code));
    } else {
        let j = choose|j: int|
            0 <= j < server.rooms.len() && (#[trigger] server.rooms[j]).lobby.code == code;
        lemma_first_exists(server.rooms, has_code(code), j);
    }
}

/// An event happened in room `i` and nowhere else, and all that came of it was delivered
/// with `pending` at hand. The room is gone if nobody is left in it.
pub open spec fn happens_in(
    server: ServerView,
    i: int,
    now: int,
    event: EventView,
    pending: Option<u64>,
    after: ServerView,
    actions: Seq<ActionView>,
) -> bool {
    let room = server.rooms[i];
    let step = room.lobby.apply(now, server.rng, event);
    let d = delivered(room.sockets, room.lobby.code, pending, now, step.outs);
    &&& actions == d.actions
    &&& after.rng == step.rng
    &&& after.next_id == server.next_id
    &&& if step.lobby.players.len() == 0 {
        after.rooms == server.rooms.take(i) + server.rooms.skip(i + 1)
    } else {
        &&& after.rooms.len() == server.rooms.len()
        &&& after.rooms[i].lobby == step.lobby
        &&& after.rooms[i].sockets == d.sockets
        &&& forall|j: int|
            0 <= j < server.rooms.len() && j != i ==> #[trigger] after.rooms[j] == server.rooms[j]
    }
}

proof fn lemma_happens_in(
    server: ServerView,
    i: int,
    now: int,
    event: EventView,
    pending: Option<u64>,
)
    requires
        0 <= i < server.rooms.len(),
    ensures
        happens_in(
            server,
            i,
            now,
            event,
            pending,
            server.applied(i, now, event, pending),
            server.delivery(i, now, event, pending).actions,
        ),
{
    law_empty_lobbies_are_dropped(server, i, now, event, pending);
    assert(server.rooms.remove(i) =~= server.rooms.take(i) + server.rooms.skip(i + 1));
}

/// A message is passed on to room `i`, as from the player of that session or from a
/// stranger, with an id that was not given out before and a token drawn for the purpose.
/// The sender has a session in that lobby if it gave them a seat, has none if it took their
/// seat, and otherwise the one they had.
pub open spec fn is_passed_on(
    server: ServerView,
    i: int,
    now: int,
    conn: u64,
    session: Option<(Seq<char>, int)>,
    msg: ClientMsgView,
    ranges: RangesView,
    served: Served,
) -> bool {
    let event = EventView::Client {
        from: if session is Some {
            Some((session->0).1)
        } else {
            None
        },
        msg,
        id: server.next_id as int,
        token: token_text(server.rng),
        ranges,
    };
    let code = server.rooms[i].lobby.code;
    let ready = ServerView {
        next_id: served.server.next_id,
        rng: server.rng.after(3),
        ..server
    };
    let outs = ready.rooms[i].lobby.apply(now, ready.rng, event).outs;
    &&& is_next(server.next_id, served.server.next_id)
    &&& happens_in(ready, i, now, event, Some(conn), served.server, served.actions)
    &&& if outs.len() > 0 && outs[0] is Bound {
        served.session == Some((code, outs[0]->Bound_0))
    } else if outs.len() > 0 && outs[0] is Unbound {
        served.session is None
    } else {
        served.session == session
    }
}

/// Seats are given and taken first of all, at most one at a time, and taken only of whoever
/// asked.
proof fn lemma_seats_come_first(
    lobby: LobbyView,
    now: int,
    rng: RngView,
    from: Option<int>,
    msg: ClientMsgView,
    id: int,
    token: Seq<char>,
    ranges: RangesView,
)
    ensures
        ({
            let outs = lobby.apply(
                now,
                rng,
                EventView::Client { from, msg, id, token, ranges },
            ).outs;
            &&& forall|k: int|
                1 <= k < outs.len() ==> !(#[trigger] outs[k] is Bound) && !(outs[k] is Unbound)
            &&& outs.len() > 0 && outs[0] is Unbound ==> from == Some(outs[0]->Unbound_0)
        }),
{
}

proof fn lemma_delivered_seats(
    sockets: Seq<(u32, u64)>,
    code: Seq<char>,
    pending: Option<u64>,
    now: int,
    outs: Seq<OutView>,
)
    requires
        forall|k: int|
            1 <= k < outs.len() ==> !(#[trigger] outs[k] is Bound) && !(outs[k] is Unbound),
    ensures
        ({
            let d = delivered(sockets, code, pending, now, outs);
            &&& d.bound == if outs.len() > 0 && outs[0] is Bound {
                Some(outs[0]->Bound_0)
            } else {
                None
            }
            &&& d.unbound == if outs.len() > 0 && outs[0] is Unbound {
                seq![outs[0]->Unbound_0]
            } else {
                Seq::empty()
            }
        }),
    decreases outs.len(),
{
    if outs.len() > 0 {
        let fewer = outs.drop_last();
        assert forall|k: int| 1 <= k < fewer.len() implies !(#[trigger] fewer[k] is Bound) && !(
        fewer[k] is Unbound) by {
            assert(fewer[k] == outs[k]);
        }
        lemma_delivered_seats(sockets, code, pending, now, fewer);
        assert(outs.last() == outs[outs.len() - 1]);
        assert(Seq::<int>::empty().push(outs[0]->Unbound_0) =~= seq![outs[0]->Unbound_0]);
    }
}

proof fn lemma_passed_on(
    server: ServerView,
    i: int,
    now: int,
    conn: u64,
    session: Option<(Seq<char>, int)>,
    msg: ClientMsgView,
    ranges: RangesView,
)
    requires
        0 <= i < server.rooms.len(),
    ensures
        is_passed_on(
            server,
            i,
            now,
            conn,
            session,
            msg,
            ranges,
            server.passed_on(i, now, conn, session, msg, ranges),
        ),
{
    let event = server.raised(session, msg, ranges);
    let served = server.passed_on(i, now, conn, session, msg, ranges);
    let ready = ServerView {
        next_id: served.server.next_id,
        rng: server.rng.after(3),
        ..server
    };
    lemma_happens_in(ready, i, now, event, Some(conn));
    let room = server.rooms[i];
    let step = room.lobby.apply(now, ready.rng, event);
    let from = if session is Some {
        Some((session->0).1)
    } else {
        None
    };
    lemma_seats_come_first(
        room.lobby,
        now,
        ready.rng,
        from,
        msg,
        server.next_id as int,
        token_text(server.rng),
        ranges,
    );
    lemma_delivered_seats(room.sockets, room.lobby.code, Some(conn), now, step.outs);
    if step.outs.len() > 0 && step.outs[0] is Unbound {
        assert(seq![step.outs[0]->Unbound_0][0] == step.outs[0]->Unbound_0);
    }
}

/// Only this connection is told, and only that it is refused. Nothing changed.
pub open spec fn is_turned_away(
    server: ServerView,
    conn: u64,
    message: Seq<char>,
    served: Served,
) -> bool {
    &&& served.server == server
    &&& served.session is None
    &&& served.actions == seq![
        ActionView::Send { conns: seq![conn], msg: ServerMsgView::Error { message } },
    ]
}

/// Who has a session speaks in its lobby, whatever they say.
pub proof fn law_members_speak_in_their_lobby(
    server: ServerView,
    now: int,
    conn: u64,
    code: Seq<char>,
    id: int,
    i: int,
    msg: ClientMsgView,
    ranges: RangesView,
    settings: SettingsView,
    tries: nat,
)
    requires
        is_room(server, code, i),
    ensures
        is_passed_on(
            server,
            i,
            now,
            conn,
            Some((code, id)),
            msg,
            ranges,
            server.handled(now, conn, Some((code, id)), msg, ranges, settings, tries),
        ),
{
    lemma_is_room(server, code, i);
    lemma_passed_on(server, i, now, conn, Some((code, id)), msg, ranges);
}

/// Strangers join or rejoin the lobby whose code they give, and are refused if there is none.
pub proof fn law_strangers_enter_by_code(
    server: ServerView,
    now: int,
    conn: u64,
    code: Seq<char>,
    given: Seq<char>,
    i: int,
    ranges: RangesView,
    settings: SettingsView,
    tries: nat,
)
    ensures
        ({
            let msg = ClientMsgView::Join { code, name: given };
            let served = server.handled(now, conn, None, msg, ranges, settings, tries);
            &&& is_room(server, code_meant(code), i) ==> is_passed_on(
                server,
                i,
                now,
                conn,
                None,
                msg,
                ranges,
                served,
            )
            &&& is_free(server, code_meant(code)) ==> is_turned_away(
                server,
                conn,
                "lobby not found"@,
                served,
            )
        }),
        ({
            let msg = ClientMsgView::Rejoin { code, token: given };
            let served = server.handled(now, conn, None, msg, ranges, settings, tries);
            &&& is_room(server, code_meant(code), i) ==> is_passed_on(
                server,
                i,
                now,
                conn,
                None,
                msg,
                ranges,
                served,
            )
            &&& is_free(server, code_meant(code)) ==> is_turned_away(
                server,
                conn,
                "session expired"@,
                served,
            )
        }),
{
    lemma_is_free(server, code_meant(code));
    if is_room(server, code_meant(code), i) {
        lemma_is_room(server, code_meant(code), i);
        let join = ClientMsgView::Join { code, name: given };
        let rejoin = ClientMsgView::Rejoin { code, token: given };
        lemma_passed_on(server, i, now, conn, None, join, ranges);
        lemma_passed_on(server, i, now, conn, None, rejoin, ranges);
    }
}

/// Strangers have nothing to leave, to click on, to set up or to start.
pub proof fn law_strangers_do_nothing_else(
    server: ServerView,
    now: int,
    conn: u64,
    msg: ClientMsgView,
    ranges: RangesView,
    settings: SettingsView,
    tries: nat,
)
    ensures
        ({
            let served = server.handled(now, conn, None, msg, ranges, settings, tries);
            &&& msg is Leave || msg is Click ==> served.server == server && served.session is None
                && served.actions.len() == 0
            &&& msg is Configure || msg is Start ==> is_turned_away(
                server,
                conn,
                "not in a lobby"@,
                served,
            )
        }),
{
}

/// A new lobby has the first code drawn that no other has, out of as many draws as may be
/// tried, and whoever asked for it is the first to enter it. If every one of those is taken
/// they are refused, and no lobby is opened.
pub proof fn law_new_lobbies_have_the_first_free_code(
    server: ServerView,
    now: int,
    conn: u64,
    name: Seq<char>,
    ranges: RangesView,
    settings: SettingsView,
    tries: nat,
    k: nat,
)
    requires
        forall|j: nat|
            j < k ==> !is_free(server, #[trigger] code_text(server.rng.after(4 * j))),
        k <= tries,
        k < tries ==> is_free(server, code_text(server.rng.after(4 * k))),
    ensures
        ({
            let msg = ClientMsgView::Create { name };
            let served = server.handled(now, conn, None, msg, ranges, settings, tries);
            if k < tries {
                let code = code_text(server.rng.after(4 * k));
                let opened = RoomView {
                    lobby: LobbyView::opened(code, settings),
                    sockets: Seq::empty(),
                };
                is_passed_on(
                    ServerView {
                        rooms: server.rooms.push(opened),
                        rng: server.rng.after(4 * k + 4),
                        ..server
                    },
                    server.rooms.len() as int,
                    now,
                    conn,
                    None,
                    msg,
                    ranges,
                    served,
                )
            } else {
                is_turned_away(
                    ServerView { rng: server.rng.after(4 * k), ..server },
                    conn,
                    "no lobby code is free"@,
                    served,
                )
            }
        }),
{
    lemma_free_code(server, server.rng, tries, k, 0);
    let msg = ClientMsgView::Create { name };
    if k < tries {
        let code = code_text(server.rng.after(4 * k));
        lemma_passed_on(
            ServerView {
                rooms: server.rooms.push(RoomView::opened(code, settings)),
                rng: server.rng.after(4 * k + 4),
                ..server
            },
            server.rooms.len() as int,
            now,
            conn,
            None,
            msg,
            ranges,
        );
    }
}

proof fn lemma_after_after(rng: RngView, a: nat, b: nat)
    ensures
        rng.after(a).after(b) == rng.after(a + b),
    decreases b,
{
    if b > 0 {
        lemma_after_after(rng, a, (b - 1) as nat);
    }
}

proof fn lemma_free_code(server: ServerView, rng: RngView, tries: nat, k: nat, from: nat)
    requires
        from <= k <= tries,
        forall|j: nat| j < k ==> !is_free(server, #[trigger] code_text(rng.after(4 * j))),
        k < tries ==> is_free(server, code_text(rng.after(4 * k))),
    ensures
        server.free_code(rng.after(4 * from), (tries - from) as nat) == if k < tries {
            (Some(code_text(rng.after(4 * k))), rng.after(4 * k + 4))
        } else {
            (None, rng.after(4 * k))
        },
    decreases k - from,
{
    lemma_is_free(server, code_text(rng.after(4 * from)));
    lemma_after_after(rng, 4 * from, 4);
    if from < k {
        assert(!is_free(server, code_text(rng.after(4 * from))));
        lemma_free_code(server, rng, tries, k, from + 1);
        assert(rng.after(4 * from).after(4) == rng.after(4 * (from + 1)));
    }
}

/// A timer fires in the lobby it was set for, and nowhere if that is gone.
pub proof fn law_timers_fire_in_their_lobby(
    server: ServerView,
    now: int,
    code: Seq<char>,
    timer: TimerView,
    i: int,
)
    ensures
        ({
            let served = server.fired(now, code, timer);
            let event = EventView::Fired(timer);
            &&& is_room(server, code, i) ==> happens_in(
                server,
                i,
                now,
                event,
                None,
                served.server,
                served.actions,
            )
            &&& is_free(server, code) ==> served.server == server && served.actions.len() == 0
        }),
{
    lemma_is_free(server, code);
    if is_room(server, code, i) {
        lemma_is_room(server, code, i);
        lemma_happens_in(server, i, now, EventView::Fired(timer), None);
    }
}

/// When a connection is lost its player has dropped, in their own lobby. A connection
/// without a session is lost to nobody.
pub proof fn law_lost_connections_drop_their_player(
    server: ServerView,
    now: int,
    conn: u64,
    code: Seq<char>,
    id: int,
    i: int,
)
    ensures
        ({
            let served = server.hung_up(now, conn, Some((code, id)));
            &&& served.session is None
            &&& is_room(server, code, i) ==> happens_in(
                server,
                i,
                now,
                EventView::Dropped(id),
                Some(conn),
                served.server,
                served.actions,
            )
            &&& is_free(server, code) ==> served.server == server && served.actions.len() == 0
        }),
        ({
            let served = server.hung_up(now, conn, None);
            &&& served.session is None
            &&& served.server == server
            &&& served.actions.len() == 0
        }),
{
    lemma_is_free(server, code);
    if is_room(server, code, i) {
        lemma_is_room(server, code, i);
        lemma_happens_in(server, i, now, EventView::Dropped(id), Some(conn));
    }
}

/// The world is laid out in the lobby it was built for, and in no other.
pub proof fn law_worlds_are_laid_out_in_their_lobby(
    server: ServerView,
    code: Seq<char>,
    waldo: Spot,
    cast: Seq<(Seq<char>, Spot)>,
    i: int,
)
    ensures
        is_free(server, code) ==> server.laid_out(code, waldo, cast) == server,
        is_room(server, code, i) ==> ({
            let after = server.laid_out(code, waldo, cast);
            &&& after.next_id == server.next_id
            &&& after.rng == server.rng
            &&& after.rooms.len() == server.rooms.len()
            &&& after.rooms[i].sockets == server.rooms[i].sockets
            &&& after.rooms[i].lobby == (LobbyView { waldo, cast, ..server.rooms[i].lobby })
            &&& forall|j: int|
                0 <= j < server.rooms.len() && j != i ==> #[trigger] after.rooms[j]
                    == server.rooms[j]
        }),
{
    lemma_is_free(server, code);
    if is_room(server, code, i) {
        lemma_is_room(server, code, i);
    }
}

/// A message can be dealt with as long as the lobby it concerns goes on: that of the session,
/// the one whose code is given, or the one to be opened. Where there is none it always can.
pub proof fn law_servers_are_ready(
    server: ServerView,
    now: int,
    session: Option<(Seq<char>, int)>,
    msg: ClientMsgView,
    settings: SettingsView,
    code: Seq<char>,
    i: int,
)
    requires
        session matches Some((c, _)) ==> c == code,
        session is None ==> (msg matches ClientMsgView::Join { code: c, .. } ==> code_meant(c)
            == code),
        session is None ==> (msg matches ClientMsgView::Rejoin { code: c, .. } ==> code_meant(c)
            == code),
    ensures
        session is Some || msg is Join || msg is Rejoin ==> {
            &&& is_room(server, code, i) ==> (server.ready(now, session, msg, settings)
                <==> server.rooms[i].lobby.headroom(now))
            &&& is_free(server, code) ==> server.ready(now, session, msg, settings)
        },
        session is None && msg is Create ==> (server.ready(now, session, msg, settings) <==> now
            + settings.grace_ms <= u64::MAX && now + settings.intermission_ms <= u64::MAX && now
            + 300_000 <= u64::MAX),
        session is None && (msg is Leave || msg is Click || msg is Configure || msg is Start)
            ==> server.ready(now, session, msg, settings),
{
    lemma_is_free(server, code);
    if is_room(server, code, i) {
        lemma_is_room(server, code, i);
    }
}

/// Two clock readings that differ give streams of different seeds, to a server and to a host.
pub proof fn law_clocks_seed_their_streams(a: u64, b: u64, subsec_nanos: u32)
    requires
        a != b,
    ensures
        clock_seed(a, subsec_nanos) != clock_seed(b, subsec_nanos),
        clock_seed(a, 0) == a,
        host_seed(a) != host_seed(b),
        host_seed(host_seed(a)) == a,
{
    let t = (subsec_nanos as u64) << 17;
    assert(a ^ t != b ^ t) by (bit_vector)
        requires
            a != b,
    ;
    assert(a ^ (0u64 << 17) == a) by (bit_vector);
    assert(a ^ 0x9e3779b97f4a7c15 != b ^ 0x9e3779b97f4a7c15 && (a ^ 0x9e3779b97f4a7c15)
        ^ 0x9e3779b97f4a7c15 == a) by (bit_vector)
        requires
            a != b,
    ;
}

} // verus!
