//! The lobby rules, driven directly. No sockets, no runtime, no real clock.

use waldo_core::lobby::{Event, Lobby, Out, Ranges, Settings, Timer};
use waldo_core::model::Phase;
use waldo_core::protocol::{ClientMsg, ServerMsg, Spot};
use waldo_core::rng::Rng;
use waldo_core::scoring::{rank_points, MISS_PENALTY};

/// A lobby plus the bookkeeping a transport would normally own: the clock, the id
/// counter, the rng and the world of the round.
struct Harness {
    lobby: Lobby,
    rng: Rng,
    now: u64,
    next_id: u32,
}

fn spot(p: [f32; 3]) -> Spot {
    Spot { x: p[0].to_bits(), y: p[1].to_bits(), z: p[2].to_bits() }
}

fn distance(a: Spot, b: Spot) -> u32 {
    let d = |p: u32, q: u32| f32::from_bits(p) - f32::from_bits(q);
    let (x, y, z) = (d(a.x, b.x), d(a.y, b.y), d(a.z, b.z));
    (x * x + y * y + z * z).sqrt().to_bits()
}

impl Harness {
    fn new(settings: Settings) -> Self {
        Harness {
            lobby: Lobby::new("TEST".to_string(), settings),
            rng: Rng::new(0xC0FFEE),
            now: 1_000_000,
            next_id: 1,
        }
    }

    fn fixed_mutator() -> Self {
        Harness::new(Settings { mutator: Some(String::new()), ..Settings::default() })
    }

    /// How far a click falls from everyone on the planet.
    fn measure(&self, msg: &ClientMsg) -> Ranges {
        match msg {
            ClientMsg::Click { pos } => Ranges {
                waldo: distance(*pos, self.lobby.waldo()),
                cast: self.lobby.cast().iter().map(|(_, at)| distance(*pos, *at)).collect(),
            },
            _ => Ranges { waldo: 0, cast: Vec::new() },
        }
    }

    fn apply(&mut self, event: Event) -> Vec<Out> {
        assert!(self.lobby.has_headroom(self.now));
        let outs = self.lobby.apply(self.now, &mut self.rng, event);
        for m in messages(&outs) {
            if let ServerMsg::RoundStart { seed, mutator, .. } = m {
                let cast = cast_at(*seed);
                self.lobby.lay_out(spot(waldo_at(*seed, mutator)), cast);
            }
        }
        outs
    }

    /// A message from an established player.
    fn from(&mut self, id: u32, msg: ClientMsg) -> Vec<Out> {
        let next = self.next_id;
        let ranges = self.measure(&msg);
        self.apply(Event::Client {
            from: Some(id),
            msg,
            id: next,
            token: format!("t{}", next),
            ranges,
        })
    }

    /// A message from a connection with no player yet. Returns the id it was bound
    /// to, and everything the machine emitted.
    fn fresh(&mut self, msg: ClientMsg) -> (Option<u32>, Vec<Out>) {
        let id = self.next_id;
        self.next_id += 1;
        let ranges = self.measure(&msg);
        let outs =
            self.apply(Event::Client { from: None, msg, id, token: format!("t{}", id), ranges });
        let bound = outs.iter().find_map(|o| match o {
            Out::Bound(id) => Some(*id),
            _ => None,
        });
        (bound, outs)
    }

    fn create(&mut self, name: &str) -> u32 {
        let (bound, _) = self.fresh(ClientMsg::Create { name: name.into() });
        bound.expect("create binds a player")
    }

    fn join(&mut self, name: &str) -> Option<u32> {
        let (bound, _) = self.fresh(ClientMsg::Join { code: "TEST".into(), name: name.into() });
        bound
    }

    fn advance(&mut self, ms: u64) {
        self.now += ms;
    }

    fn fire(&mut self, timer: Timer) -> Vec<Out> {
        self.apply(Event::Fired(timer))
    }

    fn dropped(&mut self, id: u32) -> Vec<Out> {
        self.apply(Event::Dropped(id))
    }
}

fn messages(outs: &[Out]) -> Vec<&ServerMsg> {
    outs.iter()
        .filter_map(|o| match o {
            Out::To(_, m) | Out::Reply(m) | Out::All(m) => Some(m),
            _ => None,
        })
        .collect()
}

fn scheduled(outs: &[Out]) -> Vec<(u64, Timer)> {
    outs.iter()
        .filter_map(|o| match o {
            Out::Schedule { at_ms, timer } => Some((*at_ms, *timer)),
            _ => None,
        })
        .collect()
}

fn round_start(outs: &[Out]) -> (u32, String, u64) {
    for m in messages(outs) {
        if let ServerMsg::RoundStart { seed, mutator, ends_at_ms, .. } = m {
            return (*seed, mutator.clone(), *ends_at_ms);
        }
    }
    panic!("no round_start in {:?}", messages(outs));
}

fn errors(outs: &[Out]) -> Vec<String> {
    messages(outs)
        .into_iter()
        .filter_map(|m| match m {
            ServerMsg::Error { message } => Some(message.clone()),
            _ => None,
        })
        .collect()
}

fn verdict(outs: &[Out]) -> (String, i32, u32, u32) {
    messages(outs)
        .into_iter()
        .find_map(|m| match m {
            ServerMsg::ClickResult { target, points, round_score, misses } => {
                Some((target.clone(), *points, *round_score, *misses))
            }
            _ => None,
        })
        .expect("a verdict")
}

/// Where Waldo is this round, derived the way a client derives it: from the seed.
fn waldo_at(seed: u32, mutator: &str) -> [f32; 3] {
    let mut rng = Rng::new(seed as u64);
    let size = if mutator == "tiny" { 0.62 } else { 1.0 };
    let mut c = || (rng.unit() as f32 / (1 << 24) as f32 + 5.0) * size;
    [c(), c(), c()]
}

/// The cast stands on the other side of the planet, away from each other.
fn cast_at(seed: u32) -> Vec<(String, Spot)> {
    let w = waldo_at(seed, "");
    ["wenda", "odlaw", "woof", "wizard"]
        .iter()
        .enumerate()
        .map(|(i, role)| (role.to_string(), spot([-w[0], w[1] - 4.0 * i as f32, w[2]])))
        .collect()
}

#[test]
fn a_full_two_player_game() {
    let mut h = Harness::fixed_mutator();
    let alice = h.create("Alice");
    let bob = h.join("Bob").expect("bob joins");

    h.from(alice, ClientMsg::Configure { rounds: 1, round_secs: 60 });
    let outs = h.from(alice, ClientMsg::Start);
    let (seed, mutator, ends_at) = round_start(&outs);
    assert_eq!(ends_at, h.now + 60_000, "a 60s round ends 60s from now");
    assert_eq!(
        scheduled(&outs),
        vec![(h.now + 60_000, Timer::RoundEnd { gen: 1 })],
        "the round's end is the only thing scheduled"
    );

    // Alice finds Waldo, then Bob, which ends the round early
    let w = spot(waldo_at(seed, &mutator));
    let outs = h.from(alice, ClientMsg::Click { pos: w });
    let hit = messages(&outs)
        .into_iter()
        .find_map(|m| match m {
            ServerMsg::ClickResult { target, points, .. } => Some((target.clone(), *points)),
            _ => None,
        })
        .expect("a click result");
    assert_eq!(hit.0, "waldo");
    assert_eq!(hit.1, rank_points(1) as i32, "first finder gets rank 1 points");

    h.advance(2000);
    let outs = h.from(bob, ClientMsg::Click { pos: w });
    let results = messages(&outs)
        .into_iter()
        .find_map(|m| match m {
            ServerMsg::RoundResult { results, .. } => Some(results.clone()),
            _ => None,
        })
        .expect("everyone found Waldo, so the round ends without waiting for the clock");
    assert_eq!(results.len(), 2);
    assert_eq!(results[0].rank, 1, "results are ordered by score, Alice first");
    assert!(results[0].score > results[1].score);
    assert_eq!(results[1].time_ms, 2000, "Bob found him two seconds in");

    // the intermission timer ends the game, because that was the only round
    let (at, timer) = scheduled(&outs)[0];
    assert_eq!(at, h.now + 8000);
    h.advance(8000);
    let outs = h.fire(timer);
    assert!(
        messages(&outs).iter().any(|m| matches!(m, ServerMsg::GameOver { .. })),
        "one round configured, so the intermission ends the game"
    );
}

#[test]
fn the_round_clock_ends_the_round_when_nobody_finds_him() {
    let mut h = Harness::fixed_mutator();
    let alice = h.create("Alice");
    h.from(alice, ClientMsg::Configure { rounds: 2, round_secs: 30 });
    let outs = h.from(alice, ClientMsg::Start);
    let (_, timer) = scheduled(&outs)[0];

    h.advance(30_000);
    let outs = h.fire(timer);
    let results = messages(&outs)
        .into_iter()
        .find_map(|m| match m {
            ServerMsg::RoundResult { results, .. } => Some(results.clone()),
            _ => None,
        })
        .expect("the clock ends the round");
    assert!(!results[0].found, "nobody found him");
    assert_eq!(results[0].score, 0);
}

#[test]
fn a_stale_round_timer_is_ignored() {
    let mut h = Harness::fixed_mutator();
    let alice = h.create("Alice");
    h.from(alice, ClientMsg::Configure { rounds: 1, round_secs: 60 });
    let outs = h.from(alice, ClientMsg::Start);
    let (seed, mutator, _) = round_start(&outs);
    let (_, stale) = scheduled(&outs)[0];

    // Alice finds him, so the round already finished
    h.from(alice, ClientMsg::Click { pos: spot(waldo_at(seed, &mutator)) });

    let outs = h.fire(stale);
    assert!(
        messages(&outs).is_empty(),
        "the round already ended, so its timeout must do nothing: {:?}",
        messages(&outs)
    );
}

#[test]
fn a_dropped_player_keeps_their_seat_until_the_grace_period_expires() {
    let mut h = Harness::new(Settings {
        mutator: Some(String::new()),
        grace_ms: 5_000,
        ..Settings::default()
    });
    let alice = h.create("Alice");
    let bob = h.join("Bob").unwrap();
    h.from(alice, ClientMsg::Configure { rounds: 1, round_secs: 60 });
    h.from(alice, ClientMsg::Start);

    let outs = h.dropped(bob);
    let (at, grace) = scheduled(&outs)
        .into_iter()
        .find(|(_, t)| matches!(t, Timer::Grace { .. }))
        .expect("a grace timer");
    assert_eq!(at, h.now + 5_000);
    assert_eq!(h.lobby.player_count(), 2, "still holding Bob's seat");

    // Bob comes back before it fires, which invalidates the timer
    let (bound, outs) = h.fresh(ClientMsg::Rejoin { code: "TEST".into(), token: "t2".into() });
    assert_eq!(bound, Some(bob));
    assert!(
        messages(&outs).iter().any(|m| matches!(m, ServerMsg::Restore { .. })),
        "rejoining mid-round restores the round"
    );

    h.advance(5_000);
    h.fire(grace);
    assert_eq!(h.lobby.player_count(), 2, "the stale grace timer must not evict him");
}

#[test]
fn a_player_who_never_comes_back_is_removed() {
    let mut h = Harness::new(Settings {
        mutator: Some(String::new()),
        grace_ms: 5_000,
        ..Settings::default()
    });
    let alice = h.create("Alice");
    let bob = h.join("Bob").unwrap();

    let outs = h.dropped(bob);
    let (_, grace) =
        scheduled(&outs).into_iter().find(|(_, t)| matches!(t, Timer::Grace { .. })).unwrap();
    h.advance(5_000);
    let outs = h.fire(grace);
    assert!(
        outs.iter().any(|o| matches!(o, Out::Unbound(id) if *id == bob)),
        "the caller is told to forget his connection"
    );
    assert_eq!(h.lobby.player_count(), 1);
    assert!(h.lobby.player_count() > 0 && !h.lobby.is_empty());
    let _ = alice;
}

#[test]
fn leaving_is_immediate_and_frees_the_connection() {
    let mut h = Harness::fixed_mutator();
    let alice = h.create("Alice");
    let bob = h.join("Bob").unwrap();

    let outs = h.from(bob, ClientMsg::Leave);
    assert!(
        outs.iter().any(|o| matches!(o, Out::Unbound(id) if *id == bob)),
        "no grace period for a deliberate exit"
    );
    assert!(
        !scheduled(&outs).iter().any(|(_, t)| matches!(t, Timer::Grace { .. })),
        "and no grace timer either"
    );
    assert_eq!(h.lobby.player_count(), 1);
    let _ = alice;
}

#[test]
fn the_last_player_leaving_empties_the_lobby() {
    let mut h = Harness::fixed_mutator();
    let alice = h.create("Alice");
    let outs = h.from(alice, ClientMsg::Leave);
    assert!(outs.iter().any(|o| matches!(o, Out::Empty)), "the caller should drop the lobby");
    assert!(h.lobby.is_empty());
}

#[test]
fn only_the_host_may_configure_or_start() {
    let mut h = Harness::fixed_mutator();
    let _alice = h.create("Alice");
    let bob = h.join("Bob").unwrap();

    let outs = h.from(bob, ClientMsg::Configure { rounds: 9, round_secs: 10 });
    assert_eq!(errors(&outs), vec!["only the host can change settings"]);
    let outs = h.from(bob, ClientMsg::Start);
    assert_eq!(errors(&outs), vec!["only the host can start"]);
}

#[test]
fn a_full_lobby_and_a_game_in_progress_both_turn_joiners_away() {
    let mut h = Harness::new(Settings {
        mutator: Some(String::new()),
        max_players: 3,
        ..Settings::default()
    });
    let alice = h.create("Alice");
    assert!(h.join("Bob").is_some());
    assert!(h.join("Carol").is_some());

    let (bound, outs) = h.fresh(ClientMsg::Join { code: "TEST".into(), name: "Dave".into() });
    assert_eq!(bound, None);
    assert_eq!(errors(&outs), vec!["lobby is full"]);

    h.from(alice, ClientMsg::Start);
    let (bound, outs) = h.fresh(ClientMsg::Join { code: "TEST".into(), name: "Dave".into() });
    assert_eq!(bound, None);
    assert_eq!(errors(&outs), vec!["game already in progress"]);
}

#[test]
fn clicks_outside_a_round_are_ignored() {
    let mut h = Harness::fixed_mutator();
    let alice = h.create("Alice");
    let outs = h.from(alice, ClientMsg::Click { pos: spot([0.0, 0.0, 0.0]) });
    assert!(messages(&outs).is_empty(), "no round is running");

    h.from(alice, ClientMsg::Configure { rounds: 1, round_secs: 60 });
    let outs = h.from(alice, ClientMsg::Start);
    let (seed, mutator, _) = round_start(&outs);
    h.from(alice, ClientMsg::Click { pos: spot(waldo_at(seed, &mutator)) }); // ends the round

    let outs = h.from(alice, ClientMsg::Click { pos: spot([0.0, 0.0, 0.0]) });
    assert!(messages(&outs).is_empty(), "the round is over, so a click does nothing");
}

#[test]
fn a_miss_costs_and_waldo_is_only_worth_finding_once() {
    let mut h = Harness::fixed_mutator();
    let alice = h.create("Alice");
    h.join("Bob").unwrap(); // so finding Waldo does not end the round
    h.from(alice, ClientMsg::Configure { rounds: 1, round_secs: 60 });
    let outs = h.from(alice, ClientMsg::Start);
    let (seed, mutator, _) = round_start(&outs);
    let w = waldo_at(seed, &mutator);

    let far = spot([-w[0], -w[1], -w[2]]); // the other side of the planet
    let outs = h.from(alice, ClientMsg::Click { pos: far });
    let (target, points) = messages(&outs)
        .into_iter()
        .find_map(|m| match m {
            ServerMsg::ClickResult { target, points, .. } => Some((target.clone(), *points)),
            _ => None,
        })
        .expect("a verdict");
    assert_eq!(target, "miss");
    assert_eq!(points, -(MISS_PENALTY as i32));

    h.from(alice, ClientMsg::Click { pos: spot(w) });
    let outs = h.from(alice, ClientMsg::Click { pos: spot(w) });
    assert!(messages(&outs).is_empty(), "a second click on Waldo is ignored");
}

#[test]
fn a_second_create_on_a_bound_connection_is_refused() {
    let mut h = Harness::fixed_mutator();
    let alice = h.create("Alice");
    let outs = h.from(alice, ClientMsg::Create { name: "Again".into() });
    assert_eq!(errors(&outs), vec!["already in a lobby"]);
}

#[test]
fn every_player_gets_their_own_token_in_their_own_lobby_message() {
    let mut h = Harness::fixed_mutator();
    let alice = h.create("Alice");
    let bob = h.join("Bob").unwrap();
    let outs = h.from(alice, ClientMsg::Configure { rounds: 2, round_secs: 30 });

    let mut seen = Vec::new();
    for o in &outs {
        if let Out::To(id, ServerMsg::Lobby { you, token, players, .. }) = o {
            assert_eq!(id, you, "each lobby message names its own recipient");
            assert!(players.iter().any(|p| p.id == *you));
            seen.push((*id, token.clone()));
        }
    }
    assert_eq!(seen.len(), 2, "one per player, not one broadcast");
    assert_ne!(seen[0].1, seen[1].1, "tokens are private, so they must differ");
    assert!(seen.iter().any(|(id, _)| *id == alice));
    assert!(seen.iter().any(|(id, _)| *id == bob));
}

#[test]
fn the_host_is_the_first_player_and_survives_others_leaving() {
    let mut h = Harness::fixed_mutator();
    let alice = h.create("Alice");
    let bob = h.join("Bob").unwrap();
    let outs = h.from(bob, ClientMsg::Leave);
    let hosts: Vec<u32> = messages(&outs)
        .into_iter()
        .filter_map(|m| match m {
            ServerMsg::Lobby { players, .. } => players.iter().find(|p| p.is_host).map(|p| p.id),
            _ => None,
        })
        .collect();
    assert!(!hosts.is_empty());
    assert!(hosts.iter().all(|id| *id == alice), "Alice stays host");
}

#[test]
fn the_cast_counts_once_each_and_the_nearest_is_met() {
    let mut h = Harness::fixed_mutator();
    let alice = h.create("Alice");
    h.join("Bob").unwrap();
    let outs = h.from(alice, ClientMsg::Start);
    let (seed, _, _) = round_start(&outs);
    let cast = cast_at(seed);

    let outs = h.from(alice, ClientMsg::Click { pos: cast[0].1 });
    assert_eq!(verdict(&outs), ("wenda".to_string(), 100, 100, 0));
    let outs = h.from(alice, ClientMsg::Click { pos: cast[2].1 });
    assert_eq!(verdict(&outs), ("woof".to_string(), 150, 250, 0));
    let outs = h.from(alice, ClientMsg::Click { pos: cast[3].1 });
    assert_eq!(verdict(&outs), ("wizard".to_string(), 75, 325, 0));
    let outs = h.from(alice, ClientMsg::Click { pos: cast[1].1 });
    assert_eq!(verdict(&outs), ("odlaw".to_string(), -150, 175, 0));
    for (_, at) in &cast {
        assert!(messages(&h.from(alice, ClientMsg::Click { pos: *at })).is_empty());
    }

    // two in range: the nearer one, and the earlier one in a tie
    let near = Ranges { waldo: 9.0f32.to_bits(), cast: [1.1f32, 0.5, 0.5, 1.0].map(f32::to_bits).to_vec() };
    let outs = h.apply(Event::Client {
        from: Some(2),
        msg: ClientMsg::Click { pos: spot([0.0, 0.0, 0.0]) },
        id: 77,
        token: "x".to_string(),
        ranges: near,
    });
    assert_eq!(verdict(&outs).0, "odlaw");
    // out of range by a hair: a miss
    let far = Ranges { waldo: 1.2000002f32.to_bits(), cast: vec![1.2000002f32.to_bits(); 4] };
    let outs = h.apply(Event::Client {
        from: Some(2),
        msg: ClientMsg::Click { pos: spot([0.0, 0.0, 0.0]) },
        id: 78,
        token: "x".to_string(),
        ranges: far,
    });
    assert_eq!(verdict(&outs), ("miss".to_string(), -25, 0, 1));
}

#[test]
fn a_click_that_is_not_a_place_is_ignored() {
    let mut h = Harness::fixed_mutator();
    let alice = h.create("Alice");
    h.from(alice, ClientMsg::Start);
    let outs = h.from(alice, ClientMsg::Click { pos: spot([f32::NAN, 0.0, 0.0]) });
    assert!(messages(&outs).is_empty());
    let outs = h.from(99, ClientMsg::Click { pos: spot([0.0, 0.0, 0.0]) });
    assert!(messages(&outs).is_empty(), "nobody has that id");
}

#[test]
fn requests_are_refused_with_a_reason_and_change_nothing() {
    let mut h = Harness::fixed_mutator();
    let alice = h.create("Alice");
    let (_, outs) = h.fresh(ClientMsg::Start);
    assert_eq!(errors(&outs), vec!["not in a lobby"]);
    let (_, outs) = h.fresh(ClientMsg::Configure { rounds: 1, round_secs: 30 });
    assert_eq!(errors(&outs), vec!["not in a lobby"]);
    let (_, outs) = h.fresh(ClientMsg::Rejoin { code: "TEST".into(), token: "nope".into() });
    assert_eq!(errors(&outs), vec!["session expired"]);
    let outs = h.from(alice, ClientMsg::Join { code: "TEST".into(), name: "A".into() });
    assert_eq!(errors(&outs), vec!["already in a lobby"]);
    let outs = h.from(alice, ClientMsg::Rejoin { code: "TEST".into(), token: "t1".into() });
    assert_eq!(errors(&outs), vec!["already in a lobby"]);
    let (_, outs) = h.fresh(ClientMsg::Leave);
    assert!(outs.is_empty());
    assert_eq!(h.lobby.player_count(), 1);
    assert_eq!(h.lobby.phase(), Phase::Waiting);

    h.from(alice, ClientMsg::Start);
    assert_eq!(h.lobby.phase(), Phase::Playing);
    let outs = h.from(alice, ClientMsg::Start);
    assert_eq!(errors(&outs), vec!["game already running"]);
    let outs = h.from(alice, ClientMsg::Configure { rounds: 2, round_secs: 30 });
    assert_eq!(errors(&outs), vec!["cannot change settings mid-game"]);
    assert_eq!(outs.len(), 1);
    assert_eq!(h.lobby.code(), "TEST");
}

#[test]
fn coming_back_restores_your_own_progress() {
    let mut h = Harness::fixed_mutator();
    let alice = h.create("Alice");
    let bob = h.join("Bob").unwrap();
    let outs = h.from(alice, ClientMsg::Start);
    let (seed, _, ends) = round_start(&outs);
    let cast = cast_at(seed);
    h.from(bob, ClientMsg::Click { pos: cast[0].1 });
    h.from(bob, ClientMsg::Click { pos: spot([50.0, 50.0, 50.0]) });
    h.dropped(bob);
    let (_, outs) = h.fresh(ClientMsg::Rejoin { code: "TEST".into(), token: "t2".into() });
    let restore = outs.iter().find_map(|o| match o {
        Out::To(id, ServerMsg::Restore { round, total_rounds, seed, round_secs, mutator, ends_at_ms, found_rank, misses, wenda, woof, wizard, odlaw }) => Some((
            *id, *round, *total_rounds, *seed, *round_secs, mutator.clone(), *ends_at_ms,
            *found_rank, *misses, *wenda, *woof || *wizard || *odlaw,
        )),
        _ => None,
    });
    assert_eq!(
        restore,
        Some((bob, 1, 3, seed, 90, String::new(), ends, 0, 1, true, false))
    );
}

#[test]
fn a_game_has_the_rounds_it_was_given_and_the_best_total_wins() {
    let mut h = Harness::fixed_mutator();
    let alice = h.create("Alice");
    let bob = h.join("Bob").unwrap();
    h.from(alice, ClientMsg::Configure { rounds: 2, round_secs: 60 });
    let mut outs = h.from(alice, ClientMsg::Start);
    for round in 1..=2 {
        let (seed, mutator, _) = round_start(&outs);
        let w = spot(waldo_at(seed, &mutator));
        h.from(bob, ClientMsg::Click { pos: w });
        let ended = h.from(alice, ClientMsg::Click { pos: w });
        let results = messages(&ended)
            .into_iter()
            .find_map(|m| match m {
                ServerMsg::RoundResult { round: r, results, waldo, .. } => {
                    assert_eq!((*r, *waldo), (round, w));
                    Some(results.clone())
                }
                _ => None,
            })
            .unwrap();
        assert_eq!(results[0].name, "Bob");
        assert_eq!((results[0].score, results[0].total), (1000, 1000 * round));
        assert_eq!((results[1].score, results[1].total), (700, 700 * round));
        let (_, timer) = scheduled(&ended)[0];
        h.advance(8000);
        outs = h.fire(timer);
        assert!(h.fire(timer).is_empty(), "a timer does its work once");
    }
    let board = messages(&outs)
        .into_iter()
        .find_map(|m| match m {
            ServerMsg::GameOver { leaderboard } => Some(leaderboard.clone()),
            _ => None,
        })
        .expect("the last round is over");
    let lines: Vec<(u32, u32)> = board.iter().map(|s| (s.id, s.total)).collect();
    assert_eq!(lines, vec![(bob, 2000), (alice, 1400)]);
}

#[test]
fn equal_scores_keep_the_seating_order() {
    let mut h = Harness::fixed_mutator();
    let alice = h.create("Alice");
    h.join("Bob").unwrap();
    h.join("Carol").unwrap();
    let outs = h.from(alice, ClientMsg::Start);
    let (_, timer) = scheduled(&outs)[0];
    let outs = h.fire(timer);
    let names: Vec<String> = messages(&outs)
        .into_iter()
        .find_map(|m| match m {
            ServerMsg::RoundResult { results, .. } => {
                Some(results.iter().map(|r| r.name.clone()).collect())
            }
            _ => None,
        })
        .unwrap();
    assert_eq!(names, vec!["Alice", "Bob", "Carol"]);
}

#[test]
fn mutators_are_drawn_and_lightning_is_short() {
    let mut seen = std::collections::BTreeSet::new();
    for seed in 0..60u64 {
        let mut h = Harness::new(Settings::default());
        h.rng = Rng::new(seed);
        let alice = h.create("Alice");
        h.from(alice, ClientMsg::Configure { rounds: 1, round_secs: 300 });
        let mut mirror = h.rng.clone();
        let outs = h.from(alice, ClientMsg::Start);
        let (s, mutator, ends) = round_start(&outs);
        assert_eq!(s, mirror.next_u32());
        let expected = ["night", "lightning", "crowded", "tiny", "", "", "", "", ""][mirror.below(9)];
        assert_eq!(mutator, expected);
        let secs = if mutator == "lightning" { 100 } else { 300 };
        assert_eq!(ends, h.now + secs * 1000);
        seen.insert(mutator);
    }
    assert_eq!(seen.len(), 5);

    let mut h = Harness::new(Settings {
        mutator: Some("lightning".to_string()),
        ..Settings::default()
    });
    let alice = h.create("Alice");
    h.from(alice, ClientMsg::Configure { rounds: 1, round_secs: 30 });
    let outs = h.from(alice, ClientMsg::Start);
    let (_, _, ends) = round_start(&outs);
    assert_eq!(ends, h.now + 10_000);

    let mut h = Harness::new(Settings {
        mutator: Some("lightning".to_string()),
        ..Settings::default()
    });
    let alice = h.create("Alice");
    h.from(alice, ClientMsg::Configure { rounds: 1, round_secs: 180 });
    let outs = h.from(alice, ClientMsg::Start);
    assert_eq!(round_start(&outs).2, 1_060_000);
    let secs = messages(&outs).into_iter().find_map(|m| match m {
        ServerMsg::RoundStart { round_secs, .. } => Some(*round_secs),
        _ => None,
    });
    assert_eq!(secs, Some(60));
}

#[test]
fn a_dropped_straggler_ends_the_round() {
    let mut h = Harness::fixed_mutator();
    let alice = h.create("Alice");
    let bob = h.join("Bob").unwrap();
    let outs = h.from(alice, ClientMsg::Start);
    let (seed, mutator, _) = round_start(&outs);
    h.from(alice, ClientMsg::Click { pos: spot(waldo_at(seed, &mutator)) });
    let outs = h.dropped(bob);
    assert!(messages(&outs).iter().any(|m| matches!(m, ServerMsg::RoundResult { .. })));
    assert_eq!(h.lobby.phase(), Phase::Intermission);
}

#[test]
fn a_clock_at_its_end_leaves_no_headroom() {
    let h = Harness::fixed_mutator();
    assert!(h.lobby.has_headroom(1_000_000));
    assert!(!h.lobby.has_headroom(u64::MAX));
    assert!(Settings::default().fits(0));
    assert!(!Settings::default().fits(u64::MAX - 299_999));
}

#[test]
fn finders_rank_in_the_order_they_find_him() {
    let mut h = Harness::fixed_mutator();
    let alice = h.create("Alice");
    let others: Vec<u32> = (0..4).map(|i| h.join(&format!("P{}", i)).unwrap()).collect();
    let outs = h.from(alice, ClientMsg::Start);
    let (seed, mutator, _) = round_start(&outs);
    let w = spot(waldo_at(seed, &mutator));
    let mut points = Vec::new();
    for id in others.iter().rev() {
        points.push(verdict(&h.from(*id, ClientMsg::Click { pos: w })).1);
    }
    assert_eq!(points, vec![1000, 700, 550, 450]);
    let outs = h.from(alice, ClientMsg::Click { pos: w });
    let ranks: Vec<(u32, u32)> = messages(&outs)
        .into_iter()
        .find_map(|m| match m {
            ServerMsg::RoundResult { results, .. } => {
                Some(results.iter().map(|r| (r.id, r.rank)).collect())
            }
            _ => None,
        })
        .unwrap();
    assert_eq!(ranks, vec![(5, 1), (4, 2), (3, 3), (2, 4), (1, 5)]);
}

#[test]
fn every_message_has_someone_to_go_to() {
    let mut h = Harness::fixed_mutator();
    let alice = h.create("Alice");
    let bob = h.join("Bob").unwrap();
    let outs = h.from(bob, ClientMsg::Leave);
    for o in &outs {
        match o {
            Out::To(id, _) => assert_eq!(*id, alice),
            Out::Unbound(id) => assert_eq!(*id, bob),
            _ => {}
        }
    }
    let (_, outs) = h.fresh(ClientMsg::Start);
    assert!(matches!(&outs[..], [Out::Reply(ServerMsg::Error { .. })]));
    let (_, outs) = h.fresh(ClientMsg::Create { name: "Carol".into() });
    assert!(matches!(&outs[..], [Out::To(4, ServerMsg::Error { .. })]), "the id it was offered");
    let outs = h.from(alice, ClientMsg::Create { name: "Again".into() });
    assert!(matches!(&outs[..], [Out::To(5, ServerMsg::Error { .. })]), "seated or not");
    let outs = h.from(alice, ClientMsg::Rejoin { code: "TEST".into(), token: "t1".into() });
    assert!(matches!(&outs[..], [Out::Reply(ServerMsg::Error { .. })]));
}

#[test]
fn an_identity_is_for_newcomers_alone() {
    let mut h = Harness::fixed_mutator();
    let alice = h.create("Alice");
    let nowhere = Ranges { waldo: f32::MAX.to_bits(), cast: Vec::new() };
    let rejoin = ClientMsg::Rejoin { code: "TEST".into(), token: "nope".into() };
    for msg in [rejoin.clone(), ClientMsg::Start, ClientMsg::Configure { rounds: 1, round_secs: 60 }] {
        // an id that a seated player has must not send them somebody else's refusal
        for id in [alice, 77] {
            let outs = h.apply(Event::Client {
                from: None,
                msg: msg.clone(),
                id,
                token: "t".to_string(),
                ranges: nowhere.clone(),
            });
            assert!(matches!(&outs[..], [Out::Reply(ServerMsg::Error { .. })]));
        }
    }
    for id in [alice, 77] {
        let outs = h.apply(Event::Client {
            from: Some(alice),
            msg: rejoin.clone(),
            id,
            token: "t".to_string(),
            ranges: nowhere.clone(),
        });
        assert!(matches!(&outs[..], [Out::Reply(ServerMsg::Error { .. })]));
    }
    // where a seat is asked for, the answer goes by the identity that came with it
    let join = ClientMsg::Join { code: "TEST".into(), name: "A".into() };
    for msg in [join, ClientMsg::Create { name: "A".into() }] {
        let outs = h.apply(Event::Client {
            from: Some(alice),
            msg,
            id: 77,
            token: "t".to_string(),
            ranges: nowhere.clone(),
        });
        assert!(matches!(
            &outs[..],
            [Out::To(77, ServerMsg::Error { message })] if message == "already in a lobby"
        ));
    }
}

#[test]
fn a_finder_who_leaves_keeps_their_place_in_the_order() {
    let mut h = Harness::fixed_mutator();
    let alice = h.create("Alice");
    let others: Vec<u32> = (0..3).map(|i| h.join(&format!("P{}", i)).unwrap()).collect();
    h.from(alice, ClientMsg::Configure { rounds: 2, round_secs: 60 });
    let outs = h.from(alice, ClientMsg::Start);
    let (seed, mutator, _) = round_start(&outs);
    let w = spot(waldo_at(seed, &mutator));
    assert_eq!(verdict(&h.from(others[0], ClientMsg::Click { pos: w })).1, 1000);
    assert_eq!(verdict(&h.from(others[1], ClientMsg::Click { pos: w })).1, 700);
    h.from(others[0], ClientMsg::Leave);
    let outs = h.from(others[2], ClientMsg::Click { pos: w });
    assert_eq!(verdict(&outs).1, 550, "third to find him, though one has left");
    let counted = messages(&outs).into_iter().find_map(|m| match m {
        ServerMsg::PlayerFound { found, total, .. } => Some((*found, *total)),
        _ => None,
    });
    assert_eq!(counted, Some((2, 3)), "of those who are still here");
    let outs = h.from(alice, ClientMsg::Click { pos: w });
    let ranks: Vec<(u32, u32)> = messages(&outs)
        .into_iter()
        .find_map(|m| match m {
            ServerMsg::RoundResult { results, .. } => {
                Some(results.iter().map(|r| (r.id, r.rank)).collect())
            }
            _ => None,
        })
        .unwrap();
    assert_eq!(ranks, vec![(others[1], 2), (others[2], 3), (alice, 4)]);

    // the next round counts anew
    let (_, timer) = scheduled(&outs)[0];
    let outs = h.fire(timer);
    let (seed, mutator, _) = round_start(&outs);
    let w = spot(waldo_at(seed, &mutator));
    assert_eq!(verdict(&h.from(alice, ClientMsg::Click { pos: w })).1, 1000);
}
