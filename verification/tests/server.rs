//! The server's routing, and the host's in a browser, without sockets.

use waldo_core::lobby::{Ranges, Settings, Timer};
use waldo_core::netplay::{
    failure, seats_notice, seeded_rng as host_rng, Effect, Got, Host, Joiner, Next, ANSWER_ATTEMPTS,
};
use waldo_core::protocol::{ClientMsg, ServerMsg, Spot};
use waldo_core::rendezvous::Error;
use waldo_core::rng::Rng;
use waldo_core::server::{refusal, seeded_rng, Action, Server};

type Session = Option<(String, u32)>;

const NOW: u64 = 1_700_000_000_000;

fn settings() -> Settings {
    Settings { mutator: Some(String::new()), ..Settings::default() }
}

fn nowhere() -> Ranges {
    Ranges { waldo: f32::MAX.to_bits(), cast: Vec::new() }
}

fn on_waldo() -> Ranges {
    Ranges { waldo: 0, cast: Vec::new() }
}

fn handle(s: &mut Server, conn: u64, session: &mut Session, msg: ClientMsg) -> Vec<Action> {
    handle_at(s, conn, session, msg, nowhere())
}

fn handle_at(
    s: &mut Server,
    conn: u64,
    session: &mut Session,
    msg: ClientMsg,
    ranges: Ranges,
) -> Vec<Action> {
    assert!(s.is_ready(NOW, session, &msg, &settings()));
    s.handle(NOW, conn, session, msg, ranges, settings(), 1000)
}

fn sent(todo: &[Action]) -> Vec<(Vec<u64>, &ServerMsg)> {
    todo.iter()
        .filter_map(|a| match a {
            Action::Send { conns, msg } => Some((conns.clone(), msg)),
            _ => None,
        })
        .collect()
}

fn error_to(todo: &[Action]) -> Option<(Vec<u64>, String)> {
    sent(todo).into_iter().find_map(|(conns, m)| match m {
        ServerMsg::Error { message } => Some((conns, message.clone())),
        _ => None,
    })
}

fn create(s: &mut Server, conn: u64, name: &str) -> (Session, String) {
    let mut session = None;
    handle(s, conn, &mut session, ClientMsg::Create { name: name.to_string() });
    let code = session.clone().expect("a lobby").0;
    (session, code)
}

fn join(s: &mut Server, conn: u64, code: &str, name: &str) -> Session {
    let mut session = None;
    handle(s, conn, &mut session, ClientMsg::Join { code: code.to_string(), name: name.to_string() });
    session
}

#[test]
fn join_unknown_lobby_fails() {
    let mut s = Server::new(Rng::new(1));
    let mut session = None;
    let todo = handle(
        &mut s,
        7,
        &mut session,
        ClientMsg::Join { code: "ZZZZ".to_string(), name: "Nobody".to_string() },
    );
    assert_eq!(error_to(&todo), Some((vec![7], "lobby not found".to_string())));
    assert_eq!(session, None);
}

#[test]
fn messages_without_a_lobby_are_refused_or_ignored() {
    let mut s = Server::new(Rng::new(1));
    let mut session = None;
    let rejoin = ClientMsg::Rejoin { code: "ZZZZ".to_string(), token: "t".to_string() };
    let todo = handle(&mut s, 7, &mut session, rejoin);
    assert_eq!(error_to(&todo), Some((vec![7], "session expired".to_string())));
    let todo = handle(&mut s, 7, &mut session, ClientMsg::Start);
    assert_eq!(error_to(&todo), Some((vec![7], "not in a lobby".to_string())));
    assert!(handle(&mut s, 7, &mut session, ClientMsg::Leave).is_empty());
    let click = ClientMsg::Click { pos: Spot { x: 0, y: 0, z: 0 } };
    assert!(handle(&mut s, 7, &mut session, click).is_empty());
    let todo = refusal(9, "bad message");
    assert_eq!(error_to(&todo), Some((vec![9], "bad message".to_string())));
}

#[test]
fn a_lobby_is_found_however_its_code_is_typed() {
    let mut s = Server::new(Rng::new(3));
    let (alice, code) = create(&mut s, 1, "Alice");
    assert_eq!(alice.as_ref().unwrap().1, 1);
    assert!(s.has_room(&code) && code.len() == 4);
    let typed = format!("  {} ", code.to_lowercase());
    let bob = join(&mut s, 2, &typed, "Bob");
    assert_eq!(bob, Some((code.clone(), 2)));
    assert_eq!(s.lobby(&code).unwrap().player_count(), 2);
}

#[test]
fn the_code_is_the_first_free_one_drawn() {
    let mut s = Server::new(Rng::new(11));
    let mut mirror = Rng::new(11);
    let code: String = (0..4).map(|_| (b'A' + mirror.below(26) as u8) as char).collect();
    let (_, drawn) = create(&mut s, 1, "Alice");
    assert_eq!(drawn, code);
    // without a try there is no code, and the sender is told so
    let mut session = None;
    let create = ClientMsg::Create { name: "Bob".to_string() };
    let todo = s.handle(NOW, 2, &mut session, create, nowhere(), settings(), 0);
    assert_eq!(error_to(&todo), Some((vec![2], "no lobby code is free".to_string())));
    assert!(todo.len() == 1 && session.is_none());
}

#[test]
fn refusals_reach_the_connection_that_asked() {
    let mut s = Server::new(Rng::new(4));
    let (mut alice, code) = create(&mut s, 1, "Alice");
    let mut bob = join(&mut s, 2, &code, "Bob");
    let todo = handle(&mut s, 2, &mut bob, ClientMsg::Start);
    assert_eq!(error_to(&todo), Some((vec![2], "only the host can start".to_string())));
    assert_eq!(todo.len(), 1);
    let todo = handle(&mut s, 1, &mut alice, ClientMsg::Create { name: "A".to_string() });
    assert_eq!(error_to(&todo), Some((vec![1], "already in a lobby".to_string())));
    handle(&mut s, 1, &mut alice, ClientMsg::Start);
    let mut carol = None;
    let todo = handle(
        &mut s,
        3,
        &mut carol,
        ClientMsg::Join { code, name: "Carol".to_string() },
    );
    assert_eq!(error_to(&todo), Some((vec![3], "game already in progress".to_string())));
    assert_eq!(carol, None);
}

#[test]
fn a_lobby_at_its_end_holds_up_no_other() {
    let mut s = Server::new(Rng::new(9));
    let slow = Settings { grace_ms: u64::MAX - NOW, ..settings() };
    let mut alice = None;
    let create_one = ClientMsg::Create { name: "Alice".to_string() };
    let todo = s.try_handle(NOW, 1, &mut alice, create_one, nowhere(), slow.clone(), 1000);
    assert!(todo.is_some());
    let code = alice.clone().unwrap().0;
    let later = NOW + 1;
    assert!(!s.has_headroom(later, &code) && s.has_headroom(later, "NONE"));
    let todo = s.try_handle(later, 1, &mut alice, ClientMsg::Start, nowhere(), settings(), 1000);
    assert!(todo.is_none() && alice == Some((code.clone(), 1)));
    let typed = code.to_lowercase();
    let join_it = ClientMsg::Join { code: typed, name: "Bob".to_string() };
    let mut bob = None;
    assert!(s.try_handle(later, 2, &mut bob, join_it, nowhere(), settings(), 1000).is_none());
    assert!(!s.is_ready(later, &None, &ClientMsg::Create { name: "B".to_string() }, &slow));

    let create_other = ClientMsg::Create { name: "Bob".to_string() };
    let todo = s.try_handle(later, 2, &mut bob, create_other, nowhere(), settings(), 1000);
    assert!(todo.is_some());
    let other = bob.clone().unwrap().0;
    assert!(s.has_headroom(later, &other));
    assert!(s.try_handle(later, 2, &mut bob, ClientMsg::Start, nowhere(), settings(), 1000).is_some());
    assert!(s.fire(later, &other, Timer::RoundEnd { gen: 9 }).is_empty());
}

#[test]
fn a_connection_that_was_taken_over_still_hears_its_own_refusals() {
    let mut s = Server::new(Rng::new(7));
    let mut mirror = Rng::new(7);
    for _ in 0..4 {
        mirror.next_u32();
    }
    let token = format!("{:08x}{:08x}{:08x}", mirror.next_u32(), mirror.next_u32(), mirror.next_u32());
    let (mut first, code) = create(&mut s, 1, "Alice");
    let mut second = None;
    let rejoin = ClientMsg::Rejoin { code: code.clone(), token };
    handle(&mut s, 2, &mut second, rejoin.clone());
    assert_eq!(second, first, "the same player, now reached by the second connection");
    let refused = Some((vec![1], "already in a lobby".to_string()));
    let join = ClientMsg::Join { code, name: "Alice".to_string() };
    assert_eq!(error_to(&handle(&mut s, 1, &mut first, join)), refused);
    let again = ClientMsg::Create { name: "Alice".to_string() };
    assert_eq!(error_to(&handle(&mut s, 1, &mut first, again)), refused);
    assert_eq!(error_to(&handle(&mut s, 1, &mut first, rejoin)), refused);
}

#[test]
fn the_host_hears_its_own_refusals() {
    let mut h = host();
    let again = [
        ClientMsg::Create { name: "A".to_string() },
        ClientMsg::Join { code: "ABCD".to_string(), name: "A".to_string() },
        ClientMsg::Rejoin { code: "ABCD".to_string(), token: "t".to_string() },
    ];
    for msg in again {
        let todo = h.say(NOW, msg, nowhere());
        let said = told(&todo);
        assert_eq!(said.len(), 1);
        assert!(said[0].0.is_empty() && said[0].1);
        assert!(matches!(said[0].2, ServerMsg::Error { message } if message == "already in a lobby"));
    }
}

#[test]
fn a_token_nobody_has_is_answered_to_whoever_offered_it() {
    let mut s = Server::new(Rng::new(10));
    let (_, code) = create(&mut s, 1, "Alice");
    let mut stranger = None;
    let rejoin = ClientMsg::Rejoin { code, token: "nope".to_string() };
    let todo = handle(&mut s, 5, &mut stranger, rejoin.clone());
    assert_eq!(error_to(&todo), Some((vec![5], "session expired".to_string())));
    assert!(todo.len() == 1 && stranger.is_none());

    let mut h = host();
    let todo = h.receive(NOW, 40, rejoin, nowhere());
    let said = told(&todo);
    assert_eq!(said.len(), 1);
    assert_eq!((said[0].0.clone(), said[0].1), (vec![40], false));
    assert!(matches!(said[0].2, ServerMsg::Error { message } if message == "session expired"));
    let todo = h.receive(NOW, 41, ClientMsg::Start, nowhere());
    assert!(matches!(told(&todo)[0].2, ServerMsg::Error { message } if message == "not in a lobby"));
}

#[test]
fn a_round_is_laid_out_played_and_timed() {
    let mut s = Server::new(Rng::new(5));
    let (mut alice, code) = create(&mut s, 1, "Alice");
    let mut bob = join(&mut s, 2, &code, "Bob");
    handle(&mut s, 1, &mut alice, ClientMsg::Configure { rounds: 1, round_secs: 60 });
    let todo = handle(&mut s, 1, &mut alice, ClientMsg::Start);
    assert_eq!(todo.len(), 3);
    match (&todo[0], &todo[1], &todo[2]) {
        (
            Action::LayOut { code: c, seed, mutator },
            Action::Send { conns, msg: ServerMsg::RoundStart { seed: told, .. } },
            Action::Wake { code: w, delay_ms, timer },
        ) => {
            assert_eq!((c, w), (&code, &code));
            assert_eq!(seed, told);
            assert_eq!(mutator, "");
            assert_eq!(conns, &vec![1, 2]);
            assert_eq!((*delay_ms, *timer), (60_000, Timer::RoundEnd { gen: 1 }));
        }
        _ => panic!("a round starts with its layout, its announcement and its timer"),
    }
    let waldo = Spot { x: 1, y: 2, z: 3 };
    s.lay_out(&code, waldo, vec![("wenda".to_string(), Spot { x: 4, y: 5, z: 6 })]);
    assert_eq!(s.lobby(&code).unwrap().waldo(), waldo);
    assert_eq!(s.lobby(&code).unwrap().cast().len(), 1);

    let click = ClientMsg::Click { pos: waldo };
    let todo = handle_at(&mut s, 1, &mut alice, click.clone(), on_waldo());
    let told = sent(&todo);
    assert_eq!(told[0].0, vec![1], "the verdict is personal");
    assert_eq!(told[1].0, vec![1, 2], "the news is not");
    let todo = handle_at(&mut s, 2, &mut bob, click, on_waldo());
    let wake = todo.iter().find_map(|a| match a {
        Action::Wake { timer, delay_ms, .. } => Some((*timer, *delay_ms)),
        _ => None,
    });
    let (timer, delay) = wake.expect("the round is over");
    assert_eq!(delay, 8000);
    let todo = s.fire(NOW + 8000, &code, timer);
    assert!(sent(&todo).iter().any(|(_, m)| matches!(m, ServerMsg::GameOver { .. })));
    assert!(s.fire(NOW, "NONE", timer).is_empty());
}

#[test]
fn leaving_frees_the_connection_and_the_last_one_out_ends_the_lobby() {
    let mut s = Server::new(Rng::new(6));
    let (mut alice, code) = create(&mut s, 1, "Alice");
    let mut bob = join(&mut s, 2, &code, "Bob");
    let (carol, other) = create(&mut s, 3, "Carol");
    handle(&mut s, 2, &mut bob, ClientMsg::Leave);
    assert_eq!(bob, None);
    assert!(s.has_room(&code));
    handle(&mut s, 1, &mut alice, ClientMsg::Leave);
    assert_eq!(alice, None);
    assert!(!s.has_room(&code), "nobody is left");
    assert!(s.has_room(&other) && carol.is_some());
    // the connection may open another
    handle(&mut s, 1, &mut alice, ClientMsg::Create { name: "Alice".to_string() });
    assert!(alice.is_some());
}

#[test]
fn a_dropped_player_comes_back_on_another_connection() {
    let mut s = Server::new(Rng::new(7));
    let mut mirror = Rng::new(7);
    for _ in 0..4 {
        mirror.next_u32();
    }
    let token = format!("{:08x}{:08x}{:08x}", mirror.next_u32(), mirror.next_u32(), mirror.next_u32());
    let (alice, code) = create(&mut s, 1, "Alice");
    let todo = s.hang_up(NOW, 1, alice);
    assert!(todo.iter().any(|a| matches!(a, Action::Wake { timer: Timer::Grace { .. }, delay_ms: 60_000, .. })));
    let mut again = None;
    let todo = handle(&mut s, 8, &mut again, ClientMsg::Rejoin { code: code.clone(), token });
    assert_eq!(again, Some((code.clone(), 1)));
    assert!(sent(&todo).iter().all(|(conns, _)| conns == &vec![8]));
    assert!(s.hang_up(NOW, 9, None).is_empty());
    assert!(s.hang_up(NOW, 9, Some(("NONE".to_string(), 4))).is_empty());
}

#[test]
fn the_clock_seeds_the_stream() {
    let mut a = seeded_rng(0x1234_5678_9abc, 999_999_999);
    let mut b = Rng::new(0x1234_5678_9abc ^ (999_999_999u64 << 17));
    assert_eq!(a.next_u32(), b.next_u32());
    let mut a = host_rng(1_700_000_000_000);
    let mut b = Rng::new(1_700_000_000_000 ^ 0x9e3779b97f4a7c15);
    assert_eq!(a.next_u32(), b.next_u32());
}

fn host() -> Host {
    let mut h = Host::new("ABCD".to_string(), 11, Rng::new(2));
    h.begin(NOW, "Alice".to_string());
    h
}

fn told(todo: &[Effect]) -> Vec<(Vec<u64>, bool, &ServerMsg)> {
    todo.iter()
        .filter_map(|e| match e {
            Effect::Tell { chans, us, msg } => Some((chans.clone(), *us, msg)),
            _ => None,
        })
        .collect()
}

#[test]
fn the_host_is_a_player_and_never_uses_the_network_for_itself() {
    let mut h = Host::new("ABCD".to_string(), 11, Rng::new(2));
    let todo = h.begin(NOW, "Alice".to_string());
    let said = told(&todo);
    assert_eq!(said.len(), 1);
    assert!(said[0].0.is_empty() && said[0].1);
    assert!(matches!(said[0].2, ServerMsg::Lobby { you: 1, .. }));
    assert_eq!(h.lobby().player_count(), 1);
    assert_eq!(h.code(), "ABCD");
}

#[test]
fn joiners_claim_their_channel_and_hear_what_is_for_them() {
    let mut h = host();
    h.let_in(40);
    let join = ClientMsg::Join { code: "ABCD".to_string(), name: "Bob".to_string() };
    let todo = h.receive(NOW, 40, join.clone(), nowhere());
    let said = told(&todo);
    assert_eq!(said.len(), 2, "one lobby message each");
    assert_eq!((said[0].0.clone(), said[0].1), (vec![], true));
    assert_eq!((said[1].0.clone(), said[1].1), (vec![40], false));

    let todo = h.say(NOW, ClientMsg::Start, nowhere());
    assert!(matches!(todo[0], Effect::LayOut { .. }));
    let said = told(&todo);
    assert_eq!((said[0].0.clone(), said[0].1), (vec![40], true));
    assert!(todo.iter().any(|e| matches!(e, Effect::Wake { delay_ms, .. } if *delay_ms >= 15_000)));
    h.lay_out(Spot { x: 0, y: 0, z: 0 }, Vec::new());

    // a joiner with a seat is told no over their own channel
    let todo = h.receive(NOW, 40, ClientMsg::Start, nowhere());
    let said = told(&todo);
    assert_eq!(said.len(), 1);
    assert_eq!((said[0].0.clone(), said[0].1), (vec![40], false));
    assert!(matches!(said[0].2, ServerMsg::Error { message } if message == "only the host can start"));

    // a stranger is told no over the channel they asked on
    let todo = h.receive(NOW, 41, join, nowhere());
    let said = told(&todo);
    assert_eq!(said.len(), 1);
    assert_eq!((said[0].0.clone(), said[0].1), (vec![41], false));
    assert!(matches!(said[0].2, ServerMsg::Error { message } if message == "game already in progress"));

    // a click counts for the player behind the channel
    let click = ClientMsg::Click { pos: Spot { x: 0, y: 0, z: 0 } };
    let todo = h.receive(NOW, 40, click, on_waldo());
    assert!(told(&todo).iter().any(|(c, _, m)| c == &vec![40]
        && matches!(m, ServerMsg::ClickResult { target, .. } if target == "waldo")));
}

#[test]
fn a_closed_channel_drops_its_player_and_leaving_closes_it() {
    let mut h = host();
    let join = ClientMsg::Join { code: "ABCD".to_string(), name: "Bob".to_string() };
    h.receive(NOW, 40, join.clone(), nowhere());
    let todo = h.closed(NOW, 40);
    let timer = todo.iter().find_map(|e| match e {
        Effect::Wake { timer, delay_ms } => {
            assert_eq!(*delay_ms, 60_000);
            Some(*timer)
        }
        _ => None,
    });
    let todo = h.fire(NOW + 60_000, timer.expect("a grace timer"));
    assert!(todo.iter().any(|e| matches!(e, Effect::Close(40))));
    assert_eq!(h.lobby().player_count(), 1);
    assert!(h.closed(NOW, 99).is_empty(), "nobody had claimed it");

    h.receive(NOW, 42, join, nowhere());
    let todo = h.receive(NOW, 42, ClientMsg::Leave, nowhere());
    assert!(todo.iter().any(|e| matches!(e, Effect::Close(42))));
    assert!(h.is_open());
    let todo = h.say(NOW, ClientMsg::Leave, nowhere());
    assert!(todo.iter().any(|e| matches!(e, Effect::CloseRoom(code) if code == "ABCD")));
    assert!(!h.is_open());
}

#[test]
fn the_smaller_of_the_two_caps_wins() {
    assert_eq!(seats_notice(11), None);
    assert_eq!(seats_notice(u32::MAX), None);
    assert_eq!(seats_notice(3), Some("This lobby holds 4 players.".to_string()));
    let mut h = Host::new("ABCD".to_string(), 1, Rng::new(2));
    h.begin(NOW, "Alice".to_string());
    let join = ClientMsg::Join { code: "ABCD".to_string(), name: "Bob".to_string() };
    h.receive(NOW, 1, join.clone(), nowhere());
    let todo = h.receive(NOW, 2, join, nowhere());
    assert!(told(&todo).iter().any(|(c, _, m)| c == &vec![2]
        && matches!(m, ServerMsg::Error { message } if message == "lobby is full")));
}

#[test]
fn polling_stops_only_when_the_room_is_gone() {
    let mut h = host();
    let flaky = Error::Transport("timeout".to_string());
    assert_eq!(h.poll_failed(&flaky), None);
    assert!(h.is_open());
    let gone = Error::Refused { reason: "no_room".to_string(), message: "no".to_string() };
    assert_eq!(h.poll_failed(&gone), Some("The lobby expired.".to_string()));
    assert!(!h.is_open());
}

fn toast(next: Next) -> String {
    match next {
        Next::Toast(text) => text,
        _ => panic!("not given up"),
    }
}

fn refused(reason: &str) -> Got {
    Got::Refused(Error::Refused { reason: reason.to_string(), message: "why".to_string() })
}

#[test]
fn a_joiner_finds_its_way_to_the_host() {
    let mut j = Joiner::new();
    assert!(matches!(j.advance(Got::Ready), Next::MakeOffer));
    assert!(matches!(j.advance(Got::Ready), Next::Join));
    assert!(matches!(j.advance(Got::Seat(3)), Next::TakeAnswer { seat: 3 }));
    assert!(matches!(j.advance(Got::Answer(false)), Next::Sleep { ms: 1200 }));
    assert!(matches!(j.advance(Got::Open(true)), Next::Nothing), "nobody asked");
    assert!(matches!(j.advance(Got::Slept), Next::TakeAnswer { seat: 3 }));
    assert!(matches!(j.advance(refused("busy")), Next::Sleep { ms: 1200 }));
    assert!(matches!(j.advance(Got::Slept), Next::TakeAnswer { seat: 3 }));
    assert!(matches!(j.advance(Got::Answer(true)), Next::Accept));
    assert!(matches!(j.advance(Got::Ready), Next::CheckOpen));
    assert!(matches!(j.advance(Got::Open(false)), Next::Sleep { ms: 50 }));
    assert!(matches!(j.advance(Got::Slept), Next::CheckOpen));
    assert!(matches!(j.advance(Got::Open(true)), Next::SendFirst));
    assert!(matches!(j.advance(Got::Ready), Next::Nothing));
}

#[test]
fn a_joiner_says_why_it_gives_up() {
    let at = |outcomes: Vec<Got>| {
        let mut j = Joiner::new();
        let mut last = Next::Nothing;
        for got in outcomes {
            last = j.advance(got);
        }
        toast(last)
    };
    assert_eq!(at(vec![refused("x")]), "Could not reach the lobby service: why");
    assert_eq!(
        at(vec![Got::Ready, Got::Failed("ice".to_string())]),
        "Could not start connecting: ice"
    );
    assert_eq!(at(vec![Got::Ready, Got::Ready, refused("no_room")]), "No lobby with that code.");
    assert_eq!(at(vec![Got::Ready, Got::Ready, refused("full")]), "Could not join: why");
    assert_eq!(
        at(vec![Got::Ready, Got::Ready, Got::Seat(1), refused("no_room")]),
        "The lobby closed."
    );
    assert_eq!(
        at(vec![
            Got::Ready,
            Got::Ready,
            Got::Seat(1),
            Got::Answer(true),
            Got::Failed("sdp".to_string())
        ]),
        "Could not connect to the host: sdp"
    );
    assert_eq!(failure("A", "b"), "A: b");
}

#[test]
fn a_silent_host_is_asked_a_bounded_number_of_times() {
    let mut j = Joiner::new();
    j.advance(Got::Ready);
    j.advance(Got::Ready);
    let mut next = j.advance(Got::Seat(1));
    let mut asked = 0;
    while matches!(next, Next::TakeAnswer { .. }) {
        asked += 1;
        j.advance(Got::Answer(false));
        next = j.advance(Got::Slept);
    }
    assert_eq!(asked, ANSWER_ATTEMPTS);
    assert_eq!(toast(next), "The host did not answer.");

    let mut j = Joiner::new();
    for got in [Got::Ready, Got::Ready, Got::Seat(1), Got::Answer(true)] {
        j.advance(got);
    }
    let mut next = j.advance(Got::Ready);
    let mut looked = 0;
    while matches!(next, Next::CheckOpen) {
        looked += 1;
        j.advance(Got::Open(false));
        next = j.advance(Got::Slept);
    }
    assert_eq!(looked, 20);
    assert!(matches!(next, Next::SendFirst), "it tries all the same");
}

#[test]
fn a_player_who_comes_back_is_reached_over_the_new_channel_only() {
    let mut h = host();
    let join = ClientMsg::Join { code: "ABCD".to_string(), name: "Bob".to_string() };
    let todo = h.receive(NOW, 40, join, nowhere());
    let token = told(&todo)
        .into_iter()
        .find_map(|(_, us, m)| match m {
            ServerMsg::Lobby { token, .. } if !us => Some(token.clone()),
            _ => None,
        })
        .unwrap();
    h.closed(NOW, 40);
    h.receive(NOW, 50, ClientMsg::Rejoin { code: "ABCD".to_string(), token }, nowhere());
    let todo = h.say(NOW, ClientMsg::Start, nowhere());
    assert_eq!(told(&todo)[0].0, vec![50]);
}
