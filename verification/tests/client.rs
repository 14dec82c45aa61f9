//! The client: what messages do to it, what its screens say, and the lobby service.

use waldo_core::net::{can_click, handle, leave, lose_host, world_wanted, Keep};
use waldo_core::peer::{Sdp, CHANNEL};
use waldo_core::protocol::{Config, PlayerInfo, RoundEntry, ServerMsg, Spot, Standing};
use waldo_core::rendezvous::{
    answer_request, base_url, close_request, host_request, ice_request, join_request, socket_url,
    write_answer, write_description, write_join, write_refusal, Description, Error, Reading,
    Rendezvous, Signal, ANSWER, JOINED, OPEN, TRANSPORT,
};
use waldo_core::signal;
use waldo_core::state::{Game, Layout, Ping, Screen, Tint, Tone, Ui};
use waldo_core::ui::{
    bonus_label, checked_code, color_for, fmt_time, headline, i_won, is_host, misses_label,
    name_suffix, next_label, planet_name, podium_color, podium_label, subline, timer_color,
    toast_shows, typed_code,
};

const NOW: u64 = 1_700_000_000_000;

fn at(n: u32) -> Spot {
    Spot { x: n, y: n, z: n }
}

fn world() -> Layout {
    Layout {
        seed: 9,
        shape_name: "Donut".to_string(),
        waldo: at(1),
        cast: vec![
            ("wenda".to_string(), at(2)),
            ("odlaw".to_string(), at(3)),
            ("woof".to_string(), at(4)),
            ("wizard".to_string(), at(5)),
        ],
    }
}

fn start(mutator: &str, ends_at_ms: u64) -> ServerMsg {
    ServerMsg::RoundStart {
        round: 1,
        total_rounds: 2,
        seed: 9,
        round_secs: 60,
        mutator: mutator.to_string(),
        ends_at_ms,
    }
}

fn clicked(target: &str, points: i32, misses: u32) -> ServerMsg {
    ServerMsg::ClickResult { target: target.to_string(), points, round_score: 0, misses }
}

fn started() -> (Ui, Game) {
    let (mut ui, mut game) = (Ui::new(), Game::new());
    handle(&mut ui, &mut game, NOW, start("", NOW + 60_000), Some(world()));
    (ui, game)
}

fn lobby(code: &str) -> ServerMsg {
    ServerMsg::Lobby {
        code: code.to_string(),
        you: 2,
        token: "tok".to_string(),
        players: vec![PlayerInfo { id: 2, name: "Bob".to_string(), is_host: false, connected: true }],
        config: Config { rounds: 5, round_secs: 30 },
    }
}

#[test]
fn a_lobby_message_opens_the_lobby_and_keeps_the_session() {
    let (mut ui, mut game) = (Ui::new(), Game::new());
    assert_eq!(ui.screen, Screen::Menu);
    game.reconnect_attempt = 4;
    let keep = handle(&mut ui, &mut game, NOW, lobby("ABCD"), None);
    assert!(matches!(keep, Keep::Save(text) if text == "ABCD:tok"));
    assert_eq!(game.session, Some(("ABCD".to_string(), "tok".to_string())));
    assert_eq!(game.reconnect_attempt, 0);
    assert_eq!(ui.screen, Screen::Lobby);
    assert_eq!((ui.you, ui.players.len(), ui.config.rounds), (2, 1, 5));
    assert_eq!(ui.lobby_code, "ABCD");
    for screen in [Screen::Game, Screen::Results, Screen::Final] {
        ui.screen = screen;
        handle(&mut ui, &mut game, NOW, lobby("ABCD"), None);
        assert_eq!(ui.screen, screen);
    }
}

#[test]
fn an_expired_session_goes_back_to_the_menu() {
    let (mut ui, mut game) = started();
    handle(&mut ui, &mut game, NOW, lobby("ABCD"), None);
    let other = ServerMsg::Error { message: "lobby is full".to_string() };
    assert!(matches!(handle(&mut ui, &mut game, NOW, other, None), Keep::AsIs));
    assert_eq!((ui.screen, ui.status.as_str(), ui.status_kind), (Screen::Game, "lobby is full", Tone::Error));
    assert!(game.session.is_some());
    let seq = ui.status_seq;
    let expired = ServerMsg::Error { message: "session expired".to_string() };
    assert!(matches!(handle(&mut ui, &mut game, NOW, expired, None), Keep::Forget));
    assert_eq!((ui.screen, ui.status.as_str(), ui.status_seq), (Screen::Menu, "session expired", seq + 1));
    assert!(game.session.is_none());
}

#[test]
fn a_round_starts_on_the_local_clock() {
    let (ui, game) = started();
    assert_eq!((ui.screen, ui.round, ui.total_rounds, ui.round_len_ms), (Screen::Game, 1, 2, 60_000));
    assert_eq!(ui.shape_name, "Donut");
    assert_eq!((game.ends_at_ms, game.playing, game.found, game.round_id), (NOW + 60_000, true, false, 1));
    assert!(can_click(&game, true) && !can_click(&game, false));

    // a host whose clock is ahead does not stretch the round
    let (mut ui, mut game) = (Ui::new(), Game::new());
    handle(&mut ui, &mut game, NOW, start("night", NOW + 600_000), Some(world()));
    assert_eq!(game.ends_at_ms, NOW + 60_000);
    assert_eq!(ui.status, "Night round · your cursor is a searchlight");
    handle(&mut ui, &mut game, NOW, start("lightning", NOW + 10), Some(world()));
    assert_eq!(game.ends_at_ms, NOW + 10);
    assert_eq!(ui.status, "Lightning round · a third of the time");
    handle(&mut ui, &mut game, NOW, start("crowded", NOW), Some(world()));
    assert_eq!(ui.status, "Crowded round · extra everything");
    handle(&mut ui, &mut game, NOW, start("tiny", NOW), Some(world()));
    assert_eq!(ui.status, "Tiny planet · everyone is very close together");
    let seq = ui.status_seq;
    handle(&mut ui, &mut game, NOW, start("", NOW), Some(world()));
    assert_eq!(ui.status_seq, seq, "an ordinary round is not announced");
    assert_eq!(world_wanted(&start("tiny", 0)), Some((9, "tiny".to_string())));
    assert_eq!(world_wanted(&lobby("A")), None);
}

#[test]
fn click_results_are_shown_where_they_happened() {
    let (mut ui, mut game) = started();
    handle(&mut ui, &mut game, NOW, clicked("wenda", 100, 0), None);
    assert_eq!((ui.status.as_str(), ui.status_kind), ("Wenda! +100", Tone::Info));
    handle(&mut ui, &mut game, NOW, clicked("woof", 150, 0), None);
    assert_eq!(ui.status, "Woof's tail! +150");
    handle(&mut ui, &mut game, NOW, clicked("wizard", 75, 0), None);
    assert_eq!(ui.status, "Wizard Whitebeard! +75");
    handle(&mut ui, &mut game, NOW, clicked("odlaw", -150, 0), None);
    assert_eq!((ui.status.as_str(), ui.status_kind), ("That's Odlaw! -150 points", Tone::Error));
    handle(&mut ui, &mut game, NOW, clicked("miss", -25, 1), None);
    assert_eq!(ui.status, "Not him! -25 points (1 miss)");
    handle(&mut ui, &mut game, NOW, clicked("miss", -25, 2), None);
    assert_eq!(ui.status, "Not him! -25 points (2 misses)");
    assert!(!game.found);
    handle(&mut ui, &mut game, NOW, clicked("waldo", 1000, 2), None);
    assert_eq!(ui.found_banner, "Found him! +1000 · bonus hunt: Wenda, Woof's tail, the Wizard");
    assert!(game.found && !can_click(&game, true));
    assert_eq!(
        game.pings,
        vec![
            Ping { at: at(2), tint: Tint::Gold },
            Ping { at: at(4), tint: Tint::Gold },
            Ping { at: at(5), tint: Tint::Gold },
            Ping { at: at(3), tint: Tint::Amber },
            Ping { at: at(1), tint: Tint::Gold },
        ]
    );
    assert_eq!(Tint::Gold.rgb(), (255, 225, 74));
    assert_eq!(Tint::Amber.rgb(), (232, 160, 32));
    let found = ServerMsg::PlayerFound { id: 1, found: 2, total: 5 };
    handle(&mut ui, &mut game, NOW, found, None);
    assert_eq!(ui.found_count, "2/5 found him");
}

#[test]
fn results_standings_and_returns_are_shown() {
    let (mut ui, mut game) = started();
    let line = RoundEntry {
        id: 1, name: "A".to_string(), found: true, rank: 1, time_ms: 5, misses: 0, bonus: 0,
        score: 1000, total: 1000,
    };
    let result = ServerMsg::RoundResult { round: 1, waldo: at(8), results: vec![line], next_in_ms: 8000 };
    handle(&mut ui, &mut game, NOW, result.clone(), None);
    assert_eq!((ui.screen, ui.results.len(), ui.results_round), (Screen::Results, 1, 1));
    assert_eq!((ui.next_round_at_ms, ui.is_last_round), (NOW + 8000, false));
    assert_eq!((game.playing, game.reveal), (false, Some(at(8))));
    ui.round = 2;
    handle(&mut ui, &mut game, NOW, result, None);
    assert!(ui.is_last_round);
    let over = ServerMsg::GameOver { leaderboard: board() };
    handle(&mut ui, &mut game, NOW, over, None);
    assert_eq!((ui.screen, ui.leaderboard.len()), (Screen::Final, 3));

    let restore = |found_rank| ServerMsg::Restore {
        round: 2, total_rounds: 3, seed: 9, round_secs: 30, mutator: String::new(),
        ends_at_ms: NOW + 99, found_rank, misses: 0, wenda: false, woof: false, wizard: false,
        odlaw: false,
    };
    handle(&mut ui, &mut game, NOW, restore(0), Some(world()));
    assert_eq!((ui.screen, ui.round, ui.status.as_str()), (Screen::Game, 2, "Reconnected."));
    assert_eq!((game.found, game.ends_at_ms, ui.found_banner.as_str()), (false, NOW + 99, ""));
    handle(&mut ui, &mut game, NOW, restore(2), Some(world()));
    assert!(game.found);
    assert_eq!(ui.found_banner, "Found him! +700 · bonus hunt: Wenda, Woof's tail, the Wizard");
}

#[test]
fn leaving_and_losing_the_host_end_at_the_menu() {
    let (mut ui, mut game) = started();
    handle(&mut ui, &mut game, NOW, lobby("ABCD"), None);
    let round = game.round_id;
    assert!(matches!(leave(&mut ui, &mut game), Keep::Forget));
    assert_eq!((ui.screen, game.playing, game.round_id), (Screen::Menu, false, round + 1));
    assert!(game.session.is_none() && game.world.is_none());

    let (mut ui, mut game) = started();
    lose_host(&mut ui, &mut game);
    assert_eq!((ui.screen, ui.status.as_str()), (Screen::Menu, "Lost the connection to the host."));
    assert!(!game.playing);
}

fn players() -> Vec<PlayerInfo> {
    (0..14)
        .map(|i| PlayerInfo { id: 10 + i, name: format!("P{}", i), is_host: i == 0, connected: true })
        .collect()
}

fn board() -> Vec<Standing> {
    vec![
        Standing { id: 3, name: "Ann".to_string(), total: 30 },
        Standing { id: 1, name: "Bob".to_string(), total: 20 },
        Standing { id: 2, name: "Cy".to_string(), total: 10 },
    ]
}

#[test]
fn players_have_colours_in_seating_order() {
    assert_eq!(color_for(&players(), 10), "#ff5a5a");
    assert_eq!(color_for(&players(), 21), "#7986cb");
    assert_eq!(color_for(&players(), 22), "#ff5a5a");
    assert_eq!(color_for(&players(), 999), "#ff5a5a");
    assert!(is_host(&players(), 10) && !is_host(&players(), 11) && !is_host(&players(), 1));
}

#[test]
fn clocks_count_up_to_the_next_second() {
    assert_eq!(fmt_time(90_000), "1:30");
    assert_eq!(fmt_time(59_001), "1:00");
    assert_eq!(fmt_time(1), "0:01");
    assert_eq!(fmt_time(0), "0:00");
    assert_eq!(fmt_time(-5), "0:00");
    assert_eq!(fmt_time(3_600_000), "60:00");
    assert_eq!(next_label(NOW + 8000, NOW, false), "next round in 8…");
    assert_eq!(next_label(NOW + 7001, NOW, true), "final standings in 8…");
    assert_eq!(next_label(NOW + 201, NOW, true), "final standings in 1…");
    assert_eq!(next_label(NOW + 200, NOW, false), "get ready…");
    assert_eq!(next_label(NOW, NOW + 5, false), "get ready…");
}

#[test]
fn the_timer_bar_changes_colour_where_a_float_would() {
    for len in [0i64, 1, 1000, 60_000, 90_000, 300_000, 7] {
        for left in (-1..100).map(|i| i * len.max(1) / 97) {
            let frac = left as f64 / len.max(1) as f64;
            let expected = if frac < 0.15 {
                "#ff5a5a"
            } else if frac < 0.4 {
                "#ffe14a"
            } else {
                "#4caf50"
            };
            assert_eq!(timer_color(left, len), expected, "{} of {}", left, len);
        }
    }
    assert_eq!(timer_color(15_000, 100_000), "#ffe14a");
    assert_eq!(timer_color(40_000, 100_000), "#4caf50");
}

#[test]
fn a_code_is_four_letters() {
    assert_eq!(typed_code(" abcd "), Ok("ABCD".to_string()));
    assert_eq!(typed_code("\tAbCd\n"), Ok("ABCD".to_string()));
    assert_eq!(typed_code("a1-~"), Ok("A1-~".to_string()));
    assert_eq!(typed_code("abc"), Err("lobby codes are 4 letters".to_string()));
    assert_eq!(typed_code("éé"), Ok("ÉÉ".to_string()));
    assert_eq!(typed_code("abcé"), Err("lobby codes are 4 letters".to_string()));
    assert_eq!(checked_code("WXYZ".to_string()), Ok("WXYZ".to_string()));
}

#[test]
fn labels_say_what_they_should() {
    assert_eq!(name_suffix(true, false), " (you) · reconnecting…");
    assert_eq!(name_suffix(false, true), "");
    assert_eq!(planet_name("Wobbly Cube"), "the Wobbly Cube Planet");
    assert_eq!(misses_label(0), "");
    assert_eq!(misses_label(3), " · 3✗");
    assert_eq!(bonus_label(325), "+325");
    assert_eq!(bonus_label(-150), "-150");
    assert_eq!(bonus_label(0), "");
    assert!(toast_shows("hi", 10, 11) && !toast_shows("hi", 11, 11) && !toast_shows("", 0, 1));
}

#[test]
fn the_win_screen_knows_who_won() {
    assert!(i_won(&board(), 3) && !i_won(&board(), 1) && !i_won(&Vec::new(), 1));
    assert_eq!(headline(&board(), 3), "You win!");
    assert_eq!(headline(&board(), 1), "Ann wins");
    assert_eq!(headline(&Vec::new(), 1), "Nobody wins");
    assert_eq!(subline(&board(), 3), "champion of the galaxy");
    assert_eq!(subline(&board(), 1), "you finished 2nd of 3");
    assert_eq!(subline(&board(), 2), "you finished 3rd of 3");
    assert_eq!(subline(&board(), 77), "you finished 0th of 3");
    let labels: Vec<String> = (0..5).map(podium_label).collect();
    assert_eq!(labels, vec!["1st", "2nd", "3rd", "4th", "5th"]);
    assert_eq!((podium_color(0), podium_color(2), podium_color(9)), ("#ffe14a", "#d4915d", "#9aa3c0"));
}

#[test]
fn the_socket_takes_the_scheme_of_its_origin() {
    assert_eq!(socket_url("https://rv.example"), "wss://rv.example/ws?app=waldo");
    assert_eq!(socket_url("http://localhost:8001"), "ws://localhost:8001/ws?app=waldo");
    assert_eq!(socket_url("wss://rv.example"), "wss://rv.example/ws?app=waldo");
    assert_eq!(socket_url("ws://rv.example"), "ws://rv.example/ws?app=waldo");
    assert_eq!(socket_url("rv.example"), "ws://rv.example/ws?app=waldo");
    assert_eq!(base_url("https://rv.example//", Some("x".to_string())), "https://rv.example");
    assert_eq!(base_url("", Some("https://page".to_string())), "https://page");
    assert_eq!(base_url("", None), "http://localhost:8001");
    assert_eq!(signal::base_url("http://s/", None), "http://s");
}

fn offer() -> Description {
    Description { kind: "offer".to_string(), sdp: "v=0\r\n\"x\" \\ ü \u{1}".to_string() }
}

fn object(fields: Vec<(&str, serde_json::Value)>) -> serde_json::Value {
    serde_json::Value::Object(fields.into_iter().map(|(k, v)| (k.to_string(), v)).collect())
}

fn text(s: &str) -> serde_json::Value {
    serde_json::Value::from(s)
}

fn described(d: &Description) -> serde_json::Value {
    object(vec![("type", text(&d.kind)), ("sdp", text(&d.sdp))])
}

#[test]
fn requests_are_the_json_that_serde_would_write() {
    let o = offer();
    assert_eq!(host_request(), object(vec![("type", text("host"))]).to_string());
    assert_eq!(ice_request(), object(vec![("type", text("ice"))]).to_string());
    assert_eq!(close_request(), object(vec![("type", text("close"))]).to_string());
    assert_eq!(
        join_request("A\"B", &o),
        object(vec![("type", text("join")), ("code", text("A\"B")), ("offer", described(&o))])
            .to_string()
    );
    assert_eq!(
        answer_request(7, &o),
        object(vec![("type", text("answer")), ("seat", 7.into()), ("answer", described(&o))])
            .to_string()
    );
    assert_eq!(
        Error::wire(TRANSPORT, "lost\n"),
        object(vec![("reason", text(TRANSPORT)), ("message", text("lost\n"))]).to_string()
    );
    assert_eq!(write_refusal("1", "2"), "{\"message\":2,\"reason\":1}");
    assert_eq!(write_description("1", "2"), "{\"sdp\":2,\"type\":1}");
    assert_eq!(write_join("1", "2"), "{\"code\":1,\"offer\":2,\"type\":\"join\"}");
    assert_eq!(write_answer(3, "2"), "{\"answer\":2,\"seat\":3,\"type\":\"answer\"}");

    let s = signal::Description { kind: o.kind.clone(), sdp: o.sdp.clone() };
    assert_eq!(
        signal::join_body("AB", &s),
        object(vec![("code", text("AB")), ("offer", described(&o))]).to_string()
    );
    assert_eq!(
        signal::answer_body("AB", 2, &s),
        object(vec![("code", text("AB")), ("seat", 2.into()), ("answer", described(&o))]).to_string()
    );
    assert_eq!(signal::close_body("AB"), object(vec![("code", text("AB"))]).to_string());
    assert_eq!(signal::write_join("1", "2"), "{\"code\":1,\"offer\":2}");
    assert_eq!(signal::write_answer("1", 3, "2"), "{\"answer\":2,\"code\":1,\"seat\":3}");
    assert_eq!(signal::write_close("1"), "{\"code\":1}");
}

#[test]
fn errors_say_what_they_are() {
    let gone = Error::parse(Some(("no_room".to_string(), "gone".to_string())));
    assert!(gone.is_missing());
    assert_eq!(gone.text(), "gone");
    let full = Error::parse(Some(("full".to_string(), "no seats".to_string())));
    assert!(!full.is_missing() && matches!(full, Error::Refused { .. }));
    let lost = Error::parse(Some((TRANSPORT.to_string(), "dropped".to_string())));
    assert!(matches!(&lost, Error::Transport(e) if e == "dropped"));
    assert!(!lost.is_missing());
    assert_eq!(Error::parse(None).text(), "the lobby service connection failed");

    let missing = signal::Error::Refused { status: 404, message: "no".to_string() };
    assert!(missing.is_missing());
    assert_eq!(missing.text(), "no");
    assert!(!signal::Error::Refused { status: 500, message: "no".to_string() }.is_missing());
    assert!(!signal::Error::Transport("x".to_string()).is_missing());
}

#[test]
fn responses_carry_the_servers_own_words_if_it_has_any() {
    assert!(matches!(signal::respond(204, true, "x".to_string()), Ok(None)));
    assert!(matches!(signal::respond(200, true, "{}".to_string()), Ok(Some(b)) if b == "{}"));
    let message = |status: u16, body: &str| match signal::respond(status, false, body.to_string()) {
        Err(signal::Error::Refused { status: s, message }) => {
            assert_eq!(s, status);
            message
        }
        _ => panic!("not refused"),
    };
    assert_eq!(message(409, "{\"error\":\"room is full\"}"), "room is full");
    assert_eq!(message(500, "<html>"), "signalling server returned 500");
    assert_eq!(message(500, "[1]"), "signalling server returned 500");
    assert_eq!(message(404, "{\"error\":3}"), "signalling server returned 404");
    let told = signal::interpret(400, false, String::new(), Some("bad".to_string()));
    assert!(matches!(told, Err(signal::Error::Refused { status: 400, message }) if message == "bad"));
    assert!(matches!(signal::expect_body(Some("b".to_string())), Ok(b) if b == "b"));
    assert!(matches!(signal::expect_body(None), Err(signal::Error::Transport(e)) if e == "expected a body, got 204"));
    assert_eq!(signal::url("http://s", "/host"), "http://s/host?app=waldo");
    assert_eq!(signal::url("http://s", "/x?y=1"), "http://s/x?y=1&app=waldo");
    assert_eq!((signal::method(true), signal::method(false)), ("POST", "GET"));
    assert_eq!(signal::offers_path("AB"), "/offers/AB");
    assert_eq!(signal::answer_path("AB", 12), "/answer/AB/12");
}

fn read(kind: &str) -> Reading {
    Reading { kind: Some(kind.to_string()), reason: None, offer: None }
}

#[test]
fn replies_wake_whoever_waits_for_them() {
    let mut rv = Rendezvous::new();
    rv.park(OPEN);
    assert!(matches!(&rv.settle(OPEN, "{}")[..], [Signal::Resolve(t)] if t == "{}"));
    assert!(rv.settle(OPEN, "{}").is_empty(), "nobody waits any more");
    rv.park(JOINED);
    // the answer overtakes the reply that is waited for, and is kept
    assert!(rv.deliver("the answer", read(ANSWER)).is_empty());
    assert!(matches!(&rv.deliver("seat", read(JOINED))[..], [Signal::Resolve(t)] if t == "seat"));
    assert_eq!(rv.unstash(ANSWER), Some("the answer".to_string()));
    assert_eq!(rv.unstash(ANSWER), None);
}

#[test]
fn only_the_last_few_unasked_replies_are_kept() {
    let mut rv = Rendezvous::new();
    for i in 0..10 {
        rv.deliver(&format!("{}", i), read("extra"));
    }
    let kept: Vec<String> = std::iter::from_fn(|| rv.unstash("extra")).collect();
    assert_eq!(kept, vec!["2", "3", "4", "5", "6", "7", "8", "9"]);
}

#[test]
fn refusals_losses_and_deadlines_reach_the_waiting() {
    let mut rv = Rendezvous::new();
    assert!(matches!(&rv.deliver("no", read("error"))[..], [Signal::Report(t)] if t == "no"));
    rv.park(JOINED);
    assert!(matches!(&rv.deliver("no", read("error"))[..], [Signal::Reject(t)] if t == "no"));

    let first = rv.park(JOINED);
    let second = rv.park(ANSWER);
    assert!(rv.expire(first, "late").is_empty(), "something else is parked");
    let late = Error::wire(TRANSPORT, "late");
    assert!(matches!(&rv.expire(second, "late")[..], [Signal::Reject(t)] if *t == late));
    assert!(rv.expire(second, "late").is_empty());

    let answered = rv.park(ANSWER);
    assert!(matches!(&rv.settle(ANSWER, "x")[..], [Signal::Resolve(_)]));
    let again = rv.park(ANSWER);
    assert!(rv.expire(answered, "late").is_empty(), "its reply has arrived");
    assert_eq!(rv.expire(again, "late").len(), 1);

    rv.park(ANSWER);
    rv.abandon();
    assert!(rv.settle(ANSWER, "x").is_empty());

    rv.park(ANSWER);
    let closed = Reading { reason: Some("host left".to_string()), ..read("closed") };
    let todo = rv.deliver("{}", closed);
    let wire = Error::wire(TRANSPORT, "host left");
    assert!(matches!(&todo[..], [Signal::Reject(t), Signal::Lost(why)] if *t == wire && why == "host left"));
    assert!(rv.lose("again").is_empty(), "told once");

    let mut rv = Rendezvous::new();
    assert!(matches!(&rv.deliver("{}", read("closed"))[..], [Signal::Lost(why)] if why == "the lobby closed"));
}

#[test]
fn nothing_arrives_after_a_loss() {
    let mut rv = Rendezvous::new();
    assert!(matches!(&rv.lose("gone")[..], [Signal::Lost(_)]));
    let offered = Reading { offer: Some((3, offer())), ..read("offer") };
    assert!(rv.deliver("{}", offered).is_empty());
    assert!(rv.deliver("no", read("error")).is_empty());
    assert!(rv.refuse("no").is_empty());
    assert!(rv.deliver("{}", read("closed")).is_empty());
    // whoever parks after it is still woken
    rv.park(JOINED);
    assert!(matches!(&rv.deliver("no", read("error"))[..], [Signal::Reject(t)] if t == "no"));
}

#[test]
fn texts_are_quoted_as_json() {
    let odd = "\"\\\u{8}\t\n\u{c}\r\u{0}\u{1f} /\u{7f}é\u{1f600}";
    assert_eq!(
        signal::close_body(odd),
        format!(
            "{{\"code\":\"{}{}\u{7f}é\u{1f600}\"}}",
            "\\\"\\\\\\b\\t\\n\\f\\r", "\\u0000\\u001f /"
        )
    );
    assert_eq!(signal::close_body(""), "{\"code\":\"\"}");
    assert_eq!(Error::wire("a", "b"), "{\"message\":\"b\",\"reason\":\"a\"}");
}

#[test]
fn offers_are_passed_on_and_noise_is_not() {
    let mut rv = Rendezvous::new();
    let offered = Reading { offer: Some((3, offer())), ..read("offer") };
    assert!(matches!(&rv.deliver("{}", offered)[..], [Signal::Offered(3, d)] if d.kind == "offer"));
    assert!(rv.deliver("{}", read("offer")).is_empty());
    let noise = Reading { kind: None, reason: None, offer: None };
    assert!(rv.deliver("noise", noise).is_empty());
    assert_eq!(rv.unstash("offer"), None);
    assert!(matches!(&rv.refuse("x")[..], [Signal::Report(_)]));
}

#[test]
fn descriptions_are_understood_at_the_other_end() {
    for sdp in [Sdp::Offer, Sdp::Answer, Sdp::Pranswer] {
        assert_eq!(Sdp::parse(sdp.name()), Ok(sdp));
    }
    assert_eq!(Sdp::parse(Sdp::Rollback.name()), Err("unknown sdp type rollback".to_string()));
    assert_eq!(CHANNEL, "waldo-v1");
}
