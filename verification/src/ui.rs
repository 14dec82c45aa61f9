//! What the screens say: the texts, colours and choices that the views show.

use vstd::prelude::*;

use crate::ordering::{first, lemma_first, lemma_first_none};
use crate::protocol::{clamp, infos, standings, PlayerInfo, PlayerInfoView, Standing, StandingView};
use crate::text::{
    decimal, digit, in_capitals, is_blank, is_capitals, law_capitals_are_understood, push_decimal,
    push_signed, signed_decimal, spells, takes_bytes, to_uppercase, trim, trimmed, utf8_len,
};

verus! {

/// The colours that players get in seating order, starting over after the last.
pub open spec fn palette(i: int) -> Seq<char> {
    seq![
        "#ff5a5a"@,
        "#4fc3f7"@,
        "#ffe14a"@,
        "#81c784"@,
        "#ba68c8"@,
        "#ff9e40"@,
        "#f06292"@,
        "#4db6ac"@,
        "#a1887f"@,
        "#90a4ae"@,
        "#dce775"@,
        "#7986cb"@,
    ][i % 12]
}

pub open spec fn is_info(id: int) -> spec_fn(PlayerInfoView) -> bool {
    |p: PlayerInfoView| p.id == id
}

/// The seat of a player, or the first if they have none.
pub open spec fn seat_of(players: Seq<PlayerInfoView>, id: int) -> int {
    match first(players, is_info(id)) {
        Some(i) => i,
        None => 0,
    }
}

fn find_info(players: &Vec<PlayerInfo>, id: u32) -> (r: Option<usize>)
    ensures
        match r {
            Some(i) => i < players@.len() && first(infos(players@), is_info(id as int)) == Some(
                i as int,
            ),
            None => first(infos(players@), is_info(id as int)) is None,
        },
{
    let ghost v = infos(players@);
    let mut i: usize = 0;
    while i < players.len()
        invariant
            i <= players.len(),
            v == infos(players@),
            forall|j: int| 0 <= j < i ==> (#[trigger] v[j]).id != id,
        decreases players.len() - i,
    {
        assert(v[i as int] == players@[i as int]@);
        if players[i].id == id {
            proof {
                lemma_first(v, is_info(id as int), i as int);
            }
            return Some(i);
        }
        i += 1;
    }
    proof {
        lemma_first_none(v, is_info(id as int));
    }
    None
}

/// The colour that a player is shown in.
pub fn color_for(players: &Vec<PlayerInfo>, id: u32) -> (color: &'static str)
    ensures
        color@ == palette(seat_of(infos(players@), id as int)),
{
    let seat: usize = match find_info(players, id) {
        Some(i) => i,
        None => 0,
    };
    match seat % 12 {
        0 => "#ff5a5a",
        1 => "#4fc3f7",
        2 => "#ffe14a",
        3 => "#81c784",
        4 => "#ba68c8",
        5 => "#ff9e40",
        6 => "#f06292",
        7 => "#4db6ac",
        8 => "#a1887f",
        9 => "#90a4ae",
        10 => "#dce775",
        _ => "#7986cb",
    }
}

/// Whether the player of this id is the host.
pub open spec fn hosts(players: Seq<PlayerInfoView>, you: int) -> bool {
    match first(players, is_info(you)) {
        Some(i) => players[i].is_host,
        None => false,
    }
}

/// Whether we are the host.
pub fn is_host(players: &Vec<PlayerInfo>, you: u32) -> (r: bool)
    ensures
        r == hosts(infos(players@), you as int),
        r == match first(infos(players@), is_info(you as int)) {
            Some(i) => infos(players@)[i].is_host,
            None => false,
        },
{
    match find_info(players, you) {
        Some(i) => {
            assert(infos(players@)[i as int] == players@[i as int]@);
            players[i].is_host
        },
        None => false,
    }
}

/// Milliseconds as whole seconds, rounded up, never less than nothing.
pub open spec fn whole_seconds(ms: int) -> int {
    if ms > 0 {
        (ms + 999) / 1000
    } else {
        0
    }
}

/// Minutes and seconds, the seconds in two digits.
pub open spec fn clock(ms: int) -> Seq<char> {
    let s = whole_seconds(ms);
    decimal((s / 60) as nat) + seq![
        ':',
        digit((s % 60 / 10) as nat),
        digit((s % 60 % 10) as nat),
    ]
}

/// How much time is left, as a clock shows it.
pub fn fmt_time(ms: i64) -> (text: String)
    requires
        ms <= i64::MAX - 999,
    ensures
        text@ == clock(ms as int),
{
    let s: u64 = if ms > 0 {
        (ms as u64 + 999) / 1000
    } else {
        0
    };
    let mut text = String::new();
    push_decimal(&mut text, s / 60);
    text.push(':');
    let tens: u8 = (s % 60 / 10) as u8;
    let ones: u8 = (s % 60 % 10) as u8;
    text.push((48u8 + tens) as char);
    text.push((48u8 + ones) as char);
    assert(text@ =~= clock(ms as int));
    text
}

/// The lobby code in what was typed, if it is one: four letters, in capitals.
pub fn typed_code(typed: &str) -> (code: Result<String, String>)
    ensures
        match code {
            Ok(c) => code_in(in_capitals(trimmed(typed@))) == Some(c@),
            Err(_) => code_in(in_capitals(trimmed(typed@))) is None,
        },
        ({
            let meant = in_capitals(trimmed(typed@));
            match code {
                Ok(c) => utf8_len(meant) == 4 && c@ == meant,
                Err(e) => utf8_len(meant) != 4 && e@ == "lobby codes are 4 letters"@,
            }
        }),
{
    checked_code(to_uppercase(trim(typed).as_str()))
}

/// A code of four capital letters is understood however it is typed: in small letters,
/// capitals or both, and with white space around it.
pub proof fn law_typed_codes_are_understood(
    code: Seq<char>,
    before: Seq<char>,
    typed: Seq<char>,
    after: Seq<char>,
)
    requires
        is_capitals(code),
        code.len() == 4,
        spells(typed, code),
        is_blank(before),
        is_blank(after),
    ensures
        in_capitals(trimmed(before + typed + after)) == code,
        utf8_len(code) == 4,
        code_in(in_capitals(trimmed(before + typed + after))) == Some(code),
{
    law_capitals_are_understood(code, before, typed, after);
    reveal_with_fuel(utf8_len, 5);
}

/// The code that a text in capitals is, if it has the length of one.
pub open spec fn code_in(meant: Seq<char>) -> Option<Seq<char>> {
    if utf8_len(meant) == 4 {
        Some(meant)
    } else {
        None
    }
}

/// A code in capitals, if it has the length of one.
pub fn checked_code(meant: String) -> (code: Result<String, String>)
    ensures
        match code {
            Ok(c) => code_in(meant@) == Some(c@),
            Err(_) => code_in(meant@) is None,
        },
        match code {
            Ok(c) => utf8_len(meant@) == 4 && c@ == meant@,
            Err(e) => utf8_len(meant@) != 4 && e@ == "lobby codes are 4 letters"@,
        },
{
    if takes_bytes(meant.as_str(), 4) {
        Ok(meant)
    } else {
        Err("lobby codes are 4 letters".to_owned())
    }
}

/// What stands behind a player's name in the lobby.
pub open spec fn suffix_text(is_you: bool, connected: bool) -> Seq<char> {
    (if is_you {
        " (you)"@
    } else {
        ""@
    }) + (if connected {
        ""@
    } else {
        " · reconnecting…"@
    })
}

pub fn name_suffix(is_you: bool, connected: bool) -> (text: String)
    ensures
        text@ == suffix_text(is_you, connected),
        text@ == (if is_you {
            " (you)"@
        } else {
            ""@
        }) + (if connected {
            ""@
        } else {
            " · reconnecting…"@
        }),
{
    let mut text = if is_you {
        " (you)".to_owned()
    } else {
        "".to_owned()
    };
    text.append(
        if connected {
            ""
        } else {
            " · reconnecting…"
        },
    );
    text
}

/// What the planet of a round is called.
pub open spec fn planet_text(shape_name: Seq<char>) -> Seq<char> {
    "the "@ + shape_name + " Planet"@
}

pub fn planet_name(shape_name: &str) -> (text: String)
    ensures
        text@ == planet_text(shape_name@),
        text@ == "the "@ + shape_name@ + " Planet"@,
{
    let mut text = "the ".to_owned();
    text.append(shape_name);
    text.append(" Planet");
    text
}

/// The colour of the timer bar: red when less than 15% of the round is left, yellow when
/// less than 40%. A round of no length counts as one millisecond.
pub open spec fn timer_tint(left_ms: int, round_len_ms: int) -> Seq<char> {
    let len = if round_len_ms < 1 {
        1
    } else {
        round_len_ms
    };
    if left_ms * 100 < len * 15 {
        "#ff5a5a"@
    } else if left_ms * 100 < len * 40 {
        "#ffe14a"@
    } else {
        "#4caf50"@
    }
}

pub fn timer_color(left_ms: i64, round_len_ms: i64) -> (color: &'static str)
    ensures
        color@ == timer_tint(left_ms as int, round_len_ms as int),
{
    let len: i128 = if round_len_ms < 1 {
        1
    } else {
        round_len_ms as i128
    };
    if left_ms as i128 * 100 < len * 15 {
        "#ff5a5a"
    } else if left_ms as i128 * 100 < len * 40 {
        "#ffe14a"
    } else {
        "#4caf50"
    }
}

/// What a round's wrong clicks are shown as.
pub open spec fn misses_text(misses: nat) -> Seq<char> {
    if misses > 0 {
        " · "@ + decimal(misses) + "✗"@
    } else {
        ""@
    }
}

pub fn misses_label(misses: u32) -> (text: String)
    ensures
        text@ == misses_text(misses as nat),
        text@ == if misses > 0 {
            " · "@ + decimal(misses as nat) + "✗"@
        } else {
            ""@
        },
{
    if misses > 0 {
        let mut text = " · ".to_owned();
        push_decimal(&mut text, misses as u64);
        text.append("✗");
        text
    } else {
        "".to_owned()
    }
}

/// What a round's bonus is shown as: with its sign, or not at all.
pub open spec fn bonus_shown(bonus: int) -> Seq<char> {
    if bonus > 0 {
        "+"@ + signed_decimal(bonus)
    } else if bonus < 0 {
        signed_decimal(bonus)
    } else {
        ""@
    }
}

pub fn bonus_label(bonus: i32) -> (text: String)
    ensures
        text@ == bonus_shown(bonus as int),
        text@ == if bonus > 0 {
            "+"@ + signed_decimal(bonus as int)
        } else if bonus < 0 {
            signed_decimal(bonus as int)
        } else {
            ""@
        },
{
    if bonus > 0 {
        let mut text = "+".to_owned();
        push_signed(&mut text, bonus);
        text
    } else if bonus < 0 {
        let mut text = String::new();
        push_signed(&mut text, bonus);
        assert(text@ =~= signed_decimal(bonus as int));
        text
    } else {
        "".to_owned()
    }
}

/// What comes next, and in how many seconds.
pub open spec fn countdown(next_at_ms: int, now_ms: int, is_last_round: bool) -> Seq<char> {
    if next_at_ms - now_ms > 200 {
        (if is_last_round {
            "final standings"@
        } else {
            "next round"@
        }) + " in "@ + decimal(clamp(whole_seconds(next_at_ms - now_ms), 0, u32::MAX as int) as nat)
            + "…"@
    } else {
        "get ready…"@
    }
}

pub fn next_label(next_at_ms: u64, now_ms: u64, is_last_round: bool) -> (text: String)
    ensures
        text@ == countdown(next_at_ms as int, now_ms as int, is_last_round),
{
    let wait = next_at_ms.saturating_sub(now_ms);
    if wait > 200 {
        let mut text = if is_last_round {
            "final standings".to_owned()
        } else {
            "next round".to_owned()
        };
        text.append(" in ");
        let secs: u64 = (wait - 1) / 1000 + 1;
        push_decimal(
            &mut text,
            if secs > u32::MAX as u64 {
                u32::MAX as u64
            } else {
                secs
            },
        );
        text.append("…");
        text
    } else {
        "get ready…".to_owned()
    }
}

pub open spec fn is_line(id: int) -> spec_fn(StandingView) -> bool {
    |s: StandingView| s.id == id
}

/// Our place in the final standings, counted from 0.
pub open spec fn rank_in(board: Seq<StandingView>, me: int) -> Option<int> {
    first(board, is_line(me))
}

fn my_rank(board: &Vec<Standing>, me: u32) -> (r: Option<usize>)
    ensures
        match r {
            Some(i) => i < board@.len() && rank_in(standings(board@), me as int) == Some(i as int),
            None => rank_in(standings(board@), me as int) is None,
        },
{
    let ghost v = standings(board@);
    let mut i: usize = 0;
    while i < board.len()
        invariant
            i <= board.len(),
            v == standings(board@),
            forall|j: int| 0 <= j < i ==> (#[trigger] v[j]).id != me,
        decreases board.len() - i,
    {
        assert(v[i as int] == board@[i as int]@);
        if board[i].id == me {
            proof {
                lemma_first(v, is_line(me as int), i as int);
            }
            return Some(i);
        }
        i += 1;
    }
    proof {
        lemma_first_none(v, is_line(me as int));
    }
    None
}

/// Whether we came first.
pub fn i_won(board: &Vec<Standing>, me: u32) -> (r: bool)
    ensures
        r == (rank_in(standings(board@), me as int) == Some(0int)),
{
    match my_rank(board, me) {
        Some(i) => i == 0,
        None => false,
    }
}

/// Who won.
pub open spec fn headline_text(board: Seq<StandingView>, me: int) -> Seq<char> {
    if rank_in(board, me) == Some(0int) {
        "You win!"@
    } else if board.len() > 0 {
        board[0].name + " wins"@
    } else {
        "Nobody"@ + " wins"@
    }
}

pub fn headline(board: &Vec<Standing>, me: u32) -> (text: String)
    ensures
        text@ == headline_text(standings(board@), me as int),
{
    if i_won(board, me) {
        "You win!".to_owned()
    } else {
        let mut text = if board.len() > 0 {
            assert(standings(board@)[0] == board@[0]@);
            board[0].name.clone()
        } else {
            "Nobody".to_owned()
        };
        text.append(" wins");
        text
    }
}

pub open spec fn ordinal_suffix(place: int) -> Seq<char> {
    if place == 1 {
        "st"@
    } else if place == 2 {
        "nd"@
    } else if place == 3 {
        "rd"@
    } else {
        "th"@
    }
}

fn suffix_of(place: u64) -> (text: &'static str)
    ensures
        text@ == ordinal_suffix(place as int),
{
    match place {
        1 => "st",
        2 => "nd",
        3 => "rd",
        _ => "th",
    }
}

/// How we did.
pub open spec fn subline_text(board: Seq<StandingView>, me: int) -> Seq<char> {
    if rank_in(board, me) == Some(0int) {
        "champion of the galaxy"@
    } else {
        let place = match rank_in(board, me) {
            Some(i) => i + 1,
            None => 0,
        };
        "you finished "@ + decimal(place as nat) + ordinal_suffix(place) + " of "@ + decimal(
            board.len(),
        )
    }
}

pub fn subline(board: &Vec<Standing>, me: u32) -> (text: String)
    ensures
        text@ == subline_text(standings(board@), me as int),
{
    let count: u64 = board.len() as u64;
    let place: u64 = match my_rank(board, me) {
        Some(i) => i as u64 + 1,
        None => 0,
    };
    if place == 1 {
        "champion of the galaxy".to_owned()
    } else {
        let mut text = "you finished ".to_owned();
        push_decimal(&mut text, place);
        text.append(suffix_of(place));
        text.append(" of ");
        push_decimal(&mut text, count);
        text
    }
}

/// What a line of the podium is labelled with.
pub open spec fn podium_text(i: int) -> Seq<char> {
    decimal((i + 1) as nat) + ordinal_suffix(i + 1)
}

pub fn podium_label(i: usize) -> (text: String)
    requires
        i < usize::MAX,
    ensures
        text@ == podium_text(i as int),
        text@ == decimal((i + 1) as nat) + ordinal_suffix(i + 1),
{
    let place: u64 = i as u64 + 1;
    let mut text = String::new();
    push_decimal(&mut text, place);
    assert(text@ =~= decimal((i + 1) as nat));
    text.append(suffix_of(place));
    text
}

/// Gold, silver, bronze, and grey for the rest.
pub open spec fn podium_tint(i: int) -> Seq<char> {
    if i == 0 {
        "#ffe14a"@
    } else if i == 1 {
        "#c0c8d8"@
    } else if i == 2 {
        "#d4915d"@
    } else {
        "#9aa3c0"@
    }
}

pub fn podium_color(i: usize) -> (color: &'static str)
    ensures
        color@ == podium_tint(i as int),
        color@ == if i == 0 {
            "#ffe14a"@
        } else if i == 1 {
            "#c0c8d8"@
        } else if i == 2 {
            "#d4915d"@
        } else {
            "#9aa3c0"@
        },
{
    match i {
        0 => "#ffe14a",
        1 => "#c0c8d8",
        2 => "#d4915d",
        _ => "#9aa3c0",
    }
}

/// Whether a toast that is to be seen until then is on screen now.
pub open spec fn is_toast_up(status: Seq<char>, now_ms: int, until_ms: int) -> bool {
    status.len() > 0 && now_ms < until_ms
}

pub fn toast_shows(status: &str, now_ms: u64, until_ms: u64) -> (r: bool)
    ensures
        r == is_toast_up(status@, now_ms as int, until_ms as int),
        r == (status@.len() > 0 && now_ms < until_ms),
{
    status.unicode_len() > 0 && now_ms < until_ms
}

/// Twelve players have twelve colours, from red to indigo, and after them they come again.
pub proof fn law_colours_tell_players_apart(i: int, j: int)
    requires
        0 <= i < j,
    ensures
        j < 12 ==> palette(i) != palette(j),
        palette(i + 12) == palette(i),
        palette(0) == "#ff5a5a"@,
        palette(1) == "#4fc3f7"@,
        palette(2) == "#ffe14a"@,
        palette(3) == "#81c784"@,
        palette(4) == "#ba68c8"@,
        palette(5) == "#ff9e40"@,
        palette(6) == "#f06292"@,
        palette(7) == "#4db6ac"@,
        palette(8) == "#a1887f"@,
        palette(9) == "#90a4ae"@,
        palette(10) == "#dce775"@,
        palette(11) == "#7986cb"@,
{
    reveal_strlit("#ff5a5a");
    reveal_strlit("#4fc3f7");
    reveal_strlit("#ffe14a");
    reveal_strlit("#81c784");
    reveal_strlit("#ba68c8");
    reveal_strlit("#ff9e40");
    reveal_strlit("#f06292");
    reveal_strlit("#4db6ac");
    reveal_strlit("#a1887f");
    reveal_strlit("#90a4ae");
    reveal_strlit("#dce775");
    reveal_strlit("#7986cb");
    if j < 12 {
        let a = palette(i);
        let b = palette(j);
        assert(a[1] != b[1] || a[2] != b[2] || a[3] != b[3]);
    }
}

/// A player has the colour of the seat they sit in, and hosts if that is marked so. Who has
/// no seat hosts nothing, and is shown in the first colour.
pub proof fn law_seats_give_colours(players: Seq<PlayerInfoView>, id: int, i: int)
    ensures
        0 <= i < players.len() && players[i].id == id && (forall|j: int|
            0 <= j < i ==> (#[trigger] players[j]).id != id) ==> seat_of(players, id) == i && hosts(
            players,
            id,
        ) == players[i].is_host,
        (forall|j: int| 0 <= j < players.len() ==> (#[trigger] players[j]).id != id) ==> seat_of(
            players,
            id,
        ) == 0 && !hosts(players, id),
{
    if 0 <= i < players.len() && players[i].id == id && (forall|j: int|
        0 <= j < i ==> (#[trigger] players[j]).id != id) {
        lemma_first(players, is_info(id), i);
    }
    if forall|j: int| 0 <= j < players.len() ==> (#[trigger] players[j]).id != id {
        lemma_first_none(players, is_info(id));
    }
}

/// A clock shows the seconds that have begun, in minutes and two digits of seconds, and
/// stops at nothing.
pub proof fn law_clocks_round_up(ms: int, s: int)
    requires
        ms <= 0 ==> s == 0,
        ms > 0 ==> 1000 * s - 1000 < ms <= 1000 * s,
    ensures
        ({
            let shown = clock(ms);
            let n = shown.len() - 3;
            &&& shown.take(n) == decimal((s / 60) as nat)
            &&& shown[n] == ':'
            &&& shown.skip(n + 1) == decimal((100 + s % 60) as nat).skip(1)
        }),
{
    assert(whole_seconds(ms) == s);
    let shown = clock(ms);
    let n = shown.len() - 3;
    let rest = (s % 60) as nat;
    reveal_with_fuel(decimal, 4);
    assert(shown.take(n) =~= decimal((s / 60) as nat));
    assert((100 + rest) / 10 == 10 + rest / 10 && (100 + rest) % 10 == rest % 10);
    assert((10 + rest / 10) / 10 == 1 && (10 + rest / 10) % 10 == rest / 10);
    assert(decimal((100 + rest) as nat) =~= seq![digit(1), digit(rest / 10), digit(rest % 10)]);
    assert(shown.skip(n + 1) =~= decimal((100 + rest) as nat).skip(1));
}

/// The timer is green down to 40% of the round, yellow down to 15%, and red below.
pub proof fn law_timers_turn_red(left_ms: int, round_len_ms: int)
    requires
        round_len_ms > 0,
    ensures
        100 * left_ms < 15 * round_len_ms <==> timer_tint(left_ms, round_len_ms) == "#ff5a5a"@,
        100 * left_ms >= 40 * round_len_ms <==> timer_tint(left_ms, round_len_ms) == "#4caf50"@,
        15 * round_len_ms <= 100 * left_ms < 40 * round_len_ms <==> timer_tint(
            left_ms,
            round_len_ms,
        ) == "#ffe14a"@,
{
    reveal_strlit("#ff5a5a");
    reveal_strlit("#4caf50");
    reveal_strlit("#ffe14a");
    assert("#ff5a5a"@[1] != "#4caf50"@[1] && "#ffe14a"@[1] != "#4caf50"@[1]);
    assert("#ff5a5a"@[3] != "#ffe14a"@[3]);
}

/// What comes next is announced with the seconds that have begun until then, and as
/// imminent in the last fifth of a second.
pub proof fn law_countdowns_round_up(next_at_ms: int, now_ms: int, is_last_round: bool, s: nat)
    requires
        s <= u32::MAX,
        next_at_ms > now_ms ==> now_ms + 1000 * s - 1000 < next_at_ms <= now_ms + 1000 * s,
    ensures
        next_at_ms <= now_ms + 200 ==> countdown(next_at_ms, now_ms, is_last_round)
            == "get ready…"@,
        next_at_ms > now_ms + 200 && is_last_round ==> countdown(next_at_ms, now_ms, is_last_round)
            == "final standings"@ + " in "@ + decimal(s) + "…"@,
        next_at_ms > now_ms + 200 && !is_last_round ==> countdown(
            next_at_ms,
            now_ms,
            is_last_round,
        ) == "next round"@ + " in "@ + decimal(s) + "…"@,
{
}

/// The first in the standings has won, and everyone else is told who has. Each is told their
/// own place out of how many.
pub proof fn law_standings_are_put_in_words(board: Seq<StandingView>, me: int, i: int)
    requires
        0 <= i < board.len(),
        board[i].id == me,
        forall|j: int| 0 <= j < i ==> (#[trigger] board[j]).id != me,
    ensures
        rank_in(board, me) == Some(i),
        i == 0 ==> headline_text(board, me) == "You win!"@ && subline_text(board, me)
            == "champion of the galaxy"@,
        i > 0 ==> headline_text(board, me) == board[0].name + " wins"@,
        i > 0 ==> subline_text(board, me) == "you finished "@ + podium_text(i) + " of "@ + decimal(
            board.len(),
        ),
{
    lemma_first(board, is_line(me), i);
    assert("you finished "@ + podium_text(i) =~= "you finished "@ + decimal((i + 1) as nat)
        + ordinal_suffix(i + 1));
}

/// Who is not in the standings has not won.
pub proof fn law_absent_players_have_not_won(board: Seq<StandingView>, me: int)
    requires
        forall|j: int| 0 <= j < board.len() ==> (#[trigger] board[j]).id != me,
    ensures
        board.len() > 0 ==> headline_text(board, me) == board[0].name + " wins"@,
        board.len() == 0 ==> headline_text(board, me) == "Nobody"@ + " wins"@,
        rank_in(board, me) is None,
{
    lemma_first_none(board, is_line(me));
}

/// The podium is 1st in gold, 2nd in silver, 3rd in bronze, and every later place is written
/// with its number and "th", in grey.
pub proof fn law_podiums_have_three_steps(i: int)
    requires
        i >= 0,
    ensures
        podium_text(0) == decimal(1) + "st"@,
        podium_text(1) == decimal(2) + "nd"@,
        podium_text(2) == decimal(3) + "rd"@,
        i > 2 ==> podium_text(i) == decimal((i + 1) as nat) + "th"@,
        podium_tint(0) == "#ffe14a"@,
        podium_tint(1) == "#c0c8d8"@,
        podium_tint(2) == "#d4915d"@,
        i > 2 ==> podium_tint(i) == "#9aa3c0"@,
{
}

/// A line of the results shows what there is to show: misses only where there are some, and
/// a bonus only where there is one, with its sign.
pub proof fn law_results_show_what_counts(misses: nat, bonus: int)
    ensures
        misses_text(0).len() == 0,
        misses > 0 ==> misses_text(misses) == " · "@ + decimal(misses) + "✗"@,
        bonus_shown(0).len() == 0,
        bonus > 0 ==> bonus_shown(bonus) == "+"@ + decimal(bonus as nat),
        bonus < 0 ==> bonus_shown(bonus) == "-"@ + decimal((-bonus) as nat),
{
    reveal_strlit("");
    reveal_strlit("-");
    assert("-"@ =~= seq!['-']);
}

/// In the lobby each sees which one they are, and who is away. A planet is named for its
/// shape.
pub proof fn law_suffixes_tell_players_apart(shape_name: Seq<char>)
    ensures
        planet_text(shape_name) == "the "@ + shape_name + " Planet"@,
        suffix_text(false, true) == ""@,
        suffix_text(true, true) == " (you)"@,
        suffix_text(false, false) == " · reconnecting…"@,
        suffix_text(true, false) == " (you)"@ + " · reconnecting…"@,
{
    reveal_strlit("");
    assert(suffix_text(false, true) =~= ""@);
    assert(suffix_text(true, true) =~= " (you)"@);
    assert(suffix_text(false, false) =~= " · reconnecting…"@);
}

/// A toast with something to say is up until its time is over, and an empty one never is.
pub proof fn law_toasts_pass(status: Seq<char>, now_ms: int, until_ms: int)
    ensures
        status.len() > 0 && now_ms < until_ms ==> is_toast_up(status, now_ms, until_ms),
        now_ms >= until_ms ==> !is_toast_up(status, now_ms, until_ms),
        !is_toast_up(Seq::empty(), now_ms, until_ms),
{
}

} // verus!
