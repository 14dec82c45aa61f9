//! Lobby codes, session tokens, and how a session is remembered between page loads.

use vstd::prelude::*;

use crate::ordering::{first, is_first, lemma_first, lemma_first_exists, lemma_first_none};
use crate::rng::{law_picks_are_in_range, Rng, RngView};
use crate::text::{
    chars_of, digits_of, hex, hex_range, is_capitals, law_hexadecimals_are_read_back, number,
    push_hex, text_of,
};

verus! {

/// The token that the next three draws make: eight hexadecimal digits each.
pub open spec fn token_text(rng: RngView) -> Seq<char> {
    hex(rng.drawn() as nat, 8) + hex(rng.next().drawn() as nat, 8) + hex(
        rng.next().next().drawn() as nat,
        8,
    )
}

/// Mints a private session token.
pub fn gen_token(rng: &mut Rng) -> (token: String)
    ensures
        token@ == token_text(old(rng)@),
        final(rng)@ == old(rng)@.after(3),
{
    proof {
        reveal_with_fuel(RngView::after, 4);
    }
    let mut token = String::new();
    push_hex(&mut token, rng.next_u32(), 8);
    push_hex(&mut token, rng.next_u32(), 8);
    push_hex(&mut token, rng.next_u32(), 8);
    assert(token@ =~= token_text(old(rng)@));
    token
}

/// The capital letter with this number, from 0 for A.
pub open spec fn letter(n: nat) -> char {
    ('A' as int + n) as char
}

/// The lobby code that the next four draws make.
pub open spec fn code_text(rng: RngView) -> Seq<char> {
    seq![
        letter(rng.picked(26)),
        letter(rng.next().picked(26)),
        letter(rng.next().next().picked(26)),
        letter(rng.next().next().next().picked(26)),
    ]
}

/// Every lobby code is four capital letters.
pub proof fn law_codes_are_capitals(rng: RngView)
    ensures
        code_text(rng).len() == 4,
        is_capitals(code_text(rng)),
{
    law_picks_are_in_range(rng, 26);
    law_picks_are_in_range(rng.next(), 26);
    law_picks_are_in_range(rng.next().next(), 26);
    law_picks_are_in_range(rng.next().next().next(), 26);
}

fn draw_letter(rng: &mut Rng) -> (c: char)
    ensures
        c == letter(old(rng)@.picked(26)),
        'A' <= c <= 'Z',
        final(rng)@ == old(rng)@.next(),
{
    let n = rng.below(26);
    (65u8 + n as u8) as char
}

/// Draws a lobby code: four capital letters, whether or not a lobby has it.
pub fn draw_code(rng: &mut Rng) -> (code: String)
    ensures
        code@ == code_text(old(rng)@),
        is_capitals(code@),
        final(rng)@ == old(rng)@.after(4),
{
    proof {
        reveal_with_fuel(RngView::after, 5);
    }
    let mut code = String::new();
    code.push(draw_letter(rng));
    code.push(draw_letter(rng));
    code.push(draw_letter(rng));
    code.push(draw_letter(rng));
    assert(code@ =~= code_text(old(rng)@));
    code
}

pub open spec fn is_colon() -> spec_fn(char) -> bool {
    |c: char| c == ':'
}

/// What is stored for a session: code and token with a colon between them.
pub open spec fn stored(code: Seq<char>, token: Seq<char>) -> Seq<char> {
    code.push(':') + token
}

/// The code and token of a stored session: what comes before and after the first
/// colon, if there is one.
pub open spec fn recalled(text: Seq<char>) -> Option<(Seq<char>, Seq<char>)> {
    match first(text, is_colon()) {
        Some(i) => Some((text.take(i), text.skip(i + 1))),
        None => None,
    }
}

/// The text to keep so that a page refresh can rejoin.
pub fn save_session(code: &str, token: &str) -> (text: String)
    ensures
        text@ == stored(code@, token@),
{
    let mut text = code.to_owned();
    text.push(':');
    text.append(token);
    text
}

/// The session in a text that was kept, if it holds one.
pub fn load_session(text: &str) -> (session: Option<(String, String)>)
    ensures
        match session {
            Some((code, token)) => recalled(text@) == Some((code@, token@)),
            None => recalled(text@) is None,
        },
{
    let all = chars_of(text);
    let mut i: usize = 0;
    while i < all.len() && all[i] != ':'
        invariant
            i <= all.len(),
            all@ == text@,
            forall|j: int| 0 <= j < i ==> (#[trigger] text@[j]) != ':',
        decreases all.len() - i,
    {
        i += 1;
    }
    if i < all.len() {
        proof {
            lemma_first(text@, is_colon(), i as int);
            assert(text@.subrange(0, i as int) =~= text@.take(i as int));
            assert(text@.subrange(i + 1, text@.len() as int) =~= text@.skip(i + 1));
        }
        Some((text_of(&all, 0, i), text_of(&all, i + 1, all.len())))
    } else {
        proof {
            lemma_first_none(text@, is_colon());
        }
        None
    }
}

/// A session that was stored comes back as it was, as long as its code holds no colon.
pub proof fn law_stored_session_comes_back(code: Seq<char>, token: Seq<char>)
    requires
        forall|i: int| 0 <= i < code.len() ==> (#[trigger] code[i]) != ':',
    ensures
        recalled(stored(code, token)) == Some((code, token)),
{
    let text = stored(code, token);
    let at = code.len() as int;
    assert forall|j: int| 0 <= j < at implies !is_colon()(#[trigger] text[j]) by {
        assert(text[j] == code[j]);
    }
    lemma_first(text, is_colon(), at);
    assert(text.take(at) =~= code);
    assert(text.skip(at + 1) =~= token);
}

/// What can be recalled is what was stored, with no colon in the code. A text without a
/// colon holds no session.
pub proof fn law_recalled_sessions_were_stored(text: Seq<char>)
    ensures
        match recalled(text) {
            Some((code, token)) => stored(code, token) == text && forall|i: int|
                0 <= i < code.len() ==> (#[trigger] code[i]) != ':',
            None => forall|i: int| 0 <= i < text.len() ==> (#[trigger] text[i]) != ':',
        },
{
    if let Some((code, token)) = recalled(text) {
        let at = first(text, is_colon())->0;
        assert(is_first(text, is_colon(), at));
        assert(is_colon()(text[at]));
        assert(stored(code, token) =~= text);
        assert forall|i: int| 0 <= i < code.len() implies (#[trigger] code[i]) != ':' by {
            assert(!is_colon()(text[i]));
        }
    } else {
        assert forall|i: int| 0 <= i < text.len() implies (#[trigger] text[i]) != ':' by {
            if text[i] == ':' {
                lemma_first_exists(text, is_colon(), i);
            }
        }
    }
}

/// A code's letters are the next four picks of the alphabet, in order.
pub proof fn law_codes_spell_the_draws(rng: RngView)
    ensures
        code_text(rng).len() == 4,
        forall|k: int|
            0 <= k < 4 ==> #[trigger] code_text(rng)[k] as u32 == 65 + rng.after(k as nat).picked(
                26,
            ),
{
    reveal_with_fuel(RngView::after, 5);
    law_codes_are_capitals(rng);
    law_picks_are_in_range(rng, 26);
    law_picks_are_in_range(rng.next(), 26);
    law_picks_are_in_range(rng.next().next(), 26);
    law_picks_are_in_range(rng.next().next().next(), 26);
}

/// A token's 24 digits are the next three draws, eight each: two tokens are equal only if
/// those draws are.
pub proof fn law_tokens_spell_the_draws(rng: RngView)
    ensures
        token_text(rng).len() == 24,
        forall|k: int|
            0 <= k < 3 ==> number(
                digits_of(#[trigger] token_text(rng).subrange(8 * k, 8 * k + 8)),
                16,
            ) == rng.after(k as nat).drawn(),
{
    reveal_with_fuel(RngView::after, 4);
    reveal_with_fuel(hex_range, 9);
    assert(hex_range(8) == 0x1_0000_0000);
    let a = rng.drawn() as nat;
    let b = rng.next().drawn() as nat;
    let c = rng.next().next().drawn() as nat;
    law_hexadecimals_are_read_back(a, 8);
    law_hexadecimals_are_read_back(b, 8);
    law_hexadecimals_are_read_back(c, 8);
    let t = token_text(rng);
    assert(t.subrange(0, 8) =~= hex(a, 8));
    assert(t.subrange(8, 16) =~= hex(b, 8));
    assert(t.subrange(16, 24) =~= hex(c, 8));
}

} // verus!
