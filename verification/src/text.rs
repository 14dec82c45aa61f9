//! Text helpers: characters in and out of strings, trimming, numbers.

use vstd::prelude::*;
use vstd::string::*;

verus! {

/// `String::push` appends the given character to the end of the string.
pub assume_specification[ String::push ](s: &mut String, c: char)
    ensures
        final(s)@ == old(s)@.push(c),
;

/// What `str::to_uppercase` makes of a text.
pub uninterp spec fn uppercased(s: Seq<char>) -> Seq<char>;

/// Whether a text holds nothing but the letters A to Z.
pub open spec fn is_capitals(s: Seq<char>) -> bool {
    forall|i: int| 0 <= i < s.len() ==> 'A' <= #[trigger] s[i] <= 'Z'
}

/// Whether every character of a text is an ASCII one.
pub open spec fn all_ascii(s: Seq<char>) -> bool {
    forall|i: int| 0 <= i < s.len() ==> #[trigger] s[i] <= '\u{7f}'
}

/// An ASCII character in uppercase: the letters a to z become A to Z, and all others stay.
pub open spec fn capital() -> spec_fn(char) -> char {
    |c: char|
        if 'a' <= c <= 'z' {
            ('A' as int + (c as int - 'a' as int)) as char
        } else {
            c
        }
}

/// A text in uppercase.
pub open spec fn in_capitals(s: Seq<char>) -> Seq<char> {
    if all_ascii(s) {
        s.map_values(capital())
    } else {
        uppercased(s)
    }
}

/// Calls `str::to_uppercase`, the Unicode uppercase mapping, which depends on its
/// argument alone. It maps each ASCII character to one: a to z to A to Z, and the others to
/// themselves.
#[verifier::external_body]
pub(crate) fn to_uppercase(s: &str) -> (r: String)
    ensures
        r@ == uppercased(s@),
        all_ascii(s@) ==> r@ == s@.map_values(capital()),
{
    s.to_uppercase()
}

/// Whether two texts are equal.
pub fn same(a: &str, b: &str) -> (r: bool)
    ensures
        r == (a@ == b@),
{
    let left: String = a.to_owned();
    let right: String = b.to_owned();
    left == right
}

/// Control characters: Unicode's general category Cc.
pub open spec fn is_control(c: char) -> bool {
    c <= '\u{1f}' || '\u{7f}' <= c <= '\u{9f}'
}

/// White space: Unicode's White_Space property.
pub open spec fn is_space(c: char) -> bool {
    ||| '\u{9}' <= c <= '\u{d}'
    ||| c == ' '
    ||| c == '\u{85}'
    ||| c == '\u{a0}'
    ||| c == '\u{1680}'
    ||| '\u{2000}' <= c <= '\u{200a}'
    ||| c == '\u{2028}'
    ||| c == '\u{2029}'
    ||| c == '\u{202f}'
    ||| c == '\u{205f}'
    ||| c == '\u{3000}'
}

pub fn control(c: char) -> (r: bool)
    ensures
        r == is_control(c),
{
    c <= '\u{1f}' || ('\u{7f}' <= c && c <= '\u{9f}')
}

pub fn space(c: char) -> (r: bool)
    ensures
        r == is_space(c),
{
    ('\u{9}' <= c && c <= '\u{d}') || c == ' ' || c == '\u{85}' || c == '\u{a0}' || c == '\u{1680}'
        || ('\u{2000}' <= c && c <= '\u{200a}') || c == '\u{2028}' || c == '\u{2029}' || c
        == '\u{202f}' || c == '\u{205f}' || c == '\u{3000}'
}

/// The characters of a text, in order.
pub fn chars_of(s: &str) -> (v: Vec<char>)
    ensures
        v@ == s@,
{
    let mut v: Vec<char> = Vec::new();
    for c in it: s.chars()
        invariant
            v@ == it.seq().take(it.index() as int),
            it.seq() == s@,
    {
        v.push(c);
    }
    v
}

/// The text made of `v[from..to]`.
pub fn text_of(v: &Vec<char>, from: usize, to: usize) -> (s: String)
    requires
        from <= to <= v@.len(),
    ensures
        s@ == v@.subrange(from as int, to as int),
{
    let mut s = String::new();
    let mut i: usize = from;
    while i < to
        invariant
            from <= i <= to <= v@.len(),
            s@ == v@.subrange(from as int, i as int),
        decreases to - i,
    {
        s.push(v[i]);
        i = i + 1;
    }
    s
}

/// A text without its leading white space.
pub open spec fn trimmed_start(s: Seq<char>) -> Seq<char>
    decreases s.len(),
{
    if s.len() > 0 && is_space(s.first()) {
        trimmed_start(s.drop_first())
    } else {
        s
    }
}

/// A text without its trailing white space.
pub open spec fn trimmed_end(s: Seq<char>) -> Seq<char>
    decreases s.len(),
{
    if s.len() > 0 && is_space(s.last()) {
        trimmed_end(s.drop_last())
    } else {
        s
    }
}

/// A text without white space at either end.
pub open spec fn trimmed(s: Seq<char>) -> Seq<char> {
    trimmed_end(trimmed_start(s))
}

/// Trimming leaves a stretch of the text, with no white space at either end, and leaves
/// that as it is.
pub(crate) proof fn lemma_trimmed(s: Seq<char>)
    ensures
        trimmed(s).len() <= s.len(),
        forall|i: int|
            0 <= i < trimmed(s).len() ==> exists|j: int|
                0 <= j < s.len() && s[j] == #[trigger] trimmed(s)[i],
        trimmed(trimmed(s)) == trimmed(s),
{
    let late = trimmed_start(s);
    let t = trimmed(s);
    lemma_trimmed_start(s);
    lemma_trimmed_end(late);
    assert forall|i: int| 0 <= i < t.len() implies exists|j: int|
        0 <= j < s.len() && s[j] == #[trigger] t[i] by {
        assert(s[s.len() - late.len() + i] == t[i]);
    }
    lemma_untrimmed(t);
}

/// A text that neither begins nor ends with white space is left as it is.
pub(crate) proof fn lemma_untrimmed(s: Seq<char>)
    requires
        s.len() > 0 ==> !is_space(s.first()) && !is_space(s.last()),
    ensures
        trimmed(s) == s,
{
}

proof fn lemma_trimmed_start(s: Seq<char>)
    ensures
        trimmed_start(s).len() <= s.len(),
        trimmed_start(s) == s.skip(s.len() - trimmed_start(s).len()),
        trimmed_start(s).len() > 0 ==> !is_space(trimmed_start(s).first()),
    decreases s.len(),
{
    if s.len() > 0 && is_space(s.first()) {
        lemma_trimmed_start(s.drop_first());
        assert(s.drop_first().skip(s.len() - 1 - trimmed_start(s).len()) =~= s.skip(
            s.len() - trimmed_start(s).len(),
        ));
    } else {
        assert(s.skip(0) =~= s);
    }
}

proof fn lemma_trimmed_end(s: Seq<char>)
    ensures
        trimmed_end(s).len() <= s.len(),
        trimmed_end(s) == s.take(trimmed_end(s).len() as int),
        trimmed_end(s).len() > 0 ==> !is_space(trimmed_end(s).last()),
    decreases s.len(),
{
    if s.len() > 0 && is_space(s.last()) {
        lemma_trimmed_end(s.drop_last());
        assert(s.drop_last().take(trimmed_end(s).len() as int) =~= s.take(
            trimmed_end(s).len() as int,
        ));
    } else {
        assert(s.take(s.len() as int) =~= s);
    }
}

/// Whether a text is white space only.
pub open spec fn is_blank(s: Seq<char>) -> bool {
    forall|i: int| 0 <= i < s.len() ==> is_space(#[trigger] s[i])
}

/// Whether a text spells a word, in small letters, capitals or both.
pub open spec fn spells(s: Seq<char>, word: Seq<char>) -> bool {
    s.len() == word.len() && forall|i: int|
        0 <= i < s.len() ==> capital()(#[trigger] s[i]) == word[i]
}

/// White space around a text is trimmed away.
pub proof fn law_padding_is_trimmed(before: Seq<char>, s: Seq<char>, after: Seq<char>)
    requires
        is_blank(before),
        is_blank(after),
        s.len() > 0,
        !is_space(s.first()),
        !is_space(s.last()),
    ensures
        trimmed(before + s + after) == s,
    decreases before.len() + after.len(),
{
    let all = before + s + after;
    if before.len() > 0 {
        assert(all.first() == before[0]);
        assert(all.drop_first() =~= before.drop_first() + s + after);
        law_padding_is_trimmed(before.drop_first(), s, after);
    } else if after.len() > 0 {
        assert(all.first() == s.first());
        assert(all.last() == after[after.len() - 1]);
        assert(all.drop_last() =~= before + s + after.drop_last());
        assert(all.drop_last().first() == s.first());
        law_padding_is_trimmed(before, s, after.drop_last());
    } else {
        assert(all =~= s);
        lemma_untrimmed(s);
    }
}

/// A word in capitals is understood however it is typed: in small letters, capitals or
/// both, and with white space around it.
pub proof fn law_capitals_are_understood(
    word: Seq<char>,
    before: Seq<char>,
    typed: Seq<char>,
    after: Seq<char>,
)
    requires
        is_capitals(word),
        word.len() > 0,
        spells(typed, word),
        is_blank(before),
        is_blank(after),
    ensures
        in_capitals(trimmed(before + typed + after)) == word,
{
    assert forall|i: int| 0 <= i < typed.len() implies !is_space(#[trigger] typed[i]) && typed[i]
        <= '\u{7f}' by {
        assert(capital()(typed[i]) == word[i]);
    }
    law_padding_is_trimmed(before, typed, after);
    assert(typed.map_values(capital()) =~= word);
}

/// A text without white space at either end.
pub fn trim(s: &str) -> (r: String)
    ensures
        r@ == trimmed(s@),
{
    let v = chars_of(s);
    let mut from: usize = 0;
    assert(v@.skip(0) =~= v@);
    while from < v.len() && space(v[from])
        invariant
            from <= v@.len(),
            v@ == s@,
            trimmed_start(v@.skip(from as int)) == trimmed_start(s@),
        decreases v@.len() - from,
    {
        assert(v@.skip(from as int).drop_first() =~= v@.skip(from + 1));
        from = from + 1;
    }
    let mut to: usize = v.len();
    assert(v@.subrange(from as int, to as int) =~= v@.skip(from as int));
    while to > from && space(v[to - 1])
        invariant
            from <= to <= v@.len(),
            trimmed_end(v@.subrange(from as int, to as int)) == trimmed(s@),
        decreases to,
    {
        assert(v@.subrange(from as int, to as int).drop_last() =~= v@.subrange(
            from as int,
            to - 1,
        ));
        to = to - 1;
    }
    text_of(&v, from, to)
}

/// The digit of a number below ten.
pub open spec fn digit(d: nat) -> char {
    ('0' as int + d) as char
}

/// A number in decimal.
pub open spec fn decimal(n: nat) -> Seq<char>
    decreases n,
{
    if n < 10 {
        seq![digit(n)]
    } else {
        decimal(n / 10).push(digit(n % 10))
    }
}

/// A signed number in decimal, with `-` before it when negative.
pub open spec fn signed_decimal(n: int) -> Seq<char> {
    if n < 0 {
        seq!['-'] + decimal((-n) as nat)
    } else {
        decimal(n as nat)
    }
}

fn digit_char(d: u64) -> (c: char)
    requires
        d < 10,
    ensures
        c == digit(d as nat),
{
    (48u8 + d as u8) as char
}

/// Writes a number in decimal at the end of `out`.
pub fn push_decimal(out: &mut String, n: u64)
    ensures
        final(out)@ == old(out)@ + decimal(n as nat),
    decreases n,
{
    if n >= 10 {
        push_decimal(out, n / 10);
    }
    out.push(digit_char(n % 10));
    assert(out@ =~= old(out)@ + decimal(n as nat));
}

/// Writes a signed number in decimal at the end of `out`.
pub fn push_signed(out: &mut String, n: i32)
    ensures
        final(out)@ == old(out)@ + signed_decimal(n as int),
{
    if n < 0 {
        out.push('-');
        push_decimal(out, (-(n as i64)) as u64);
        assert(out@ =~= old(out)@ + signed_decimal(n as int));
    } else {
        push_decimal(out, n as u64);
    }
}

/// The lowercase hexadecimal digit of a number below sixteen.
pub open spec fn hex_digit(d: nat) -> char {
    if d < 10 {
        digit(d)
    } else {
        ('a' as int + d - 10) as char
    }
}

/// The last `width` hexadecimal digits of a number.
pub open spec fn hex(n: nat, width: nat) -> Seq<char>
    decreases width,
{
    if width == 0 {
        Seq::empty()
    } else {
        hex(n / 16, (width - 1) as nat).push(hex_digit(n % 16))
    }
}

/// Writes the last `width` hexadecimal digits of a number at the end of `out`.
pub fn push_hex(out: &mut String, n: u32, width: u32)
    ensures
        final(out)@ == old(out)@ + hex(n as nat, width as nat),
    decreases width,
{
    if width > 0 {
        push_hex(out, n / 16, width - 1);
        let d: u32 = n % 16;
        let c: char = if d < 10 {
            (48u8 + d as u8) as char
        } else {
            (97u8 + (d as u8 - 10)) as char
        };
        out.push(c);
    }
    assert(out@ =~= old(out)@ + hex(n as nat, width as nat));
}

/// Whether `s` starts with `prefix`.
pub open spec fn begins(s: Seq<char>, prefix: Seq<char>) -> bool {
    prefix.len() <= s.len() && s.take(prefix.len() as int) == prefix
}

/// `s` without `prefix` at its start, however often it stands there.
pub open spec fn stripped(s: Seq<char>, prefix: Seq<char>) -> Seq<char>
    decreases s.len(),
{
    if prefix.len() > 0 && begins(s, prefix) {
        stripped(s.skip(prefix.len() as int), prefix)
    } else {
        s
    }
}

/// `s` without the slashes at its end.
pub open spec fn without_slashes(s: Seq<char>) -> Seq<char>
    decreases s.len(),
{
    if s.len() > 0 && s.last() == '/' {
        without_slashes(s.drop_last())
    } else {
        s
    }
}

/// Whether the text from `from` on starts with `prefix`.
fn begins_at(all: &Vec<char>, from: usize, prefix: &Vec<char>) -> (r: bool)
    requires
        from <= all.len(),
    ensures
        r == begins(all@.skip(from as int), prefix@),
{
    if prefix.len() > all.len() - from {
        return false;
    }
    let mut i: usize = 0;
    while i < prefix.len()
        invariant
            i <= prefix.len(),
            from + prefix.len() <= all.len(),
            forall|j: int| 0 <= j < i ==> all@[from + j] == #[trigger] prefix@[j],
        decreases prefix.len() - i,
    {
        if all[from + i] != prefix[i] {
            assert(all@.skip(from as int).take(prefix@.len() as int)[i as int] != prefix@[i as int]);
            return false;
        }
        i += 1;
    }
    assert(all@.skip(from as int).take(prefix@.len() as int) =~= prefix@);
    true
}

/// Whether a text starts with `prefix`.
pub fn starts_with(s: &str, prefix: &str) -> (r: bool)
    ensures
        r == begins(s@, prefix@),
{
    let all = chars_of(s);
    assert(all@.skip(0) =~= all@);
    begins_at(&all, 0, &chars_of(prefix))
}

/// A text without `prefix` at its start, however often it stands there.
pub fn strip_start(s: &str, prefix: &str) -> (r: String)
    ensures
        r@ == stripped(s@, prefix@),
{
    let all = chars_of(s);
    let front = chars_of(prefix);
    let mut from: usize = 0;
    assert(all@.skip(0) =~= all@);
    while front.len() > 0 && begins_at(&all, from, &front)
        invariant
            from <= all.len(),
            all@ == s@,
            front@ == prefix@,
            stripped(all@.skip(from as int), prefix@) == stripped(s@, prefix@),
        decreases all.len() - from,
    {
        assert(all@.skip(from as int).skip(prefix@.len() as int) =~= all@.skip(
            from + prefix@.len(),
        ));
        from += front.len();
    }
    assert(all@.subrange(from as int, all@.len() as int) =~= all@.skip(from as int));
    text_of(&all, from, all.len())
}

/// A text without the slashes at its end.
pub fn strip_slashes(s: &str) -> (r: String)
    ensures
        r@ == without_slashes(s@),
{
    let all = chars_of(s);
    let mut to: usize = all.len();
    assert(all@.take(to as int) =~= all@);
    while to > 0 && all[to - 1] == '/'
        invariant
            to <= all.len(),
            all@ == s@,
            without_slashes(all@.take(to as int)) == without_slashes(s@),
        decreases to,
    {
        assert(all@.take(to as int).drop_last() =~= all@.take(to - 1));
        to -= 1;
    }
    assert(all@.subrange(0, to as int) =~= all@.take(to as int));
    text_of(&all, 0, to)
}

/// How many bytes a character takes in UTF-8.
pub open spec fn utf8_width(c: char) -> nat {
    if c <= '\u{7f}' {
        1
    } else if c <= '\u{7ff}' {
        2
    } else if c <= '\u{ffff}' {
        3
    } else {
        4
    }
}

/// How many bytes a text takes in UTF-8.
pub open spec fn utf8_len(s: Seq<char>) -> nat
    decreases s.len(),
{
    if s.len() == 0 {
        0
    } else {
        utf8_len(s.drop_last()) + utf8_width(s.last())
    }
}

/// Whether a text takes exactly `n` bytes in UTF-8.
pub fn takes_bytes(s: &str, n: usize) -> (r: bool)
    ensures
        r == (utf8_len(s@) == n),
{
    let all = chars_of(s);
    let mut left: usize = n;
    let mut i: usize = 0;
    assert(s@.take(0).len() == 0);
    while i < all.len()
        invariant
            i <= all.len(),
            all@ == s@,
            left <= n,
            utf8_len(s@.take(i as int)) == n - left,
        decreases all.len() - i,
    {
        let c = all[i];
        let width: usize = if c <= '\u{7f}' {
            1
        } else if c <= '\u{7ff}' {
            2
        } else if c <= '\u{ffff}' {
            3
        } else {
            4
        };
        proof {
            assert(s@.take(i + 1).drop_last() =~= s@.take(i as int));
            if width > left {
                lemma_utf8_len_grows(s@, i + 1);
            }
        }
        if width > left {
            return false;
        }
        left -= width;
        i += 1;
    }
    assert(s@.take(i as int) =~= s@);
    left == 0
}

proof fn lemma_utf8_len_grows(s: Seq<char>, i: int)
    requires
        0 <= i <= s.len(),
    ensures
        utf8_len(s.take(i)) <= utf8_len(s),
    decreases s.len(),
{
    if i == s.len() {
        assert(s.take(i) =~= s);
    } else {
        lemma_utf8_len_grows(s.drop_last(), i);
        assert(s.drop_last().take(i) =~= s.take(i));
    }
}

/// White space is what Unicode calls so: tab to carriage return, the space, next line, the
/// no-break space, and the wider and narrower spaces and separators.
pub proof fn law_spaces_are_unicode(c: char)
    ensures
        is_space(c) <==> {
            let n = c as u32;
            ||| 9 <= n <= 13
            ||| n == 32
            ||| n == 133
            ||| n == 160
            ||| n == 5760
            ||| 8192 <= n <= 8202
            ||| 8232 <= n <= 8233
            ||| n == 8239
            ||| n == 8287
            ||| n == 12288
        },
{
}

/// The control characters are the first 32 and the 33 from delete on.
pub proof fn law_controls_are_unicode(c: char)
    ensures
        is_control(c) <==> (c as u32) < 32 || 127 <= (c as u32) < 160,
{
}

/// Trimming takes away white space and nothing else, all there is at both ends.
pub proof fn law_trimming_takes_only_padding(s: Seq<char>)
    ensures
        ({
            let t = trimmed(s);
            &&& t.len() > 0 ==> !is_space(t.first()) && !is_space(t.last())
            &&& exists|from: int|
                {
                    &&& 0 <= from <= s.len() - t.len()
                    &&& #[trigger] is_blank(s.take(from))
                    &&& s.subrange(from, from + t.len()) == t
                    &&& is_blank(s.skip(from + t.len()))
                }
        }),
{
    let late = trimmed_start(s);
    let t = trimmed(s);
    lemma_trimmed_start(s);
    lemma_trimmed_end(late);
    lemma_trimmed_is_blank(s);
    lemma_trimmed_end_is_blank(late);
    let from = s.len() - late.len();
    assert(t.len() > 0 ==> t.first() == late.first());
    assert(s.subrange(from, from + t.len()) =~= t);
    assert(s.skip(from + t.len()) =~= late.skip(t.len() as int));
    assert(is_blank(s.take(from)));
}

proof fn lemma_trimmed_is_blank(s: Seq<char>)
    ensures
        is_blank(s.take(s.len() - trimmed_start(s).len())),
    decreases s.len(),
{
    lemma_trimmed_start(s);
    if s.len() > 0 && is_space(s.first()) {
        let rest = s.drop_first();
        lemma_trimmed_start(rest);
        lemma_trimmed_is_blank(rest);
        let n = s.len() - trimmed_start(s).len();
        assert forall|i: int| 0 <= i < n implies is_space(#[trigger] s.take(n)[i]) by {
            if i > 0 {
                assert(rest.take(n - 1)[i - 1] == s[i]);
            }
        }
    }
}

proof fn lemma_trimmed_end_is_blank(s: Seq<char>)
    ensures
        is_blank(s.skip(trimmed_end(s).len() as int)),
    decreases s.len(),
{
    lemma_trimmed_end(s);
    if s.len() > 0 && is_space(s.last()) {
        let rest = s.drop_last();
        lemma_trimmed_end(rest);
        lemma_trimmed_end_is_blank(rest);
        let n = trimmed_end(s).len() as int;
        assert forall|i: int| 0 <= i < s.len() - n implies is_space(#[trigger] s.skip(n)[i]) by {
            if i < rest.len() - n {
                assert(rest.skip(n)[i] == s[n + i]);
            }
        }
    }
}

/// A letter in uppercase is 32 before the lowercase one, and everything else is left alone.
pub proof fn law_capitals_come_before(c: char)
    ensures
        97 <= c as u32 <= 122 ==> capital()(c) as u32 + 32 == c as u32,
        (c as u32) < 97 || c as u32 > 122 ==> capital()(c) == c,
{
}

/// The number that digits stand for, in this base.
pub open spec fn number(digits: Seq<int>, base: int) -> int
    decreases digits.len(),
{
    if digits.len() == 0 {
        0
    } else {
        base * number(digits.drop_last(), base) + digits.last()
    }
}

/// What each digit stands for: 0 to 9, and a to f for ten to fifteen.
pub open spec fn digits_of(s: Seq<char>) -> Seq<int> {
    Seq::new(
        s.len(),
        |i: int|
            if s[i] as u32 <= 57 {
                s[i] as u32 - 48
            } else {
                s[i] as u32 - 87
            },
    )
}

/// A number in decimal is written in digits that stand for it, with no zero before them.
pub proof fn law_decimals_are_read_back(n: nat)
    ensures
        ({
            let s = decimal(n);
            &&& s.len() > 0
            &&& forall|i: int| 0 <= i < s.len() ==> '0' <= #[trigger] s[i] <= '9'
            &&& n > 0 ==> s[0] != '0'
            &&& n == 0 ==> s.len() == 1
            &&& number(digits_of(s), 10) == n
        }),
    decreases n,
{
    let s = decimal(n);
    if n >= 10 {
        law_decimals_are_read_back(n / 10);
        assert(s[0] == decimal(n / 10)[0]);
    } else {
        assert(number(digits_of(s.drop_last()), 10) == 0);
    }
    assert(digits_of(s).drop_last() =~= digits_of(s.drop_last()));
    assert(n >= 10 ==> s.drop_last() =~= decimal(n / 10));
    assert(s.last() == digit(n % 10));
    assert(digits_of(s).last() == n % 10);
}

/// A number below zero has a minus before it, and is otherwise written as its opposite.
pub proof fn law_minus_marks_negatives(n: int)
    ensures
        n >= 0 ==> signed_decimal(n) == decimal(n as nat),
        n < 0 ==> signed_decimal(n).first() == '-' && signed_decimal(n).skip(1) == decimal(
            (-n) as nat,
        ),
{
    if n < 0 {
        assert(signed_decimal(n).skip(1) =~= decimal((-n) as nat));
    }
}

/// Sixteen to the power of `width`.
pub open spec fn hex_range(width: nat) -> nat
    decreases width,
{
    if width == 0 {
        1
    } else {
        16 * hex_range((width - 1) as nat)
    }
}

/// A number that fits so many hexadecimal digits is written in exactly as many, which stand
/// for it.
pub proof fn law_hexadecimals_are_read_back(n: nat, width: nat)
    requires
        n < hex_range(width),
    ensures
        ({
            let s = hex(n, width);
            &&& s.len() == width
            &&& forall|i: int|
                0 <= i < s.len() ==> '0' <= #[trigger] s[i] <= '9' || 'a' <= s[i] <= 'f'
            &&& number(digits_of(s), 16) == n
        }),
    decreases width,
{
    let s = hex(n, width);
    if width > 0 {
        law_hexadecimals_are_read_back(n / 16, (width - 1) as nat);
        assert(s.drop_last() =~= hex(n / 16, (width - 1) as nat));
        assert(digits_of(s).drop_last() =~= digits_of(s.drop_last()));
        assert(s.last() == hex_digit(n % 16));
        assert(digits_of(s).last() == n % 16);
    }
}

/// A prefix is stripped as often as it stands at the start, and nothing else is.
pub proof fn law_prefixes_are_stripped(prefix: Seq<char>, s: Seq<char>)
    requires
        prefix.len() > 0,
    ensures
        stripped(prefix + s, prefix) == stripped(s, prefix),
        s.len() < prefix.len() || s.take(prefix.len() as int) != prefix ==> stripped(s, prefix)
            == s,
{
    assert((prefix + s).take(prefix.len() as int) =~= prefix);
    assert((prefix + s).skip(prefix.len() as int) =~= s);
}

/// Every slash at the end is taken away, and nothing else is.
pub proof fn law_slashes_are_stripped(s: Seq<char>)
    ensures
        without_slashes(s.push('/')) == without_slashes(s),
        s.len() == 0 || s.last() != '/' ==> without_slashes(s) == s,
{
    assert(s.push('/').drop_last() =~= s);
}

/// A text takes as many bytes as its parts do: one for each of the first 128 characters,
/// two up to 2047, three up to 65535 and four above.
pub proof fn law_bytes_add_up(a: Seq<char>, b: Seq<char>, c: char)
    ensures
        utf8_len(a + b) == utf8_len(a) + utf8_len(b),
        utf8_len(Seq::empty()) == 0,
        c as u32 <= 127 ==> utf8_len(seq![c]) == 1,
        128 <= c as u32 <= 2047 ==> utf8_len(seq![c]) == 2,
        2048 <= c as u32 <= 65535 ==> utf8_len(seq![c]) == 3,
        65536 <= c as u32 ==> utf8_len(seq![c]) == 4,
    decreases b.len(),
{
    if b.len() == 0 {
        assert(a + b =~= a);
    } else {
        law_bytes_add_up(a, b.drop_last(), c);
        assert((a + b).drop_last() =~= a + b.drop_last());
    }
    assert(seq![c].drop_last() =~= Seq::empty());
    assert(utf8_len(seq![c].drop_last()) == 0);
}

} // verus!
