//! What a character is made of: which parts, in which colours, in the order they are
//! put together. How big each part is and where it sits is the renderer's business.

use vstd::prelude::*;

use crate::text::same;

verus! {

/// A part of a character. Striped parts come in two, for the two colours of the bands:
/// the ones that start at the bottom, and those between.
#[derive(Clone, Copy, Debug, PartialEq, Eq, Structural)]
pub enum Piece {
    TailBands,
    TailGaps,
    Tuft,
    Robe,
    OldHead,
    Beard,
    PointedHat,
    Staff,
    Skirt,
    StockingBands,
    StockingGaps,
    Legs,
    Shoes,
    ShirtBands,
    ShirtGaps,
    Hands,
    Head,
    Glasses,
    LongHair,
    ShortHair,
    Brim,
    HatBands,
    HatGaps,
    Pompom,
    Moustache,
    Cane,
}

#[derive(Clone, Copy, Debug, PartialEq, Eq, Structural)]
pub enum Paint {
    Red,
    White,
    Yellow,
    Black,
    Skin,
    Jeans,
    Dark,
    Hair,
    Brown,
    Cloak,
    Silver,
}

impl Paint {
    pub open spec fn color(self) -> (u8, u8, u8) {
        match self {
            Paint::Red => (224, 32, 32),
            Paint::White => (255, 255, 255),
            Paint::Yellow => (232, 192, 32),
            Paint::Black => (38, 38, 42),
            Paint::Skin => (242, 200, 150),
            Paint::Jeans => (53, 88, 196),
            Paint::Dark => (42, 42, 46),
            Paint::Hair => (74, 50, 32),
            Paint::Brown => (138, 90, 43),
            Paint::Cloak => (192, 57, 43),
            Paint::Silver => (245, 245, 245),
        }
    }

    /// Red, green and blue.
    pub fn rgb(self) -> (c: (u8, u8, u8))
        ensures
            c == self.color(),
    {
        match self {
            Paint::Red => (224, 32, 32),
            Paint::White => (255, 255, 255),
            Paint::Yellow => (232, 192, 32),
            Paint::Black => (38, 38, 42),
            Paint::Skin => (242, 200, 150),
            Paint::Jeans => (53, 88, 196),
            Paint::Dark => (42, 42, 46),
            Paint::Hair => (74, 50, 32),
            Paint::Brown => (138, 90, 43),
            Paint::Cloak => (192, 57, 43),
            Paint::Silver => (245, 245, 245),
        }
    }
}

/// The body that Waldo, Wenda and Odlaw share.
pub open spec fn body(bands: Paint, gaps: Paint, trousers: Option<Paint>) -> Seq<(Piece, Paint)> {
    (match trousers {
        Some(color) => seq![(Piece::Legs, color), (Piece::Shoes, Paint::Dark)],
        None => Seq::empty(),
    }) + seq![
        (Piece::ShirtBands, bands),
        (Piece::ShirtGaps, gaps),
        (Piece::Hands, Paint::Skin),
        (Piece::Head, Paint::Skin),
        (Piece::Glasses, Paint::Dark),
    ]
}

fn shared_body(parts: &mut Vec<(Piece, Paint)>, bands: Paint, gaps: Paint, trousers: Option<Paint>)
    ensures
        final(parts)@ == old(parts)@ + body(bands, gaps, trousers),
{
    if let Some(color) = trousers {
        parts.push((Piece::Legs, color));
        parts.push((Piece::Shoes, Paint::Dark));
    }
    parts.push((Piece::ShirtBands, bands));
    parts.push((Piece::ShirtGaps, gaps));
    parts.push((Piece::Hands, Paint::Skin));
    parts.push((Piece::Head, Paint::Skin));
    parts.push((Piece::Glasses, Paint::Dark));
    assert(parts@ =~= old(parts)@ + body(bands, gaps, trousers));
}

/// A striped bobble hat.
pub open spec fn bobble_hat(
    bands: Paint,
    gaps: Paint,
    brim: Paint,
    pompom: Paint,
) -> Seq<(Piece, Paint)> {
    seq![
        (Piece::Brim, brim),
        (Piece::HatBands, bands),
        (Piece::HatGaps, gaps),
        (Piece::Pompom, pompom),
    ]
}

fn hat(parts: &mut Vec<(Piece, Paint)>, bands: Paint, gaps: Paint, brim: Paint, pompom: Paint)
    ensures
        final(parts)@ == old(parts)@ + bobble_hat(bands, gaps, brim, pompom),
{
    parts.push((Piece::Brim, brim));
    parts.push((Piece::HatBands, bands));
    parts.push((Piece::HatGaps, gaps));
    parts.push((Piece::Pompom, pompom));
    assert(parts@ =~= old(parts)@ + bobble_hat(bands, gaps, brim, pompom));
}

/// What a character is made of. Only the tail of Woof can be seen, and anyone unknown is
/// Waldo.
pub open spec fn parts_of(role: Seq<char>) -> Seq<(Piece, Paint)> {
    if role == "woof"@ {
        seq![
            (Piece::TailBands, Paint::Red),
            (Piece::TailGaps, Paint::White),
            (Piece::Tuft, Paint::White),
        ]
    } else if role == "wizard"@ {
        seq![
            (Piece::Robe, Paint::Cloak),
            (Piece::OldHead, Paint::Skin),
            (Piece::Beard, Paint::Silver),
            (Piece::PointedHat, Paint::Cloak),
            (Piece::Staff, Paint::Brown),
        ]
    } else if role == "wenda"@ {
        seq![
            (Piece::Skirt, Paint::Jeans),
            (Piece::StockingBands, Paint::Red),
            (Piece::StockingGaps, Paint::White),
        ] + body(Paint::Red, Paint::White, None) + seq![(Piece::LongHair, Paint::Hair)]
            + bobble_hat(Paint::Red, Paint::White, Paint::White, Paint::Red)
    } else if role == "odlaw"@ {
        body(Paint::Yellow, Paint::Black, Some(Paint::Dark)) + seq![
            (Piece::ShortHair, Paint::Black),
            (Piece::Moustache, Paint::Black),
        ] + bobble_hat(Paint::Yellow, Paint::Black, Paint::Black, Paint::Yellow)
    } else {
        body(Paint::Red, Paint::White, Some(Paint::Jeans)) + seq![(Piece::ShortHair, Paint::Hair)]
            + bobble_hat(Paint::Red, Paint::White, Paint::White, Paint::Red) + seq![
            (Piece::Cane, Paint::Brown),
        ]
    }
}

pub fn build_character(role: &str) -> (parts: Vec<(Piece, Paint)>)
    ensures
        parts@ == parts_of(role@),
{
    let mut parts: Vec<(Piece, Paint)> = Vec::new();
    if same(role, "woof") {
        parts.push((Piece::TailBands, Paint::Red));
        parts.push((Piece::TailGaps, Paint::White));
        parts.push((Piece::Tuft, Paint::White));
    } else if same(role, "wizard") {
        parts.push((Piece::Robe, Paint::Cloak));
        parts.push((Piece::OldHead, Paint::Skin));
        parts.push((Piece::Beard, Paint::Silver));
        parts.push((Piece::PointedHat, Paint::Cloak));
        parts.push((Piece::Staff, Paint::Brown));
    } else if same(role, "wenda") {
        parts.push((Piece::Skirt, Paint::Jeans));
        parts.push((Piece::StockingBands, Paint::Red));
        parts.push((Piece::StockingGaps, Paint::White));
        shared_body(&mut parts, Paint::Red, Paint::White, None);
        parts.push((Piece::LongHair, Paint::Hair));
        hat(&mut parts, Paint::Red, Paint::White, Paint::White, Paint::Red);
    } else if same(role, "odlaw") {
        shared_body(&mut parts, Paint::Yellow, Paint::Black, Some(Paint::Dark));
        parts.push((Piece::ShortHair, Paint::Black));
        parts.push((Piece::Moustache, Paint::Black));
        hat(&mut parts, Paint::Yellow, Paint::Black, Paint::Black, Paint::Yellow);
    } else {
        shared_body(&mut parts, Paint::Red, Paint::White, Some(Paint::Jeans));
        parts.push((Piece::ShortHair, Paint::Hair));
        hat(&mut parts, Paint::Red, Paint::White, Paint::White, Paint::Red);
        parts.push((Piece::Cane, Paint::Brown));
    }
    assert(parts@ =~= parts_of(role@));
    parts
}

/// The corners of a mesh that is appended to another, behind those that are there.
pub open spec fn shifted(corners: Seq<u32>, base: u32) -> Seq<int> {
    Seq::new(corners.len(), |i: int| base + corners[i])
}

/// Moves the corners of a mesh that is appended to another behind those that are there.
pub fn rebased(corners: &Vec<u32>, base: u32) -> (moved: Vec<u32>)
    requires
        forall|i: int| 0 <= i < corners@.len() ==> base + #[trigger] corners@[i] <= u32::MAX,
    ensures
        moved@.map_values(|c: u32| c as int) == shifted(corners@, base),
        moved@.len() == corners@.len(),
        forall|i: int| 0 <= i < corners@.len() ==> #[trigger] moved@[i] == base + corners@[i],
{
    let mut moved: Vec<u32> = Vec::new();
    let mut i: usize = 0;
    while i < corners.len()
        invariant
            i <= corners.len(),
            moved.len() == i,
            forall|i: int| 0 <= i < corners@.len() ==> base + #[trigger] corners@[i] <= u32::MAX,
            forall|j: int| 0 <= j < i ==> #[trigger] moved@[j] == base + corners@[j],
        decreases corners.len() - i,
    {
        moved.push(base + corners[i]);
        i += 1;
    }
    assert(moved@.map_values(|c: u32| c as int) =~= shifted(corners@, base));
    moved
}

/// Whether a character has this part in this colour.
pub open spec fn wears(role: Seq<char>, piece: Piece, paint: Paint) -> bool {
    parts_of(role).contains((piece, paint))
}

/// Of Woof only the tail is to be seen, in the red and white that Waldo and Wenda wear.
/// Everyone unknown looks like Waldo.
pub proof fn law_only_the_tail_of_woof_shows(role: Seq<char>, k: int)
    ensures
        parts_of("woof"@).len() == 3,
        0 <= k < 3 ==> {
            let (piece, paint) = parts_of("woof"@)[k];
            &&& piece == Piece::TailBands || piece == Piece::TailGaps || piece == Piece::Tuft
            &&& paint == if piece == Piece::TailBands {
                Paint::Red
            } else {
                Paint::White
            }
        },
        role != "woof"@ && role != "wizard"@ && role != "wenda"@ && role != "odlaw"@ ==> parts_of(
            role,
        ) == parts_of("waldo"@),
{
    lemma_roles_differ();
}

proof fn lemma_roles_differ()
    ensures
        "waldo"@ != "woof"@,
        "waldo"@ != "wizard"@,
        "waldo"@ != "wenda"@,
        "waldo"@ != "odlaw"@,
        "woof"@ != "wizard"@,
        "woof"@ != "wenda"@,
        "woof"@ != "odlaw"@,
        "wizard"@ != "wenda"@,
        "wizard"@ != "odlaw"@,
        "wenda"@ != "odlaw"@,
{
    reveal_strlit("waldo");
    reveal_strlit("woof");
    reveal_strlit("wizard");
    reveal_strlit("wenda");
    reveal_strlit("odlaw");
    assert("waldo"@.len() == 5 && "wenda"@.len() == 5 && "odlaw"@.len() == 5);
    assert("woof"@.len() == 4 && "wizard"@.len() == 6);
    assert("waldo"@[1] == 'a' && "wenda"@[1] == 'e' && "odlaw"@[1] == 'd');
}

/// Waldo and Wenda wear red and white stripes, and Odlaw yellow and black ones. All three
/// have glasses. Only Waldo has a cane, only Odlaw a moustache, and only Wenda a skirt and
/// long hair, and no trousers.
#[verifier::spinoff_prover]
#[verifier::rlimit(20)]
pub proof fn law_characters_are_told_apart()
    ensures
        parts_of("waldo"@).len() == 13,
        parts_of("wenda"@).len() == 13,
        parts_of("odlaw"@).len() == 13,
        parts_of("wizard"@).len() == 5,
        parts_of("waldo"@).last() == (Piece::Cane, Paint::Brown),
        wears("waldo"@, Piece::ShirtBands, Paint::Red),
        wears("waldo"@, Piece::ShirtGaps, Paint::White),
        wears("waldo"@, Piece::Legs, Paint::Jeans),
        wears("waldo"@, Piece::Glasses, Paint::Dark),
        wears("wenda"@, Piece::ShirtBands, Paint::Red),
        wears("wenda"@, Piece::ShirtGaps, Paint::White),
        wears("wenda"@, Piece::Skirt, Paint::Jeans),
        wears("wenda"@, Piece::LongHair, Paint::Hair),
        wears("wenda"@, Piece::Glasses, Paint::Dark),
        wears("odlaw"@, Piece::ShirtBands, Paint::Yellow),
        wears("odlaw"@, Piece::ShirtGaps, Paint::Black),
        wears("odlaw"@, Piece::Moustache, Paint::Black),
        wears("odlaw"@, Piece::Glasses, Paint::Dark),
        forall|k: int| 0 <= k < 13 ==> (#[trigger] parts_of("wenda"@)[k]).0 != Piece::Legs,
        forall|k: int| 0 <= k < 13 ==> (#[trigger] parts_of("odlaw"@)[k]).1 != Paint::Red,
        forall|k: int| 0 <= k < 13 ==> (#[trigger] parts_of("waldo"@)[k]).0 != Piece::Moustache,
{
    lemma_roles_differ();
    let waldo = parts_of("waldo"@);
    assert(waldo[0] == (Piece::Legs, Paint::Jeans));
    assert(waldo[2] == (Piece::ShirtBands, Paint::Red));
    assert(waldo[3] == (Piece::ShirtGaps, Paint::White));
    assert(waldo[6] == (Piece::Glasses, Paint::Dark));
    let wenda = parts_of("wenda"@);
    assert(wenda[0] == (Piece::Skirt, Paint::Jeans));
    assert(wenda[3] == (Piece::ShirtBands, Paint::Red));
    assert(wenda[4] == (Piece::ShirtGaps, Paint::White));
    assert(wenda[7] == (Piece::Glasses, Paint::Dark));
    assert(wenda[8] == (Piece::LongHair, Paint::Hair));
    let odlaw = parts_of("odlaw"@);
    assert(odlaw[2] == (Piece::ShirtBands, Paint::Yellow));
    assert(odlaw[3] == (Piece::ShirtGaps, Paint::Black));
    assert(odlaw[6] == (Piece::Glasses, Paint::Dark));
    assert(odlaw[8] == (Piece::Moustache, Paint::Black));
}

/// A mesh that is appended keeps its shape: its corners are as far apart as they were, and
/// none of them is one of those that were there.
pub proof fn law_appended_meshes_keep_their_shape(corners: Seq<u32>, base: u32, i: int, j: int)
    requires
        0 <= i < corners.len(),
        0 <= j < corners.len(),
    ensures
        shifted(corners, base).len() == corners.len(),
        shifted(corners, base)[i] - shifted(corners, base)[j] == corners[i] - corners[j],
        shifted(corners, base)[i] >= base,
        shifted(corners, 0)[i] == corners[i],
        corners[i] == 0 ==> shifted(corners, base)[i] == base,
{
}

/// A colour as one number: its red, green and blue behind each other.
pub open spec fn number_of(c: (u8, u8, u8)) -> int {
    0x1_0000 * c.0 + 0x100 * c.1 + c.2
}

/// The paints are what they are called.
pub proof fn law_paints_have_their_colours()
    ensures
        number_of(Paint::Red.color()) == 0xe02020,
        number_of(Paint::White.color()) == 0xffffff,
        number_of(Paint::Yellow.color()) == 0xe8c020,
        number_of(Paint::Black.color()) == 0x26262a,
        number_of(Paint::Skin.color()) == 0xf2c896,
        number_of(Paint::Jeans.color()) == 0x3558c4,
        number_of(Paint::Dark.color()) == 0x2a2a2e,
        number_of(Paint::Hair.color()) == 0x4a3220,
        number_of(Paint::Brown.color()) == 0x8a5a2b,
        number_of(Paint::Cloak.color()) == 0xc0392b,
        number_of(Paint::Silver.color()) == 0xf5f5f5,
{
}

/// From the ground up: what Waldo, Wenda, Odlaw and the Wizard are put together from.
pub proof fn law_characters_are_put_together()
    ensures
        parts_of("waldo"@) == seq![
            (Piece::Legs, Paint::Jeans),
            (Piece::Shoes, Paint::Dark),
            (Piece::ShirtBands, Paint::Red),
            (Piece::ShirtGaps, Paint::White),
            (Piece::Hands, Paint::Skin),
            (Piece::Head, Paint::Skin),
            (Piece::Glasses, Paint::Dark),
            (Piece::ShortHair, Paint::Hair),
            (Piece::Brim, Paint::White),
            (Piece::HatBands, Paint::Red),
            (Piece::HatGaps, Paint::White),
            (Piece::Pompom, Paint::Red),
            (Piece::Cane, Paint::Brown),
        ],
        parts_of("wenda"@) == seq![
            (Piece::Skirt, Paint::Jeans),
            (Piece::StockingBands, Paint::Red),
            (Piece::StockingGaps, Paint::White),
            (Piece::ShirtBands, Paint::Red),
            (Piece::ShirtGaps, Paint::White),
            (Piece::Hands, Paint::Skin),
            (Piece::Head, Paint::Skin),
            (Piece::Glasses, Paint::Dark),
            (Piece::LongHair, Paint::Hair),
            (Piece::Brim, Paint::White),
            (Piece::HatBands, Paint::Red),
            (Piece::HatGaps, Paint::White),
            (Piece::Pompom, Paint::Red),
        ],
        parts_of("odlaw"@) == seq![
            (Piece::Legs, Paint::Dark),
            (Piece::Shoes, Paint::Dark),
            (Piece::ShirtBands, Paint::Yellow),
            (Piece::ShirtGaps, Paint::Black),
            (Piece::Hands, Paint::Skin),
            (Piece::Head, Paint::Skin),
            (Piece::Glasses, Paint::Dark),
            (Piece::ShortHair, Paint::Black),
            (Piece::Moustache, Paint::Black),
            (Piece::Brim, Paint::Black),
            (Piece::HatBands, Paint::Yellow),
            (Piece::HatGaps, Paint::Black),
            (Piece::Pompom, Paint::Yellow),
        ],
        parts_of("wizard"@) == seq![
            (Piece::Robe, Paint::Cloak),
            (Piece::OldHead, Paint::Skin),
            (Piece::Beard, Paint::Silver),
            (Piece::PointedHat, Paint::Cloak),
            (Piece::Staff, Paint::Brown),
        ],
{
    lemma_roles_differ();
    assert(parts_of("waldo"@) =~= seq![
        (Piece::Legs, Paint::Jeans),
        (Piece::Shoes, Paint::Dark),
        (Piece::ShirtBands, Paint::Red),
        (Piece::ShirtGaps, Paint::White),
        (Piece::Hands, Paint::Skin),
        (Piece::Head, Paint::Skin),
        (Piece::Glasses, Paint::Dark),
        (Piece::ShortHair, Paint::Hair),
        (Piece::Brim, Paint::White),
        (Piece::HatBands, Paint::Red),
        (Piece::HatGaps, Paint::White),
        (Piece::Pompom, Paint::Red),
        (Piece::Cane, Paint::Brown),
    ]);
    assert(parts_of("wenda"@) =~= seq![
        (Piece::Skirt, Paint::Jeans),
        (Piece::StockingBands, Paint::Red),
        (Piece::StockingGaps, Paint::White),
        (Piece::ShirtBands, Paint::Red),
        (Piece::ShirtGaps, Paint::White),
        (Piece::Hands, Paint::Skin),
        (Piece::Head, Paint::Skin),
        (Piece::Glasses, Paint::Dark),
        (Piece::LongHair, Paint::Hair),
        (Piece::Brim, Paint::White),
        (Piece::HatBands, Paint::Red),
        (Piece::HatGaps, Paint::White),
        (Piece::Pompom, Paint::Red),
    ]);
    assert(parts_of("odlaw"@) =~= seq![
        (Piece::Legs, Paint::Dark),
        (Piece::Shoes, Paint::Dark),
        (Piece::ShirtBands, Paint::Yellow),
        (Piece::ShirtGaps, Paint::Black),
        (Piece::Hands, Paint::Skin),
        (Piece::Head, Paint::Skin),
        (Piece::Glasses, Paint::Dark),
        (Piece::ShortHair, Paint::Black),
        (Piece::Moustache, Paint::Black),
        (Piece::Brim, Paint::Black),
        (Piece::HatBands, Paint::Yellow),
        (Piece::HatGaps, Paint::Black),
        (Piece::Pompom, Paint::Yellow),
    ]);
    assert(parts_of("wizard"@) =~= seq![
        (Piece::Robe, Paint::Cloak),
        (Piece::OldHead, Paint::Skin),
        (Piece::Beard, Paint::Silver),
        (Piece::PointedHat, Paint::Cloak),
        (Piece::Staff, Paint::Brown),
    ]);
}

} // verus!
