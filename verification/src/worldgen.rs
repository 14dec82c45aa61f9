//! World generation, as far as it is decided rather than measured: what a mutator
//! changes, which triangle a sample falls into, where the cast may stand, how much scenery
//! is tried, and what colour it gets.
//!
//! Distances are the bits of non-negative single-precision numbers, which order as the
//! numbers do.

use vstd::prelude::*;

use crate::rng::{law_picks_are_in_range, Rng, RngView};
use crate::text::same;

verus! {

/// Knobs a round mutator can turn, in hundredths. Everyone derives these from the mutator
/// name, keeping generation deterministic.
#[derive(Clone, Copy, Debug, PartialEq, Eq, Structural)]
pub struct GenOptions {
    pub density_pct: u32,
    pub size_pct: u32,
}

impl Default for GenOptions {
    fn default() -> (o: Self)
        ensures
            o == (GenOptions { density_pct: 100, size_pct: 100 }),
    {
        GenOptions { density_pct: 100, size_pct: 100 }
    }
}

/// What a mutator does to the world: a crowded round has more of everything, a tiny one
/// a smaller planet.
pub open spec fn options(mutator: Seq<char>) -> GenOptions {
    if mutator == "crowded"@ {
        GenOptions { density_pct: 170, size_pct: 100 }
    } else if mutator == "tiny"@ {
        GenOptions { density_pct: 100, size_pct: 62 }
    } else {
        GenOptions { density_pct: 100, size_pct: 100 }
    }
}

pub fn mutator_opts(mutator: &str) -> (o: GenOptions)
    ensures
        o == options(mutator@),
{
    if same(mutator, "crowded") {
        GenOptions { density_pct: 170, size_pct: 100 }
    } else if same(mutator, "tiny") {
        GenOptions { density_pct: 100, size_pct: 62 }
    } else {
        GenOptions::default()
    }
}

/// Whether running totals never go down.
pub open spec fn is_running_total(totals: Seq<u32>) -> bool {
    forall|i: int, j: int| 0 <= i <= j < totals.len() ==> totals[i] <= totals[j]
}

/// Whether a sample falls into this triangle: the first whose running total of area
/// reaches the target, or the last.
pub open spec fn is_picked(totals: Seq<u32>, target: u32, t: int) -> bool {
    &&& 0 <= t < totals.len()
    &&& forall|j: int| 0 <= j < t ==> totals[j] < target
    &&& t < totals.len() - 1 ==> totals[t] >= target
}

/// Which triangle of a surface a sample falls into: the first whose running total of
/// area reaches the target, or the last.
pub fn pick_triangle(totals: &Vec<u32>, target: u32) -> (t: usize)
    requires
        totals@.len() > 0,
        is_running_total(totals@),
    ensures
        is_picked(totals@, target, t as int),
        t < totals@.len(),
        forall|j: int| 0 <= j < t ==> totals@[j] < target,
        t < totals@.len() - 1 ==> totals@[t as int] >= target,
{
    let mut low: usize = 0;
    let mut high: usize = totals.len() - 1;
    while low < high
        invariant
            low <= high < totals@.len(),
            is_running_total(totals@),
            forall|j: int| 0 <= j < low ==> totals@[j] < target,
            high < totals@.len() - 1 ==> totals@[high as int] >= target,
        decreases high - low,
    {
        let mid = low + (high - low) / 2;
        if totals[mid] < target {
            low = mid + 1;
        } else {
            high = mid;
        }
    }
    low
}

/// How many members the supporting cast has.
pub const CAST: usize = 4;

/// How often a place is looked for before any will do.
pub const CAST_TRIES: u32 = 100;

/// The cast in the order they are placed, and how tall each stands in tenths.
pub open spec fn member(i: int) -> (Seq<char>, u32) {
    if i == 0 {
        ("wenda"@, 15)
    } else if i == 1 {
        ("odlaw"@, 15)
    } else if i == 2 {
        ("woof"@, 9)
    } else {
        ("wizard"@, 16)
    }
}

pub fn cast_member(i: usize) -> (m: (&'static str, u32))
    ensures
        (m.0@, m.1) == member(i as int),
{
    match i {
        0 => ("wenda", 15),
        1 => ("odlaw", 15),
        2 => ("woof", 9),
        _ => ("wizard", 16),
    }
}

/// Whether every one of these distances is at least so much.
pub open spec fn all_at_least(distances: Seq<u32>, min: u32) -> bool {
    forall|i: int| 0 <= i < distances.len() ==> #[trigger] distances[i] >= min
}

fn at_least(distances: &Vec<u32>, min: u32) -> (r: bool)
    ensures
        r == all_at_least(distances@, min),
{
    let mut i: usize = 0;
    while i < distances.len()
        invariant
            i <= distances.len(),
            forall|j: int| 0 <= j < i ==> #[trigger] distances@[j] >= min,
        decreases distances.len() - i,
    {
        if distances[i] < min {
            return false;
        }
        i += 1;
    }
    true
}

/// How much room the cast wants: from Waldo, and between each other.
#[derive(Clone, Copy, Debug, PartialEq, Eq, Structural)]
pub struct Spacing {
    pub from_waldo: u32,
    pub between: u32,
}

/// Places the supporting cast, spaced away from Waldo and each other.
#[derive(Clone, Copy, Debug, PartialEq, Eq, Structural)]
pub struct CastPlacer {
    /// How many members have a place.
    pub placed: usize,
    /// How many places have been tried for the next.
    pub tries: u32,
}

impl CastPlacer {
    pub open spec fn valid(self) -> bool {
        self.placed <= CAST && self.tries <= CAST_TRIES
    }

    pub open spec fn suits(to_waldo: u32, to_cast: Seq<u32>, spacing: Spacing) -> bool {
        to_waldo >= spacing.from_waldo && all_at_least(to_cast, spacing.between)
    }

    /// How many places may still be tried at most.
    pub open spec fn tries_left(self) -> int {
        (CAST - self.placed) * (CAST_TRIES + 1) - self.tries
    }

    /// Whether the next member takes a place, and the placer after that.
    pub open spec fn considering(
        self,
        to_waldo: u32,
        to_cast: Seq<u32>,
        spacing: Spacing,
    ) -> (bool, CastPlacer) {
        if CastPlacer::suits(to_waldo, to_cast, spacing) || self.tries >= CAST_TRIES {
            (true, CastPlacer { placed: (self.placed + 1) as usize, tries: 0 })
        } else {
            (false, CastPlacer { placed: self.placed, tries: (self.tries + 1) as u32 })
        }
    }

    /// Whether everyone has a place.
    pub open spec fn done(self) -> bool {
        self.placed >= CAST
    }

    pub fn new() -> (placer: Self)
        ensures
            placer == (CastPlacer { placed: 0, tries: 0 }),
    {
        CastPlacer { placed: 0, tries: 0 }
    }

    pub fn is_done(&self) -> (r: bool)
        ensures
            r == self.done(),
            r == (self.placed >= CAST),
    {
        self.placed >= CAST
    }

    /// Considers a place for the next member, by its distance to Waldo and to those who
    /// have one, and says whether they take it. After enough tries they take any.
    pub fn consider(&mut self, to_waldo: u32, to_cast: &Vec<u32>, spacing: Spacing) -> (taken: bool)
        requires
            old(self).valid(),
            old(self).placed < CAST,
        ensures
            (taken, *final(self)) == old(self).considering(to_waldo, to_cast@, spacing),
            taken == (CastPlacer::suits(to_waldo, to_cast@, spacing) || old(self).tries
                >= CAST_TRIES),
            *final(self) == if taken {
                CastPlacer { placed: (old(self).placed + 1) as usize, tries: 0 }
            } else {
                CastPlacer { placed: old(self).placed, tries: (old(self).tries + 1) as u32 }
            },
            final(self).valid(),
            final(self).tries_left() < old(self).tries_left(),
    {
        let suits = to_waldo >= spacing.from_waldo && at_least(to_cast, spacing.between);
        if suits || self.tries >= CAST_TRIES {
            assert((CAST - self.placed - 1) * (CAST_TRIES + 1) == (CAST - self.placed) * (CAST_TRIES
                + 1) - (CAST_TRIES + 1)) by (nonlinear_arith);
            self.placed += 1;
            self.tries = 0;
            true
        } else {
            self.tries += 1;
            false
        }
    }
}

/// The least distance of scenery from the cast.
pub const CAST_CLEARANCE: u32 = 0x3f19_999a;

/// How many kinds of scenery there are.
pub const KINDS: usize = 11;

/// How often a place for scenery is looked for, per piece wanted.
pub const SCENERY_TRIES: usize = 30;

/// A kind of scenery: how many a planet of ordinary size has, and the least distance
/// from Waldo.
pub struct KindSpec {
    pub kind: &'static str,
    pub count_min: u32,
    pub count_max: u32,
    pub clearance: u32,
}

pub struct KindView {
    pub kind: Seq<char>,
    pub count_min: int,
    pub count_max: int,
    pub clearance: u32,
}

impl View for KindSpec {
    type V = KindView;

    open spec fn view(&self) -> KindView {
        KindView {
            kind: self.kind@,
            count_min: self.count_min as int,
            count_max: self.count_max as int,
            clearance: self.clearance,
        }
    }
}

pub open spec fn kind_view(
    kind: Seq<char>,
    count_min: int,
    count_max: int,
    clearance: u32,
) -> KindView {
    KindView { kind, count_min, count_max, clearance }
}

/// The kinds of scenery in the order they are placed. Distances are 0.8, 0.8, 0.6, 1.6,
/// 1.4, 1.6, 1.4, 1.2, 0.6, 0.7 and 3.5.
pub open spec fn kinds() -> Seq<KindView> {
    seq![
        kind_view("pine"@, 220, 420, 0x3f4c_cccd),
        kind_view("tree"@, 90, 200, 0x3f4c_cccd),
        kind_view("bush"@, 120, 260, 0x3f19_999a),
        kind_view("building"@, 120, 240, 0x3fcc_cccd),
        kind_view("house"@, 45, 100, 0x3fb3_3333),
        kind_view("tower"@, 25, 60, 0x3fcc_cccd),
        kind_view("dome"@, 15, 40, 0x3fb3_3333),
        kind_view("pond"@, 12, 30, 0x3f99_999a),
        kind_view("car"@, 30, 80, 0x3f19_999a),
        kind_view("rock"@, 50, 120, 0x3f33_3333),
        kind_view("decoy"@, 5, 12, 0x4060_0000),
    ]
}

pub fn kind_spec(i: usize) -> (k: KindSpec)
    requires
        i < KINDS,
    ensures
        k@ == kinds()[i as int],
{
    let (kind, count_min, count_max, clearance): (&'static str, u32, u32, u32) = match i {
        0 => ("pine", 220, 420, 0x3f4c_cccd),
        1 => ("tree", 90, 200, 0x3f4c_cccd),
        2 => ("bush", 120, 260, 0x3f19_999a),
        3 => ("building", 120, 240, 0x3fcc_cccd),
        4 => ("house", 45, 100, 0x3fb3_3333),
        5 => ("tower", 25, 60, 0x3fcc_cccd),
        6 => ("dome", 15, 40, 0x3fb3_3333),
        7 => ("pond", 12, 30, 0x3f99_999a),
        8 => ("car", 30, 80, 0x3f19_999a),
        9 => ("rock", 50, 120, 0x3f33_3333),
        _ => ("decoy", 5, 12, 0x4060_0000),
    };
    KindSpec { kind, count_min, count_max, clearance }
}

/// Places scenery of one kind: so many pieces, or as many as fit in a bounded number of
/// tries.
#[derive(Clone, Copy, Debug, PartialEq, Eq, Structural)]
pub struct Crop {
    pub count: usize,
    pub placed: u32,
    pub tries: usize,
}

impl Crop {
    pub open spec fn valid(self) -> bool {
        &&& self.count <= u32::MAX
        &&& self.count * SCENERY_TRIES <= usize::MAX
        &&& self.placed <= self.count
        &&& self.tries <= self.count * SCENERY_TRIES
        &&& self.placed <= self.tries
    }

    pub open spec fn goes_on(self) -> bool {
        self.placed < self.count && self.tries < self.count * SCENERY_TRIES
    }

    /// Whether scenery may stand so far from Waldo and from the cast.
    pub open spec fn is_clear(to_waldo: u32, to_cast: Seq<u32>, clearance: u32) -> bool {
        to_waldo >= clearance && all_at_least(to_cast, CAST_CLEARANCE)
    }

    /// Whether a piece is put at a place, and the crop after that.
    pub open spec fn considering(
        self,
        to_waldo: u32,
        to_cast: Seq<u32>,
        clearance: u32,
    ) -> (bool, Crop) {
        let put = Crop::is_clear(to_waldo, to_cast, clearance);
        (
            put,
            Crop {
                count: self.count,
                placed: if put {
                    (self.placed + 1) as u32
                } else {
                    self.placed
                },
                tries: (self.tries + 1) as usize,
            },
        )
    }

    pub fn new(count: usize) -> (crop: Self)
        requires
            count <= u32::MAX,
            count * SCENERY_TRIES <= usize::MAX,
        ensures
            crop == (Crop { count, placed: 0, tries: 0 }),
            crop.valid(),
    {
        Crop { count, placed: 0, tries: 0 }
    }

    pub fn wants_more(&self) -> (r: bool)
        requires
            self.valid(),
        ensures
            r == self.goes_on(),
    {
        (self.placed as usize) < self.count && self.tries < self.count * SCENERY_TRIES
    }

    /// Tries a place, by its distance to Waldo and to the cast, and says whether a piece
    /// is put there.
    pub fn consider(&mut self, to_waldo: u32, to_cast: &Vec<u32>, clearance: u32) -> (put: bool)
        requires
            old(self).valid(),
            old(self).goes_on(),
        ensures
            (put, *final(self)) == old(self).considering(to_waldo, to_cast@, clearance),
            put == Crop::is_clear(to_waldo, to_cast@, clearance),
            *final(self) == (Crop {
                count: old(self).count,
                placed: if put {
                    (old(self).placed + 1) as u32
                } else {
                    old(self).placed
                },
                tries: (old(self).tries + 1) as usize,
            }),
            final(self).valid(),
    {
        self.tries += 1;
        if to_waldo >= clearance && at_least(to_cast, CAST_CLEARANCE) {
            self.placed += 1;
            true
        } else {
            false
        }
    }
}

/// The colours that a kind of scenery comes in, first its main ones, then its second
/// ones. A kind without colours is drawn as it is.
pub open spec fn colors_of(kind: Seq<char>) -> (Seq<u32>, Seq<u32>) {
    if kind == "pine"@ || kind == "tree"@ || kind == "bush"@ {
        (seq![0x2e7d32u32, 0x388e3c, 0x1b5e20, 0x43a047, 0x33691e], seq![])
    } else if kind == "building"@ {
        (
            seq![
                0xb9c0c9u32,
                0x8f9aa8,
                0xd8cfc0,
                0xc96f5a,
                0x7a8ea3,
                0xe0d6b8,
                0x9c8d7d,
                0x6d7b8d,
            ],
            seq![],
        )
    } else if kind == "house"@ {
        (seq![0xc0392bu32, 0xa93226, 0xd35400], seq![0xf5e6c8u32, 0xe8d5b0, 0xdfd0c0])
    } else if kind == "tower"@ {
        (seq![0xc9b8a0u32, 0xa8b8c8, 0xd0c0b0, 0x9098a8, 0xb0a890], seq![])
    } else if kind == "dome"@ {
        (seq![0xd9b84au32, 0xe8e8e0, 0x5aa0a8, 0xc07858], seq![])
    } else if kind == "car"@ {
        (seq![0xd94040u32, 0x4070d9, 0xe8c030, 0x40b060, 0xe8e8e8, 0x303038], seq![])
    } else {
        (seq![], seq![])
    }
}

pub fn palettes(kind: &str) -> (p: (Vec<u32>, Vec<u32>))
    ensures
        (p.0@, p.1@) == colors_of(kind@),
{
    let none: Vec<u32> = Vec::new();
    let p: (Vec<u32>, Vec<u32>) = if same(kind, "pine") || same(kind, "tree") || same(
        kind,
        "bush",
    ) {
        (vec![0x2e7d32, 0x388e3c, 0x1b5e20, 0x43a047, 0x33691e], none)
    } else if same(kind, "building") {
        (
            vec![
                0xb9c0c9, 0x8f9aa8, 0xd8cfc0, 0xc96f5a, 0x7a8ea3, 0xe0d6b8, 0x9c8d7d, 0x6d7b8d,
            ],
            none,
        )
    } else if same(kind, "house") {
        (vec![0xc0392b, 0xa93226, 0xd35400], vec![0xf5e6c8, 0xe8d5b0, 0xdfd0c0])
    } else if same(kind, "tower") {
        (vec![0xc9b8a0, 0xa8b8c8, 0xd0c0b0, 0x9098a8, 0xb0a890], none)
    } else if same(kind, "dome") {
        (vec![0xd9b84a, 0xe8e8e0, 0x5aa0a8, 0xc07858], none)
    } else if same(kind, "car") {
        (vec![0xd94040, 0x4070d9, 0xe8c030, 0x40b060, 0xe8e8e8, 0x303038], none)
    } else {
        (Vec::new(), none)
    };
    assert(p.0@ =~= colors_of(kind@).0);
    assert(p.1@ =~= colors_of(kind@).1);
    p
}

/// Red, green and blue of a colour written as one number.
pub open spec fn channels(c: u32) -> (u8, u8, u8) {
    (((c >> 16) & 255) as u8, ((c >> 8) & 255) as u8, (c & 255) as u8)
}

pub fn hex(c: u32) -> (rgb: (u8, u8, u8))
    ensures
        rgb == channels(c),
{
    assert((c >> 16) & 255 <= 255 && (c >> 8) & 255 <= 255 && c & 255 <= 255) by (bit_vector);
    (((c >> 16) & 255) as u8, ((c >> 8) & 255) as u8, (c & 255) as u8)
}

/// The colour that a draw out of a palette gives, and the random stream after it.
pub open spec fn painted(rng: RngView, palette: Seq<u32>) -> (Option<(u8, u8, u8)>, RngView) {
    if palette.len() == 0 {
        (None, rng)
    } else {
        (Some(channels(palette[rng.picked(palette.len()) as int])), rng.next())
    }
}

/// Draws a colour out of a palette. An empty one draws nothing.
pub fn paint(rng: &mut Rng, palette: &Vec<u32>) -> (color: Option<(u8, u8, u8)>)
    ensures
        (color, final(rng)@) == painted(old(rng)@, palette@),
        palette@.len() == 0 ==> color is None && final(rng)@ == old(rng)@,
        palette@.len() > 0 ==> color == Some(
            channels(palette@[old(rng)@.picked(palette@.len()) as int]),
        ) && final(rng)@ == old(rng)@.next(),
{
    if palette.len() == 0 {
        None
    } else {
        let i = rng.below(palette.len());
        Some(hex(palette[i]))
    }
}

/// A mutator changes one thing about the world at most: a crowded round has 1.7 times as much
/// of everything, and a tiny planet is 0.62 times as big.
pub proof fn law_mutators_change_one_thing(mutator: Seq<char>)
    ensures
        ({
            let o = options(mutator);
            &&& o.density_pct == 170 <==> mutator == "crowded"@
            &&& o.density_pct == 100 <==> mutator != "crowded"@
            &&& o.size_pct == 62 <==> mutator == "tiny"@
            &&& o.size_pct == 100 <==> mutator != "tiny"@
        }),
{
    reveal_strlit("crowded");
    reveal_strlit("tiny");
    assert("crowded"@.len() == 7 && "tiny"@.len() == 4);
}

/// Wenda, Odlaw, Woof and the Wizard are placed in that order, 1.5, 1.5, 0.9 and 1.6 tall.
pub proof fn law_the_cast_has_four()
    ensures
        member(0) == ("wenda"@, 15u32),
        member(1) == ("odlaw"@, 15u32),
        member(2) == ("woof"@, 9u32),
        member(3) == ("wizard"@, 16u32),
{
}

/// The next of the cast takes a place where they are far enough from Waldo and from each of
/// the others, and no other place until a hundred did not do. Then the next is looked for
/// anew, until four have one.
pub proof fn law_the_cast_keeps_its_distance(
    placer: CastPlacer,
    to_waldo: u32,
    to_cast: Seq<u32>,
    spacing: Spacing,
)
    requires
        placer.valid(),
        placer.placed < 4,
    ensures
        ({
            let (taken, after) = placer.considering(to_waldo, to_cast, spacing);
            let near = exists|i: int|
                0 <= i < to_cast.len() && #[trigger] to_cast[i] < spacing.between;
            &&& placer.tries < 100 ==> (taken <==> to_waldo >= spacing.from_waldo && !near)
            &&& placer.tries == 100 ==> taken
            &&& taken ==> after.placed == placer.placed + 1 && after.tries == 0
            &&& !taken ==> after.placed == placer.placed && after.tries == placer.tries + 1
            &&& after.done() <==> after.placed == 4
        }),
        placer.tries <= 100,
{
}

/// A piece of scenery is put wherever it is clear of Waldo, by as much as its kind asks, and
/// of the cast by 0.6. Every place counts as one of thirty for each piece wanted, and what is
/// wanted is as many pieces as were asked for.
pub proof fn law_scenery_keeps_clear(
    crop: Crop,
    to_waldo: u32,
    to_cast: Seq<u32>,
    clearance: u32,
)
    requires
        crop.valid(),
        crop.goes_on(),
    ensures
        ({
            let (put, after) = crop.considering(to_waldo, to_cast, clearance);
            let near = exists|i: int| 0 <= i < to_cast.len() && #[trigger] to_cast[i] < 0x3f19_999a;
            &&& put <==> to_waldo >= clearance && !near
            &&& after.count == crop.count
            &&& after.tries == crop.tries + 1
            &&& put ==> after.placed == crop.placed + 1
            &&& !put ==> after.placed == crop.placed
            &&& after.goes_on() <==> after.placed < crop.count && after.tries < 30 * crop.count
        }),
{
}

/// Every kind of scenery has its own name and a range of how many there are, and decoys keep
/// further from Waldo than anything else.
pub proof fn law_kinds_of_scenery(i: int)
    requires
        0 <= i < 11,
    ensures
        kinds().len() == 11,
        0 < kinds()[i].count_min < kinds()[i].count_max,
        kinds()[10].kind == "decoy"@,
        i < 10 ==> kinds()[i].clearance < kinds()[10].clearance,
        kinds()[i].clearance >= 0x3f19_999a,
        is_kind(kinds()[0], "pine"@, 220, 420, 0x3f4c_cccd),
        is_kind(kinds()[1], "tree"@, 90, 200, 0x3f4c_cccd),
        is_kind(kinds()[2], "bush"@, 120, 260, 0x3f19_999a),
        is_kind(kinds()[3], "building"@, 120, 240, 0x3fcc_cccd),
        is_kind(kinds()[4], "house"@, 45, 100, 0x3fb3_3333),
        is_kind(kinds()[5], "tower"@, 25, 60, 0x3fcc_cccd),
        is_kind(kinds()[6], "dome"@, 15, 40, 0x3fb3_3333),
        is_kind(kinds()[7], "pond"@, 12, 30, 0x3f99_999a),
        is_kind(kinds()[8], "car"@, 30, 80, 0x3f19_999a),
        is_kind(kinds()[9], "rock"@, 50, 120, 0x3f33_3333),
        is_kind(kinds()[10], "decoy"@, 5, 12, 0x4060_0000),
{
}

/// A kind of scenery of this name, so many of it and so far from Waldo.
pub open spec fn is_kind(k: KindView, name: Seq<char>, least: int, most: int, from: u32) -> bool {
    k.kind == name && k.count_min == least && k.count_max == most && k.clearance == from
}

/// Scenery comes in the colours of its kind. The second ones are for houses alone, and what
/// has none is drawn as it is.
pub proof fn law_palettes_of_scenery(kind: Seq<char>)
    ensures
        colors_of(kind).1.len() == if kind == "house"@ {
            3nat
        } else {
            0
        },
        kind == "pine"@ || kind == "tree"@ || kind == "bush"@ ==> colors_of(kind).0 == seq![
            0x2e7d32u32,
            0x388e3c,
            0x1b5e20,
            0x43a047,
            0x33691e,
        ],
        kind == "building"@ ==> colors_of(kind).0 == seq![
            0xb9c0c9u32,
            0x8f9aa8,
            0xd8cfc0,
            0xc96f5a,
            0x7a8ea3,
            0xe0d6b8,
            0x9c8d7d,
            0x6d7b8d,
        ],
        kind == "house"@ ==> colors_of(kind) == (
            seq![0xc0392bu32, 0xa93226, 0xd35400],
            seq![0xf5e6c8u32, 0xe8d5b0, 0xdfd0c0],
        ),
        kind == "tower"@ ==> colors_of(kind).0 == seq![
            0xc9b8a0u32,
            0xa8b8c8,
            0xd0c0b0,
            0x9098a8,
            0xb0a890,
        ],
        kind == "dome"@ ==> colors_of(kind).0 == seq![0xd9b84au32, 0xe8e8e0, 0x5aa0a8, 0xc07858],
        kind == "car"@ ==> colors_of(kind).0 == seq![
            0xd94040u32,
            0x4070d9,
            0xe8c030,
            0x40b060,
            0xe8e8e8,
            0x303038,
        ],
        kind == "pond"@ || kind == "rock"@ || kind == "decoy"@ ==> colors_of(kind).0.len() == 0,
{
    reveal_strlit("pine");
    reveal_strlit("tree");
    reveal_strlit("bush");
    reveal_strlit("building");
    reveal_strlit("house");
    reveal_strlit("tower");
    reveal_strlit("dome");
    reveal_strlit("car");
    reveal_strlit("pond");
    reveal_strlit("rock");
    reveal_strlit("decoy");
    assert("pine"@.len() == 4 && "tree"@.len() == 4 && "bush"@.len() == 4 && "dome"@.len() == 4
        && "pond"@.len() == 4 && "rock"@.len() == 4);
    assert("building"@.len() == 8 && "car"@.len() == 3);
    assert("house"@.len() == 5 && "tower"@.len() == 5 && "decoy"@.len() == 5);
    assert("house"@[0] == 'h' && "tower"@[0] == 't' && "decoy"@[0] == 'd');
    assert("pine"@[0] == 'p' && "pine"@[1] == 'i' && "pond"@[0] == 'p' && "pond"@[1] == 'o');
    assert("tree"@[0] == 't' && "bush"@[0] == 'b' && "dome"@[0] == 'd' && "rock"@[0] == 'r');
}

/// A colour written as one number is its red, green and blue behind each other.
pub proof fn law_colours_hold_three_bytes(c: u32)
    requires
        c < 0x100_0000,
    ensures
        ({
            let (r, g, b) = channels(c);
            0x1_0000 * r + 0x100 * g + b == c
        }),
{
    assert(((c >> 16) & 255) * 0x1_0000 + ((c >> 8) & 255) * 0x100 + (c & 255) == c && ((c >> 16)
        & 255) < 256 && ((c >> 8) & 255) < 256 && (c & 255) < 256) by (bit_vector)
        requires
            c < 0x100_0000,
    ;
}

/// What is painted has one of the palette's colours, the one picked, at the price of one draw.
/// An empty palette paints nothing and draws nothing.
pub proof fn law_paint_is_out_of_the_palette(rng: RngView, palette: Seq<u32>)
    ensures
        palette.len() == 0 ==> painted(rng, palette).0 is None && painted(rng, palette).1 == rng,
        palette.len() > 0 ==> ({
            let k = rng.picked(palette.len()) as int;
            &&& 0 <= k < palette.len()
            &&& painted(rng, palette) == (Some(channels(palette[k])), rng.next())
        }),
{
    if palette.len() > 0 {
        law_picks_are_in_range(rng, palette.len());
    }
}

/// A sample falls into the triangle whose share of the area it lies in, and into one only:
/// past the running total of the one before, and not past its own, unless it is the last.
/// Further samples fall into no earlier ones.
pub proof fn law_samples_fall_by_area(
    totals: Seq<u32>,
    target: u32,
    further: u32,
    t: int,
    u: int,
    i: int,
)
    requires
        is_running_total(totals),
        is_picked(totals, target, t),
        is_picked(totals, further, u),
        target <= further,
    ensures
        t <= u,
        target == further ==> t == u,
        0 < i < totals.len() && totals[i - 1] < target <= totals[i] ==> t == i,
        target <= totals[0] ==> t == 0,
        target > totals[totals.len() - 1] ==> t == totals.len() - 1,
{
    if u < t {
        assert(totals[u] < target);
    }
    if t < u {
        assert(totals[t] < further);
    }
    if 0 < i < totals.len() && totals[i - 1] < target <= totals[i] {
        if t < i {
            assert(totals[t] <= totals[i - 1]);
        }
    }
    if t < totals.len() - 1 {
        assert(totals[t] <= totals[totals.len() - 1]);
    }
}

} // verus!
