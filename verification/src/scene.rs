//! What the renderer decides: which models scenery is drawn with, when the scene is
//! rebuilt, what a press of the mouse means, and which markers are on the planet.

use vstd::prelude::*;

use crate::ordering::{kept, lemma_filter_keeps};
use crate::protocol::Spot;
use crate::state::{Game, GameView, Ping, Tint};
use crate::text::same;

verus! {

/// How a kind of scenery is drawn.
pub enum Looks {
    /// With these models in turn, at this size in hundredths.
    Models { names: Vec<&'static str>, size_pct: u32 },
    Pond,
    Decoy,
    Nothing,
}

pub enum LooksView {
    Models { names: Seq<Seq<char>>, size_pct: u32 },
    Pond,
    Decoy,
    Nothing,
}

pub open spec fn names_of(s: Seq<&'static str>) -> Seq<Seq<char>> {
    s.map_values(|n: &'static str| n@)
}

impl View for Looks {
    type V = LooksView;

    open spec fn view(&self) -> LooksView {
        match *self {
            Looks::Models { names, size_pct } => LooksView::Models {
                names: names_of(names@),
                size_pct,
            },
            Looks::Pond => LooksView::Pond,
            Looks::Decoy => LooksView::Decoy,
            Looks::Nothing => LooksView::Nothing,
        }
    }
}

pub open spec fn modelled(names: Seq<Seq<char>>, size_pct: u32) -> LooksView {
    LooksView::Models { names, size_pct }
}

pub open spec fn looks(kind: Seq<char>) -> LooksView {
    if kind == "pine"@ {
        modelled(
            seq![
                "tree_pineDefaultA"@,
                "tree_pineDefaultB"@,
                "tree_pineRoundA"@,
                "tree_pineRoundC"@,
                "tree_pineTallA"@,
            ],
            125,
        )
    } else if kind == "tree"@ {
        modelled(
            seq![
                "tree_default"@,
                "tree_default_dark"@,
                "tree_oak"@,
                "tree_detailed"@,
                "tree_fat"@,
            ],
            90,
        )
    } else if kind == "bush"@ {
        modelled(
            seq![
                "plant_bush"@,
                "plant_bushLarge"@,
                "plant_bushDetailed"@,
                "flower_redA"@,
                "mushroom_red"@,
            ],
            32,
        )
    } else if kind == "building"@ {
        modelled(
            seq![
                "building-a"@,
                "building-b"@,
                "building-c"@,
                "building-d"@,
                "building-e"@,
                "building-f"@,
                "building-g"@,
                "building-h"@,
            ],
            105,
        )
    } else if kind == "tower"@ {
        modelled(
            seq![
                "building-skyscraper-a"@,
                "building-skyscraper-b"@,
                "building-skyscraper-c"@,
                "building-skyscraper-d"@,
                "building-skyscraper-e"@,
            ],
            115,
        )
    } else if kind == "house"@ {
        modelled(
            seq![
                "building-type-a"@,
                "building-type-b"@,
                "building-type-c"@,
                "building-type-d"@,
                "building-type-e"@,
                "building-type-f"@,
                "building-type-g"@,
                "building-type-h"@,
            ],
            90,
        )
    } else if kind == "dome"@ {
        modelled(seq!["detail-parasol-a"@, "detail-parasol-b"@], 55)
    } else if kind == "car"@ {
        modelled(
            seq![
                "sedan"@,
                "suv"@,
                "taxi"@,
                "van"@,
                "police"@,
                "hatchback-sports"@,
                "sedan-sports"@,
                "truck"@,
            ],
            24,
        )
    } else if kind == "rock"@ {
        modelled(
            seq![
                "rock_largeA"@,
                "rock_largeB"@,
                "rock_largeC"@,
                "rock_tallA"@,
                "rock_tallB"@,
                "rock_smallA"@,
            ],
            40,
        )
    } else if kind == "pond"@ {
        LooksView::Pond
    } else if kind == "decoy"@ {
        LooksView::Decoy
    } else {
        LooksView::Nothing
    }
}

fn models(names: Vec<&'static str>, size_pct: u32) -> (l: Looks)
    ensures
        l@ == modelled(names_of(names@), size_pct),
{
    Looks::Models { names, size_pct }
}

/// How a kind of scenery is drawn.
pub fn looks_of(kind: &str) -> (l: Looks)
    ensures
        l@ == looks(kind@),
{
    let l = if same(kind, "pine") {
        models(
            vec![
                "tree_pineDefaultA", "tree_pineDefaultB", "tree_pineRoundA", "tree_pineRoundC",
                "tree_pineTallA",
            ],
            125,
        )
    } else if same(kind, "tree") {
        models(
            vec!["tree_default", "tree_default_dark", "tree_oak", "tree_detailed", "tree_fat"],
            90,
        )
    } else if same(kind, "bush") {
        models(
            vec![
                "plant_bush", "plant_bushLarge", "plant_bushDetailed", "flower_redA",
                "mushroom_red",
            ],
            32,
        )
    } else if same(kind, "building") {
        models(
            vec![
                "building-a", "building-b", "building-c", "building-d", "building-e",
                "building-f", "building-g", "building-h",
            ],
            105,
        )
    } else if same(kind, "tower") {
        models(
            vec![
                "building-skyscraper-a", "building-skyscraper-b", "building-skyscraper-c",
                "building-skyscraper-d", "building-skyscraper-e",
            ],
            115,
        )
    } else if same(kind, "house") {
        models(
            vec![
                "building-type-a", "building-type-b", "building-type-c", "building-type-d",
                "building-type-e", "building-type-f", "building-type-g", "building-type-h",
            ],
            90,
        )
    } else if same(kind, "dome") {
        models(vec!["detail-parasol-a", "detail-parasol-b"], 55)
    } else if same(kind, "car") {
        models(
            vec![
                "sedan", "suv", "taxi", "van", "police", "hatchback-sports", "sedan-sports",
                "truck",
            ],
            24,
        )
    } else if same(kind, "rock") {
        models(
            vec![
                "rock_largeA", "rock_largeB", "rock_largeC", "rock_tallA", "rock_tallB",
                "rock_smallA",
            ],
            40,
        )
    } else if same(kind, "pond") {
        Looks::Pond
    } else if same(kind, "decoy") {
        Looks::Decoy
    } else {
        Looks::Nothing
    };
    proof {
        if l@ is Models && looks(kind@) is Models {
            assert(l@->Models_names =~= looks(kind@)->Models_names);
        }
    }
    l
}

pub open spec fn is_turn(n: int, v: int) -> spec_fn(usize) -> bool {
    |i: usize| i as int % n == v
}

/// The numbers from 0 up to `count`.
pub open spec fn up_to(count: int) -> Seq<usize> {
    Seq::new(count as nat, |i: int| i as usize)
}

/// Deals pieces of scenery out to so many models in turn: which pieces each model draws.
pub fn deal(count: usize, n: usize) -> (hands: Vec<Vec<usize>>)
    requires
        n > 0,
    ensures
        hands@.len() == n,
        forall|v: int|
            0 <= v < n ==> (#[trigger] hands@[v])@ == up_to(count as int).filter(
                is_turn(n as int, v),
            ),
{
    let mut hands: Vec<Vec<usize>> = Vec::new();
    let mut v: usize = 0;
    while v < n
        invariant
            v <= n,
            hands@.len() == v,
            forall|w: int| 0 <= w < v ==> (#[trigger] hands@[w])@ == Seq::<usize>::empty(),
        decreases n - v,
    {
        hands.push(Vec::new());
        v += 1;
    }
    let mut i: usize = 0;
    proof {
        reveal(Seq::filter);
        assert forall|w: int| 0 <= w < n implies (#[trigger] hands@[w])@ == up_to(0).filter(
            is_turn(n as int, w),
        ) by {
            assert(up_to(0).len() == 0);
        }
    }
    while i < count
        invariant
            n > 0,
            i <= count,
            hands@.len() == n,
            forall|w: int|
                0 <= w < n ==> (#[trigger] hands@[w])@ == up_to(i as int).filter(
                    is_turn(n as int, w),
                ),
        decreases count - i,
    {
        let turn = i % n;
        let ghost before = hands@;
        hands[turn].push(i);
        proof {
            reveal(Seq::filter);
            assert(up_to(i + 1).drop_last() =~= up_to(i as int));
            assert forall|w: int| 0 <= w < n implies (#[trigger] hands@[w])@ == up_to(
                i + 1,
            ).filter(is_turn(n as int, w)) by {
                if w != turn {
                    assert(hands@[w] == before[w]);
                }
            }
        }
        i += 1;
    }
    hands
}

/// A drag that moved the pointer less than this is a click: 4.0, as the bits of a
/// single-precision number.
pub const CLICK_SLACK: u32 = 0x4080_0000;

/// What the mouse is doing. How far it moved since it was pressed is the bits of a
/// non-negative single-precision number, which order as the numbers do.
#[derive(Clone, Copy, Debug, PartialEq, Eq, Structural)]
pub struct Pointer {
    pub dragging: bool,
}

impl Pointer {
    pub fn press(&mut self)
        ensures
            final(self).dragging,
    {
        self.dragging = true;
    }

    /// Whether letting go of the button is a click.
    pub open spec fn clicks(self, moved: u32) -> bool {
        self.dragging && moved < CLICK_SLACK
    }

    /// The button is let go: was it a click?
    pub fn release(&mut self, moved: u32) -> (clicked: bool)
        ensures
            clicked == old(self).clicks(moved),
            clicked == (old(self).dragging && moved < CLICK_SLACK),
            !final(self).dragging,
    {
        let clicked = self.dragging && moved < CLICK_SLACK;
        self.dragging = false;
        clicked
    }

    /// Whether a move of the mouse belongs to a drag.
    pub open spec fn is_drag(self, left_button: bool) -> bool {
        self.dragging && left_button
    }

    /// Whether a move of the mouse belongs to a drag.
    pub fn drags(&self, left_button: bool) -> (r: bool)
        ensures
            r == self.is_drag(left_button),
            r == (self.dragging && left_button),
    {
        self.dragging && left_button
    }

    /// Whether a drag has gone far enough to turn the planet.
    pub open spec fn is_turning(moved: u32) -> bool {
        moved > CLICK_SLACK
    }

    /// Whether a drag has gone far enough to turn the planet.
    pub fn turns(moved: u32) -> (r: bool)
        ensures
            r == Pointer::is_turning(moved),
            r == (moved > CLICK_SLACK),
    {
        moved > CLICK_SLACK
    }
}

/// What a click fell on.
#[derive(Clone, Copy, Debug, PartialEq, Eq, Structural)]
pub enum Aim {
    Character(usize),
    Ground,
    Nothing,
}

/// What a click fell on that hit this part, if any, and the planet, if it did.
pub open spec fn aimed(
    part: Option<usize>,
    planet: bool,
    planet_in_front: bool,
    owner: Seq<usize>,
) -> Aim {
    match part {
        Some(p) => if planet && planet_in_front {
            Aim::Ground
        } else {
            Aim::Character(owner[p as int])
        },
        None => if planet {
            Aim::Ground
        } else {
            Aim::Nothing
        },
    }
}

/// Works out what a click fell on, from which part of a character it hit and whether it
/// hit the planet. Characters come first unless the planet is clearly in front, because
/// glancing clicks must resolve to them. `owner` says whose part each is.
pub fn aim(part: Option<usize>, planet: bool, planet_in_front: bool, owner: &Vec<usize>) -> (a: Aim)
    requires
        part matches Some(p) ==> p < owner@.len(),
    ensures
        a == aimed(part, planet, planet_in_front, owner@),
        a == match part {
            Some(p) => if planet && planet_in_front {
                Aim::Ground
            } else {
                Aim::Character(owner@[p as int])
            },
            None => if planet {
                Aim::Ground
            } else {
                Aim::Nothing
            },
        },
{
    match part {
        Some(p) => {
            if planet && planet_in_front {
                Aim::Ground
            } else {
                Aim::Character(owner[p])
            }
        },
        None => {
            if planet {
                Aim::Ground
            } else {
                Aim::Nothing
            }
        },
    }
}

/// How long a passing marker is shown.
pub const MARKER_MS: u64 = 1000;

/// A marker on the planet.
#[derive(Clone, Copy, Debug, PartialEq, Eq, Structural)]
pub struct Marker {
    pub at: Spot,
    pub tint: Tint,
    pub born_ms: u64,
    /// Stays until the scene is rebuilt.
    pub persistent: bool,
}

impl Marker {
    pub open spec fn lasts(self, now: u64) -> bool {
        self.persistent || now < self.born_ms + MARKER_MS
    }
}

pub open spec fn still_there(now: u64) -> spec_fn(Marker) -> bool {
    |m: Marker| m.lasts(now)
}

/// The marker that a ping asks for. A find stays on once Waldo has been found.
pub open spec fn marker_for(ping: Ping, found: bool, now: u64) -> Marker {
    Marker {
        at: ping.at,
        tint: ping.tint,
        born_ms: now,
        persistent: found && ping.tint == Tint::Gold,
    }
}

pub open spec fn markers_for(pings: Seq<Ping>, found: bool, now: u64) -> Seq<Marker> {
    pings.map_values(|p: Ping| marker_for(p, found, now))
}

/// What the scene on screen holds besides the planet.
pub struct StageView {
    pub built_round: u32,
    pub markers: Seq<Marker>,
    pub revealed: bool,
    pub night: bool,
}

impl StageView {
    /// The scene of a round, as it starts.
    pub open spec fn built(round_id: u32, mutator: Seq<char>) -> StageView {
        StageView {
            built_round: round_id,
            markers: Seq::empty(),
            revealed: false,
            night: mutator == "night"@,
        }
    }

    /// The scene once it shows what the game asks for: a marker for each ping, and one
    /// for Waldo when he is revealed.
    pub open spec fn shown(self, game: GameView, now: u64) -> StageView {
        StageView {
            markers: self.markers + markers_for(game.pings, game.found, now) + (match game.reveal {
                Some(at) => seq![
                    Marker { at, tint: Tint::Gold, born_ms: now, persistent: true },
                ],
                None => Seq::empty(),
            }),
            revealed: self.revealed || game.reveal is Some,
            ..self
        }
    }

    /// The scene without the markers whose time is over.
    pub open spec fn tidied(self, now: u64) -> StageView {
        StageView { markers: self.markers.filter(still_there(now)), ..self }
    }
}

/// The part of the game that a scene has shown is not shown again.
pub open spec fn seen(game: GameView) -> GameView {
    GameView { pings: Seq::empty(), reveal: None, ..game }
}

pub struct Stage {
    pub built_round: u32,
    pub markers: Vec<Marker>,
    pub revealed: bool,
    pub night: bool,
}

impl View for Stage {
    type V = StageView;

    open spec fn view(&self) -> StageView {
        StageView {
            built_round: self.built_round,
            markers: self.markers@,
            revealed: self.revealed,
            night: self.night,
        }
    }
}

impl Stage {
    /// Builds the scene of a round.
    pub fn build(round_id: u32, mutator: &str) -> (stage: Self)
        ensures
            stage@ == StageView::built(round_id, mutator@),
    {
        Stage {
            built_round: round_id,
            markers: Vec::new(),
            revealed: false,
            night: same(mutator, "night"),
        }
    }

    /// Shows what the game asks for, and says where Waldo is if he is to be turned into
    /// view.
    pub fn show(&mut self, game: &mut Game, now_ms: u64) -> (turn_to: Option<Spot>)
        ensures
            final(self)@ == old(self)@.shown(old(game)@, now_ms),
            final(game)@ == seen(old(game)@),
            turn_to == old(game)@.reveal,
    {
        let ghost was = self@;
        let ghost asked = game@;
        let mut i: usize = 0;
        while i < game.pings.len()
            invariant
                i <= game.pings.len(),
                game@ == asked,
                self@ == (StageView {
                    markers: was.markers + markers_for(asked.pings, asked.found, now_ms).take(
                        i as int,
                    ),
                    ..was
                }),
            decreases game.pings.len() - i,
        {
            let ping = game.pings[i];
            let ghost all = markers_for(asked.pings, asked.found, now_ms);
            self.markers.push(
                Marker {
                    at: ping.at,
                    tint: ping.tint,
                    born_ms: now_ms,
                    persistent: game.found && ping.tint == Tint::Gold,
                },
            );
            assert(self.markers@ =~= was.markers + all.take(i + 1));
            i += 1;
        }
        assert(markers_for(asked.pings, asked.found, now_ms).take(i as int) =~= markers_for(
            asked.pings,
            asked.found,
            now_ms,
        ));
        game.pings = Vec::new();
        let turn_to = game.reveal;
        game.reveal = None;
        if let Some(at) = turn_to {
            self.revealed = true;
            self.markers.push(
                Marker { at, tint: Tint::Gold, born_ms: now_ms, persistent: true },
            );
        }
        assert(self.markers@ =~= was.shown(asked, now_ms).markers);
        turn_to
    }

    /// Takes away the markers whose time is over, and says whether there were any.
    pub fn tidy(&mut self, now_ms: u64) -> (changed: bool)
        ensures
            final(self)@ == old(self)@.tidied(now_ms),
            changed == (final(self)@.markers.len() != old(self)@.markers.len()),
    {
        let before = self.markers.len();
        let passes = |m: Marker| -> (b: bool)
            ensures
                b == still_there(now_ms)(m),
            {
                m.persistent || now_ms < m.born_ms || now_ms - m.born_ms < MARKER_MS
            };
        self.markers = kept(&self.markers, passes, Ghost(still_there(now_ms)));
        self.markers.len() != before
    }
}

/// How much of the round is left, while one is on.
pub open spec fn remaining(game: GameView, now_ms: int) -> Option<int> {
    if game.playing {
        Some(
            if game.ends_at_ms > now_ms {
                game.ends_at_ms - now_ms
            } else {
                0
            },
        )
    } else {
        None
    }
}

/// How much of the round is left, for the clock on screen.
pub fn time_left(game: &Game, now_ms: u64) -> (ms: Option<u64>)
    ensures
        match ms {
            Some(left) => remaining(game@, now_ms as int) == Some(left as int),
            None => remaining(game@, now_ms as int) is None,
        },
        ms == if game.playing {
            Some(
                if game.ends_at_ms > now_ms {
                    (game.ends_at_ms - now_ms) as u64
                } else {
                    0u64
                },
            )
        } else {
            None
        },
{
    if game.playing {
        Some(game.ends_at_ms.saturating_sub(now_ms))
    } else {
        None
    }
}

/// Passing markers are gone a second after they appeared, and lasting ones stay.
pub proof fn law_markers_pass(stage: StageView, now: u64, m: Marker)
    requires
        stage.markers.contains(m),
    ensures
        stage.tidied(now).markers.contains(m) <==> m.lasts(now),
    decreases stage.markers.len(),
{
    reveal(Seq::filter);
    let pred = still_there(now);
    let all = stage.markers;
    let kept = all.filter(pred);
    lemma_filter_keeps(all, pred);
    if kept.contains(m) {
        let k = choose|k: int| 0 <= k < kept.len() && kept[k] == m;
        assert(pred(kept[k]));
    }
    if m.lasts(now) {
        let fewer = all.drop_last();
        if fewer.contains(m) {
            law_markers_pass(StageView { markers: fewer, ..stage }, now, m);
            let k = choose|k: int| 0 <= k < fewer.filter(pred).len() && fewer.filter(pred)[k] == m;
            assert(kept[k] == m);
        } else {
            let k = choose|k: int| 0 <= k < all.len() && all[k] == m;
            if k < all.len() - 1 {
                assert(fewer[k] == m);
            }
            assert(all.last() == m);
            assert(kept[kept.len() - 1] == m);
        }
    }
}

/// Whatever the game asks to be shown is shown once: the same frame again adds nothing.
pub proof fn law_effects_are_shown_once(stage: StageView, game: GameView, now: u64, later: u64)
    ensures
        stage.shown(game, now).shown(seen(game), later) == stage.shown(game, now),
{
    let after = stage.shown(game, now);
    assert(markers_for(seen(game).pings, game.found, later) =~= Seq::empty());
    assert(after.shown(seen(game), later).markers =~= after.markers);
}

/// Letting go is a click where the button was down and the mouse moved less than four
/// pixels, and a drag turns the planet once it has moved more: never both.
pub proof fn law_clicks_are_not_drags(pointer: Pointer, moved: u32, left_button: bool)
    ensures
        pointer.clicks(moved) ==> pointer.dragging && !Pointer::is_turning(moved),
        pointer.dragging && moved < 0x4080_0000 ==> pointer.clicks(moved),
        moved >= 0x4080_0000 ==> !pointer.clicks(moved),
        moved > 0x4080_0000 <==> Pointer::is_turning(moved),
        pointer.is_drag(left_button) ==> pointer.dragging && left_button,
        pointer.dragging ==> pointer.is_drag(true),
{
}

/// A click that hits a character falls on whoever that part is of, also where it hits the
/// planet as well, unless the planet is in front. A click on the planet alone falls on the
/// ground, and one that hits neither on nothing.
pub proof fn law_clicks_fall_on_characters(
    p: usize,
    planet: bool,
    planet_in_front: bool,
    owner: Seq<usize>,
)
    requires
        p < owner.len(),
    ensures
        aimed(Some(p), planet, false, owner) == Aim::Character(owner[p as int]),
        aimed(Some(p), false, planet_in_front, owner) == Aim::Character(owner[p as int]),
        aimed(Some(p), true, true, owner) == Aim::Ground,
        aimed(None, true, planet_in_front, owner) == Aim::Ground,
        aimed(None, false, planet_in_front, owner) == Aim::Nothing,
{
}

/// The clock runs in a round alone. It shows the time to its end, and nothing after it.
pub proof fn law_clocks_run_in_rounds(game: GameView, now_ms: int)
    ensures
        !game.playing ==> remaining(game, now_ms) is None,
        game.playing && now_ms <= game.ends_at_ms ==> remaining(game, now_ms) is Some && now_ms + (
        remaining(game, now_ms)->0) == game.ends_at_ms,
        game.playing && now_ms > game.ends_at_ms ==> remaining(game, now_ms) == Some(0int),
{
}

proof fn lemma_dealt(count: int, n: int, v: int)
    requires
        0 <= count <= usize::MAX,
        0 <= v < n,
    ensures
        ({
            let hand = up_to(count).filter(is_turn(n, v));
            &&& hand.len() == (count + n - 1 - v) / n
            &&& forall|k: int| 0 <= k < hand.len() ==> #[trigger] hand[k] == v + k * n
        }),
    decreases count,
{
    reveal(Seq::filter);
    if count == 0 {
        assert(up_to(0).len() == 0);
        assert((n - 1 - v) / n == 0) by (nonlinear_arith)
            requires
                0 <= v < n,
        ;
    } else {
        let before = up_to(count - 1).filter(is_turn(n, v));
        let hand = up_to(count).filter(is_turn(n, v));
        lemma_dealt(count - 1, n, v);
        assert(up_to(count).drop_last() =~= up_to(count - 1));
        let i = count - 1;
        let q = i / n;
        let r = i % n;
        assert(i == q * n + r && 0 <= r < n) by (nonlinear_arith)
            requires
                n > 0,
                q == i / n,
                r == i % n,
        ;
        assert((count - 1 + n - 1 - v) / n == if r > v {
            q + 1
        } else {
            q
        }) by (nonlinear_arith)
            requires
                0 <= v < n,
                0 <= r < n,
                count - 1 == q * n + r,
        ;
        assert((count + n - 1 - v) / n == if r >= v {
            q + 1
        } else {
            q
        }) by (nonlinear_arith)
            requires
                0 <= v < n,
                0 <= r < n,
                count - 1 == q * n + r,
        ;
        if r == v {
            assert(hand =~= before.push(i as usize));
        } else {
            assert(hand =~= before);
        }
    }
}

/// Pieces of scenery are dealt out in turn: model `v` of `n` draws the pieces `v`, `v + n`,
/// `v + 2n` and so on, as far as there are any.
pub proof fn law_scenery_is_dealt_in_turn(count: int, n: int, v: int)
    requires
        0 <= count <= usize::MAX,
        0 <= v < n,
    ensures
        ({
            let hand = up_to(count).filter(is_turn(n, v));
            &&& forall|k: int| 0 <= k < hand.len() ==> #[trigger] hand[k] == v + k * n
            &&& v + hand.len() * n >= count
            &&& hand.len() > 0 ==> v + (hand.len() - 1) * n < count
        }),
{
    lemma_dealt(count, n, v);
    let hand = up_to(count).filter(is_turn(n, v));
    let len = hand.len() as int;
    assert(v + len * n >= count && (len > 0 ==> v + (len - 1) * n < count)) by (nonlinear_arith)
        requires
            0 <= v < n,
            0 <= count,
            len == (count + n - 1 - v) / n,
    ;
}

/// A scene is built empty, for its round, and dark in a night round alone.
pub proof fn law_scenes_are_built_empty(round_id: u32, mutator: Seq<char>)
    ensures
        ({
            let stage = StageView::built(round_id, mutator);
            &&& stage.built_round == round_id
            &&& stage.markers.len() == 0
            &&& !stage.revealed
            &&& stage.night <==> mutator == "night"@
        }),
{
}

/// Each ping puts one marker up where it is, in its colour, from now on. A find stays once
/// Waldo has been found, and Waldo revealed always does. What was on the planet stays.
pub proof fn law_pings_put_markers_up(stage: StageView, game: GameView, now: u64)
    ensures
        ({
            let after = stage.shown(game, now);
            let n = stage.markers.len() as int;
            let pinged = game.pings.len() as int;
            &&& after.built_round == stage.built_round
            &&& after.night == stage.night
            &&& after.revealed <==> stage.revealed || game.reveal is Some
            &&& after.markers.take(n) == stage.markers
            &&& forall|k: int|
                #![trigger game.pings[k]]
                0 <= k < pinged ==> {
                    let m = after.markers[n + k];
                    &&& m.at == game.pings[k].at
                    &&& m.tint == game.pings[k].tint
                    &&& m.born_ms == now
                    &&& m.persistent <==> game.found && m.tint == Tint::Gold
                }
            &&& game.reveal is None ==> after.markers.len() == n + pinged
            &&& game.reveal matches Some(at) ==> after.markers.len() == n + pinged + 1
                && after.markers.last() == (Marker {
                at,
                tint: Tint::Gold,
                born_ms: now,
                persistent: true,
            })
        }),
        seen(game) == (GameView { pings: Seq::empty(), reveal: None, ..game }),
{
    let after = stage.shown(game, now);
    assert(after.markers.take(stage.markers.len() as int) =~= stage.markers);
    assert forall|k: int| #![trigger game.pings[k]] 0 <= k < game.pings.len() implies after.markers[
    stage.markers.len() + k] == marker_for(game.pings[k], game.found, now) by {
        assert(markers_for(game.pings, game.found, now)[k] == marker_for(
            game.pings[k],
            game.found,
            now,
        ));
    }
}

/// A passing marker is up for a second, and a lasting one for good.
pub proof fn law_markers_last_a_second(m: Marker, now: u64)
    ensures
        m.persistent ==> m.lasts(now),
        !m.persistent ==> (m.lasts(now) <==> now < m.born_ms + 1000),
{
}

/// Tidying leaves nothing but markers behind, and those in the order they were put up.
pub proof fn law_tidying_keeps_the_scene(stage: StageView, now: u64)
    ensures
        ({
            let after = stage.tidied(now);
            &&& after == (StageView { markers: after.markers, ..stage })
            &&& after.markers == stage.markers.filter(|m: Marker| m.lasts(now))
        }),
{
    assert(still_there(now) =~= (|m: Marker| m.lasts(now)));
}

/// Every kind of scenery has its models and its size, ponds and decoys are drawn by hand, and
/// nothing else is drawn.
pub proof fn law_kinds_have_their_looks(kind: Seq<char>)
    ensures
        kind == "pine"@ ==> looks(kind) == (LooksView::Models {
            names: seq![
                "tree_pineDefaultA"@,
                "tree_pineDefaultB"@,
                "tree_pineRoundA"@,
                "tree_pineRoundC"@,
                "tree_pineTallA"@,
            ],
            size_pct: 125,
        }),
        kind == "tree"@ ==> looks(kind) == (LooksView::Models {
            names: seq![
                "tree_default"@,
                "tree_default_dark"@,
                "tree_oak"@,
                "tree_detailed"@,
                "tree_fat"@,
            ],
            size_pct: 90,
        }),
        kind == "bush"@ ==> looks(kind) == (LooksView::Models {
            names: seq![
                "plant_bush"@,
                "plant_bushLarge"@,
                "plant_bushDetailed"@,
                "flower_redA"@,
                "mushroom_red"@,
            ],
            size_pct: 32,
        }),
        kind == "building"@ ==> looks(kind) == (LooksView::Models {
            names: seq![
                "building-a"@,
                "building-b"@,
                "building-c"@,
                "building-d"@,
                "building-e"@,
                "building-f"@,
                "building-g"@,
                "building-h"@,
            ],
            size_pct: 105,
        }),
        kind == "tower"@ ==> looks(kind) == (LooksView::Models {
            names: seq![
                "building-skyscraper-a"@,
                "building-skyscraper-b"@,
                "building-skyscraper-c"@,
                "building-skyscraper-d"@,
                "building-skyscraper-e"@,
            ],
            size_pct: 115,
        }),
        kind == "house"@ ==> looks(kind) == (LooksView::Models {
            names: seq![
                "building-type-a"@,
                "building-type-b"@,
                "building-type-c"@,
                "building-type-d"@,
                "building-type-e"@,
                "building-type-f"@,
                "building-type-g"@,
                "building-type-h"@,
            ],
            size_pct: 90,
        }),
        kind == "dome"@ ==> looks(kind) == (LooksView::Models {
            names: seq![
                "detail-parasol-a"@,
                "detail-parasol-b"@,
            ],
            size_pct: 55,
        }),
        kind == "car"@ ==> looks(kind) == (LooksView::Models {
            names: seq![
                "sedan"@,
                "suv"@,
                "taxi"@,
                "van"@,
                "police"@,
                "hatchback-sports"@,
                "sedan-sports"@,
                "truck"@,
            ],
            size_pct: 24,
        }),
        kind == "rock"@ ==> looks(kind) == (LooksView::Models {
            names: seq![
                "rock_largeA"@,
                "rock_largeB"@,
                "rock_largeC"@,
                "rock_tallA"@,
                "rock_tallB"@,
                "rock_smallA"@,
            ],
            size_pct: 40,
        }),
        looks(kind) is Pond <==> kind == "pond"@,
        looks(kind) is Decoy <==> kind == "decoy"@,
        looks(kind) is Models <==> kind == "pine"@ || kind == "tree"@ || kind == "bush"@ || kind
            == "building"@ || kind == "tower"@ || kind == "house"@ || kind == "dome"@ || kind
            == "car"@ || kind == "rock"@,
{
    reveal_strlit("pine");
    reveal_strlit("tree");
    reveal_strlit("bush");
    reveal_strlit("building");
    reveal_strlit("house");
    reveal_strlit("tower");
    reveal_strlit("dome");
    reveal_strlit("car");
    reveal_strlit("pond");
    reveal_strlit("rock");
    reveal_strlit("decoy");
    assert("pine"@.len() == 4 && "tree"@.len() == 4 && "bush"@.len() == 4 && "dome"@.len() == 4
        && "pond"@.len() == 4 && "rock"@.len() == 4);
    assert("building"@.len() == 8 && "car"@.len() == 3);
    assert("house"@.len() == 5 && "tower"@.len() == 5 && "decoy"@.len() == 5);
    assert("house"@[0] == 'h' && "tower"@[0] == 't' && "decoy"@[0] == 'd');
    assert("pine"@[0] == 'p' && "pine"@[1] == 'i' && "pond"@[0] == 'p' && "pond"@[1] == 'o');
    assert("tree"@[0] == 't' && "bush"@[0] == 'b' && "dome"@[0] == 'd' && "rock"@[0] == 'r');
}

} // verus!
