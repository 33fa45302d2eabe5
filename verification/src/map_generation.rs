//! The generator of the initial world: patches of water and of resource
//! deposits, drawn from a small pseudo-random generator.

use vstd::prelude::*;
use vstd::wrapping::u64_specs;
use crate::map::{GameMap, MapView, Resource, WaterPatch};
use crate::types::ResourceType;

verus! {

/// Width of a generated world in tiles.
pub const MAP_WIDTH: u32 = 160;

/// Height of a generated world in tiles.
pub const MAP_HEIGHT: u32 = 120;

/// Tries after which a patch is given up or forced.
pub const MAX_ATTEMPTS: u32 = 50;

/// The state that follows `seed`: `seed * 1103515245 + 12345` in 64-bit
/// wrapping arithmetic.
#[verifier::opaque]
pub open spec fn lcg_next(seed: u64) -> u64 {
    u64_specs::wrapping_add(u64_specs::wrapping_mul(seed, 1103515245), 12345)
}

/// A linear congruential generator.
pub struct SimpleRng {
    seed: u64,
}

impl SimpleRng {
    /// The generator's state.
    pub closed spec fn state(&self) -> u64 {
        self.seed
    }

    /// A generator that starts from `seed`.
    pub fn new(seed: u64) -> (rng: SimpleRng)
        ensures
            rng.state() == seed,
    {
        SimpleRng { seed }
    }

    /// Advances the generator and returns its new state.
    pub fn next(&mut self) -> (value: u64)
        ensures
            value == lcg_next(old(self).state()),
            final(self).state() == value,
    {
        proof {
            reveal(lcg_next);
        }
        self.seed = self.seed.wrapping_mul(1103515245).wrapping_add(12345);
        self.seed
    }
}

/// A rectangle of tiles.
#[derive(Clone, Copy, Debug)]
pub struct Rect {
    pub x: u32,
    pub y: u32,
    pub width: u32,
    pub height: u32,
}

impl Rect {
    /// Whether the rectangle reaches beyond a generated world.
    pub open spec fn off_map(self) -> bool {
        self.x + self.width > MAP_WIDTH || self.y + self.height > MAP_HEIGHT
    }

    /// Whether the rectangle and the water patch share a tile.
    pub open spec fn meets(self, w: WaterPatch) -> bool {
        &&& self.x < w.x + w.width
        &&& self.x + self.width > w.x
        &&& self.y < w.y + w.height
        &&& self.y + self.height > w.y
    }

    /// Whether the rectangle comes within three tiles right of or below the
    /// corner `p`.
    pub open spec fn crowds(self, p: (u32, u32)) -> bool {
        &&& self.x < p.0 + 3
        &&& self.x + self.width > p.0
        &&& self.y < p.1 + 3
        &&& self.y + self.height > p.1
    }

    pub fn is_off_map(&self) -> (b: bool)
        ensures
            b == self.off_map(),
    {
        self.x as u64 + self.width as u64 > MAP_WIDTH as u64 || self.y as u64 + self.height as u64
            > MAP_HEIGHT as u64
    }

    pub fn is_meeting(&self, w: &WaterPatch) -> (b: bool)
        ensures
            b == self.meets(*w),
    {
        (self.x as u64) < w.x as u64 + w.width as u64 && self.x as u64 + self.width as u64
            > w.x as u64 && (self.y as u64) < w.y as u64 + w.height as u64 && self.y as u64
            + self.height as u64 > w.y as u64
    }

    pub fn is_crowding(&self, p: (u32, u32)) -> (b: bool)
        ensures
            b == self.crowds(p),
    {
        (self.x as u64) < p.0 as u64 + 3 && self.x as u64 + self.width as u64 > p.0 as u64 && (
        self.y as u64) < p.1 as u64 + 3 && self.y as u64 + self.height as u64 > p.1 as u64
    }
}

/// The rectangle drawn from state `seed` with four draws: the corner
/// anywhere on the map, each side between one and `max_side`.
#[verifier::opaque]
pub open spec fn drawn_rect(seed: u64, max_side: u64) -> Rect {
    let s1 = lcg_next(seed);
    let s2 = lcg_next(s1);
    let s3 = lcg_next(s2);
    let s4 = lcg_next(s3);
    Rect {
        x: (s1 % (MAP_WIDTH as u64)) as u32,
        y: (s2 % (MAP_HEIGHT as u64)) as u32,
        width: (1 + s3 % max_side) as u32,
        height: (1 + s4 % max_side) as u32,
    }
}

/// The state after the four draws of a rectangle.
#[verifier::opaque]
pub open spec fn seed_after_rect(seed: u64) -> u64 {
    lcg_next(lcg_next(lcg_next(lcg_next(seed))))
}

/// Whether the rectangle crowds one of the corners used so far.
pub open spec fn crowded(used: Seq<(u32, u32)>, r: Rect) -> bool {
    exists|k: int| 0 <= k < used.len() && r.crowds(#[trigger] used[k])
}

/// Whether the rectangle shares a tile with some water patch.
pub open spec fn wet(water: Seq<WaterPatch>, r: Rect) -> bool {
    exists|k: int| 0 <= k < water.len() && r.meets(#[trigger] water[k])
}

/// What the generator has made so far.
pub struct Generation {
    pub seed: u64,
    pub water: Seq<WaterPatch>,
    pub resources: Seq<Resource>,
    /// The corners of the patches placed so far.
    pub used: Seq<(u32, u32)>,
}

/// The generation after one water patch was tried for, `attempts` tries
/// having failed already. A rectangle of sides up to five is drawn until
/// one lies on the map and crowds no used corner; the fifty-second try is
/// taken even if it crowds one, and after the fifty-first rectangle that
/// left the map the patch is given up.
pub open spec fn water_placed(g: Generation, attempts: nat) -> Generation
    decreases 52 - attempts,
{
    let r = drawn_rect(g.seed, 5);
    let drawn = Generation { seed: seed_after_rect(g.seed), ..g };
    if r.off_map() {
        if attempts + 1 > MAX_ATTEMPTS {
            drawn
        } else {
            water_placed(drawn, attempts + 1)
        }
    } else if !crowded(g.used, r) || attempts > MAX_ATTEMPTS {
        Generation {
            water: g.water.push(WaterPatch { x: r.x, y: r.y, width: r.width, height: r.height }),
            used: g.used.push((r.x, r.y)),
            ..drawn
        }
    } else {
        water_placed(drawn, attempts + 1)
    }
}

/// The generation after `count` water patches were tried for.
pub open spec fn water_phase(g: Generation, count: nat) -> Generation
    decreases count,
{
    if count == 0 {
        g
    } else {
        water_phase(water_placed(g, 0), (count - 1) as nat)
    }
}

/// The deposits after the tiles `(x, y) .. (x, y + rows - 1)` got a deposit
/// of `kind` each, top first.
pub open spec fn column_filled(
    resources: Seq<Resource>,
    x: u32,
    y: u32,
    rows: nat,
    kind: ResourceType,
) -> Seq<Resource>
    decreases rows,
{
    if rows == 0 {
        resources
    } else {
        column_filled(resources, x, y, (rows - 1) as nat, kind).push(
            Resource { x, y: (y + rows - 1) as u32, resource_type: kind },
        )
    }
}

/// The deposits after the first `columns` columns of rectangle `r` got a
/// deposit of `kind` on every tile, left column first.
pub open spec fn patch_filled(
    resources: Seq<Resource>,
    r: Rect,
    columns: nat,
    kind: ResourceType,
) -> Seq<Resource>
    decreases columns,
{
    if columns == 0 {
        resources
    } else {
        column_filled(
            patch_filled(resources, r, (columns - 1) as nat, kind),
            (r.x + columns - 1) as u32,
            r.y,
            r.height as nat,
            kind,
        )
    }
}

/// The generation after one patch of `kind` was tried for, `attempts` tries
/// having failed already. A rectangle of sides up to four is drawn until
/// one lies on the map, touches no water and crowds no used corner; from
/// the fifty-second try on crowding is let pass; after fifty-one failures
/// the patch is given up.
pub open spec fn resource_placed(g: Generation, kind: ResourceType, attempts: nat) -> Generation
    decreases 52 - attempts,
{
    let r = drawn_rect(g.seed, 4);
    let drawn = Generation { seed: seed_after_rect(g.seed), ..g };
    if !r.off_map() && !wet(g.water, r) && (!crowded(g.used, r) || attempts > MAX_ATTEMPTS) {
        Generation {
            resources: patch_filled(g.resources, r, r.width as nat, kind),
            used: g.used.push((r.x, r.y)),
            ..drawn
        }
    } else if attempts + 1 > MAX_ATTEMPTS {
        drawn
    } else {
        resource_placed(drawn, kind, attempts + 1)
    }
}

/// The generation after `count` patches of `kind` were tried for.
pub open spec fn resource_phase(g: Generation, kind: ResourceType, count: nat) -> Generation
    decreases count,
{
    if count == 0 {
        g
    } else {
        resource_phase(resource_placed(g, kind, 0), kind, (count - 1) as nat)
    }
}

/// The generation after the patches of `kind` were made: one draw decides
/// that there are between five and ten.
pub open spec fn kind_generated(g: Generation, kind: ResourceType) -> Generation {
    let s = lcg_next(g.seed);
    resource_phase(Generation { seed: s, ..g }, kind, (5 + s % 6) as nat)
}

/// The whole generation from `seed`: one draw decides that there are
/// between ten and twenty water patches; after these come the patches of
/// iron ore, copper, stone and coal.
pub open spec fn generation_of(seed: u64) -> Generation {
    let s = lcg_next(seed);
    let watered = water_phase(
        Generation { seed: s, water: Seq::empty(), resources: Seq::empty(), used: Seq::empty() },
        (10 + s % 11) as nat,
    );
    kind_generated(
        kind_generated(
            kind_generated(kind_generated(watered, ResourceType::IronOre), ResourceType::Copper),
            ResourceType::Stone,
        ),
        ResourceType::Coal,
    )
}

/// The world generated from `seed`.
pub open spec fn generated(seed: u64) -> MapView {
    MapView {
        water_patches: generation_of(seed).water,
        resources: generation_of(seed).resources,
        ..MapView::empty(MAP_WIDTH, MAP_HEIGHT)
    }
}

/// Water and deposits lie on the map, and no deposit lies in water.
pub open spec fn well_made(m: MapView) -> bool {
    &&& forall|k: int|
        0 <= k < m.water_patches.len() ==> {
            let w = #[trigger] m.water_patches[k];
            w.width >= 1 && w.height >= 1 && w.x + w.width <= m.width && w.y + w.height <= m.height
        }
    &&& forall|k: int|
        0 <= k < m.resources.len() ==> {
            let r = #[trigger] m.resources[k];
            m.in_bounds(r.x as int, r.y as int) && !m.in_water(r.x as int, r.y as int)
        }
}

/// What the generator works on: the world so far, the generator and the
/// used corners.
spec fn so_far(map: MapView, rng: SimpleRng, used: Seq<(u32, u32)>) -> Generation {
    Generation { seed: rng.state(), water: map.water_patches, resources: map.resources, used }
}

/// The world holds nothing but water and deposits, and is of the generated
/// extent.
spec fn bare(map: MapView) -> bool {
    map == (MapView {
        water_patches: map.water_patches,
        resources: map.resources,
        ..MapView::empty(MAP_WIDTH, MAP_HEIGHT)
    })
}

fn draw_rect(rng: &mut SimpleRng, max_side: u64) -> (r: Rect)
    requires
        1 <= max_side <= 5,
    ensures
        r == drawn_rect(old(rng).state(), max_side),
        final(rng).state() == seed_after_rect(old(rng).state()),
        r.x < MAP_WIDTH,
        r.y < MAP_HEIGHT,
        1 <= r.width <= max_side,
        1 <= r.height <= max_side,
{
    proof {
        reveal(drawn_rect);
        reveal(seed_after_rect);
    }
    let x: u32 = (rng.next() % (MAP_WIDTH as u64)) as u32;
    let y: u32 = (rng.next() % (MAP_HEIGHT as u64)) as u32;
    let width: u32 = (1 + rng.next() % max_side) as u32;
    let height: u32 = (1 + rng.next() % max_side) as u32;
    Rect { x, y, width, height }
}

fn is_crowded(used: &Vec<(u32, u32)>, r: &Rect) -> (b: bool)
    ensures
        b == crowded(used@, *r),
{
    let mut k: usize = 0;
    while k < used.len()
        invariant
            k <= used@.len(),
            forall|j: int| 0 <= j < k ==> !r.crowds(#[trigger] used@[j]),
        decreases used@.len() - k,
    {
        if r.is_crowding(used[k]) {
            return true;
        }
        k = k + 1;
    }
    false
}

fn is_wet(map: &GameMap, r: &Rect) -> (b: bool)
    ensures
        b == wet(map@.water_patches, *r),
{
    let water = map.water_patches();
    let mut k: usize = 0;
    while k < water.len()
        invariant
            k <= water@.len(),
            water@ == map@.water_patches,
            forall|j: int| 0 <= j < k ==> !r.meets(#[trigger] water@[j]),
        decreases water@.len() - k,
    {
        if r.is_meeting(&water[k]) {
            return true;
        }
        k = k + 1;
    }
    false
}

/// Tries for one water patch.
fn place_water(map: &mut GameMap, rng: &mut SimpleRng, used: &mut Vec<(u32, u32)>)
    requires
        bare(old(map)@),
        well_made(old(map)@),
        old(map)@.resources.len() == 0,
    ensures
        so_far(final(map)@, *final(rng), final(used)@) == water_placed(
            so_far(old(map)@, *old(rng), old(used)@),
            0,
        ),
        bare(final(map)@),
        well_made(final(map)@),
        final(map)@.resources.len() == 0,
{
    let ghost start = so_far(map@, *rng, used@);
    let mut attempts: u32 = 0;
    loop
        invariant_except_break
            attempts <= MAX_ATTEMPTS + 1,
            map@ == old(map)@,
            used@ == old(used)@,
            water_placed(start, 0) == water_placed(so_far(map@, *rng, used@), attempts as nat),
            bare(map@),
            well_made(map@),
            map@.resources.len() == 0,
        ensures
            so_far(map@, *rng, used@) == water_placed(start, 0),
            bare(map@),
            well_made(map@),
            map@.resources.len() == 0,
        decreases MAX_ATTEMPTS + 2 - attempts,
    {
        let r = draw_rect(rng, 5);
        if r.is_off_map() {
            attempts = attempts + 1;
            if attempts > MAX_ATTEMPTS {
                break ;
            }
            continue ;
        }
        if !is_crowded(used, &r) || attempts > MAX_ATTEMPTS {
            let patch = WaterPatch::new(r.x, r.y, r.width, r.height);
            map.add_water_patch(patch);
            used.push((r.x, r.y));
            break ;
        }
        attempts = attempts + 1;
    }
}

/// Puts a deposit of `kind` on every tile of the rectangle.
fn fill_patch(map: &mut GameMap, r: &Rect, kind: ResourceType)
    requires
        bare(old(map)@),
        well_made(old(map)@),
        !r.off_map(),
        !wet(old(map)@.water_patches, *r),
    ensures
        final(map)@ == (MapView {
            resources: patch_filled(old(map)@.resources, *r, r.width as nat, kind),
            ..old(map)@
        }),
        bare(final(map)@),
        well_made(final(map)@),
{
    let mut column: u32 = 0;
    while column < r.width
        invariant
            column <= r.width,
            !r.off_map(),
            !wet(old(map)@.water_patches, *r),
            map@ == (MapView {
                resources: patch_filled(old(map)@.resources, *r, column as nat, kind),
                ..old(map)@
            }),
            bare(map@),
            well_made(map@),
        decreases r.width - column,
    {
        let patch_x: u32 = r.x + column;
        let ghost before = map@.resources;
        let mut row: u32 = 0;
        while row < r.height
            invariant
                row <= r.height,
                column < r.width,
                patch_x == r.x + column,
                !r.off_map(),
                !wet(old(map)@.water_patches, *r),
                map@ == (MapView {
                    resources: column_filled(before, patch_x, r.y, row as nat, kind),
                    ..old(map)@
                }),
                bare(map@),
                well_made(map@),
            decreases r.height - row,
        {
            let patch_y: u32 = r.y + row;
            proof {
                let m = map@;
                if m.in_water(patch_x as int, patch_y as int) {
                    let k = choose|k: int|
                        0 <= k < m.water_patches.len() && (#[trigger] m.water_patches[k]).covers(
                            patch_x as int,
                            patch_y as int,
                        );
                    assert(r.meets(m.water_patches[k]));
                }
            }
            map.add_resource(Resource::new(patch_x, patch_y, kind));
            row = row + 1;
        }
        column = column + 1;
    }
}

/// Tries for one patch of `kind`.
fn place_resource(
    map: &mut GameMap,
    rng: &mut SimpleRng,
    used: &mut Vec<(u32, u32)>,
    kind: ResourceType,
)
    requires
        bare(old(map)@),
        well_made(old(map)@),
    ensures
        so_far(final(map)@, *final(rng), final(used)@) == resource_placed(
            so_far(old(map)@, *old(rng), old(used)@),
            kind,
            0,
        ),
        bare(final(map)@),
        well_made(final(map)@),
{
    let ghost start = so_far(map@, *rng, used@);
    let mut attempts: u32 = 0;
    loop
        invariant_except_break
            attempts <= MAX_ATTEMPTS,
            map@ == old(map)@,
            used@ == old(used)@,
            resource_placed(start, kind, 0) == resource_placed(
                so_far(map@, *rng, used@),
                kind,
                attempts as nat,
            ),
            bare(map@),
            well_made(map@),
        ensures
            so_far(map@, *rng, used@) == resource_placed(start, kind, 0),
            bare(map@),
            well_made(map@),
        decreases MAX_ATTEMPTS + 1 - attempts,
    {
        let r = draw_rect(rng, 4);
        if !r.is_off_map() && !is_wet(map, &r) && (!is_crowded(used, &r) || attempts
            > MAX_ATTEMPTS) {
            fill_patch(map, &r, kind);
            used.push((r.x, r.y));
            break ;
        }
        attempts = attempts + 1;
        if attempts > MAX_ATTEMPTS {
            break ;
        }
    }
}

/// Makes the patches of `kind`.
fn generate_kind(
    map: &mut GameMap,
    rng: &mut SimpleRng,
    used: &mut Vec<(u32, u32)>,
    kind: ResourceType,
)
    requires
        bare(old(map)@),
        well_made(old(map)@),
    ensures
        so_far(final(map)@, *final(rng), final(used)@) == kind_generated(
            so_far(old(map)@, *old(rng), old(used)@),
            kind,
        ),
        bare(final(map)@),
        well_made(final(map)@),
{
    let count: u64 = 5 + rng.next() % 6;
    let ghost begun = so_far(map@, *rng, used@);
    let mut done: u64 = 0;
    while done < count
        invariant
            done <= count,
            resource_phase(begun, kind, count as nat) == resource_phase(
                so_far(map@, *rng, used@),
                kind,
                (count - done) as nat,
            ),
            bare(map@),
            well_made(map@),
        decreases count - done,
    {
        place_resource(map, rng, used, kind);
        done = done + 1;
    }
}

/// Generates the world from `seed`: 160 by 120 tiles with patches of water
/// and of the four resources, and nothing else. Every patch lies on the map
/// and no deposit lies in water.
pub fn generate_map(seed: u64) -> (map: GameMap)
    ensures
        map@ == generated(seed),
        well_made(map@),
{
    let mut rng = SimpleRng::new(seed);
    let mut used: Vec<(u32, u32)> = Vec::new();
    let mut map = GameMap::new(MAP_WIDTH, MAP_HEIGHT);
    let count: u64 = 10 + rng.next() % 11;
    let ghost begun = so_far(map@, rng, used@);
    let mut done: u64 = 0;
    while done < count
        invariant
            done <= count,
            water_phase(begun, count as nat) == water_phase(
                so_far(map@, rng, used@),
                (count - done) as nat,
            ),
            bare(map@),
            well_made(map@),
            map@.resources.len() == 0,
        decreases count - done,
    {
        place_water(&mut map, &mut rng, &mut used);
        done = done + 1;
    }
    generate_kind(&mut map, &mut rng, &mut used, ResourceType::IronOre);
    generate_kind(&mut map, &mut rng, &mut used, ResourceType::Copper);
    generate_kind(&mut map, &mut rng, &mut used, ResourceType::Stone);
    generate_kind(&mut map, &mut rng, &mut used, ResourceType::Coal);
    map
}

} // verus!
