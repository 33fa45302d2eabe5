//! Belts: the order in which they are served, and how the stacks they carry
//! move.

use vstd::prelude::*;
use crate::map::{nonempty_stacks, DroppedItem, GameMap, MapView, PlaceableObject, StackView};
use crate::types::{Direction, PlaceableType};

verus! {

/// Ticks between two moves of the belts.
pub const BELT_PERIOD: u64 = 30;

/// How far along its facing a belt lies, counted so that the belt further
/// along has the smaller number.
pub open spec fn progress_key(b: PlaceableObject) -> int {
    match b.direction {
        Direction::North => b.y as int,
        Direction::South => -(b.y as int),
        Direction::East => -(b.x as int),
        Direction::West => b.x as int,
    }
}

/// Belt `a` has to be served before belt `b`: its facing comes earlier in
/// the order north, south, east, west, or they share a facing and `a` lies
/// further along it.
pub open spec fn served_before(a: PlaceableObject, b: PlaceableObject) -> bool {
    a.direction.spec_value() < b.direction.spec_value() || (a.direction == b.direction
        && progress_key(a) < progress_key(b))
}

/// The belts among `s`, in the order of `s`.
pub open spec fn belts_of(s: Seq<PlaceableObject>) -> Seq<PlaceableObject>
    decreases s.len(),
{
    if s.len() == 0 {
        Seq::empty()
    } else if s.last().placeable_type == PlaceableType::Belt {
        belts_of(s.drop_last()).push(s.last())
    } else {
        belts_of(s.drop_last())
    }
}

/// The sequence `sorted` with `b` put behind every belt that need not wait
/// for it.
pub open spec fn with_belt(sorted: Seq<PlaceableObject>, b: PlaceableObject) -> Seq<PlaceableObject>
    decreases sorted.len(),
{
    if sorted.len() == 0 {
        seq![b]
    } else if served_before(b, sorted.last()) {
        with_belt(sorted.drop_last(), b).push(sorted.last())
    } else {
        sorted.push(b)
    }
}

/// The belts of `s` in the order of service: belts that have to be served
/// earlier come first, and belts of which neither has to wait for the other
/// keep the order they have in `s`.
pub open spec fn service_order(s: Seq<PlaceableObject>) -> Seq<PlaceableObject>
    decreases s.len(),
{
    if s.len() == 0 {
        Seq::empty()
    } else {
        with_belt(service_order(s.drop_last()), s.last())
    }
}

/// No belt of `s` stands before one that it has to wait for.
pub open spec fn in_service_order(s: Seq<PlaceableObject>) -> bool {
    forall|i: int, j: int| 0 <= i < j < s.len() ==> !served_before(s[j], s[i])
}

/// Where `with_belt` puts the new belt: at the place `p` behind which all
/// belts have to wait for it, and before which the nearest one has not.
pub proof fn lemma_with_belt_at(s: Seq<PlaceableObject>, b: PlaceableObject, p: int)
    requires
        0 <= p <= s.len(),
        forall|j: int| p <= j < s.len() ==> served_before(b, s[j]),
        p > 0 ==> !served_before(b, s[p - 1]),
    ensures
        with_belt(s, b) == s.insert(p, b),
    decreases s.len(),
{
    if s.len() == 0 {
        assert(seq![b] =~= s.insert(p, b));
    } else if p == s.len() {
        assert(s.push(b) =~= s.insert(p, b));
    } else {
        lemma_with_belt_at(s.drop_last(), b, p);
        assert(s.drop_last().insert(p, b).push(s.last()) =~= s.insert(p, b));
    }
}

/// Putting a belt into a sequence that is in service order leaves it in
/// service order, one longer.
pub proof fn lemma_with_belt_keeps_order(s: Seq<PlaceableObject>, b: PlaceableObject)
    requires
        in_service_order(s),
    ensures
        in_service_order(with_belt(s, b)),
        with_belt(s, b).len() == s.len() + 1,
    decreases s.len(),
{
    if s.len() == 0 {
    } else if served_before(b, s.last()) {
        let front = s.drop_last();
        assert(in_service_order(front)) by {
            assert forall|i: int, j: int| 0 <= i < j < front.len() implies !served_before(
                front[j],
                front[i],
            ) by {
                assert(front[i] == s[i] && front[j] == s[j]);
            }
        }
        lemma_with_belt_keeps_order(front, b);
        let put = with_belt(front, b);
        let all = put.push(s.last());
        lemma_with_belt_members(front, b);
        assert forall|i: int, j: int| 0 <= i < j < all.len() implies !served_before(
            all[j],
            all[i],
        ) by {
            if j < put.len() {
                assert(all[i] == put[i] && all[j] == put[j]);
            } else {
                assert(all[j] == s.last());
                assert(all[i] == put[i]);
                if put[i] == b {
                } else {
                    let k = choose|k: int| 0 <= k < front.len() && front[k] == put[i];
                    assert(s[k] == put[i]);
                    assert(!served_before(s[s.len() - 1], s[k]));
                }
            }
        }
    } else {
        let all = s.push(b);
        assert forall|i: int, j: int| 0 <= i < j < all.len() implies !served_before(
            all[j],
            all[i],
        ) by {
            if j < s.len() {
                assert(all[i] == s[i] && all[j] == s[j]);
            } else {
                assert(all[i] == s[i]);
                assert(!served_before(s[s.len() - 1], s[i]) || i == s.len() - 1);
            }
        }
    }
}

/// Every belt of `with_belt(s, b)` is `b` or a belt of `s`.
pub proof fn lemma_with_belt_members(s: Seq<PlaceableObject>, b: PlaceableObject)
    ensures
        forall|i: int|
            0 <= i < with_belt(s, b).len() ==> #[trigger] with_belt(s, b)[i] == b || exists|k: int|
                0 <= k < s.len() && s[k] == with_belt(s, b)[i],
    decreases s.len(),
{
    let put = with_belt(s, b);
    if s.len() == 0 {
    } else if served_before(b, s.last()) {
        let front = s.drop_last();
        lemma_with_belt_members(front, b);
        let inner = with_belt(front, b);
        assert forall|i: int| 0 <= i < put.len() implies #[trigger] put[i] == b || exists|k: int|
            0 <= k < s.len() && s[k] == put[i] by {
            if i < inner.len() {
                assert(put[i] == inner[i]);
                if inner[i] != b {
                    let k = choose|k: int| 0 <= k < front.len() && front[k] == inner[i];
                    assert(s[k] == put[i]);
                }
            } else {
                assert(s[s.len() - 1] == put[i]);
            }
        }
    } else {
        assert forall|i: int| 0 <= i < put.len() implies #[trigger] put[i] == b || exists|k: int|
            0 <= k < s.len() && s[k] == put[i] by {
            if i < s.len() {
                assert(s[i] == put[i]);
            }
        }
    }
}

/// The order of service is one: no belt comes before a belt it has to wait
/// for, and there are as many belts in it as were given.
pub proof fn lemma_service_order(s: Seq<PlaceableObject>)
    ensures
        in_service_order(service_order(s)),
        service_order(s).len() == s.len(),
    decreases s.len(),
{
    if s.len() > 0 {
        lemma_service_order(s.drop_last());
        lemma_with_belt_keeps_order(service_order(s.drop_last()), s.last());
    }
}

/// Putting a belt into a sequence adds that belt and nothing else.
pub proof fn lemma_with_belt_permutes(s: Seq<PlaceableObject>, b: PlaceableObject)
    ensures
        with_belt(s, b).to_multiset() =~= s.to_multiset().insert(b),
    decreases s.len(),
{
    if s.len() == 0 {
        assert(seq![b] =~= s.push(b));
        vstd::seq_lib::to_multiset_build(s, b);
    } else if served_before(b, s.last()) {
        let front = s.drop_last();
        lemma_with_belt_permutes(front, b);
        vstd::seq_lib::to_multiset_build(with_belt(front, b), s.last());
        vstd::seq_lib::to_multiset_build(front, s.last());
        assert(front.push(s.last()) =~= s);
    } else {
        vstd::seq_lib::to_multiset_build(s, b);
    }
}

/// The order of service holds the belts it was given, each as often as it
/// was given.
pub proof fn lemma_service_order_permutes(s: Seq<PlaceableObject>)
    ensures
        service_order(s).to_multiset() =~= s.to_multiset(),
    decreases s.len(),
{
    if s.len() == 0 {
        assert(s =~= Seq::<PlaceableObject>::empty());
    } else {
        let front = s.drop_last();
        assert(front.push(s.last()) =~= s);
        lemma_service_order_permutes(front);
        lemma_with_belt_permutes(service_order(front), s.last());
        vstd::seq_lib::to_multiset_build(front, s.last());
        assert(service_order(s).to_multiset() =~= front.to_multiset().insert(s.last()));
        assert(front.push(s.last()).to_multiset() =~= front.to_multiset().insert(s.last()));
    }
}

/// Whether belt `a` has to be served before belt `b`.
pub fn is_served_before(a: &PlaceableObject, b: &PlaceableObject) -> (r: bool)
    ensures
        r == served_before(*a, *b),
{
    let ra: u32 = a.direction.value();
    let rb: u32 = b.direction.value();
    if ra < rb {
        true
    } else if ra > rb {
        false
    } else {
        match a.direction {
            Direction::North => a.y < b.y,
            Direction::South => a.y > b.y,
            Direction::East => a.x > b.x,
            Direction::West => a.x < b.x,
        }
    }
}

/// The belts among `objects`, in the order of service.
pub fn belts_in_service_order(objects: &Vec<PlaceableObject>) -> (belts: Vec<PlaceableObject>)
    ensures
        belts@ == service_order(belts_of(objects@)),
        in_service_order(belts@),
        belts@.to_multiset() =~= belts_of(objects@).to_multiset(),
{
    let mut belts: Vec<PlaceableObject> = Vec::new();
    let mut i: usize = 0;
    while i < objects.len()
        invariant
            i <= objects@.len(),
            belts@ == service_order(belts_of(objects@.take(i as int))),
        decreases objects@.len() - i,
    {
        let obj = objects[i];
        assert(objects@.take(i + 1).drop_last() =~= objects@.take(i as int));
        match obj.placeable_type {
            PlaceableType::Belt => {
                let ghost before = belts_of(objects@.take(i as int));
                assert(before.push(obj).drop_last() =~= before);
                let mut p: usize = belts.len();
                while p > 0 && is_served_before(&obj, &belts[p - 1])
                    invariant
                        p <= belts@.len(),
                        forall|j: int| p <= j < belts@.len() ==> served_before(obj, belts@[j]),
                    decreases p,
                {
                    p = p - 1;
                }
                proof {
                    lemma_with_belt_at(belts@, obj, p as int);
                }
                belts.insert(p, obj);
            },
            _ => {},
        }
        i = i + 1;
    }
    assert(objects@.take(i as int) =~= objects@);
    proof {
        lemma_service_order(belts_of(objects@));
        lemma_service_order_permutes(belts_of(objects@));
    }
    belts
}

/// Whether a belt can pass a stack on to tile `n`: no water, no furnace or
/// chest, no stack riding a belt and none on the ground there.
pub open spec fn free_ahead(m: MapView, n: (u32, u32)) -> bool {
    &&& !m.in_water(n.0 as int, n.1 as int)
    &&& !m.blocked(n.0, n.1)
    &&& !m.belt_items.contains_key(n)
    &&& m.dropped_index_at(n.0, n.1) is None
}

/// The world after belt `b` was served: the stack it carries moves to the
/// tile ahead, onto the belt there or else onto the ground, unless that
/// tile is off the map or not free.
pub open spec fn belt_served(m: MapView, b: PlaceableObject) -> MapView {
    let from = (b.x, b.y);
    if !m.belt_items.contains_key(from) {
        m
    } else {
        match m.toward(b.x, b.y, b.direction) {
            Some(n) => if free_ahead(m, n) {
                let stack = StackView { x: n.0, y: n.1, ..m.belt_items[from] };
                let lifted = MapView { belt_items: m.belt_items.remove(from), ..m };
                if m.placeable_at(n.0, n.1) == Some(PlaceableType::Belt) {
                    MapView { belt_items: lifted.belt_items.insert(n, stack), ..lifted }
                } else {
                    lifted.with_dropped(stack)
                }
            } else {
                m
            },
            None => m,
        }
    }
}

/// A belt whose stack has a free tile ahead passes it on by exactly one
/// tile: the stack leaves the belt, and lies on the tile ahead as the
/// newest ground stack, or rides the belt there if there is one.
pub proof fn lemma_belt_passes_on(m: MapView, b: PlaceableObject, n: (u32, u32))
    requires
        m.belt_items.contains_key((b.x, b.y)),
        m.toward(b.x, b.y, b.direction) == Some(n),
        free_ahead(m, n),
    ensures
        !belt_served(m, b).belt_items.contains_key((b.x, b.y)),
        m.placeable_at(n.0, n.1) == Some(PlaceableType::Belt) ==> belt_served(m, b).belt_items[n]
            == (StackView { x: n.0, y: n.1, ..m.belt_items[(b.x, b.y)] }) && belt_served(
            m,
            b,
        ).dropped_items == m.dropped_items,
        m.placeable_at(n.0, n.1) != Some(PlaceableType::Belt) ==> belt_served(
            m,
            b,
        ).dropped_items == m.dropped_items.push(
            StackView { x: n.0, y: n.1, ..m.belt_items[(b.x, b.y)] },
        ) && !belt_served(m, b).belt_items.contains_key(n),
{
}

/// The world after the belts of `belts` were served one after the other.
pub open spec fn belts_served(m: MapView, belts: Seq<PlaceableObject>) -> MapView
    decreases belts.len(),
{
    if belts.len() == 0 {
        m
    } else {
        belt_served(belts_served(m, belts.drop_last()), belts.last())
    }
}

/// The world after the ground stack at `i` was offered to the belt under
/// it: an empty belt that can pass it on takes the whole stack and leaves an
/// empty stack on the ground.
pub open spec fn stack_fed(m: MapView, i: int) -> MapView {
    if !(0 <= i < m.dropped_items.len()) {
        m
    } else {
        let stack = m.dropped_items[i];
        match m.placeable_object_at(stack.x, stack.y) {
            Some(obj) => if obj.placeable_type == PlaceableType::Belt && !m.belt_items.contains_key(
                (stack.x, stack.y),
            ) {
                match m.toward(stack.x, stack.y, obj.direction) {
                    Some(n) => if free_ahead(m, n) && stack.quantity > 0 {
                        MapView {
                            dropped_items: m.dropped_items.update(
                                i,
                                StackView { quantity: 0, ..stack },
                            ),
                            belt_items: m.belt_items.insert((stack.x, stack.y), stack),
                            ..m
                        }
                    } else {
                        m
                    },
                    None => m,
                }
            } else {
                m
            },
            None => m,
        }
    }
}

/// The world after the first `n` ground stacks were offered to the belts
/// under them, oldest stack first.
pub open spec fn stacks_fed(m: MapView, n: int) -> MapView
    decreases n,
{
    if n <= 0 {
        m
    } else {
        stack_fed(stacks_fed(m, n - 1), n - 1)
    }
}

/// The world after one move of the belts: every belt is served in the order
/// of service, then the ground stacks are offered to the belts under them,
/// then the empty ground stacks go.
pub open spec fn belts_run(m: MapView) -> MapView {
    let served = belts_served(m, service_order(belts_of(m.placeables)));
    let fed = stacks_fed(served, served.dropped_items.len() as int);
    MapView { dropped_items: nonempty_stacks(fed.dropped_items), ..fed }
}

/// Serves one belt.
pub fn serve_belt(map: &mut GameMap, belt: &PlaceableObject)
    ensures
        final(map)@ == belt_served(old(map)@, *belt),
{
    let item = match map.get_belt_item(belt.x, belt.y) {
        Some(item) => item,
        None => {
            return ;
        },
    };
    let (next_x, next_y): (u32, u32) = match map.neighbor(belt.x, belt.y, belt.direction) {
        Some(n) => n,
        None => {
            return ;
        },
    };
    if map.would_collide_with_water(next_x, next_y) || map.would_collide_with_placeable(
        next_x,
        next_y,
    ) || map.has_belt_item(next_x, next_y) || map.get_dropped_item_index_at(
        next_x,
        next_y,
    ).is_some() {
        return ;
    }
    let mut item = item;
    item.set_position(next_x, next_y);
    let onto_belt: bool = match map.get_placeable_at(next_x, next_y) {
        Some(PlaceableType::Belt) => true,
        _ => false,
    };
    map.remove_belt_item(belt.x, belt.y);
    if onto_belt {
        map.set_belt_item(next_x, next_y, item);
    } else {
        map.add_dropped_item(item);
    }
}

/// Offers the ground stack at `index` to the belt under it.
pub fn feed_belt(map: &mut GameMap, index: usize)
    ensures
        final(map)@ == stack_fed(old(map)@, index as int),
{
    let stack = match map.get_dropped_item(index) {
        Some(stack) => stack,
        None => {
            return ;
        },
    };
    let belt = match map.get_placeable_object_at(stack.x(), stack.y()) {
        Some(obj) => obj,
        None => {
            return ;
        },
    };
    match belt.placeable_type {
        PlaceableType::Belt => {},
        _ => {
            return ;
        },
    }
    if map.has_belt_item(stack.x(), stack.y()) {
        return ;
    }
    let (next_x, next_y): (u32, u32) = match map.neighbor(stack.x(), stack.y(), belt.direction) {
        Some(n) => n,
        None => {
            return ;
        },
    };
    if map.would_collide_with_water(next_x, next_y) || map.would_collide_with_placeable(
        next_x,
        next_y,
    ) || map.has_belt_item(next_x, next_y) || map.get_dropped_item_index_at(
        next_x,
        next_y,
    ).is_some() {
        return ;
    }
    if stack.quantity() > 0 {
        let mut emptied = stack;
        emptied.remove_quantity(stack.quantity());
        map.set_dropped_item(index, emptied);
        map.set_belt_item(
            stack.x(),
            stack.y(),
            DroppedItem::new(stack.x(), stack.y(), stack.item(), stack.quantity()),
        );
    }
}

/// Moves the belts once.
pub fn run_belts(map: &mut GameMap)
    ensures
        final(map)@ == belts_run(old(map)@),
{
    let objects = map.placeable_objects();
    let belts = belts_in_service_order(&objects);
    let mut i: usize = 0;
    while i < belts.len()
        invariant
            i <= belts@.len(),
            map@ == belts_served(old(map)@, belts@.take(i as int)),
        decreases belts@.len() - i,
    {
        assert(belts@.take(i + 1).drop_last() =~= belts@.take(i as int));
        serve_belt(map, &belts[i]);
        i = i + 1;
    }
    assert(belts@.take(i as int) =~= belts@);
    let ghost served = map@;
    let n: usize = map.dropped_count();
    let mut k: usize = 0;
    while k < n
        invariant
            k <= n,
            n == served.dropped_items.len(),
            map@ == stacks_fed(served, k as int),
            map@.dropped_items.len() == n,
        decreases n - k,
    {
        feed_belt(map, k);
        k = k + 1;
    }
    map.purge_empty_stacks();
}

/// Every stack that rides a belt rides on tile `t`.
pub open spec fn only_rider(m: MapView, t: (u32, u32)) -> bool {
    forall|p: (u32, u32)| m.belt_items.contains_key(p) ==> p == t
}

/// No ground stack lies on a belt.
pub open spec fn ground_off_belts(m: MapView) -> bool {
    forall|k: int|
        0 <= k < m.dropped_items.len() ==> m.placeable_at(
            (#[trigger] m.dropped_items[k]).x,
            m.dropped_items[k].y,
        ) != Some(PlaceableType::Belt)
}

/// Belts that carry nothing change nothing when they are served.
pub proof fn lemma_empty_belts_rest(m: MapView, belts: Seq<PlaceableObject>)
    requires
        forall|k: int|
            0 <= k < belts.len() ==> !m.belt_items.contains_key(
                ((#[trigger] belts[k]).x, belts[k].y),
            ),
    ensures
        belts_served(m, belts) == m,
    decreases belts.len(),
{
    if belts.len() > 0 {
        let front = belts.drop_last();
        assert forall|k: int| 0 <= k < front.len() implies !m.belt_items.contains_key(
            ((#[trigger] front[k]).x, front[k].y),
        ) by {
            assert(front[k] == belts[k]);
        }
        lemma_empty_belts_rest(m, front);
        assert(!m.belt_items.contains_key((belts[belts.len() - 1].x, belts[belts.len() - 1].y)));
    }
}

/// Serving one run of belts and then another is serving them all in a row.
pub proof fn lemma_belts_served_concat(
    m: MapView,
    a: Seq<PlaceableObject>,
    c: Seq<PlaceableObject>,
)
    ensures
        belts_served(m, a + c) == belts_served(belts_served(m, a), c),
    decreases c.len(),
{
    if c.len() == 0 {
        assert(a + c =~= a);
    } else {
        lemma_belts_served_concat(m, a, c.drop_last());
        assert((a + c).drop_last() =~= a + c.drop_last());
    }
}

/// Where the belt at place `i` of a run is the only one that finds a stack
/// on its tile, serving the run is serving that belt.
pub proof fn lemma_only_one_served(m: MapView, order: Seq<PlaceableObject>, i: int)
    requires
        0 <= i < order.len(),
        forall|k: int|
            0 <= k < i ==> !m.belt_items.contains_key(((#[trigger] order[k]).x, order[k].y)),
        forall|k: int|
            i < k < order.len() ==> !belt_served(m, order[i]).belt_items.contains_key(
                ((#[trigger] order[k]).x, order[k].y),
            ),
    ensures
        belts_served(m, order) == belt_served(m, order[i]),
{
    let b = order[i];
    let pre = order.take(i);
    let post = order.skip(i + 1);
    assert(order =~= pre.push(b) + post);
    assert forall|k: int| 0 <= k < pre.len() implies !m.belt_items.contains_key(
        ((#[trigger] pre[k]).x, pre[k].y),
    ) by {
        assert(pre[k] == order[k]);
    }
    lemma_empty_belts_rest(m, pre);
    assert(pre.push(b).drop_last() =~= pre);
    assert(belts_served(m, pre.push(b)) == belt_served(m, b));
    assert forall|k: int| 0 <= k < post.len() implies !belt_served(m, b).belt_items.contains_key(
        ((#[trigger] post[k]).x, post[k].y),
    ) by {
        assert(post[k] == order[i + 1 + k]);
    }
    lemma_empty_belts_rest(belt_served(m, b), post);
    lemma_belts_served_concat(m, pre.push(b), post);
}

/// The belts among the machines are machines, and belts.
pub proof fn lemma_belts_of_members(s: Seq<PlaceableObject>)
    ensures
        forall|k: int|
            0 <= k < belts_of(s).len() ==> s.contains(#[trigger] belts_of(s)[k]) && belts_of(
                s,
            )[k].placeable_type == PlaceableType::Belt,
        forall|j: int|
            0 <= j < s.len() && (#[trigger] s[j]).placeable_type == PlaceableType::Belt
                ==> belts_of(s).contains(s[j]),
    decreases s.len(),
{
    if s.len() > 0 {
        let front = s.drop_last();
        lemma_belts_of_members(front);
        let all = belts_of(s);
        let inner = belts_of(front);
        assert forall|k: int| 0 <= k < all.len() implies s.contains(#[trigger] all[k])
            && all[k].placeable_type == PlaceableType::Belt by {
            if k < inner.len() {
                assert(all[k] == inner[k]);
                let j = choose|j: int| 0 <= j < front.len() && front[j] == inner[k];
                assert(s[j] == all[k]);
            } else {
                assert(s[s.len() - 1] == all[k]);
            }
        }
        assert forall|j: int|
            0 <= j < s.len() && (#[trigger] s[j]).placeable_type
                == PlaceableType::Belt implies all.contains(s[j]) by {
            if j < front.len() {
                assert(front[j] == s[j]);
                let k = choose|k: int| 0 <= k < inner.len() && inner[k] == front[j];
                assert(all[k] == s[j]);
            } else {
                assert(all[all.len() - 1] == s[j]);
            }
        }
    }
}

/// The order of service holds exactly the belts it was given.
pub proof fn lemma_service_order_members(s: Seq<PlaceableObject>, b: PlaceableObject)
    ensures
        service_order(s).contains(b) <==> s.contains(b),
{
    lemma_service_order_permutes(s);
    vstd::seq_lib::to_multiset_contains(s, b);
    vstd::seq_lib::to_multiset_contains(service_order(s), b);
}

/// In a world whose machines stand one to a tile, where belt `b` carries
/// the only stack that rides a belt, that stack is not empty, the tile `n`
/// ahead of `b` is free and no belt, and no ground stack lies on a belt, one
/// move of the belts takes the stack off `b` and lays it on `n` as the
/// newest ground stack. Nothing else changes but that empty ground stacks
/// go.
pub proof fn lemma_lone_stack_moves_to_ground(m: MapView, b: PlaceableObject, n: (u32, u32))
    requires
        m.one_per_tile(),
        m.placeables.contains(b),
        b.placeable_type == PlaceableType::Belt,
        m.belt_items.contains_key((b.x, b.y)),
        only_rider(m, (b.x, b.y)),
        m.belt_items[(b.x, b.y)].quantity > 0,
        m.toward(b.x, b.y, b.direction) == Some(n),
        free_ahead(m, n),
        m.placeable_at(n.0, n.1) != Some(PlaceableType::Belt),
        ground_off_belts(m),
    ensures
        belts_run(m) == (MapView {
            belt_items: m.belt_items.remove((b.x, b.y)),
            dropped_items: nonempty_stacks(m.dropped_items).push(
                StackView { x: n.0, y: n.1, ..m.belt_items[(b.x, b.y)] },
            ),
            ..m
        }),
{
    let stack = StackView { x: n.0, y: n.1, ..m.belt_items[(b.x, b.y)] };
    let served = belt_served(m, b);
    lemma_lone_belt_served(m, b);
    assert(served == (MapView {
        belt_items: m.belt_items.remove((b.x, b.y)),
        dropped_items: m.dropped_items.push(stack),
        ..m
    }));
    let len = served.dropped_items.len() as int;
    assert forall|j: int| 0 <= j < len implies stack_fed(served, j) == served by {
        if j < m.dropped_items.len() {
            assert(served.dropped_items[j] == m.dropped_items[j]);
        }
    }
    lemma_no_stack_fed(served, len);
    assert(served.dropped_items.drop_last() =~= m.dropped_items);
}

/// Serving the belts of a world in which belt `b` carries the only stack
/// that rides a belt, and the belt on the tile ahead of `b`, if there is
/// one, is served before `b`, is serving `b`.
pub proof fn lemma_lone_belt_served(m: MapView, b: PlaceableObject)
    requires
        m.one_per_tile(),
        m.placeables.contains(b),
        b.placeable_type == PlaceableType::Belt,
        m.belt_items.contains_key((b.x, b.y)),
        only_rider(m, (b.x, b.y)),
        m.toward(b.x, b.y, b.direction) is Some,
        free_ahead(m, m.toward(b.x, b.y, b.direction).unwrap()),
        m.placeable_object_at(
            m.toward(b.x, b.y, b.direction).unwrap().0,
            m.toward(b.x, b.y, b.direction).unwrap().1,
        ) matches Some(ahead) ==> ahead.placeable_type != PlaceableType::Belt || served_before(
            ahead,
            b,
        ),
    ensures
        belts_served(m, service_order(belts_of(m.placeables))) == belt_served(m, b),
{
    let belts = belts_of(m.placeables);
    let order = service_order(belts);
    lemma_belts_of_members(m.placeables);
    lemma_service_order_members(belts, b);
    lemma_service_order(belts);
    crate::lookup::lemma_first_index(order, b);
    let i = crate::lookup::first_index(order, b)->0;
    let tiles = crate::map::placeable_tiles(m.placeables);
    assert forall|k: int| 0 <= k < order.len() && k != i && order[k].x == b.x && order[k].y
        == b.y implies order[k] == b by {
        lemma_service_order_members(belts, order[k]);
        let j1 = choose|j: int| 0 <= j < m.placeables.len() && m.placeables[j] == order[k];
        let j2 = choose|j: int| 0 <= j < m.placeables.len() && m.placeables[j] == b;
        assert(tiles[j1] == tiles[j2]);
    }
    assert forall|k: int| 0 <= k < i implies !m.belt_items.contains_key(
        ((#[trigger] order[k]).x, order[k].y),
    ) by {
        if order[k].x == b.x && order[k].y == b.y {
            assert(order[k] == b);
        }
    }
    let served = belt_served(m, b);
    assert forall|k: int| i < k < order.len() implies !served.belt_items.contains_key(
        ((#[trigger] order[k]).x, order[k].y),
    ) by {
        let t = (order[k].x, order[k].y);
        if served.belt_items.contains_key(t) {
            let n = m.toward(b.x, b.y, b.direction).unwrap();
            assert(t == n);
            lemma_service_order_members(belts, order[k]);
            assert(belts.contains(order[k]));
            let e = choose|e: int| 0 <= e < belts.len() && belts[e] == order[k];
            assert(belts[e].placeable_type == PlaceableType::Belt);
            let j = choose|j: int| 0 <= j < m.placeables.len() && m.placeables[j] == order[k];
            assert(tiles[j] == n);
            crate::lookup::lemma_first_index(tiles, n);
            let f = crate::lookup::first_index(tiles, n)->0;
            assert(tiles[f] == tiles[j]);
            assert(f == j);
            assert(m.placeable_object_at(n.0, n.1) == Some(order[k]));
            assert(served_before(order[k], order[i]));
            assert(!served_before(order[k], order[i]));
        }
    }
    lemma_only_one_served(m, order, i);
}

/// Where no ground stack can be fed to a belt, offering them all changes
/// nothing.
pub proof fn lemma_no_stack_fed(m: MapView, n: int)
    requires
        forall|j: int| 0 <= j < n ==> stack_fed(m, j) == m,
    ensures
        stacks_fed(m, n) == m,
    decreases n,
{
    if n > 0 {
        lemma_no_stack_fed(m, n - 1);
    }
}

/// As `lemma_lone_stack_moves_to_ground`, where the tile ahead holds a belt
/// that is served before `b`: the stack then rides that belt.
pub proof fn lemma_lone_stack_moves_to_belt(m: MapView, b: PlaceableObject, n: (u32, u32))
    requires
        m.one_per_tile(),
        m.placeables.contains(b),
        b.placeable_type == PlaceableType::Belt,
        m.belt_items.contains_key((b.x, b.y)),
        only_rider(m, (b.x, b.y)),
        m.toward(b.x, b.y, b.direction) == Some(n),
        free_ahead(m, n),
        m.placeable_object_at(n.0, n.1) matches Some(ahead) && ahead.placeable_type
            == PlaceableType::Belt && served_before(ahead, b),
        ground_off_belts(m),
    ensures
        belts_run(m) == (MapView {
            belt_items: m.belt_items.remove((b.x, b.y)).insert(
                n,
                StackView { x: n.0, y: n.1, ..m.belt_items[(b.x, b.y)] },
            ),
            dropped_items: nonempty_stacks(m.dropped_items),
            ..m
        }),
{
    let served = belt_served(m, b);
    lemma_lone_belt_served(m, b);
    let len = served.dropped_items.len() as int;
    assert(served.dropped_items == m.dropped_items);
    assert forall|j: int| 0 <= j < len implies stack_fed(served, j) == served by {
        assert(served.dropped_items[j] == m.dropped_items[j]);
    }
    lemma_no_stack_fed(served, len);
}

} // verus!
