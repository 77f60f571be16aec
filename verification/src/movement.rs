//! What a key press does to the board: which entities a push reaches, and
//! where they end up.

use vstd::prelude::*;

use crate::components::Position;
use crate::game::{MAP_HEIGHT, MAP_WIDTH};
use crate::occupancy::{occupant, Layer, OccupancyIndex};
use crate::resources::{GamePlay, GamePlayEvent, KeyCode};
use crate::world::{Entity, Tags, World};

verus! {

/// Whether the key asks for a move.
pub open spec fn is_direction(key: KeyCode) -> bool {
    key != KeyCode::Other
}

/// Whether the key moves along the x-axis.
pub open spec fn along_x(key: KeyCode) -> bool {
    key == KeyCode::Left || key == KeyCode::Right
}

/// The coordinate at which a scan begins: the player's own, on the axis of
/// the key.
pub open spec fn scan_start(key: KeyCode, p: Position) -> u8 {
    if along_x(key) {
        p.x
    } else {
        p.y
    }
}

/// The coordinate towards which a scan runs: 0 for up and left, the far edge
/// of the board for down and right.
pub open spec fn scan_end(key: KeyCode) -> u8 {
    match key {
        KeyCode::Down => MAP_HEIGHT,
        KeyCode::Right => MAP_WIDTH,
        _ => 0,
    }
}

/// Number of cells that a scan from `p` visits at most: every cell from the
/// player's own to the edge, both included. A player that already stands on
/// the edge coordinate has nothing to scan.
pub open spec fn scan_len(key: KeyCode, p: Position) -> nat {
    let s = scan_start(key, p);
    let e = scan_end(key);
    if s < e {
        (e - s + 1) as nat
    } else if s > e {
        (s - e + 1) as nat
    } else {
        0
    }
}

/// The coordinate, on the axis of the key, of the `k`-th cell of a scan.
pub open spec fn scan_coord(key: KeyCode, p: Position, k: nat) -> u8 {
    if scan_start(key, p) < scan_end(key) {
        (scan_start(key, p) + k) as u8
    } else {
        (scan_start(key, p) - k) as u8
    }
}

/// The x-coordinate of the `k`-th cell of a scan.
pub open spec fn scan_x(key: KeyCode, p: Position, k: nat) -> u8 {
    if along_x(key) {
        scan_coord(key, p, k)
    } else {
        p.x
    }
}

/// The y-coordinate of the `k`-th cell of a scan.
pub open spec fn scan_y(key: KeyCode, p: Position, k: nat) -> u8 {
    if along_x(key) {
        p.y
    } else {
        scan_coord(key, p, k)
    }
}

/// The movable entity on the `k`-th cell of a scan.
pub open spec fn movable_on(w: Seq<Tags>, key: KeyCode, p: Position, k: nat) -> Option<Entity> {
    occupant(w, Layer::Movable, scan_x(key, p, k), scan_y(key, p, k))
}

/// The immovable entity on the `k`-th cell of a scan.
pub open spec fn immovable_on(w: Seq<Tags>, key: KeyCode, p: Position, k: nat) -> Option<
    Entity,
> {
    occupant(w, Layer::Immovable, scan_x(key, p, k), scan_y(key, p, k))
}

/// What a key press sets in motion: the entities to shift, in the order in
/// which the scan met them, and how often a push ran into an obstacle.
pub struct Push {
    pub moves: Seq<Entity>,
    pub hits: nat,
}

/// Nothing moves and nothing is hit.
pub open spec fn no_push() -> Push {
    Push { moves: Seq::empty(), hits: 0 }
}

/// Scans from cell `k` on. A movable entity joins the push and the scan goes
/// on; an immovable one cancels everything that was to move and counts as a
/// hit; an empty cell, or the end of the board, ends the scan and leaves the
/// push as it is.
pub open spec fn push_from(w: Seq<Tags>, key: KeyCode, p: Position, k: nat, so_far: Push) -> Push
    decreases scan_len(key, p) - k,
{
    if k >= scan_len(key, p) {
        so_far
    } else {
        match movable_on(w, key, p, k) {
            Some(e) => push_from(
                w,
                key,
                p,
                k + 1,
                Push { moves: so_far.moves.push(e), hits: so_far.hits },
            ),
            None => if immovable_on(w, key, p, k) is Some {
                Push { moves: Seq::empty(), hits: so_far.hits + 1 }
            } else {
                so_far
            },
        }
    }
}

/// Whether an entity with these tags is a player on the board.
pub open spec fn is_player(t: Tags) -> bool {
    t.player && t.position is Some
}

/// The push that the players among the first `n` entities make, each
/// scanning from its own cell, in the order of the store.
pub open spec fn push_all(w: Seq<Tags>, key: KeyCode, n: nat) -> Push
    decreases n,
{
    if n == 0 {
        no_push()
    } else {
        let before = push_all(w, key, (n - 1) as nat);
        let t = w[n - 1];
        if is_player(t) {
            push_from(w, key, t.position.unwrap(), 0, before)
        } else {
            before
        }
    }
}

/// The push that a key press makes on a board. A key that is no direction
/// starts no scan.
pub open spec fn resolve(w: Seq<Tags>, key: KeyCode) -> Push {
    if is_direction(key) {
        push_all(w, key, w.len())
    } else {
        no_push()
    }
}

/// A position one cell further in the direction of the key. A coordinate
/// that cannot go further stays; z is kept.
pub open spec fn shifted(p: Position, key: KeyCode) -> Position {
    match key {
        KeyCode::Up => Position { y: if p.y > 0 { (p.y - 1) as u8 } else { p.y }, ..p },
        KeyCode::Down => Position { y: if p.y < u8::MAX { (p.y + 1) as u8 } else { p.y }, ..p },
        KeyCode::Left => Position { x: if p.x > 0 { (p.x - 1) as u8 } else { p.x }, ..p },
        KeyCode::Right => Position { x: if p.x < u8::MAX { (p.x + 1) as u8 } else { p.x }, ..p },
        KeyCode::Other => p,
    }
}

/// The board after one entity was shifted. An entity that the store does not
/// hold, or one without position, changes nothing.
pub open spec fn shift_entity(w: Seq<Tags>, key: KeyCode, e: Entity) -> Seq<Tags> {
    if e.0 < w.len() && w[e.0 as int].position is Some {
        w.update(
            e.0 as int,
            Tags { position: Some(shifted(w[e.0 as int].position.unwrap(), key)), ..w[e.0 as int] },
        )
    } else {
        w
    }
}

/// The board after every entity of `moves` was shifted, one after the other.
pub open spec fn apply_moves(w: Seq<Tags>, key: KeyCode, moves: Seq<Entity>) -> Seq<Tags>
    decreases moves.len(),
{
    if moves.len() == 0 {
        w
    } else {
        shift_entity(apply_moves(w, key, moves.drop_last()), key, moves.last())
    }
}

/// One obstacle event for each hit.
pub open spec fn hit_events(hits: nat) -> Seq<GamePlayEvent> {
    Seq::new(hits, |i: int| GamePlayEvent::HitObstacle)
}

/// One movement event for each entity that was shifted, in the same order.
pub open spec fn moved_events(moves: Seq<Entity>) -> Seq<GamePlayEvent> {
    Seq::new(moves.len(), |i: int| GamePlayEvent::EntityMoved(moves[i]))
}

/// The outcome of a turn.
pub struct Turn {
    pub world: Seq<Tags>,
    pub events: Seq<GamePlayEvent>,
    pub gameplay: GamePlay,
}

/// The turn that a key press makes: the entities of the push are shifted,
/// the obstacle events come before the movement events, both after the
/// events that were already waiting, and the turn counts as a step if
/// anything was to move.
pub open spec fn turn(
    w: Seq<Tags>,
    key: KeyCode,
    events: Seq<GamePlayEvent>,
    gameplay: GamePlay,
) -> Turn {
    let push = resolve(w, key);
    Turn {
        world: apply_moves(w, key, push.moves),
        events: events + hit_events(push.hits) + moved_events(push.moves),
        gameplay: GamePlay {
            state: gameplay.state,
            steps_taken: if push.moves.len() > 0 {
                (gameplay.steps_taken + 1) as u32
            } else {
                gameplay.steps_taken
            },
        },
    }
}


/// A push as it is handed to the caller.
#[derive(Debug)]
pub struct Pushed {
    /// The entities to shift, in the order in which the scan met them.
    pub to_move: Vec<Entity>,
    /// How often a push ran into an obstacle.
    pub hits: usize,
}

impl View for Pushed {
    type V = Push;

    open spec fn view(&self) -> Push {
        Push { moves: self.to_move@, hits: self.hits as nat }
    }
}

/// Tells whether the key asks for a move.
fn asks_for_move(key: KeyCode) -> (r: bool)
    ensures
        r == is_direction(key),
{
    match key {
        KeyCode::Other => false,
        _ => true,
    }
}

/// Scans from the cell of one player and extends `to_move` by the chain it
/// pushes, or empties it where the chain is blocked. Tells whether it was.
fn push_chain(
    index: &OccupancyIndex,
    key: KeyCode,
    p: Position,
    to_move: &mut Vec<Entity>,
    Ghost(w): Ghost<Seq<Tags>>,
    Ghost(hits): Ghost<nat>,
) -> (blocked: bool)
    requires
        index.reflects(w),
        is_direction(key),
    ensures
        push_from(w, key, p, 0, Push { moves: old(to_move)@, hits }) == (Push {
            moves: final(to_move)@,
            hits: if blocked {
                hits + 1
            } else {
                hits
            },
        }),
{
    let start: u8 = match key {
        KeyCode::Left | KeyCode::Right => p.x,
        _ => p.y,
    };
    let end: u8 = match key {
        KeyCode::Down => MAP_HEIGHT,
        KeyCode::Right => MAP_WIDTH,
        _ => 0,
    };
    let x_axis: bool = match key {
        KeyCode::Left | KeyCode::Right => true,
        _ => false,
    };
    let count: u16 = if start < end {
        (end - start) as u16 + 1
    } else if start > end {
        (start - end) as u16 + 1
    } else {
        0
    };
    let ghost goal = push_from(w, key, p, 0, Push { moves: old(to_move)@, hits });
    let mut k: u16 = 0;
    let mut done = false;
    let mut blocked = false;
    while k < count && !done
        invariant
            index.reflects(w),
            start == scan_start(key, p),
            end == scan_end(key),
            x_axis == along_x(key),
            count == scan_len(key, p),
            k <= count,
            blocked ==> done,
            done ==> goal == (Push {
                moves: to_move@,
                hits: if blocked {
                    hits + 1
                } else {
                    hits
                },
            }),
            !done ==> push_from(w, key, p, k as nat, Push { moves: to_move@, hits }) == goal,
        decreases count - k + (if done { 0int } else { 1int }),
    {
        let coord: u8 = if start < end {
            start + k as u8
        } else {
            start - k as u8
        };
        assert(coord == scan_coord(key, p, k as nat));
        let x: u8 = if x_axis { coord } else { p.x };
        let y: u8 = if x_axis { p.y } else { coord };
        assert(x == scan_x(key, p, k as nat) && y == scan_y(key, p, k as nat));
        match index.movables.get(x, y) {
            Some(entity) => {
                to_move.push(entity);
                k += 1;
            },
            None => {
                if index.immovables.get(x, y).is_some() {
                    to_move.clear();
                    blocked = true;
                }
                done = true;
            },
        }
    }
    blocked
}

/// Resolves a key press against the board: finds the entities that the
/// players push, and counts the pushes that run into an obstacle. Nothing
/// on the board is changed.
pub fn resolve_push(world: &World, index: &OccupancyIndex, key: KeyCode) -> (pushed: Pushed)
    requires
        index.reflects(world@),
    ensures
        pushed@ == resolve(world@, key),
{
    let mut to_move: Vec<Entity> = Vec::new();
    let mut hits: usize = 0;
    if asks_for_move(key) {
        let n = world.len();
        let mut i: usize = 0;
        while i < n
            invariant
                n == world@.len(),
                i <= n,
                hits <= i,
                index.reflects(world@),
                is_direction(key),
                push_all(world@, key, i as nat) == (Push { moves: to_move@, hits: hits as nat }),
            decreases n - i,
        {
            match world.get(Entity(i)) {
                Some(components) => {
                    if components.player.is_some() {
                        match components.position {
                            Some(p) => {
                                let blocked = push_chain(
                                    index,
                                    key,
                                    p,
                                    &mut to_move,
                                    Ghost(world@),
                                    Ghost(hits as nat),
                                );
                                if blocked {
                                    hits += 1;
                                }
                            },
                            None => {},
                        }
                    }
                },
                None => {},
            }
            i += 1;
        }
    }
    Pushed { to_move, hits }
}

/// Moves a position by one cell in the direction of the key.
fn shift(p: Position, key: KeyCode) -> (r: Position)
    ensures
        r == shifted(p, key),
{
    match key {
        KeyCode::Up => Position { x: p.x, y: if p.y > 0 { p.y - 1 } else { p.y }, z: p.z },
        KeyCode::Down => Position { x: p.x, y: if p.y < u8::MAX { p.y + 1 } else { p.y }, z: p.z },
        KeyCode::Left => Position { x: if p.x > 0 { p.x - 1 } else { p.x }, y: p.y, z: p.z },
        KeyCode::Right => Position { x: if p.x < u8::MAX { p.x + 1 } else { p.x }, y: p.y, z: p.z },
        KeyCode::Other => p,
    }
}

/// Shifts every entity of `moves` by one cell in the direction of the key,
/// one after the other. A coordinate that is 0 stays 0.
pub fn shift_entities(world: &mut World, key: KeyCode, moves: &Vec<Entity>)
    ensures
        final(world)@ == apply_moves(old(world)@, key, moves@),
{
    let total = moves.len();
    let mut j: usize = 0;
    assert(moves@.take(0) =~= Seq::<Entity>::empty());
    while j < total
        invariant
            total == moves@.len(),
            j <= total,
            world@ == apply_moves(old(world)@, key, moves@.take(j as int)),
        decreases total - j,
    {
        let entity = moves[j];
        let at = match world.get(entity) {
            Some(components) => components.position,
            None => None,
        };
        match at {
            Some(p) => {
                world.set_position(entity, shift(p, key));
            },
            None => {},
        }
        proof {
            assert(moves@.take(j + 1).drop_last() =~= moves@.take(j as int));
            assert(moves@.take(j + 1).last() == entity);
        }
        j += 1;
    }
    assert(moves@.take(total as int) =~= moves@);
}

/// Whether `i` is a player on the board and the only one.
pub open spec fn sole_player(w: Seq<Tags>, i: int) -> bool {
    &&& 0 <= i < w.len()
    &&& is_player(w[i])
    &&& forall|j: int| 0 <= j < w.len() && j != i ==> !is_player(#[trigger] w[j])
}

/// Whether no two entities that are movable or immovable stand on the same
/// cell.
pub open spec fn collision_free(w: Seq<Tags>) -> bool {
    forall|a: int, b: int|
        #![trigger w[a], w[b]]
        0 <= a < b < w.len() && (w[a].movable || w[a].immovable) && (w[b].movable
            || w[b].immovable) && w[a].position is Some && w[b].position is Some ==> !(
        w[a].position.unwrap().x == w[b].position.unwrap().x && w[a].position.unwrap().y
            == w[b].position.unwrap().y)
}

/// Whether each of the first `n` cells of the scan holds a movable entity.
pub open spec fn chain_of(w: Seq<Tags>, key: KeyCode, p: Position, n: nat) -> bool {
    &&& n <= scan_len(key, p)
    &&& forall|k: nat| k < n ==> (#[trigger] movable_on(w, key, p, k)) is Some
}

/// The movable entities on the first `n` cells of the scan.
pub open spec fn chain(w: Seq<Tags>, key: KeyCode, p: Position, n: nat) -> Seq<Entity> {
    Seq::new(n, |k: int| movable_on(w, key, p, k as nat).unwrap())
}

/// Whether the scan ends after `n` cells without obstacle: the board ends
/// there, or the next cell is empty.
pub open spec fn ends_open(w: Seq<Tags>, key: KeyCode, p: Position, n: nat) -> bool {
    n == scan_len(key, p) || (movable_on(w, key, p, n) is None && immovable_on(w, key, p, n)
        is None)
}

/// Whether the cell after the first `n` cells of the scan holds an immovable
/// entity and no movable one.
pub open spec fn ends_blocked(w: Seq<Tags>, key: KeyCode, p: Position, n: nat) -> bool {
    &&& n < scan_len(key, p)
    &&& movable_on(w, key, p, n) is None
    &&& immovable_on(w, key, p, n) is Some
}

/// Whether a coordinate has a neighbour in the direction of the key.
pub open spec fn can_advance(key: KeyCode, c: u8) -> bool {
    if key == KeyCode::Up || key == KeyCode::Left {
        c > 0
    } else {
        c < u8::MAX
    }
}

/// Change of the x-coordinate by one step in the direction of the key.
pub open spec fn dx(key: KeyCode) -> int {
    match key {
        KeyCode::Left => -1,
        KeyCode::Right => 1,
        _ => 0,
    }
}

/// Change of the y-coordinate by one step in the direction of the key.
pub open spec fn dy(key: KeyCode) -> int {
    match key {
        KeyCode::Up => -1,
        KeyCode::Down => 1,
        _ => 0,
    }
}

/// Whether `after` is `before` moved by exactly one cell in the direction of
/// the key, with nothing else changed.
pub open spec fn advanced(before: Tags, after: Tags, key: KeyCode) -> bool {
    &&& before.position is Some
    &&& after.position is Some
    &&& after.position.unwrap().x == before.position.unwrap().x + dx(key)
    &&& after.position.unwrap().y == before.position.unwrap().y + dy(key)
    &&& after.position.unwrap().z == before.position.unwrap().z
    &&& after == Tags { position: after.position, ..before }
}

/// The cells of a scan lie on the axis of the key, one step apart, and no
/// two of them are the same.
pub proof fn lemma_scan_cells(key: KeyCode, p: Position, k: nat)
    requires
        is_direction(key),
        k < scan_len(key, p),
    ensures
        scan_coord(key, p, k) == (if scan_start(key, p) < scan_end(key) {
            scan_start(key, p) + k
        } else {
            scan_start(key, p) - k
        }),
        forall|m: nat|
            m < scan_len(key, p) && m != k ==> (#[trigger] scan_coord(key, p, m)) != scan_coord(
                key,
                p,
                k,
            ),
{
}

/// What a scan yields from cell `k` on when the first `n` cells hold a chain
/// of movable entities: the rest of the chain joins the push if the scan ends
/// open, and the push is cancelled with one hit if it ends blocked.
pub proof fn lemma_push_from_chain(
    w: Seq<Tags>,
    key: KeyCode,
    p: Position,
    k: nat,
    n: nat,
    so_far: Push,
)
    requires
        k <= n,
        chain_of(w, key, p, n),
    ensures
        ends_open(w, key, p, n) ==> push_from(w, key, p, k, so_far) == (Push {
            moves: so_far.moves + chain(w, key, p, n).subrange(k as int, n as int),
            hits: so_far.hits,
        }),
        ends_blocked(w, key, p, n) ==> push_from(w, key, p, k, so_far) == (Push {
            moves: Seq::empty(),
            hits: so_far.hits + 1,
        }),
    decreases n - k,
{
    let c = chain(w, key, p, n);
    if k < n {
        let e = movable_on(w, key, p, k).unwrap();
        let next = Push { moves: so_far.moves.push(e), hits: so_far.hits };
        lemma_push_from_chain(w, key, p, k + 1, n, next);
        assert(c[k as int] == e);
        assert(next.moves + c.subrange(k as int + 1, n as int) =~= so_far.moves + c.subrange(
            k as int,
            n as int,
        ));
    } else {
        assert(so_far.moves + c.subrange(k as int, n as int) =~= so_far.moves);
    }
}

/// With a single player on the board, the push is the one that its scan
/// makes.
pub proof fn lemma_push_all_sole(w: Seq<Tags>, key: KeyCode, i: int, n: nat)
    requires
        sole_player(w, i),
        n <= w.len(),
    ensures
        push_all(w, key, n) == (if n <= i {
            no_push()
        } else {
            push_from(w, key, w[i].position.unwrap(), 0, no_push())
        }),
    decreases n,
{
    if n > 0 {
        lemma_push_all_sole(w, key, i, (n - 1) as nat);
    }
}

/// The entities of a chain belong to the store, are movable, stand on the
/// cells of the scan, and are all different.
pub proof fn lemma_chain_entities(w: Seq<Tags>, key: KeyCode, p: Position, n: nat)
    requires
        w.len() <= usize::MAX,
        is_direction(key),
        chain_of(w, key, p, n),
    ensures
        chain(w, key, p, n).len() == n,
        chain(w, key, p, n).no_duplicates(),
        forall|k: int|
            0 <= k < n ==> {
                let e = #[trigger] chain(w, key, p, n)[k];
                &&& e.0 < w.len()
                &&& w[e.0 as int].movable
                &&& w[e.0 as int].position is Some
                &&& w[e.0 as int].position.unwrap().x == scan_x(key, p, k as nat)
                &&& w[e.0 as int].position.unwrap().y == scan_y(key, p, k as nat)
            },
{
    let c = chain(w, key, p, n);
    assert forall|k: int| 0 <= k < n implies {
        let e = #[trigger] c[k];
        &&& e.0 < w.len()
        &&& w[e.0 as int].movable
        &&& w[e.0 as int].position is Some
        &&& w[e.0 as int].position.unwrap().x == scan_x(key, p, k as nat)
        &&& w[e.0 as int].position.unwrap().y == scan_y(key, p, k as nat)
    } by {
        assert(movable_on(w, key, p, k as nat) is Some);
        crate::occupancy::lemma_occupant_some(
            w,
            Layer::Movable,
            scan_x(key, p, k as nat),
            scan_y(key, p, k as nat),
        );
    }
    assert forall|a: int, b: int| 0 <= a < n && 0 <= b < n && a != b implies c[a] != c[b] by {
        lemma_scan_cells(key, p, a as nat);
        assert(scan_coord(key, p, b as nat) != scan_coord(key, p, a as nat));
        let ea = c[a];
        let eb = c[b];
        assert(w[ea.0 as int].position.unwrap().x == scan_x(key, p, a as nat));
        assert(w[eb.0 as int].position.unwrap().x == scan_x(key, p, b as nat));
    }
}

/// The tags of an entity after it was shifted.
pub open spec fn shift_tags(t: Tags, key: KeyCode) -> Tags {
    match t.position {
        Some(p) => Tags { position: Some(shifted(p, key)), ..t },
        None => t,
    }
}

/// Shifting entities that are all different shifts each of them once and
/// leaves every other entity as it was.
pub proof fn lemma_apply_moves(w: Seq<Tags>, key: KeyCode, moves: Seq<Entity>)
    requires
        w.len() <= usize::MAX,
        moves.no_duplicates(),
    ensures
        apply_moves(w, key, moves).len() == w.len(),
        forall|j: int|
            0 <= j < w.len() ==> #[trigger] apply_moves(w, key, moves)[j] == (if moves.contains(
                Entity(j as usize),
            ) {
                shift_tags(w[j], key)
            } else {
                w[j]
            }),
    decreases moves.len(),
{
    if moves.len() > 0 {
        let init = moves.drop_last();
        let last = moves.last();
        lemma_apply_moves(w, key, init);
        let mid = apply_moves(w, key, init);
        assert forall|j: int| 0 <= j < w.len() implies #[trigger] apply_moves(w, key, moves)[j]
            == (if moves.contains(Entity(j as usize)) {
            shift_tags(w[j], key)
        } else {
            w[j]
        }) by {
            let e = Entity(j as usize);
            if last == e {
                assert(moves[moves.len() - 1] == e);
                if init.contains(e) {
                    let k = choose|k: int| 0 <= k < init.len() && init[k] == e;
                    assert(moves[k] == e);
                }
            } else {
                if moves.contains(e) {
                    let k = choose|k: int| 0 <= k < moves.len() && moves[k] == e;
                    assert(init[k] == e);
                }
                if init.contains(e) {
                    let k = choose|k: int| 0 <= k < init.len() && init[k] == e;
                    assert(moves[k] == e);
                }
            }
        }
    }
}

/// On a board without collisions, the occupant of the cell of a movable or
/// immovable entity is that entity.
pub proof fn lemma_sole_occupant(w: Seq<Tags>, layer: Layer, j: int)
    requires
        w.len() <= usize::MAX,
        collision_free(w),
        0 <= j < w.len(),
        layer != Layer::Boxes,
        crate::occupancy::in_layer(w[j], layer),
        w[j].position is Some,
    ensures
        occupant(w, layer, w[j].position.unwrap().x, w[j].position.unwrap().y) == Some(
            Entity(j as usize),
        ),
{
    let x = w[j].position.unwrap().x;
    let y = w[j].position.unwrap().y;
    crate::occupancy::lemma_occupant_none(w, layer, x, y);
    assert(crate::occupancy::occupies(w[j], layer, x, y));
    crate::occupancy::lemma_occupant_some(w, layer, x, y);
    let found = occupant(w, layer, x, y).unwrap().0 as int;
    if found < j {
        assert(w[found].position is Some && w[j].position is Some);
    } else if j < found {
        assert(w[j].position is Some && w[found].position is Some);
    }
}

/// A chain of movable entities that starts at the only player and is
/// followed by an empty cell or by the edge of the board moves as a whole:
/// each of its entities ends up exactly one cell further in the direction
/// of the key, every other entity stays as it was, one movement event is
/// queued for each entity of the chain, and the turn counts as one step.
/// The chain must have room: no entity of it stands on the last coordinate
/// that the direction can reach.
pub proof fn law_open_chain_advances(
    w: Seq<Tags>,
    key: KeyCode,
    i: int,
    n: nat,
    events: Seq<GamePlayEvent>,
    gameplay: GamePlay,
)
    requires
        w.len() <= usize::MAX,
        gameplay.steps_taken < u32::MAX,
        is_direction(key),
        sole_player(w, i),
        n >= 1,
        chain_of(w, key, w[i].position.unwrap(), n),
        ends_open(w, key, w[i].position.unwrap(), n),
        forall|k: nat|
            k < n ==> can_advance(key, #[trigger] scan_coord(key, w[i].position.unwrap(), k)),
    ensures
        ({
            let c = chain(w, key, w[i].position.unwrap(), n);
            let t = turn(w, key, events, gameplay);
            &&& resolve(w, key) == Push { moves: c, hits: 0 }
            &&& t.gameplay.steps_taken == gameplay.steps_taken + 1
            &&& t.gameplay.state == gameplay.state
            &&& t.events == events + moved_events(c)
            &&& t.world.len() == w.len()
            &&& forall|k: int|
                #![trigger c[k]]
                0 <= k < n ==> c[k].0 < w.len() && advanced(
                    w[c[k].0 as int],
                    t.world[c[k].0 as int],
                    key,
                )
            &&& forall|j: int|
                0 <= j < w.len() && !c.contains(Entity(j as usize)) ==> #[trigger] t.world[j]
                    == w[j]
            &&& collision_free(w) && w[i].movable ==> c[0] == Entity(i as usize)
        }),
{
    let p = w[i].position.unwrap();
    let c = chain(w, key, p, n);
    let t = turn(w, key, events, gameplay);
    lemma_push_all_sole(w, key, i, w.len());
    lemma_push_from_chain(w, key, p, 0, n, no_push());
    assert(no_push().moves + c.subrange(0, n as int) =~= c);
    assert(resolve(w, key) == Push { moves: c, hits: 0 });
    assert(hit_events(0) =~= Seq::<GamePlayEvent>::empty());
    assert(events + hit_events(0) + moved_events(c) =~= events + moved_events(c));
    lemma_chain_entities(w, key, p, n);
    lemma_apply_moves(w, key, c);
    assert forall|k: int| #![trigger c[k]] 0 <= k < n implies c[k].0 < w.len() && advanced(
        w[c[k].0 as int],
        t.world[c[k].0 as int],
        key,
    ) by {
        let e = c[k];
        assert(c.contains(Entity(e.0 as int as usize)));
        assert(t.world[e.0 as int] == shift_tags(w[e.0 as int], key));
        lemma_scan_cells(key, p, k as nat);
        assert(can_advance(key, scan_coord(key, p, k as nat)));
    }
    if collision_free(w) && w[i].movable {
        lemma_sole_occupant(w, Layer::Movable, i);
        lemma_scan_cells(key, p, 0);
        assert(c[0] == movable_on(w, key, p, 0).unwrap());
    }
}

/// A chain of movable entities that starts at the only player and runs into
/// an immovable entity stays where it is: the board does not change, the
/// turn does not count as a step, and exactly one obstacle event is queued.
pub proof fn law_blocked_chain_stays(
    w: Seq<Tags>,
    key: KeyCode,
    i: int,
    n: nat,
    events: Seq<GamePlayEvent>,
    gameplay: GamePlay,
)
    requires
        is_direction(key),
        sole_player(w, i),
        chain_of(w, key, w[i].position.unwrap(), n),
        ends_blocked(w, key, w[i].position.unwrap(), n),
    ensures
        resolve(w, key) == (Push { moves: Seq::empty(), hits: 1 }),
        turn(w, key, events, gameplay).world == w,
        turn(w, key, events, gameplay).gameplay == gameplay,
        turn(w, key, events, gameplay).events == events.push(GamePlayEvent::HitObstacle),
{
    let p = w[i].position.unwrap();
    lemma_push_all_sole(w, key, i, w.len());
    lemma_push_from_chain(w, key, p, 0, n, no_push());
    assert(moved_events(Seq::<Entity>::empty()) =~= Seq::<GamePlayEvent>::empty());
    assert(events + hit_events(1) + moved_events(Seq::<Entity>::empty()) =~= events.push(
        GamePlayEvent::HitObstacle,
    ));
}

/// A key that is no direction changes nothing.
pub proof fn law_other_key_changes_nothing(
    w: Seq<Tags>,
    events: Seq<GamePlayEvent>,
    gameplay: GamePlay,
)
    ensures
        turn(w, KeyCode::Other, events, gameplay).world == w,
        turn(w, KeyCode::Other, events, gameplay).events == events,
        turn(w, KeyCode::Other, events, gameplay).gameplay == gameplay,
{
    assert(events + hit_events(0) + moved_events(Seq::<Entity>::empty()) =~= events);
}

/// No player among the first `n` entities means no push.
proof fn lemma_push_all_without_player(w: Seq<Tags>, key: KeyCode, n: nat)
    requires
        n <= w.len(),
        forall|j: int| 0 <= j < n ==> !is_player(#[trigger] w[j]),
    ensures
        push_all(w, key, n) == no_push(),
    decreases n,
{
    if n > 0 {
        lemma_push_all_without_player(w, key, (n - 1) as nat);
    }
}

/// On a board without player a key press changes nothing.
pub proof fn law_press_without_player_changes_nothing(
    w: Seq<Tags>,
    key: KeyCode,
    events: Seq<GamePlayEvent>,
    gameplay: GamePlay,
)
    requires
        forall|j: int| 0 <= j < w.len() ==> !is_player(#[trigger] w[j]),
    ensures
        turn(w, key, events, gameplay).world == w,
        turn(w, key, events, gameplay).events == events,
        turn(w, key, events, gameplay).gameplay == gameplay,
{
    lemma_push_all_without_player(w, key, w.len());
    assert(events + hit_events(0) + moved_events(Seq::<Entity>::empty()) =~= events);
}

/// A player that stands on the coordinate towards which the key points has
/// no cell to scan: the key press changes nothing, and the turn does not
/// count as a step.
pub proof fn law_player_on_edge_stays(
    w: Seq<Tags>,
    key: KeyCode,
    i: int,
    events: Seq<GamePlayEvent>,
    gameplay: GamePlay,
)
    requires
        sole_player(w, i),
        scan_start(key, w[i].position.unwrap()) == scan_end(key),
    ensures
        turn(w, key, events, gameplay).world == w,
        turn(w, key, events, gameplay).events == events,
        turn(w, key, events, gameplay).gameplay == gameplay,
{
    lemma_push_all_sole(w, key, i, w.len());
    assert(events + hit_events(0) + moved_events(Seq::<Entity>::empty()) =~= events);
}

/// A player that faces an empty cell steps onto it: the player ends up
/// exactly one cell further in the direction of the key, nothing else on the
/// board changes, and the turn counts as one step.
pub proof fn law_step_onto_empty_cell(
    w: Seq<Tags>,
    key: KeyCode,
    i: int,
    events: Seq<GamePlayEvent>,
    gameplay: GamePlay,
)
    requires
        w.len() <= usize::MAX,
        gameplay.steps_taken < u32::MAX,
        is_direction(key),
        collision_free(w),
        sole_player(w, i),
        w[i].movable,
        scan_len(key, w[i].position.unwrap()) >= 2,
        can_advance(key, scan_start(key, w[i].position.unwrap())),
        movable_on(w, key, w[i].position.unwrap(), 1) is None,
        immovable_on(w, key, w[i].position.unwrap(), 1) is None,
    ensures
        ({
            let t = turn(w, key, events, gameplay);
            &&& t.world.len() == w.len()
            &&& advanced(w[i], t.world[i], key)
            &&& forall|j: int| 0 <= j < w.len() && j != i ==> #[trigger] t.world[j] == w[j]
            &&& t.gameplay.steps_taken == gameplay.steps_taken + 1
            &&& t.events == events.push(GamePlayEvent::EntityMoved(Entity(i as usize)))
        }),
{
    let p = w[i].position.unwrap();
    lemma_sole_occupant(w, Layer::Movable, i);
    lemma_scan_cells(key, p, 0);
    assert(movable_on(w, key, p, 0) == Some(Entity(i as usize)));
    assert(chain_of(w, key, p, 1)) by {
        assert forall|k: nat| k < 1 implies (#[trigger] movable_on(w, key, p, k)) is Some by {
            assert(k == 0);
        }
    }
    assert forall|k: nat| k < 1 implies can_advance(key, #[trigger] scan_coord(key, p, k)) by {
        assert(k == 0);
    }
    law_open_chain_advances(w, key, i, 1, events, gameplay);
    let c = chain(w, key, p, 1);
    let t = turn(w, key, events, gameplay);
    assert(c =~= seq![Entity(i as usize)]);
    assert(moved_events(c) =~= seq![GamePlayEvent::EntityMoved(Entity(i as usize))]);
    assert(advanced(w[c[0].0 as int], t.world[c[0].0 as int], key));
    assert forall|j: int| 0 <= j < w.len() && j != i implies #[trigger] t.world[j] == w[j] by {
        if c.contains(Entity(j as usize)) {
            let k = choose|k: int| 0 <= k < c.len() && c[k] == Entity(j as usize);
            assert(c[0] == Entity(i as usize));
        }
    }
}

/// A player that pushes a single movable entity onto an empty cell, or
/// towards the edge of the board, moves together with it: both end up
/// exactly one cell further in the direction of the key, nothing else on the
/// board changes, and the turn counts as one step.
pub proof fn law_single_push(
    w: Seq<Tags>,
    key: KeyCode,
    i: int,
    b: int,
    events: Seq<GamePlayEvent>,
    gameplay: GamePlay,
)
    requires
        w.len() <= usize::MAX,
        gameplay.steps_taken < u32::MAX,
        is_direction(key),
        collision_free(w),
        sole_player(w, i),
        w[i].movable,
        0 <= b < w.len(),
        w[b].movable,
        scan_len(key, w[i].position.unwrap()) >= 2,
        crate::occupancy::stands_on(
            w[b],
            scan_x(key, w[i].position.unwrap(), 1),
            scan_y(key, w[i].position.unwrap(), 1),
        ),
        ends_open(w, key, w[i].position.unwrap(), 2),
        can_advance(key, scan_coord(key, w[i].position.unwrap(), 0)),
        can_advance(key, scan_coord(key, w[i].position.unwrap(), 1)),
    ensures
        ({
            let t = turn(w, key, events, gameplay);
            &&& t.world.len() == w.len()
            &&& advanced(w[i], t.world[i], key)
            &&& advanced(w[b], t.world[b], key)
            &&& forall|j: int|
                0 <= j < w.len() && j != i && j != b ==> #[trigger] t.world[j] == w[j]
            &&& t.gameplay.steps_taken == gameplay.steps_taken + 1
            &&& t.events == events.push(GamePlayEvent::EntityMoved(Entity(i as usize))).push(
                GamePlayEvent::EntityMoved(Entity(b as usize)),
            )
        }),
{
    let p = w[i].position.unwrap();
    lemma_sole_occupant(w, Layer::Movable, i);
    lemma_sole_occupant(w, Layer::Movable, b);
    lemma_scan_cells(key, p, 0);
    assert(movable_on(w, key, p, 0) == Some(Entity(i as usize)));
    assert(movable_on(w, key, p, 1) == Some(Entity(b as usize)));
    assert(chain_of(w, key, p, 2)) by {
        assert forall|k: nat| k < 2 implies (#[trigger] movable_on(w, key, p, k)) is Some by {
            assert(k == 0 || k == 1);
        }
    }
    assert forall|k: nat| k < 2 implies can_advance(key, #[trigger] scan_coord(key, p, k)) by {
        assert(k == 0 || k == 1);
    }
    law_open_chain_advances(w, key, i, 2, events, gameplay);
    let c = chain(w, key, p, 2);
    let t = turn(w, key, events, gameplay);
    assert(c =~= seq![Entity(i as usize), Entity(b as usize)]);
    assert(events + moved_events(c) =~= events.push(
        GamePlayEvent::EntityMoved(Entity(i as usize)),
    ).push(GamePlayEvent::EntityMoved(Entity(b as usize))));
    assert(advanced(w[c[0].0 as int], t.world[c[0].0 as int], key));
    assert(advanced(w[c[1].0 as int], t.world[c[1].0 as int], key));
    assert forall|j: int| 0 <= j < w.len() && j != i && j != b implies #[trigger] t.world[j]
        == w[j] by {
        if c.contains(Entity(j as usize)) {
            let k = choose|k: int| 0 <= k < c.len() && c[k] == Entity(j as usize);
            assert(k == 0 || k == 1);
        }
    }
}

/// A push onto an empty cell keeps the board free of collisions. If no two
/// movable or immovable entities share a cell before the only player pushes
/// a chain of movable entities onto the empty cell behind it, then none do
/// afterwards. The player must stand inside the board, so that the scan runs
/// in the direction of the key.
pub proof fn law_push_keeps_board_collision_free(
    w: Seq<Tags>,
    key: KeyCode,
    i: int,
    n: nat,
    events: Seq<GamePlayEvent>,
    gameplay: GamePlay,
)
    requires
        w.len() <= usize::MAX,
        gameplay.steps_taken < u32::MAX,
        is_direction(key),
        collision_free(w),
        sole_player(w, i),
        n >= 1,
        chain_of(w, key, w[i].position.unwrap(), n),
        n < scan_len(key, w[i].position.unwrap()),
        movable_on(w, key, w[i].position.unwrap(), n) is None,
        immovable_on(w, key, w[i].position.unwrap(), n) is None,
        key == KeyCode::Down || key == KeyCode::Right ==> scan_start(key, w[i].position.unwrap())
            < scan_end(key),
    ensures
        collision_free(turn(w, key, events, gameplay).world),
{
    let p = w[i].position.unwrap();
    let c = chain(w, key, p, n);
    let t = turn(w, key, events, gameplay);
    let w2 = t.world;
    assert forall|k: nat| k < n implies can_advance(key, #[trigger] scan_coord(key, p, k)) by {
        lemma_scan_cells(key, p, k);
    }
    law_open_chain_advances(w, key, i, n, events, gameplay);
    lemma_chain_entities(w, key, p, n);
    lemma_scan_cells(key, p, n);
    crate::occupancy::lemma_occupant_none(
        w,
        Layer::Movable,
        scan_x(key, p, n),
        scan_y(key, p, n),
    );
    crate::occupancy::lemma_occupant_none(
        w,
        Layer::Immovable,
        scan_x(key, p, n),
        scan_y(key, p, n),
    );
    assert forall|a: int, b: int|
        #![trigger w2[a], w2[b]]
        0 <= a < b < w2.len() && (w2[a].movable || w2[a].immovable) && (w2[b].movable
            || w2[b].immovable) && w2[a].position is Some && w2[b].position is Some implies !(
    w2[a].position.unwrap().x == w2[b].position.unwrap().x && w2[a].position.unwrap().y
        == w2[b].position.unwrap().y) by {
        let ea = Entity(a as usize);
        let eb = Entity(b as usize);
        if c.contains(ea) && c.contains(eb) {
            let ka = choose|k: int| 0 <= k < c.len() && c[k] == ea;
            let kb = choose|k: int| 0 <= k < c.len() && c[k] == eb;
            assert(advanced(w[c[ka].0 as int], w2[c[ka].0 as int], key));
            assert(advanced(w[c[kb].0 as int], w2[c[kb].0 as int], key));
            lemma_scan_cells(key, p, ka as nat);
            lemma_scan_cells(key, p, kb as nat);
            assert(ka != kb);
            assert(scan_coord(key, p, kb as nat) != scan_coord(key, p, ka as nat));
        } else if c.contains(ea) || c.contains(eb) {
            let (m, o) = if c.contains(ea) {
                (a, b)
            } else {
                (b, a)
            };
            let k = choose|k: int| 0 <= k < c.len() && c[k] == Entity(m as usize);
            assert(advanced(w[c[k].0 as int], w2[c[k].0 as int], key));
            assert(w2[o] == w[o]);
            lemma_scan_cells(key, p, k as nat);
            lemma_scan_cells(key, p, (k + 1) as nat);
            if w2[m].position.unwrap().x == w2[o].position.unwrap().x
                && w2[m].position.unwrap().y == w2[o].position.unwrap().y {
                assert(w[o].position.unwrap().x == scan_x(key, p, (k + 1) as nat));
                assert(w[o].position.unwrap().y == scan_y(key, p, (k + 1) as nat));
                if k + 1 < n {
                    let next = c[k + 1];
                    assert(w[next.0 as int].movable);
                    if next.0 < o {
                        assert(w[next.0 as int].position is Some && w[o].position is Some);
                    } else if o < next.0 {
                        assert(w[o].position is Some && w[next.0 as int].position is Some);
                    }
                    assert(next == Entity(o as usize));
                    assert(false);
                } else {
                    if w[o].movable {
                        assert(crate::occupancy::occupies(
                            w[o],
                            Layer::Movable,
                            scan_x(key, p, n),
                            scan_y(key, p, n),
                        ));
                    } else {
                        assert(crate::occupancy::occupies(
                            w[o],
                            Layer::Immovable,
                            scan_x(key, p, n),
                            scan_y(key, p, n),
                        ));
                    }
                    assert(false);
                }
            }
        } else {
            assert(w2[a] == w[a]);
            assert(w2[b] == w[b]);
        }
    }
}

/// A push onto an empty cell stays within the cells that were scanned:
/// each entity of the chain ends up on the cell that the scan visited next,
/// so that none leaves the range between the player and the edge of the
/// board. The player must stand inside the board, so that the scan runs in
/// the direction of the key.
pub proof fn law_push_stays_in_scanned_cells(
    w: Seq<Tags>,
    key: KeyCode,
    i: int,
    n: nat,
    events: Seq<GamePlayEvent>,
    gameplay: GamePlay,
)
    requires
        w.len() <= usize::MAX,
        gameplay.steps_taken < u32::MAX,
        is_direction(key),
        sole_player(w, i),
        n >= 1,
        chain_of(w, key, w[i].position.unwrap(), n),
        n < scan_len(key, w[i].position.unwrap()),
        movable_on(w, key, w[i].position.unwrap(), n) is None,
        immovable_on(w, key, w[i].position.unwrap(), n) is None,
        key == KeyCode::Down || key == KeyCode::Right ==> scan_start(key, w[i].position.unwrap())
            < scan_end(key),
    ensures
        ({
            let p = w[i].position.unwrap();
            let c = chain(w, key, p, n);
            let t = turn(w, key, events, gameplay);
            forall|k: int|
                #![trigger c[k]]
                0 <= k < n ==> c[k].0 < w.len() && crate::occupancy::stands_on(
                    t.world[c[k].0 as int],
                    scan_x(key, p, (k + 1) as nat),
                    scan_y(key, p, (k + 1) as nat),
                ) && scan_coord(key, p, (k + 1) as nat) <= (if key == KeyCode::Down {
                    MAP_HEIGHT
                } else if key == KeyCode::Right {
                    MAP_WIDTH
                } else {
                    scan_start(key, p)
                })
        }),
{
    let p = w[i].position.unwrap();
    let c = chain(w, key, p, n);
    let t = turn(w, key, events, gameplay);
    assert forall|k: nat| k < n implies can_advance(key, #[trigger] scan_coord(key, p, k)) by {
        lemma_scan_cells(key, p, k);
    }
    law_open_chain_advances(w, key, i, n, events, gameplay);
    lemma_chain_entities(w, key, p, n);
    assert forall|k: int| #![trigger c[k]] 0 <= k < n implies c[k].0 < w.len()
        && crate::occupancy::stands_on(
        t.world[c[k].0 as int],
        scan_x(key, p, (k + 1) as nat),
        scan_y(key, p, (k + 1) as nat),
    ) && scan_coord(key, p, (k + 1) as nat) <= (if key == KeyCode::Down {
        MAP_HEIGHT
    } else if key == KeyCode::Right {
        MAP_WIDTH
    } else {
        scan_start(key, p)
    }) by {
        assert(advanced(w[c[k].0 as int], t.world[c[k].0 as int], key));
        lemma_scan_cells(key, p, k as nat);
        lemma_scan_cells(key, p, (k + 1) as nat);
    }
}

} // verus!
