use vstd::prelude::*;
use crate::components::EntityId;
use crate::game_object::{EntityModel, MoveTarget};
use crate::geometry::{boxes_overlap, collide, Position, Size};
use crate::states::ActionState;
use crate::world::{lemma_same_ids, same_but_entities, same_roster, World, WorldModel};

verus! {

/// Marker for an entity that takes orders.
pub struct Command {}

/// The entities that the user has selected, in the order of selection.
pub struct SelectedList {
    pub entities: Vec<EntityId>,
}

impl SelectedList {
    /// An empty selection.
    pub fn new() -> (s: Self)
        ensures
            s.entities@.len() == 0,
    {
        Self { entities: Vec::new() }
    }

    /// Whether `id` is selected.
    pub fn contains(&self, id: EntityId) -> (r: bool)
        ensures
            r == self.entities@.contains(id),
    {
        let mut i: usize = 0;
        while i < self.entities.len()
            invariant
                i <= self.entities.len(),
                forall|j: int| 0 <= j < i ==> self.entities[j] != id,
            decreases self.entities.len() - i,
        {
            if self.entities[i] == id {
                return true;
            }
            i += 1;
        }
        false
    }
}

/// The extent of a click: one unit each way.
pub open spec fn click_size() -> Size {
    Size { width: 1000, height: 1000 }
}

/// A click at `point` lands on the entity: the entity has a bounding box
/// and the box overlaps the click.
pub open spec fn clicked(e: EntityModel, point: Position) -> bool {
    e.size.is_some() && boxes_overlap(point, click_size(), e.position, e.size.unwrap())
}

/// The place, from `from` on, of the first entity that a click at `point`
/// lands on; the number of entities when there is none.
pub open spec fn first_clicked(all: Seq<EntityModel>, point: Position, from: int) -> int
    decreases all.len() - from,
{
    if from < 0 || from >= all.len() {
        all.len() as int
    } else if clicked(all[from], point) {
        from
    } else {
        first_clicked(all, point, from + 1)
    }
}

/// An entity under the order to walk to `point`.
pub open spec fn ordered(e: EntityModel, point: Position) -> EntityModel {
    EntityModel { move_target: MoveTarget(Some(point)), action_state: ActionState::MOVE, ..e }
}

/// The arena after a move order to `point` for the entities of
/// `selected`. The order reaches the selected entities that stand in the
/// arena before the first entity that the click landed on.
pub open spec fn order_move_model(w: WorldModel, selected: Seq<EntityId>, point: Position) -> WorldModel {
    WorldModel {
        entities: Seq::new(
            w.entities.len(),
            |i: int|
                if i < first_clicked(w.entities, point, 0) && selected.contains(w.entities[i].id) {
                    ordered(w.entities[i], point)
                } else {
                    w.entities[i]
                },
        ),
        ..w
    }
}

/// Whether a click at `point` lands on an entity at `position` with the
/// bounding box `size`.
fn click_lands(position: &Position, size: &Option<Size>, point: &Position) -> (r: bool)
    ensures
        r == (size.is_some() && boxes_overlap(*point, click_size(), *position, size.unwrap())),
{
    match size {
        Some(size) => collide(point, &Size { width: 1000, height: 1000 }, position, size),
        None => false,
    }
}

/// The place of the first entity that a click at `point` lands on.
fn find_clicked(world: &World, point: &Position) -> (stop: usize)
    ensures
        stop == first_clicked(world@.entities, *point, 0),
        stop <= world.entities.len(),
{
    let ghost all = world@.entities;
    let mut i: usize = 0;
    while i < world.entities.len()
        invariant
            i <= world.entities.len(),
            all == world@.entities,
            first_clicked(all, *point, 0) == first_clicked(all, *point, i as int),
        decreases world.entities.len() - i,
    {
        assert(all[i as int] == world.entities[i as int]@);
        if click_lands(&world.entities[i].position, &world.entities[i].size, point) {
            return i;
        }
        i += 1;
    }
    i
}

/// Hands a move order to the selected entities: each gets `point` as its
/// move target and goes into the move state. The entities take the order in
/// the order of the arena, and the first one that the click landed on ends
/// it: neither that entity nor those after it are ordered.
pub fn order_move(world: &mut World, selected: &SelectedList, point: Position)
    ensures
        same_roster(final(world)@, old(world)@),
        old(world)@.wf() ==> final(world)@.wf(),
        final(world)@ == order_move_model(old(world)@, selected.entities@, point),
{
    let stop = find_clicked(world, &point);
    let ghost all = world@.entities;
    let mut i: usize = 0;
    while i < stop
        invariant
            i <= stop <= world.entities.len(),
            world.entities.len() == old(world).entities.len(),
            all == old(world)@.entities,
            forall|j: int|
                0 <= j < i ==> world.entities[j]@ == if selected.entities@.contains(all[j].id) {
                    ordered(all[j], point)
                } else {
                    all[j]
                },
            forall|j: int|
                i <= j < world.entities.len() ==> world.entities[j] == old(world).entities[j],
            same_but_entities(*world, *old(world)),
        decreases stop - i,
    {
        assert(all[i as int] == world.entities[i as int]@);
        if selected.contains(world.entities[i].id) {
            world.entities[i].move_target = MoveTarget(Some(point));
            world.entities[i].action_state = ActionState::MOVE;
        }
        i += 1;
    }
    assert(final(world)@.entities =~= order_move_model(
        old(world)@,
        selected.entities@,
        point,
    ).entities);
    proof {
        lemma_same_ids(final(world)@, old(world)@);
    }
}

/// The identifiers of the first `n` entities that a click at `point`
/// lands on, in order.
pub open spec fn clicked_ids(all: Seq<EntityModel>, point: Position, n: int) -> Seq<EntityId>
    decreases n,
{
    if n <= 0 {
        Seq::empty()
    } else if clicked(all[n - 1], point) {
        clicked_ids(all, point, n - 1).push(all[n - 1].id)
    } else {
        clicked_ids(all, point, n - 1)
    }
}

/// The selection after a click that landed on `hit`: an extending click
/// adds them all; any other click selects the last of them, and keeps the
/// selection when it landed on none.
pub open spec fn selection_after(before: Seq<EntityId>, hit: Seq<EntityId>, extend: bool) -> Seq<
    EntityId,
> {
    if extend {
        before + hit
    } else if hit.len() > 0 {
        seq![hit.last()]
    } else {
        before
    }
}

/// Applies a click at `point` to the selection. With `extend` every entity
/// that the click landed on joins the selection; without it the last such
/// entity in the arena becomes the whole selection.
pub fn select_gameobject(world: &World, selected: &mut SelectedList, point: Position, extend: bool)
    ensures
        final(selected).entities@ == selection_after(
            old(selected).entities@,
            clicked_ids(world@.entities, point, world@.entities.len() as int),
            extend,
        ),
{
    let n = world.entities.len();
    let mut i: usize = 0;
    let ghost all = world@.entities;
    assert(old(selected).entities@ + clicked_ids(all, point, 0) =~= old(selected).entities@);
    while i < n
        invariant
            i <= n,
            n == world.entities.len(),
            all == world@.entities,
            selected.entities@ == selection_after(
                old(selected).entities@,
                clicked_ids(all, point, i as int),
                extend,
            ),
        decreases n - i,
    {
        assert(all[i as int] == world.entities[i as int]@);
        if click_lands(&world.entities[i].position, &world.entities[i].size, &point) {
            let id = world.entities[i].id;
            if extend {
                selected.entities.push(id);
                assert(selected.entities@ =~= old(selected).entities@ + clicked_ids(
                    all,
                    point,
                    i as int + 1,
                ));
            } else {
                let mut only: Vec<EntityId> = Vec::new();
                only.push(id);
                selected.entities = only;
                assert(selected.entities@ =~= seq![id]);
            }
        }
        i += 1;
    }
}

} // verus!
