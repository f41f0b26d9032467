use crate::editor::state::order::{
    distinct_ids, insert_sorted, insertion_index, is_first_with_id, is_insertion_index,
    is_position_of_id, lemma_insertion_index_unique, lemma_position_absent, lemma_position_found,
    lemma_same_times_keep_order, lemma_update_in_place, position_of_id, replace_sorted, sorted,
    Identified, Timed,
};
use crate::util::{copy_vec, Float, IVec2};
use vstd::prelude::*;

verus! {

/// The id of a hit object.
pub type HitObjectId = u32;

/// How a control point bends the path that leaves it.
#[derive(Clone, Copy, Debug, PartialEq, Eq, Structural)]
pub enum SliderControlPointKind {
    /// No kind of its own: the point continues the segment it lies on.
    Unset,
    Bezier,
    Circle,
    Linear,
}

/// One control point of a slider's path.
#[derive(Clone, Copy, Debug, PartialEq, Eq, Structural)]
pub struct SliderControlPoint {
    pub position: IVec2,
    pub kind: SliderControlPointKind,
}

/// What a hit object is besides a time and a place.
#[derive(Debug, PartialEq, Eq)]
pub enum HitObjectKind {
    HitCircle,
    Slider { expected_distance: Float, control_points: Vec<SliderControlPoint>, repeats: u16 },
    Spinner {  },
}

/// A timed object of the document. `selected_by` names the presence that holds
/// the object's lock, if any.
#[derive(Debug, PartialEq, Eq)]
pub struct HitObject {
    pub id: HitObjectId,
    pub selected_by: Option<usize>,
    pub start_time: i32,
    pub position: IVec2,
    pub new_combo: bool,
    pub data: HitObjectKind,
}

/// The three shapes a hit object can have.
pub ghost enum Shape {
    HitCircle,
    Slider,
    Spinner,
}

/// The value of a [`HitObjectKind`].
pub ghost enum HitObjectKindView {
    HitCircle,
    Slider { expected_distance: Float, control_points: Seq<SliderControlPoint>, repeats: u16 },
    Spinner,
}

/// The value of a [`HitObject`].
pub ghost struct HitObjectView {
    pub id: HitObjectId,
    pub selected_by: Option<usize>,
    pub start_time: i32,
    pub position: IVec2,
    pub new_combo: bool,
    pub data: HitObjectKindView,
}

impl HitObjectKindView {
    /// Which of the three shapes this is.
    pub open spec fn shape(self) -> Shape {
        match self {
            HitObjectKindView::HitCircle => Shape::HitCircle,
            HitObjectKindView::Slider { .. } => Shape::Slider,
            HitObjectKindView::Spinner => Shape::Spinner,
        }
    }

    /// A slider needs two control points, the first of them with a kind, a
    /// length that is at least zero and one repeat or more. The other shapes
    /// carry nothing that could be wrong.
    pub open spec fn is_valid(self) -> bool {
        match self {
            HitObjectKindView::Slider { expected_distance, control_points, repeats } => {
                &&& control_points.len() >= 2
                &&& control_points[0].kind != SliderControlPointKind::Unset
                &&& expected_distance.spec_is_non_negative()
                &&& repeats >= 1
            },
            _ => true,
        }
    }
}

impl HitObjectView {
    /// The same object with another lock holder.
    pub open spec fn with_selected_by(self, owner: Option<usize>) -> HitObjectView {
        HitObjectView { selected_by: owner, ..self }
    }

    /// The same object under another id.
    pub open spec fn with_id(self, id: HitObjectId) -> HitObjectView {
        HitObjectView { id, ..self }
    }

    /// Whether the object may enter the document: its payload is valid.
    pub open spec fn is_valid(self) -> bool {
        self.data.is_valid()
    }
}

impl Identified for HitObjectView {
    open spec fn ident(self) -> int {
        self.id as int
    }
}

impl Timed for HitObjectView {
    open spec fn time(self) -> int {
        self.start_time as int
    }
}

impl View for HitObjectKind {
    type V = HitObjectKindView;

    open spec fn view(&self) -> HitObjectKindView {
        match self {
            HitObjectKind::HitCircle => HitObjectKindView::HitCircle,
            HitObjectKind::Slider { expected_distance, control_points, repeats } => {
                HitObjectKindView::Slider {
                    expected_distance: *expected_distance,
                    control_points: control_points@,
                    repeats: *repeats,
                }
            },
            HitObjectKind::Spinner {  } => HitObjectKindView::Spinner,
        }
    }
}

impl View for HitObject {
    type V = HitObjectView;

    open spec fn view(&self) -> HitObjectView {
        HitObjectView {
            id: self.id,
            selected_by: self.selected_by,
            start_time: self.start_time,
            position: self.position,
            new_combo: self.new_combo,
            data: self.data@,
        }
    }
}

impl Clone for HitObjectKind {
    fn clone(&self) -> (copy: Self)
        ensures
            copy@ == self@,
    {
        match self {
            HitObjectKind::HitCircle => HitObjectKind::HitCircle,
            HitObjectKind::Slider { expected_distance, control_points, repeats } => {
                HitObjectKind::Slider {
                    expected_distance: *expected_distance,
                    control_points: copy_vec(control_points),
                    repeats: *repeats,
                }
            },
            HitObjectKind::Spinner {  } => HitObjectKind::Spinner {  },
        }
    }
}

impl Clone for HitObject {
    fn clone(&self) -> (copy: Self)
        ensures
            copy@ == self@,
    {
        HitObject {
            id: self.id,
            selected_by: self.selected_by,
            start_time: self.start_time,
            position: self.position,
            new_combo: self.new_combo,
            data: self.data.clone(),
        }
    }
}

/// Hands out the id that `counter` holds and moves the counter on by one.
/// After `u32::MAX` the counter starts again at zero.
pub fn next_id(counter: &mut u32) -> (id: HitObjectId)
    ensures
        id == *old(counter),
        *final(counter) == (if *old(counter) == u32::MAX {
            0
        } else {
            *old(counter) + 1
        }),
{
    let id: u32 = *counter;
    *counter = id.wrapping_add(1);
    id
}

impl HitObject {
    /// The next id of the session's hit objects.
    pub fn next_id(counter: &mut u32) -> (id: HitObjectId)
        ensures
            id == *old(counter),
            *final(counter) == (if *old(counter) == u32::MAX {
                0
            } else {
                *old(counter) + 1
            }),
    {
        next_id(counter)
    }

    /// Whether the object may enter the document.
    pub fn is_valid(&self) -> (valid: bool)
        ensures
            valid == self@.is_valid(),
    {
        match &self.data {
            HitObjectKind::Slider { expected_distance, control_points, repeats } => {
                if control_points.len() < 2 {
                    return false;
                }
                if let SliderControlPointKind::Unset = control_points[0].kind {
                    return false;
                }
                expected_distance.is_non_negative() && *repeats >= 1
            },
            _ => true,
        }
    }
}


/// The values of a run of hit objects, in order.
pub open spec fn views(objects: Seq<HitObject>) -> Seq<HitObjectView> {
    objects.map_values(|object: HitObject| object@)
}

/// The values of a run of borrowed hit objects, in order.
pub open spec fn ref_views(objects: Seq<&HitObject>) -> Seq<HitObjectView> {
    objects.map_values(|object: &HitObject| object@)
}

/// Picks the objects that `presence` holds.
pub open spec fn held_by(presence: usize) -> spec_fn(HitObjectView) -> bool {
    |object: HitObjectView| object.selected_by == Some(presence)
}

/// The objects after the lock of the first one that carries `id` went to
/// `owner`. If no object carries `id`, they are as they were.
pub open spec fn reselected(
    objects: Seq<HitObjectView>,
    id: HitObjectId,
    owner: Option<usize>,
) -> Seq<HitObjectView> {
    match position_of_id(objects, id as int) {
        Some(index) => objects.update(index, objects[index].with_selected_by(owner)),
        None => objects,
    }
}

/// Picks the objects that `presence` holds and whose id is not among `keep`.
pub open spec fn held_outside(presence: usize, keep: Seq<HitObjectId>) -> spec_fn(
    HitObjectView,
) -> bool {
    |object: HitObjectView| object.selected_by == Some(presence) && !keep.contains(object.id)
}

/// The ids of the objects, in order.
pub open spec fn ids_of(objects: Seq<HitObjectView>) -> Seq<HitObjectId> {
    objects.map_values(|object: HitObjectView| object.id)
}

/// The objects with the lock taken off each one that `pick` picks.
pub open spec fn released(objects: Seq<HitObjectView>, pick: spec_fn(HitObjectView) -> bool) -> Seq<
    HitObjectView,
> {
    objects.map_values(
        |object: HitObjectView|
            if pick(object) {
                object.with_selected_by(None)
            } else {
                object
            },
    )
}

/// Two ways to pick that agree on every object pick the same objects.
pub proof fn lemma_same_pick(
    objects: Seq<HitObjectView>,
    pick: spec_fn(HitObjectView) -> bool,
    other: spec_fn(HitObjectView) -> bool,
)
    requires
        forall|object: HitObjectView| #[trigger] pick(object) == other(object),
    ensures
        objects.filter(pick) == objects.filter(other),
        released(objects, pick) == released(objects, other),
    decreases objects.len(),
{
    reveal(Seq::filter);
    if objects.len() > 0 {
        lemma_same_pick(objects.drop_last(), pick, other);
    }
}

/// Two ways to pick that agree on every one of the objects pick the same of
/// them.
pub proof fn lemma_same_pick_among(
    objects: Seq<HitObjectView>,
    pick: spec_fn(HitObjectView) -> bool,
    other: spec_fn(HitObjectView) -> bool,
)
    requires
        forall|i: int| 0 <= i < objects.len() ==> pick(#[trigger] objects[i]) == other(objects[i]),
    ensures
        objects.filter(pick) == objects.filter(other),
    decreases objects.len(),
{
    reveal(Seq::filter);
    if objects.len() > 0 {
        let front = objects.drop_last();
        assert forall|i: int| 0 <= i < front.len() implies pick(#[trigger] front[i]) == other(
            front[i],
        ) by {
            assert(front[i] == objects[i]);
        }
        lemma_same_pick_among(front, pick, other);
        assert(objects.last() == objects[objects.len() - 1]);
    }
}

/// Where no object carries `id`, none of the picked objects does.
pub proof fn lemma_picked_carry_no_new_id(
    objects: Seq<HitObjectView>,
    pick: spec_fn(HitObjectView) -> bool,
    id: HitObjectId,
)
    requires
        forall|i: int| 0 <= i < objects.len() ==> (#[trigger] objects[i]).id != id,
    ensures
        forall|i: int|
            0 <= i < objects.filter(pick).len() ==> (#[trigger] objects.filter(pick)[i]).id != id,
    decreases objects.len(),
{
    reveal(Seq::filter);
    if objects.len() > 0 {
        let front = objects.drop_last();
        assert forall|i: int| 0 <= i < front.len() implies (#[trigger] front[i]).id != id by {
            assert(front[i] == objects[i]);
        }
        lemma_picked_carry_no_new_id(front, pick, id);
        assert(objects.last() == objects[objects.len() - 1]);
    }
}

/// Among objects with ids of their own, a picked object is the first of the
/// picked ones that carries its id, and it stands behind the picked ones
/// that stood in front of it.
pub proof fn lemma_picked_position(
    objects: Seq<HitObjectView>,
    index: int,
    pick: spec_fn(HitObjectView) -> bool,
)
    requires
        distinct_ids(objects),
        0 <= index < objects.len(),
        pick(objects[index]),
    ensures
        ({
            let place = objects.take(index).filter(pick).len() as int;
            &&& place < objects.filter(pick).len()
            &&& objects.filter(pick)[place] == objects[index]
            &&& is_first_with_id(objects.filter(pick), objects[index].id as int, place)
        }),
{
    let front = objects.take(index);
    let one = seq![objects[index]];
    let back = objects.skip(index + 1);
    assert(objects =~= front + one + back);
    Seq::filter_distributes_over_add(front + one, back, pick);
    Seq::filter_distributes_over_add(front, one, pick);
    assert(one.filter(pick) =~= one) by {
        reveal_with_fuel(Seq::filter, 2);
        assert(one.drop_last() =~= Seq::empty());
    }
    assert forall|i: int| 0 <= i < front.len() implies (#[trigger] front[i]).id
        != objects[index].id by {
        assert(front[i] == objects[i]);
        assert(objects[i].ident() != objects[index].ident());
    }
    lemma_picked_carry_no_new_id(front, pick, objects[index].id);
    let picked = objects.filter(pick);
    let place = front.filter(pick).len() as int;
    assert(picked =~= front.filter(pick) + one + back.filter(pick));
    assert forall|j: int| 0 <= j < place implies (#[trigger] picked[j]).ident()
        != objects[index].id as int by {
        assert(picked[j] == front.filter(pick)[j]);
    }
}

/// Among objects with ids of their own, to stop picking one object takes
/// that object away from the picked ones and leaves the rest as they were.
pub proof fn lemma_unpick_one(
    objects: Seq<HitObjectView>,
    index: int,
    pick: spec_fn(HitObjectView) -> bool,
    other: spec_fn(HitObjectView) -> bool,
)
    requires
        0 <= index < objects.len(),
        pick(objects[index]),
        !other(objects[index]),
        forall|i: int|
            0 <= i < objects.len() && i != index ==> pick(#[trigger] objects[i]) == other(
                objects[i],
            ),
    ensures
        objects.filter(other) == objects.filter(pick).remove(
            objects.take(index).filter(pick).len() as int,
        ),
{
    let front = objects.take(index);
    let one = seq![objects[index]];
    let back = objects.skip(index + 1);
    assert(objects =~= front + one + back);
    Seq::filter_distributes_over_add(front + one, back, pick);
    Seq::filter_distributes_over_add(front, one, pick);
    Seq::filter_distributes_over_add(front + one, back, other);
    Seq::filter_distributes_over_add(front, one, other);
    assert(one.filter(pick) =~= one) by {
        reveal_with_fuel(Seq::filter, 2);
        assert(one.drop_last() =~= Seq::empty());
    }
    assert(one.filter(other) =~= Seq::empty()) by {
        reveal_with_fuel(Seq::filter, 2);
        assert(one.drop_last() =~= Seq::empty());
    }
    assert forall|i: int| 0 <= i < front.len() implies pick(#[trigger] front[i]) == other(
        front[i],
    ) by {
        assert(front[i] == objects[i]);
    }
    assert forall|i: int| 0 <= i < back.len() implies pick(#[trigger] back[i]) == other(
        back[i],
    ) by {
        assert(back[i] == objects[index + 1 + i]);
    }
    lemma_same_pick_among(front, pick, other);
    lemma_same_pick_among(back, pick, other);
    let place = front.filter(pick).len() as int;
    assert(objects.filter(pick) =~= front.filter(pick) + one + back.filter(pick));
    assert(objects.filter(other) =~= front.filter(pick) + back.filter(pick));
    assert(objects.filter(other) =~= objects.filter(pick).remove(place));
}

/// Taking away an object that `pick` does not pick leaves the picked objects
/// as they were.
pub proof fn lemma_remove_unpicked(
    objects: Seq<HitObjectView>,
    index: int,
    pick: spec_fn(HitObjectView) -> bool,
)
    requires
        0 <= index < objects.len(),
        !pick(objects[index]),
    ensures
        objects.remove(index).filter(pick) == objects.filter(pick),
{
    let front = objects.take(index);
    let middle = seq![objects[index]];
    let back = objects.skip(index + 1);
    assert(objects =~= front + middle + back);
    assert(middle.filter(pick) =~= Seq::empty()) by {
        reveal_with_fuel(Seq::filter, 2);
    }
}

/// Adding an object that `pick` does not pick leaves the picked objects as
/// they were.
pub proof fn lemma_insert_unpicked(
    objects: Seq<HitObjectView>,
    index: int,
    object: HitObjectView,
    pick: spec_fn(HitObjectView) -> bool,
)
    requires
        0 <= index <= objects.len(),
        !pick(object),
    ensures
        objects.insert(index, object).filter(pick) == objects.filter(pick),
{
    let after = objects.insert(index, object);
    assert(after.remove(index) =~= objects);
    lemma_remove_unpicked(after, index, pick);
}

/// A change that touches no picked object, and makes none, leaves the picked
/// objects as they were.
pub proof fn lemma_change_unpicked(
    before: Seq<HitObjectView>,
    after: Seq<HitObjectView>,
    pick: spec_fn(HitObjectView) -> bool,
)
    requires
        before.len() == after.len(),
        forall|i: int|
            0 <= i < before.len() && #[trigger] pick(before[i]) ==> after[i] == before[i],
        forall|i: int| 0 <= i < before.len() && #[trigger] pick(after[i]) ==> pick(before[i]),
    ensures
        after.filter(pick) == before.filter(pick),
    decreases before.len(),
{
    reveal(Seq::filter);
    if before.len() > 0 {
        let front = before.drop_last();
        let other = after.drop_last();
        lemma_change_unpicked(front, other, pick);
    }
}

/// Picks the objects that start at `time`.
pub open spec fn starting_at(time: i32) -> spec_fn(HitObjectView) -> bool {
    |object: HitObjectView| object.start_time == time
}

/// The hit objects of a document, kept in the order of their start times.
#[derive(Debug, PartialEq, Eq)]
pub struct HitObjectState {
    hit_objects: Vec<HitObject>,
}

impl View for HitObjectState {
    type V = Seq<HitObjectView>;

    closed spec fn view(&self) -> Seq<HitObjectView> {
        views(self.hit_objects@)
    }
}

impl Default for HitObjectState {
    fn default() -> (state: Self)
        ensures
            state@ == Seq::<HitObjectView>::empty(),
    {
        HitObjectState { hit_objects: Vec::new() }
    }
}

impl HitObjectState {
    /// The store's invariant: the objects stand in the order of their start
    /// times. Every store that a program can hold satisfies it.
    #[verifier::type_invariant]
    pub open spec fn in_order(&self) -> bool {
        sorted(self@)
    }

    /// Hands the objects out and leaves the store empty, so that they can be
    /// changed before they are put back.
    fn take(&mut self) -> (objects: Vec<HitObject>)
        ensures
            views(objects@) == old(self)@,
            sorted(views(objects@)),
            final(self)@ == Seq::<HitObjectView>::empty(),
    {
        proof {
            use_type_invariant(&*self);
        }
        let mut objects: Vec<HitObject> = Vec::new();
        std::mem::swap(&mut objects, &mut self.hit_objects);
        objects
    }

    /// The first index at which an object starts at `time`, as `Ok`; if none
    /// does, the index at which such an object would enter, as `Err`.
    pub fn find_index(&self, time: i32) -> (found: Result<usize, usize>)
        ensures
            match found {
                Ok(index) => is_insertion_index(self@, time as int, index as int) && index
                    < self@.len() && self@[index as int].start_time == time,
                Err(index) => is_insertion_index(self@, time as int, index as int) && forall|j: int|
                    0 <= j < self@.len() ==> (#[trigger] self@[j]).start_time != time,
            },
    {
        proof {
            use_type_invariant(self);
        }
        let mut low: usize = 0;
        let mut high: usize = self.hit_objects.len();
        while low < high
            invariant
                low <= high <= self.hit_objects.len(),
                sorted(self@),
                forall|j: int| 0 <= j < low ==> (#[trigger] self@[j]).start_time < time,
                forall|j: int| high <= j < self@.len() ==> time <= (#[trigger] self@[j]).start_time,
            decreases high - low,
        {
            let middle: usize = low + (high - low) / 2;
            if self.hit_objects[middle].start_time < time {
                low = middle + 1;
            } else {
                assert forall|j: int| middle <= j < self@.len() implies time <= (
                #[trigger] self@[j]).start_time by {
                    assert(self@[middle as int].start_time <= self@[j].start_time);
                }
                high = middle;
            }
        }
        if low < self.hit_objects.len() && self.hit_objects[low].start_time == time {
            Ok(low)
        } else {
            assert forall|j: int| 0 <= j < self@.len() implies (#[trigger] self@[j]).start_time
                != time by {
                if j >= low {
                    assert(self@[low as int].start_time <= self@[j].start_time);
                }
            }
            Err(low)
        }
    }

    /// Adds `hit_object` in front of the objects that start when it starts or
    /// later. The store stays in order.
    pub fn insert_hitobject(&mut self, hit_object: HitObject)
        ensures
            final(self)@ == insert_sorted(old(self)@, hit_object@),
            is_insertion_index(
                old(self)@,
                hit_object.start_time as int,
                insertion_index(old(self)@, hit_object.start_time as int),
            ),
            sorted(final(self)@),
    {
        let index: usize = match self.find_index(hit_object.start_time) {
            Ok(index) => index,
            Err(index) => index,
        };
        proof {
            use_type_invariant(&*self);
            lemma_insertion_index_unique(self@, hit_object.start_time as int, index as int);
        }
        let mut objects = self.take();
        objects.insert(index, hit_object);
        assert(views(objects@) =~= insert_sorted(old(self)@, hit_object@));
        self.hit_objects = objects;
    }

    /// The place of the first object that carries `id`.
    fn position(&self, id: HitObjectId) -> (found: Option<usize>)
        ensures
            match found {
                Some(index) => position_of_id(self@, id as int) == Some(index as int) && index
                    < self.hit_objects@.len(),
                None => position_of_id(self@, id as int) is None,
            },
            is_position_of_id(self@, id as int, position_of_id(self@, id as int)),
    {
        let mut index: usize = 0;
        while index < self.hit_objects.len()
            invariant
                index <= self.hit_objects.len(),
                forall|j: int| 0 <= j < index ==> (#[trigger] self@[j]).id != id,
            decreases self.hit_objects.len() - index,
        {
            if self.hit_objects[index].id == id {
                proof {
                    lemma_position_found(self@, id as int, index as int);
                }
                return Some(index);
            }
            index += 1;
        }
        proof {
            lemma_position_absent(self@, id as int);
        }
        None
    }

    /// Takes the first object that carries `id` out of the store and returns
    /// it. The store stays in order.
    pub fn delete_hitobject(&mut self, id: HitObjectId) -> (removed: Option<HitObject>)
        ensures
            is_position_of_id(old(self)@, id as int, position_of_id(old(self)@, id as int)),
            match position_of_id(old(self)@, id as int) {
                Some(index) => removed matches Some(object) && object@ == old(self)@[index]
                    && final(self)@ == old(self)@.remove(index),
                None => removed is None && final(self)@ == old(self)@,
            },
            sorted(final(self)@),
    {
        proof {
            use_type_invariant(&*self);
        }
        match self.position(id) {
            Some(index) => {
                let mut objects = self.take();
                let object = objects.remove(index);
                assert(views(objects@) =~= old(self)@.remove(index as int));
                self.hit_objects = objects;
                Some(object)
            },
            None => None,
        }
    }

    /// Puts `hit_object` in the place of the first object that carries `id`,
    /// if that object has the shape of `hit_object`. Where the new start time
    /// does not fit between the neighbours, the object moves to its insertion
    /// index, so that the store stays in order. Fails, and changes nothing,
    /// if no object carries `id` or if the shapes differ.
    pub fn update_hitobject(&mut self, id: HitObjectId, hit_object: HitObject) -> (outcome: Result<
        (),
        (),
    >)
        ensures
            sorted(final(self)@),
            is_position_of_id(old(self)@, id as int, position_of_id(old(self)@, id as int)),
            match position_of_id(old(self)@, id as int) {
                Some(index) if old(self)@[index].data.shape() == hit_object@.data.shape() => {
                    outcome is Ok && final(self)@ == replace_sorted(
                        old(self)@,
                        index,
                        hit_object@,
                    )
                },
                _ => outcome is Err && final(self)@ == old(self)@,
            },
    {
        proof {
            use_type_invariant(&*self);
        }
        let index: usize = match self.position(id) {
            Some(index) => index,
            None => {
                return Err(());
            },
        };
        if !same_shape(&self.hit_objects[index].data, &hit_object.data) {
            return Err(());
        }
        let time: i32 = hit_object.start_time;
        let fits_before: bool = index == 0 || self.hit_objects[index - 1].start_time <= time;
        let count: usize = self.hit_objects.len();
        let fits_after: bool = index + 1 == count || time <= self.hit_objects[index + 1].start_time;
        proof {
            lemma_update_in_place(self@, index as int, hit_object@);
        }
        let mut objects = self.take();
        if fits_before && fits_after {
            objects.set(index, hit_object);
            assert(views(objects@) =~= old(self)@.update(index as int, hit_object@));
            self.hit_objects = objects;
        } else {
            let _ = objects.remove(index);
            assert(views(objects@) =~= old(self)@.remove(index as int));
            self.hit_objects = objects;
            self.insert_hitobject(hit_object);
        }
        Ok(())
    }

    /// The first object that carries `id`.
    pub fn find_by_id(&self, id: HitObjectId) -> (found: Option<&HitObject>)
        ensures
            is_position_of_id(self@, id as int, position_of_id(self@, id as int)),
            match position_of_id(self@, id as int) {
                Some(index) => found matches Some(object) && object@ == self@[index],
                None => found is None,
            },
    {
        match self.position(id) {
            Some(index) => Some(&self.hit_objects[index]),
            None => None,
        }
    }

    /// Gives the lock of the first object that carries `id` to `owner`, or
    /// to nobody. Says whether an object carries `id`.
    pub fn set_selected_by(&mut self, id: HitObjectId, owner: Option<usize>) -> (found: bool)
        ensures
            is_position_of_id(old(self)@, id as int, position_of_id(old(self)@, id as int)),
            found == position_of_id(old(self)@, id as int) is Some,
            final(self)@ == reselected(old(self)@, id, owner),
            sorted(final(self)@),
    {
        proof {
            use_type_invariant(&*self);
        }
        match self.position(id) {
            Some(index) => {
                let mut objects = self.take();
                let object = &mut objects[index];
                object.selected_by = owner;
                proof {
                    lemma_same_times_keep_order(old(self)@, views(objects@));
                }
                self.hit_objects = objects;
                true
            },
            None => false,
        }
    }

    /// The objects that `selected_by` holds, in the store's order.
    pub fn find_selected_by(&self, selected_by: usize) -> (found: Vec<&HitObject>)
        ensures
            ref_views(found@) == self@.filter(held_by(selected_by)),
    {
        let mut found: Vec<&HitObject> = Vec::new();
        let mut index: usize = 0;
        while index < self.hit_objects.len()
            invariant
                index <= self.hit_objects.len(),
                ref_views(found@) == self@.take(index as int).filter(held_by(selected_by)),
            decreases self.hit_objects.len() - index,
        {
            let object = &self.hit_objects[index];
            proof {
                reveal(Seq::filter);
                assert(self@.take(index + 1).drop_last() == self@.take(index as int));
            }
            if object.selected_by == Some(selected_by) {
                found.push(object);
            }
            index += 1;
        }
        assert(self@.take(index as int) == self@);
        found
    }

    /// Takes the lock off every object that `presence` holds and whose id is
    /// not among `keep`. Returns the ids of the objects released, in the
    /// store's order.
    pub fn release_selected_by(&mut self, presence: usize, keep: &Vec<HitObjectId>) -> (ids: Vec<
        HitObjectId,
    >)
        ensures
            final(self)@ == released(old(self)@, held_outside(presence, keep@)),
            ids@ == ids_of(old(self)@.filter(held_outside(presence, keep@))),
            sorted(final(self)@),
    {
        let ghost pick = held_outside(presence, keep@);
        let mut objects = self.take();
        let mut ids: Vec<HitObjectId> = Vec::new();
        let mut index: usize = 0;
        while index < objects.len()
            invariant
                index <= objects.len(),
                pick == held_outside(presence, keep@),
                objects@.len() == old(self)@.len(),
                forall|j: int|
                    0 <= j < index ==> (#[trigger] objects@[j])@ == released(old(self)@, pick)[j],
                forall|j: int|
                    index <= j < objects@.len() ==> (#[trigger] objects@[j])@ == old(self)@[j],
                ids@ == ids_of(old(self)@.take(index as int).filter(pick)),
            decreases objects.len() - index,
        {
            proof {
                reveal(Seq::filter);
                assert(old(self)@.take(index + 1).drop_last() == old(self)@.take(index as int));
            }
            let id: HitObjectId = objects[index].id;
            if objects[index].selected_by == Some(presence) && !contains_id(keep, id) {
                let object = &mut objects[index];
                object.selected_by = None;
                ids.push(id);
            }
            index += 1;
        }
        assert(old(self)@.take(index as int) == old(self)@);
        self.hit_objects = objects;
        ids
    }

    /// Every object, in the store's order.
    pub fn all(&self) -> (objects: &Vec<HitObject>)
        ensures
            views(objects@) == self@,
            sorted(self@),
    {
        proof {
            use_type_invariant(self);
        }
        &self.hit_objects
    }

    /// The objects that start at `start_time`, in the store's order.
    pub fn find_by_start_time(&self, start_time: i32) -> (found: Vec<&HitObject>)
        ensures
            ref_views(found@) == self@.filter(starting_at(start_time)),
    {
        let mut found: Vec<&HitObject> = Vec::new();
        let mut index: usize = 0;
        while index < self.hit_objects.len()
            invariant
                index <= self.hit_objects.len(),
                ref_views(found@) == self@.take(index as int).filter(starting_at(start_time)),
            decreases self.hit_objects.len() - index,
        {
            let object = &self.hit_objects[index];
            proof {
                reveal(Seq::filter);
                assert(self@.take(index + 1).drop_last() == self@.take(index as int));
            }
            if object.start_time == start_time {
                found.push(object);
            }
            index += 1;
        }
        assert(self@.take(index as int) == self@);
        found
    }
}

/// New hit objects with the values of `objects`, in order.
pub fn clone_hit_objects(objects: &Vec<HitObject>) -> (copy: Vec<HitObject>)
    ensures
        views(copy@) == views(objects@),
{
    let mut copy: Vec<HitObject> = Vec::new();
    let mut index: usize = 0;
    while index < objects.len()
        invariant
            index <= objects.len(),
            views(copy@) == views(objects@.take(index as int)),
        decreases objects.len() - index,
    {
        let object = objects[index].clone();
        copy.push(object);
        assert(views(objects@.take(index + 1)) =~= views(objects@.take(index as int)).push(
            objects@[index as int]@,
        ));
        index += 1;
    }
    copy
}

/// Whether `id` is among `ids`.
pub fn contains_id(ids: &Vec<HitObjectId>, id: HitObjectId) -> (found: bool)
    ensures
        found == ids@.contains(id),
{
    let mut index: usize = 0;
    while index < ids.len()
        invariant
            index <= ids.len(),
            forall|j: int| 0 <= j < index ==> ids@[j] != id,
        decreases ids.len() - index,
    {
        if ids[index] == id {
            return true;
        }
        index += 1;
    }
    false
}

/// Whether two payloads have the same shape.
pub fn same_shape(left: &HitObjectKind, right: &HitObjectKind) -> (same: bool)
    ensures
        same == (left@.shape() == right@.shape()),
{
    match (left, right) {
        (HitObjectKind::HitCircle, HitObjectKind::HitCircle) => true,
        (HitObjectKind::Slider { .. }, HitObjectKind::Slider { .. }) => true,
        (HitObjectKind::Spinner {  }, HitObjectKind::Spinner {  }) => true,
        _ => false,
    }
}

} // verus!
