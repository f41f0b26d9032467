use crate::editor::state::order::{
    insert_sorted, insertion_index, is_insertion_index, is_position_of_id, lemma_position_absent,
    lemma_position_found, lemma_update_in_place, position_of_id, replace_sorted, sorted,
    Identified, Timed,
};
use crate::util::Float;
use vstd::prelude::*;

verus! {

/// The id of a timing point.
pub type TimingPointId = u32;

/// Tempo and metre that begin at a timing point.
#[derive(Clone, Copy, Debug, PartialEq, Eq, Structural)]
pub struct TimingInformation {
    pub bpm: Float,
    pub signature: u8,
}

/// A point of the timeline at which tempo, slider velocity or volume change.
#[derive(Clone, Copy, Debug, PartialEq, Eq, Structural)]
pub struct TimingPoint {
    pub id: TimingPointId,
    pub offset: i32,
    pub timing: Option<TimingInformation>,
    pub sv: Option<Float>,
    pub volume: Option<Float>,
}

impl Identified for TimingPoint {
    open spec fn ident(self) -> int {
        self.id as int
    }
}

impl Timed for TimingPoint {
    open spec fn time(self) -> int {
        self.offset as int
    }
}

/// Hands out the id that `counter` holds and moves the counter on by one.
/// After `u32::MAX` the counter starts again at zero.
pub fn next_id(counter: &mut u32) -> (id: TimingPointId)
    ensures
        id == *old(counter),
        *final(counter) == (if *old(counter) == u32::MAX {
            0
        } else {
            *old(counter) + 1
        }),
{
    let id: u32 = *counter;
    *counter = id.wrapping_add(1);
    id
}

impl TimingPoint {
    /// The next id of the session's timing points.
    pub fn next_id(counter: &mut u32) -> (id: TimingPointId)
        ensures
            id == *old(counter),
            *final(counter) == (if *old(counter) == u32::MAX {
                0
            } else {
                *old(counter) + 1
            }),
    {
        next_id(counter)
    }
}

/// The timing points of a document, kept in the order of their offsets.
#[derive(Debug, PartialEq, Eq)]
pub struct TimingState {
    timing_points: Vec<TimingPoint>,
}

impl View for TimingState {
    type V = Seq<TimingPoint>;

    closed spec fn view(&self) -> Seq<TimingPoint> {
        self.timing_points@
    }
}

impl Default for TimingState {
    fn default() -> (state: Self)
        ensures
            state@ == Seq::<TimingPoint>::empty(),
    {
        TimingState { timing_points: Vec::new() }
    }
}

impl TimingState {
    /// The store's invariant: the points stand in the order of their offsets.
    /// Every store that a program can hold satisfies it.
    #[verifier::type_invariant]
    pub open spec fn in_order(&self) -> bool {
        sorted(self@)
    }

    /// Hands the points out and leaves the store empty, so that they can be
    /// changed before they are put back.
    fn take(&mut self) -> (points: Vec<TimingPoint>)
        ensures
            points@ == old(self)@,
            sorted(points@),
            final(self)@ == Seq::<TimingPoint>::empty(),
    {
        proof {
            use_type_invariant(&*self);
        }
        let mut points: Vec<TimingPoint> = Vec::new();
        std::mem::swap(&mut points, &mut self.timing_points);
        points
    }

    /// The first index at which a point lies at `time`, as `Ok`; if none does,
    /// the index at which such a point would enter, as `Err`.
    pub fn find_index(&self, time: i32) -> (found: Result<usize, usize>)
        ensures
            match found {
                Ok(index) => is_insertion_index(self@, time as int, index as int) && index
                    < self@.len() && self@[index as int].offset == time,
                Err(index) => is_insertion_index(self@, time as int, index as int) && forall|j: int|
                    0 <= j < self@.len() ==> (#[trigger] self@[j]).offset != time,
            },
    {
        proof {
            use_type_invariant(self);
        }
        let mut low: usize = 0;
        let mut high: usize = self.timing_points.len();
        while low < high
            invariant
                low <= high <= self.timing_points.len(),
                sorted(self@),
                forall|j: int| 0 <= j < low ==> (#[trigger] self@[j]).offset < time,
                forall|j: int| high <= j < self@.len() ==> time <= (#[trigger] self@[j]).offset,
            decreases high - low,
        {
            let middle: usize = low + (high - low) / 2;
            if self.timing_points[middle].offset < time {
                low = middle + 1;
            } else {
                high = middle;
            }
        }
        if low < self.timing_points.len() && self.timing_points[low].offset == time {
            Ok(low)
        } else {
            Err(low)
        }
    }

    /// Adds `timing_point` in front of the points that lie at its offset or
    /// later. The store stays in order.
    pub fn insert_timing_point(&mut self, timing_point: TimingPoint)
        ensures
            final(self)@ == insert_sorted(old(self)@, timing_point),
            is_insertion_index(
                old(self)@,
                timing_point.offset as int,
                insertion_index(old(self)@, timing_point.offset as int),
            ),
            sorted(final(self)@),
    {
        let index: usize = match self.find_index(timing_point.offset) {
            Ok(index) => index,
            Err(index) => index,
        };
        proof {
            use_type_invariant(&*self);
        }
        let mut points = self.take();
        points.insert(index, timing_point);
        self.timing_points = points;
    }

    /// The place of the first point that carries `id`.
    fn position(&self, id: TimingPointId) -> (found: Option<usize>)
        ensures
            match found {
                Some(index) => position_of_id(self@, id as int) == Some(index as int) && index
                    < self@.len(),
                None => position_of_id(self@, id as int) is None,
            },
            is_position_of_id(self@, id as int, position_of_id(self@, id as int)),
    {
        let mut index: usize = 0;
        while index < self.timing_points.len()
            invariant
                index <= self.timing_points.len(),
                forall|j: int| 0 <= j < index ==> (#[trigger] self@[j]).id != id,
            decreases self.timing_points.len() - index,
        {
            if self.timing_points[index].id == id {
                proof {
                    lemma_position_found(self@, id as int, index as int);
                }
                return Some(index);
            }
            index += 1;
        }
        proof {
            lemma_position_absent(self@, id as int);
        }
        None
    }

    /// Puts `timing_point` in the place of the first point that carries `id`.
    /// Where the new offset does not fit between the neighbours, the point
    /// moves to its insertion index, so that the store stays in order. Fails,
    /// and changes nothing, if no point carries `id`.
    pub fn update_timing_point(&mut self, id: TimingPointId, timing_point: TimingPoint) -> (outcome:
        Result<(), ()>)
        ensures
            sorted(final(self)@),
            is_position_of_id(old(self)@, id as int, position_of_id(old(self)@, id as int)),
            match position_of_id(old(self)@, id as int) {
                Some(index) => outcome is Ok && final(self)@ == replace_sorted(
                    old(self)@,
                    index,
                    timing_point,
                ),
                None => outcome is Err && final(self)@ == old(self)@,
            },
    {
        proof {
            use_type_invariant(&*self);
        }
        let index: usize = match self.position(id) {
            Some(index) => index,
            None => {
                return Err(());
            },
        };
        let time: i32 = timing_point.offset;
        let count: usize = self.timing_points.len();
        let fits_before: bool = index == 0 || self.timing_points[index - 1].offset <= time;
        let fits_after: bool = index + 1 == count || time <= self.timing_points[index + 1].offset;
        proof {
            lemma_update_in_place(self@, index as int, timing_point);
        }
        let mut points = self.take();
        if fits_before && fits_after {
            points.set(index, timing_point);
            self.timing_points = points;
        } else {
            let _ = points.remove(index);
            self.timing_points = points;
            self.insert_timing_point(timing_point);
        }
        Ok(())
    }

    /// The first point that carries `id`.
    pub fn find_by_id(&self, id: TimingPointId) -> (found: Option<&TimingPoint>)
        ensures
            is_position_of_id(self@, id as int, position_of_id(self@, id as int)),
            match position_of_id(self@, id as int) {
                Some(index) => found == Some(&self@[index]),
                None => found is None,
            },
    {
        match self.position(id) {
            Some(index) => Some(&self.timing_points[index]),
            None => None,
        }
    }

    /// Takes the first point that carries `id` out of the store and returns
    /// it. The store stays in order.
    pub fn delete_timing_point(&mut self, id: TimingPointId) -> (removed: Option<TimingPoint>)
        ensures
            is_position_of_id(old(self)@, id as int, position_of_id(old(self)@, id as int)),
            match position_of_id(old(self)@, id as int) {
                Some(index) => {
                    &&& removed == Some(old(self)@[index])
                    &&& final(self)@ == old(self)@.remove(index)
                },
                None => removed is None && final(self)@ == old(self)@,
            },
            sorted(final(self)@),
    {
        proof {
            use_type_invariant(&*self);
        }
        match self.position(id) {
            Some(index) => {
                let mut points = self.take();
                let point = points.remove(index);
                self.timing_points = points;
                Some(point)
            },
            None => None,
        }
    }

    /// Every point, in the store's order.
    pub fn all(&self) -> (points: &Vec<TimingPoint>)
        ensures
            points@ == self@,
            sorted(self@),
    {
        proof {
            use_type_invariant(self);
        }
        &self.timing_points
    }
}

} // verus!
