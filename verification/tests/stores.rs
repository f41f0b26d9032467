use gameserver::editor::state::hitobject::{
    clone_hit_objects, contains_id, next_id, same_shape, HitObject, HitObjectKind,
    HitObjectState, SliderControlPoint, SliderControlPointKind,
};
use gameserver::editor::state::timing::{TimingInformation, TimingPoint, TimingState};
use gameserver::editor::state::user::{UserInfo, UserState};
use gameserver::editor::state::difficulty::Difficulty;
use gameserver::editor::state::EditorState;
use gameserver::editor::Presence;
use gameserver::util::{Float, IVec2, Vec2};
use gameserver::{SessionInfo, SessionUserInfo};

fn float(value: f32) -> Float {
    Float::from_bits(value.to_bits())
}

fn circle(id: u32, start_time: i32, selected_by: Option<usize>) -> HitObject {
    HitObject {
        id,
        selected_by,
        start_time,
        position: IVec2::new(10, 20),
        new_combo: false,
        data: HitObjectKind::HitCircle,
    }
}

fn point(x: i32, y: i32, kind: SliderControlPointKind) -> SliderControlPoint {
    SliderControlPoint { position: IVec2::new(x, y), kind }
}

fn slider(id: u32, start_time: i32, distance: f32, points: usize, repeats: u16) -> HitObject {
    let mut control_points = Vec::new();
    for index in 0..points {
        let kind = if index == 0 {
            SliderControlPointKind::Bezier
        } else {
            SliderControlPointKind::Unset
        };
        control_points.push(point(index as i32 * 10, 0, kind));
    }
    HitObject {
        id,
        selected_by: None,
        start_time,
        position: IVec2::new(0, 0),
        new_combo: true,
        data: HitObjectKind::Slider {
            expected_distance: float(distance),
            control_points,
            repeats,
        },
    }
}

fn store_of(objects: Vec<HitObject>) -> HitObjectState {
    let mut store = HitObjectState::default();
    for object in objects {
        store.insert_hitobject(object);
    }
    store
}

fn ids(store: &HitObjectState) -> Vec<u32> {
    store.all().iter().map(|object| object.id).collect()
}

fn times(store: &HitObjectState) -> Vec<i32> {
    store.all().iter().map(|object| object.start_time).collect()
}

fn is_sorted(values: &[i32]) -> bool {
    values.windows(2).all(|pair| pair[0] <= pair[1])
}

fn timing_point(id: u32, offset: i32) -> TimingPoint {
    TimingPoint { id, offset, timing: None, sv: None, volume: None }
}

fn timing_of(points: Vec<TimingPoint>) -> TimingState {
    let mut store = TimingState::default();
    for point in points {
        store.insert_timing_point(point);
    }
    store
}

fn timing_ids(store: &TimingState) -> Vec<u32> {
    store.all().iter().map(|point| point.id).collect()
}

fn presence(id: usize, name: &str) -> Presence {
    Presence {
        id,
        session: SessionInfo {
            token: format!("token-{}", id),
            user: SessionUserInfo {
                id: id as u32,
                avatar_url: format!("https://avatars.example/{}", id),
                profile_id: 100 + id as u32,
                display_name: name.to_string(),
            },
        },
    }
}

fn user(id: usize, name: &str) -> UserInfo {
    UserInfo { presence: presence(id, name), cursor_pos: None, current_time: 0 }
}

#[test]
fn new_store_is_empty() {
    let store = HitObjectState::default();
    assert!(store.all().is_empty());
    assert!(store.find_by_id(0).is_none());
}

#[test]
fn insert_keeps_the_order_of_start_times() {
    let store = store_of(vec![
        circle(1, 500, None),
        circle(2, 100, None),
        circle(3, 900, None),
        circle(4, 300, None),
        circle(5, -50, None),
    ]);
    assert_eq!(times(&store), vec![-50, 100, 300, 500, 900]);
    assert_eq!(ids(&store), vec![5, 2, 4, 1, 3]);
}

#[test]
fn insert_goes_in_front_of_objects_of_the_same_time() {
    let store = store_of(vec![
        circle(1, 100, None),
        circle(2, 200, None),
        circle(3, 200, None),
        circle(4, 200, None),
        circle(5, 300, None),
    ]);
    assert_eq!(ids(&store), vec![1, 4, 3, 2, 5]);
}

#[test]
fn store_stays_sorted_through_inserts_and_deletes() {
    let mut store = HitObjectState::default();
    let mut seed: u32 = 12345;
    for id in 0..200u32 {
        seed = seed.wrapping_mul(1_103_515_245).wrapping_add(12345);
        let time = ((seed >> 8) % 1000) as i32 - 500;
        store.insert_hitobject(circle(id, time, None));
        assert!(is_sorted(&times(&store)));
        if id % 3 == 2 {
            seed = seed.wrapping_mul(1_103_515_245).wrapping_add(12345);
            let victim = (seed >> 8) % (id + 1);
            store.delete_hitobject(victim);
            assert!(is_sorted(&times(&store)));
        }
    }
    assert!(store.all().len() > 100);
}

#[test]
fn find_index_finds_the_first_object_of_a_time() {
    let store = store_of(vec![
        circle(1, 100, None),
        circle(2, 200, None),
        circle(3, 200, None),
        circle(4, 300, None),
    ]);
    assert_eq!(store.find_index(100), Ok(0));
    assert_eq!(store.find_index(200), Ok(1));
    assert_eq!(store.find_index(300), Ok(3));
}

#[test]
fn find_index_says_where_a_missing_time_would_enter() {
    let store = store_of(vec![circle(1, 100, None), circle(2, 200, None), circle(3, 300, None)]);
    assert_eq!(store.find_index(50), Err(0));
    assert_eq!(store.find_index(150), Err(1));
    assert_eq!(store.find_index(250), Err(2));
    assert_eq!(store.find_index(400), Err(3));
    assert_eq!(HitObjectState::default().find_index(0), Err(0));
}

#[test]
fn delete_returns_the_object_and_removes_it() {
    let mut store = store_of(vec![circle(1, 100, None), circle(2, 200, Some(4)), circle(3, 300, None)]);
    let removed = store.delete_hitobject(2);
    assert_eq!(removed, Some(circle(2, 200, Some(4))));
    assert_eq!(ids(&store), vec![1, 3]);
}

#[test]
fn delete_of_an_unknown_id_changes_nothing() {
    let mut store = store_of(vec![circle(1, 100, None), circle(3, 300, None)]);
    assert_eq!(store.delete_hitobject(2), None);
    assert_eq!(ids(&store), vec![1, 3]);
}

#[test]
fn delete_takes_the_first_of_two_objects_with_one_id() {
    let mut store = store_of(vec![circle(7, 300, None), circle(7, 100, Some(1))]);
    let removed = store.delete_hitobject(7);
    assert_eq!(removed, Some(circle(7, 100, Some(1))));
    assert_eq!(times(&store), vec![300]);
}

#[test]
fn update_replaces_the_object_in_place() {
    let mut store = store_of(vec![circle(1, 100, None), circle(2, 200, None), circle(3, 300, None)]);
    let mut changed = circle(2, 250, Some(9));
    changed.position = IVec2::new(77, 88);
    assert_eq!(store.update_hitobject(2, changed.clone()), Ok(()));
    assert_eq!(ids(&store), vec![1, 2, 3]);
    assert_eq!(store.find_by_id(2), Some(&changed));
}

#[test]
fn update_moves_the_object_when_its_time_leaves_the_gap() {
    let mut store = store_of(vec![circle(1, 100, None), circle(2, 200, None), circle(3, 300, None)]);
    assert_eq!(store.update_hitobject(1, circle(1, 350, None)), Ok(()));
    assert_eq!(ids(&store), vec![2, 3, 1]);
    assert_eq!(times(&store), vec![200, 300, 350]);
    assert_eq!(store.update_hitobject(1, circle(1, 0, None)), Ok(()));
    assert_eq!(ids(&store), vec![1, 2, 3]);
    assert_eq!(times(&store), vec![0, 200, 300]);
}

#[test]
fn update_to_the_time_of_a_neighbour_stays_in_place() {
    let mut store = store_of(vec![circle(1, 100, None), circle(2, 200, None), circle(3, 300, None)]);
    assert_eq!(store.update_hitobject(2, circle(2, 300, None)), Ok(()));
    assert_eq!(ids(&store), vec![1, 2, 3]);
    assert_eq!(store.update_hitobject(2, circle(2, 100, None)), Ok(()));
    assert_eq!(ids(&store), vec![1, 2, 3]);
}

#[test]
fn update_of_an_unknown_id_fails() {
    let mut store = store_of(vec![circle(1, 100, None)]);
    assert_eq!(store.update_hitobject(5, circle(5, 100, None)), Err(()));
    assert_eq!(store.all(), &vec![circle(1, 100, None)]);
}

#[test]
fn update_that_changes_the_shape_fails_and_changes_nothing() {
    let mut store = store_of(vec![circle(1, 100, None), slider(2, 200, 50.0, 2, 1)]);
    let before = clone_hit_objects(store.all());
    assert_eq!(store.update_hitobject(1, slider(1, 100, 50.0, 2, 1)), Err(()));
    assert_eq!(store.update_hitobject(2, circle(2, 200, None)), Err(()));
    let mut spinner = circle(1, 100, None);
    spinner.data = HitObjectKind::Spinner {};
    assert_eq!(store.update_hitobject(1, spinner), Err(()));
    assert_eq!(store.all(), &before);
}

#[test]
fn update_keeps_the_shape_of_a_slider() {
    let mut store = store_of(vec![slider(2, 200, 50.0, 2, 1)]);
    let longer = slider(2, 200, 80.0, 3, 2);
    assert_eq!(store.update_hitobject(2, longer.clone()), Ok(()));
    assert_eq!(store.find_by_id(2), Some(&longer));
}

#[test]
fn update_may_store_another_id() {
    let mut store = store_of(vec![circle(1, 100, None)]);
    assert_eq!(store.update_hitobject(1, circle(8, 100, None)), Ok(()));
    assert!(store.find_by_id(1).is_none());
    assert_eq!(store.find_by_id(8), Some(&circle(8, 100, None)));
}

#[test]
fn find_by_id_finds_the_first_object_with_the_id() {
    let store = store_of(vec![circle(1, 300, None), circle(1, 100, Some(2)), circle(2, 200, None)]);
    assert_eq!(store.find_by_id(1), Some(&circle(1, 100, Some(2))));
    assert_eq!(store.find_by_id(2), Some(&circle(2, 200, None)));
    assert_eq!(store.find_by_id(3), None);
}

#[test]
fn find_selected_by_lists_what_a_presence_holds() {
    let store = store_of(vec![
        circle(1, 100, Some(4)),
        circle(2, 200, None),
        circle(3, 300, Some(5)),
        circle(4, 400, Some(4)),
    ]);
    let held: Vec<u32> = store.find_selected_by(4).iter().map(|object| object.id).collect();
    assert_eq!(held, vec![1, 4]);
    assert!(store.find_selected_by(6).is_empty());
}

#[test]
fn find_by_start_time_wants_the_exact_time() {
    let store = store_of(vec![
        circle(1, 100, None),
        circle(2, 200, None),
        circle(3, 200, Some(1)),
        circle(4, 201, None),
    ]);
    let found: Vec<u32> = store.find_by_start_time(200).iter().map(|object| object.id).collect();
    assert_eq!(found, vec![3, 2]);
    assert!(store.find_by_start_time(199).is_empty());
}

#[test]
fn release_frees_what_a_presence_holds_outside_the_kept_ids() {
    let mut store = store_of(vec![
        circle(1, 100, Some(4)),
        circle(2, 200, Some(4)),
        circle(3, 300, Some(5)),
        circle(4, 400, Some(4)),
        circle(5, 500, None),
    ]);
    let released = store.release_selected_by(4, &vec![2, 9]);
    assert_eq!(released, vec![1, 4]);
    let owners: Vec<Option<usize>> = store.all().iter().map(|object| object.selected_by).collect();
    assert_eq!(owners, vec![None, Some(4), Some(5), None, None]);
}

#[test]
fn release_with_nothing_kept_frees_everything_of_the_presence() {
    let mut store = store_of(vec![circle(1, 100, Some(4)), circle(2, 200, Some(5))]);
    assert_eq!(store.release_selected_by(4, &Vec::new()), vec![1]);
    assert_eq!(store.release_selected_by(4, &Vec::new()), Vec::<u32>::new());
    assert_eq!(store.find_by_id(2).unwrap().selected_by, Some(5));
}

#[test]
fn set_selected_by_changes_the_lock_of_the_first_object_with_the_id() {
    let mut store = store_of(vec![circle(1, 300, None), circle(1, 100, Some(2)), circle(2, 200, None)]);
    assert!(store.set_selected_by(1, Some(7)));
    assert!(store.set_selected_by(2, None));
    assert!(!store.set_selected_by(3, Some(7)));
    let owners: Vec<Option<usize>> = store.all().iter().map(|object| object.selected_by).collect();
    assert_eq!(owners, vec![Some(7), None, None]);
    assert!(store.set_selected_by(1, None));
    assert_eq!(store.all()[0], circle(1, 100, None));
}

#[test]
fn circles_and_spinners_are_always_valid() {
    assert!(circle(1, 0, None).is_valid());
    let mut spinner = circle(1, 0, None);
    spinner.data = HitObjectKind::Spinner {};
    assert!(spinner.is_valid());
}

#[test]
fn slider_with_two_points_a_kind_a_length_and_a_repeat_is_valid() {
    assert!(slider(1, 0, 0.0, 2, 1).is_valid());
    assert!(slider(1, 0, 120.5, 5, 3).is_valid());
    assert!(slider(1, 0, -0.0, 2, 1).is_valid());
    assert!(slider(1, 0, f32::INFINITY, 2, u16::MAX).is_valid());
}

#[test]
fn slider_with_fewer_than_two_points_is_invalid() {
    assert!(!slider(1, 0, 10.0, 0, 1).is_valid());
    assert!(!slider(1, 0, 10.0, 1, 1).is_valid());
}

#[test]
fn slider_whose_first_point_has_no_kind_is_invalid() {
    let mut object = slider(1, 0, 10.0, 3, 1);
    if let HitObjectKind::Slider { control_points, .. } = &mut object.data {
        control_points[0].kind = SliderControlPointKind::Unset;
        control_points[1].kind = SliderControlPointKind::Linear;
    }
    assert!(!object.is_valid());
    if let HitObjectKind::Slider { control_points, .. } = &mut object.data {
        control_points[0].kind = SliderControlPointKind::Circle;
    }
    assert!(object.is_valid());
}

#[test]
fn slider_with_a_negative_or_absent_length_is_invalid() {
    assert!(!slider(1, 0, -0.5, 2, 1).is_valid());
    assert!(!slider(1, 0, f32::NEG_INFINITY, 2, 1).is_valid());
    assert!(!slider(1, 0, f32::NAN, 2, 1).is_valid());
}

#[test]
fn slider_without_a_repeat_is_invalid() {
    assert!(!slider(1, 0, 10.0, 2, 0).is_valid());
}

#[test]
fn same_shape_compares_the_variant_only() {
    let one = slider(1, 0, 10.0, 2, 1);
    let other = slider(2, 50, 99.0, 4, 7);
    assert!(same_shape(&one.data, &other.data));
    assert!(same_shape(&HitObjectKind::HitCircle, &HitObjectKind::HitCircle));
    assert!(same_shape(&HitObjectKind::Spinner {}, &HitObjectKind::Spinner {}));
    assert!(!same_shape(&one.data, &HitObjectKind::HitCircle));
    assert!(!same_shape(&HitObjectKind::Spinner {}, &HitObjectKind::HitCircle));
    assert!(!same_shape(&HitObjectKind::Spinner {}, &one.data));
}

#[test]
fn clone_of_a_hit_object_is_equal_and_apart() {
    let first = slider(3, 40, 12.0, 3, 2);
    let mut copy = first.clone();
    assert_eq!(copy, first);
    copy.selected_by = Some(1);
    if let HitObjectKind::Slider { control_points, .. } = &mut copy.data {
        control_points.pop();
    }
    assert_eq!(first, slider(3, 40, 12.0, 3, 2));
    assert_ne!(copy, first);
}

#[test]
fn contains_id_looks_through_the_ids() {
    assert!(contains_id(&vec![4, 8, 15], 8));
    assert!(contains_id(&vec![4, 8, 15], 15));
    assert!(!contains_id(&vec![4, 8, 15], 16));
    assert!(!contains_id(&Vec::new(), 0));
}

#[test]
fn next_id_counts_up_from_the_counter() {
    let mut counter: u32 = 0;
    assert_eq!(HitObject::next_id(&mut counter), 0);
    assert_eq!(HitObject::next_id(&mut counter), 1);
    assert_eq!(next_id(&mut counter), 2);
    assert_eq!(counter, 3);
}

#[test]
fn next_id_starts_again_after_the_last_id() {
    let mut counter: u32 = u32::MAX - 1;
    assert_eq!(HitObject::next_id(&mut counter), u32::MAX - 1);
    assert_eq!(HitObject::next_id(&mut counter), u32::MAX);
    assert_eq!(counter, 0);
    assert_eq!(HitObject::next_id(&mut counter), 0);
}

#[test]
fn timing_next_id_counts_up_and_starts_again() {
    let mut counter: u32 = 41;
    assert_eq!(TimingPoint::next_id(&mut counter), 41);
    assert_eq!(gameserver::editor::state::timing::next_id(&mut counter), 42);
    counter = u32::MAX;
    assert_eq!(TimingPoint::next_id(&mut counter), u32::MAX);
    assert_eq!(counter, 0);
}

#[test]
fn timing_insert_keeps_the_order_of_offsets() {
    let store = timing_of(vec![
        timing_point(1, 900),
        timing_point(2, 0),
        timing_point(3, 400),
        timing_point(4, 400),
    ]);
    assert_eq!(timing_ids(&store), vec![2, 4, 3, 1]);
}

#[test]
fn timing_find_index_tells_hits_from_gaps() {
    let store = timing_of(vec![timing_point(1, 0), timing_point(2, 400), timing_point(3, 400)]);
    assert_eq!(store.find_index(400), Ok(1));
    assert_eq!(store.find_index(0), Ok(0));
    assert_eq!(store.find_index(-1), Err(0));
    assert_eq!(store.find_index(399), Err(1));
    assert_eq!(store.find_index(401), Err(3));
}

#[test]
fn timing_update_replaces_and_moves() {
    let mut store = timing_of(vec![timing_point(1, 0), timing_point(2, 400), timing_point(3, 800)]);
    let mut changed = timing_point(2, 500);
    changed.timing = Some(TimingInformation { bpm: float(180.0), signature: 4 });
    changed.sv = Some(float(1.5));
    changed.volume = Some(float(0.8));
    assert_eq!(store.update_timing_point(2, changed), Ok(()));
    assert_eq!(store.find_by_id(2), Some(&changed));
    assert_eq!(timing_ids(&store), vec![1, 2, 3]);
    assert_eq!(store.update_timing_point(2, timing_point(2, 900)), Ok(()));
    assert_eq!(timing_ids(&store), vec![1, 3, 2]);
}

#[test]
fn timing_update_of_an_unknown_id_fails() {
    let mut store = timing_of(vec![timing_point(1, 0)]);
    assert_eq!(store.update_timing_point(2, timing_point(2, 10)), Err(()));
    assert_eq!(store.all(), &vec![timing_point(1, 0)]);
}

#[test]
fn timing_delete_returns_the_point() {
    let mut store = timing_of(vec![timing_point(1, 0), timing_point(2, 400)]);
    assert_eq!(store.delete_timing_point(1), Some(timing_point(1, 0)));
    assert_eq!(store.delete_timing_point(1), None);
    assert_eq!(timing_ids(&store), vec![2]);
}

#[test]
fn users_are_added_behind_the_others() {
    let mut users = UserState::default();
    users.add_user(user(3, "ada"));
    users.add_user(user(1, "bob"));
    let ids: Vec<usize> = users.all().iter().map(|user| user.id()).collect();
    assert_eq!(ids, vec![3, 1]);
    assert_eq!(users.find(1).unwrap().display_name(), "bob");
    assert!(users.find(2).is_none());
}

#[test]
fn removed_user_gives_its_place_to_the_last() {
    let mut users = UserState::default();
    for (id, name) in [(1, "ada"), (2, "bob"), (3, "cy"), (4, "di")] {
        users.add_user(user(id, name));
    }
    let removed = users.remove_user(2);
    assert_eq!(removed, Some(user(2, "bob")));
    let ids: Vec<usize> = users.all().iter().map(|user| user.id()).collect();
    assert_eq!(ids, vec![1, 4, 3]);
    assert_eq!(users.remove_user(2), None);
    assert_eq!(users.remove_user(3).map(|user| user.id()), Some(3));
    let ids: Vec<usize> = users.all().iter().map(|user| user.id()).collect();
    assert_eq!(ids, vec![1, 4]);
}

#[test]
fn find_mut_lets_the_caller_change_a_user() {
    let mut users = UserState::default();
    users.add_user(user(1, "ada"));
    users.add_user(user(2, "bob"));
    let place = Vec2::new(float(3.0), float(4.0));
    if let Some(found) = users.find_mut(2) {
        found.cursor_pos = Some(place);
        found.current_time = 1234;
    }
    assert!(users.find_mut(5).is_none());
    assert_eq!(users.find(2).unwrap().cursor_pos, Some(place));
    assert_eq!(users.find(2).unwrap().current_time, 1234);
    assert_eq!(users.find(1).unwrap(), &user(1, "ada"));
}

#[test]
fn a_document_enters_the_stores_in_order() {
    let state = EditorState::from_document(
        Difficulty::default(),
        vec![circle(4, 300, Some(9)), circle(2, 100, None), circle(7, 300, None)],
        vec![timing_point(3, 500), timing_point(1, 0)],
    );
    assert_eq!(
        state.hit_objects.all(),
        &vec![circle(2, 100, None), circle(7, 300, None), circle(4, 300, Some(9))]
    );
    assert_eq!(state.timing.all(), &vec![timing_point(1, 0), timing_point(3, 500)]);
    assert_eq!(state.difficulty, Difficulty::default());
    assert_eq!(state.empty_ticks, 0);
    assert!(state.events.is_empty());
    assert!(state.users.all().is_empty());
}

#[test]
fn a_document_sets_the_counters_behind_its_largest_ids() {
    let state = EditorState::from_document(
        Difficulty::default(),
        vec![circle(4, 300, None), circle(9, 100, None), circle(7, 300, None)],
        vec![timing_point(3, 500), timing_point(1, 0)],
    );
    assert_eq!(state.next_hit_object_id, 10);
    assert_eq!(state.next_timing_point_id, 4);
}

#[test]
fn an_empty_document_starts_the_counters_at_zero() {
    let state = EditorState::from_document(Difficulty::default(), Vec::new(), Vec::new());
    assert_eq!(state, EditorState::default());
    assert_eq!(state.next_hit_object_id, 0);
    assert_eq!(state.next_timing_point_id, 0);
}

#[test]
fn the_last_id_of_all_does_not_move_the_counter() {
    let state = EditorState::from_document(
        Difficulty::default(),
        vec![circle(u32::MAX, 0, None), circle(5, 0, None)],
        vec![timing_point(u32::MAX, 0)],
    );
    assert_eq!(state.next_hit_object_id, 6);
    assert_eq!(state.next_timing_point_id, 0);
}
