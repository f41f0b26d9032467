use gameserver::geo::{SliderGeometry, SliderVertex};
use gameserver::util::{Float, Vec2};

fn vertex(x: f32, y: f32, edge: f32) -> SliderVertex {
    SliderVertex {
        pos: Vec2::new(Float::from_bits(x.to_bits()), Float::from_bits(y.to_bits())),
        is_edge: Float::from_bits(edge.to_bits()),
    }
}

fn run_of(count: usize) -> Vec<SliderVertex> {
    (0..count).map(|index| vertex(index as f32, 0.0, 1.0)).collect()
}

#[test]
fn new_geometry_is_empty() {
    let geometry = SliderGeometry::new();
    assert!(geometry.vertices.is_empty());
    assert!(geometry.indices.is_empty());
    assert_eq!(geometry.cursor(), 0);
}

#[test]
fn vertices_and_indices_are_added_in_order() {
    let mut geometry = SliderGeometry::new();
    geometry.add_vertex(&vertex(1.0, 2.0, 0.0));
    geometry.add_vertices(vec![vertex(3.0, 4.0, 1.0), vertex(5.0, 6.0, 1.0)]);
    geometry.add_index(2);
    geometry.add_indices(vec![0, 1]);
    assert_eq!(
        geometry.vertices,
        vec![vertex(1.0, 2.0, 0.0), vertex(3.0, 4.0, 1.0), vertex(5.0, 6.0, 1.0)]
    );
    assert_eq!(geometry.indices, vec![2, 0, 1]);
    assert_eq!(geometry.cursor(), 3);
}

#[test]
fn triangle_names_its_three_vertices() {
    let mut geometry = SliderGeometry::new();
    geometry.add_vertex(&vertex(9.0, 9.0, 0.0));
    geometry.add_triangle([vertex(0.0, 0.0, 0.0), vertex(1.0, 0.0, 1.0), vertex(0.0, 1.0, 1.0)]);
    assert_eq!(geometry.cursor(), 4);
    assert_eq!(geometry.indices, vec![1, 2, 3]);
    assert_eq!(geometry.vertices[3], vertex(0.0, 1.0, 1.0));
}

#[test]
fn quad_names_two_triangles() {
    let mut geometry = SliderGeometry::new();
    geometry.add_vertices(run_of(2));
    geometry.add_quad([
        vertex(0.0, 0.0, 0.0),
        vertex(1.0, 0.0, 1.0),
        vertex(1.0, 1.0, 1.0),
        vertex(0.0, 1.0, 1.0),
    ]);
    assert_eq!(geometry.cursor(), 6);
    assert_eq!(geometry.indices, vec![2, 3, 4, 2, 5, 6]);
}

#[test]
fn strip_fans_out_from_its_first_vertex() {
    let mut geometry = SliderGeometry::new();
    geometry.add_vertices(run_of(3));
    geometry.add_triangle_strip(run_of(5));
    assert_eq!(geometry.cursor(), 8);
    assert_eq!(geometry.indices, vec![3, 4, 5, 3, 5, 6, 3, 6, 7]);
}

#[test]
fn strip_of_three_is_one_triangle() {
    let mut geometry = SliderGeometry::new();
    geometry.add_triangle_strip(run_of(3));
    assert_eq!(geometry.indices, vec![0, 1, 2]);
}

#[test]
fn strip_of_fewer_than_three_has_no_triangle() {
    let mut geometry = SliderGeometry::new();
    geometry.add_triangle_strip(run_of(1));
    geometry.add_triangle_strip(run_of(2));
    assert_eq!(geometry.cursor(), 3);
    assert!(geometry.indices.is_empty());
}

#[test]
fn segment_names_four_triangles_over_six_vertices() {
    let mut geometry = SliderGeometry::new();
    geometry.add_vertices(run_of(2));
    let six = [
        vertex(0.0, 1.0, 1.0),
        vertex(0.0, 0.0, 0.0),
        vertex(0.0, -1.0, 1.0),
        vertex(5.0, 1.0, 1.0),
        vertex(5.0, 0.0, 0.0),
        vertex(5.0, -1.0, 1.0),
    ];
    geometry.add_segment(six);
    assert_eq!(geometry.cursor(), 8);
    assert_eq!(&geometry.vertices[2..], &six[..]);
    assert_eq!(geometry.indices, vec![2, 5, 3, 5, 6, 3, 3, 6, 7, 7, 4, 3]);
}

#[test]
fn segments_follow_one_another() {
    let mut geometry = SliderGeometry::new();
    geometry.add_segment([vertex(0.0, 0.0, 0.0); 6]);
    geometry.add_segment([vertex(1.0, 0.0, 0.0); 6]);
    assert_eq!(geometry.cursor(), 12);
    assert_eq!(
        geometry.indices,
        vec![0, 3, 1, 3, 4, 1, 1, 4, 5, 5, 2, 1, 6, 9, 7, 9, 10, 7, 7, 10, 11, 11, 8, 7]
    );
}
