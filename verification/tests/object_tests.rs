use glam::{Quat, Vec3, Vec4};
use rview::object::Object;
use rview::shape::{Face, Shape, ShapeData};
use std::cell::Cell;
use std::rc::Rc;

/// A shape that counts how often its points are read.
struct Probe {
    points: Vec<Vec4>,
    faces: Vec<Face>,
    reads: Cell<usize>,
}

impl Shape for Probe {
    fn get_points(&self) -> &[Vec4] {
        self.reads.set(self.reads.get() + 1);
        &self.points
    }

    fn get_triangles(&self) -> &[Face] {
        &self.faces
    }
}

fn probe() -> Rc<Probe> {
    Rc::new(Probe {
        points: vec![Vec4::new(1.0, 2.0, 3.0, 1.0), Vec4::new(-1.0, 0.0, 0.5, 1.0)],
        faces: vec![(0, 1, 0)],
        reads: Cell::new(0),
    })
}

#[test]
fn vertices_are_scaled_then_moved() {
    let mut object = Object::new(probe(), Vec3::splat(2.0), Quat::IDENTITY, Vec3::new(1.0, 0.0, -1.0));
    let vertices = object.get_vertices().to_vec();
    assert_eq!(vertices, vec![Vec4::new(3.0, 4.0, 5.0, 1.0), Vec4::new(-1.0, 0.0, 0.0, 1.0)]);
}

#[test]
fn vertices_are_rotated() {
    let quarter_turn = Quat::from_rotation_z(std::f32::consts::FRAC_PI_2);
    let shape = Rc::new(ShapeData::new(vec![Vec4::new(1.0, 0.0, 0.0, 1.0)], vec![]));
    let mut object = Object::new(shape, Vec3::ONE, quarter_turn, Vec3::ZERO);
    let v = object.get_vertices()[0];
    assert!((v - Vec4::new(0.0, 1.0, 0.0, 1.0)).length() < 1e-6);
}

#[test]
fn nothing_is_transformed_before_the_vertices_are_read() {
    let shape = probe();
    let _object = Object::new(shape.clone(), Vec3::ONE, Quat::IDENTITY, Vec3::ZERO);
    assert_eq!(shape.reads.get(), 0);
}

#[test]
fn vertices_are_transformed_once_until_the_object_evolves() {
    let shape = probe();
    let mut object = Object::new(shape.clone(), Vec3::splat(2.0), Quat::IDENTITY, Vec3::ZERO);
    let first = object.get_vertices().to_vec();
    let second = object.get_vertices().to_vec();
    let third = object.get_vertices().to_vec();
    assert_eq!(first, second);
    assert_eq!(second, third);
    assert_eq!(shape.reads.get(), 1);
}

#[test]
fn evolving_marks_the_cache_dirty_without_transforming() {
    let shape = probe();
    let mut object = Object::new(shape.clone(), Vec3::ONE, Quat::IDENTITY, Vec3::ZERO);
    let before = object.get_vertices().to_vec();
    assert_eq!(before[0], Vec4::new(1.0, 2.0, 3.0, 1.0));
    object.evolve(Vec3::ONE, Quat::IDENTITY, Vec3::new(10.0, 0.0, 0.0));
    object.evolve(Vec3::ONE, Quat::IDENTITY, Vec3::new(0.0, 10.0, 0.0));
    assert_eq!(shape.reads.get(), 1);
    let after = object.get_vertices().to_vec();
    assert_eq!(after[0], Vec4::new(1.0, 12.0, 3.0, 1.0));
    assert_eq!(after.len(), before.len());
    assert_eq!(shape.reads.get(), 2);
    object.get_vertices();
    assert_eq!(shape.reads.get(), 2);
}

#[test]
fn triangles_pass_through_from_the_shape() {
    let object = Object::new(probe(), Vec3::ONE, Quat::IDENTITY, Vec3::ZERO);
    assert_eq!(object.get_triangles(), &[(0, 1, 0)]);
}

#[test]
fn one_shape_serves_several_objects() {
    let shape = probe();
    let mut here = Object::new(shape.clone(), Vec3::ONE, Quat::IDENTITY, Vec3::ZERO);
    let mut there = Object::new(shape.clone(), Vec3::ONE, Quat::IDENTITY, Vec3::new(5.0, 0.0, 0.0));
    assert_eq!(here.get_vertices()[0], Vec4::new(1.0, 2.0, 3.0, 1.0));
    assert_eq!(there.get_vertices()[0], Vec4::new(6.0, 2.0, 3.0, 1.0));
    assert_eq!(Rc::strong_count(&shape), 3);
}
