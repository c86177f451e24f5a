use raytracer::parser::ParseError;
use raytracer::Fixed;
use raytracer::Hitable;
use raytracer::Parser;
use raytracer::Vec3;

fn fi(i: i64) -> Fixed {
    Fixed::from_int(i)
}

fn doc(text: &str) -> Parser {
    Parser::OBJ(text.as_bytes().to_vec())
}

#[test]
fn test_parse_single_triangle() {
    let p = doc("v 1 0 0\nv 0 1 0\nv 0 0 1\nf 1 2 3\n");
    let list = p.parse().unwrap();
    assert_eq!(list.len(), 1);
    match &list.objs[0] {
        Hitable::Triangle(t) => {
            assert_eq!(t.normal(), Vec3::new(fi(1), fi(1), fi(1)));
        },
        _ => panic!("expected a triangle"),
    }
}

#[test]
fn test_parse_decimals_and_slashes() {
    // Decimal coordinates parse exactly in raw steps, and face references
    // may carry texture and normal parts after slashes.
    let p = doc("v -1.5 0.25 3\nv 0 0 0\nv 2 0 0\nf 1/7/2 2/7 3\n");
    let list = p.parse().unwrap();
    assert_eq!(list.len(), 1);
    match &list.objs[0] {
        Hitable::Triangle(t) => {
            assert_eq!(
                t.v0(),
                Vec3::new(Fixed::from_raw(-98304), Fixed::from_raw(16384), fi(3)),
            );
            assert_eq!(t.v1(), Vec3::new(fi(0), fi(0), fi(0)));
            assert_eq!(t.v2(), Vec3::new(fi(2), fi(0), fi(0)));
        },
        _ => panic!("expected a triangle"),
    }
}

#[test]
fn test_parse_truncates_fractions() {
    // A fraction below the raw resolution truncates toward zero, on both
    // signs: a tenth lands on 6553 raw steps, its negation on -6553.
    let p = doc("v 0.1 -0.1 0.00001\nv 0 0 0\nv 1 0 0\nf 1 2 3\n");
    let list = p.parse().unwrap();
    match &list.objs[0] {
        Hitable::Triangle(t) => {
            assert_eq!(
                t.v0(),
                Vec3::new(Fixed::from_raw(6553), Fixed::from_raw(-6553), Fixed::from_raw(0)),
            );
        },
        _ => panic!("expected a triangle"),
    }
}

#[test]
fn test_parse_skips_other_records() {
    let p = doc("# comment\no name\nvt 0 0\nvn 1 0 0\n");
    let list = p.parse().unwrap();
    assert_eq!(list.len(), 0);
}

#[test]
fn test_parse_bad_vertex() {
    assert_eq!(doc("v 1 2\n").parse().unwrap_err(), ParseError::BadVertex);
    assert_eq!(doc("v a b c\n").parse().unwrap_err(), ParseError::BadVertex);
}

#[test]
fn test_parse_bad_face() {
    assert_eq!(doc("f 1 2\n").parse().unwrap_err(), ParseError::BadFace);
    assert_eq!(doc("f x y z\n").parse().unwrap_err(), ParseError::BadFace);
}

#[test]
fn test_parse_bad_index() {
    let p = doc("v 0 0 0\nv 1 0 0\nf 1 2 5\n");
    assert_eq!(p.parse().unwrap_err(), ParseError::BadIndex);
    let p = doc("v 0 0 0\nv 1 0 0\nv 0 1 0\nf 0 1 2\n");
    assert_eq!(p.parse().unwrap_err(), ParseError::BadIndex);
}
