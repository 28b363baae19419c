use raytrace::point3::Point3;
use raytrace::ray::Ray;
use raytrace::vec3::Vec3;

/// Fixed-point value of `v`: the largest grid point not above it.
fn fx(v: f64) -> i128 {
    (v * 65536.0).floor() as i128
}

#[test]
fn test_instantiation() {
    // When I instantiate a Vec3
    let vec3 = Vec3::new(fx(24.), fx(35.), fx(46.));

    // Then I can read the values I instantiated it with
    assert_eq!(vec3.x, fx(24.));
    assert_eq!(vec3.y, fx(35.));
    assert_eq!(vec3.z, fx(46.));
}

#[test]
fn test_negation() {
    // Given a Vec3
    let vec3 = Vec3::new(fx(24.), fx(35.), fx(46.));

    // When I negate it
    let negated = vec3.neg();

    // Then its values are negated
    assert_eq!(negated.x, fx(-24.));
    assert_eq!(negated.y, fx(-35.));
    assert_eq!(negated.z, fx(-46.));
}

#[test]
fn test_indexing() {
    // Given a Vec3
    let vec3 = Vec3::new(fx(24.), fx(35.), fx(46.));

    // When I access its values by indices
    // Then I can read its values
    assert_eq!(vec3.index(0), fx(24.));
    assert_eq!(vec3.index(1), fx(35.));
    assert_eq!(vec3.index(2), fx(46.));
}

#[test]
fn test_mutable_indexing() {
    // Given a Vec3
    let mut vec3 = Vec3::new(fx(24.), fx(35.), fx(46.));

    // When I write to its values by indices
    vec3.set_index(0, fx(0.));
    vec3.set_index(1, fx(1.));
    vec3.set_index(2, fx(2.));

    // Then I can read the values I wrote
    assert_eq!(vec3.x, fx(0.));
    assert_eq!(vec3.y, fx(1.));
    assert_eq!(vec3.z, fx(2.));
}

#[test]
fn test_dot() {
    // Given two Vec3s
    let vec3_first = Vec3::new(fx(0.), fx(1.), fx(2.));
    let vec3_second = Vec3::new(fx(3.), fx(4.), fx(5.));

    // When I compute their dot product
    let product = vec3_first.dot(vec3_second);

    // Then I get it
    assert_eq!(product, fx(14.));
}

#[test]
fn test_cross() {
    // Given two Vec3s
    let vec3_first = Vec3::new(fx(2.), fx(3.), fx(4.));
    let vec3_second = Vec3::new(fx(5.), fx(6.), fx(7.));

    // When I compute their cross product
    let product = vec3_first.cross(vec3_second);

    // Then I get it
    assert_eq!(product.x, fx(-3.));
    assert_eq!(product.y, fx(6.));
    assert_eq!(product.z, fx(-3.));
}

#[test]
fn test_add() {
    // Given two Vec3s
    let vec3_first = Vec3::new(fx(0.), fx(1.), fx(2.));
    let vec3_second = Vec3::new(fx(3.), fx(4.), fx(5.));

    // When I add them together
    let sum = vec3_first.add(vec3_second);

    // Then the first contains the sum of the addition
    assert_eq!(sum.x, fx(3.));
    assert_eq!(sum.y, fx(5.));
    assert_eq!(sum.z, fx(7.));
}

#[test]
fn test_add_assign() {
    // Given two Vec3s
    let mut vec3_first = Vec3::new(fx(0.), fx(1.), fx(2.));
    let vec3_second = Vec3::new(fx(3.), fx(4.), fx(5.));

    // When I add assign the second to the first
    vec3_first.add_assign(vec3_second);

    // Then the first contains the sum of the addition
    assert_eq!(vec3_first.x, fx(3.));
    assert_eq!(vec3_first.y, fx(5.));
    assert_eq!(vec3_first.z, fx(7.));
}

#[test]
fn test_mul() {
    // Given two Vec3s
    let vec3_first = Vec3::new(fx(0.), fx(1.), fx(2.));
    let vec3_second = Vec3::new(fx(3.), fx(4.), fx(5.));

    // When I multiply them
    let product = vec3_first.mul_vec(vec3_second);

    // Then I get the product of the multiplication
    assert_eq!(product.x, fx(0.));
    assert_eq!(product.y, fx(4.));
    assert_eq!(product.z, fx(10.));
}

#[test]
fn test_mul_float() {
    // Given a Vec3
    let vec3 = Vec3::new(fx(24.), fx(35.), fx(46.));

    // When I multiply it by 0.75
    let product = vec3.mul_scalar(fx(0.75));

    // Then I get the product of the multiplication
    assert_eq!(product.x, fx(18.));
    assert_eq!(product.y, fx(26.25));
    assert_eq!(product.z, fx(34.5));

    // When I multiply 1.5 by the vec
    let second_product = vec3.mul_scalar(fx(1.5));

    // Then I get the product of the multiplication
    assert_eq!(second_product.x, fx(36.));
    assert_eq!(second_product.y, fx(52.5));
    assert_eq!(second_product.z, fx(69.));
}

#[test]
fn test_mul_assign_float() {
    // Given a Vec3
    let mut vec3 = Vec3::new(fx(0.), fx(1.), fx(2.));

    // When I multiply assign it by 1.5
    vec3.mul_assign(fx(1.5));

    // Then I get the product
    assert_eq!(vec3.x, fx(0.));
    assert_eq!(vec3.y, fx(1.5));
    assert_eq!(vec3.z, fx(3.));
}

#[test]
fn test_div() {
    // Given a Vec3
    let vec3 = Vec3::new(fx(24.), fx(35.), fx(46.));

    // When I divide it by 2.
    let result = vec3.div_scalar(fx(2.));

    // Then I get the result of the division
    assert_eq!(result.x, fx(12.));
    assert_eq!(result.y, fx(17.5));
    assert_eq!(result.z, fx(23.));
}

#[test]
fn test_div_assign() {
    // Given a Vec3
    let mut vec3 = Vec3::new(fx(24.), fx(35.), fx(46.));

    // When I divide assign it by 2.
    vec3.div_assign(fx(2.));

    // Then I get the result of the division
    assert_eq!(vec3.x, fx(12.));
    assert_eq!(vec3.y, fx(17.5));
    assert_eq!(vec3.z, fx(23.));
}

#[test]
fn test_len() {
    // Given a Vec3
    let vec3 = Vec3::new(fx(24.), fx(35.), fx(46.));

    // When I get the length
    let len = vec3.len();

    // Then it is the fixed-point floor of the distance from the origin,
    // the square root of 3917
    assert_eq!(len, 4101632);
}

#[test]
fn test_len_squared() {
    // Given a Vec3
    let vec3 = Vec3::new(fx(24.), fx(35.), fx(46.));

    // When I get the length squared
    let len_squared = vec3.len_squared();

    // Then it is equal to the sum of all of its values squared
    assert_eq!(len_squared, fx(3917.));
}

#[test]
fn test_unit_vector() {
    // Given a Vec3
    let vec3 = Vec3::new(fx(24.), fx(35.), fx(46.));

    // When I get its unit vector
    let unit_vec = vec3.unit_vector();

    // Then it is a vector of length 1 (to the rounding of the grid) in the
    // same direction as the original vector
    assert_eq!(unit_vec.len(), 65534);
    assert_eq!(unit_vec.x, 25131);
    assert_eq!(unit_vec.y, 36649);
    assert_eq!(unit_vec.z, 48168);
}

#[test]
fn test_point_at_ray() {
    // Given a ray
    let origin = Point3::new(fx(1.), fx(2.), fx(3.));
    let direction = Vec3::new(fx(-1.), fx(-1.), fx(-1.));
    let ray = Ray::new(origin, direction);

    // When I ask for a point along that ray
    let point = ray.at(fx(3.));

    // Then I get the correct point
    assert_eq!(point, Point3::new(fx(-2.), fx(-1.), fx(0.)));
}
