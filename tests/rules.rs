use glam::{DMat2, DMat3, DVec2, DVec3};
use std::ops::Mul;
use trinity::map::{MatrixMapError, MatrixMapHashMap};
use trinity::math::{integer_power, square_multiply_steps};
use trinity::name::MatrixName;
use trinity::value::{
    add_kind, divide_kind, multiply_kind, power_plan, transpose_kind, EvaluationError, Kind,
    PowerPlan,
};

const KINDS: [Kind; 3] = [Kind::Number, Kind::Matrix2, Kind::Matrix3];

#[test]
fn integer_power_with_nums() {
    assert_eq!(integer_power(3u64, 15), 3u64.pow(15));
    assert_eq!(integer_power(5u64, 25), 5u64.pow(25));
    assert_eq!(integer_power(3u64, 1), 3u64);
    assert_eq!(integer_power(3u64, 0), 1u64);
}

#[test]
fn integer_power_matches_repeated_products() {
    for base in [0u64, 1, 2, 7, 10] {
        let mut expected = 1u64;
        for k in 0u16..=15 {
            assert_eq!(integer_power(base, k), expected, "{base}^{k}");
            expected = expected.wrapping_mul(base);
        }
    }
    // Products wrap modulo 2^64.
    assert_eq!(integer_power(2u64, 64), 0);
    assert_eq!(integer_power(3u64, 41), 3u64.wrapping_pow(41));
}

#[test]
fn square_multiply_steps_follow_the_bits() {
    assert_eq!(square_multiply_steps(0), Vec::<bool>::new());
    assert_eq!(square_multiply_steps(1), Vec::<bool>::new());
    assert_eq!(square_multiply_steps(2), vec![false]);
    assert_eq!(square_multiply_steps(13), vec![true, false, true]);
    assert_eq!(square_multiply_steps(65535), vec![true; 15]);
    assert_eq!(square_multiply_steps(32768), vec![false; 15]);
}

/// `base` to `power` by following the square-and-multiply steps.
fn follow_steps<M: Copy + Mul<Output = M>>(base: M, power: u16, identity: M) -> M {
    if power == 0 {
        return identity;
    }
    let mut acc = base;
    for multiply in square_multiply_steps(power) {
        acc = acc * acc;
        if multiply {
            acc = acc * base;
        }
    }
    acc
}

#[test]
fn square_multiply_steps_with_matrices() {
    let m = DMat2::from_cols(DVec2::new(2.1, -3.2), DVec2::new(0.03, 1.92));
    assert!(follow_steps(m, 4, DMat2::IDENTITY).abs_diff_eq(m * m * m * m, 1e-9));
    assert_eq!(follow_steps(m, 1, DMat2::IDENTITY), m);
    assert_eq!(follow_steps(m, 0, DMat2::IDENTITY), DMat2::IDENTITY);

    let n = DMat3::from_cols(
        DVec3::new(2.1, -3.2, 4.5),
        DVec3::new(0.03, 1.92, -1.16),
        DVec3::new(-0.5, 1.34, 7.12),
    );
    let mut expected = DMat3::IDENTITY;
    for k in 0u16..=15 {
        let got = follow_steps(n, k, DMat3::IDENTITY);
        let size = expected.to_cols_array().iter().fold(1.0f64, |a, b| a.max(b.abs()));
        assert!(got.abs_diff_eq(expected, 1e-9 * size), "n^{k}");
        expected = expected * n;
    }
    assert_eq!(follow_steps(n, 0, DMat3::IDENTITY), DMat3::IDENTITY);
}

#[test]
fn matrix_map_set_get() {
    let mut map2: MatrixMapHashMap<DMat2> = MatrixMapHashMap::new();
    let mut map3: MatrixMapHashMap<DMat3> = MatrixMapHashMap::new();

    let m1 = DMat2::from_cols(DVec2::new(0.25, -1.5), DVec2::new(3.0, 0.125));
    let m2 = DMat2::from_cols(DVec2::new(9.0, 8.0), DVec2::new(-7.0, 6.5));
    let n1 = DMat3::from_cols(
        DVec3::new(1.0, 2.0, 3.0),
        DVec3::new(-4.0, 5.5, 6.0),
        DVec3::new(7.0, 8.0, -9.25),
    );
    let n2 = DMat3::IDENTITY;

    let m1name = MatrixName::new("M_one");
    let m2name = MatrixName::new("M_two");
    let n1name = MatrixName::new("N_one");
    let n2name = MatrixName::new("N_two");

    assert_eq!(map2.set(m1name.clone(), m1), Ok(()));
    assert_eq!(map2.set(m2name.clone(), m2), Ok(()));
    assert_eq!(map3.set(n1name.clone(), n1), Ok(()));
    assert_eq!(map3.set(n2name.clone(), n2), Ok(()));

    assert_eq!(
        map2.set(MatrixName::new("m"), m1),
        Err(MatrixMapError::InvalidName("m".to_string()))
    );
    assert_eq!(
        map3.set(MatrixName::new("x"), n1),
        Err(MatrixMapError::InvalidName("x".to_string()))
    );

    assert_eq!(map2.get(&m1name), Ok(m1));
    assert_eq!(map2.get(&m2name), Ok(m2));
    assert_eq!(map3.get(&n1name), Ok(n1));
    assert_eq!(map3.get(&n2name), Ok(n2));

    assert_eq!(
        map2.get(&MatrixName::new("X")),
        Err(MatrixMapError::NameNotDefined(MatrixName::new("X")))
    );
    assert_eq!(
        map2.get(&MatrixName::new("y")),
        Err(MatrixMapError::InvalidName("y".to_string()))
    );
    assert_eq!(
        map3.get(&MatrixName::new("X")),
        Err(MatrixMapError::NameNotDefined(MatrixName::new("X")))
    );
    assert_eq!(
        map3.get(&MatrixName::new("y")),
        Err(MatrixMapError::InvalidName("y".to_string()))
    );
}

#[test]
fn matrix_map_set_overwrites() {
    let mut map: MatrixMapHashMap<u64> = MatrixMapHashMap::new();
    let m = MatrixName::new("M");
    assert_eq!(map.set(m.clone(), 1), Ok(()));
    assert_eq!(map.set(m.clone(), 2), Ok(()));
    assert_eq!(map.get(&m), Ok(2));
    assert_eq!(map.set(MatrixName::new("N"), 3), Ok(()));
    assert_eq!(map.get(&m), Ok(2));
    assert_eq!(map.get(&MatrixName::new("N")), Ok(3));
}

#[test]
fn matrix_names_are_validated() {
    for name in ["M", "Mat", "A_", "X_y", "Dave", "N", "T", "Abc", "AB", "PascalCase", "A2", "Ab1", "X_9Y"] {
        assert!(MatrixName::is_valid(name), "'{name}' should be valid");
        assert!(MatrixName::try_new(name).is_some());
        assert!(MatrixName::new(name).self_is_valid());
    }
    for name in [
        "", "m", " M", "x", "my_matrix", "::", "Name with spaces", "WhatAboutPunctuation?",
        "It's", "X:C", "2A", "_A", "A-b", "Ä",
    ] {
        assert!(!MatrixName::is_valid(name), "'{name}' should be invalid");
        assert!(MatrixName::try_new(name).is_none());
    }
    assert_eq!(MatrixName::new("Dave").as_str(), "Dave");

    // Wide names are valid in an environment, though an expression spells `AB` as A times B.
    let mut map: MatrixMapHashMap<u64> = MatrixMapHashMap::new();
    assert_eq!(map.set(MatrixName::new("PascalCase"), 5), Ok(()));
    assert_eq!(map.get(&MatrixName::new("PascalCase")), Ok(5));
    assert_eq!(map.set(MatrixName::new("A2"), 6), Ok(()));
    assert_eq!(map.get(&MatrixName::new("A2")), Ok(6));
}

#[test]
fn different_dimensions_do_not_combine() {
    assert_eq!(
        add_kind(Kind::Matrix2, Kind::Matrix3),
        Err(EvaluationError::CannotAddDifferentDimensions)
    );
    assert_eq!(
        add_kind(Kind::Matrix3, Kind::Matrix2),
        Err(EvaluationError::CannotAddDifferentDimensions)
    );
    assert_eq!(
        multiply_kind(Kind::Matrix2, Kind::Matrix3),
        Err(EvaluationError::CannotMultiplyDifferentDimensions)
    );
    assert_eq!(
        multiply_kind(Kind::Matrix3, Kind::Matrix2),
        Err(EvaluationError::CannotMultiplyDifferentDimensions)
    );
    assert_eq!(
        add_kind(Kind::Number, Kind::Matrix2),
        Err(EvaluationError::CannotAddNumberAndMatrix)
    );
    assert_eq!(
        add_kind(Kind::Matrix3, Kind::Number),
        Err(EvaluationError::CannotAddNumberAndMatrix)
    );
}

#[test]
fn like_kinds_combine() {
    for k in KINDS {
        assert_eq!(add_kind(k, k), Ok(k));
        assert_eq!(multiply_kind(k, k), Ok(k));
        assert_eq!(multiply_kind(Kind::Number, k), Ok(k));
        assert_eq!(multiply_kind(k, Kind::Number), Ok(k));
        assert_eq!(divide_kind(k, Kind::Number), Ok(k));
    }
}

#[test]
fn division_by_a_matrix_fails() {
    for k in KINDS {
        assert_eq!(divide_kind(k, Kind::Matrix2), Err(EvaluationError::CannotDivideByMatrix));
        assert_eq!(divide_kind(k, Kind::Matrix3), Err(EvaluationError::CannotDivideByMatrix));
    }
}

#[test]
fn transposition_needs_a_matrix() {
    assert_eq!(transpose_kind(Kind::Number), Err(EvaluationError::CannotTransposeNumber));
    assert_eq!(transpose_kind(Kind::Matrix2), Ok(Kind::Matrix2));
    assert_eq!(transpose_kind(Kind::Matrix3), Ok(Kind::Matrix3));
}

#[test]
fn power_plans() {
    assert_eq!(power_plan(Kind::Number, Kind::Number, None), Ok(PowerPlan::NumberPower));
    // [1 0; 0 1] ^ 1.5
    assert_eq!(
        power_plan(Kind::Matrix2, Kind::Number, None),
        Err(EvaluationError::CannotRaiseMatrixToNonInteger)
    );
    assert_eq!(
        power_plan(Kind::Matrix3, Kind::Number, Some((3, false))),
        Ok(PowerPlan::MatrixPower { steps: 3, invert: false })
    );
    assert_eq!(
        power_plan(Kind::Matrix2, Kind::Number, Some((1, true))),
        Ok(PowerPlan::MatrixPower { steps: 1, invert: true })
    );
    for k in KINDS {
        assert_eq!(
            power_plan(k, Kind::Matrix2, Some((2, false))),
            Err(EvaluationError::CannotRaiseToMatrix)
        );
        assert_eq!(power_plan(k, Kind::Matrix3, None), Err(EvaluationError::CannotRaiseToMatrix));
    }
}
