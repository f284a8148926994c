use netcdf_variable::array::Grid;
use netcdf_variable::attribute::Attribute;
use netcdf_variable::dimension::Dimension;
use netcdf_variable::error::{AccessError, ShapeFault, NC_NOERR};
use netcdf_variable::kind::NC_INT;
use netcdf_variable::variable::Variable;

fn dim(name: &str, len: u64, id: i32) -> Dimension {
    Dimension { name: name.to_string(), len, id }
}

fn grid_2x3() -> Variable {
    let dims = vec![dim("row", 2, 0), dim("col", 3, 1)];
    let attrs: Vec<Attribute> = Vec::new();
    Variable::new("grid".to_string(), NC_INT, 5, 11, dims, &attrs).unwrap()
}

#[test]
fn grid_from_shape_is_row_major() {
    let g = Grid::from_shape(vec![2, 3], vec![10, 11, 12, 20, 21, 22]).unwrap();
    let a = g.inner.array;
    assert_eq!(a.shape(), &[2, 3]);
    assert_eq!(a[[0, 0]], 10);
    assert_eq!(a[[0, 2]], 12);
    assert_eq!(a[[1, 0]], 20);
    assert_eq!(a[[1, 2]], 22);
    assert_eq!(a.iter().copied().collect::<Vec<i32>>(), vec![10, 11, 12, 20, 21, 22]);
}

#[test]
fn grid_from_shape_counts_the_values() {
    assert!(Grid::from_shape(vec![2, 3], vec![1, 2, 3, 4, 5]).is_none());
    assert!(Grid::from_shape(vec![2, 3], vec![1, 2, 3, 4, 5, 6, 7]).is_none());
    assert!(Grid::from_shape(vec![2, 3], Vec::<i32>::new()).is_none());
    assert!(Grid::from_shape(vec![2, 0], Vec::<i32>::new()).is_some());
    assert!(Grid::from_shape(Vec::new(), vec![1]).is_some());
    assert!(Grid::from_shape(Vec::new(), Vec::<i32>::new()).is_none());
    assert!(Grid::from_shape(vec![6], vec![1, 2, 3, 4, 5, 6]).is_some());
}

#[test]
fn grid_from_shape_refuses_what_overflows() {
    // No element is held, yet the axes other than the empty one are too long.
    assert!(Grid::from_shape(vec![usize::MAX, 2, 0], Vec::<i32>::new()).is_none());
    assert!(Grid::from_shape(vec![usize::MAX, 0], Vec::<i32>::new()).is_none());
    assert!(Grid::from_shape(vec![isize::MAX as usize, 0], Vec::<i32>::new()).is_some());
}

#[test]
fn as_array_has_the_dimensions_as_axes() {
    let v = grid_2x3();
    let whole = vec![10, 11, 12, 20, 21, 22];
    let data = v.values().received(NC_NOERR, whole.clone()).unwrap();
    let g = match v.as_array(data) {
        Ok(g) => g,
        Err(e) => panic!("{:?}", e),
    };
    let a = g.inner.array;
    assert_eq!(a.ndim(), 2);
    assert_eq!(a.shape(), &[2, 3]);
    // Each element stands in the array where its flat offset says.
    for r in 0..2usize {
        for c in 0..3usize {
            let at = v.flat_offset(&[r, c]).unwrap() as usize;
            assert_eq!(a[[r, c]], whole[at]);
        }
    }
    assert_eq!(a[[1, 1]], 21);
}

#[test]
fn as_array_counts_the_values() {
    let v = grid_2x3();
    assert_eq!(
        v.as_array(vec![1, 2, 3, 4, 5]).err(),
        Some(AccessError::Shape(ShapeFault::ValueCount))
    );
    assert_eq!(
        v.as_array(Vec::<i32>::new()).err(),
        Some(AccessError::Shape(ShapeFault::ValueCount))
    );
}

#[test]
fn as_array_of_an_empty_variable() {
    let attrs: Vec<Attribute> = Vec::new();
    let dims = vec![dim("time", 0, 0), dim("x", 4, 1)];
    let v = Variable::new("empty".to_string(), NC_INT, 0, 0, dims, &attrs).unwrap();
    let g = match v.as_array(Vec::<i32>::new()) {
        Ok(g) => g,
        Err(e) => panic!("{:?}", e),
    };
    assert_eq!(g.inner.array.shape(), &[0, 4]);
    assert_eq!(g.inner.array.len(), 0);
    let dims = vec![dim("time", 0, 0), dim("x", u64::MAX, 1)];
    let v = Variable::new("empty".to_string(), NC_INT, 0, 0, dims, &attrs).unwrap();
    assert_eq!(
        v.as_array(Vec::<i32>::new()).err(),
        Some(AccessError::Shape(ShapeFault::TooLarge))
    );
}

#[test]
fn as_array_of_a_scalar() {
    let attrs: Vec<Attribute> = Vec::new();
    let v = Variable::new("scalar".to_string(), NC_INT, 0, 0, Vec::new(), &attrs).unwrap();
    let g = match v.as_array(vec![42]) {
        Ok(g) => g,
        Err(e) => panic!("{:?}", e),
    };
    assert_eq!(g.inner.array.ndim(), 0);
    assert_eq!(g.inner.array.len(), 1);
    assert_eq!(g.inner.array.iter().copied().collect::<Vec<i32>>(), vec![42]);
}

#[test]
fn array_at_has_the_slice_as_axes() {
    let v = grid_2x3();
    let region = vec!["r0c1", "r0c2", "r1c1", "r1c2"];
    let t = v.values_at(&[0, 1], &[2, 2]).unwrap();
    let data = t.received(NC_NOERR, region).unwrap();
    let g = match v.array_at(&[0, 1], &[2, 2], data) {
        Ok(g) => g,
        Err(e) => panic!("{:?}", e),
    };
    let a = g.inner.array;
    assert_eq!(a.shape(), &[2, 2]);
    assert_eq!(a[[0, 0]], "r0c1");
    assert_eq!(a[[0, 1]], "r0c2");
    assert_eq!(a[[1, 0]], "r1c1");
    assert_eq!(a[[1, 1]], "r1c2");
}

#[test]
fn array_at_is_checked() {
    let v = grid_2x3();
    assert_eq!(
        v.array_at(&[0, 1], &[2, 3], vec![0; 6]).err(),
        Some(AccessError::Shape(ShapeFault::SliceOutOfBounds))
    );
    assert_eq!(
        v.array_at(&[0, 1], &[2, 2], vec![0; 3]).err(),
        Some(AccessError::Shape(ShapeFault::ValueCount))
    );
    assert_eq!(
        v.array_at(&[0], &[2], vec![0; 2]).err(),
        Some(AccessError::Shape(ShapeFault::IndexCount))
    );
    assert_eq!(
        v.array_at(&[0, 0], &[0, 1], Vec::<i32>::new()).err(),
        Some(AccessError::Shape(ShapeFault::EmptySlice))
    );
}
