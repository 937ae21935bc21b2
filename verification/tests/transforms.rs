use svg_mesh::mesh::GpuTransform;
use svg_mesh::scene::Transform;
use svg_mesh::transform::TransformTable;

fn matrix(a: f32, b: f32, c: f32, d: f32, e: f32, f: f32) -> Transform {
    Transform {
        a: a.to_bits(),
        b: b.to_bits(),
        c: c.to_bits(),
        d: d.to_bits(),
        e: e.to_bits(),
        f: f.to_bits(),
    }
}

fn shift(x: f32, y: f32) -> Transform {
    matrix(1.0, 0.0, 0.0, 1.0, x, y)
}

#[test]
fn rows_are_abcd_and_ef00() {
    let t = matrix(1.0, 2.0, 3.0, 4.0, 5.0, 6.0);
    let g = GpuTransform::new(t);
    assert_eq!(g.data0, [1.0f32.to_bits(), 2.0f32.to_bits(), 3.0f32.to_bits(), 4.0f32.to_bits()]);
    assert_eq!(g.data1, [5.0f32.to_bits(), 6.0f32.to_bits(), 0, 0]);
    assert_eq!(g.data1[2], 0.0f32.to_bits());
}

#[test]
fn new_table_is_empty() {
    assert_eq!(TransformTable::new().len(), 0);
    assert_eq!(TransformTable::new().into_records(), vec![]);
}

#[test]
fn first_transform_is_always_recorded() {
    let mut table = TransformTable::new();
    assert_eq!(table.visit(shift(0.0, 0.0)), 0);
    assert_eq!(table.len(), 1);

    let nan = f32::NAN;
    let mut other = TransformTable::new();
    assert_eq!(other.visit(matrix(nan, nan, nan, nan, nan, nan)), 0);
    assert_eq!(other.len(), 1);
}

#[test]
fn equal_neighbours_share_a_record() {
    let mut table = TransformTable::new();
    assert_eq!(table.visit(shift(1.0, 1.0)), 0);
    assert_eq!(table.visit(shift(1.0, 1.0)), 0);
    assert_eq!(table.visit(shift(1.0, 1.0)), 0);
    assert_eq!(table.into_records(), vec![GpuTransform::new(shift(1.0, 1.0))]);
}

#[test]
fn one_record_for_each_run() {
    let a = shift(1.0, 0.0);
    let b = shift(2.0, 0.0);
    let shown = [a, a, b, a, a, a, b, b];
    let expected = [0u32, 0, 1, 2, 2, 2, 3, 3];
    let mut table = TransformTable::new();
    for (t, idx) in shown.iter().zip(expected) {
        assert_eq!(table.visit(*t), idx);
        assert_eq!(table.len() as u32, idx + 1);
    }
    assert_eq!(
        table.into_records(),
        vec![
            GpuTransform::new(a),
            GpuTransform::new(b),
            GpuTransform::new(a),
            GpuTransform::new(b)
        ]
    );
}

#[test]
fn a_transform_is_told_apart_by_any_entry() {
    let base = matrix(1.0, 2.0, 3.0, 4.0, 5.0, 6.0);
    let others = [
        matrix(9.0, 2.0, 3.0, 4.0, 5.0, 6.0),
        matrix(1.0, 9.0, 3.0, 4.0, 5.0, 6.0),
        matrix(1.0, 2.0, 9.0, 4.0, 5.0, 6.0),
        matrix(1.0, 2.0, 3.0, 9.0, 5.0, 6.0),
        matrix(1.0, 2.0, 3.0, 4.0, 9.0, 6.0),
        matrix(1.0, 2.0, 3.0, 4.0, 5.0, 9.0),
    ];
    for other in others {
        let mut table = TransformTable::new();
        assert_eq!(table.visit(base), 0);
        assert_eq!(table.visit(other), 1);
        assert_eq!(table.visit(base), 2);
    }
}

#[test]
fn transforms_are_compared_by_their_bits() {
    let mut table = TransformTable::new();
    assert_eq!(table.visit(shift(0.0, 0.0)), 0);
    assert_eq!(table.visit(shift(-0.0, 0.0)), 1);

    let nan = f32::NAN;
    let mut other = TransformTable::new();
    assert_eq!(other.visit(matrix(nan, 0.0, 0.0, 1.0, 0.0, 0.0)), 0);
    assert_eq!(other.visit(matrix(nan, 0.0, 0.0, 1.0, 0.0, 0.0)), 0);
}

#[test]
fn the_index_is_that_of_the_transform_shown() {
    let shown = [shift(1.0, 0.0), shift(1.0, 0.0), shift(3.0, 0.0), shift(1.0, 0.0)];
    let mut table = TransformTable::new();
    let mut indices = Vec::new();
    for t in shown {
        indices.push(table.visit(t));
    }
    let records = table.into_records();
    for (t, idx) in shown.iter().zip(&indices) {
        assert_eq!(records[*idx as usize], GpuTransform::new(*t));
    }
    for pair in indices.windows(2) {
        assert!(pair[0] <= pair[1]);
    }
}
