use stable_fluids::boundary::enforce_boundary;
use stable_fluids::boundary::FieldKind;
use stable_fluids::fixed::fx_add;
use stable_fluids::fixed::fx_div_int;
use stable_fluids::fixed::fx_mul;
use stable_fluids::fixed::fx_neg;
use stable_fluids::fixed::FX_ONE;
use stable_fluids::grid::idx;
use stable_fluids::grid::make_field;
use stable_fluids::inject::inject_density;
use stable_fluids::inject::inject_velocity;
use stable_fluids::model::Model;
use stable_fluids::staggered::mouse_clicked;
use stable_fluids::staggered::setup_scene;

fn fx(x: f64) -> i64 {
    (x * 65536.0).round() as i64
}

#[test]
fn index_is_row_major() {
    assert_eq!(idx(0, 0, 62), 0);
    assert_eq!(idx(5, 5, 62), 5 + 5 * 62);
    assert_eq!(idx(61, 61, 62), 61 + 61 * 62);
}

#[test]
fn fixed_point_arithmetic_is_exact_on_halves() {
    assert_eq!(fx_add(fx(1.5), fx(2.25)), fx(3.75));
    assert_eq!(fx_mul(fx(1.5), fx(2.0)), fx(3.0));
    assert_eq!(fx_mul(FX_ONE, fx(0.25)), fx(0.25));
    assert_eq!(fx_neg(fx(2.5)), fx(-2.5));
    assert_eq!(fx_div_int(fx(3.0), 3), fx(1.0));
}

#[test]
fn fixed_point_saturates_instead_of_wrapping() {
    assert_eq!(fx_add(i64::MAX, 1), i64::MAX);
    assert_eq!(fx_add(i64::MIN, -1), i64::MIN);
    assert_eq!(fx_neg(i64::MIN), i64::MAX);
}

#[test]
fn boundary_mirrors_x_velocity_walls() {
    let n: usize = 6;
    let mut x = make_field(n * n, 0);
    for j in 1..n - 1 {
        x[idx(1, j, n)] = fx(0.5 + j as f64);
        x[idx(n - 2, j, n)] = fx(1.25 * j as f64 + 0.25);
    }
    let snapshot = x.clone();
    enforce_boundary(FieldKind::XVelocity, &mut x, n);
    for j in 1..n - 1 {
        assert_eq!(x[idx(0, j, n)], -snapshot[idx(1, j, n)]);
        assert_eq!(x[idx(n - 1, j, n)], -snapshot[idx(n - 2, j, n)]);
        assert_eq!(x[idx(j, 0, n)], snapshot[idx(j, 1, n)]);
        assert_eq!(x[idx(j, n - 1, n)], snapshot[idx(j, n - 2, n)]);
    }
}

#[test]
fn boundary_copies_scalar_walls() {
    let n: usize = 6;
    let mut x = make_field(n * n, 0);
    for j in 1..n - 1 {
        x[idx(1, j, n)] = fx(0.5 + j as f64);
        x[idx(n - 2, j, n)] = fx(2.0 * j as f64);
        x[idx(j, 1, n)] = fx(3.0 + j as f64);
        x[idx(j, n - 2, n)] = fx(4.0 + j as f64);
    }
    let snapshot = x.clone();
    enforce_boundary(FieldKind::Scalar, &mut x, n);
    for j in 1..n - 1 {
        assert_eq!(x[idx(0, j, n)], snapshot[idx(1, j, n)]);
        assert_eq!(x[idx(n - 1, j, n)], snapshot[idx(n - 2, j, n)]);
        assert_eq!(x[idx(j, 0, n)], snapshot[idx(j, 1, n)]);
        assert_eq!(x[idx(j, n - 1, n)], snapshot[idx(j, n - 2, n)]);
    }
    // Interior cells are untouched.
    for j in 1..n - 1 {
        for i in 1..n - 1 {
            assert_eq!(x[idx(i, j, n)], snapshot[idx(i, j, n)]);
        }
    }
}

#[test]
fn boundary_corner_is_mean_of_three() {
    let n: usize = 5;
    let mut x = make_field(n * n, 0);
    x[idx(1, 1, n)] = fx(3.0);
    x[idx(0, 0, n)] = fx(6.0);
    enforce_boundary(FieldKind::Scalar, &mut x, n);
    // Both adjacent wall cells copied fx(3.0); the corner had fx(6.0):
    // the corner becomes the truncated mean of the three.
    assert_eq!(x[idx(0, 0, n)], (fx(3.0) + fx(3.0) + fx(6.0)) / 3);
}

#[test]
fn injection_changes_exactly_one_cell() {
    let w: usize = 60;
    let mut m = make_field(w * w, 0);
    inject_density(&mut m, 5, 5, fx(1.0), w);
    for k in 0..w * w {
        if k == 5 + 5 * w {
            assert_eq!(m[k], fx(1.0));
        } else {
            assert_eq!(m[k], 0);
        }
    }
}

#[test]
fn velocity_injection_changes_one_cell_per_component() {
    let w: usize = 10;
    let mut u = make_field(w * w, fx(0.5));
    let mut v = make_field(w * w, 0);
    inject_velocity(&mut u, &mut v, 3, 7, fx(3.0), fx(-2.0), w);
    for k in 0..w * w {
        if k == 3 + 7 * w {
            assert_eq!(u[k], fx(3.5));
            assert_eq!(v[k], fx(-2.0));
        } else {
            assert_eq!(u[k], fx(0.5));
            assert_eq!(v[k], 0);
        }
    }
}

#[test]
fn fresh_model_has_zero_fields_and_unit_scratch_smoke() {
    let model = Model::new(50, fx(1000.0), fx(0.01));
    assert_eq!(model.num_x, 52);
    assert_eq!(model.num_y, 52);
    assert_eq!(model.num_cells, 52 * 52);
    assert_eq!(model.num, 50 * 50);
    assert_eq!(model.u.len(), 52 * 52);
    assert_eq!(model.new_m.len(), 52 * 52);
    for k in 0..model.num_cells {
        assert_eq!(model.u[k], 0);
        assert_eq!(model.v[k], 0);
        assert_eq!(model.p[k], 0);
        assert_eq!(model.s[k], 0);
        assert_eq!(model.m[k], 0);
        assert_eq!(model.new_m[k], FX_ONE);
    }
}

#[test]
fn scene_setup_marks_walls_solid_and_interior_open() {
    let num_x: usize = 7;
    let num_y: usize = 5;
    let mut s = make_field(num_x * num_y, fx(9.0));
    setup_scene(num_x, num_y, &mut s);
    for y in 0..num_y {
        for x in 0..num_x {
            let expected = if x == 0 || x == num_x - 1 || y == 0 || y == num_y - 1 {
                0
            } else {
                FX_ONE
            };
            assert_eq!(s[idx(x, y, num_x)], expected);
        }
    }
}

#[test]
fn pointer_maps_to_grid_cell_only_when_pressed_in_range() {
    // 50 cells of 4 pixels: the window is 200 pixels, centred at the origin.
    assert_eq!(mouse_clicked(true, 0, 0, 50, 4), Some((25, 25)));
    assert_eq!(mouse_clicked(true, -100, -100, 50, 4), Some((0, 0)));
    assert_eq!(mouse_clicked(true, 99, 99, 50, 4), Some((49, 49)));
    assert_eq!(mouse_clicked(false, 0, 0, 50, 4), None);
    assert_eq!(mouse_clicked(true, 250, 0, 50, 4), None);
    assert_eq!(mouse_clicked(true, -101, 0, 50, 4), None);
}
