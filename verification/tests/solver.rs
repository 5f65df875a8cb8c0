use stable_fluids::advect::advect;
use stable_fluids::boundary::FieldKind;
use stable_fluids::fixed::FX_ONE;
use stable_fluids::grid::idx;
use stable_fluids::grid::make_field;
use stable_fluids::inject::inject_density;
use stable_fluids::inject::inject_velocity;
use stable_fluids::linsolve::diffuse;
use stable_fluids::project::project;
use stable_fluids::staggered::advect_smoke;
use stable_fluids::staggered::advect_vel;
use stable_fluids::staggered::avg_u;
use stable_fluids::staggered::extrapolate;
use stable_fluids::staggered::integrate;
use stable_fluids::staggered::sample_field;
use stable_fluids::staggered::setup_scene;
use stable_fluids::staggered::solve_incompressibility;

fn fx(x: f64) -> i64 {
    (x * 65536.0).round() as i64
}

fn to_f(r: i64) -> f64 {
    r as f64 / 65536.0
}

#[test]
fn diffusion_with_zero_rate_keeps_the_interior() {
    let n: usize = 3;
    let x0 = vec![0, 0, 0, 0, fx(2.0), 0, 0, 0, 0];
    let mut x = vec![0i64; 9];
    diffuse(FieldKind::Scalar, &mut x, &x0, 0, fx(1.0 / 60.0), 4, n);
    // With a zero diffusion coefficient the update divides by one, so the
    // single interior cell takes the source value exactly, and the scalar
    // boundary policy copies it onto every wall.
    assert_eq!(x[idx(1, 1, n)], fx(2.0));
    assert_eq!(x[idx(0, 1, n)], fx(2.0));
    assert_eq!(x[idx(2, 1, n)], fx(2.0));
    assert_eq!(x[idx(1, 0, n)], fx(2.0));
    assert_eq!(x[idx(1, 2, n)], fx(2.0));
}

#[test]
fn advection_along_zero_velocity_is_identity_on_the_interior() {
    let n: usize = 16;
    let u = make_field(n * n, 0);
    let v = make_field(n * n, 0);
    let mut d0 = make_field(n * n, 0);
    for j in 1..n - 1 {
        for i in 1..n - 1 {
            d0[idx(i, j, n)] = fx(0.25) * ((i * 7 + j * 3) as i64 % 11);
        }
    }
    let mut d = make_field(n * n, fx(9.0));
    advect(FieldKind::Scalar, &mut d, &d0, &u, &v, fx(1.0 / 60.0), n);
    for j in 1..n - 1 {
        for i in 1..n - 1 {
            assert_eq!(d[idx(i, j, n)], d0[idx(i, j, n)]);
        }
    }
}

#[test]
fn total_density_is_non_increasing_without_forcing() {
    // Diffusion only dissipates: with zero gravity, zero injection and an
    // all-open mask, the total density never grows over many frames.
    let n: usize = 20;
    let mut m = make_field(n * n, 0);
    for j in 6..14 {
        for i in 6..14 {
            m[idx(i, j, n)] = fx(1.0);
        }
    }
    let mut total: i64 = m.iter().sum();
    for _ in 0..30 {
        let m0 = m.clone();
        diffuse(FieldKind::Scalar, &mut m, &m0, fx(0.001), fx(1.0 / 60.0), 4, n);
        let next: i64 = m.iter().sum();
        assert!(next <= total, "total density grew: {} -> {}", to_f(total), to_f(next));
        total = next;
    }
}

#[test]
fn interior_divergence_vanishes_after_incompressibility_solve() {
    let num_x: usize = 20;
    let num_y: usize = 20;
    let mut s = make_field(num_x * num_y, 0);
    setup_scene(num_x, num_y, &mut s);
    let mut u = make_field(num_x * num_y, 0);
    let mut v = make_field(num_x * num_y, 0);
    let mut p = make_field(num_x * num_y, 0);
    for j in 1..num_y - 1 {
        for i in 1..num_x - 1 {
            u[idx(i, j, num_x)] = fx(0.01) * ((i * 13 + j * 5) as i64 % 17 - 8);
            v[idx(i, j, num_x)] = fx(0.01) * ((i * 3 + j * 11) as i64 % 13 - 6);
        }
    }
    solve_incompressibility(
        num_x,
        num_y,
        fx(1000.0),
        fx(0.01),
        &s,
        &mut v,
        &mut u,
        &mut p,
        FX_ONE,
        300,
        fx(1.0 / 60.0),
    );
    // Each interior cell with all four face neighbours open must be
    // divergence-free up to a small epsilon.  The fixed-point corrections
    // truncate toward zero, which leaves a quantisation floor of a few
    // dozen raw units however many sweeps run, so the epsilon here is that
    // floor (about 1e-3) rather than the tighter tolerance a float solver
    // would reach.
    let eps = fx(1e-3);
    for j in 2..num_y - 2 {
        for i in 2..num_x - 2 {
            let div = (u[idx(i + 1, j, num_x)] - u[idx(i, j, num_x)])
                + (v[idx(i, j + 1, num_x)] - v[idx(i, j, num_x)]);
            assert!(
                div.abs() <= eps,
                "divergence at ({}, {}) is {}",
                i,
                j,
                to_f(div)
            );
        }
    }
}

#[test]
fn enclosed_cells_are_skipped_by_the_incompressibility_solve() {
    // A single open cell walled in on all four sides gets no correction,
    // and solid cells are never touched: the whole state is unchanged.
    let num_x: usize = 5;
    let num_y: usize = 5;
    let mut s = make_field(num_x * num_y, 0);
    s[idx(2, 2, num_x)] = FX_ONE;
    let mut u = make_field(num_x * num_y, fx(0.5));
    let mut v = make_field(num_x * num_y, fx(-0.25));
    let mut p = make_field(num_x * num_y, 0);
    let u_before = u.clone();
    let v_before = v.clone();
    solve_incompressibility(
        num_x,
        num_y,
        fx(1000.0),
        fx(0.01),
        &s,
        &mut v,
        &mut u,
        &mut p,
        fx(1.9),
        50,
        fx(1.0 / 60.0),
    );
    assert_eq!(u, u_before);
    assert_eq!(v, v_before);
    assert!(p.iter().all(|&x| x == 0));
}

#[test]
fn gravity_accelerates_open_cells_only() {
    let num_x: usize = 6;
    let num_y: usize = 6;
    let mut s = make_field(num_x * num_y, 0);
    setup_scene(num_x, num_y, &mut s);
    let mut v = make_field(num_x * num_y, 0);
    let dt = fx(0.5);
    let gravity = fx(-9.0);
    integrate(num_x, num_y, &s, &mut v, dt, gravity);
    for y in 0..num_y {
        for x in 0..num_x {
            // A cell accelerates exactly when it and the cell below it are
            // both open fluid.
            let open = |a: usize, b: usize| s[idx(a, b, num_x)] != 0;
            let expected = if x >= 1 && y >= 1 && y < num_y - 1 && open(x, y) && open(x, y - 1) {
                fx(-4.5)
            } else {
                0
            };
            assert_eq!(v[idx(x, y, num_x)], expected);
        }
    }
}

#[test]
fn extrapolation_copies_halo_lines() {
    let num_x: usize = 5;
    let num_y: usize = 4;
    let mut u = make_field(num_x * num_y, 0);
    let mut v = make_field(num_x * num_y, 0);
    for x in 0..num_x {
        u[idx(x, 1, num_x)] = fx(1.0 + x as f64);
        u[idx(x, num_y - 2, num_x)] = fx(-2.0 * x as f64);
    }
    for y in 0..num_y {
        v[idx(1, y, num_x)] = fx(0.5 + y as f64);
        v[idx(num_x - 2, y, num_x)] = fx(7.0 - y as f64);
    }
    let u_before = u.clone();
    let v_before = v.clone();
    extrapolate(num_x, num_y, &mut u, &mut v);
    for x in 0..num_x {
        assert_eq!(u[idx(x, 0, num_x)], u_before[idx(x, 1, num_x)]);
        assert_eq!(u[idx(x, num_y - 1, num_x)], u_before[idx(x, num_y - 2, num_x)]);
    }
    for y in 0..num_y {
        assert_eq!(v[idx(0, y, num_x)], v_before[idx(1, y, num_x)]);
        assert_eq!(v[idx(num_x - 1, y, num_x)], v_before[idx(num_x - 2, y, num_x)]);
    }
}

#[test]
fn face_average_is_the_mean_of_four_values() {
    let num_x: usize = 4;
    let num_y: usize = 4;
    let mut u = make_field(num_x * num_y, 0);
    u[idx(1, 0, num_x)] = fx(1.0);
    u[idx(1, 1, num_x)] = fx(2.0);
    u[idx(2, 0, num_x)] = fx(3.0);
    u[idx(2, 1, num_x)] = fx(6.0);
    assert_eq!(avg_u(&u, 1, 1, num_x, num_y), fx(3.0));
}

#[test]
fn sampling_a_scalar_at_a_cell_centre_is_exact() {
    // With a unit grid spacing all the sampling arithmetic is exact, so a
    // cell-centre position returns the stored value unchanged.
    let num_x: usize = 8;
    let num_y: usize = 8;
    let h = FX_ONE;
    let mut f = make_field(num_x * num_y, 0);
    f[idx(3, 4, num_x)] = fx(5.25);
    let x = 3 * h + h / 2;
    let y = 4 * h + h / 2;
    assert_eq!(
        sample_field(FieldKind::Scalar, &f, x, y, h, num_x, num_y),
        fx(5.25)
    );
}

#[test]
fn staggered_advection_with_zero_velocity_keeps_the_smoke() {
    let num_x: usize = 10;
    let num_y: usize = 10;
    let h = FX_ONE;
    let mut s = make_field(num_x * num_y, 0);
    setup_scene(num_x, num_y, &mut s);
    let u = make_field(num_x * num_y, 0);
    let v = make_field(num_x * num_y, 0);
    let mut m = make_field(num_x * num_y, 0);
    for j in 1..num_y - 1 {
        for i in 1..num_x - 1 {
            m[idx(i, j, num_x)] = fx(0.125) * ((i + 2 * j) as i64 % 7);
        }
    }
    let m_before = m.clone();
    let mut new_m = make_field(num_x * num_y, 0);
    advect_smoke(
        fx(1.0 / 60.0),
        h,
        num_x,
        num_y,
        &mut new_m,
        &mut m,
        &s,
        &u,
        &v,
    );
    assert_eq!(m, m_before);
}

#[test]
fn staggered_velocity_advection_keeps_a_uniform_field() {
    // A constant velocity field is a fixed point of semi-Lagrangian
    // advection up to sampling truncation; with zero velocity it is exact.
    let num_x: usize = 8;
    let num_y: usize = 8;
    let h = FX_ONE;
    let mut s = make_field(num_x * num_y, 0);
    setup_scene(num_x, num_y, &mut s);
    let mut u = make_field(num_x * num_y, 0);
    let mut v = make_field(num_x * num_y, 0);
    let mut new_u = make_field(num_x * num_y, 0);
    let mut new_v = make_field(num_x * num_y, 0);
    advect_vel(
        fx(1.0 / 60.0),
        &mut new_u,
        &mut new_v,
        &mut u,
        &mut v,
        &s,
        num_x,
        num_y,
        h,
    );
    assert!(u.iter().all(|&x| x == 0));
    assert!(v.iter().all(|&x| x == 0));
}

#[test]
fn injected_smoke_spreads_but_stays_the_local_peak() {
    // One frame on a 60-by-60 grid with dt = 1/60: inject density 0.03 and
    // velocity (3.0, 3.0) at cell (30, 30), run diffuse, project and advect
    // once.  The injected cell must lose density to dissipation yet remain
    // the single highest cell of its 3-by-3 neighbourhood, and the
    // neighbourhood must carry some velocity.
    let n: usize = 60;
    let dt = fx(1.0 / 60.0);
    let mut u = make_field(n * n, 0);
    let mut v = make_field(n * n, 0);
    let mut p = make_field(n * n, 0);
    let mut div = make_field(n * n, 0);
    let mut m = make_field(n * n, 0);

    inject_density(&mut m, 30, 30, fx(0.03), n);
    inject_velocity(&mut u, &mut v, 30, 30, fx(3.0), fx(3.0), n);
    let injected = m[idx(30, 30, n)];

    let u0 = u.clone();
    diffuse(FieldKind::XVelocity, &mut u, &u0, fx(1.0), dt, 4, n);
    let v0 = v.clone();
    diffuse(FieldKind::YVelocity, &mut v, &v0, fx(1.0), dt, 4, n);
    project(&mut u, &mut v, &mut p, &mut div, 40, n);
    let m0 = m.clone();
    diffuse(FieldKind::Scalar, &mut m, &m0, fx(0.1), dt, 4, n);
    let m1 = m.clone();
    let mut m2 = make_field(n * n, 0);
    advect(FieldKind::Scalar, &mut m2, &m1, &u, &v, dt, n);

    let centre = m2[idx(30, 30, n)];
    assert!(centre < injected, "density did not dissipate");
    assert!(centre > 0, "density vanished entirely");
    let mut velocity_sum: i64 = 0;
    for dy in 0..3 {
        for dx in 0..3 {
            let i = 29 + dx;
            let j = 29 + dy;
            if !(i == 30 && j == 30) {
                assert!(
                    m2[idx(i, j, n)] < centre,
                    "neighbour ({}, {}) holds {} >= centre {}",
                    i,
                    j,
                    to_f(m2[idx(i, j, n)]),
                    to_f(centre)
                );
            }
            velocity_sum += u[idx(i, j, n)].abs() + v[idx(i, j, n)].abs();
        }
    }
    assert!(velocity_sum > 0, "the neighbourhood carries no velocity");
}

#[test]
fn projection_leaves_a_uniform_velocity_field_alone() {
    // A constant velocity field has zero discrete divergence everywhere, so
    // the Poisson solve stays at zero and no correction is applied: the
    // interior is exactly unchanged (only the walls are re-enforced).
    let n: usize = 12;
    let mut u = make_field(n * n, fx(0.75));
    let mut v = make_field(n * n, fx(-0.5));
    let mut p = make_field(n * n, fx(3.0));
    let mut div = make_field(n * n, fx(4.0));
    project(&mut u, &mut v, &mut p, &mut div, 20, n);
    for j in 1..n - 1 {
        for i in 1..n - 1 {
            assert_eq!(u[idx(i, j, n)], fx(0.75));
            assert_eq!(v[idx(i, j, n)], fx(-0.5));
            assert_eq!(div[idx(i, j, n)], 0);
            assert_eq!(p[idx(i, j, n)], 0);
        }
    }
    // The x-velocity walls mirror the interior with the sign flipped.
    assert_eq!(u[idx(0, 4, n)], -fx(0.75));
    assert_eq!(u[idx(n - 1, 4, n)], -fx(0.75));
    assert_eq!(v[idx(4, 0, n)], fx(0.5));
    assert_eq!(v[idx(4, n - 1, n)], fx(0.5));
}

#[test]
fn correction_weights_read_the_true_upper_neighbour() {
    // The open-neighbour stencil of a cell is (i-1,j), (i+1,j), (i,j-1)
    // and (i,j+1).  With only the upper neighbour (i,j+1) walled off, the
    // correction must leave the face shared with that neighbour untouched
    // and spread the divergence over the three open faces.
    let num_x: usize = 5;
    let num_y: usize = 5;
    let mut s = make_field(num_x * num_y, FX_ONE);
    s[idx(2, 3, num_x)] = 0;
    let mut u = make_field(num_x * num_y, 0);
    let mut v = make_field(num_x * num_y, 0);
    let mut p = make_field(num_x * num_y, 0);
    // One divergent cell: outflow through the right face only.
    u[idx(3, 2, num_x)] = fx(0.9);
    let v_top_before = v[idx(2, 3, num_x)];
    solve_incompressibility(
        num_x,
        num_y,
        fx(1000.0),
        fx(0.01),
        &s,
        &mut v,
        &mut u,
        &mut p,
        FX_ONE,
        1,
        fx(1.0 / 60.0),
    );
    // The face into the solid upper neighbour of (2, 2) is unchanged; the
    // divergence went into the three open faces instead.
    assert_eq!(v[idx(2, 3, num_x)], v_top_before);
    assert!(u[idx(2, 2, num_x)] != 0);
    assert!(v[idx(2, 2, num_x)] != 0);
}

#[test]
fn diffusion_formula_gives_the_exact_implicit_update() {
    // One interior cell, rate a = dt * diff * (n-2)^2 = 0.5 * 0.5 * 1 =
    // 0.25, denominator 1 + 4a = 2: a single sweep computes
    // (x0 + 0.25 * neighbours) / 2 = (2.0 + 0) / 2 = 1.0 exactly, and the
    // scalar boundary pass copies it onto the walls; each corner becomes
    // the truncated mean of its two walls and its old zero value.
    let n: usize = 3;
    let x0 = vec![0, 0, 0, 0, fx(2.0), 0, 0, 0, 0];
    let mut x = vec![0i64; 9];
    diffuse(FieldKind::Scalar, &mut x, &x0, fx(0.5), fx(0.5), 1, n);
    assert_eq!(x[idx(1, 1, n)], fx(1.0));
    assert_eq!(x[idx(0, 1, n)], fx(1.0));
    assert_eq!(x[idx(1, 0, n)], fx(1.0));
    assert_eq!(x[idx(2, 1, n)], fx(1.0));
    assert_eq!(x[idx(1, 2, n)], fx(1.0));
    assert_eq!(x[idx(0, 0, n)], (fx(1.0) + fx(1.0) + 0) / 3);
}

#[test]
fn divergence_formula_gives_the_exact_stored_value() {
    // div[2,2] = -((u[3,2] - u[1,2]) + (v[2,3] - v[2,1])) / (2n)
    //          = -(0.8 / 12), truncated toward zero.
    let n: usize = 6;
    let mut u = make_field(n * n, 0);
    let mut v = make_field(n * n, 0);
    let mut p = make_field(n * n, 0);
    let mut div = make_field(n * n, 0);
    u[idx(3, 2, n)] = fx(0.8);
    project(&mut u, &mut v, &mut p, &mut div, 0, n);
    assert_eq!(div[idx(2, 2, n)], -(fx(0.8) / 12));
    assert_eq!(div[idx(4, 2, n)], fx(0.8) / 12);
}

#[test]
fn advection_samples_half_way_between_two_cells_exactly() {
    // With dt * (n-2) = 0.125 * 4 = 0.5 and a unit x-velocity, cell (2, 2)
    // back-traces half a cell to the left and blends its two sources with
    // equal weight: (2.0 + 4.0) / 2 = 3.0, exactly in fixed point.
    let n: usize = 6;
    let mut u = make_field(n * n, 0);
    let v = make_field(n * n, 0);
    let mut d0 = make_field(n * n, 0);
    for j in 1..n - 1 {
        for i in 1..n - 1 {
            u[idx(i, j, n)] = fx(1.0);
        }
    }
    d0[idx(1, 2, n)] = fx(2.0);
    d0[idx(2, 2, n)] = fx(4.0);
    let mut d = make_field(n * n, 0);
    advect(FieldKind::Scalar, &mut d, &d0, &u, &v, fx(0.125), n);
    assert_eq!(d[idx(2, 2, n)], fx(3.0));
}
