use raytracer::material::Lambertian;

#[test]
fn lambertian_keeps_its_albedo() {
    let m = Lambertian::new((0.5f64, 0.25f64, 0.125f64));
    assert_eq!(m.albedo, (0.5, 0.25, 0.125));
}

#[test]
fn lambertian_scatters_along_the_candidate() {
    let m = Lambertian::new((0.4f64, 0.2f64, 0.1f64));
    let normal = (0.0f64, 1.0f64, 0.0f64);
    let candidate = (0.3f64, 1.2f64, -0.4f64);
    assert_eq!(
        m.scatter_toward(normal, candidate, false),
        ((0.4, 0.2, 0.1), candidate)
    );
}

#[test]
fn lambertian_falls_back_to_the_normal() {
    let m = Lambertian::new((0.4f64, 0.2f64, 0.1f64));
    let normal = (0.0f64, 1.0f64, 0.0f64);
    let candidate = (1e-9f64, -1e-9f64, 0.0f64);
    assert_eq!(
        m.scatter_toward(normal, candidate, true),
        ((0.4, 0.2, 0.1), normal)
    );
}
