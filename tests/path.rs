use raytracer::path::{after_probe, begin_path, PathStep, SurfaceEvent};

#[test]
fn no_depth_left_is_black() {
    assert_eq!(begin_path(0), PathStep::Black);
}

#[test]
fn depth_left_probes_the_world() {
    assert_eq!(begin_path(50), PathStep::Probe { depth: 50 });
}

#[test]
fn miss_shows_the_background() {
    assert_eq!(after_probe(5, SurfaceEvent::Missed), PathStep::Background);
    assert_eq!(after_probe(1, SurfaceEvent::Missed), PathStep::Background);
}

#[test]
fn absorbed_ray_is_black() {
    assert_eq!(after_probe(5, SurfaceEvent::Absorbed), PathStep::Black);
}

#[test]
fn scattered_ray_goes_on_one_level_down() {
    assert_eq!(
        after_probe(5, SurfaceEvent::Scattered),
        PathStep::Probe { depth: 4 }
    );
    assert_eq!(after_probe(1, SurfaceEvent::Scattered), PathStep::Black);
}

#[test]
fn path_makes_at_most_depth_probes() {
    let depth = 3;
    let mut step = begin_path(depth);
    let mut probes = 0;
    while let PathStep::Probe { depth } = step {
        probes += 1;
        step = after_probe(depth, SurfaceEvent::Scattered);
    }
    assert_eq!(probes, 3);
    assert_eq!(step, PathStep::Black);
}
