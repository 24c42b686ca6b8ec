use vstd::prelude::*;

verus! {

/// A diffuse material, which scatters every ray it is hit by and attenuates
/// it by its albedo. The colour type is the renderer's own.
pub struct Lambertian<C> {
    pub albedo: C,
}

impl<C: Copy> Lambertian<C> {
    /// Constructs a diffuse material of the given albedo.
    pub fn new(color: C) -> (r: Lambertian<C>)
        ensures
            r.albedo == color,
    {
        Lambertian { albedo: color }
    }

    /// The diffuse scattering rule. The candidate direction is the surface
    /// normal perturbed by a random unit vector; when it is degenerate (near
    /// zero in every component) the normal itself is taken instead. The
    /// attenuation is the albedo, unconditionally.
    pub fn scatter_toward<V: Copy>(&self, normal: V, candidate: V, candidate_degenerate: bool) -> (r:
        (C, V))
        ensures
            r.0 == self.albedo,
            r.1 == if candidate_degenerate {
                normal
            } else {
                candidate
            },
    {
        if candidate_degenerate {
            (self.albedo, normal)
        } else {
            (self.albedo, candidate)
        }
    }
}

} // verus!
