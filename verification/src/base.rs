//! Scattering-lobe flags of BxDFs and the transport mode of a path.

use vstd::prelude::*;

verus! {

/// Which hemispheres a sample may be drawn from.
pub type BxDFReflTransFlags = u32;

pub const BXDF_RT_FLAG_UNSET: BxDFReflTransFlags = 0;
pub const BXDF_RT_FLAG_REFLECTION: BxDFReflTransFlags = 1;
pub const BXDF_RT_FLAG_TRANSMISSION: BxDFReflTransFlags = 2;
pub const BXDF_RT_FLAG_ALL: BxDFReflTransFlags = 3;

/// The lobes of a BxDF: one bit each for reflection, transmission,
/// diffuse, glossy and specular.
pub type BxDFFlags = u32;

pub const BXDF_FLAG_UNSET: BxDFFlags = 0;
pub const BXDF_FLAG_REFLECTION: BxDFFlags = 1;
pub const BXDF_FLAG_TRANSMISSION: BxDFFlags = 2;
pub const BSDF_FLAG_DIFFUSE: BxDFFlags = 4;
pub const BSDF_FLAG_GLOSSY: BxDFFlags = 8;
pub const BSDF_FLAG_SPECULAR: BxDFFlags = 16;

pub const BSDF_FLAG_DIFFUSE_REFLECTION: BxDFFlags = 5;
pub const BSDF_FLAG_DIFFUSE_TRANSMISSION: BxDFFlags = 6;
pub const BSDF_FLAG_GLOSSY_REFLECTION: BxDFFlags = 9;
pub const BSDF_FLAG_GLOSSY_TRANSMISSION: BxDFFlags = 10;
pub const BSDF_FLAG_SPECULAR_REFLECTION: BxDFFlags = 17;
pub const BSDF_FLAG_SPECULAR_TRANSMISSION: BxDFFlags = 18;

pub const BSDF_FLAG_ALL: BxDFFlags = 31;

/// The combined flags are the unions of the single-lobe bits.
pub proof fn lemma_combined_flags()
    ensures
        BXDF_RT_FLAG_ALL == BXDF_RT_FLAG_REFLECTION | BXDF_RT_FLAG_TRANSMISSION,
        BSDF_FLAG_DIFFUSE_REFLECTION == BSDF_FLAG_DIFFUSE | BXDF_FLAG_REFLECTION,
        BSDF_FLAG_DIFFUSE_TRANSMISSION == BSDF_FLAG_DIFFUSE | BXDF_FLAG_TRANSMISSION,
        BSDF_FLAG_GLOSSY_REFLECTION == BSDF_FLAG_GLOSSY | BXDF_FLAG_REFLECTION,
        BSDF_FLAG_GLOSSY_TRANSMISSION == BSDF_FLAG_GLOSSY | BXDF_FLAG_TRANSMISSION,
        BSDF_FLAG_SPECULAR_REFLECTION == BSDF_FLAG_SPECULAR | BXDF_FLAG_REFLECTION,
        BSDF_FLAG_SPECULAR_TRANSMISSION == BSDF_FLAG_SPECULAR | BXDF_FLAG_TRANSMISSION,
        BSDF_FLAG_ALL == BXDF_FLAG_REFLECTION | BXDF_FLAG_TRANSMISSION | BSDF_FLAG_DIFFUSE
            | BSDF_FLAG_GLOSSY | BSDF_FLAG_SPECULAR,
{
    assert(3u32 == 1u32 | 2u32) by (bit_vector);
    assert(5u32 == 4u32 | 1u32) by (bit_vector);
    assert(6u32 == 4u32 | 2u32) by (bit_vector);
    assert(9u32 == 8u32 | 1u32) by (bit_vector);
    assert(10u32 == 8u32 | 2u32) by (bit_vector);
    assert(17u32 == 16u32 | 1u32) by (bit_vector);
    assert(18u32 == 16u32 | 2u32) by (bit_vector);
    assert(31u32 == 1u32 | 2u32 | 4u32 | 8u32 | 16u32) by (bit_vector);
}

/// Bit `k` of `f`.
pub open spec fn has_bit(f: u32, k: u32) -> bool {
    (f >> k) & 1 == 1
}

pub fn is_reflective(f: BxDFFlags) -> (r: bool)
    ensures
        r == has_bit(f, 0),
{
    assert(f & 1 != 0 <==> (f >> 0u32) & 1 == 1) by (bit_vector);
    f & BXDF_FLAG_REFLECTION != 0
}

pub fn is_transmissive(f: BxDFFlags) -> (r: bool)
    ensures
        r == has_bit(f, 1),
{
    assert(f & 2 != 0 <==> (f >> 1u32) & 1 == 1) by (bit_vector);
    f & BXDF_FLAG_TRANSMISSION != 0
}

pub fn is_diffuse(f: BxDFFlags) -> (r: bool)
    ensures
        r == has_bit(f, 2),
{
    assert(f & 4 != 0 <==> (f >> 2u32) & 1 == 1) by (bit_vector);
    f & BSDF_FLAG_DIFFUSE != 0
}

pub fn is_specular(f: BxDFFlags) -> (r: bool)
    ensures
        r == has_bit(f, 4),
{
    assert(f & 16 != 0 <==> (f >> 4u32) & 1 == 1) by (bit_vector);
    f & BSDF_FLAG_SPECULAR != 0
}

pub fn is_glossy(f: BxDFFlags) -> (r: bool)
    ensures
        r == has_bit(f, 3),
{
    assert(f & 8 != 0 <==> (f >> 3u32) & 1 == 1) by (bit_vector);
    f & BSDF_FLAG_GLOSSY != 0
}

/// A lobe is non-specular when it is diffuse or glossy.
pub fn is_non_specular(f: BxDFFlags) -> (r: bool)
    ensures
        r == (has_bit(f, 2) || has_bit(f, 3)),
{
    assert(4u32 | 8u32 == 12u32) by (bit_vector);
    assert(f & 12 != 0 <==> ((f >> 2u32) & 1 == 1 || (f >> 3u32) & 1 == 1)) by (bit_vector);
    f & (BSDF_FLAG_DIFFUSE | BSDF_FLAG_GLOSSY) != 0
}

/// The flags of a BxDF made of a reflection lobe when `reflects` and a
/// transmission lobe when `transmits`, and of nothing else.
pub fn reflection_transmission_flags(reflects: bool, transmits: bool) -> (f: BxDFFlags)
    ensures
        f == (if reflects { BXDF_FLAG_REFLECTION } else { BXDF_FLAG_UNSET }) + (if transmits {
            BXDF_FLAG_TRANSMISSION
        } else {
            BXDF_FLAG_UNSET
        }),
        has_bit(f, 0) == reflects,
        has_bit(f, 1) == transmits,
        !has_bit(f, 2) && !has_bit(f, 3) && !has_bit(f, 4),
{
    let r: u32 = if reflects { BXDF_FLAG_REFLECTION } else { BXDF_FLAG_UNSET };
    let t: u32 = if transmits { BXDF_FLAG_TRANSMISSION } else { BXDF_FLAG_UNSET };
    let f = r | t;
    assert(f == r + t && ((f >> 0u32) & 1 == 1) == (r == 1) && ((f >> 1u32) & 1 == 1) == (t == 2)
        && (f >> 2u32) & 1 == 0 && (f >> 3u32) & 1 == 0 && (f >> 4u32) & 1 == 0) by (bit_vector)
        requires
            r == 0 || r == 1,
            t == 0 || t == 2,
            f == r | t,
    ;
    f
}

/// Whether a BxDF with lobes `flags` can be sampled for the hemispheres in
/// `sample_flags`: they must share a bit.
pub fn can_sample(flags: BxDFFlags, sample_flags: BxDFReflTransFlags) -> (r: bool)
    ensures
        r == (flags & sample_flags != 0),
{
    flags & sample_flags != 0
}

/// The bounds of a shape.
pub struct Bounds;

/// Whether light (radiance) or importance is carried along a path.
#[derive(Clone, Copy, PartialEq, Eq, Structural, Debug)]
pub enum TransportMode {
    Radiance,
    Importance,
}

impl TransportMode {
    /// The other mode.
    pub open spec fn flipped(self) -> TransportMode {
        match self {
            TransportMode::Radiance => TransportMode::Importance,
            TransportMode::Importance => TransportMode::Radiance,
        }
    }
}

impl core::ops::Not for TransportMode {
    type Output = TransportMode;

    fn not(self) -> (r: TransportMode)
        ensures
            r == self.flipped(),
    {
        match self {
            TransportMode::Radiance => TransportMode::Importance,
            TransportMode::Importance => TransportMode::Radiance,
        }
    }
}

impl vstd::std_specs::ops::NotSpecImpl for TransportMode {
    open spec fn obeys_not_spec() -> bool {
        true
    }

    open spec fn not_req(self) -> bool {
        true
    }

    open spec fn not_spec(self) -> TransportMode {
        self.flipped()
    }
}

/// Negating a transport mode twice gives it back, and negation always
/// changes it.
pub proof fn lemma_transport_mode_not_involutive(m: TransportMode)
    ensures
        m.flipped().flipped() == m,
        m.flipped() != m,
{
}

} // verus!
