use insploray::base::{
    can_sample, is_diffuse, is_glossy, is_non_specular, is_reflective, is_specular, is_transmissive,
    reflection_transmission_flags, TransportMode, BSDF_FLAG_ALL, BSDF_FLAG_DIFFUSE,
    BSDF_FLAG_DIFFUSE_REFLECTION, BSDF_FLAG_DIFFUSE_TRANSMISSION, BSDF_FLAG_GLOSSY,
    BSDF_FLAG_GLOSSY_REFLECTION, BSDF_FLAG_SPECULAR, BSDF_FLAG_SPECULAR_TRANSMISSION,
    BXDF_FLAG_REFLECTION, BXDF_FLAG_TRANSMISSION, BXDF_FLAG_UNSET, BXDF_RT_FLAG_ALL,
    BXDF_RT_FLAG_REFLECTION, BXDF_RT_FLAG_TRANSMISSION,
};

#[test]
fn combined_flags_are_unions() {
    assert_eq!(BXDF_RT_FLAG_ALL, BXDF_RT_FLAG_REFLECTION | BXDF_RT_FLAG_TRANSMISSION);
    assert_eq!(BSDF_FLAG_DIFFUSE_REFLECTION, BSDF_FLAG_DIFFUSE | BXDF_FLAG_REFLECTION);
    assert_eq!(BSDF_FLAG_DIFFUSE_TRANSMISSION, BSDF_FLAG_DIFFUSE | BXDF_FLAG_TRANSMISSION);
    assert_eq!(BSDF_FLAG_GLOSSY_REFLECTION, BSDF_FLAG_GLOSSY | BXDF_FLAG_REFLECTION);
    assert_eq!(BSDF_FLAG_SPECULAR_TRANSMISSION, BSDF_FLAG_SPECULAR | BXDF_FLAG_TRANSMISSION);
    assert_eq!(BSDF_FLAG_ALL, 31);
}

#[test]
fn predicates_on_single_lobes() {
    assert!(is_reflective(BXDF_FLAG_REFLECTION));
    assert!(!is_transmissive(BXDF_FLAG_REFLECTION));
    assert!(is_transmissive(BXDF_FLAG_TRANSMISSION));
    assert!(is_diffuse(BSDF_FLAG_DIFFUSE));
    assert!(is_glossy(BSDF_FLAG_GLOSSY));
    assert!(is_specular(BSDF_FLAG_SPECULAR));
    assert!(!is_specular(BSDF_FLAG_DIFFUSE));
    assert!(!is_reflective(BXDF_FLAG_UNSET));
}

#[test]
fn non_specular_is_diffuse_or_glossy() {
    assert!(is_non_specular(BSDF_FLAG_DIFFUSE_REFLECTION));
    assert!(is_non_specular(BSDF_FLAG_GLOSSY_REFLECTION));
    assert!(!is_non_specular(BSDF_FLAG_SPECULAR_TRANSMISSION));
    assert!(!is_non_specular(BXDF_FLAG_UNSET));
    for f in 0u32..64 {
        assert_eq!(is_non_specular(f), is_diffuse(f) || is_glossy(f));
    }
}

#[test]
fn all_flags_have_every_lobe() {
    assert!(is_reflective(BSDF_FLAG_ALL));
    assert!(is_transmissive(BSDF_FLAG_ALL));
    assert!(is_diffuse(BSDF_FLAG_ALL));
    assert!(is_glossy(BSDF_FLAG_ALL));
    assert!(is_specular(BSDF_FLAG_ALL));
}

#[test]
fn diffuse_lobe_flags() {
    assert_eq!(reflection_transmission_flags(false, false), BXDF_FLAG_UNSET);
    assert_eq!(reflection_transmission_flags(true, false), BXDF_FLAG_REFLECTION);
    assert_eq!(reflection_transmission_flags(false, true), BXDF_FLAG_TRANSMISSION);
    assert_eq!(reflection_transmission_flags(true, true), 3);
    let f = reflection_transmission_flags(true, false);
    assert!(is_reflective(f) && !is_transmissive(f) && !is_diffuse(f));
}

#[test]
fn sampling_needs_a_shared_hemisphere() {
    assert!(can_sample(BXDF_FLAG_REFLECTION, BXDF_RT_FLAG_ALL));
    assert!(!can_sample(BXDF_FLAG_REFLECTION, BXDF_RT_FLAG_TRANSMISSION));
    assert!(can_sample(3, BXDF_RT_FLAG_TRANSMISSION));
    assert!(!can_sample(BXDF_FLAG_UNSET, BXDF_RT_FLAG_ALL));
}

#[test]
fn transport_mode_negation() {
    assert_eq!(!TransportMode::Radiance, TransportMode::Importance);
    assert_eq!(!TransportMode::Importance, TransportMode::Radiance);
    assert_eq!(!!TransportMode::Radiance, TransportMode::Radiance);
}
