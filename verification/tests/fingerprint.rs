use onzer::identify::fingerprint::fingerprint_of_raw;
use onzer::identify::fingerprint::{fingerprint_samples, FingerprintError, FINGERPRINT_SAMPLE_RATE};

/// Mono 16-bit samples at the fingerprint rate, with a rich harmonic content:
/// a fingerprint of silence would prove nothing.
fn echantillons(seconds: f32, base_hz: f32) -> Vec<i16> {
    let rate = FINGERPRINT_SAMPLE_RATE as f32;
    let count = (seconds * rate) as u32;
    (0..count)
        .map(|index| {
            let t = index as f32 / rate;
            let value = ((std::f32::consts::TAU * base_hz * t).sin() * 0.5
                + (std::f32::consts::TAU * base_hz * 2.0 * t).sin() * 0.3
                + (std::f32::consts::TAU * (base_hz * 1.5 + (t * 2.0).sin() * 20.0) * t).sin()
                    * 0.2)
                * 8000.0;
            value as i16
        })
        .collect()
}

#[test]
fn produit_une_empreinte_non_vide() {
    let fingerprint =
        fingerprint_samples(FINGERPRINT_SAMPLE_RATE, &echantillons(15.0, 440.0), 15).unwrap();

    assert!(!fingerprint.encoded.is_empty());
    assert!(
        fingerprint.encoded.len() > 40,
        "empreinte suspecte de brièveté : {}",
        fingerprint.encoded.len()
    );
}

#[test]
fn lempreinte_est_deterministe() {
    let premiere =
        fingerprint_samples(FINGERPRINT_SAMPLE_RATE, &echantillons(15.0, 440.0), 15).unwrap();
    let seconde =
        fingerprint_samples(FINGERPRINT_SAMPLE_RATE, &echantillons(15.0, 440.0), 15).unwrap();

    assert_eq!(premiere.encoded, seconde.encoded);
}

#[test]
fn deux_sons_differents_ont_des_empreintes_differentes() {
    let premiere =
        fingerprint_samples(FINGERPRINT_SAMPLE_RATE, &echantillons(15.0, 440.0), 15).unwrap();
    let seconde =
        fingerprint_samples(FINGERPRINT_SAMPLE_RATE, &echantillons(15.0, 587.0), 15).unwrap();

    assert_ne!(premiere.encoded, seconde.encoded);
}

#[test]
fn la_duree_transmise_est_celle_du_morceau_entier() {
    let fingerprint =
        fingerprint_samples(FINGERPRINT_SAMPLE_RATE, &echantillons(20.0, 440.0), 245).unwrap();

    assert_eq!(fingerprint.duration_seconds, 245);
}

#[test]
fn lempreinte_reste_url_safe() {
    let fingerprint =
        fingerprint_samples(FINGERPRINT_SAMPLE_RATE, &echantillons(15.0, 440.0), 15).unwrap();

    assert!(
        fingerprint
            .encoded
            .chars()
            .all(|c| c.is_ascii_alphanumeric() || c == '-' || c == '_'),
        "caractère invalide dans {}",
        fingerprint.encoded
    );
}

#[test]
fn echoue_proprement_sur_un_extrait_trop_court() {
    assert!(fingerprint_samples(FINGERPRINT_SAMPLE_RATE, &echantillons(0.5, 440.0), 1).is_err());
}

#[test]
fn sans_echantillon_il_n_y_a_pas_d_empreinte() {
    let erreur = fingerprint_samples(FINGERPRINT_SAMPLE_RATE, &[], 0).unwrap_err();
    assert_eq!(erreur, FingerprintError::NoSamples);
    assert_eq!(erreur.message(), "aucun échantillon à empreindre");
}

#[test]
fn une_frequence_trop_basse_est_refusee() {
    let erreur = fingerprint_samples(10, &echantillons(1.0, 440.0), 1).unwrap_err();
    assert!(matches!(erreur, FingerprintError::Unusable(_)));
    assert!(erreur.message().starts_with("empreinte impossible : "));
}

#[test]
fn une_empreinte_brute_vide_est_refusee() {
    assert!(matches!(fingerprint_of_raw(&[], 10), Err(FingerprintError::Empty)));
    let f = fingerprint_of_raw(&[1, 2, 3], 10).unwrap();
    assert_eq!(f.duration_seconds, 10);
    assert!(!f.encoded.is_empty());
}
