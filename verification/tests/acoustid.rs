use onzer::identify::acoustid::{
    best_match, read_answer, AcoustIdClient, AcoustIdError, LookupResult, MIN_SCORE_KEY,
};
use onzer::identify::fingerprint::Fingerprint;

/// The order key of a score: that of `f64::total_cmp`.
fn cle(score: f64) -> u64 {
    let bits = score.to_bits();
    if bits >> 63 == 1 {
        !bits
    } else {
        bits | (1 << 63)
    }
}

fn score(key: u64) -> f64 {
    if key >> 63 == 1 {
        f64::from_bits(key & !(1 << 63))
    } else {
        f64::from_bits(!key)
    }
}

const MIN_SCORE: f64 = 0.5;

fn result(score: f64, ids: &[&str]) -> LookupResult {
    LookupResult {
        score_key: cle(score),
        recordings: Some(ids.iter().map(|id| (*id).to_string()).collect()),
    }
}

#[test]
fn la_cle_d_ordre_suit_les_scores() {
    assert_eq!(cle(MIN_SCORE), MIN_SCORE_KEY);
    assert!(cle(0.49) < cle(0.5));
    assert!(cle(0.0) < cle(0.01));
    assert!(cle(-1.0) < cle(0.0));
    assert_eq!(score(cle(0.97)), 0.97);
}

#[test]
fn retient_la_correspondance_la_mieux_notee() {
    let resultats = vec![
        result(0.62, &["faible"]),
        result(0.97, &["forte"]),
        result(0.71, &["moyenne"]),
    ];

    let retenu = best_match(&resultats).unwrap();
    assert_eq!(retenu.recording_mbid, "forte");
    assert!((score(retenu.score_key) - 0.97).abs() < 1e-9);
}

#[test]
fn ne_fait_pas_confiance_a_lordre_de_la_reponse() {
    let resultats = vec![result(0.55, &["premier"]), result(0.99, &["meilleur"])];

    assert_eq!(best_match(&resultats).unwrap().recording_mbid, "meilleur");
}

#[test]
fn ecarte_les_correspondances_peu_sures() {
    let resultats = vec![result(0.49, &["douteuse"]), result(0.2, &["hasardeuse"])];

    assert!(best_match(&resultats).is_none());
}

#[test]
fn le_seuil_est_inclusif() {
    assert!(best_match(&[result(MIN_SCORE, &["limite"])]).is_some());
}

#[test]
fn ignore_les_resultats_sans_enregistrement() {
    let resultats = vec![
        LookupResult { score_key: cle(0.99), recordings: None },
        result(0.6, &["utilisable"]),
    ];

    assert_eq!(best_match(&resultats).unwrap().recording_mbid, "utilisable");
}

#[test]
fn ignore_les_identifiants_vides() {
    let resultats = vec![result(0.99, &["", "valide"])];
    assert_eq!(best_match(&resultats).unwrap().recording_mbid, "valide");
}

#[test]
fn une_reponse_vide_ne_donne_aucune_correspondance() {
    assert!(best_match(&[]).is_none());
}

#[test]
fn a_egalite_la_derniere_correspondance_l_emporte() {
    let resultats = vec![result(0.8, &["premiere"]), result(0.8, &["seconde"])];
    assert_eq!(best_match(&resultats).unwrap().recording_mbid, "seconde");
}

#[test]
fn une_cle_vide_est_refusee_des_la_construction() {
    assert!(AcoustIdClient::new(String::new()).is_err());
    assert!(AcoustIdClient::new("   ".to_string()).is_err());
    assert!(AcoustIdClient::new("cle-valide".to_string()).is_ok());
}

#[test]
fn la_requete_porte_la_cle_la_duree_et_l_empreinte() {
    let client = AcoustIdClient::new("  cle  ".to_string()).ok().unwrap();
    let empreinte = Fingerprint { encoded: "AQAA-_x".to_string(), duration_seconds: 215 };

    assert_eq!(
        client.lookup_url(&empreinte),
        "https://api.acoustid.org/v2/lookup?client=cle&format=json&meta=recordingids&duration=215&fingerprint=AQAA-_x"
    );
}

#[test]
fn une_reponse_en_erreur_porte_son_message() {
    let erreur = read_answer("error", Some("invalid fingerprint".to_string()), &[]).unwrap_err();
    assert_eq!(erreur, AcoustIdError::Service("invalid fingerprint".to_string()));
    assert_eq!(erreur.message(), "AcoustID : invalid fingerprint");
    assert_eq!(
        AcoustIdError::MissingKey.message(),
        "clé AcoustID absente — à renseigner dans les réglages"
    );
    assert_eq!(read_answer("error", None, &[]).unwrap_err(), AcoustIdError::Service(String::new()));
}

#[test]
fn une_reponse_valide_donne_la_meilleure_correspondance() {
    let resultats = vec![result(0.7, &["a"]), result(0.9, &["b"])];
    let retenu = read_answer("ok", None, &resultats).unwrap().unwrap();
    assert_eq!(retenu.recording_mbid, "b");
    assert_eq!(read_answer("ok", None, &[]).unwrap(), None);
}
