use onzer::ingest::server::{
    authorize, check_import, exists_keys, import_response, ApiError, DEFAULT_PORT,
};
use onzer::library::importer::ImportOutcome;

const JETON: &str = "0123456789abcdef";

#[test]
fn un_jeton_valide_ouvre_l_api() {
    assert!(authorize(Some("Bearer 0123456789abcdef"), JETON).is_ok());
    assert!(authorize(Some("Bearer   0123456789abcdef  "), JETON).is_ok());
}

#[test]
fn un_jeton_absent_ou_faux_est_refuse() {
    let refus = ApiError { status: 401, message: "jeton absent ou invalide".to_string() };
    assert_eq!(authorize(None, JETON), Err(refus.clone()));
    assert_eq!(authorize(Some("0123456789abcdef"), JETON), Err(refus.clone()));
    assert_eq!(authorize(Some("bearer 0123456789abcdef"), JETON), Err(refus.clone()));
    assert_eq!(authorize(Some("Bearer 0123456789abcdeF"), JETON), Err(refus.clone()));
    assert_eq!(authorize(Some("Bearer "), JETON), Err(refus));
}

#[test]
fn un_jeton_vide_attendu_n_accepte_que_l_absence() {
    assert!(authorize(None, "").is_ok());
    assert!(authorize(Some("Basic abc"), "").is_ok());
}

#[test]
fn la_question_exists_exige_un_titre() {
    let erreur = exists_keys("  ", Some("Damso")).unwrap_err();
    assert_eq!(erreur.status, 400);
    assert_eq!(erreur.message, "le titre est obligatoire");

    let (titre, artiste) = exists_keys("Macarena", Some("DAMSO")).unwrap();
    assert_eq!(titre, "macarena");
    assert_eq!(artiste.as_deref(), Some("damso"));
    assert_eq!(exists_keys("Macarena", None).unwrap().1, None);
}

#[test]
fn un_import_est_verifie_dans_l_ordre() {
    assert_eq!(check_import(false, false, None, false).unwrap_err().status, 400);
    assert_eq!(check_import(true, false, Some("a.mp3"), true).unwrap_err().status, 404);
    let refus = check_import(true, true, Some("a.txt"), true).unwrap_err();
    assert_eq!(refus.status, 415);
    assert_eq!(refus.message, "extension audio non reconnue");
    assert_eq!(check_import(true, true, Some("._a.mp3"), true).unwrap_err().status, 415);
    let hors_ligne = check_import(true, true, Some("a.mp3"), false).unwrap_err();
    assert_eq!(hors_ligne.status, 503);
    assert_eq!(hors_ligne.message, "bibliothèque hors ligne — volume non monté");
    assert!(check_import(true, true, Some("a.flac"), true).is_ok());
}

#[test]
fn la_reponse_dit_ce_que_l_import_a_fait() {
    let importe = import_response(ImportOutcome::Imported {
        track_id: 3,
        relative_path: "D/a.mp3".to_string(),
    });
    assert_eq!(importe.outcome, "imported");
    assert_eq!(importe.relative_path.as_deref(), Some("D/a.mp3"));
    assert_eq!(importe.reason, None);

    let doublon = import_response(ImportOutcome::Duplicate { existing_id: 9, reason: "fichier identique" });
    assert_eq!(doublon.outcome, "duplicate");
    assert_eq!(doublon.track_id, 9);
    assert_eq!(doublon.relative_path, None);
    assert_eq!(doublon.reason, Some("fichier identique"));

    let restaure = import_response(ImportOutcome::Restored {
        track_id: 4,
        relative_path: "D/b.mp3".to_string(),
    });
    assert_eq!(restaure.outcome, "restored");
    assert_eq!(restaure.reason, Some("le morceau avait perdu son fichier"));
}

#[test]
fn le_port_par_defaut_est_fixe() {
    assert_eq!(DEFAULT_PORT, 47_811);
}
