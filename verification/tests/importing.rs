use onzer::library::importer::{
    after_lookup, collision_candidate, import_mode, numbered_candidate, prunable, should_look_up,
    Dedup, Found, Lookup, MAX_COPY_NUMBER,
};

fn noms(list: &[&str]) -> Vec<String> {
    list.iter().map(|name| (*name).to_string()).collect()
}

#[test]
fn le_premier_nom_essaye_est_celui_voulu() {
    assert_eq!(
        collision_candidate("Daft Punk/Intro.flac", 0).as_deref(),
        Some("Daft Punk/Intro.flac")
    );
}

#[test]
fn les_copies_sont_numerotees_a_partir_de_deux() {
    assert_eq!(
        collision_candidate("Daft Punk/Intro.flac", 1).as_deref(),
        Some("Daft Punk/Intro (2).flac")
    );
    assert_eq!(
        collision_candidate("Daft Punk/Intro.flac", 97).as_deref(),
        Some("Daft Punk/Intro (98).flac")
    );
    assert_eq!(
        collision_candidate("Daft Punk/Intro.flac", MAX_COPY_NUMBER - 1).as_deref(),
        Some("Daft Punk/Intro (99).flac")
    );
}

#[test]
fn au_dela_de_quatre_vingt_dix_neuf_copies_on_renonce() {
    assert_eq!(collision_candidate("Intro.flac", MAX_COPY_NUMBER), None);
    assert_eq!(collision_candidate("Intro.flac", u32::MAX), None);
}

#[test]
fn un_nom_sans_extension_est_numerote_a_la_fin() {
    assert_eq!(numbered_candidate("Intro", 2), "Intro (2)");
    assert_eq!(numbered_candidate("Intro.", 3), "Intro (3)");
    assert_eq!(numbered_candidate("Artiste/Album.v2/Intro.mp3", 4), "Artiste/Album.v2/Intro (4).mp3");
}

#[test]
fn un_doublon_present_arrete_l_import() {
    let trouve = Some(Found { track_id: 7, file_missing: false });
    assert_eq!(
        after_lookup(Lookup::Audio, trouve, None),
        Dedup::Duplicate { existing_id: 7, reason: "même audio, tags différents" }
    );
    assert_eq!(
        after_lookup(Lookup::Content, trouve, None),
        Dedup::Duplicate { existing_id: 7, reason: "fichier identique" }
    );
    assert_eq!(
        after_lookup(Lookup::Tags, trouve, None),
        Dedup::Duplicate { existing_id: 7, reason: "même titre et même durée" }
    );
}

#[test]
fn un_doublon_sans_fichier_est_restaure_et_non_ecarte() {
    let perdu = Some(Found { track_id: 12, file_missing: true });
    assert_eq!(after_lookup(Lookup::Audio, perdu, None), Dedup::Proceed { restore: Some(12) });
    assert!(!should_look_up(Lookup::Content, Some(12)));
    assert!(!should_look_up(Lookup::Tags, Some(12)));
}

#[test]
fn sans_correspondance_l_import_continue() {
    assert_eq!(after_lookup(Lookup::Content, None, None), Dedup::Proceed { restore: None });
    assert!(should_look_up(Lookup::Audio, None));
    assert!(should_look_up(Lookup::Content, None));
    assert!(should_look_up(Lookup::Tags, None));
}

#[test]
fn le_journal_distingue_l_import_automatique() {
    assert_eq!(import_mode("auto_import"), "api");
    assert_eq!(import_mode("manual"), "manual");
    assert_eq!(import_mode("scan"), "manual");
}

#[test]
fn un_dossier_ne_contenant_que_nos_traces_peut_partir() {
    assert!(prunable(&noms(&[])));
    assert!(prunable(&noms(&["cover.jpg", ".DS_Store", "._cover.jpg"])));
}

#[test]
fn tout_autre_fichier_arrete_le_nettoyage() {
    assert!(!prunable(&noms(&["cover.jpg", "notes.txt"])));
    assert!(!prunable(&noms(&["Cover.jpg"])));
    assert!(!prunable(&noms(&[".cache"])));
}

use onzer::library::rebuild::{archive_candidate, is_spared, MAX_ARCHIVE_NUMBER};
use onzer::library::repair::{from_inbox, recovers_origin, recovery_order};
use onzer::library::scanner::{is_inbox, FileResult, ScanSummary, MAX_REPORTED_ERRORS};

#[test]
fn le_depot_l_archive_et_les_fichiers_caches_restent_en_place() {
    assert!(is_spared("_Inbox"));
    assert!(is_spared("_Ancien"));
    assert!(is_spared(".DS_Store"));
    assert!(!is_spared("Daft Punk"));
    assert!(!is_spared("_inbox"));
}

#[test]
fn une_seconde_archive_se_range_a_cote_de_la_premiere() {
    assert_eq!(archive_candidate("Daft Punk", 0).as_deref(), Some("Daft Punk"));
    assert_eq!(archive_candidate("Daft Punk", 1).as_deref(), Some("Daft Punk (2)"));
    assert_eq!(archive_candidate("a.b", 2).as_deref(), Some("a.b (3)"));
    assert_eq!(
        archive_candidate("x", MAX_ARCHIVE_NUMBER - 1).as_deref(),
        Some("x (999)")
    );
    assert_eq!(archive_candidate("x", MAX_ARCHIVE_NUMBER), None);
}

#[test]
fn le_scan_n_entre_pas_dans_le_depot() {
    assert!(is_inbox(Some("_Inbox")));
    assert!(!is_inbox(Some("Inbox")));
    assert!(!is_inbox(None));
}

#[test]
fn seule_la_copie_du_depot_porte_des_tags_fiables() {
    assert!(from_inbox(&noms(&["Musique", "_Inbox", "_Doublons", "a.mp3"])));
    assert!(!from_inbox(&noms(&["Musique", "Daft Punk", "a.mp3"])));
    assert!(!from_inbox(&noms(&[])));
}

#[test]
fn le_bilan_compte_chaque_fichier() {
    let mut bilan = ScanSummary::starting(3);
    bilan.record(FileResult::Imported);
    bilan.record(FileResult::Duplicate);
    bilan.record(FileResult::Failed("a.mp3 : illisible".to_string()));

    assert_eq!(bilan.total, 3);
    assert_eq!(bilan.imported, 1);
    assert_eq!(bilan.duplicates, 1);
    assert_eq!(bilan.failed, 1);
    assert_eq!(bilan.errors, vec!["a.mp3 : illisible".to_string()]);

    let progression = bilan.progress(3, "a.mp3".to_string());
    assert_eq!(progression.processed, 3);
    assert_eq!(progression.total, 3);
    assert_eq!(progression.failed, 1);
    assert_eq!(progression.current, "a.mp3");
}

#[test]
fn les_erreurs_rapportees_sont_plafonnees() {
    let mut bilan = ScanSummary::starting(100);
    for index in 0..30 {
        bilan.record(FileResult::Failed(format!("{index}")));
    }
    assert_eq!(bilan.failed, 30);
    assert_eq!(bilan.errors.len(), MAX_REPORTED_ERRORS);
    assert_eq!(bilan.errors[0], "0");
    assert_eq!(bilan.errors[MAX_REPORTED_ERRORS - 1], "19");
}

use onzer::library::sidecar::adoptable;

#[test]
fn seules_les_paroles_horodatees_sont_rattachees() {
    assert_eq!(adoptable("  [00:01.00]Une ligne \n").as_deref(), Some("[00:01.00]Une ligne"));
    assert_eq!(adoptable("Une ligne sans horodatage"), None);
    assert_eq!(adoptable("   \n"), None);
}

#[test]
fn les_copies_du_depot_sont_lues_en_dernier() {
    assert_eq!(recovery_order(&[true, false, true, false]), vec![1, 3, 0, 2]);
    assert_eq!(recovery_order(&[false, false]), vec![0, 1]);
    assert_eq!(recovery_order(&[]), Vec::<usize>::new());
}

#[test]
fn une_copie_de_bibliotheque_ne_comble_qu_un_vide() {
    // Rien en mémoire : toute copie comble le vide.
    assert!(recovers_origin(false, None, None, "carmen", Some("Stromae")));
    // Une copie de bibliothèque ne corrige pas.
    assert!(!recovers_origin(false, Some("carmen"), Some("Stromae"), "Dieu ne ment jamais", Some("Damso")));
    // Une copie du dépôt corrige ce qu'une copie de bibliothèque a mal rempli.
    assert!(recovers_origin(true, Some("carmen"), Some("Stromae"), "Dieu ne ment jamais", Some("Damso")));
    assert!(recovers_origin(true, Some("carmen"), Some("Stromae"), "carmen", Some("Damso")));
    // Rien ne change : rien n'est réécrit, un artiste absent valant un artiste vide.
    assert!(!recovers_origin(true, Some("carmen"), Some("Stromae"), "carmen", Some("Stromae")));
    assert!(!recovers_origin(true, Some("carmen"), None, "carmen", Some("")));
}
