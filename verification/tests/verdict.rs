use onzer::identify::verdict::search_title;
use onzer::identify::verdict::{hit_candidate, NameHit};
use onzer::identify::verdict::{accepts, assess, compare, first_accepted, Agreement, CandidateEvidence, FileEvidence, STRONG_SCORE_KEY};

/// The order key of a score, as `f64::total_cmp` orders.
fn cle(score: f64) -> u64 {
    let bits = score.to_bits();
    if bits >> 63 == 1 {
        !bits
    } else {
        bits | (1 << 63)
    }
}

fn avec_score(candidat: &mut CandidateEvidence, score: f64) {
    candidat.score_key = cle(score);
    candidat.confidence = format!("{:.0}", score * 100.0);
}

fn fichier(artiste: &str, titre: &str, duree_ms: i64) -> FileEvidence {
    FileEvidence {
        title: Some(titre.to_string()),
        artist: Some(artiste.to_string()),
        duration_ms: duree_ms,
    }
}

fn candidat(artiste: &str, titre: &str, duree_ms: i64) -> CandidateEvidence {
    let mut candidat = CandidateEvidence {
        title: titre.to_string(),
        artist: Some(artiste.to_string()),
        length_ms: Some(duree_ms),
        release_count: 3,
        ..Default::default()
    };
    avec_score(&mut candidat, 0.95);
    candidat
}

#[test]
fn le_seuil_de_confiance_forte_est_celui_de_0_9() {
    assert_eq!(cle(0.9), STRONG_SCORE_KEY);
}

#[test]
fn refuse_la_fiche_youtube_qui_a_renomme_damso_en_stromae() {
    let fichier = fichier("Damso", "Dieu ne ment jamais", 215_000);
    let mut candidat = candidat("Stromae", "carmen (Clip Officiel)", 217_000);
    candidat.release_count = 0;

    let verdict = assess(&fichier, &candidat);
    assert!(!verdict.is_accepted());
    assert!(verdict.note().contains("sans parution"), "{}", verdict.note());
    assert_eq!(
        verdict.note(),
        "fiche sans parution et tags contradictoires : le fichier annonçait « Damso — Dieu ne ment jamais », \
         la correspondance propose « Stromae — carmen (Clip Officiel) »"
    );
}

#[test]
fn accepte_macarena_de_damso() {
    let verdict = assess(
        &fichier("Damso", "Macarena", 206_000),
        &candidat("Damso", "Macarena", 208_000),
    );

    assert!(verdict.is_accepted());
    assert_eq!(verdict.note(), "confiance 95 % — artiste et titre confirmés par les tags du fichier");
}

#[test]
fn refuse_une_duree_incompatible_meme_avec_des_tags_concordants() {
    let verdict = assess(
        &fichier("Daft Punk", "Aerodynamic", 212_000),
        &candidat("Daft Punk", "Aerodynamic", 420_000),
    );

    assert!(!verdict.is_accepted());
    assert!(verdict.note().contains("durée"));
    assert_eq!(
        verdict.note(),
        "durée incompatible : le fichier dure 3:32, l'enregistrement 7:00"
    );
}

#[test]
fn tolere_les_ecarts_de_quelques_secondes() {
    for ecart in [0, 1_000, 4_000, 6_999] {
        let verdict = assess(
            &fichier("Damso", "Macarena", 206_000),
            &candidat("Damso", "Macarena", 206_000 + ecart),
        );
        assert!(verdict.is_accepted(), "écart de {ecart} ms refusé à tort");
    }
}

#[test]
fn l_ecart_tolere_est_inclusif_de_part_et_d_autre() {
    assert!(assess(&fichier("Damso", "Macarena", 206_000), &candidat("Damso", "Macarena", 213_000)).is_accepted());
    assert!(assess(&fichier("Damso", "Macarena", 206_000), &candidat("Damso", "Macarena", 199_000)).is_accepted());
    assert!(!assess(&fichier("Damso", "Macarena", 206_000), &candidat("Damso", "Macarena", 198_999)).is_accepted());
}

#[test]
fn une_duree_inconnue_nempeche_pas_didentifier() {
    let mut sans_duree = candidat("Damso", "Macarena", 0);
    sans_duree.length_ms = None;

    assert!(assess(&fichier("Damso", "Macarena", 206_000), &sans_duree).is_accepted());
}

#[test]
fn un_fichier_sans_tags_sen_remet_a_lempreinte() {
    let muet = FileEvidence {
        title: None,
        artist: None,
        duration_ms: 206_000,
    };

    let verdict = assess(&muet, &candidat("Damso", "Macarena", 206_000));
    assert!(verdict.is_accepted());
    assert!(verdict.note().contains("pas de tags"));
}

#[test]
fn une_confiance_ecrasante_corrige_des_tags_faux() {
    let mut sur = candidat("Damso", "Macarena", 206_000);
    avec_score(&mut sur, 0.98);

    let verdict = assess(&fichier("Inconnu", "Piste 03", 206_000), &sur);
    assert!(verdict.is_accepted());
    assert!(verdict.note().contains("corriger"));
}

#[test]
fn une_confiance_moyenne_ne_suffit_pas_a_contredire_le_fichier() {
    let mut moyen = candidat("Stromae", "Alors on danse", 206_000);
    avec_score(&mut moyen, 0.7);

    let mut tres_sur = moyen.clone();
    avec_score(&mut tres_sur, 0.95);

    let fichier = fichier("Damso", "Macarena", 206_000);
    let refus = assess(&fichier, &moyen);
    assert!(!refus.is_accepted());
    assert_eq!(
        refus.note(),
        "confiance 70 % insuffisante pour contredire les tags du fichier (Damso — Macarena)"
    );
    assert!(assess(&fichier, &tres_sur).is_accepted());
}

#[test]
fn le_titre_seul_suffit_a_corroborer() {
    let verdict = assess(
        &fichier("", "Macarena", 206_000),
        &candidat("Damso", "Macarena", 206_000),
    );

    assert!(verdict.is_accepted());
}

#[test]
fn une_fiche_sans_parution_passe_si_les_tags_confirment() {
    let mut inedit = candidat("Damso", "Macarena", 206_000);
    inedit.release_count = 0;

    assert!(assess(&fichier("Damso", "Macarena", 206_000), &inedit).is_accepted());
}

#[test]
fn la_comparaison_distingue_les_cas() {
    let muet = FileEvidence { title: None, artist: None, duration_ms: 0 };
    assert_eq!(compare(&muet, &candidat("Damso", "Macarena", 0)), Agreement::Silent);
    assert_eq!(
        compare(&fichier("Damso", "Autre", 0), &candidat("Damso", "Macarena", 0)),
        Agreement::Artist
    );
    assert_eq!(
        compare(&fichier("Autre", "Macarena", 0), &candidat("Damso", "Macarena", 0)),
        Agreement::Title
    );
    assert_eq!(
        compare(&fichier("Damso", "Macarena", 0), &candidat("DAMSO", "macarena", 0)),
        Agreement::Both
    );
    assert_eq!(
        compare(&fichier("Stromae", "Papaoutai", 0), &candidat("Damso", "Macarena", 0)),
        Agreement::Contradicts
    );
}

#[test]
fn le_repli_par_nom_prend_le_premier_candidat_accepte() {
    let fichier = fichier("Damso", "Macarena", 200_000);
    let mut sans_parution = candidat("Stromae", "carmen", 200_000);
    sans_parution.release_count = 0;
    let trop_long = candidat("Damso", "Macarena", 260_000);
    let bon = candidat("Damso", "Macarena", 201_000);
    let autre_bon = candidat("Damso", "Macarena (Live)", 202_000);
    let candidats = vec![sans_parution, trop_long, bon, autre_bon];

    assert!(!accepts(&fichier, &candidats[0]));
    assert!(!accepts(&fichier, &candidats[1]));
    assert!(accepts(&fichier, &candidats[2]));
    assert_eq!(first_accepted(&fichier, &candidats, 0), Some(2));
    assert_eq!(first_accepted(&fichier, &candidats, 3), Some(3));
    assert_eq!(first_accepted(&fichier, &candidats, 4), None);
    assert_eq!(first_accepted(&fichier, &candidats[..2].to_vec(), 0), None);
}

#[test]
fn accepter_sans_raison_rejoint_le_verdict() {
    let fichier = fichier("Damso", "Macarena", 200_000);
    let mut c = candidat("Stromae", "carmen", 200_000);
    for (parutions, score) in [(0, 0.95), (3, 0.5), (3, 0.95)] {
        c.release_count = parutions;
        avec_score(&mut c, score);
        assert_eq!(accepts(&fichier, &c), assess(&fichier, &c).is_accepted());
    }
    let extreme = FileEvidence { title: None, artist: None, duration_ms: i64::MAX };
    let mut loin = candidat("Damso", "Macarena", i64::MIN);
    loin.artist = None;
    assert!(!accepts(&extreme, &loin));
}

#[test]
fn un_titre_vide_n_envoie_pas_de_recherche() {
    let mut f = fichier("Damso", "  Macarena ", 200_000);
    assert_eq!(search_title(&f).as_deref(), Some("  Macarena "));
    f.title = Some("   ".into());
    assert_eq!(search_title(&f), None);
    f.title = None;
    assert_eq!(search_title(&f), None);
}

#[test]
fn un_resultat_par_nom_passe_devant_le_meme_juge_avec_une_parution() {
    let hit = NameHit {
        recording_mbid: "abc".into(),
        title: "Macarena".into(),
        artist: Some("Damso".into()),
        length_ms: Some(201_000),
        score_key: cle(0.8),
        confidence: "80".into(),
    };
    let c = hit_candidate(&hit);
    assert_eq!(c.title, "Macarena");
    assert_eq!(c.artist.as_deref(), Some("Damso"));
    assert_eq!(c.length_ms, Some(201_000));
    assert_eq!(c.release_count, 1);
    assert_eq!(c.score_key, cle(0.8));
    assert_eq!(c.confidence, "80");
    assert!(assess(&fichier("Damso", "Macarena", 200_000), &c).is_accepted());
}
