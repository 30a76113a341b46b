use onzer::ingest::inbox::StabilityTracker;

fn chemin(nom: &str) -> String {
    format!("/inbox/{nom}")
}

fn observer_n_fois(tracker: &mut StabilityTracker, path: &str, size: u64, n: u32) -> Vec<String> {
    let mut signales = Vec::new();
    for _ in 0..n {
        signales.extend(tracker.observe(&[(path.to_string(), size)]));
    }
    signales
}

#[test]
fn un_fichier_vu_une_seule_fois_nest_pas_importe() {
    let mut tracker = StabilityTracker::default();
    let ready = tracker.observe(&[(chemin("a.mp3"), 1000)]);

    assert!(ready.is_empty(), "une seule observation ne prouve pas que le fichier est complet");
}

#[test]
fn un_fichier_de_taille_stable_finit_par_etre_importe() {
    let mut tracker = StabilityTracker::default();
    let ready = observer_n_fois(&mut tracker, &chemin("a.mp3"), 1000, 5);

    assert_eq!(ready, vec![chemin("a.mp3")]);
}

#[test]
fn un_fichier_est_pret_a_la_troisieme_inspection() {
    let mut tracker = StabilityTracker::default();
    let fichier = chemin("a.mp3");

    assert!(tracker.observe(&[(fichier.clone(), 10)]).is_empty());
    assert!(tracker.observe(&[(fichier.clone(), 10)]).is_empty());
    assert_eq!(tracker.observe(&[(fichier.clone(), 10)]), vec![fichier]);
}

#[test]
fn un_telechargement_en_cours_nest_jamais_importe() {
    let mut tracker = StabilityTracker::default();

    for taille in [1000, 2000, 3000, 4000, 5000, 6000, 7000, 8000] {
        let ready = tracker.observe(&[(chemin("gros.mp3"), taille)]);
        assert!(ready.is_empty(), "un fichier qui grossit encore ne doit jamais être importé");
    }
}

#[test]
fn une_reprise_de_telechargement_remet_le_compteur_a_zero() {
    let mut tracker = StabilityTracker::default();
    let fichier = chemin("pause.mp3");

    tracker.observe(&[(fichier.clone(), 5000)]);
    tracker.observe(&[(fichier.clone(), 5000)]);

    let ready = tracker.observe(&[(fichier.clone(), 9000)]);
    assert!(ready.is_empty());

    let ready = tracker.observe(&[(fichier.clone(), 9000)]);
    assert!(ready.is_empty(), "le compteur doit être reparti de zéro");
}

#[test]
fn un_fichier_dont_limport_echoue_nest_jamais_retente_en_boucle() {
    let mut tracker = StabilityTracker::default();
    let fichier = chemin("corrompu.mp3");

    let signales = observer_n_fois(&mut tracker, &fichier, 1000, 20);

    assert_eq!(signales, vec![fichier]);
}

#[test]
fn un_fichier_remplace_redevient_eligible() {
    let mut tracker = StabilityTracker::default();
    let fichier = chemin("a.mp3");

    assert_eq!(observer_n_fois(&mut tracker, &fichier, 1000, 5).len(), 1);

    let signales = observer_n_fois(&mut tracker, &fichier, 4000, 5);

    assert_eq!(signales, vec![fichier], "un fichier remplacé doit être réimporté");
}

#[test]
fn un_fichier_retire_puis_redepose_redevient_eligible() {
    let mut tracker = StabilityTracker::default();
    let fichier = chemin("a.mp3");

    assert_eq!(observer_n_fois(&mut tracker, &fichier, 1000, 5).len(), 1);

    tracker.observe(&[]);
    assert_eq!(tracker.pending(), 0);

    assert_eq!(observer_n_fois(&mut tracker, &fichier, 1000, 5).len(), 1);
}

#[test]
fn oublie_les_fichiers_disparus() {
    let mut tracker = StabilityTracker::default();

    tracker.observe(&[(chemin("a.mp3"), 1), (chemin("b.mp3"), 2)]);
    assert_eq!(tracker.pending(), 2);

    tracker.observe(&[(chemin("a.mp3"), 1)]);
    assert_eq!(tracker.pending(), 1, "la table ne doit pas enfler sans fin");
}

#[test]
fn suit_plusieurs_fichiers_independamment() {
    let mut tracker = StabilityTracker::default();
    let stable = chemin("fini.mp3");
    let en_cours = chemin("encours.mp3");

    let mut signales = Vec::new();
    for tour in 0..5_u64 {
        signales.extend(tracker.observe(&[
            (stable.clone(), 1000),
            (en_cours.clone(), 1000 + tour * 500),
        ]));
    }

    assert_eq!(signales, vec![stable]);
}
