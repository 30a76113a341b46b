use onzer::library::lyrics::{parse, parse_timestamp, Lyrics};

#[test]
fn analyse_des_paroles_synchronisees() {
    let lyrics = parse("[00:12.34]Première ligne\n[01:05.50]Deuxième ligne");

    assert!(lyrics.is_synced());
    assert_eq!(lyrics.synced.len(), 2);
    assert_eq!(lyrics.synced[0].at_ms, 12_340);
    assert_eq!(lyrics.synced[0].text, "Première ligne");
    assert_eq!(lyrics.synced[1].at_ms, 65_500);
}

#[test]
fn accepte_les_trois_precisions_dhorodatage() {
    assert_eq!(parse_timestamp("00:12"), Some(12_000));
    assert_eq!(parse_timestamp("00:12.5"), Some(12_500));
    assert_eq!(parse_timestamp("00:12.34"), Some(12_340));
    assert_eq!(parse_timestamp("00:12.345"), Some(12_345));
}

#[test]
fn refuse_ce_qui_nest_pas_un_horodatage() {
    assert_eq!(parse_timestamp("ar:Damso"), None);
    assert_eq!(parse_timestamp("bonjour"), None);
    assert_eq!(parse_timestamp("00:99"), None, "99 secondes n'existe pas");
    assert_eq!(parse_timestamp(""), None);
}

#[test]
fn les_metadonnees_ne_sont_pas_des_paroles() {
    let lyrics = parse("[ar:Damso]\n[ti:Macarena]\n[00:05.00]Vraie ligne");

    assert_eq!(lyrics.synced.len(), 1);
    assert_eq!(lyrics.plain, vec!["Vraie ligne"]);
}

#[test]
fn un_refrain_repete_est_place_a_chacun_de_ses_passages() {
    let lyrics = parse("[00:30.00][01:30.00][02:30.00]Refrain");

    assert_eq!(lyrics.synced.len(), 3);
    assert_eq!(lyrics.synced[2].at_ms, 150_000);
    assert!(lyrics.synced.iter().all(|line| line.text == "Refrain"));
}

#[test]
fn les_lignes_sont_triees_meme_si_le_fichier_ne_lest_pas() {
    let lyrics = parse("[02:00.00]Fin\n[00:10.00]Début\n[01:00.00]Milieu");

    let ordre: Vec<&str> = lyrics.synced.iter().map(|l| l.text.as_str()).collect();
    assert_eq!(ordre, vec!["Début", "Milieu", "Fin"]);
}

#[test]
fn des_paroles_simples_restent_exploitables() {
    let lyrics = parse("Première ligne\nDeuxième ligne\n\nTroisième");

    assert!(!lyrics.is_synced());
    assert_eq!(lyrics.plain.len(), 3, "les lignes vides sont écartées");
}

#[test]
fn un_texte_vide_ne_donne_rien() {
    assert!(parse("").is_empty());
    assert!(parse("   \n\n  ").is_empty());
}

#[test]
fn une_ligne_horodatee_sans_texte_est_conservee_dans_la_synchronisation() {
    let lyrics = parse("[00:00.00]\n[00:20.00]Première parole");

    assert_eq!(lyrics.synced.len(), 2);
    assert!(lyrics.synced[0].text.is_empty());
}

fn chanson() -> Lyrics {
    parse("[00:10.00]Un\n[00:20.00]Deux\n[00:30.00]Trois")
}

#[test]
fn trouve_la_ligne_en_cours() {
    let lyrics = chanson();

    assert_eq!(lyrics.line_at(15_000), Some(0));
    assert_eq!(lyrics.line_at(25_000), Some(1));
    assert_eq!(lyrics.line_at(999_000), Some(2));
}

#[test]
fn la_ligne_bascule_exactement_a_son_horodatage() {
    let lyrics = chanson();

    assert_eq!(lyrics.line_at(19_999), Some(0));
    assert_eq!(lyrics.line_at(20_000), Some(1));
}

#[test]
fn aucune_ligne_avant_la_premiere() {
    assert_eq!(chanson().line_at(0), None);
    assert_eq!(chanson().line_at(9_999), None);
}

#[test]
fn des_paroles_non_synchronisees_nont_pas_de_ligne_courante() {
    assert_eq!(parse("Juste du texte").line_at(10_000), None);
}

#[test]
fn le_suivi_reste_correct_sur_des_paroles_longues() {
    let raw: String = (0..300)
        .map(|index| format!("[{:02}:{:02}.00]Ligne {index}\n", index / 60, index % 60))
        .collect();

    let lyrics = parse(&raw);
    assert_eq!(lyrics.synced.len(), 300);
    assert_eq!(lyrics.line_at(150_000), Some(150));
}
