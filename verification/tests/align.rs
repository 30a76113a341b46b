use onzer::library::align::{align, stamp, HeardWord};
use onzer::library::lyrics::is_synced_text;

fn heard(mots: &[(i64, &str)]) -> Vec<HeardWord> {
    mots.iter()
        .map(|(at_ms, text)| HeardWord {
            at_ms: *at_ms,
            text: (*text).to_string(),
        })
        .collect()
}

#[test]
fn un_refrain_est_date_a_son_premier_passage() {
    let paroles = "Refrain ici\nCouplet apres";
    let entendu = heard(&[
        (1000, "refrain"),
        (1400, "ici"),
        (20000, "refrain"),
        (20400, "ici"),
        (25000, "couplet"),
        (25400, "apres"),
    ]);

    let lrc = align(paroles, &entendu).unwrap();
    assert!(lrc.starts_with("[00:01.00]"), "{lrc}");
}

#[test]
fn les_mots_affiches_restent_ceux_des_paroles() {
    let paroles = "J'm'arrache à lire\nDes livres anciens";
    let entendu = heard(&[
        (1000, "je"),
        (1200, "marrache"),
        (1400, "a"),
        (1600, "lire"),
        (3000, "des"),
        (3200, "livres"),
        (3400, "anciens"),
    ]);

    let lrc = align(paroles, &entendu).expect("alignement");

    assert!(lrc.contains("J'm'arrache à lire"), "{lrc}");
    assert!(!lrc.contains("marrache"), "{lrc}");
}

#[test]
fn chaque_ligne_recoit_l_instant_de_son_premier_mot() {
    let paroles = "Premiere ligne\nDeuxieme ligne";
    let entendu = heard(&[
        (1000, "premiere"),
        (1500, "ligne"),
        (4000, "deuxieme"),
        (4500, "ligne"),
    ]);

    let lrc = align(paroles, &entendu).unwrap();
    let lignes: Vec<&str> = lrc.lines().collect();

    assert!(lignes[0].starts_with("[00:01.00]"), "{lrc}");
    assert!(lignes[1].starts_with("[00:04.00]"), "{lrc}");
}

#[test]
fn un_mot_mal_entendu_ne_decale_pas_la_suite() {
    let paroles = "Le soleil brille\nLa nuit tombe";
    let entendu = heard(&[
        (1000, "le"),
        (1200, "soleil"),
        (1400, "brillait"),
        (5000, "la"),
        (5200, "nuit"),
        (5400, "tombe"),
    ]);

    let lrc = align(paroles, &entendu).unwrap();
    assert!(lrc.lines().nth(1).unwrap().starts_with("[00:05.00]"), "{lrc}");
}

#[test]
fn une_ligne_sautee_est_replacee_entre_ses_voisines() {
    let paroles = "Debut\nRefrain inaudible\nFin";
    let entendu = heard(&[(1000, "debut"), (9000, "fin")]);

    let lrc = align(paroles, &entendu).unwrap();
    let milieu = lrc.lines().nth(1).unwrap();

    assert!(milieu.starts_with("[00:05."), "interpolé au milieu : {lrc}");
}

#[test]
fn les_horodatages_ne_reculent_jamais() {
    let paroles = "Une\nDeux\nTrois";
    let entendu = heard(&[(5000, "une"), (2000, "deux"), (9000, "trois")]);

    let lrc = align(paroles, &entendu).unwrap();
    let temps: Vec<&str> = lrc.lines().map(|l| &l[1..9]).collect();

    assert!(temps.windows(2).all(|pair| pair[0] <= pair[1]), "{lrc}");
}

#[test]
fn une_transcription_etrangere_est_refusee() {
    let paroles = "J'm'arrache à lire des livres anciens";
    let entendu = heard(&[(1000, "hello"), (2000, "world"), (3000, "goodbye")]);

    assert!(align(paroles, &entendu).is_none());
}

#[test]
fn des_entrees_vides_ne_produisent_rien() {
    assert!(align("", &heard(&[(0, "mot")])).is_none());
    assert!(align("Des paroles", &[]).is_none());
}

#[test]
fn l_horodatage_respecte_le_format_lrc() {
    assert_eq!(stamp(0), "[00:00.00]");
    assert_eq!(stamp(61_230), "[01:01.23]");
    assert_eq!(stamp(-5), "[00:00.00]");
}

#[test]
fn le_resultat_est_relisible_par_l_analyseur() {
    let paroles = "Premiere ligne\nDeuxieme ligne";
    let entendu = heard(&[(1000, "premiere"), (1200, "ligne"), (4000, "deuxieme")]);

    let lrc = align(paroles, &entendu).unwrap();
    assert!(is_synced_text(&lrc), "{lrc}");
}

#[test]
fn l_alignement_complet_donne_le_texte_attendu() {
    let paroles = "  Premiere ligne  \r\n\n Deuxieme ligne\n";
    let entendu = heard(&[(1000, "premiere"), (1500, "ligne"), (4000, "deuxieme"), (4500, "ligne")]);

    assert_eq!(
        align(paroles, &entendu).unwrap(),
        "[00:01.00]Premiere ligne\n[00:04.00]Deuxieme ligne"
    );
}

#[test]
fn une_ligne_inconnue_en_fin_avance_vers_le_dernier_mot() {
    let paroles = "Debut\nFin\nCoda muette";
    let entendu = heard(&[(1000, "debut"), (3000, "fin"), (7000, "bruit")]);

    let lrc = align(paroles, &entendu).unwrap();
    let lignes: Vec<&str> = lrc.lines().collect();
    assert_eq!(lignes[2], "[00:05.00]Coda muette");
}

#[test]
fn les_longues_durees_gardent_toutes_les_minutes() {
    assert_eq!(stamp(6_000_000), "[100:00.00]");
    assert_eq!(stamp(59_999), "[00:59.99]");
}

#[test]
fn un_quart_des_mots_suffit() {
    let paroles = "un deux trois quatre";
    let entendu = heard(&[(2000, "un"), (2500, "autre"), (3000, "chose"), (3500, "encore")]);

    assert_eq!(align(paroles, &entendu).unwrap(), "[00:02.00]un deux trois quatre");
}
