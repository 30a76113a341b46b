use onzer::identify::catalog::{similarity, Ratio};

fn note(left: &str, right: &str) -> f64 {
    let Ratio { numerator, denominator } = similarity(left, right);
    numerator as f64 / denominator as f64
}

#[test]
fn un_featuring_ne_fait_pas_baisser_la_note() {
    assert!(note("De la lune (feat. Shadi)", "De la lune") > 0.95);
    assert!(note("Macarena (Clip Officiel)", "Macarena") > 0.95);
}

#[test]
fn une_parenthese_utile_est_conservee() {
    assert!(note("Ipséité (Part. 2)", "Ipséité") < 0.9);
}

#[test]
fn deux_titres_etrangers_ne_se_ressemblent_pas() {
    assert!(note("Drapeau noir", "L'insolence des élus") < 0.2);
}

#[test]
fn les_accents_ne_separent_pas() {
    assert_eq!(note("L'étrangère", "L'etrangere"), 1.0);
}

#[test]
fn la_ressemblance_est_un_coefficient_de_dice_exact() {
    assert_eq!(similarity("a b c", "a b d"), Ratio { numerator: 4, denominator: 6 });
    assert_eq!(similarity("a a b", "a b b"), Ratio { numerator: 4, denominator: 6 });
    assert_eq!(similarity("", "Macarena"), Ratio { numerator: 0, denominator: 1 });
    assert_eq!(similarity("Macarena", "MACARENA"), Ratio { numerator: 1, denominator: 1 });
    assert_eq!(similarity("(feat. X)", "Macarena"), Ratio { numerator: 0, denominator: 1 });
}
