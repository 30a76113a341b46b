use onzer::library::naming::{build_relative_path, normalize_key, sanitize_segment, FilingInfo, MAX_SEGMENT_BYTES};

#[test]
fn conserve_accents_et_casse() {
    assert_eq!(sanitize_segment("Beyoncé").as_deref(), Some("Beyoncé"));
    assert_eq!(sanitize_segment("Björk").as_deref(), Some("Björk"));
}

#[test]
fn remplace_les_caracteres_interdits_par_une_espace() {
    assert_eq!(
        sanitize_segment("AC/DC").as_deref(),
        Some("AC DC"),
        "une barre oblique créerait un dossier fantôme"
    );
    assert_eq!(
        sanitize_segment("Album: la suite").as_deref(),
        Some("Album la suite")
    );
}

#[test]
fn supprime_points_et_espaces_finaux() {
    assert_eq!(sanitize_segment("Album...").as_deref(), Some("Album"));
    assert_eq!(sanitize_segment("Album   ").as_deref(), Some("Album"));
}

#[test]
fn rejette_un_nom_entierement_illegal() {
    assert_eq!(sanitize_segment("///"), None);
    assert_eq!(sanitize_segment("   "), None);
}

#[test]
fn tronque_sans_couper_un_caractere_multioctet() {
    let long = "é".repeat(200);
    let result = sanitize_segment(&long).unwrap();

    assert!(result.len() <= MAX_SEGMENT_BYTES);
    assert!(
        result.chars().all(|c| c == 'é'),
        "la troncature ne doit pas produire de caractère invalide"
    );
}

#[test]
fn dedoublonne_malgre_la_casse_et_les_accents() {
    assert_eq!(normalize_key("Beyoncé"), "beyonce");
    assert_eq!(normalize_key("BEYONCE"), "beyonce");
    assert_eq!(normalize_key("beyoncé"), "beyonce");
}

#[test]
fn dedoublonne_les_graphies_stylisees() {
    assert_eq!(normalize_key("A$AP Rocky"), normalize_key("ASAP Rocky"));
    assert_eq!(normalize_key("P!nk"), normalize_key("Pink"));
    assert_eq!(
        normalize_key("Simon & Garfunkel"),
        normalize_key("Simon and Garfunkel")
    );
}

#[test]
fn ignore_la_ponctuation_et_les_espaces_multiples() {
    assert_eq!(normalize_key("Guns N' Roses"), normalize_key("Guns N Roses"));
    assert_eq!(normalize_key("  Air   "), "air");
}

#[test]
fn ne_confond_pas_deux_artistes_distincts() {
    assert_ne!(normalize_key("Air"), normalize_key("Air France"));
    assert_ne!(normalize_key("The Cure"), normalize_key("Cure"));
}

fn info<'a>(
    artist: Option<&'a str>,
    album: Option<&'a str>,
    year: Option<u32>,
    track: Option<u32>,
    title: &'a str,
) -> FilingInfo<'a> {
    FilingInfo {
        filing_artist: artist,
        album,
        year,
        track_no: track,
        disc_no: None,
        title,
        extension: "mp3",
    }
}

#[test]
fn range_selon_la_convention_nominale() {
    let path = build_relative_path(&info(
        Some("Daft Punk"),
        Some("Discovery"),
        Some(2001),
        Some(3),
        "Digital Love",
    ));

    assert_eq!(path, "Daft Punk/2001 - Discovery/03 - Digital Love.mp3");
}

#[test]
fn omet_le_prefixe_dannee_si_elle_est_inconnue() {
    let path = build_relative_path(&info(
        Some("Daft Punk"),
        Some("Discovery"),
        None,
        Some(3),
        "Digital Love",
    ));

    assert_eq!(path, "Daft Punk/Discovery/03 - Digital Love.mp3");
}

#[test]
fn isole_les_singles_dans_leur_dossier() {
    let path = build_relative_path(&info(Some("Daft Punk"), None, None, None, "Digital Love"));
    assert_eq!(path, "Daft Punk/Singles/Digital Love.mp3");
}

#[test]
fn parque_les_morceaux_sans_artiste_a_trier() {
    let path = build_relative_path(&info(None, None, None, None, "Inconnu"));
    assert_eq!(path, "_À trier/Inconnu.mp3");
}

#[test]
fn prefixe_le_numero_de_disque_uniquement_si_multidisque() {
    let mut multi = info(Some("The Beatles"), Some("Blanc"), Some(1968), Some(4), "Ob-La-Di");
    multi.disc_no = Some(2);
    assert_eq!(
        build_relative_path(&multi),
        "The Beatles/1968 - Blanc/2-04 - Ob-La-Di.mp3"
    );

    let mut single = multi.clone();
    single.disc_no = Some(1);
    assert_eq!(
        build_relative_path(&single),
        "The Beatles/1968 - Blanc/04 - Ob-La-Di.mp3"
    );
}

#[test]
fn assainit_chaque_segment_du_chemin() {
    let path = build_relative_path(&info(
        Some("AC/DC"),
        Some("Back In Black"),
        Some(1980),
        Some(1),
        "Hells Bells: intro",
    ));

    assert_eq!(
        path, "AC DC/1980 - Back In Black/01 - Hells Bells intro.mp3",
        "aucun segment ne doit introduire de séparateur parasite"
    );
}

#[test]
fn le_chemin_ne_remonte_jamais_hors_de_la_bibliotheque() {
    let path = build_relative_path(&info(
        Some("../../../etc"),
        Some(".."),
        None,
        None,
        "passwd",
    ));

    assert!(
        !path.split('/').any(|segment| segment == ".."),
        "un tag malveillant ne doit pas produire de remontée : {path}"
    );
}

#[test]
fn la_coupe_ne_laisse_pas_de_point_final() {
    let brut = format!("{}.b", "a".repeat(179));
    assert_eq!(sanitize_segment(&brut), Some("a".repeat(179)));
    let brut = format!("{}. .b", "a".repeat(177));
    assert_eq!(sanitize_segment(&brut), Some("a".repeat(177)));
}
