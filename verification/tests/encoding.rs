use onzer::identify::coverart::{front_urls, looks_like_image, MIN_INTERVAL as COVERART_MIN_INTERVAL};
use onzer::identify::deezer::{encode as deezer_encode, parse_year as deezer_year, Album};
use onzer::identify::discover::{encode as discover_encode, reason};
use onzer::identify::fingerprint::base64_url_encode;
use onzer::identify::itunes::{parse_year as itunes_year, upgrade_artwork};
use onzer::identify::lrclib::{
    build_url, encode as lrclib_encode, pick, GetResponse, LyricsQuery,
    MIN_INTERVAL as LRCLIB_MIN_INTERVAL,
};
use onzer::library::artwork::encode_base64;

#[test]
fn encode_en_base64_standard() {
    assert_eq!(encode_base64(b""), "");
    assert_eq!(encode_base64(b"f"), "Zg==");
    assert_eq!(encode_base64(b"fo"), "Zm8=");
    assert_eq!(encode_base64(b"foo"), "Zm9v");
    assert_eq!(encode_base64(b"foobar"), "Zm9vYmFy");
}

#[test]
fn lencodage_suit_la_variante_url_sans_remplissage() {
    assert_eq!(base64_url_encode(b""), "");
    assert_eq!(base64_url_encode(b"f"), "Zg");
    assert_eq!(base64_url_encode(b"fo"), "Zm8");
    assert_eq!(base64_url_encode(b"foo"), "Zm9v");
    assert_eq!(base64_url_encode(b"foobar"), "Zm9vYmFy");
}

#[test]
fn lencodage_nutilise_jamais_de_caractere_interdit_en_url() {
    let encode = base64_url_encode(&[0xFB, 0xFF, 0xBF, 0xFE, 0xFF]);

    assert!(!encode.contains('+'), "obtenu {encode}");
    assert!(!encode.contains('/'), "obtenu {encode}");
    assert!(!encode.contains('='), "obtenu {encode}");
    assert!(encode.contains('-') || encode.contains('_'));
}

#[test]
fn tous_les_octets_possibles_sencodent_sans_panique() {
    let tous: Vec<u8> = (0..=255).collect();
    let encode = base64_url_encode(&tous);

    assert!(encode
        .chars()
        .all(|c| c.is_ascii_alphanumeric() || c == '-' || c == '_'));
}

#[test]
fn les_deux_variantes_different_sur_les_octets_hauts() {
    assert_eq!(encode_base64(&[0xFB, 0xFF]), "+/8=");
    assert_eq!(base64_url_encode(&[0xFB, 0xFF]), "-_8");
}

#[test]
fn on_prend_toujours_la_plus_grande_taille() {
    let album = Album {
        id: None,
        title: None,
        cover_xl: Some("xl.jpg".into()),
        cover_big: Some("big.jpg".into()),
        cover_medium: Some("medium.jpg".into()),
    };
    assert_eq!(album.best_cover().as_deref(), Some("xl.jpg"));

    let sans_xl = Album {
        id: None,
        title: None,
        cover_xl: None,
        cover_big: Some("big.jpg".into()),
        cover_medium: Some("medium.jpg".into()),
    };
    assert_eq!(sans_xl.best_cover().as_deref(), Some("big.jpg"));
}

#[test]
fn une_adresse_vide_ne_compte_pas() {
    let album = Album {
        id: None,
        title: None,
        cover_xl: Some("  ".into()),
        cover_big: None,
        cover_medium: Some("medium.jpg".into()),
    };
    assert_eq!(album.best_cover().as_deref(), Some("medium.jpg"));
}

#[test]
fn l_encodage_protege_les_caracteres_reserves() {
    assert_eq!(deezer_encode("Damso Macarena"), "Damso%20Macarena");
    assert_eq!(deezer_encode("AC/DC"), "AC%2FDC");
    assert_eq!(deezer_encode("Ipséité"), "Ips%C3%A9it%C3%A9");
}

#[test]
fn l_annee_vient_de_la_date() {
    assert_eq!(deezer_year("2017-04-28"), Some(2017));
    assert_eq!(deezer_year(""), None);
}

#[test]
fn la_pochette_est_demandee_en_grand() {
    assert_eq!(
        upgrade_artwork("https://is1.mzstatic.com/image/thumb/a.jpg/100x100bb.jpg"),
        "https://is1.mzstatic.com/image/thumb/a.jpg/1000x1000bb.jpg"
    );
}

#[test]
fn une_adresse_inattendue_reste_intacte() {
    assert_eq!(upgrade_artwork("https://exemple/a.jpg"), "https://exemple/a.jpg");
}

#[test]
fn l_annee_vient_de_la_date_iso() {
    assert_eq!(itunes_year("2017-04-28T07:00:00Z"), Some(2017));
    assert_eq!(itunes_year("inconnu"), None);
    assert_eq!(itunes_year(""), None);
}

fn requete() -> LyricsQuery {
    LyricsQuery {
        title: "Macarena".to_string(),
        artist: "Damso".to_string(),
        album: Some("Ipséité".to_string()),
        duration_ms: 206_400,
    }
}

#[test]
fn construit_une_url_complete() {
    let url = build_url(&requete());

    assert!(url.contains("track_name=Macarena"));
    assert!(url.contains("artist_name=Damso"));
    assert!(url.contains("duration=206"), "la durée est en secondes");
    assert!(url.contains("album_name="));
}

#[test]
fn l_url_complete_est_exacte() {
    assert_eq!(
        build_url(&requete()),
        "https://lrclib.net/api/get?track_name=Macarena&artist_name=Damso&duration=206&album_name=Ips%C3%A9it%C3%A9"
    );
}

#[test]
fn un_album_absent_nest_pas_envoye() {
    let mut sans_album = requete();
    sans_album.album = None;
    assert!(!build_url(&sans_album).contains("album_name"));

    sans_album.album = Some("   ".to_string());
    assert!(!build_url(&sans_album).contains("album_name"));
}

#[test]
fn encode_les_accents_et_les_caracteres_reserves() {
    assert_eq!(lrclib_encode("Ipséité"), "Ips%C3%A9it%C3%A9");
    assert_eq!(lrclib_encode("Rock & Roll"), "Rock%20%26%20Roll");
    assert_eq!(lrclib_encode("a+b=c"), "a%2Bb%3Dc");
    assert_eq!(lrclib_encode("deja-vu_1.0~"), "deja-vu_1.0~");
}

#[test]
fn prefere_les_paroles_synchronisees() {
    let reponse = GetResponse {
        plain_lyrics: Some("Première ligne".to_string()),
        synced_lyrics: Some("[00:12.34]Première ligne".to_string()),
        instrumental: false,
    };

    let retenu = pick(&reponse).unwrap();
    assert!(retenu.synced);
    assert!(retenu.raw.starts_with("[00:12.34]"));
}

#[test]
fn se_rabat_sur_le_texte_simple() {
    let reponse = GetResponse {
        plain_lyrics: Some("Première ligne".to_string()),
        synced_lyrics: None,
        instrumental: false,
    };

    let retenu = pick(&reponse).unwrap();
    assert!(!retenu.synced);
    assert_eq!(retenu.raw, "Première ligne");
}

#[test]
fn un_instrumental_ne_rend_rien() {
    let reponse = GetResponse {
        plain_lyrics: Some(String::new()),
        synced_lyrics: None,
        instrumental: true,
    };

    assert!(pick(&reponse).is_none());
}

#[test]
fn des_champs_vides_valent_une_absence() {
    let reponse = GetResponse {
        plain_lyrics: Some("   \n  ".to_string()),
        synced_lyrics: Some(String::new()),
        instrumental: false,
    };

    assert!(pick(&reponse).is_none());
}

#[test]
fn la_cadence_reste_courtoise() {
    assert!(LRCLIB_MIN_INTERVAL >= 1_000);
}

#[test]
fn reconnait_les_formats_dimage_courants() {
    assert!(looks_like_image(&[0xFF, 0xD8, 0xFF, 0xE0, 0x00]));
    assert!(looks_like_image(&[0x89, b'P', b'N', b'G', 0x0D]));
    assert!(looks_like_image(b"GIF89a....."));

    let mut webp = b"RIFF".to_vec();
    webp.extend_from_slice(&[0, 0, 0, 0]);
    webp.extend_from_slice(b"WEBPVP8 ");
    assert!(looks_like_image(&webp));
}

#[test]
fn rejette_une_page_derreur_deguisee_en_image() {
    assert!(!looks_like_image(b"<!DOCTYPE html><html>404</html>"));
    assert!(!looks_like_image(b"{\"error\":\"not found\"}"));
}

#[test]
fn rejette_une_reponse_vide_ou_tronquee() {
    assert!(!looks_like_image(&[]));
    assert!(!looks_like_image(&[0xFF]));
    assert!(!looks_like_image(b"RIFF"));
}

#[test]
fn la_cadence_menage_un_service_beneficie() {
    assert!(COVERART_MIN_INTERVAL >= 1_000);
}

#[test]
fn la_justification_reste_lisible() {
    assert_eq!(reason(&[]), "Proche de ce que tu écoutes");
    assert_eq!(reason(&["Damso".into()]), "Parce que tu écoutes Damso");
    assert_eq!(
        reason(&["Damso".into(), "Népal".into()]),
        "Parce que tu écoutes Damso et Népal"
    );
    assert_eq!(
        reason(&["Damso".into(), "Népal".into(), "Josman".into()]),
        "Parce que tu écoutes Damso, Népal et 1 autre"
    );
    assert_eq!(
        reason(&["A".into(), "B".into(), "C".into(), "D".into()]),
        "Parce que tu écoutes A, B et 2 autres"
    );
}

#[test]
fn encode_les_noms_dartistes_exotiques() {
    assert_eq!(discover_encode("Népal"), "N%C3%A9pal");
    assert_eq!(discover_encode("A$AP Rocky"), "A%24AP%20Rocky");
    assert_eq!(discover_encode("Luv Resval"), "Luv%20Resval");
}

#[test]
fn la_pochette_de_la_parution_passe_avant_celle_de_l_album() {
    assert_eq!(
        front_urls(Some("abc"), Some("def")),
        vec![
            "https://coverartarchive.org/release/abc/front".to_string(),
            "https://coverartarchive.org/release-group/def/front".to_string(),
        ]
    );
    assert_eq!(
        front_urls(Some(""), Some("def")),
        vec!["https://coverartarchive.org/release-group/def/front".to_string()]
    );
    assert_eq!(front_urls(None, None), Vec::<String>::new());
}
