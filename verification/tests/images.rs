use image::{ImageFormat, RgbImage};
use onzer::identify::tagger::{
    album_cover, embedded_cover, embedded_picture, PictureKind, ALBUM_COVER_MAX_SIZE, ALBUM_COVER_QUALITY, EMBEDDED_COVER_SIZE,
};
use onzer::library::artwork::{resize_jpeg, thumbnail, thumbnail_digest, ArtworkError, THUMBNAIL_SIZE};

fn png(width: u32, height: u32, teinte: u8) -> Vec<u8> {
    let image = RgbImage::from_fn(width, height, |x, y| {
        image::Rgb([teinte, (x % 256) as u8, (y % 256) as u8])
    });

    let mut bytes = Vec::new();
    image
        .write_to(&mut std::io::Cursor::new(&mut bytes), ImageFormat::Png)
        .unwrap();
    bytes
}

fn carre(side: u32) -> Vec<u8> {
    png(side, side, 128)
}

#[test]
fn une_grande_pochette_est_ramenee_a_la_taille_d_album() {
    let encoded = resize_jpeg(&carre(2000), ALBUM_COVER_MAX_SIZE, ALBUM_COVER_QUALITY).unwrap();
    let image = image::load_from_memory(&encoded).unwrap();

    assert_eq!(image.width(), ALBUM_COVER_MAX_SIZE);
    assert!(encoded.len() < 2_000_000, "poids obtenu {} octets", encoded.len());
}

#[test]
fn une_petite_pochette_nest_jamais_agrandie() {
    let encoded = resize_jpeg(&carre(300), ALBUM_COVER_MAX_SIZE, ALBUM_COVER_QUALITY).unwrap();
    let image = image::load_from_memory(&encoded).unwrap();

    assert_eq!(image.width(), 300);
}

#[test]
fn la_pochette_embarquee_reste_legere() {
    // Elle voyage dans chaque fichier : la garder en 1500 px multiplierait
    // le poids de la bibliothèque.
    let picture = embedded_picture(&carre(3000)).unwrap();

    assert!(picture.data.len() < 300_000, "poids obtenu {} octets", picture.data.len());
    assert_eq!(picture.kind, PictureKind::CoverFront);
}

#[test]
fn la_pochette_embarquee_est_ramenee_a_sa_taille() {
    let encoded = embedded_cover(&carre(3000)).unwrap();
    let image = image::load_from_memory(&encoded).unwrap();
    assert_eq!(image.width(), EMBEDDED_COVER_SIZE);
    assert_eq!(&encoded[..2], &[0xFF, 0xD8]);
}

#[test]
fn une_pochette_png_qui_tient_est_tout_de_meme_reencodee_en_jpeg() {
    let source = carre(100);
    let encoded = album_cover(&source).unwrap();
    assert_eq!(&encoded[..2], &[0xFF, 0xD8]);
    assert_ne!(encoded, source);
}

#[test]
fn une_image_invalide_est_refusee_sans_panique() {
    assert!(resize_jpeg(b"pas une image", 500, 80).is_err());
    assert_eq!(embedded_cover(b"<html>404</html>").unwrap_err(), ArtworkError::Unreadable);
    assert_eq!(album_cover(b"").unwrap_err(), ArtworkError::Unreadable);
}

#[test]
fn la_pochette_d_album_garde_ses_proportions() {
    let encoded = album_cover(&png(2000, 1000, 40)).unwrap();
    let image = image::load_from_memory(&encoded).unwrap();

    assert_eq!(image.width(), ALBUM_COVER_MAX_SIZE);
    assert_eq!(image.height(), 750);
}

#[test]
fn reduit_les_grandes_pochettes() {
    let vignette = thumbnail(&png(2000, 2000, 200)).unwrap();
    let image = image::load_from_memory(&vignette.jpeg).unwrap();

    assert_eq!(image.width(), THUMBNAIL_SIZE);
    assert_eq!(image.height(), THUMBNAIL_SIZE);
}

#[test]
fn nagrandit_pas_une_petite_pochette() {
    let vignette = thumbnail(&png(120, 120, 90)).unwrap();
    let image = image::load_from_memory(&vignette.jpeg).unwrap();

    assert_eq!(image.width(), 120, "agrandir n'ajouterait aucun détail");
}

#[test]
fn une_meme_pochette_donne_un_meme_nom() {
    let pochette = png(600, 600, 42);

    let premier = thumbnail(&pochette).unwrap();
    let second = thumbnail(&pochette).unwrap();

    assert_eq!(premier.digest, second.digest);
    assert_eq!(premier.digest, blake3::hash(&pochette).to_hex().to_string());
    assert_eq!(thumbnail_digest(&pochette), premier.digest);
}

#[test]
fn deux_pochettes_differentes_ne_se_confondent_pas() {
    let a = thumbnail(&png(400, 400, 10)).unwrap();
    let b = thumbnail(&png(400, 400, 250)).unwrap();

    assert_ne!(a.digest, b.digest);
}

#[test]
fn rejette_proprement_des_donnees_qui_ne_sont_pas_une_image() {
    let erreur = thumbnail(b"ceci n'est pas une image").err().unwrap();
    assert_eq!(erreur, ArtworkError::Unreadable);
    assert_eq!(erreur.message(), "pochette illisible");
}

#[test]
fn la_vignette_reste_legere() {
    let vignette = thumbnail(&png(1500, 1500, 77)).unwrap();

    assert!(
        vignette.jpeg.len() < 200_000,
        "une vignette doit rester sous 200 Ko, obtenu {} octets",
        vignette.jpeg.len()
    );
}

#[test]
fn le_nom_d_une_vignette_est_hexadecimal() {
    let nom = thumbnail_digest(b"");
    assert_eq!(nom, "af1349b9f5f9a1a6a0404dea36dcc9499bcb25c9adc112b7cc9a93cae41f3262");
}

#[test]
fn la_reduction_reste_dans_le_carre_sans_cote_vide() {
    let encoded = resize_jpeg(&png(10, 3, 10), 0, 80).unwrap();
    let image = image::load_from_memory(&encoded).unwrap();
    assert_eq!((image.width(), image.height()), (1, 1));

    let encoded = resize_jpeg(&png(1000, 1, 10), 500, 80).unwrap();
    let image = image::load_from_memory(&encoded).unwrap();
    assert_eq!((image.width(), image.height()), (500, 1));
}

#[test]
fn la_vignette_porte_le_nom_de_son_empreinte() {
    assert_eq!(onzer::library::artwork::thumbnail_name("ab12"), "ab12.jpg");
}
