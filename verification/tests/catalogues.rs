use onzer::identify::catalog::{search_term, Candidate, ZERO_SCORE_KEY};
use onzer::identify::deezer::{album_url, search_url as deezer_search_url, Album, Artist, SearchHit};
use onzer::identify::itunes::{search_url as itunes_search_url, SongResult};

fn hit(title: &str, artist: &str, duration: i64) -> SearchHit {
    SearchHit {
        title: title.to_string(),
        duration,
        artist: Some(Artist {
            name: Some(artist.to_string()),
        }),
        album: Some(Album {
            id: Some(42),
            title: Some("Ipséité".into()),
            cover_xl: Some("xl.jpg".into()),
            cover_big: None,
            cover_medium: None,
        }),
    }
}

#[test]
fn la_duree_passe_en_millisecondes() {
    // Deezer compte en secondes, tout le reste en millisecondes.
    let candidate = Candidate::from_deezer(hit("Macarena", "Damso", 206));
    assert_eq!(candidate.duration_ms, 206_000);
}

#[test]
fn la_fiche_porte_l_album_et_sa_reference() {
    let candidate = Candidate::from_deezer(hit("Macarena", "Damso", 206));
    assert_eq!(candidate.source, "Deezer");
    assert_eq!(candidate.album.as_deref(), Some("Ipséité"));
    assert_eq!(candidate.album_ref.as_deref(), Some("42"));
    assert_eq!(candidate.year, None);
}

#[test]
fn deezer_une_fiche_sans_album_reste_exploitable() {
    let candidate = Candidate::from_deezer(SearchHit {
        title: "Cloud 8".into(),
        duration: 143,
        artist: None,
        album: None,
    });

    assert!(candidate.album.is_none());
    assert!(candidate.cover_url.is_none());
}

#[test]
fn itunes_une_fiche_sans_album_reste_exploitable() {
    // Un single n'a pas toujours de `collectionName` : la fiche vaut quand
    // même pour son titre et sa pochette.
    let candidate = Candidate::from_itunes(SongResult {
        track_name: Some("Macarena".into()),
        artist_name: Some("Damso".into()),
        collection_name: None,
        release_date: None,
        track_time_millis: Some(206_000),
        artwork_url100: None,
    });

    assert_eq!(candidate.source, "iTunes");
    assert_eq!(candidate.title, "Macarena");
    assert!(candidate.album.is_none());
}

#[test]
fn une_fiche_neuve_n_a_que_son_titre() {
    let candidate = Candidate::new("Deezer", "Macarena".into());
    assert_eq!(candidate.source, "Deezer");
    assert_eq!(candidate.title, "Macarena");
    assert!(candidate.artist.is_none() && candidate.album.is_none() && candidate.year.is_none());
    assert_eq!(candidate.duration_ms, 0);
    assert_eq!(candidate.score_key, ZERO_SCORE_KEY);
    assert_eq!(ZERO_SCORE_KEY, 0.0f64.to_bits() | (1 << 63));
}

#[test]
fn la_fiche_deezer_prend_la_plus_grande_pochette_et_garde_la_petite() {
    let mut h = hit("Macarena", "Damso", 206);
    h.album = Some(Album {
        id: Some(-7),
        title: None,
        cover_xl: Some("  ".into()),
        cover_big: Some("big.jpg".into()),
        cover_medium: Some("medium.jpg".into()),
    });
    let candidate = Candidate::from_deezer(h);
    assert_eq!(candidate.artist.as_deref(), Some("Damso"));
    assert_eq!(candidate.cover_url.as_deref(), Some("big.jpg"));
    assert_eq!(candidate.preview_url.as_deref(), Some("medium.jpg"));
    assert_eq!(candidate.album_ref.as_deref(), Some("-7"));
    assert!(candidate.album.is_none());

    let mut extreme = hit("x", "y", 1);
    extreme.album.as_mut().unwrap().id = Some(i64::MIN);
    assert_eq!(
        Candidate::from_deezer(extreme).album_ref.as_deref(),
        Some("-9223372036854775808")
    );
}

#[test]
fn la_fiche_itunes_demande_la_grande_pochette() {
    let candidate = Candidate::from_itunes(SongResult {
        track_name: None,
        artist_name: None,
        collection_name: Some("Ipséité".into()),
        release_date: Some("2017-04-28T07:00:00Z".into()),
        track_time_millis: None,
        artwork_url100: Some("https://is1.mzstatic.com/a.jpg/100x100bb.jpg".into()),
    });
    assert_eq!(candidate.title, "");
    assert_eq!(candidate.year, Some(2017));
    assert_eq!(candidate.duration_ms, 0);
    assert_eq!(
        candidate.cover_url.as_deref(),
        Some("https://is1.mzstatic.com/a.jpg/1000x1000bb.jpg")
    );
    assert_eq!(
        candidate.preview_url.as_deref(),
        Some("https://is1.mzstatic.com/a.jpg/100x100bb.jpg")
    );
    assert_eq!(candidate.album.as_deref(), Some("Ipséité"));
}

#[test]
fn on_cherche_l_artiste_et_le_titre() {
    assert_eq!(search_term(Some(" Damso "), "Macarena").as_deref(), Some("Damso Macarena"));
    assert_eq!(search_term(Some("  "), " Macarena ").as_deref(), Some("Macarena"));
    assert_eq!(search_term(None, "Macarena").as_deref(), Some("Macarena"));
    assert_eq!(search_term(Some(""), "   "), None);
    assert_eq!(search_term(None, ""), None);
}

#[test]
fn les_requetes_des_catalogues() {
    assert_eq!(
        deezer_search_url("Damso Macarena"),
        "https://api.deezer.com/search?q=Damso%20Macarena&limit=8"
    );
    assert_eq!(
        itunes_search_url("AC/DC"),
        "https://itunes.apple.com/search?term=AC%2FDC&entity=song&limit=8"
    );
    assert_eq!(album_url("42"), "https://api.deezer.com/album/42");
}
