use onzer::identify::musicbrainz::{
    build_metadata, lookup_url, track_position, Artist, ArtistCredit, Genre, Medium, Recording, RecordingMetadata,
    Release, ReleaseGroup, Track,
};
use onzer::identify::tagger::{merge, tags_to_write};
use onzer::library::importer::{is_importable, should_skip};
use onzer::library::metadata::TrackMetadata;

fn release(
    id: &str,
    title: &str,
    status: Option<&str>,
    primary: Option<&str>,
    secondary: &[&str],
    date: Option<&str>,
) -> Release {
    Release {
        id: id.to_string(),
        title: title.to_string(),
        date: date.map(str::to_string),
        status: status.map(str::to_string),
        release_group: Some(ReleaseGroup {
            id: format!("{id}-group"),
            primary_type: primary.map(str::to_string),
            secondary_types: secondary.iter().map(|s| (*s).to_string()).collect(),
            first_release_date: date.map(str::to_string),
        }),
        media: Vec::new(),
    }
}

fn credit(name: &str, join: &str) -> ArtistCredit {
    ArtistCredit {
        name: name.to_string(),
        joinphrase: join.to_string(),
        artist: Some(Artist { name: name.to_string() }),
    }
}

#[test]
fn une_parution_sans_support_ne_donne_pas_de_numero() {
    let parution = release("a", "Album", Some("Official"), Some("Album"), &[], Some("2001"));
    assert_eq!(track_position(&parution), None);
}

#[test]
fn assemble_des_metadonnees_completes() {
    let mut album = release("rel-1", "Discovery", Some("Official"), Some("Album"), &[], Some("2001-03-12"));
    album.media = vec![Medium {
        position: Some(1),
        track: vec![Track { number: Some("3".to_string()), position: Some(3) }],
    }];

    let recording = Recording {
        id: "rec-1".to_string(),
        title: "Digital Love".to_string(),
        artist_credit: vec![credit("Daft Punk", "")],
        releases: vec![
            release("comp", "Compilation", Some("Official"), Some("Album"), &["Compilation"], Some("2003")),
            album,
        ],
        genres: vec![Genre { name: "french house".into(), count: 9 }],
        length: Some(301_000),
    };

    let meta = build_metadata(recording);

    assert_eq!(meta.title, "Digital Love");
    assert_eq!(meta.filing_artist(), Some("Daft Punk"));
    assert_eq!(meta.album.as_deref(), Some("Discovery"));
    assert_eq!(meta.year, Some(2001));
    assert_eq!(meta.track_no, Some(3));
    assert_eq!(meta.disc_no, Some(1));
    assert_eq!(meta.genre.as_deref(), Some("french house"));
    assert_eq!(meta.release_mbid.as_deref(), Some("rel-1"));
    assert_eq!(meta.release_group_mbid.as_deref(), Some("rel-1-group"));
    assert_eq!(meta.length_ms, Some(301_000));
    assert_eq!(meta.release_count, 2);
}

#[test]
fn un_enregistrement_sans_parution_reste_exploitable() {
    let recording = Recording {
        id: "rec".to_string(),
        title: "Inédit".to_string(),
        artist_credit: vec![credit("Artiste", "")],
        releases: Vec::new(),
        genres: Vec::new(),
        length: None,
    };

    let meta = build_metadata(recording);

    assert_eq!(meta.title, "Inédit");
    assert_eq!(meta.filing_artist(), Some("Artiste"));
    assert!(meta.album.is_none());
    assert!(meta.year.is_none());
    assert_eq!(meta.release_count, 0);
}

fn identifie() -> RecordingMetadata {
    RecordingMetadata {
        recording_mbid: "rec-1".into(),
        title: "Digital Love".into(),
        artists: vec!["Daft Punk".into()],
        featured_artists: Vec::new(),
        album: Some("Discovery".into()),
        release_mbid: Some("rel-1".into()),
        release_group_mbid: Some("grp-1".into()),
        year: Some(2001),
        track_no: Some(3),
        disc_no: Some(1),
        genre: Some("french house".into()),
        ..Default::default()
    }
}

fn locale() -> TrackMetadata {
    TrackMetadata {
        title: "piste 03".into(),
        artists: vec!["Inconnu".into()],
        featured_artists: Vec::new(),
        album_artist: None,
        album: None,
        track_no: None,
        disc_no: None,
        year: None,
        genres: Vec::new(),
        duration_ms: 301_000,
        bitrate: Some(320),
        sample_rate: Some(44_100),
        channels: Some(2),
        format: "mp3".into(),
        artwork: None,
        lyrics: None,
        from_filename: true,
    }
}

#[test]
fn lidentification_fait_autorite_sur_loeuvre() {
    let mut local = locale();
    merge(&mut local, &identifie());

    assert_eq!(local.title, "Digital Love");
    assert_eq!(local.artists, vec!["Daft Punk"]);
    assert_eq!(local.album.as_deref(), Some("Discovery"));
    assert_eq!(local.year, Some(2001));
    assert_eq!(local.track_no, Some(3));
    assert_eq!(local.genres, vec!["french house"]);
}

#[test]
fn les_caracteristiques_du_fichier_sont_conservees() {
    let mut local = locale();
    merge(&mut local, &identifie());

    assert_eq!(local.duration_ms, 301_000);
    assert_eq!(local.bitrate, Some(320));
    assert_eq!(local.format, "mp3");
}

#[test]
fn lidentification_ne_touche_pas_aux_paroles() {
    let mut local = locale();
    local.lyrics = Some("[00:10.00]Une ligne".to_string());

    merge(&mut local, &identifie());

    assert_eq!(local.lyrics.as_deref(), Some("[00:10.00]Une ligne"));
}

#[test]
fn la_deduction_par_nom_de_fichier_est_annulee() {
    let mut local = locale();
    assert!(local.from_filename);

    merge(&mut local, &identifie());
    assert!(!local.from_filename, "les métadonnées ne sont plus une supposition");
}

#[test]
fn une_identification_partielle_ne_detruit_rien() {
    let mut local = locale();
    local.album = Some("Album connu".into());
    local.year = Some(1999);

    let mut partielle = identifie();
    partielle.album = None;
    partielle.year = None;

    merge(&mut local, &partielle);

    assert_eq!(local.album.as_deref(), Some("Album connu"));
    assert_eq!(local.year, Some(1999));
}

#[test]
fn lartiste_de_rangement_devient_celui_de_lenregistrement() {
    let mut local = locale();
    merge(&mut local, &identifie());

    assert_eq!(local.album_artist.as_deref(), Some("Daft Punk"));
}

#[test]
fn ignore_les_fichiers_appledouble() {
    assert!(should_skip(Some("._morceau.mp3")));
    assert!(!should_skip(Some("morceau.mp3")));
}

#[test]
fn ignore_les_fichiers_caches() {
    assert!(should_skip(Some(".DS_Store")));
}

#[test]
fn ne_retient_que_les_fichiers_audio_reels() {
    assert!(is_importable(Some("morceau.mp3")));
    assert!(
        !is_importable(Some("._morceau.mp3")),
        "un AppleDouble porte pourtant bien l'extension .mp3"
    );
    assert!(!is_importable(Some("pochette.jpg")));
}

#[test]
fn le_champ_artiste_porte_le_credit_complet() {
    let mut m = locale();
    m.artists = vec!["Damso".into(), "Hamza".into()];
    m.featured_artists = vec!["Angèle".into(), "Nekfeu".into()];
    m.genres = vec!["rap".into(), "pop".into()];
    m.lyrics = Some("[00:01.00]Salut".into());
    m.year = Some(2021);
    m.album_artist = Some("Damso".into());
    let tags = tags_to_write(&m);
    assert_eq!(tags.title, "piste 03");
    assert_eq!(tags.artist.as_deref(), Some("Damso, Hamza feat. Angèle, Nekfeu"));
    assert_eq!(tags.genre.as_deref(), Some("rap"));
    assert_eq!(tags.lyrics.as_deref(), Some("[00:01.00]Salut"));
    assert_eq!(tags.year, Some(2021));
    assert_eq!(tags.album_artist.as_deref(), Some("Damso"));
    assert_eq!(tags.album, None);

    m.featured_artists = Vec::new();
    assert_eq!(tags_to_write(&m).artist.as_deref(), Some("Damso, Hamza"));
    m.artists = Vec::new();
    assert_eq!(tags_to_write(&m).artist, None);
    assert_eq!(tags_to_write(&m).genre.as_deref(), Some("rap"));
    m.featured_artists = vec!["Angèle".into()];
    assert_eq!(tags_to_write(&m).artist.as_deref(), Some(" feat. Angèle"));
    m.genres = Vec::new();
    assert_eq!(tags_to_write(&m).genre, None);
}

#[test]
fn la_fiche_est_demandee_avec_tout_ce_qui_la_compose() {
    assert_eq!(
        lookup_url("abc-123"),
        "https://musicbrainz.org/ws/2/recording/abc-123?fmt=json&inc=artists+releases+media+release-groups+genres"
    );
}
