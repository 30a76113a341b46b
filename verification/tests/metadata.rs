use onzer::library::metadata::{
    apply_filename_fallback, assemble, is_supported_audio, split_artist, split_featuring,
    AudioProperties, MetadataError, MetadataHint, Picture, TagValues, TrackMetadata,
};

fn empty_metadata() -> TrackMetadata {
    TrackMetadata {
        title: String::new(),
        artists: Vec::new(),
        featured_artists: Vec::new(),
        album_artist: None,
        album: None,
        track_no: None,
        disc_no: None,
        year: None,
        genres: Vec::new(),
        duration_ms: 1000,
        bitrate: None,
        sample_rate: None,
        channels: None,
        format: "mp3".to_string(),
        artwork: None,
        lyrics: None,
        from_filename: false,
    }
}

fn fallback(filename: &str) -> TrackMetadata {
    let mut metadata = empty_metadata();
    apply_filename_fallback(Some(filename), &mut metadata);
    metadata
}

#[test]
fn isole_les_artistes_invites() {
    let (main, featured) = split_featuring("Daft Punk feat. Pharrell Williams");
    assert_eq!(main, vec!["Daft Punk"]);
    assert_eq!(featured, vec!["Pharrell Williams"]);
}

#[test]
fn reconnait_les_abreviations_de_featuring() {
    for raw in ["Drake ft. Rihanna", "Drake ft Rihanna", "Drake featuring Rihanna"] {
        let (main, featured) = split_featuring(raw);
        assert_eq!(main, vec!["Drake"], "échec sur « {raw} »");
        assert_eq!(featured, vec!["Rihanna"], "échec sur « {raw} »");
    }
}

#[test]
fn ne_demantele_pas_les_noms_de_groupes() {
    let (main, featured) = split_featuring("Simon & Garfunkel");
    assert_eq!(main, vec!["Simon & Garfunkel"]);
    assert!(featured.is_empty());

    let (main, _) = split_featuring("Earth, Wind & Fire");
    assert_eq!(main, vec!["Earth, Wind & Fire"]);
}

#[test]
fn separe_plusieurs_invites() {
    let (_, featured) = split_featuring("Calvin Harris feat. Dua Lipa & Young Thug");
    assert_eq!(featured, vec!["Dua Lipa", "Young Thug"]);
}

#[test]
fn la_mention_est_reconnue_quelle_que_soit_la_casse() {
    let (main, featured) = split_featuring("Damso FEAT. Hamza, Nekfeu");
    assert_eq!(main, vec!["Damso"]);
    assert_eq!(featured, vec!["Hamza", "Nekfeu"]);
}

#[test]
fn une_mention_en_tete_ne_coupe_pas() {
    let (main, featured) = split_featuring(" feat. Quelqu'un");
    assert_eq!(main, vec!["feat. Quelqu'un"]);
    assert!(featured.is_empty());
}

#[test]
fn un_decalage_de_la_minuscule_est_signale() {
    // « Ⱥ » s'écrit sur deux octets et sa minuscule sur trois : la mention,
    // trouvée dans la forme minuscule, tombe ailleurs dans le texte brut.
    assert!(split_artist("ȺȺȺȺȺȺȺȺȺȺȺȺ ft éé").is_none());
    assert_eq!(
        split_artist("Nekfeu feat. Damso"),
        Some((vec!["Nekfeu".to_string()], vec!["Damso".to_string()]))
    );
}

#[test]
fn deduit_piste_artiste_et_titre() {
    let metadata = fallback("03 - Daft Punk - Digital Love.mp3");
    assert_eq!(metadata.track_no, Some(3));
    assert_eq!(metadata.artists, vec!["Daft Punk"]);
    assert_eq!(metadata.title, "Digital Love");
}

#[test]
fn deduit_piste_et_titre_sans_artiste() {
    let metadata = fallback("03 - Digital Love.mp3");
    assert_eq!(metadata.track_no, Some(3));
    assert_eq!(metadata.title, "Digital Love");
    assert!(metadata.artists.is_empty());
}

#[test]
fn accepte_le_point_comme_separateur_de_piste() {
    let metadata = fallback("07. Veridis Quo.flac");
    assert_eq!(metadata.track_no, Some(7));
    assert_eq!(metadata.title, "Veridis Quo");
}

#[test]
fn deduit_artiste_et_titre_sans_numero() {
    let metadata = fallback("Daft Punk - Digital Love.mp3");
    assert_eq!(metadata.track_no, None);
    assert_eq!(metadata.artists, vec!["Daft Punk"]);
    assert_eq!(metadata.title, "Digital Love");
}

#[test]
fn ne_prend_pas_une_annee_pour_un_numero_de_piste() {
    let metadata = fallback("1999 - Party.mp3");
    assert_eq!(metadata.track_no, None);
    assert_eq!(metadata.artists, vec!["1999"]);
    assert_eq!(metadata.title, "Party");
}

#[test]
fn se_contente_du_titre_seul() {
    let metadata = fallback("Digital Love.mp3");
    assert_eq!(metadata.title, "Digital Love");
    assert!(metadata.artists.is_empty());
}

#[test]
fn extrait_le_featuring_depuis_le_nom_de_fichier() {
    let metadata = fallback("Daft Punk feat. Pharrell - Get Lucky.mp3");
    assert_eq!(metadata.artists, vec!["Daft Punk"]);
    assert_eq!(metadata.featured_artists, vec!["Pharrell"]);
    assert_eq!(metadata.title, "Get Lucky");
}

#[test]
fn signale_que_les_donnees_viennent_du_nom_de_fichier() {
    assert!(fallback("Digital Love.mp3").from_filename);
}

#[test]
fn un_nom_illisible_ne_change_rien() {
    let mut metadata = empty_metadata();
    apply_filename_fallback(None, &mut metadata);
    assert!(!metadata.from_filename);
    assert!(metadata.title.is_empty());
}

#[test]
fn un_tag_present_nest_pas_ecrase_par_le_nom() {
    let mut metadata = empty_metadata();
    metadata.title = "Titre du tag".to_string();
    metadata.track_no = Some(9);
    apply_filename_fallback(Some("03 - Artiste - Autre titre.mp3"), &mut metadata);
    assert_eq!(metadata.title, "Titre du tag");
    assert_eq!(metadata.track_no, Some(9));
    assert_eq!(metadata.artists, vec!["Artiste"]);
}

#[test]
fn range_sous_lartiste_de_lalbum_quand_il_existe() {
    let mut metadata = empty_metadata();
    metadata.album_artist = Some("Various Artists".to_string());
    metadata.artists = vec!["Daft Punk".to_string()];

    assert_eq!(metadata.filing_artist(), Some("Various Artists"));
}

#[test]
fn se_rabat_sur_lartiste_principal() {
    let mut metadata = empty_metadata();
    metadata.artists = vec!["Daft Punk".to_string()];

    assert_eq!(metadata.filing_artist(), Some("Daft Punk"));
}

#[test]
fn reconnait_les_extensions_audio_quelle_que_soit_la_casse() {
    assert!(is_supported_audio("a.mp3"));
    assert!(is_supported_audio("a.FLAC"));
    assert!(!is_supported_audio("cover.jpg"));
    assert!(!is_supported_audio("notes.txt"));
    assert!(!is_supported_audio("sans-extension"));
    assert!(!is_supported_audio(".mp3"));
}

#[test]
fn un_vrai_tag_prime_sur_une_indication() {
    let mut metadata = empty_metadata();
    metadata.title = "Titre du fichier".to_string();
    metadata.artists = vec!["Artiste du fichier".to_string()];
    metadata.year = Some(2001);

    let hint = MetadataHint {
        title: Some("Titre du script".to_string()),
        artist: Some("Autre".to_string()),
        album: Some("  Album  ".to_string()),
        year: Some(1999),
        track_no: Some(4),
        genre: Some("rap".to_string()),
        ..MetadataHint::default()
    };
    hint.apply(&mut metadata);

    assert_eq!(metadata.title, "Titre du fichier");
    assert_eq!(metadata.artists, vec!["Artiste du fichier"]);
    assert_eq!(metadata.album.as_deref(), Some("Album"));
    assert_eq!(metadata.year, Some(2001));
    assert_eq!(metadata.track_no, Some(4));
    assert_eq!(metadata.genres, vec!["rap"]);
}

#[test]
fn une_indication_prime_sur_un_nom_de_fichier() {
    let mut metadata = fallback("Mauvais - Devine.mp3");
    let hint = MetadataHint {
        title: Some("Macarena".to_string()),
        artist: Some("Damso feat. Hamza".to_string()),
        ..MetadataHint::default()
    };
    hint.apply(&mut metadata);

    assert_eq!(metadata.title, "Macarena");
    assert_eq!(metadata.artists, vec!["Damso"]);
    assert_eq!(metadata.featured_artists, vec!["Hamza"]);
}

#[test]
fn une_indication_vide_ne_compte_pas() {
    let mut metadata = empty_metadata();
    let hint = MetadataHint {
        title: Some("   ".to_string()),
        ..MetadataHint::default()
    };
    hint.apply(&mut metadata);
    assert!(metadata.title.is_empty());
}

fn proprietes(duration_ms: i64) -> AudioProperties {
    AudioProperties {
        duration_ms,
        bitrate: Some(320),
        sample_rate: Some(44_100),
        channels: Some(2),
    }
}

#[test]
fn une_duree_nulle_est_refusee() {
    let resultat = assemble(Some("a.mp3"), Some("mp3"), &proprietes(0), None);
    assert_eq!(resultat.unwrap_err(), MetadataError::ZeroDuration);
    assert_eq!(
        MetadataError::ZeroDuration.message(),
        "durée nulle : fichier vraisemblablement corrompu"
    );
}

#[test]
fn les_tags_sont_nettoyes_et_la_pochette_avant_choisie() {
    let tags = TagValues {
        title: Some("  Macarena ".to_string()),
        artist: Some("Damso".to_string()),
        album: Some(" ".to_string()),
        genre: Some("Rap".to_string()),
        pictures: vec![
            Picture { cover_front: false, data: vec![1], mime_type: None },
            Picture { cover_front: true, data: vec![2, 3], mime_type: Some("image/png".to_string()) },
        ],
        ..TagValues::default()
    };

    let metadata = assemble(Some("x.MP3"), Some("MP3"), &proprietes(206_000), Some(&tags)).unwrap();
    assert_eq!(metadata.title, "Macarena");
    assert_eq!(metadata.artists, vec!["Damso"]);
    assert_eq!(metadata.album, None);
    assert_eq!(metadata.genres, vec!["Rap"]);
    assert_eq!(metadata.format, "mp3");
    assert!(!metadata.from_filename);
    let pochette = metadata.artwork.unwrap();
    assert_eq!(pochette.data, vec![2, 3]);
    assert_eq!(pochette.mime_type.as_deref(), Some("image/png"));
}

#[test]
fn sans_tags_le_nom_de_fichier_prend_le_relais() {
    let metadata = assemble(
        Some("05 - Daft Punk - Voyager.flac"),
        Some("flac"),
        &proprietes(227_000),
        None,
    )
    .unwrap();
    assert!(metadata.from_filename);
    assert_eq!(metadata.track_no, Some(5));
    assert_eq!(metadata.artists, vec!["Daft Punk"]);
    assert_eq!(metadata.title, "Voyager");
    assert_eq!(metadata.duration_ms, 227_000);
}

#[test]
fn sans_rien_le_titre_par_defaut_sapplique() {
    let metadata = assemble(None, None, &proprietes(1), None).unwrap();
    assert_eq!(metadata.title, "Sans titre");
    assert_eq!(metadata.format, "inconnu");
}
