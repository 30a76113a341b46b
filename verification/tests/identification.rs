use onzer::identify::musicbrainz::{
    best_genre, parse_year, pick_release, release_year, split_artist_credit, track_position, Artist,
    ArtistCredit, Genre, Medium, Release, ReleaseGroup, Track,
};
use onzer::identify::revise::{assess_album, AlbumVerdict};
use onzer::identify::spotify::playlist_id;
use onzer::identify::verdict::agrees;

fn titres(list: &[&str]) -> Vec<String> {
    list.iter().map(|title| (*title).to_string()).collect()
}

#[test]
fn efface_lalbum_venu_dune_compilation() {
    let verdict = assess_album(
        "I migliori anni '90",
        None,
        &titres(&["I migliori anni '90", "Planète Rap 2017", "#Hits été 2017"]),
    );

    assert_eq!(verdict, AlbumVerdict::Clear);
}

#[test]
fn nefface_pas_un_album_que_musicbrainz_ignore() {
    let verdict = assess_album(
        "Mon album à moi",
        None,
        &titres(&["I migliori anni '90", "Planète Rap 2017"]),
    );

    assert_eq!(verdict, AlbumVerdict::Keep);
}

#[test]
fn substitue_une_parution_correcte() {
    let verdict = assess_album(
        "Now That's What I Call Music 48",
        Some(("Discovery", Some(2001))),
        &titres(&["Now That's What I Call Music 48", "Discovery"]),
    );

    assert_eq!(
        verdict,
        AlbumVerdict::Replace {
            title: "Discovery".to_string(),
            year: Some(2001),
        }
    );
}

#[test]
fn ne_bouge_pas_pour_une_difference_de_casse_ou_daccent() {
    assert_eq!(
        assess_album("ipseite", Some(("Ipséité", Some(2017))), &titres(&["Ipséité"])),
        AlbumVerdict::Keep
    );
    assert_eq!(
        assess_album("DISCOVERY", Some(("Discovery", None)), &titres(&["Discovery"])),
        AlbumVerdict::Keep
    );
}

#[test]
fn un_enregistrement_sans_aucune_parution_ne_touche_a_rien() {
    assert_eq!(assess_album("Ipséité", None, &[]), AlbumVerdict::Keep);
}

#[test]
fn les_suffixes_de_rip_ne_cassent_pas_la_correspondance() {
    assert_eq!(agrees(Some("carmen"), Some("carmen (Clip Officiel)")), Some(true));
    assert_eq!(agrees(Some("Macarena"), Some("MACARENA")), Some(true));
}

#[test]
fn deux_titres_courts_ne_se_confondent_pas_par_inclusion() {
    assert_eq!(agrees(Some("Go"), Some("Django")), Some(false));
}

#[test]
fn une_valeur_absente_ne_dit_ni_oui_ni_non() {
    assert_eq!(agrees(None, Some("Macarena")), None);
    assert_eq!(agrees(Some("Macarena"), None), None);
    assert_eq!(agrees(Some("   "), Some("Macarena")), None);
}

#[test]
fn reconnait_une_adresse_copiee_depuis_lapplication() {
    assert_eq!(
        playlist_id("https://open.spotify.com/playlist/37i9dQZF1DXcBWIGoYBM5M?si=abc123"),
        Some("37i9dQZF1DXcBWIGoYBM5M".to_string())
    );
}

#[test]
fn reconnait_les_autres_formes() {
    for entree in [
        "spotify:playlist:37i9dQZF1DXcBWIGoYBM5M",
        "37i9dQZF1DXcBWIGoYBM5M",
        "https://open.spotify.com/intl-fr/playlist/37i9dQZF1DXcBWIGoYBM5M",
        "  https://open.spotify.com/playlist/37i9dQZF1DXcBWIGoYBM5M/  ",
    ] {
        assert_eq!(
            playlist_id(entree),
            Some("37i9dQZF1DXcBWIGoYBM5M".to_string()),
            "forme non reconnue : {entree}"
        );
    }
}

#[test]
fn refuse_ce_qui_nest_pas_une_playlist() {
    assert_eq!(playlist_id(""), None);
    assert_eq!(playlist_id("   "), None);
    assert_eq!(playlist_id("bonjour"), None);
    assert_eq!(
        playlist_id("https://open.spotify.com/album/1DFixLWuPkv3KT3TnV35m3"),
        None,
        "un album n'est pas une playlist"
    );
}

fn release(
    id: &str,
    title: &str,
    status: Option<&str>,
    primary: Option<&str>,
    secondary: &[&str],
    date: Option<&str>,
) -> Release {
    Release {
        id: id.to_string(),
        title: title.to_string(),
        date: date.map(str::to_string),
        status: status.map(str::to_string),
        release_group: Some(ReleaseGroup {
            id: format!("{id}-group"),
            primary_type: primary.map(str::to_string),
            secondary_types: secondary.iter().map(|s| (*s).to_string()).collect(),
            first_release_date: date.map(str::to_string),
        }),
        media: Vec::new(),
    }
}

fn credit(name: &str, join: &str) -> ArtistCredit {
    ArtistCredit {
        name: name.to_string(),
        joinphrase: join.to_string(),
        artist: Some(Artist {
            name: name.to_string(),
        }),
    }
}

#[test]
fn prefere_lalbum_original_a_une_compilation() {
    let parutions = vec![
        release("comp", "Now That's What I Call Music 48", Some("Official"),
                Some("Album"), &["Compilation"], Some("2001-11-01")),
        release("album", "Discovery", Some("Official"), Some("Album"), &[], Some("2001-03-12")),
    ];

    assert_eq!(pick_release(&parutions).unwrap().title, "Discovery");
}

#[test]
fn prefere_une_parution_officielle() {
    let parutions = vec![
        release("boot", "Bootleg", None, Some("Album"), &[], Some("2000")),
        release("off", "Officielle", Some("Official"), Some("Album"), &[], Some("2005")),
    ];

    assert_eq!(pick_release(&parutions).unwrap().title, "Officielle");
}

#[test]
fn prefere_un_album_a_un_single() {
    let parutions = vec![
        release("s", "Le single", Some("Official"), Some("Single"), &[], Some("2001")),
        release("a", "L'album", Some("Official"), Some("Album"), &[], Some("2001")),
    ];

    assert_eq!(pick_release(&parutions).unwrap().title, "L'album");
}

#[test]
fn departage_deux_albums_par_lanciennete() {
    let parutions = vec![
        release("re", "Discovery (Remastered)", Some("Official"), Some("Album"), &[], Some("2015")),
        release("or", "Discovery", Some("Official"), Some("Album"), &[], Some("2001")),
    ];

    assert_eq!(pick_release(&parutions).unwrap().title, "Discovery");
}

#[test]
fn un_single_officiel_bat_un_album_non_officiel() {
    let parutions = vec![
        release("x", "Album pirate", None, Some("Album"), &[], Some("2001")),
        release("y", "Single officiel", Some("Official"), Some("Single"), &[], Some("2001")),
    ];

    assert_eq!(pick_release(&parutions).unwrap().title, "Single officiel");
}

#[test]
fn une_liste_vide_ne_donne_aucune_parution() {
    assert!(pick_release(&[]).is_none());
}

#[test]
fn seules_des_compilations_ne_donnent_aucun_album() {
    let parutions = vec![
        release("c1", "Hits 2017", Some("Official"), Some("Compilation"), &[], Some("2017")),
        release("c2", "Été 2017", Some("Official"), Some("Album"), &["compilation"], Some("2017")),
    ];

    assert!(pick_release(&parutions).is_none());
}

#[test]
fn a_egalite_la_derniere_parution_lemporte() {
    let parutions = vec![
        release("a", "Premier", Some("Official"), Some("Album"), &[], Some("2001")),
        release("b", "Second", Some("Official"), Some("Album"), &[], Some("2001")),
    ];

    assert_eq!(pick_release(&parutions).unwrap().title, "Second");
}

#[test]
fn extrait_lannee_de_tous_les_formats_de_date() {
    assert_eq!(parse_year("2001"), Some(2001));
    assert_eq!(parse_year("2001-03"), Some(2001));
    assert_eq!(parse_year("2001-03-12"), Some(2001));
}

#[test]
fn rejette_les_dates_aberrantes() {
    assert_eq!(parse_year(""), None);
    assert_eq!(parse_year("abcd"), None);
    assert_eq!(parse_year("12"), None);
    assert_eq!(parse_year("0001"), None);
}

#[test]
fn lannee_dorigine_prime_sur_celle_de_la_reedition() {
    let mut reedition = release("r", "Album", Some("Official"), Some("Album"), &[], None);
    reedition.date = Some("2015-06-01".to_string());
    reedition.release_group.as_mut().unwrap().first_release_date =
        Some("1998-01-16".to_string());

    assert_eq!(release_year(&reedition), Some(1998));
}

#[test]
fn separe_les_invites_du_titulaire() {
    let credits = vec![
        credit("Daft Punk", " feat. "),
        credit("Pharrell Williams", ""),
    ];

    let (principaux, invites) = split_artist_credit(&credits);
    assert_eq!(principaux, vec!["Daft Punk"]);
    assert_eq!(invites, vec!["Pharrell Williams"]);
}

#[test]
fn conserve_les_co_titulaires_comme_principaux() {
    let credits = vec![credit("Simon", " & "), credit("Garfunkel", "")];

    let (principaux, invites) = split_artist_credit(&credits);
    assert_eq!(principaux, vec!["Simon", "Garfunkel"]);
    assert!(invites.is_empty());
}

#[test]
fn gere_plusieurs_invites() {
    let credits = vec![
        credit("Calvin Harris", " feat. "),
        credit("Dua Lipa", " & "),
        credit("Young Thug", ""),
    ];

    let (principaux, invites) = split_artist_credit(&credits);
    assert_eq!(principaux, vec!["Calvin Harris"]);
    assert_eq!(invites, vec!["Dua Lipa", "Young Thug"]);
}

#[test]
fn ignore_les_credits_vides() {
    let credits = vec![credit("", ""), credit("Air", "")];

    let (principaux, _) = split_artist_credit(&credits);
    assert_eq!(principaux, vec!["Air"]);
}

#[test]
fn lit_le_numero_de_piste_et_de_disque() {
    let mut parution = release("a", "Album", Some("Official"), Some("Album"), &[], Some("2001"));
    parution.media = vec![Medium {
        position: Some(2),
        track: vec![Track {
            number: Some("7".to_string()),
            position: Some(7),
        }],
    }];

    assert_eq!(track_position(&parution), Some((Some(7), Some(2))));
}

#[test]
fn retombe_sur_la_position_quand_le_numero_nest_pas_numerique() {
    let mut parution = release("a", "Album", Some("Official"), Some("Album"), &[], Some("1975"));
    parution.media = vec![Medium {
        position: Some(1),
        track: vec![Track {
            number: Some("A1".to_string()),
            position: Some(1),
        }],
    }];

    assert_eq!(track_position(&parution), Some((Some(1), Some(1))));
}

#[test]
fn retient_le_genre_le_plus_attribue() {
    let genres = vec![
        Genre { name: "house".into(), count: 3 },
        Genre { name: "french house".into(), count: 12 },
        Genre { name: "electronic".into(), count: 7 },
    ];

    assert_eq!(best_genre(&genres).as_deref(), Some("french house"));
}

#[test]
fn aucun_genre_ne_donne_rien() {
    assert!(best_genre(&[]).is_none());
}

#[test]
fn un_genre_sans_nom_nest_pas_retenu() {
    let genres = vec![
        Genre { name: "  ".into(), count: 40 },
        Genre { name: "rap".into(), count: 2 },
    ];

    assert_eq!(best_genre(&genres).as_deref(), Some("rap"));
}
