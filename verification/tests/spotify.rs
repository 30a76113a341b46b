use onzer::identify::spotify::{
    add_page, details_url, page_url, playlist_id_or_error, PlaylistItem, SpotifyClient,
    SpotifyError, SpotifyTrack, TrackObject, MAX_TRACKS, PAGE_SIZE,
};

fn item(name: &str, artists: &[&str]) -> PlaylistItem {
    PlaylistItem {
        track: Some(TrackObject {
            name: name.to_string(),
            duration_ms: 200_000,
            artists: artists.iter().map(|a| (*a).to_string()).collect(),
            album: Some("Album".to_string()),
            url: Some("https://open.spotify.com/track/x".to_string()),
        }),
    }
}

#[test]
fn un_element_devient_un_titre() {
    let titre = item("Macarena", &["Damso", " ", "Hamza"]).into_track().unwrap();
    assert_eq!(titre.title, "Macarena");
    assert_eq!(titre.artists, vec!["Damso", "Hamza"]);
    assert_eq!(titre.main_artist(), Some("Damso"));
    assert_eq!(titre.album.as_deref(), Some("Album"));
    assert_eq!(titre.duration_ms, 200_000);
    assert_eq!(titre.url, "https://open.spotify.com/track/x");
}

#[test]
fn un_element_sans_titre_ou_retire_est_ignore() {
    assert!(PlaylistItem { track: None }.into_track().is_none());
    assert!(item("  ", &["X"]).into_track().is_none());
    let mut sans_lien = item("T", &[]);
    if let Some(track) = sans_lien.track.as_mut() {
        track.url = None;
    }
    assert_eq!(sans_lien.into_track().unwrap().url, "");
}

#[test]
fn une_page_incomplete_est_la_derniere() {
    let mut titres: Vec<SpotifyTrack> = Vec::new();
    let encore = add_page(&mut titres, vec![item("A", &["X"]), PlaylistItem { track: None }, item("B", &[])]);

    assert!(!encore);
    assert_eq!(titres.len(), 2);
    assert_eq!(titres[0].title, "A");
    assert_eq!(titres[1].title, "B");
}

#[test]
fn une_page_pleine_appelle_la_suivante() {
    let mut titres: Vec<SpotifyTrack> = Vec::new();
    let page: Vec<PlaylistItem> = (0..PAGE_SIZE).map(|n| item(&format!("T{n}"), &["X"])).collect();

    assert!(add_page(&mut titres, page));
    assert_eq!(titres.len(), PAGE_SIZE);
}

#[test]
fn la_lecture_s_arrete_au_plafond() {
    let mut titres: Vec<SpotifyTrack> = Vec::new();
    let mut pages = 0;
    loop {
        let page: Vec<PlaylistItem> = (0..PAGE_SIZE).map(|n| item(&format!("T{n}"), &["X"])).collect();
        pages += 1;
        if !add_page(&mut titres, page) {
            break;
        }
    }
    assert_eq!(titres.len(), MAX_TRACKS);
    assert_eq!(pages, MAX_TRACKS / PAGE_SIZE);
}

#[test]
fn des_identifiants_vides_sont_refuses() {
    assert_eq!(
        SpotifyClient::new(" ".to_string(), "secret".to_string()).err(),
        Some(SpotifyError::MissingCredentials)
    );
    assert!(SpotifyClient::new("id".to_string(), String::new()).is_err());
    let client = SpotifyClient::new(" id ".to_string(), " secret ".to_string()).ok().unwrap();
    assert_eq!(client.client_id(), "id");
    assert_eq!(client.client_secret(), "secret");
}

#[test]
fn les_requetes_visent_la_playlist() {
    assert_eq!(details_url("37i9"), "https://api.spotify.com/v1/playlists/37i9?fields=name");
    assert_eq!(
        page_url("37i9", 100),
        "https://api.spotify.com/v1/playlists/37i9/tracks?limit=50&offset=100\
         &fields=items(track(name,duration_ms,artists(name),album(name),external_urls(spotify)))"
    );
}

#[test]
fn un_lien_non_reconnu_est_explique() {
    assert_eq!(playlist_id_or_error("").unwrap_err(), SpotifyError::UnknownLink);
    assert_eq!(
        playlist_id_or_error("https://open.spotify.com/playlist/37i9dQZF1DXcBWIGoYBM5M?si=abc").unwrap(),
        "37i9dQZF1DXcBWIGoYBM5M"
    );
    assert_eq!(
        SpotifyError::Refused { status: 400, summary: "invalid_client".to_string() }.message(),
        "Spotify a refusé les identifiants (400) : invalid_client"
    );
    assert_eq!(
        SpotifyError::NotFound.message(),
        "playlist introuvable — est-elle bien publique ?"
    );
}
