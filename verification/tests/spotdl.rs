use onzer::identify::spotdl::{playlist_name, tracks, Entry, PlaylistTrack, SpotdlError};
use serde_json::Value;

const EXEMPLE: &str = r#"[
    {
        "name": "Macarena",
        "artists": ["Damso"],
        "artist": "Damso",
        "album_name": "Ipséité",
        "duration": 206.4,
        "url": "https://open.spotify.com/track/abc",
        "song_list": {"name": "Le reste"}
    },
    {
        "name": "BXL ZOO",
        "artists": ["Damso", "Hamza"],
        "duration": 180.0
    }
]"#;

fn text(object: &Value, keys: &[&str]) -> Option<String> {
    keys.iter()
        .find_map(|key| object.get(*key))
        .and_then(Value::as_str)
        .map(str::to_string)
}

/// Reads the file's JSON into entries, as the application does before handing
/// them to the library.
fn entries_of(raw: &str) -> Result<Vec<Entry>, String> {
    let value: Value = serde_json::from_str(raw).map_err(|error| error.to_string())?;
    let items = value.as_array().ok_or_else(|| "pas un tableau".to_string())?;
    let mut entries = Vec::new();
    for item in items {
        if !item.is_object() {
            return Err("entrée illisible".to_string());
        }
        let artists = item
            .get("artists")
            .and_then(Value::as_array)
            .map(|list| list.iter().filter_map(Value::as_str).map(str::to_string).collect())
            .unwrap_or_default();
        entries.push(Entry {
            name: text(item, &["name", "title"]).unwrap_or_default(),
            artists,
            artist: text(item, &["artist"]),
            album_name: text(item, &["album_name", "album"]),
            duration_ms: item.get("duration_ms").and_then(Value::as_i64),
            duration_from_seconds: item
                .get("duration")
                .and_then(Value::as_f64)
                .map(|seconds| (seconds * 1000.0).round() as i64),
            url: text(item, &["url"]),
            playlist: item.get("song_list").and_then(|list| text(list, &["name"])),
        });
    }
    Ok(entries)
}

fn parse(raw: &str) -> Result<Vec<PlaylistTrack>, String> {
    let entries = entries_of(raw)?;
    tracks(entries).map_err(|error| error.message().to_string())
}

fn entree(name: &str, artist: &str) -> Entry {
    Entry {
        name: name.to_string(),
        artists: Vec::new(),
        artist: Some(artist.to_string()),
        album_name: None,
        duration_ms: None,
        duration_from_seconds: None,
        url: None,
        playlist: None,
    }
}

#[test]
fn lit_un_fichier_spotdl() {
    let tracks = parse(EXEMPLE).unwrap();

    assert_eq!(tracks.len(), 2);
    assert_eq!(tracks[0].title, "Macarena");
    assert_eq!(tracks[0].main_artist(), Some("Damso"));
    assert_eq!(tracks[0].album.as_deref(), Some("Ipséité"));
}

#[test]
fn convertit_les_secondes_en_millisecondes() {
    let tracks = parse(EXEMPLE).unwrap();

    assert_eq!(tracks[0].duration_ms, 206_400);
    assert_eq!(tracks[1].duration_ms, 180_000);
}

#[test]
fn conserve_tous_les_credits() {
    let tracks = parse(EXEMPLE).unwrap();

    assert_eq!(tracks[1].artists, vec!["Damso", "Hamza"]);
    assert_eq!(
        tracks[1].main_artist(),
        Some("Damso"),
        "le premier crédité reste le principal"
    );
}

#[test]
fn compose_une_requete_utilisable() {
    assert_eq!(parse(EXEMPLE).unwrap()[0].query, "Damso - Macarena");
}

#[test]
fn retrouve_le_nom_de_la_playlist() {
    let entries = entries_of(EXEMPLE).unwrap();
    assert_eq!(playlist_name(&entries).as_deref(), Some("Le reste"));
}

#[test]
fn se_rabat_sur_le_champ_artist_seul() {
    let tracks = parse(r#"[{"name": "Titre", "artist": "Népal", "duration": 120}]"#).unwrap();

    assert_eq!(tracks[0].artists, vec!["Népal"]);
    assert_eq!(tracks[0].query, "Népal - Titre");
}

#[test]
fn ignore_les_entrees_sans_titre() {
    let tracks =
        parse(r#"[{"name": "", "artist": "X"}, {"name": "Vrai", "artist": "Y"}]"#).unwrap();

    assert_eq!(tracks.len(), 1);
    assert_eq!(tracks[0].title, "Vrai");
}

#[test]
fn refuse_ce_qui_nest_pas_un_fichier_spotdl() {
    assert!(parse("bonjour").is_err());
    assert!(parse("{}").is_err());
    assert!(parse("[]").is_err(), "un fichier vide n'a rien à comparer");
}

#[test]
fn une_duree_absente_ne_fait_pas_echouer_la_lecture() {
    let tracks = parse(r#"[{"name": "Titre", "artist": "X"}]"#).unwrap();
    assert_eq!(tracks[0].duration_ms, 0);
}

#[test]
fn une_liste_vide_donne_l_erreur_attendue() {
    assert_eq!(tracks(Vec::new()).unwrap_err(), SpotdlError::Empty);
    assert_eq!(SpotdlError::Empty.message(), "le fichier ne contient aucun titre");
}

#[test]
fn les_titres_sont_rognes_et_les_credits_vides_ecartes() {
    let mut entry = entree("  Titre  ", "  ");
    entry.artists = vec!["  A ".to_string(), "   ".to_string(), "B".to_string()];
    entry.album_name = Some("   ".to_string());
    entry.duration_ms = Some(1234);
    entry.duration_from_seconds = Some(9999);
    let tracks = tracks(vec![entry]).unwrap();
    assert_eq!(tracks[0].title, "Titre");
    assert_eq!(tracks[0].artists, vec!["A", "B"]);
    assert_eq!(tracks[0].album, None);
    assert_eq!(tracks[0].duration_ms, 1234, "duration_ms l'emporte sur la durée en secondes");
    assert_eq!(tracks[0].query, "A - Titre");
    assert_eq!(tracks[0].url, "");
}

#[test]
fn sans_artiste_la_requete_est_le_titre() {
    let entry = entree("Seul", " ");
    let tracks = tracks(vec![entry]).unwrap();
    assert!(tracks[0].artists.is_empty());
    assert_eq!(tracks[0].main_artist(), None);
    assert_eq!(tracks[0].query, "Seul");
}

#[test]
fn la_liste_est_plafonnee_a_cinq_mille_titres() {
    let entries: Vec<Entry> = (0..5_010).map(|n| entree(&format!("T{n}"), "X")).collect();
    let tracks = tracks(entries).unwrap();
    assert_eq!(tracks.len(), 5_000);
    assert_eq!(tracks[0].title, "T0");
    assert_eq!(tracks[4_999].title, "T4999");
}

#[test]
fn un_nom_de_playlist_vide_ne_compte_pas() {
    let mut first = entree("A", "X");
    first.playlist = Some("  ".to_string());
    let mut second = entree("B", "X");
    second.playlist = Some("Autre".to_string());
    assert_eq!(playlist_name(&[first, second]), None);
    let mut third = entree("C", "X");
    third.playlist = Some("Autre".to_string());
    assert_eq!(playlist_name(&[entree("D", "X"), third]).as_deref(), Some("Autre"));
}
