use std::collections::HashMap;

use onzer::identify::discover::{
    add_voter, artist_search_url, can_vote_for, rank, reason, similar_url, Vote, SUGGESTIONS,
};

/// The order key of a score, as `f64::total_cmp` orders.
fn cle(score: f64) -> u64 {
    let bits = score.to_bits();
    if bits >> 63 == 1 {
        !bits
    } else {
        bits | (1 << 63)
    }
}

fn vote(name: &str, score: f64, because: &[&str]) -> Vote {
    Vote {
        name: name.to_string(),
        score_key: cle(score),
        because: because.iter().map(|n| (*n).to_string()).collect(),
    }
}

fn classer(votes: HashMap<String, Vote>) -> Vec<onzer::identify::discover::Suggestion> {
    rank(votes.into_iter().collect())
}

#[test]
fn un_artiste_suggere_par_plusieurs_des_tiens_passe_devant() {
    let mut votes = HashMap::new();
    votes.insert("a".to_string(), vote("Consensuel", 0.6, &["Damso", "Népal"]));
    votes.insert("b".to_string(), vote("Périphérique", 0.9, &["Damso"]));

    let classement = classer(votes);
    assert_eq!(classement[0].name, "Périphérique", "0,9 reste devant 0,6");

    let mut votes = HashMap::new();
    votes.insert("a".to_string(), vote("Consensuel", 0.6 + 0.5, &["Damso"]));
    votes.insert("b".to_string(), vote("Périphérique", 0.9, &["Damso"]));

    assert_eq!(classer(votes)[0].name, "Consensuel");
}

#[test]
fn le_classement_est_reproductible() {
    let construire = || {
        let mut votes = HashMap::new();
        votes.insert("mbid-b".to_string(), vote("B", 0.5, &["Damso"]));
        votes.insert("mbid-a".to_string(), vote("A", 0.5, &["Damso"]));
        classer(votes)
    };

    let noms: Vec<String> = construire().into_iter().map(|s| s.name).collect();
    assert_eq!(noms, vec!["A", "B"]);
    for _ in 0..5 {
        let encore: Vec<String> = construire().into_iter().map(|s| s.name).collect();
        assert_eq!(noms, encore);
    }
}

#[test]
fn la_liste_est_plafonnee() {
    let votes: HashMap<String, Vote> = (0..40)
        .map(|index| {
            (
                format!("mbid-{index:02}"),
                vote(&format!("Artiste {index}"), f64::from(index), &["Damso"]),
            )
        })
        .collect();

    let classement = classer(votes);
    assert_eq!(classement.len(), SUGGESTIONS);
    assert_eq!(classement[0].name, "Artiste 39");
    assert_eq!(classement[SUGGESTIONS - 1].name, "Artiste 28");
}

#[test]
fn la_suggestion_porte_sa_justification() {
    let classement = rank(vec![("m".to_string(), vote("X", 1.0, &["Damso", "Népal", "Josman"]))]);
    assert_eq!(classement[0].mbid, "m");
    assert_eq!(classement[0].reason, "Parce que tu écoutes Damso, Népal et 1 autre");
    assert_eq!(classement[0].reason, reason(&["Damso".into(), "Népal".into(), "Josman".into()]));
    assert!(rank(Vec::new()).is_empty());
}

#[test]
fn un_artiste_deja_possede_ou_sans_nom_ne_recoit_pas_de_voix() {
    let possedes = vec!["damso".to_string(), "nepal".to_string()];
    assert!(can_vote_for("Hamza", &possedes));
    assert!(!can_vote_for("Damso", &possedes));
    assert!(!can_vote_for("Népal", &possedes));
    assert!(!can_vote_for("   ", &possedes));
    assert!(!can_vote_for("", &[]));
}

#[test]
fn un_artiste_graine_ne_vote_qu_une_fois() {
    let mut parce_que: Vec<String> = Vec::new();
    add_voter(&mut parce_que, "Damso");
    add_voter(&mut parce_que, "Népal");
    add_voter(&mut parce_que, "Damso");
    assert_eq!(parce_que, vec!["Damso".to_string(), "Népal".to_string()]);
}

#[test]
fn les_requetes_de_la_decouverte() {
    assert_eq!(
        artist_search_url("Népal"),
        "https://musicbrainz.org/ws/2/artist?query=artist:N%C3%A9pal&fmt=json&limit=1"
    );
    assert_eq!(
        similar_url("abc"),
        "https://labs.api.listenbrainz.org/similar-artists/json?artist_mbids=abc&algorithm=\
         session_based_days_7500_session_300_contribution_5_threshold_10_limit_100_filter_True_skip_30"
    );
}
