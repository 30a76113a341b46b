use onzer::identify::http::{jitter_seed, summarize, MAX_DOWNLOAD_BYTES, USER_AGENT};
use onzer::identify::spotify::summarize as summarize_spotify;

#[test]
fn lidentification_de_lapplication_est_conforme() {
    assert!(USER_AGENT.starts_with("Onzer/"));
    assert!(USER_AGENT.contains("http"), "un contact est exigé");
}

#[test]
fn la_limite_de_telechargement_encadre_une_pochette_realiste() {
    let pochette_4000px_jpeg = 6 * 1024 * 1024_u64;
    let reponse_aberrante = 500 * 1024 * 1024_u64;

    assert!(pochette_4000px_jpeg < MAX_DOWNLOAD_BYTES);
    assert!(reponse_aberrante > MAX_DOWNLOAD_BYTES);
}

#[test]
fn extrait_le_message_dune_erreur_json() {
    let body = r#"{"status":"error","error":{"message":"invalid fingerprint","code":5}}"#;

    assert_eq!(summarize(body), "invalid fingerprint");
}

#[test]
fn condense_une_reponse_non_json() {
    let resume = summarize("<html>\n  <body>Bad Request</body>\n</html>");

    assert!(!resume.contains('\n'));
    assert!(resume.contains("Bad Request"));
    assert_eq!(resume, "<html> <body>Bad Request</body> </html>");
}

#[test]
fn tronque_une_reponse_interminable() {
    let resume = summarize(&"x".repeat(10_000));
    assert!(resume.chars().count() <= 160);
    assert_eq!(resume.chars().count(), 160);
}

#[test]
fn un_message_qui_nest_pas_du_texte_nest_pas_retenu() {
    assert_eq!(summarize(r#"{"error":{"message":5}}"#), r#"{"error":{"message":5}}"#);
}

#[test]
fn extrait_la_phrase_utile_dune_erreur() {
    assert_eq!(
        summarize_spotify(r#"{"error":"invalid_client","error_description":"Invalid client"}"#),
        "Invalid client"
    );
    assert_eq!(summarize_spotify(r#"{"error":"invalid_grant"}"#), "invalid_grant");
    assert_eq!(summarize_spotify("panne"), "panne");
}

#[test]
fn la_gigue_varie_dun_appel_a_lautre() {
    let echantillons: std::collections::HashSet<u64> = (0..20).map(|_| jitter_seed()).collect();

    assert!(echantillons.len() > 1);
}

#[test]
fn la_gigue_reste_sous_la_seconde() {
    for _ in 0..20 {
        assert!(jitter_seed() < 1_000_000_000);
    }
}
