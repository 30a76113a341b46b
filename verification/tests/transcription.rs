use onzer::library::importer::{is_importable, should_skip};
use onzer::library::transcribe::{signed_lyrics, words_of_segments, Missing, Transcriber, SIGNATURE};

#[test]
fn le_detecteur_nomme_ce_qui_manque() {
    let manque = Missing {
        whisper: true,
        ffmpeg: false,
        model: true,
    };
    assert!(manque.whisper && manque.model && !manque.ffmpeg);
}

#[test]
fn la_detection_rassemble_les_trois_pieces() {
    let complet = Transcriber::detect(
        Some("/usr/bin/whisper-cli".to_string()),
        Some("/usr/bin/ffmpeg".to_string()),
        Some("/m/ggml.bin".to_string()),
    )
    .unwrap();
    assert_eq!(complet.whisper(), "/usr/bin/whisper-cli");
    assert_eq!(complet.ffmpeg(), "/usr/bin/ffmpeg");
    assert_eq!(complet.model(), "/m/ggml.bin");

    let manque = Transcriber::detect(None, Some("/usr/bin/ffmpeg".to_string()), None).unwrap_err();
    assert_eq!(manque, Missing { whisper: true, ffmpeg: false, model: true });
}

#[test]
fn lit_les_mots_horodates() {
    let segments = vec![
        (20, " Tu".to_string()),
        (450, " sais".to_string()),
        (0, "".to_string()),
    ];

    let mots = words_of_segments(&segments);

    assert_eq!(mots.len(), 2, "les segments vides sont écartés");
    assert_eq!(mots[0].at_ms, 20);
    assert_eq!(mots[0].text, "Tu");
    assert_eq!(mots[1].text, "sais");
}

#[test]
fn une_transcription_est_signee() {
    assert_eq!(signed_lyrics("  \n "), None);
    assert_eq!(
        signed_lyrics("\n[00:01.00] Bonjour\n"),
        Some(format!("{SIGNATURE}\n[00:01.00] Bonjour"))
    );
}

#[test]
fn les_fichiers_caches_sont_ignores() {
    assert!(should_skip(None));
    assert!(should_skip(Some("._morceau.mp3")));
    assert!(should_skip(Some(".DS_Store")));
    assert!(!should_skip(Some("morceau.mp3")));
    assert!(is_importable(Some("morceau.mp3")));
    assert!(!is_importable(Some("._morceau.mp3")));
    assert!(!is_importable(Some("pochette.jpg")));
    assert!(!is_importable(None));
}
