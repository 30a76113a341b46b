use onzer::identify::worker::{
    after_turn, needs_new_client, next_stage, usable_key, Attempt, LoopState, Mark, Next, Report,
    Stage, Turn, IDLE_INTERVAL, REST_BETWEEN_TRACKS,
};
use onzer::library::audio_hash::{
    chunk_header, container_kind, flac_block, id3_skip, id3v2_length, plan, strip_ape, strip_id3v1,
    AudioRange, Container, Plan, Walk,
};

fn id3v2(payload: u32, footer: bool) -> Vec<u8> {
    vec![
        b'I', b'D', b'3', 4, 0, if footer { 0x10 } else { 0 },
        ((payload >> 21) & 0x7F) as u8,
        ((payload >> 14) & 0x7F) as u8,
        ((payload >> 7) & 0x7F) as u8,
        (payload & 0x7F) as u8,
        0, 0,
    ]
}

#[test]
fn l_entete_id3v2_est_saute_avec_son_pied_de_page() {
    assert_eq!(id3_skip(&id3v2(1000, false)), 1010);
    assert_eq!(id3_skip(&id3v2(1000, true)), 1020);
    assert_eq!(id3v2_length(&id3v2(300, false)), Some(310));
    assert_eq!(id3_skip(b"fLaC\0\0\0\0\0\0\0\0"), 0);
}

#[test]
fn une_taille_id3v2_non_synchsafe_est_ignoree() {
    let mut entete = id3v2(10, false);
    entete[7] = 0x80;
    assert_eq!(id3v2_length(&entete), None);
    assert_eq!(id3_skip(&entete), 0);
}

#[test]
fn les_conteneurs_sont_reconnus() {
    assert_eq!(container_kind(b"fLaC\0\0\0\x22"), Container::Flac);
    assert_eq!(container_kind(b"RIFF\x24\0\0\0WAVE"), Container::Wave);
    assert_eq!(container_kind(b"\0\0\0\x20ftypM4A "), Container::Mp4);
    assert_eq!(container_kind(b"OggS\0\x02\0\0"), Container::Ogg);
    assert_eq!(container_kind(&[0xFF, 0xFB, 0x90, 0x64]), Container::Plain);
    assert_eq!(container_kind(b"RIFF"), Container::Plain);
}

#[test]
fn les_blocs_flac_menent_a_l_audio() {
    assert_eq!(flac_block(&[0x00, 0, 0, 34], 4, 1000), Walk::Next(42));
    assert_eq!(
        flac_block(&[0x84, 0, 1, 0], 42, 1000),
        Walk::Found(AudioRange { start: 302, end: 1000 })
    );
    assert_eq!(flac_block(&[0x84, 0, 1], 42, 1000), Walk::Fail);
    assert_eq!(flac_block(&[0x84, 0xFF, 0xFF, 0xFF], 42, 1000), Walk::Fail);
}

#[test]
fn le_bloc_data_d_un_wav_est_trouve() {
    let fmt = [b'f', b'm', b't', b' ', 16, 0, 0, 0];
    assert_eq!(chunk_header(&fmt, 12, 100, b"data", true), Walk::Next(36));
    let data = [b'd', b'a', b't', b'a', 40, 0, 0, 0];
    assert_eq!(
        chunk_header(&data, 36, 100, b"data", true),
        Walk::Found(AudioRange { start: 44, end: 84 })
    );
    let impair = [b'L', b'I', b'S', b'T', 3, 0, 0, 0];
    assert_eq!(chunk_header(&impair, 36, 100, b"data", true), Walk::Next(48));
}

#[test]
fn l_atome_mdat_d_un_mp4_est_trouve() {
    let ftyp = [0, 0, 0, 24, b'f', b't', b'y', b'p'];
    assert_eq!(chunk_header(&ftyp, 0, 500, b"mdat", false), Walk::Next(24));
    let mdat = [0, 0, 1, 0, b'm', b'd', b'a', b't'];
    assert_eq!(
        chunk_header(&mdat, 24, 200, b"mdat", false),
        Walk::Found(AudioRange { start: 32, end: 200 })
    );
    let court = [0, 0, 0, 4, b'm', b'd', b'a', b't'];
    assert_eq!(chunk_header(&court, 24, 200, b"mdat", false), Walk::Fail);
    assert_eq!(chunk_header(&mdat, 196, 200, b"mdat", false), Walk::Fail);
}

#[test]
fn les_queues_id3v1_et_ape_sont_retirees() {
    assert_eq!(strip_id3v1(1000, 10, b"TAG"), 872);
    assert_eq!(strip_id3v1(1000, 10, b"XYZ"), 1000);
    assert_eq!(strip_id3v1(100, 10, b"TAG"), 100);

    let mut pied = vec![0_u8; 32];
    pied[..8].copy_from_slice(b"APETAGEX");
    pied[12] = 64;
    assert_eq!(strip_ape(872, 10, &pied), 808);
    pied[23] = 0x80;
    assert_eq!(strip_ape(872, 10, &pied), 776);
    pied[12] = 0xFF;
    pied[13] = 0xFF;
    assert_eq!(strip_ape(872, 10, &pied), 872);
}

#[test]
fn un_morceau_regle_remet_le_compteur_a_zero() {
    let (etat, pause) = after_turn(LoopState { consecutive_failures: 4 }, Turn::Attempted(Attempt::Settled));
    assert_eq!(etat.consecutive_failures, 0);
    assert_eq!(pause, REST_BETWEEN_TRACKS);
}

#[test]
fn les_pannes_allongent_la_mise_en_sommeil() {
    let mut etat = LoopState { consecutive_failures: 0 };
    let mut pauses = Vec::new();
    for _ in 0..12 {
        let (suivant, pause) = after_turn(etat, Turn::Attempted(Attempt::ServiceUnavailable));
        etat = suivant;
        pauses.push(pause);
    }
    assert_eq!(pauses[0], IDLE_INTERVAL);
    assert_eq!(pauses[1], 2 * IDLE_INTERVAL);
    assert_eq!(pauses[11], 10 * IDLE_INTERVAL);
    assert_eq!(etat.consecutive_failures, 12);
    assert_eq!(after_turn(etat, Turn::QueueEmpty), (etat, IDLE_INTERVAL));
}

#[test]
fn une_cle_vide_nest_pas_utilisable() {
    assert_eq!(usable_key(Some("  ".to_string())), None);
    assert_eq!(usable_key(None), None);
    assert_eq!(usable_key(Some(" cle ".to_string())), Some(" cle ".to_string()));
    assert!(needs_new_client(None, &"k".to_string()));
    assert!(needs_new_client(Some(&"a".to_string()), &"b".to_string()));
    assert!(!needs_new_client(Some(&"a".to_string()), &"a".to_string()));
}

#[test]
fn l_identification_suit_ses_etapes() {
    assert_eq!(next_stage(Stage::Fingerprint, Report::Done), Next::Go(Stage::AcoustId));
    assert_eq!(next_stage(Stage::AcoustId, Report::Unknown), Next::Go(Stage::SearchByName));
    assert_eq!(
        next_stage(Stage::AcoustId, Report::ServiceFailed("délai dépassé".into())),
        Next::Stop {
            mark: None,
            clear_error: false,
            record_error: Some("AcoustID — délai dépassé".into()),
            attempt: Attempt::ServiceUnavailable
        }
    );
    assert_eq!(
        next_stage(Stage::MusicBrainz, Report::ServiceFailed("503".into())),
        Next::Stop {
            mark: None,
            clear_error: false,
            record_error: Some("MusicBrainz — 503".into()),
            attempt: Attempt::ServiceUnavailable
        }
    );
    assert_eq!(
        next_stage(Stage::SearchByName, Report::ServiceFailed("503".into())),
        Next::Stop {
            mark: None,
            clear_error: false,
            record_error: Some("MusicBrainz — 503".into()),
            attempt: Attempt::ServiceUnavailable
        }
    );
    assert_eq!(
        next_stage(Stage::Judge, Report::Rejected("fiche sans parution".into())),
        Next::Stop {
            mark: Some(Mark::Rejected("fiche sans parution".into())),
            clear_error: true,
            record_error: None,
            attempt: Attempt::Settled
        }
    );
    assert_eq!(next_stage(Stage::TryHit, Report::Rejected("non".into())), Next::Go(Stage::TryHit));
    assert_eq!(
        next_stage(Stage::TryHit, Report::NoMoreHits),
        Next::Stop { mark: Some(Mark::NotFound), clear_error: true, record_error: None, attempt: Attempt::Settled }
    );
    assert_eq!(
        next_stage(Stage::Apply, Report::Done),
        Next::Stop { mark: None, clear_error: true, record_error: None, attempt: Attempt::Settled }
    );
}

#[test]
fn le_plan_suit_le_conteneur() {
    let nu = *b"\xff\xfb\x90\x00\0\0\0\0\0\0\0\0";
    assert_eq!(plan(&nu, 5_000, &nu), Plan::Trailing(0));
    assert_eq!(plan(b"fLaC\0\0\0\x22\0\0\0\0", 5_000, b"fLaC\0\0\0\x22"), Plan::FlacBlocks(4));
    assert_eq!(plan(b"RIFF\x24\0\0\0WAVEfmt ", 5_000, b"RIFF\x24\0\0\0WAVE"), Plan::WaveChunks(12));
    assert_eq!(plan(b"\0\0\0\x18ftypM4A ", 5_000, b"\0\0\0\x18ftypM4A "), Plan::Mp4Atoms(0));
    assert_eq!(plan(b"OggS\0\x02\0\0\0\0\0\0", 5_000, b"OggS"), Plan::Whole);
}

#[test]
fn un_flac_precede_d_un_id3_commence_apres_le_tag() {
    let tete = id3v2(100, false);
    assert_eq!(plan(&tete, 5_000, b"fLaC\0\0\0\x22"), Plan::FlacBlocks(114));
    assert_eq!(plan(&tete, 5_000, b"\xff\xfb"), Plan::Trailing(110));
}

#[test]
fn un_fichier_minuscule_ou_un_tag_demesure_donnent_le_fichier_entier() {
    assert_eq!(plan(b"ID3", 3, b""), Plan::Whole);
    let tete = id3v2(10_000, false);
    assert_eq!(plan(&tete, 500, b""), Plan::Whole);
}

/// The audio span of an MP3 held in memory, found as the application does.
fn etendue(fichier: &[u8]) -> (u64, u64) {
    let lire = |at: u64, n: usize| -> Vec<u8> {
        let at = at as usize;
        if at >= fichier.len() {
            Vec::new()
        } else {
            fichier[at..(at + n).min(fichier.len())].to_vec()
        }
    };
    let taille = fichier.len() as u64;
    let magic = lire(0, 12);
    let debut = id3_skip(&magic);
    let conteneur = if debut < taille { lire(debut, 12) } else { Vec::new() };
    match plan(&magic, taille, &conteneur) {
        Plan::Trailing(plancher) => {
            let marque = if taille >= plancher + 128 { lire(taille - 128, 3) } else { Vec::new() };
            let fin = strip_id3v1(taille, plancher, &marque);
            let pied = if fin >= plancher + 32 { lire(fin - 32, 32) } else { Vec::new() };
            (plancher, strip_ape(fin, plancher, &pied))
        }
        autre => panic!("plan inattendu : {autre:?}"),
    }
}

#[test]
fn le_retag_ne_change_pas_l_etendue_audio() {
    let audio: Vec<u8> = (0..4_000u32).map(|i| (i % 200) as u8 + 1).collect();
    let mut audio = audio;
    audio[0] = 0xFF;
    audio[1] = 0xFB;

    let mut court = id3v2(100, false);
    court.resize(110, 0);
    let mut long = id3v2(2_000, true);
    long.resize(2_020, 0);

    let premier: Vec<u8> = court.iter().chain(audio.iter()).copied().collect();
    let second: Vec<u8> = long.iter().chain(audio.iter()).copied().collect();

    let (d1, f1) = etendue(&premier);
    let (d2, f2) = etendue(&second);
    assert_eq!((d1, f1), (110, 4_110));
    assert_eq!((d2, f2), (2_020, 6_020));
    assert_eq!(&premier[d1 as usize..f1 as usize], &second[d2 as usize..f2 as usize]);
}
