use onzer::identify::http::{classify_response, retry_after_ms, Response, MAX_DOWNLOAD_BYTES};
use onzer::identify::ratelimit::{
    decide, Backoff, Decision, Outcome, ACOUSTID_MIN_INTERVAL, MUSICBRAINZ_MIN_INTERVAL,
};
use onzer::identify::worker::{cooldown, IDLE_INTERVAL, MAX_BACKOFF_MULTIPLIER};
use onzer::ingest::token::{constant_time_eq, generate, reusable_token};
use onzer::library::sidecar::split_name;

fn backoff() -> Backoff {
    Backoff::default()
}

#[test]
fn le_delai_croit_de_facon_exponentielle() {
    let backoff = backoff();

    let premier = backoff.delay(1, 0);
    let deuxieme = backoff.delay(2, 0);
    let troisieme = backoff.delay(3, 0);

    assert!(deuxieme > premier);
    assert!(troisieme > deuxieme);
    assert!(troisieme >= premier * 3, "la croissance doit être franche");
}

#[test]
fn le_delai_est_plafonne() {
    let backoff = backoff();

    assert!(backoff.delay(30, 0) <= backoff.max as u128 * 1000);
}

#[test]
fn la_gigue_desynchronise_les_clients() {
    let backoff = backoff();

    let delais: Vec<u128> = (0..50).map(|seed| backoff.delay(3, seed)).collect();
    let distincts: std::collections::HashSet<_> = delais.iter().collect();

    assert!(distincts.len() > 10, "gigue insuffisante : {distincts:?}");
}

#[test]
fn la_gigue_reste_dans_une_plage_raisonnable() {
    let backoff = backoff();
    let reference = backoff.base * 4 * 1000;

    for seed in 0..500 {
        let delai = backoff.delay(3, seed);
        assert!(
            delai as f64 >= reference as f64 * 0.7 && delai as f64 <= reference as f64 * 1.3,
            "graine {seed} : délai {delai:?} hors de ±30 %"
        );
    }
}

#[test]
fn les_delais_par_defaut_sont_exacts() {
    let backoff = backoff();

    // En microsecondes.
    assert_eq!(backoff.delay(1, 0), 1_500_000);
    assert_eq!(backoff.delay(1, 250), 2_000_000);
    assert_eq!(backoff.delay(3, 499), 9_992_000);
    assert_eq!(backoff.delay(10, 0), 45_000_000);
}

#[test]
fn une_erreur_client_fait_abandonner_immediatement() {
    for status in [400, 401, 403, 404] {
        assert_eq!(
            decide(Outcome::Status(status), 1, None, &backoff(), 0),
            Decision::GiveUp,
            "code {status}"
        );
    }
}

#[test]
fn une_erreur_serveur_est_reessayee() {
    for status in [500, 502, 503, 504] {
        assert!(
            matches!(
                decide(Outcome::Status(status), 1, None, &backoff(), 0),
                Decision::Retry(_)
            ),
            "code {status}"
        );
    }
}

#[test]
fn une_panne_reseau_est_reessayee() {
    assert!(matches!(
        decide(Outcome::NetworkFailure, 1, None, &backoff(), 0),
        Decision::Retry(_)
    ));
}

#[test]
fn le_service_a_toujours_raison_sur_le_delai_dattente() {
    let impose = 17_000;

    assert_eq!(
        decide(Outcome::Status(429), 1, Some(impose), &backoff(), 0),
        Decision::Retry(impose as u128 * 1000)
    );
}

#[test]
fn un_delai_impose_absurde_reste_plafonne() {
    let decision = decide(Outcome::Status(429), 1, Some(7_200_000), &backoff(), 0);

    assert_eq!(decision, Decision::Retry(backoff().max as u128 * 1000));
}

#[test]
fn un_429_sans_indication_retombe_sur_le_repli() {
    assert!(matches!(
        decide(Outcome::Status(429), 1, None, &backoff(), 0),
        Decision::Retry(_)
    ));
}

#[test]
fn on_finit_par_renoncer() {
    let backoff = backoff();

    assert_eq!(
        decide(Outcome::NetworkFailure, backoff.max_attempts, None, &backoff, 0),
        Decision::GiveUp
    );
}

#[test]
fn le_nombre_de_tentatives_est_respecte() {
    let backoff = backoff();
    let mut tentatives = 0;

    for attempt in 1..=10 {
        match decide(Outcome::Status(503), attempt, None, &backoff, 0) {
            Decision::Retry(_) => tentatives += 1,
            Decision::GiveUp => break,
        }
    }

    assert_eq!(tentatives, backoff.max_attempts - 1);
}

#[test]
fn musicbrainz_est_plus_menage_quacoustid() {
    assert!(MUSICBRAINZ_MIN_INTERVAL > ACOUSTID_MIN_INTERVAL);

    let cadences = [MUSICBRAINZ_MIN_INTERVAL, ACOUSTID_MIN_INTERVAL];
    assert!(cadences.iter().all(|interval| *interval >= 334));
}

#[test]
fn la_mise_en_sommeil_croit_avec_les_echecs() {
    assert!(cooldown(2) > cooldown(1));
    assert!(cooldown(5) > cooldown(2));
}

#[test]
fn la_mise_en_sommeil_reste_plafonnee() {
    let plafond = cooldown(1_000);

    assert_eq!(plafond, cooldown(MAX_BACKOFF_MULTIPLIER));
    assert!(plafond <= 600_000);
}

#[test]
fn le_premier_echec_attend_deja_un_peu() {
    assert!(cooldown(0) >= IDLE_INTERVAL);
    assert!(cooldown(1) >= IDLE_INTERVAL);
}

#[test]
fn la_comparaison_reste_correcte() {
    assert!(constant_time_eq("abc", "abc"));
    assert!(!constant_time_eq("abc", "abd"));
    assert!(!constant_time_eq("abc", "abcd"));
    assert!(!constant_time_eq("", "a"));
    assert!(constant_time_eq("", ""));
}

#[test]
fn genere_un_jeton_suffisamment_long() {
    let token = generate();
    assert_eq!(token.len(), 64);
    assert!(token.chars().all(|c| c.is_ascii_hexdigit()));
}

#[test]
fn deux_generations_different() {
    assert_ne!(generate(), generate());
}

#[test]
fn un_jeton_tronque_nest_pas_repris() {
    assert_eq!(reusable_token("trop-court"), None);
    let long = "0123456789abcdef0123456789abcdef";
    assert_eq!(reusable_token(&format!("  {long}\n")), Some(long.to_string()));
}

#[test]
fn separe_l_artiste_du_titre() {
    assert_eq!(
        split_name("4Keus Gang - Midi dans le ghetto"),
        (Some("4Keus Gang".into()), "Midi dans le ghetto".into())
    );
}

#[test]
fn le_premier_tiret_fait_la_coupure() {
    assert_eq!(
        split_name("Damso - Ma go - Remix"),
        (Some("Damso".into()), "Ma go - Remix".into())
    );
}

#[test]
fn un_nom_sans_separateur_est_un_titre() {
    assert_eq!(split_name("Macarena"), (None, "Macarena".into()));
}

#[test]
fn un_tiret_sans_espaces_ne_coupe_pas() {
    assert_eq!(split_name("Jay-Z"), (None, "Jay-Z".into()));
}

#[test]
fn la_cadence_reste_sous_la_limite_publiee() {
    // AcoustID tolère trois requêtes par seconde.
    assert!(ACOUSTID_MIN_INTERVAL >= 334);
}

#[test]
fn le_jeton_ecrit_se_relit_a_l_identique() {
    for _ in 0..5 {
        let jeton = generate();
        assert_eq!(reusable_token(&jeton), Some(jeton.clone()));
        assert_eq!(reusable_token(&format!("{jeton}\n")), Some(jeton));
    }
}

#[test]
fn la_gigue_garde_la_precision_sous_la_milliseconde() {
    let backoff = Backoff { base: 1_001, max: 60_000, max_attempts: 4 };
    // 1001 ms × 0,751 = 751,751 ms.
    assert_eq!(backoff.delay(1, 1), 751_751);
    let enorme = Backoff { base: u64::MAX, max: u64::MAX, max_attempts: 4 };
    assert_eq!(enorme.delay(1, 499), u64::MAX as u128 * 1249);
    assert_eq!(
        decide(Outcome::Status(429), 1, Some(u64::MAX), &enorme, 0),
        Decision::Retry(u64::MAX as u128 * 1000)
    );
}

#[test]
fn un_404_est_une_reponse_et_un_corps_trop_long_est_refuse() {
    assert_eq!(classify_response(404, None), Response::Absent);
    assert_eq!(classify_response(200, Some(10)), Response::Body);
    assert_eq!(classify_response(204, None), Response::Body);
    assert_eq!(classify_response(200, Some(MAX_DOWNLOAD_BYTES)), Response::Body);
    assert_eq!(
        classify_response(200, Some(MAX_DOWNLOAD_BYTES + 1)),
        Response::TooLarge(MAX_DOWNLOAD_BYTES + 1)
    );
    assert_eq!(classify_response(503, Some(1)), Response::Judge(Outcome::Status(503)));
    assert_eq!(classify_response(301, None), Response::Judge(Outcome::Status(301)));
}

#[test]
fn retry_after_se_lit_en_secondes() {
    assert_eq!(retry_after_ms(Some("17")), Some(17_000));
    assert_eq!(retry_after_ms(Some("+2")), Some(2_000));
    assert_eq!(retry_after_ms(Some("0")), Some(0));
    assert_eq!(retry_after_ms(Some("1.5")), None);
    assert_eq!(retry_after_ms(Some("-1")), None);
    assert_eq!(retry_after_ms(Some("")), None);
    assert_eq!(retry_after_ms(Some("Wed, 21 Oct 2015 07:28:00 GMT")), None);
    assert_eq!(retry_after_ms(None), None);
    assert_eq!(retry_after_ms(Some("18446744073709551615")), Some(u64::MAX));
    assert_eq!(retry_after_ms(Some("18446744073709551616")), None);
}
