use onzer::identify::tagger::{apply_next, ApplyNext, ApplyStep, StepReport};
use onzer::identify::worker::{begin_turn, Turn, TurnStart};
use onzer::identify::ratelimit::RateLimiter;
use onzer::identify::tagger::moves_file;
use onzer::playback::{after_tick, initial_state, Tick, TickAction, MIN_JUMP_MS, PLAYBACK_TICK_MS};

#[test]
fn le_premier_tick_publie_le_morceau_et_l_etat() {
    let (etat, action) = after_tick(initial_state(), Some(7), 0, true);
    assert_eq!(action, TickAction { publish_track: true, publish_state: true, emit_tick: true });
    assert_eq!(etat.published_track, Some(7));
    assert_eq!(etat.published_position, 0);
    assert_eq!(etat.last_tick, Tick { position_ms: 0, is_playing: true });
}

#[test]
fn une_lecture_reguliere_ne_republie_rien() {
    let (etat, _) = after_tick(initial_state(), Some(7), 0, true);
    let (etat, action) = after_tick(etat, Some(7), PLAYBACK_TICK_MS, true);
    assert_eq!(action, TickAction { publish_track: false, publish_state: false, emit_tick: true });
    let (_, action) = after_tick(etat, Some(7), 2 * PLAYBACK_TICK_MS + MIN_JUMP_MS, true);
    assert!(!action.publish_track);
}

#[test]
fn un_saut_ou_un_autre_morceau_est_publie() {
    let (etat, _) = after_tick(initial_state(), Some(7), 0, true);
    let (_, action) = after_tick(etat, Some(7), PLAYBACK_TICK_MS + MIN_JUMP_MS + 1, true);
    assert!(action.publish_track);
    let (_, action) = after_tick(etat, Some(8), PLAYBACK_TICK_MS, true);
    assert!(action.publish_track);
    let (_, action) = after_tick(etat, Some(7), 0, true);
    assert_eq!(action, TickAction { publish_track: false, publish_state: false, emit_tick: false });
    let (_, action) = after_tick(etat, Some(7), 0, false);
    assert_eq!(action, TickAction { publish_track: false, publish_state: true, emit_tick: true });
}

#[test]
fn un_fichier_deja_bien_range_ne_bouge_pas() {
    assert!(!moves_file("Damso/Ipséité/01 - Macarena.mp3", "Damso/Ipséité/01 - Macarena.mp3"));
    assert!(moves_file("Damso/Ipséité/01 - Macarena.mp3", "_À trier/macarena.mp3"));
}

#[test]
fn l_application_d_une_identification_suit_ses_etapes() {
    assert_eq!(
        apply_next(ApplyStep::CheckFile, StepReport::Missing, "Damso/a.mp3", true),
        ApplyNext::Fail("fichier introuvable : Damso/a.mp3".into())
    );
    assert_eq!(apply_next(ApplyStep::CheckFile, StepReport::Done, "a", true), ApplyNext::Go(ApplyStep::Merge));
    assert_eq!(apply_next(ApplyStep::Move, StepReport::Done, "a", true), ApplyNext::Go(ApplyStep::StoreAlbumCover));
    assert_eq!(apply_next(ApplyStep::Move, StepReport::Done, "a", false), ApplyNext::Go(ApplyStep::Record));
    assert_eq!(
        apply_next(ApplyStep::StoreAlbumCover, StepReport::Failed("disque plein".into()), "a", true),
        ApplyNext::Go(ApplyStep::StoreThumbnail)
    );
    assert_eq!(
        apply_next(ApplyStep::StoreThumbnail, StepReport::Failed("x".into()), "a", true),
        ApplyNext::Go(ApplyStep::Record)
    );
    assert_eq!(
        apply_next(ApplyStep::WriteTags, StepReport::Failed("écriture des tags".into()), "a", true),
        ApplyNext::Fail("écriture des tags".into())
    );
    assert_eq!(
        apply_next(ApplyStep::StoreAlbumCover, StepReport::Unresolved("hors ligne".into()), "a", true),
        ApplyNext::Fail("hors ligne".into())
    );
    assert_eq!(apply_next(ApplyStep::Record, StepReport::Done, "a", true), ApplyNext::Finished);
}

#[test]
fn un_tour_commence_par_le_disque_puis_la_cle() {
    assert_eq!(begin_turn(false, Some("k".into()), None), TurnStart::Stop(Turn::LibraryOffline));
    assert_eq!(begin_turn(true, Some("  ".into()), None), TurnStart::Stop(Turn::NoKey));
    assert_eq!(begin_turn(true, None, None), TurnStart::Stop(Turn::NoKey));
    assert_eq!(begin_turn(true, Some("k".into()), None), TurnStart::MakeClient("k".into()));
    let courant = "k".to_string();
    assert_eq!(begin_turn(true, Some("k".into()), Some(&courant)), TurnStart::TakeNext);
    assert_eq!(begin_turn(true, Some("j".into()), Some(&courant)), TurnStart::MakeClient("j".into()));
}

#[test]
fn le_limiteur_espace_les_requetes() {
    let mut limiteur = RateLimiter::new(1_100);
    assert_eq!(limiteur.wait_before(5), 0);
    limiteur.record(1_000);
    assert_eq!(limiteur.wait_before(1_000), 1_100);
    assert_eq!(limiteur.wait_before(1_600), 500);
    assert_eq!(limiteur.wait_before(2_100), 0);
    assert_eq!(limiteur.wait_before(9_000), 0);
    assert_eq!(limiteur.wait_before(10), 1_100);
}
