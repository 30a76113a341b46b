use onzer::library::hash::{
    content_digest, le_bytes_of, sample_windows, span_digest, FULL_HASH_THRESHOLD, WINDOW,
};

fn attendu(len: u64, pieces: &[&[u8]]) -> String {
    let mut hasher = blake3::Hasher::new();
    hasher.update(&len.to_le_bytes());
    for piece in pieces {
        hasher.update(piece);
    }
    hasher.finalize().to_hex().to_string()
}

#[test]
fn la_longueur_s_ecrit_en_petit_boutiste() {
    assert_eq!(le_bytes_of(0x0102), vec![2, 1, 0, 0, 0, 0, 0, 0]);
    assert_eq!(le_bytes_of(u64::MAX), vec![255; 8]);
    assert_eq!(le_bytes_of(0), vec![0; 8]);
}

#[test]
fn un_petit_fichier_est_lu_en_entier() {
    assert_eq!(sample_windows(0, 10), vec![(0, 10)]);
    assert_eq!(sample_windows(0, 0), vec![(0, 0)]);
}

#[test]
fn le_seuil_de_lecture_integrale_est_inclusif() {
    assert_eq!(sample_windows(0, FULL_HASH_THRESHOLD), vec![(0, FULL_HASH_THRESHOLD)]);
    assert_eq!(
        sample_windows(0, FULL_HASH_THRESHOLD + 1),
        vec![(0, WINDOW), (FULL_HASH_THRESHOLD + 1 - WINDOW, WINDOW)]
    );
}

#[test]
fn un_gros_fichier_est_lu_par_ses_deux_extremites() {
    let debut = 1_000;
    let fin = debut + 10 * 1024 * 1024;
    assert_eq!(sample_windows(debut, fin), vec![(debut, WINDOW), (fin - WINDOW, WINDOW)]);
}

#[test]
fn l_empreinte_est_celle_de_blake3_sur_la_longueur_et_les_fenetres() {
    let tete = vec![1_u8, 2, 3];
    let queue = vec![9_u8; 5];
    let obtenu = span_digest(42, &[tete.clone(), queue.clone()]);

    assert_eq!(obtenu, attendu(42, &[&tete, &queue]));
    assert_eq!(obtenu.len(), 64);
}

#[test]
fn la_taille_discrimine_deux_fichiers_aux_extremites_identiques() {
    // Deux fichiers de tailles différentes partageant tête et queue :
    // sans la taille dans l'empreinte, ils seraient confondus.
    let window = WINDOW as usize;
    let mut court = vec![0xAA_u8; window];
    court.extend(vec![0xBB_u8; window]);

    let mut long = vec![0xAA_u8; window];
    long.extend(vec![0x11_u8; 4096]); // milieu différent, donc taille aussi
    long.extend(vec![0xBB_u8; window]);

    assert_ne!(content_digest(&court), content_digest(&long));
}

#[test]
fn deux_tailles_aux_memes_fenetres_different() {
    let tete = vec![7_u8; 16];
    let queue = vec![8_u8; 16];

    let a = span_digest(5_000_000, &[tete.clone(), queue.clone()]);
    let b = span_digest(6_000_000, &[tete, queue]);

    assert_ne!(a, b);
}

#[test]
fn l_empreinte_d_un_contenu_suit_ses_fenetres() {
    let petit = vec![5_u8; 100];
    assert_eq!(content_digest(&petit), attendu(100, &[&petit]));
    let window = WINDOW as usize;
    let mut gros = vec![1_u8; window];
    gros.extend(vec![2_u8; 10]);
    gros.extend(vec![3_u8; window]);
    let total = gros.len() as u64;
    assert_eq!(
        content_digest(&gros),
        attendu(total, &[&gros[..window], &gros[gros.len() - window..]])
    );
}

#[test]
fn un_octet_de_difference_change_l_empreinte() {
    let a = span_digest(4, &[vec![0, 0, 0, 0]]);
    let b = span_digest(4, &[vec![0, 0, 0, 1]]);

    assert_ne!(a, b);
}

#[test]
fn l_empreinte_est_stable() {
    let contenu = vec![vec![3_u8; 100]];
    assert_eq!(span_digest(100, &contenu), span_digest(100, &contenu));
}
