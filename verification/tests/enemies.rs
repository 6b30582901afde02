use cuscuta::enemies::{spawn_enemies, Enemy, EnemyId, EnemyKind};

fn stats(k: &EnemyKind) -> &Enemy {
    match k {
        EnemyKind::Skeleton(e)
        | EnemyKind::BerryRat(e)
        | EnemyKind::Ninja(e)
        | EnemyKind::SplatMonkey(e)
        | EnemyKind::Boss(e) => e,
    }
}

#[test]
fn enemy_new_keeps_fields() {
    let e = Enemy::new("A".to_string(), "b.png".to_string(), 3, 4, 5, 6, 7, 8);
    assert_eq!(e.name, "A");
    assert_eq!(e.filepath, "b.png");
    assert_eq!((e.sprite_row, e.sprite_column, e.max_speed, e.spot_distance, e.health, e.size), (3, 4, 5, 6, 7, 8));
}

#[test]
fn kinds_have_their_stats() {
    let sk = EnemyKind::skeleton();
    assert!(matches!(sk, EnemyKind::Skeleton(_)));
    let e = stats(&sk);
    assert_eq!((e.name.as_str(), e.filepath.as_str()), ("Skelebob", "enemies/skelly.png"));
    assert_eq!((e.sprite_row, e.sprite_column, e.max_speed, e.spot_distance, e.health, e.size), (1, 1, 160, 192, 2, 32));

    let br = EnemyKind::berry();
    assert!(matches!(br, EnemyKind::BerryRat(_)));
    let e = stats(&br);
    assert_eq!((e.name.as_str(), e.filepath.as_str()), ("Berry", "enemies/berry_rat.png"));
    assert_eq!((e.sprite_row, e.sprite_column, e.max_speed, e.spot_distance, e.health, e.size), (1, 2, 160, 256, 2, 32));

    let n = EnemyKind::ninja();
    assert!(matches!(n, EnemyKind::Ninja(_)));
    let e = stats(&n);
    assert_eq!((e.name.as_str(), e.filepath.as_str()), ("Ninja", "enemies/ninja.png"));
    assert_eq!((e.sprite_row, e.sprite_column, e.max_speed, e.spot_distance, e.health, e.size), (1, 1, 160, 320, 1, 32));

    let sp = EnemyKind::splatmonkey();
    assert!(matches!(sp, EnemyKind::SplatMonkey(_)));
    let e = stats(&sp);
    assert_eq!((e.name.as_str(), e.filepath.as_str()), ("Splatty", "enemies/splatmonkey.png"));
    assert_eq!((e.sprite_row, e.sprite_column, e.max_speed, e.spot_distance, e.health, e.size), (1, 2, 100, 120, 3, 32));

    let b = EnemyKind::boss();
    assert!(matches!(b, EnemyKind::Boss(_)));
    let e = stats(&b);
    assert_eq!((e.name.as_str(), e.filepath.as_str()), ("Boss", "enemies/boss.png"));
    assert_eq!((e.sprite_row, e.sprite_column, e.max_speed, e.spot_distance, e.health, e.size), (1, 1, 130, 1000, 10, 64));
}

#[test]
fn get_plus_hands_out_increasing_ids() {
    let mut id = EnemyId::new(7, EnemyKind::ninja());
    assert_eq!(id.get_id(), 7);
    assert_eq!(id.get_plus(), 7);
    assert_eq!(id.get_plus(), 8);
    assert_eq!(id.get_plus(), 9);
    assert_eq!(id.get_id(), 10);
    assert_eq!(id.kind, EnemyKind::ninja());
}

#[test]
fn spawned_skeletons_get_consecutive_ids() {
    let mut id = EnemyId::new(3, EnemyKind::boss());
    let spawned = spawn_enemies(&mut id, 4);
    assert_eq!(spawned.iter().map(|e| e.id).collect::<Vec<_>>(), vec![3, 4, 5, 6]);
    assert!(spawned.iter().all(|e| e.kind == EnemyKind::skeleton()));
    assert_eq!(id.id, 7);
    assert_eq!(id.kind, EnemyKind::boss());
    assert!(spawn_enemies(&mut id, 0).is_empty());
}
