use vstd::prelude::*;

verus! {

/// What an enemy is: its name, the path of its sprite sheet under the assets
/// directory, the sprite sheet's rows and columns, its top speed and the
/// distance at which it spots a player (both in whole pixels), its health and
/// its size in pixels.
#[derive(PartialEq, Clone, Debug)]
pub struct Enemy {
    pub name: String,
    pub filepath: String,
    pub sprite_row: u32,
    pub sprite_column: u32,
    pub max_speed: u32,
    pub spot_distance: u32,
    pub health: u32,
    pub size: u32,
}

/// The kinds of enemy, each with its stats.
#[derive(Clone, PartialEq, Debug)]
pub enum EnemyKind {
    Skeleton(Enemy),
    BerryRat(Enemy),
    Ninja(Enemy),
    SplatMonkey(Enemy),
    Boss(Enemy),
}

/// `e` has exactly the given stats.
pub open spec fn has_stats(
    e: Enemy,
    name: Seq<char>,
    filepath: Seq<char>,
    row: u32,
    column: u32,
    max_speed: u32,
    spot_distance: u32,
    health: u32,
    size: u32,
) -> bool {
    &&& e.name@ == name
    &&& e.filepath@ == filepath
    &&& e.sprite_row == row
    &&& e.sprite_column == column
    &&& e.max_speed == max_speed
    &&& e.spot_distance == spot_distance
    &&& e.health == health
    &&& e.size == size
}

/// `k` is the skeleton, with its stats.
pub open spec fn is_skeleton(k: EnemyKind) -> bool {
    k matches EnemyKind::Skeleton(e) && has_stats(e, "Skelebob"@, "enemies/skelly.png"@, 1, 1, 160, 192, 2, 32)
}

impl Enemy {
    /// An enemy with the given stats.
    pub fn new(
        name: String,
        filepath: String,
        row: u32,
        column: u32,
        max_speed: u32,
        spot_distance: u32,
        health: u32,
        size: u32,
    ) -> (r: Self)
        ensures
            r.name == name,
            r.filepath == filepath,
            r.sprite_row == row,
            r.sprite_column == column,
            r.max_speed == max_speed,
            r.spot_distance == spot_distance,
            r.health == health,
            r.size == size,
    {
        Self {
            name: name,
            filepath: filepath,
            sprite_row: row,
            sprite_column: column,
            max_speed: max_speed,
            spot_distance: spot_distance,
            health: health,
            size: size,
        }
    }
}

impl EnemyKind {
    /// The skeleton: "Skelebob".
    pub fn skeleton() -> (r: Self)
        ensures
            is_skeleton(r),
    {
        EnemyKind::Skeleton(Enemy::new("Skelebob".to_owned(), "enemies/skelly.png".to_owned(), 1, 1, 160, 192, 2, 32))
    }

    /// The berry rat: "Berry".
    pub fn berry() -> (r: Self)
        ensures
            r matches EnemyKind::BerryRat(e) && has_stats(e, "Berry"@, "enemies/berry_rat.png"@, 1, 2, 160, 256, 2, 32),
    {
        EnemyKind::BerryRat(Enemy::new("Berry".to_owned(), "enemies/berry_rat.png".to_owned(), 1, 2, 160, 256, 2, 32))
    }

    /// The ninja: "Ninja".
    pub fn ninja() -> (r: Self)
        ensures
            r matches EnemyKind::Ninja(e) && has_stats(e, "Ninja"@, "enemies/ninja.png"@, 1, 1, 160, 320, 1, 32),
    {
        EnemyKind::Ninja(Enemy::new("Ninja".to_owned(), "enemies/ninja.png".to_owned(), 1, 1, 160, 320, 1, 32))
    }

    /// The splat monkey: "Splatty".
    pub fn splatmonkey() -> (r: Self)
        ensures
            r matches EnemyKind::SplatMonkey(e) && has_stats(e, "Splatty"@, "enemies/splatmonkey.png"@, 1, 2, 100, 120, 3, 32),
    {
        EnemyKind::SplatMonkey(Enemy::new("Splatty".to_owned(), "enemies/splatmonkey.png".to_owned(), 1, 2, 100, 120, 3, 32))
    }

    /// The boss: "Boss".
    pub fn boss() -> (r: Self)
        ensures
            r matches EnemyKind::Boss(e) && has_stats(e, "Boss"@, "enemies/boss.png"@, 1, 1, 130, 1000, 10, 64),
    {
        EnemyKind::Boss(Enemy::new("Boss".to_owned(), "enemies/boss.png".to_owned(), 1, 1, 130, 1000, 10, 64))
    }
}

/// Counts the enemies handed out so far, and the kind of an enemy.
#[derive(PartialEq, Clone, Debug)]
pub struct EnemyId {
    pub id: u32,
    pub kind: EnemyKind,
}

/// One call of `get_plus` took the counter from `before` to `after` and
/// returned `r`: the counter's old value, the counter one higher, the kind kept.
pub open spec fn plus_step(before: EnemyId, after: EnemyId, r: u32) -> bool {
    &&& r == before.id
    &&& after.id == before.id + 1
    &&& after.kind == before.kind
}

impl EnemyId {
    /// The counter's value.
    pub fn get_id(&mut self) -> (r: u32)
        ensures
            r == old(self).id,
            *final(self) == *old(self),
    {
        self.id
    }

    /// An id with the given counter value and kind.
    pub fn new(id: u32, kind: EnemyKind) -> (r: Self)
        ensures
            r.id == id,
            r.kind == kind,
    {
        Self { id: id, kind: kind }
    }

    /// Returns the counter's value and increments it.
    pub fn get_plus(&mut self) -> (r: u32)
        requires
            old(self).id < u32::MAX,
        ensures
            plus_step(*old(self), *final(self), r),
    {
        self.id = self.id + 1;
        self.id - 1
    }
}

/// Hands out the ids of `count` new skeletons: the `k`-th gets the counter's
/// value plus `k`, and the counter ends `count` higher.
pub fn spawn_enemies(enemy_id: &mut EnemyId, count: u32) -> (r: Vec<EnemyId>)
    requires
        old(enemy_id).id + count <= u32::MAX,
    ensures
        r@.len() == count,
        forall|k: int| 0 <= k < count ==> (#[trigger] r@[k]).id == old(enemy_id).id + k && is_skeleton(r@[k].kind),
        final(enemy_id).id == old(enemy_id).id + count,
        final(enemy_id).kind == old(enemy_id).kind,
{
    let mut spawned: Vec<EnemyId> = Vec::new();
    let mut n: u32 = 0;
    while n < count
        invariant
            n <= count,
            old(enemy_id).id + count <= u32::MAX,
            enemy_id.id == old(enemy_id).id + n,
            enemy_id.kind == old(enemy_id).kind,
            spawned@.len() == n,
            forall|k: int| 0 <= k < n ==> (#[trigger] spawned@[k]).id == old(enemy_id).id + k && is_skeleton(spawned@[k].kind),
        decreases count - n,
    {
        let id = enemy_id.get_plus();
        spawned.push(EnemyId::new(id, EnemyKind::skeleton()));
        n = n + 1;
    }
    spawned
}

/// Successive calls of `get_plus` hand out strictly increasing ids, so no id
/// is handed out twice: after a run of calls from `states[0]`, the `i`-th call
/// returned `states[0].id + i`.
pub proof fn lemma_get_plus_ids_increase(states: Seq<EnemyId>, returned: Seq<u32>)
    requires
        states.len() == returned.len() + 1,
        forall|i: int| 0 <= i < returned.len() ==> #[trigger] plus_step(states[i], states[i + 1], returned[i]),
    ensures
        forall|i: int| 0 <= i < returned.len() ==> returned[i] == states[0].id + i,
        forall|i: int, j: int| 0 <= i < j < returned.len() ==> returned[i] < returned[j],
    decreases returned.len(),
{
    if returned.len() > 0 {
        let n = returned.len() - 1;
        lemma_get_plus_ids_increase(states.take(n + 1), returned.take(n));
        assert(plus_step(states[n], states[n + 1], returned[n]));
        assert forall|i: int| 0 <= i < returned.len() implies returned[i] == states[0].id + i by {
            if i < n {
                assert(returned.take(n)[i] == returned[i]);
                assert(states.take(n + 1)[0] == states[0]);
            } else {
                if n > 0 {
                    let k = n - 1;
                    assert(plus_step(states[k], states[k + 1], returned[k]));
                    assert(returned.take(n)[n - 1] == returned[n - 1]);
                    assert(states.take(n + 1)[0] == states[0]);
                }
            }
        }
    }
}

} // verus!
