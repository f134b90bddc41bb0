use vstd::prelude::*;
use crate::visibility::Position;
use crate::world::World;

verus! {

/// The monster reaction pass: it reports every monster that can see the player.
pub struct MonsterAI {}

/// Whether `p` is one of `tiles`.
pub fn contains_position(tiles: &Vec<Position>, p: Position) -> (r: bool)
    ensures
        r == tiles@.contains(p),
{
    let mut i: usize = 0;
    while i < tiles.len()
        invariant
            i <= tiles@.len(),
            forall|j: int| 0 <= j < i ==> tiles@[j] != p,
        decreases tiles@.len() - i,
    {
        if tiles[i] == p {
            assert(tiles@[i as int] == p);
            return true;
        }
        i = i + 1;
    }
    false
}

impl World {
    /// Entity `i` is a monster whose viewshed holds the player's position.
    pub open spec fn reacts(&self, i: int) -> bool {
        &&& self.monsters@[i]
        &&& self.viewsheds@[i] is Some
        &&& self.viewsheds@[i]->0.visible_tiles@.contains(self.player_pos)
    }

    /// `events` names each reacting entity once, in increasing order, and nothing else.
    pub open spec fn reactions(&self, events: Seq<usize>) -> bool {
        &&& forall|a: int, b: int| 0 <= a < b < events.len() ==> events[a] < events[b]
        &&& forall|e: usize| #[trigger] events.contains(e) <==> (e < self.len() && self.reacts(e as int))
    }
}

impl MonsterAI {
    /// One reaction event, the entity's index, for each monster that sees the player.
    pub fn run(&self, world: &World) -> (events: Vec<usize>)
        requires
            world.wf(),
        ensures
            world.reactions(events@),
    {
        let mut events: Vec<usize> = Vec::new();
        let n: usize = world.monsters.len();
        let mut i: usize = 0;
        while i < n
            invariant
                world.wf(),
                n == world.len(),
                i <= n,
                forall|a: int, b: int| 0 <= a < b < events@.len() ==> events@[a] < events@[b],
                forall|a: int| 0 <= a < events@.len() ==> events@[a] < i,
                forall|e: usize| #[trigger] events@.contains(e) <==> (e < i && world.reacts(e as int)),
            decreases n - i,
        {
            let mut sees_player = false;
            if world.monsters[i] {
                match &world.viewsheds[i] {
                    Some(v) => {
                        sees_player = contains_position(&v.visible_tiles, world.player_pos);
                    },
                    None => {},
                }
            }
            if sees_player {
                let ghost before = events@;
                events.push(i);
                assert forall|e: usize| #[trigger] events@.contains(e) <==> (before.contains(e) || e == i) by {
                    if e == i {
                        assert(events@[before.len() as int] == e);
                    } else if events@.contains(e) {
                        let j = choose|j: int| 0 <= j < events@.len() && events@[j] == e;
                        assert(before[j] == e);
                    } else if before.contains(e) {
                        let j = choose|j: int| 0 <= j < before.len() && before[j] == e;
                        assert(events@[j] == e);
                    }
                }
            } else {
                assert(!world.reacts(i as int));
            }
            i = i + 1;
        }
        events
    }
}

} // verus!
