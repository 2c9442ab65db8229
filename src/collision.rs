//! Axis-separated sliding collision between a player's box and the static
//! buildings.
//!
//! A box is described by its extent: the "min" corner is `(x, y + height)`
//! and the "max" corner is `(x + width, y)`, for players and buildings alike.
//! Boxes that only touch count as overlapping.
use crate::game::GameState;
use crate::net_common::{NetBuilding, NetPlayer, NetPosition};
use vstd::prelude::*;

verus! {

/// Width of every player's box.
pub const PLAYER_WIDTH: i64 = 10;

/// Height of every player's box.
pub const PLAYER_HEIGHT: i64 = 20;

/// A player at x coordinate `x` is clear of `b` along the x axis.
pub open spec fn clear_x(x: int, b: NetBuilding) -> bool {
    b.position.x > x + PLAYER_WIDTH || x > b.position.x + b.width
}

/// A player at y coordinate `y` is clear of `b` along the y axis.
pub open spec fn clear_y(y: int, b: NetBuilding) -> bool {
    y > b.position.y + b.height || b.position.y > y + PLAYER_HEIGHT
}

/// A player's box at `p` overlaps `b`.
pub open spec fn overlaps(p: NetPosition, b: NetBuilding) -> bool {
    !clear_x(p.x as int, b) && !clear_y(p.y as int, b)
}

/// Some building that the box at `prop` overlaps was clear of the box at
/// `cur` along x: the move along x is cancelled.
pub open spec fn resets_x(bs: Seq<NetBuilding>, cur: NetPosition, prop: NetPosition) -> bool {
    exists|i: int| 0 <= i < bs.len() && overlaps(prop, #[trigger] bs[i]) && clear_x(cur.x as int, bs[i])
}

/// The same along y.
pub open spec fn resets_y(bs: Seq<NetBuilding>, cur: NetPosition, prop: NetPosition) -> bool {
    exists|i: int| 0 <= i < bs.len() && overlaps(prop, #[trigger] bs[i]) && clear_y(cur.y as int, bs[i])
}

/// Where a player at `cur` that asks to move to `prop` ends up.
pub open spec fn resolve_spec(bs: Seq<NetBuilding>, cur: NetPosition, prop: NetPosition) -> NetPosition {
    NetPosition {
        x: if resets_x(bs, cur, prop) { cur.x } else { prop.x },
        y: if resets_y(bs, cur, prop) { cur.y } else { prop.y },
    }
}

fn clear_x_exec(x: i32, b: &NetBuilding) -> (r: bool)
    ensures
        r == clear_x(x as int, *b),
{
    let bx = b.position.x as i64;
    let x = x as i64;
    bx > x + PLAYER_WIDTH || x > bx + b.width as i64
}

fn clear_y_exec(y: i32, b: &NetBuilding) -> (r: bool)
    ensures
        r == clear_y(y as int, *b),
{
    let by = b.position.y as i64;
    let y = y as i64;
    y > by + b.height as i64 || by > y + PLAYER_HEIGHT
}

impl GameState {
    /// The position of `player` after it asks to move to `player_pos`: each
    /// axis of the move is cancelled when some building that the box at
    /// `player_pos` overlaps was clear of the box at the player's current
    /// position along that axis; every building is considered.
    pub fn resolve_collide(&self, player: &NetPlayer, player_pos: NetPosition) -> (r: NetPosition)
        ensures
            r == resolve_spec(self.buildings@, player.position, player_pos),
    {
        let cur = player.position;
        let mut ret_value = player_pos;
        let ghost bs = self.buildings@;
        let mut i: usize = 0;
        while i < self.buildings.len()
            invariant
                bs == self.buildings@,
                i <= bs.len(),
                ret_value.x == if resets_x(bs.take(i as int), cur, player_pos) {
                    cur.x
                } else {
                    player_pos.x
                },
                ret_value.y == if resets_y(bs.take(i as int), cur, player_pos) {
                    cur.y
                } else {
                    player_pos.y
                },
            decreases bs.len() - i,
        {
            let b = &self.buildings[i];
            let ghost t0 = bs.take(i as int);
            let ghost t1 = bs.take(i + 1);
            assert(t1 == t0.push(bs[i as int]));
            let hit = !clear_x_exec(player_pos.x, b) && !clear_y_exec(player_pos.y, b);
            let rx = hit && clear_x_exec(cur.x, b);
            let ry = hit && clear_y_exec(cur.y, b);
            if rx {
                ret_value.x = cur.x;
            }
            if ry {
                ret_value.y = cur.y;
            }
            proof {
                if resets_x(t0, cur, player_pos) {
                    let j = choose|j: int|
                        0 <= j < t0.len() && overlaps(player_pos, #[trigger] t0[j]) && clear_x(
                            cur.x as int,
                            t0[j],
                        );
                    assert(t1[j] == t0[j]);
                }
                if rx {
                    assert(t1[i as int] == bs[i as int]);
                }
                if resets_x(t1, cur, player_pos) && !rx {
                    let j = choose|j: int|
                        0 <= j < t1.len() && overlaps(player_pos, #[trigger] t1[j]) && clear_x(
                            cur.x as int,
                            t1[j],
                        );
                    assert(j != i);
                    assert(t0[j] == t1[j]);
                }
                if resets_y(t0, cur, player_pos) {
                    let j = choose|j: int|
                        0 <= j < t0.len() && overlaps(player_pos, #[trigger] t0[j]) && clear_y(
                            cur.y as int,
                            t0[j],
                        );
                    assert(t1[j] == t0[j]);
                }
                if ry {
                    assert(t1[i as int] == bs[i as int]);
                }
                if resets_y(t1, cur, player_pos) && !ry {
                    let j = choose|j: int|
                        0 <= j < t1.len() && overlaps(player_pos, #[trigger] t1[j]) && clear_y(
                            cur.y as int,
                            t1[j],
                        );
                    assert(j != i);
                    assert(t0[j] == t1[j]);
                }
            }
            i = i + 1;
        }
        assert(bs.take(bs.len() as int) == bs);
        ret_value
    }
}

/// Every building that the box at the proposed position overlaps and the box
/// at the current position did not is not overlapped by the resolved box:
/// resolution never leaves a player inside an obstacle that the move entered.
pub proof fn lemma_resolve_clears_entered(
    bs: Seq<NetBuilding>,
    cur: NetPosition,
    prop: NetPosition,
    k: int,
)
    requires
        0 <= k < bs.len(),
        overlaps(prop, bs[k]),
        !overlaps(cur, bs[k]),
    ensures
        !overlaps(resolve_spec(bs, cur, prop), bs[k]),
{
    if clear_x(cur.x as int, bs[k]) {
        assert(resets_x(bs, cur, prop));
    } else {
        assert(resets_y(bs, cur, prop));
    }
}

/// A move along one axis never ends inside a building that the box at the
/// current position did not overlap.
pub proof fn lemma_axis_move_never_enters(
    bs: Seq<NetBuilding>,
    cur: NetPosition,
    prop: NetPosition,
    k: int,
)
    requires
        0 <= k < bs.len(),
        cur.x == prop.x || cur.y == prop.y,
        !overlaps(cur, bs[k]),
    ensures
        !overlaps(resolve_spec(bs, cur, prop), bs[k]),
{
    let r = resolve_spec(bs, cur, prop);
    if overlaps(prop, bs[k]) {
        lemma_resolve_clears_entered(bs, cur, prop, k);
    } else if r != prop {
        // one axis was cancelled; the other did not move, so the player stays put
        assert(r == cur);
    }
}

} // verus!
