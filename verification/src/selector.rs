//! The selection policy, as mathematics: a rotating scan of the registry for
//! the next backend that the health record holds as alive.
//!
//! The registry is a sequence of addresses, the health record a mapping from
//! address to liveness flag, and the cursor the position at which the next
//! scan starts. A scan visits at most as many positions as the registry has,
//! in registry order and wrapping around, and stops at the first backend that
//! is alive. The cursor moves one position for each position visited.

use vstd::prelude::*;
use vstd::arithmetic::div_mod::*;
use crate::health::is_healthy;

verus! {

/// Whether `position` lies in the registry and the backend there is alive.
pub open spec fn healthy_at(
    registry: Seq<Seq<char>>,
    health: Map<Seq<char>, bool>,
    position: int,
) -> bool {
    0 <= position < registry.len() && is_healthy(health, registry[position])
}

/// Whether no backend of the registry is alive.
pub open spec fn none_healthy(registry: Seq<Seq<char>>, health: Map<Seq<char>, bool>) -> bool {
    forall|position: int| !healthy_at(registry, health, position)
}

/// The position `offset` steps after `cursor` in a registry of `len`
/// backends, wrapping around.
pub open spec fn position_after(len: nat, cursor: int, offset: int) -> int {
    (cursor + offset) % (len as int)
}

/// The number of steps from `cursor` to the first live backend when the
/// positions `from` steps after `cursor` and later are visited, as far as one
/// round of the registry goes.
pub open spec fn first_healthy_offset(
    registry: Seq<Seq<char>>,
    health: Map<Seq<char>, bool>,
    cursor: int,
    from: int,
) -> Option<int>
    decreases registry.len() - from,
{
    if from < 0 || from >= registry.len() {
        None
    } else if healthy_at(registry, health, position_after(registry.len(), cursor, from)) {
        Some(from)
    } else {
        first_healthy_offset(registry, health, cursor, from + 1)
    }
}

/// What one selection yields: the position of the backend picked, if any,
/// and the cursor for the next selection.
pub struct Selection {
    pub picked: Option<int>,
    pub cursor: int,
}

/// One selection with the cursor at `cursor`.
pub open spec fn select(
    registry: Seq<Seq<char>>,
    health: Map<Seq<char>, bool>,
    cursor: int,
) -> Selection {
    match first_healthy_offset(registry, health, cursor, 0) {
        Some(offset) => Selection {
            picked: Some(position_after(registry.len(), cursor, offset)),
            cursor: position_after(registry.len(), cursor, offset + 1),
        },
        None => Selection { picked: None, cursor },
    }
}

/// The cursor after `calls` selections in a row that began with the cursor at
/// `cursor`, the health record being the same throughout.
pub open spec fn cursor_after(
    registry: Seq<Seq<char>>,
    health: Map<Seq<char>, bool>,
    cursor: int,
    calls: nat,
) -> int
    decreases calls,
{
    if calls == 0 {
        cursor
    } else {
        select(registry, health, cursor_after(registry, health, cursor, (calls - 1) as nat)).cursor
    }
}

/// What the selection that follows `calls` earlier ones picks.
pub open spec fn pick_after(
    registry: Seq<Seq<char>>,
    health: Map<Seq<char>, bool>,
    cursor: int,
    calls: nat,
) -> Option<int> {
    select(registry, health, cursor_after(registry, health, cursor, calls)).picked
}

/// Whether one of the first `calls` selections picks `position`.
pub open spec fn picked_within(
    registry: Seq<Seq<char>>,
    health: Map<Seq<char>, bool>,
    cursor: int,
    calls: nat,
    position: int,
) -> bool {
    exists|i: nat| i < calls && #[trigger] pick_after(registry, health, cursor, i) == Some(position)
}

/// A sum below twice the modulus wraps around at most once.
pub proof fn lemma_wrap_once(len: int, x: int)
    requires
        0 < len,
        0 <= x < 2 * len,
    ensures
        x % len == if x < len { x } else { x - len },
{
    if x < len {
        lemma_small_mod(x as nat, len as nat);
    } else {
        lemma_small_mod((x - len) as nat, len as nat);
        lemma_mod_add_multiples_vanish(x - len, len);
    }
}

/// Every position of the registry is some number of steps, less than the
/// registry's length, after the cursor.
pub proof fn lemma_offset_of_position(len: nat, cursor: int, position: int) -> (offset: int)
    requires
        0 <= cursor < len,
        0 <= position < len,
    ensures
        0 <= offset < len,
        position_after(len, cursor, offset) == position,
{
    let offset = if position >= cursor { position - cursor } else { position - cursor + len };
    lemma_wrap_once(len as int, cursor + offset);
    offset
}

/// What a scan finds: the first live backend among the positions it visits,
/// and nothing only where none of them is alive.
pub proof fn lemma_first_healthy_offset(
    registry: Seq<Seq<char>>,
    health: Map<Seq<char>, bool>,
    cursor: int,
    from: int,
)
    requires
        0 <= from,
    ensures
        match first_healthy_offset(registry, health, cursor, from) {
            Some(offset) => {
                &&& from <= offset < registry.len()
                &&& healthy_at(registry, health, position_after(registry.len(), cursor, offset))
                &&& forall|j: int| from <= j < offset ==> !healthy_at(
                    registry, health, #[trigger] position_after(registry.len(), cursor, j))
            },
            None => forall|j: int| from <= j < registry.len() ==> !healthy_at(
                registry, health, #[trigger] position_after(registry.len(), cursor, j)),
        },
    decreases registry.len() - from,
{
    if from < registry.len() && !healthy_at(registry, health, position_after(registry.len(), cursor, from)) {
        lemma_first_healthy_offset(registry, health, cursor, from + 1);
    }
}

/// A selection never picks a backend that is not registered or not alive, and
/// it picks one whenever some backend is alive. The cursor stays within the
/// registry.
pub proof fn law_selection_is_sound(
    registry: Seq<Seq<char>>,
    health: Map<Seq<char>, bool>,
    cursor: int,
)
    requires
        0 <= cursor < registry.len(),
    ensures
        match select(registry, health, cursor).picked {
            Some(position) => healthy_at(registry, health, position),
            None => none_healthy(registry, health),
        },
        0 <= select(registry, health, cursor).cursor < registry.len(),
{
    let len = registry.len();
    lemma_first_healthy_offset(registry, health, cursor, 0);
    match first_healthy_offset(registry, health, cursor, 0) {
        Some(offset) => {
            lemma_mod_bound(cursor + offset + 1, len as int);
        },
        None => {
            assert forall|position: int| !healthy_at(registry, health, position) by {
                if 0 <= position < len {
                    let offset = lemma_offset_of_position(len, cursor, position);
                    assert(!healthy_at(registry, health, position_after(len, cursor, offset)));
                }
            }
        },
    }
}

/// However many selections came before, a selection picks a backend that is
/// registered and alive or, where none is alive, no backend; and the cursor
/// stays within the registry.
pub proof fn law_every_pick_is_healthy(
    registry: Seq<Seq<char>>,
    health: Map<Seq<char>, bool>,
    cursor: int,
    calls: nat,
)
    requires
        0 <= cursor < registry.len(),
    ensures
        0 <= cursor_after(registry, health, cursor, calls) < registry.len(),
        match pick_after(registry, health, cursor, calls) {
            Some(position) => healthy_at(registry, health, position),
            None => none_healthy(registry, health),
        },
    decreases calls,
{
    if calls > 0 {
        law_every_pick_is_healthy(registry, health, cursor, (calls - 1) as nat);
        law_selection_is_sound(registry, health, cursor_after(registry, health, cursor, (calls - 1) as nat));
    }
    law_selection_is_sound(registry, health, cursor_after(registry, health, cursor, calls));
}

/// The rotation passes over no live backend: where one selection picks the
/// backend at `first` and the selection after it the backend at `second`,
/// `second` is the first live position after `first`, going round the
/// registry, and the cursor between the two stands one position after
/// `first`.
pub proof fn law_next_pick_is_the_next_healthy(
    registry: Seq<Seq<char>>,
    health: Map<Seq<char>, bool>,
    cursor: int,
    calls: nat,
) -> (steps: int)
    requires
        0 <= cursor < registry.len(),
        pick_after(registry, health, cursor, calls) is Some,
    ensures
        pick_after(registry, health, cursor, calls + 1) is Some,
        cursor_after(registry, health, cursor, calls + 1) == position_after(
            registry.len(),
            pick_after(registry, health, cursor, calls).unwrap(),
            1,
        ),
        0 <= steps < registry.len(),
        pick_after(registry, health, cursor, calls + 1).unwrap() == position_after(
            registry.len(),
            pick_after(registry, health, cursor, calls).unwrap(),
            1 + steps,
        ),
        forall|j: int|
            0 <= j < steps ==> !healthy_at(
                registry,
                health,
                #[trigger] position_after(
                    registry.len(),
                    pick_after(registry, health, cursor, calls).unwrap(),
                    1 + j,
                ),
            ),
{
    let len = registry.len();
    let m = len as int;
    let here = cursor_after(registry, health, cursor, calls);
    let first = pick_after(registry, health, cursor, calls).unwrap();
    law_every_pick_is_healthy(registry, health, cursor, calls);
    law_every_pick_is_healthy(registry, health, cursor, calls + 1);
    lemma_first_healthy_offset(registry, health, here, 0);
    let reached = first_healthy_offset(registry, health, here, 0).unwrap();
    let next = cursor_after(registry, health, cursor, calls + 1);
    assert(next == select(registry, health, here).cursor);
    assert(next == position_after(len, first, 1)) by {
        lemma_add_mod_noop_right(1, here + reached, m);
    }
    lemma_first_healthy_offset(registry, health, next, 0);
    assert(pick_after(registry, health, cursor, calls + 1) is Some) by {
        assert(healthy_at(registry, health, first));
    }
    let steps = first_healthy_offset(registry, health, next, 0).unwrap();
    assert forall|j: int| 0 <= j <= steps implies #[trigger] position_after(len, first, 1 + j)
        == position_after(len, next, j) by {
        lemma_add_mod_noop(first + 1, j, m);
        lemma_add_mod_noop(next, j, m);
        lemma_mod_twice(first + 1, m);
    }
    assert(position_after(len, first, 1 + steps) == position_after(len, next, steps));
    assert forall|j: int| 0 <= j < steps implies !healthy_at(
        registry,
        health,
        #[trigger] position_after(len, first, 1 + j),
    ) by {
        assert(position_after(len, first, 1 + j) == position_after(len, next, j));
        assert(!healthy_at(registry, health, position_after(len, next, j)));
    }
    steps
}

/// While no backend is alive, every selection fails and leaves the cursor
/// where it was, however many selections came before.
pub proof fn law_unavailable_on_every_call(
    registry: Seq<Seq<char>>,
    health: Map<Seq<char>, bool>,
    cursor: int,
    calls: nat,
)
    requires
        none_healthy(registry, health),
    ensures
        cursor_after(registry, health, cursor, calls) == cursor,
        pick_after(registry, health, cursor, calls) is None,
    decreases calls,
{
    lemma_first_healthy_offset(registry, health, cursor, 0);
    if calls > 0 {
        law_unavailable_on_every_call(registry, health, cursor, (calls - 1) as nat);
    }
}

/// Round robin: while every backend is alive, the selection that follows
/// `calls` earlier ones picks the backend `calls` positions after the first
/// cursor, wrapping around. So the backends are picked in registry order,
/// and the pattern repeats after one round of the registry.
pub proof fn law_round_robin(
    registry: Seq<Seq<char>>,
    health: Map<Seq<char>, bool>,
    cursor: int,
    calls: nat,
)
    requires
        0 <= cursor < registry.len(),
        forall|position: int| 0 <= position < registry.len() ==> healthy_at(registry, health, position),
    ensures
        cursor_after(registry, health, cursor, calls) == position_after(registry.len(), cursor, calls as int),
        pick_after(registry, health, cursor, calls) == Some(
            position_after(registry.len(), cursor, calls as int),
        ),
        calls < registry.len() && cursor == 0 ==> pick_after(registry, health, cursor, calls) == Some(
            calls as int,
        ),
        pick_after(registry, health, cursor, calls + registry.len()) == pick_after(
            registry,
            health,
            cursor,
            calls,
        ),
{
    let len = registry.len() as int;
    lemma_round_robin_step(registry, health, cursor, calls);
    lemma_round_robin_step(registry, health, cursor, calls + registry.len());
    assert(position_after(registry.len(), cursor, calls + len) == position_after(
        registry.len(),
        cursor,
        calls as int,
    )) by {
        lemma_mod_add_multiples_vanish(cursor + calls, len);
    }
    if calls < len && cursor == 0 {
        lemma_small_mod(calls, registry.len());
    }
}

/// The inductive core of `law_round_robin`.
proof fn lemma_round_robin_step(
    registry: Seq<Seq<char>>,
    health: Map<Seq<char>, bool>,
    cursor: int,
    calls: nat,
)
    requires
        0 <= cursor < registry.len(),
        forall|position: int| 0 <= position < registry.len() ==> healthy_at(registry, health, position),
    ensures
        cursor_after(registry, health, cursor, calls) == position_after(registry.len(), cursor, calls as int),
        pick_after(registry, health, cursor, calls) == Some(
            position_after(registry.len(), cursor, calls as int),
        ),
    decreases calls,
{
    let len = registry.len() as int;
    if calls == 0 {
        lemma_small_mod(cursor as nat, len as nat);
    } else {
        lemma_round_robin_step(registry, health, cursor, (calls - 1) as nat);
        let before = cursor_after(registry, health, cursor, (calls - 1) as nat);
        lemma_mod_bound(cursor + calls - 1, len);
        lemma_small_mod(before as nat, len as nat);
        assert(first_healthy_offset(registry, health, before, 0) == Some(0int));
        assert(position_after(registry.len(), before, 1) == position_after(
            registry.len(),
            cursor,
            calls as int,
        )) by {
            if len == 1 {
                lemma_mod_bound(before + 1, len);
                lemma_mod_bound(cursor + calls, len);
            } else {
                lemma_small_mod(1, len as nat);
                lemma_add_mod_noop(cursor + calls - 1, 1, len);
            }
        }
    }
    let now = cursor_after(registry, health, cursor, calls);
    lemma_mod_bound(cursor + calls, len);
    lemma_small_mod(now as nat, len as nat);
    assert(first_healthy_offset(registry, health, now, 0) == Some(0int));
}

/// In one round of the registry with every backend alive, no backend is
/// picked twice and none is left out.
pub proof fn law_round_robin_each_once(
    registry: Seq<Seq<char>>,
    health: Map<Seq<char>, bool>,
    cursor: int,
)
    requires
        0 <= cursor < registry.len(),
        forall|position: int| 0 <= position < registry.len() ==> healthy_at(registry, health, position),
    ensures
        forall|i: nat, j: nat|
            i < j < registry.len() ==> #[trigger] pick_after(registry, health, cursor, i)
                != #[trigger] pick_after(registry, health, cursor, j),
        forall|position: int|
            0 <= position < registry.len() ==> #[trigger] picked_within(
                registry,
                health,
                cursor,
                registry.len(),
                position,
            ),
{
    let len = registry.len();
    assert forall|i: nat, j: nat| i < j < len implies #[trigger] pick_after(registry, health, cursor, i)
        != #[trigger] pick_after(registry, health, cursor, j) by {
        lemma_round_robin_step(registry, health, cursor, i);
        lemma_round_robin_step(registry, health, cursor, j);
        lemma_wrap_once(len as int, cursor + i);
        lemma_wrap_once(len as int, cursor + j);
    }
    assert forall|position: int| 0 <= position < len implies #[trigger] picked_within(
        registry,
        health,
        cursor,
        len,
        position,
    ) by {
        let offset = lemma_offset_of_position(len, cursor, position);
        lemma_round_robin_step(registry, health, cursor, offset as nat);
        assert(pick_after(registry, health, cursor, offset as nat) == Some(position));
    }
}

} // verus!
