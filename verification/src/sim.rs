//! Resolution of a tick after the snakes have moved: apples are eaten,
//! snakes that ran into themselves die and their players leave the registry.

use crate::connected::user_names;
use crate::registry::{has_id, one_owner_each, owner_of, remove_player, PlayerRegistry};
use crate::snake::{
    all_have_heads, distinct_ids, has_snake, lemma_filter_step, snakes_view, Snake, SnakeView,
};
use vstd::prelude::*;

verus! {

/// The snakes after each has looked for an apple under its head, and the
/// apples that are left. The snakes eat in list order: an apple under two
/// heads goes to the earlier snake.
pub open spec fn feed(snakes: Seq<SnakeView>, apples: Seq<(u16, u16)>) -> (
    Seq<SnakeView>,
    Seq<(u16, u16)>,
)
    decreases snakes.len(),
{
    if snakes.len() == 0 {
        (Seq::empty(), apples)
    } else {
        let (fed, left) = feed(snakes.drop_last(), apples);
        let s = snakes.last();
        if left.contains(s.head()) {
            (fed.push(s.grown()), left.remove_value(s.head()))
        } else {
            (fed.push(s), left)
        }
    }
}

/// A snake dies when its head lies on its own body and a player owns it.
pub open spec fn dies(s: SnakeView, reg: Map<Seq<char>, u8>) -> bool {
    s.bites_itself() && has_id(reg, s.snake_id)
}

/// The snake at index `i` carries the identifier `id` and dies.
pub open spec fn dies_at(snakes: Seq<SnakeView>, reg: Map<Seq<char>, u8>, id: u8, i: int) -> bool {
    0 <= i < snakes.len() && snakes[i].snake_id == id && dies(snakes[i], reg)
}

/// Some snake of the list carries the identifier `id` and dies.
pub open spec fn doomed(snakes: Seq<SnakeView>, reg: Map<Seq<char>, u8>, id: u8) -> bool {
    exists|i: int| dies_at(snakes, reg, id, i)
}

/// The test "does not die".
pub open spec fn lives(reg: Map<Seq<char>, u8>) -> spec_fn(SnakeView) -> bool {
    |s: SnakeView| !dies(s, reg)
}

/// The snakes that do not die, in their old order.
pub open spec fn survivors(snakes: Seq<SnakeView>, reg: Map<Seq<char>, u8>) -> Seq<SnakeView> {
    snakes.filter(lives(reg))
}

/// The owners of the snakes that die, in the order of their snakes.
pub open spec fn casualties(snakes: Seq<SnakeView>, reg: Map<Seq<char>, u8>) -> Seq<Seq<char>>
    decreases snakes.len(),
{
    if snakes.len() == 0 {
        Seq::empty()
    } else {
        let rest = casualties(snakes.drop_last(), reg);
        if dies(snakes.last(), reg) {
            rest.push(owner_of(reg, snakes.last().snake_id))
        } else {
            rest
        }
    }
}

/// The registry without the owners of the snakes that die.
pub open spec fn registry_after(snakes: Seq<SnakeView>, reg: Map<Seq<char>, u8>) -> Map<
    Seq<char>,
    u8,
> {
    Map::new(
        |u: Seq<char>| reg.contains_key(u) && !doomed(snakes, reg, reg[u]),
        |u: Seq<char>| reg[u],
    )
}

/// The leader after the deaths: nobody, if the leader's snake died.
pub open spec fn leader_after(
    snakes: Seq<SnakeView>,
    reg: Map<Seq<char>, u8>,
    leader: Seq<char>,
) -> Seq<char> {
    if reg.contains_key(leader) && doomed(snakes, reg, reg[leader]) {
        Seq::empty()
    } else {
        leader
    }
}

/// Feeding keeps the number and order of the snakes, their identifiers,
/// facings and heads; a snake that ate has its tail cell doubled, any other
/// is unchanged.
pub proof fn lemma_feed_shape(snakes: Seq<SnakeView>, apples: Seq<(u16, u16)>)
    requires
        all_have_heads(snakes),
    ensures
        feed(snakes, apples).0.len() == snakes.len(),
        forall|i: int|
            0 <= i < snakes.len() ==> {
                let f = #[trigger] feed(snakes, apples).0[i];
                &&& (f == snakes[i] || f == snakes[i].grown())
                &&& f.wf()
                &&& f.snake_id == snakes[i].snake_id
                &&& f.direction == snakes[i].direction
                &&& f.head() == snakes[i].head()
            },
        all_have_heads(feed(snakes, apples).0),
        distinct_ids(snakes) ==> distinct_ids(feed(snakes, apples).0),
    decreases snakes.len(),
{
    if snakes.len() > 0 {
        lemma_feed_shape(snakes.drop_last(), apples);
        let fed = feed(snakes, apples).0;
        let prev = feed(snakes.drop_last(), apples).0;
        assert forall|i: int| 0 <= i < snakes.len() implies {
            let f = #[trigger] fed[i];
            &&& (f == snakes[i] || f == snakes[i].grown())
            &&& f.wf()
            &&& f.snake_id == snakes[i].snake_id
            &&& f.direction == snakes[i].direction
            &&& f.head() == snakes[i].head()
        } by {
            if i < snakes.len() - 1 {
                assert(fed[i] == prev[i]);
                assert(snakes.drop_last()[i] == snakes[i]);
            }
        }
        if distinct_ids(snakes) {
            assert forall|i: int, j: int| 0 <= i < j < fed.len() implies (#[trigger] fed[i]).snake_id
                != (#[trigger] fed[j]).snake_id by {
            }
        }
    }
}

/// Feeding only takes apples away: what is left was there before, and
/// nothing is left twice that was there once.
pub proof fn lemma_feed_apples(snakes: Seq<SnakeView>, apples: Seq<(u16, u16)>)
    ensures
        feed(snakes, apples).1.len() <= apples.len(),
        forall|c: (u16, u16)| feed(snakes, apples).1.contains(c) ==> apples.contains(c),
        apples.no_duplicates() ==> feed(snakes, apples).1.no_duplicates(),
    decreases snakes.len(),
{
    if snakes.len() > 0 {
        lemma_feed_apples(snakes.drop_last(), apples);
        let left = feed(snakes.drop_last(), apples).1;
        let head = snakes.last().head();
        if left.contains(head) {
            left.index_of_first_ensures(head);
            let i = left.index_of_first(head).unwrap();
            let rest = left.remove(i);
            assert forall|c: (u16, u16)| rest.contains(c) implies apples.contains(c) by {
                let k = choose|k: int| 0 <= k < rest.len() && rest[k] == c;
                if k < i {
                    assert(left[k] == c);
                }
            }
            if apples.no_duplicates() {
                assert forall|a: int, b: int| 0 <= a < rest.len() && 0 <= b < rest.len() && a
                    != b implies rest[a] != rest[b] by {
                }
            }
        }
    }
}

/// How many snakes are one segment longer in `after` than in `before`.
pub open spec fn count_grown(before: Seq<SnakeView>, after: Seq<SnakeView>) -> nat
    decreases before.len(),
{
    if before.len() == 0 || after.len() == 0 {
        0
    } else {
        count_grown(before.drop_last(), after.drop_last()) + if after.last().positions.len()
            == before.last().positions.len() + 1 {
            1nat
        } else {
            0nat
        }
    }
}

/// Every eaten apple feeds one snake: the apples that are gone are as many
/// as the snakes that grew, and each of those grew by exactly one segment.
pub proof fn lemma_one_apple_per_meal(snakes: Seq<SnakeView>, apples: Seq<(u16, u16)>)
    requires
        all_have_heads(snakes),
    ensures
        feed(snakes, apples).1.len() + count_grown(snakes, feed(snakes, apples).0) == apples.len(),
        forall|i: int|
            0 <= i < snakes.len() ==> {
                let f = #[trigger] feed(snakes, apples).0[i];
                f.positions.len() == snakes[i].positions.len() || f.positions.len()
                    == snakes[i].positions.len() + 1
            },
    decreases snakes.len(),
{
    lemma_feed_shape(snakes, apples);
    if snakes.len() > 0 {
        let front = snakes.drop_last();
        lemma_one_apple_per_meal(front, apples);
        lemma_feed_shape(front, apples);
        let (fed, left) = feed(front, apples);
        let s = snakes.last();
        assert(feed(snakes, apples).0.drop_last() =~= fed);
        if left.contains(s.head()) {
            left.index_of_first_ensures(s.head());
        }
    }
}

/// Where a snake has grown, fewer apples are left than there were.
pub proof fn lemma_meal_lowers_count(snakes: Seq<SnakeView>, apples: Seq<(u16, u16)>, i: int)
    requires
        all_have_heads(snakes),
        0 <= i < snakes.len(),
        feed(snakes, apples).0[i].positions.len() == snakes[i].positions.len() + 1,
    ensures
        feed(snakes, apples).1.len() < apples.len(),
{
    lemma_feed_shape(snakes, apples);
    lemma_one_apple_per_meal(snakes, apples);
    lemma_count_grown_positive(snakes, feed(snakes, apples).0, i);
}

/// A list in which some snake grew has a positive count of grown snakes.
proof fn lemma_count_grown_positive(before: Seq<SnakeView>, after: Seq<SnakeView>, i: int)
    requires
        before.len() == after.len(),
        0 <= i < before.len(),
        after[i].positions.len() == before[i].positions.len() + 1,
    ensures
        count_grown(before, after) > 0,
    decreases before.len(),
{
    if i < before.len() - 1 {
        lemma_count_grown_positive(before.drop_last(), after.drop_last(), i);
    }
}

/// A snake whose head lands on an apple, and which no earlier snake beats
/// to it, grows by exactly one segment, and the apple is gone afterwards.
pub proof fn lemma_eating(snakes: Seq<SnakeView>, apples: Seq<(u16, u16)>, i: int)
    requires
        all_have_heads(snakes),
        apples.no_duplicates(),
        0 <= i < snakes.len(),
        apples.contains(snakes[i].head()),
        forall|j: int| 0 <= j < i ==> (#[trigger] snakes[j]).head() != snakes[i].head(),
    ensures
        feed(snakes, apples).0[i] == snakes[i].grown(),
        feed(snakes, apples).0[i].positions.len() == snakes[i].positions.len() + 1,
        !feed(snakes, apples).1.contains(snakes[i].head()),
    decreases snakes.len(),
{
    let front = snakes.drop_last();
    let (fed, left) = feed(front, apples);
    let s = snakes.last();
    lemma_feed_apples(front, apples);
    lemma_feed_shape(front, apples);
    if i < snakes.len() - 1 {
        assert forall|j: int| 0 <= j < i implies (#[trigger] front[j]).head() != front[i].head() by {
        }
        lemma_eating(front, apples, i);
        let rest = feed(snakes, apples).1;
        assert forall|c: (u16, u16)| rest.contains(c) implies left.contains(c) by {
            if left.contains(s.head()) {
                left.index_of_first_ensures(s.head());
                let at = left.index_of_first(s.head()).unwrap();
                let k = choose|k: int| 0 <= k < rest.len() && rest[k] == c;
                if k < at {
                    assert(left[k] == c);
                }
            }
        }
    } else {
        let head = s.head();
        lemma_untouched_apple(front, apples, head);
        left.index_of_first_ensures(head);
        let at = left.index_of_first(head).unwrap();
        let rest = left.remove(at);
        if rest.contains(head) {
            let k = choose|k: int| 0 <= k < rest.len() && rest[k] == head;
            if k < at {
                assert(left[k] == left[at]);
            }
        }
    }
}

/// An apple under no head is still there after the snakes have eaten.
pub proof fn lemma_untouched_apple(snakes: Seq<SnakeView>, apples: Seq<(u16, u16)>, cell: (u16, u16))
    requires
        apples.contains(cell),
        forall|j: int| 0 <= j < snakes.len() ==> (#[trigger] snakes[j]).head() != cell,
    ensures
        feed(snakes, apples).1.contains(cell),
    decreases snakes.len(),
{
    if snakes.len() > 0 {
        let front = snakes.drop_last();
        assert forall|j: int| 0 <= j < front.len() implies (#[trigger] front[j]).head() != cell by {
        }
        lemma_untouched_apple(front, apples, cell);
        let left = feed(front, apples).1;
        let head = snakes.last().head();
        if left.contains(head) {
            left.index_of_first_ensures(head);
            let at = left.index_of_first(head).unwrap();
            let k = choose|k: int| 0 <= k < left.len() && left[k] == cell;
            if k < at {
                assert(left.remove(at)[k] == cell);
            } else {
                assert(left.remove(at)[k - 1] == cell);
            }
        }
    }
}

/// Who is told of a death: exactly the owners of the snakes that die, each
/// once.
pub proof fn lemma_casualties(snakes: Seq<SnakeView>, reg: Map<Seq<char>, u8>)
    requires
        distinct_ids(snakes),
        one_owner_each(reg),
    ensures
        forall|k: int|
            0 <= k < casualties(snakes, reg).len() ==> {
                let u = #[trigger] casualties(snakes, reg)[k];
                reg.contains_key(u) && doomed(snakes, reg, reg[u])
            },
        forall|i: int|
            0 <= i < snakes.len() && dies(#[trigger] snakes[i], reg) ==> casualties(
                snakes,
                reg,
            ).contains(owner_of(reg, snakes[i].snake_id)),
        casualties(snakes, reg).no_duplicates(),
    decreases snakes.len(),
{
    if snakes.len() > 0 {
        let front = snakes.drop_last();
        let last = snakes.last();
        let prev = casualties(front, reg);
        let all = casualties(snakes, reg);
        assert(distinct_ids(front)) by {
            assert forall|i: int, j: int| 0 <= i < j < front.len() implies (
            #[trigger] front[i]).snake_id != (#[trigger] front[j]).snake_id by {
            }
        }
        lemma_casualties(front, reg);
        assert forall|k: int| 0 <= k < all.len() implies {
            let u = #[trigger] all[k];
            reg.contains_key(u) && doomed(snakes, reg, reg[u])
        } by {
            let u = all[k];
            if k < prev.len() {
                let j = choose|j: int| dies_at(front, reg, reg[u], j);
                assert(dies_at(snakes, reg, reg[u], j));
            } else {
                assert(dies_at(snakes, reg, last.snake_id, snakes.len() - 1));
            }
        }
        assert forall|i: int| 0 <= i < snakes.len() && dies(#[trigger] snakes[i], reg) implies all.contains(
            owner_of(reg, snakes[i].snake_id),
        ) by {
            if i < front.len() {
                assert(front[i] == snakes[i]);
                let u = owner_of(reg, snakes[i].snake_id);
                let k = choose|k: int| 0 <= k < prev.len() && prev[k] == u;
                assert(all[k] == u);
            } else {
                assert(all[all.len() - 1] == owner_of(reg, last.snake_id));
            }
        }
        if dies(last, reg) {
            assert forall|a: int, b: int| 0 <= a < all.len() && 0 <= b < all.len() && a
                != b implies all[a] != all[b] by {
                if a < prev.len() && b < prev.len() {
                    assert(prev[a] != prev[b]);
                } else {
                    let k = if a < prev.len() { a } else { b };
                    let v = prev[k];
                    let j = choose|j: int| dies_at(front, reg, reg[v], j);
                }
            }
        }
    }
}

/// A snake whose head lands on its own body, and which a user owns, is gone
/// from the live snakes; its registry entry is deleted; and its owner is
/// among those told of a death.
pub proof fn lemma_death(snakes: Seq<SnakeView>, reg: Map<Seq<char>, u8>, i: int, owner: Seq<char>)
    requires
        distinct_ids(snakes),
        one_owner_each(reg),
        0 <= i < snakes.len(),
        snakes[i].bites_itself(),
        reg.contains_key(owner),
        reg[owner] == snakes[i].snake_id,
    ensures
        !survivors(snakes, reg).contains(snakes[i]),
        !has_snake(survivors(snakes, reg), snakes[i].snake_id),
        !registry_after(snakes, reg).contains_key(owner),
        casualties(snakes, reg).contains(owner),
        leader_after(snakes, reg, owner) == Seq::<char>::empty(),
{
    let id = snakes[i].snake_id;
    let alive = survivors(snakes, reg);
    crate::snake::lemma_filter_snakes(snakes, lives(reg));
    if has_snake(alive, id) {
        let k = choose|k: int| 0 <= k < alive.len() && (#[trigger] alive[k]).snake_id == id;
        let j = choose|j: int| 0 <= j < snakes.len() && snakes[j] == alive[k];
        if j != i {
            assert(snakes[j].snake_id != snakes[i].snake_id);
        }
    }
    if alive.contains(snakes[i]) {
        let k = choose|k: int| 0 <= k < alive.len() && alive[k] == snakes[i];
    }
    lemma_casualties(snakes, reg);
}

/// Looks for the first cell of the list that equals `cell`.
pub fn find_cell(cells: &Vec<(u16, u16)>, cell: (u16, u16)) -> (r: Option<usize>)
    ensures
        match r {
            Some(j) => cells@.index_of_first(cell) == Some(j as int) && j < cells@.len()
                && cells@[j as int] == cell,
            None => !cells@.contains(cell),
        },
{
    let mut j: usize = 0;
    while j < cells.len()
        invariant
            j <= cells.len(),
            forall|k: int| 0 <= k < j ==> cells@[k] != cell,
        decreases cells.len() - j,
    {
        let c = cells[j];
        if c.0 == cell.0 && c.1 == cell.1 {
            proof {
                cells@.index_of_first_ensures(cell);
            }
            return Some(j);
        }
        j += 1;
    }
    None
}

/// Lets every snake eat the apple under its head, if there is one. A snake
/// that eats grows by one segment and its apple leaves the list.
pub fn feed_snakes(snakes: &mut Vec<Snake>, apples: &mut Vec<(u16, u16)>)
    requires
        all_have_heads(snakes_view(old(snakes)@)),
    ensures
        (snakes_view(final(snakes)@), final(apples)@) == feed(
            snakes_view(old(snakes)@),
            old(apples)@,
        ),
{
    let ghost start = snakes_view(snakes@);
    let ghost apples0 = apples@;
    let mut i: usize = 0;
    while i < snakes.len()
        invariant
            i <= snakes.len(),
            snakes.len() == start.len(),
            all_have_heads(start),
            feed(start.take(i as int), apples0) == (snakes_view(snakes@).take(i as int), apples@),
            forall|k: int| i <= k < snakes.len() ==> (#[trigger] snakes@[k])@ == start[k],
        decreases snakes.len() - i,
    {
        let head = snakes[i].positions[0];
        match find_cell(apples, head) {
            Some(j) => {
                apples.remove(j);
                snakes[i].grow();
            },
            None => {},
        }
        proof {
            assert(start.take(i + 1).drop_last() =~= start.take(i as int));
        }
        i += 1;
    }
    proof {
        assert(start.take(i as int) =~= start);
    }
}

/// Removes the snakes that ran into themselves, drops their owners from the
/// registry and clears the leader if it was one of them. A snake that nobody
/// owns is left alone.
///
/// Returns the owners of the dead snakes, in the order of their snakes: each
/// is to be told that it died.
pub fn bury_snakes(
    snakes: &mut Vec<Snake>,
    player_snake_ids: &mut PlayerRegistry,
    driver: &mut String,
) -> (died: Vec<String>)
    requires
        all_have_heads(snakes_view(old(snakes)@)),
        distinct_ids(snakes_view(old(snakes)@)),
        old(player_snake_ids).wf(),
    ensures
        final(player_snake_ids).wf(),
        snakes_view(final(snakes)@) == survivors(
            snakes_view(old(snakes)@),
            old(player_snake_ids)@,
        ),
        final(player_snake_ids)@ == registry_after(
            snakes_view(old(snakes)@),
            old(player_snake_ids)@,
        ),
        final(driver)@ == leader_after(
            snakes_view(old(snakes)@),
            old(player_snake_ids)@,
            old(driver)@,
        ),
        user_names(died@) == casualties(snakes_view(old(snakes)@), old(player_snake_ids)@),
{
    let ghost fed = snakes_view(snakes@);
    let ghost reg0 = player_snake_ids@;
    let ghost leader0 = driver@;
    let mut died: Vec<String> = Vec::new();
    let mut i: usize = 0;
    let ghost mut k: int = 0;
    proof {
        player_snake_ids.lemma_wf();
        reveal(Seq::filter);
        assert(snakes_view(snakes@) =~= survivors(fed.take(0), reg0) + fed.skip(0));
    }
    while i < snakes.len()
        invariant
            0 <= k <= fed.len(),
            player_snake_ids.wf(),
            all_have_heads(fed),
            distinct_ids(fed),
            one_owner_each(reg0),
            i == survivors(fed.take(k), reg0).len(),
            snakes_view(snakes@) == survivors(fed.take(k), reg0) + fed.skip(k),
            player_snake_ids@ == registry_after(fed.take(k), reg0),
            driver@ == leader_after(fed.take(k), reg0, leader0),
            user_names(died@) == casualties(fed.take(k), reg0),
        decreases snakes.len() - i,
    {
        let ghost now = snakes_view(snakes@);
        proof {
            assert(now[i as int] == fed.skip(k)[0]);
            assert(fed.take(k + 1).drop_last() =~= fed.take(k));
            lemma_has_id_kept(fed, reg0, k);
            lemma_doomed_step(fed, reg0, k);
            lemma_filter_step(fed, lives(reg0), k);
        }
        let snake_id = snakes[i].snake_id;
        let mut dead = false;
        if snakes[i].bites_itself() {
            match player_snake_ids.owner(snake_id) {
                Some(user) => {
                    remove_player(snake_id, player_snake_ids);
                    if *driver == user {
                        *driver = String::new();
                    }
                    snakes.remove(i);
                    died.push(user);
                    dead = true;
                    proof {
                        assert(now.remove(i as int) =~= survivors(fed.take(k + 1), reg0)
                            + fed.skip(k + 1));
                    }
                },
                None => {},
            }
        }
        if !dead {
            i += 1;
        }
        proof {
            k = k + 1;
        }
    }
    died
}

/// Among snakes with distinct identifiers, the deaths of the first `k`
/// leave the owner of the next snake in the registry.
proof fn lemma_has_id_kept(fed: Seq<SnakeView>, reg: Map<Seq<char>, u8>, k: int)
    requires
        0 <= k < fed.len(),
        distinct_ids(fed),
        one_owner_each(reg),
    ensures
        has_id(registry_after(fed.take(k), reg), fed[k].snake_id) == has_id(reg, fed[k].snake_id),
        has_id(reg, fed[k].snake_id) ==> owner_of(
            registry_after(fed.take(k), reg),
            fed[k].snake_id,
        ) == owner_of(reg, fed[k].snake_id),
{
    let id = fed[k].snake_id;
    let cur = registry_after(fed.take(k), reg);
    assert(!doomed(fed.take(k), reg, id)) by {
        if doomed(fed.take(k), reg, id) {
            let j = choose|j: int| dies_at(fed.take(k), reg, id, j);
        }
    }
    if has_id(reg, id) {
        let u = owner_of(reg, id);
        assert(cur.contains_key(u) && cur[u] == id);
        let v = owner_of(cur, id);
    }
    if has_id(cur, id) {
    }
}

/// How `doomed` grows when one more snake is taken into account.
proof fn lemma_doomed_step(fed: Seq<SnakeView>, reg: Map<Seq<char>, u8>, k: int)
    requires
        0 <= k < fed.len(),
    ensures
        forall|id: u8|
            #[trigger] doomed(fed.take(k + 1), reg, id) == (doomed(fed.take(k), reg, id) || (fed[k].snake_id
                == id && dies(fed[k], reg))),
{
    let shorter = fed.take(k);
    let longer = fed.take(k + 1);
    assert forall|id: u8|
        #[trigger] doomed(longer, reg, id) == (doomed(shorter, reg, id) || (fed[k].snake_id == id
            && dies(fed[k], reg))) by {
        if doomed(longer, reg, id) {
            let j = choose|j: int| dies_at(longer, reg, id, j);
            if j < k {
                assert(dies_at(shorter, reg, id, j));
            }
        }
        if doomed(shorter, reg, id) {
            let j = choose|j: int| dies_at(shorter, reg, id, j);
            assert(dies_at(longer, reg, id, j));
        }
        if fed[k].snake_id == id && dies(fed[k], reg) {
            assert(dies_at(longer, reg, id, k));
        }
    }
}

/// Resolves what the snakes' new heads have run into. Every snake eats the
/// apple under its head and grows; then every owned snake whose head lies on
/// its own body is removed, together with its registry entry, and the leader
/// is cleared if it owned one of them. Growing does not save a snake.
///
/// Returns the owners of the dead snakes: each is to be told that it died.
pub fn check_for_overlaps(
    snakes: &mut Vec<Snake>,
    apples: &mut Vec<(u16, u16)>,
    player_snake_ids: &mut PlayerRegistry,
    driver: &mut String,
) -> (died: Vec<String>)
    requires
        all_have_heads(snakes_view(old(snakes)@)),
        distinct_ids(snakes_view(old(snakes)@)),
        old(player_snake_ids).wf(),
    ensures
        final(player_snake_ids).wf(),
        final(apples)@ == feed(snakes_view(old(snakes)@), old(apples)@).1,
        snakes_view(final(snakes)@) == survivors(
            feed(snakes_view(old(snakes)@), old(apples)@).0,
            old(player_snake_ids)@,
        ),
        final(player_snake_ids)@ == registry_after(
            feed(snakes_view(old(snakes)@), old(apples)@).0,
            old(player_snake_ids)@,
        ),
        final(driver)@ == leader_after(
            feed(snakes_view(old(snakes)@), old(apples)@).0,
            old(player_snake_ids)@,
            old(driver)@,
        ),
        user_names(died@) == casualties(
            feed(snakes_view(old(snakes)@), old(apples)@).0,
            old(player_snake_ids)@,
        ),
{
    proof {
        lemma_feed_shape(snakes_view(snakes@), apples@);
    }
    feed_snakes(snakes, apples);
    bury_snakes(snakes, player_snake_ids, driver)
}

} // verus!
