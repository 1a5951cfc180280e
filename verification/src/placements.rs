//! Lists of placements. No two placements of a list have the same image id and placement id.

use crate::placement::{delete_in_range, removes, removes_in_range, test_removes};
use crate::types::{KittyControlData, KittyImageChunk, KittyPlacement, SizeInPixels};
use crate::viewport::{
    cells_in_range, cells_of, chunk_in_range, chunk_of, compute_cells, gone, make_chunk,
    move_fits, move_in_range, move_up, moved_up, rescale, rescale_fits, rescale_in_range,
    rescaled, test_touches_lines, touches_lines, touches_lines_in_range,
};
use std::collections::HashMap;
use vstd::prelude::*;

verus! {

broadcast use vstd::std_specs::hash::group_hash_axioms;

/// Whether a placement has the given ids.
pub open spec fn has_ids(p: KittyPlacement, image_id: u32, placement_id: u32) -> bool {
    p.image_id == image_id && p.placement_id == placement_id
}

/// No two placements have the same ids.
pub open spec fn distinct_ids(list: Seq<KittyPlacement>) -> bool {
    forall|i: int, j: int|
        0 <= i < j < list.len() ==> !has_ids(
            #[trigger] list[j],
            (#[trigger] list[i]).image_id,
            list[i].placement_id,
        )
}

/// Whether a list holds a placement with the given ids.
pub open spec fn holds_ids(list: Seq<KittyPlacement>, image_id: u32, placement_id: u32) -> bool {
    exists|i: int| 0 <= i < list.len() && has_ids(#[trigger] list[i], image_id, placement_id)
}

/// Whether `id` is the first placement id from `next` on that no placement of an image has.
pub open spec fn is_free_placement_id(
    list: Seq<KittyPlacement>,
    image_id: u32,
    next: u32,
    id: u32,
) -> bool {
    &&& next <= id
    &&& !holds_ids(list, image_id, id)
    &&& forall|k: u32| next <= k < id ==> #[trigger] holds_ids(list, image_id, k)
}

/// The first placement id from `next` on that no placement of an image has, if it is below the
/// last of all.
pub open spec fn free_placement_id(
    list: Seq<KittyPlacement>,
    image_id: u32,
    next: u32,
) -> Option<u32> {
    if exists|id: u32| id < u32::MAX && is_free_placement_id(list, image_id, next, id) {
        Some(choose|id: u32| id < u32::MAX && is_free_placement_id(list, image_id, next, id))
    } else {
        None
    }
}

/// There is only one free placement id that is the first.
pub proof fn lemma_free_placement_id(
    list: Seq<KittyPlacement>,
    image_id: u32,
    next: u32,
    id: u32,
)
    requires
        is_free_placement_id(list, image_id, next, id),
        id < u32::MAX,
    ensures
        free_placement_id(list, image_id, next) == Some(id),
{
    let found = free_placement_id(list, image_id, next).unwrap();
    if found < id {
        assert(holds_ids(list, image_id, found));
    }
    if id < found {
        assert(holds_ids(list, image_id, id));
    }
}

/// A list without the placement with the given ids.
pub open spec fn without(
    list: Seq<KittyPlacement>,
    image_id: u32,
    placement_id: u32,
) -> Seq<KittyPlacement> {
    list.filter(|p: KittyPlacement| !has_ids(p, image_id, placement_id))
}

/// The placements that a delete command leaves.
pub open spec fn remaining(
    list: Seq<KittyPlacement>,
    control: KittyControlData,
    cell_size: Option<SizeInPixels>,
) -> Seq<KittyPlacement> {
    list.filter(|p: KittyPlacement| !removes(control, cell_size, p))
}

/// The placements after the screen has scrolled by a line: moved up, without those that then
/// end above the first line.
pub open spec fn scrolled(list: Seq<KittyPlacement>, cell_size: SizeInPixels) -> Seq<
    KittyPlacement,
> {
    list.map_values(|p: KittyPlacement| moved_up(p, cell_size.height as isize)).filter(
        |p: KittyPlacement| !gone(p),
    )
}

/// The placements in cells of another size.
pub open spec fn rescaled_list(
    list: Seq<KittyPlacement>,
    old_size: SizeInPixels,
    new_size: SizeInPixels,
) -> Seq<KittyPlacement> {
    list.map_values(|p: KittyPlacement| rescaled(p, old_size, new_size))
}

/// Whether a placement touches any of the changed lines, which are given by their first line
/// and their number.
pub open spec fn touches_changes(
    p: KittyPlacement,
    changes: Map<usize, usize>,
    scrollback: usize,
    cell_size: SizeInPixels,
) -> bool {
    exists|line: usize| #[trigger]
        changes.contains_key(line) && touches_lines(
            p,
            line,
            changes[line],
            scrollback,
            cell_size,
        )
}

/// What is drawn of the placements that touch changed lines, each placement once.
pub open spec fn changed_chunks(
    list: Seq<KittyPlacement>,
    changes: Map<usize, usize>,
    scrollback: usize,
    cell_size: SizeInPixels,
    x_offset: usize,
    y_offset: usize,
) -> Seq<KittyImageChunk> {
    list.filter(
        |p: KittyPlacement| touches_changes(p, changes, scrollback, cell_size),
    ).map_values(|p: KittyPlacement| chunk_of(p, cell_size, scrollback, x_offset, y_offset))
}

/// Whether it can be computed if a placement touches changed lines and, if it does, what is
/// drawn of it.
pub open spec fn drawing_in_range(
    p: KittyPlacement,
    changes: Map<usize, usize>,
    scrollback: usize,
    cell_size: SizeInPixels,
    x_offset: usize,
    y_offset: usize,
) -> bool {
    &&& forall|line: usize| #[trigger]
        changes.contains_key(line) ==> touches_lines_in_range(
            p,
            line,
            changes[line],
            scrollback,
            cell_size,
        )
    &&& touches_changes(p, changes, scrollback, cell_size) ==> chunk_in_range(
        p,
        cell_size,
        scrollback,
        x_offset,
        y_offset,
    )
}

/// Whether [`changed_chunks`] can be computed.
pub open spec fn changed_chunks_in_range(
    list: Seq<KittyPlacement>,
    changes: Map<usize, usize>,
    scrollback: usize,
    cell_size: SizeInPixels,
    x_offset: usize,
    y_offset: usize,
) -> bool {
    forall|i: int|
        0 <= i < list.len() ==> drawing_in_range(
            #[trigger] list[i],
            changes,
            scrollback,
            cell_size,
            x_offset,
            y_offset,
        )
}

/// The cells of the viewport that each placement is on.
pub open spec fn cell_list(
    list: Seq<KittyPlacement>,
    viewport_height: usize,
    scrollback: usize,
    cell_size: SizeInPixels,
) -> Seq<(usize, usize, usize, usize)> {
    list.map_values(|p: KittyPlacement| cells_of(p, viewport_height, scrollback, cell_size))
}

/// Filtering a list, seen from its end.
proof fn lemma_filter_push<A>(list: Seq<A>, keep: spec_fn(A) -> bool, i: int)
    requires
        0 <= i < list.len(),
    ensures
        list.take(i + 1).filter(keep) == (if keep(list[i]) {
            list.take(i).filter(keep).push(list[i])
        } else {
            list.take(i).filter(keep)
        }),
{
    reveal(Seq::filter);
    assert(list.take(i + 1).drop_last() == list.take(i));
}

/// A filtered list holds members of the list, in order, none twice.
pub proof fn lemma_filter_keeps_distinct(list: Seq<KittyPlacement>, keep: spec_fn(
    KittyPlacement,
) -> bool)
    requires
        distinct_ids(list),
    ensures
        distinct_ids(list.filter(keep)),
        forall|i: int|
            0 <= i < list.filter(keep).len() ==> list.contains(#[trigger] list.filter(keep)[i])
                && keep(list.filter(keep)[i]),
    decreases list.len(),
{
    reveal(Seq::filter);
    if list.len() > 0 {
        let front = list.drop_last();
        let last = list.last();
        assert(distinct_ids(front)) by {
            assert forall|i: int, j: int| 0 <= i < j < front.len() implies !has_ids(
                #[trigger] front[j],
                (#[trigger] front[i]).image_id,
                front[i].placement_id,
            ) by {
                assert(front[i] == list[i] && front[j] == list[j]);
            }
        }
        lemma_filter_keeps_distinct(front, keep);
        let kept = front.filter(keep);
        let whole = list.filter(keep);
        assert forall|i: int| 0 <= i < kept.len() implies list.contains(#[trigger] kept[i])
            && !has_ids(last, kept[i].image_id, kept[i].placement_id) by {
            assert(front.contains(kept[i]));
            let k = choose|k: int| 0 <= k < front.len() && front[k] == kept[i];
            assert(list[k] == kept[i] && list[list.len() - 1] == last);
        }
        assert forall|i: int| 0 <= i < whole.len() implies list.contains(#[trigger] whole[i])
            && keep(whole[i]) by {
            if i < kept.len() {
                assert(whole[i] == kept[i]);
            } else {
                assert(list[list.len() - 1] == last);
            }
        }
        assert forall|i: int, j: int| 0 <= i < j < whole.len() implies !has_ids(
            #[trigger] whole[j],
            (#[trigger] whole[i]).image_id,
            whole[i].placement_id,
        ) by {
            assert(whole[i] == kept[i]);
            if j < kept.len() {
                assert(whole[j] == kept[j]);
            }
        }
    }
}

/// Mapping a list by a function that keeps the ids.
proof fn lemma_map_keeps_distinct(list: Seq<KittyPlacement>, f: spec_fn(
    KittyPlacement,
) -> KittyPlacement)
    requires
        distinct_ids(list),
        forall|p: KittyPlacement|
            (#[trigger] f(p)).image_id == p.image_id && f(p).placement_id == p.placement_id,
    ensures
        distinct_ids(list.map_values(f)),
{
    let mapped = list.map_values(f);
    assert forall|i: int, j: int| 0 <= i < j < mapped.len() implies !has_ids(
        #[trigger] mapped[j],
        (#[trigger] mapped[i]).image_id,
        mapped[i].placement_id,
    ) by {
        assert(mapped[i] == f(list[i]) && mapped[j] == f(list[j]));
    }
}

/// What a delete command leaves has distinct ids too.
pub proof fn lemma_remaining_distinct(
    list: Seq<KittyPlacement>,
    control: KittyControlData,
    cell_size: Option<SizeInPixels>,
)
    requires
        distinct_ids(list),
    ensures
        distinct_ids(remaining(list, control, cell_size)),
{
    lemma_filter_keeps_distinct(list, |p: KittyPlacement| !removes(control, cell_size, p));
}

/// What stays after scrolling has distinct ids too.
pub proof fn lemma_scrolled_distinct(list: Seq<KittyPlacement>, cell_size: SizeInPixels)
    requires
        distinct_ids(list),
    ensures
        distinct_ids(scrolled(list, cell_size)),
{
    let up = |p: KittyPlacement| moved_up(p, cell_size.height as isize);
    lemma_map_keeps_distinct(list, up);
    lemma_filter_keeps_distinct(list.map_values(up), |p: KittyPlacement| !gone(p));
}

/// Rescaled placements have distinct ids too.
pub proof fn lemma_rescaled_distinct(
    list: Seq<KittyPlacement>,
    old_size: SizeInPixels,
    new_size: SizeInPixels,
)
    requires
        distinct_ids(list),
    ensures
        distinct_ids(rescaled_list(list, old_size, new_size)),
{
    lemma_map_keeps_distinct(list, |p: KittyPlacement| rescaled(p, old_size, new_size));
}

/// A placement in place of the one with its ids, if there is one: the list holds it once, and
/// the other placements as before.
pub proof fn lemma_put_replaces(list: Seq<KittyPlacement>, p: KittyPlacement)
    requires
        distinct_ids(list),
    ensures
        ({
            let after = without(list, p.image_id, p.placement_id).push(p);
            &&& distinct_ids(after)
            &&& after.contains(p)
            &&& forall|q: KittyPlacement|
                !has_ids(q, p.image_id, p.placement_id) ==> (#[trigger] after.contains(q)
                    == list.contains(q))
        }),
{
    let keep = |q: KittyPlacement| !has_ids(q, p.image_id, p.placement_id);
    let kept = list.filter(keep);
    let after = kept.push(p);
    assert(without(list, p.image_id, p.placement_id) == kept);
    lemma_filter_keeps_distinct(list, keep);
    assert forall|i: int, j: int| 0 <= i < j < after.len() implies !has_ids(
        #[trigger] after[j],
        (#[trigger] after[i]).image_id,
        after[i].placement_id,
    ) by {
        assert(after[i] == kept[i]);
        assert(keep(kept[i]));
        if j < kept.len() {
            assert(after[j] == kept[j]);
        }
    }
    assert(after[kept.len() as int] == p);
    assert forall|q: KittyPlacement| !has_ids(q, p.image_id, p.placement_id) implies (
    #[trigger] after.contains(q) == list.contains(q)) by {
        lemma_filter_contains(list, keep, q);
        if after.contains(q) {
            let k = choose|k: int| 0 <= k < after.len() && after[k] == q;
            assert(k < kept.len());
            assert(kept[k] == q);
        }
        if list.contains(q) {
            let k = choose|k: int| 0 <= k < kept.len() && kept[k] == q;
            assert(after[k] == q);
        }
    }
}

/// What a filtered list holds.
pub proof fn lemma_filter_contains<A>(list: Seq<A>, keep: spec_fn(A) -> bool, q: A)
    ensures
        list.filter(keep).contains(q) <==> list.contains(q) && keep(q),
    decreases list.len(),
{
    reveal(Seq::filter);
    if list.len() > 0 {
        let front = list.drop_last();
        lemma_filter_contains(front, keep, q);
        let kept = front.filter(keep);
        let whole = list.filter(keep);
        assert(list == front.push(list.last()));
        if kept.contains(q) {
            let k = choose|k: int| 0 <= k < kept.len() && kept[k] == q;
            assert(whole[k] == q);
        }
        if front.contains(q) {
            let k = choose|k: int| 0 <= k < front.len() && front[k] == q;
            assert(list[k] == q);
        }
        if list.contains(q) && keep(q) && !front.contains(q) {
            let k = choose|k: int| 0 <= k < list.len() && list[k] == q;
            assert(k == list.len() - 1) by {
                if k < front.len() {
                    assert(front[k] == q);
                }
            }
            assert(whole[kept.len() as int] == q);
        }
        if whole.contains(q) {
            let k = choose|k: int| 0 <= k < whole.len() && whole[k] == q;
            if k < kept.len() {
                assert(kept[k] == q);
            } else {
                assert(list[list.len() - 1] == q);
            }
        }
    }
}

/// A list that holds no placement with the given ids stays as it is without it.
pub proof fn lemma_without_absent(list: Seq<KittyPlacement>, image_id: u32, placement_id: u32)
    requires
        !holds_ids(list, image_id, placement_id),
    ensures
        without(list, image_id, placement_id) == list,
    decreases list.len(),
{
    reveal(Seq::filter);
    if list.len() > 0 {
        let front = list.drop_last();
        assert forall|i: int| 0 <= i < front.len() implies !has_ids(
            #[trigger] front[i],
            image_id,
            placement_id,
        ) by {
            assert(front[i] == list[i]);
        }
        lemma_without_absent(front, image_id, placement_id);
        assert(list[list.len() - 1] == list.last());
        assert(front.push(list.last()) =~= list);
    } else {
        assert(without(list, image_id, placement_id) =~= list);
    }
}

/// Tests whether a list holds a placement with the given ids.
fn contains_ids(list: &Vec<KittyPlacement>, image_id: u32, placement_id: u32) -> (found: bool)
    ensures
        found == holds_ids(list@, image_id, placement_id),
{
    let mut i: usize = 0;
    while i < list.len()
        invariant
            i <= list@.len(),
            forall|j: int| 0 <= j < i ==> !has_ids(#[trigger] list@[j], image_id, placement_id),
        decreases list@.len() - i,
    {
        if list[i].image_id == image_id && list[i].placement_id == placement_id {
            assert(has_ids(list@[i as int], image_id, placement_id));
            return true;
        }
        i += 1;
    }
    false
}

/// The first placement id from `next` on that no placement of an image has, if it is below the
/// last of all.
pub fn next_free_placement_id(list: &Vec<KittyPlacement>, image_id: u32, next: u32) -> (free:
    Option<u32>)
    ensures
        free == free_placement_id(list@, image_id, next),
        free matches Some(id) ==> id < u32::MAX && is_free_placement_id(
            list@,
            image_id,
            next,
            id,
        ),
{
    let mut id: u32 = next;
    while id < u32::MAX
        invariant
            next <= id,
            forall|k: u32| next <= k < id ==> #[trigger] holds_ids(list@, image_id, k),
        decreases u32::MAX - id,
    {
        if !contains_ids(list, image_id, id) {
            proof {
                lemma_free_placement_id(list@, image_id, next, id);
            }
            return Some(id);
        }
        id += 1;
    }
    None
}

/// Removes the placement with the given ids.
pub fn remove_ids(list: &Vec<KittyPlacement>, image_id: u32, placement_id: u32) -> (kept: Vec<
    KittyPlacement,
>)
    ensures
        kept@ == without(list@, image_id, placement_id),
{
    let ghost keep = |p: KittyPlacement| !has_ids(p, image_id, placement_id);
    let mut kept: Vec<KittyPlacement> = Vec::new();
    let mut i: usize = 0;
    proof {
        reveal(Seq::filter);
        assert(list@.take(0).filter(keep) =~= Seq::empty());
    }
    while i < list.len()
        invariant
            i <= list@.len(),
            keep == (|p: KittyPlacement| !has_ids(p, image_id, placement_id)),
            kept@ == list@.take(i as int).filter(keep),
        decreases list@.len() - i,
    {
        let p = list[i];
        proof {
            lemma_filter_push(list@, keep, i as int);
        }
        if !(p.image_id == image_id && p.placement_id == placement_id) {
            kept.push(p);
        }
        i += 1;
    }
    assert(list@.take(i as int) == list@);
    kept
}

/// Removes what a delete command removes, or gives `None` if that cannot be computed.
pub fn remove_matching(
    list: &Vec<KittyPlacement>,
    control: &KittyControlData,
    cell_size: Option<SizeInPixels>,
) -> (kept: Option<Vec<KittyPlacement>>)
    requires
        delete_in_range(*control, cell_size),
    ensures
        match kept {
            Some(kept) => {
                &&& forall|i: int|
                    0 <= i < list@.len() ==> removes_in_range(
                        *control,
                        cell_size,
                        #[trigger] list@[i],
                    )
                &&& kept@ == remaining(list@, *control, cell_size)
            },
            None => exists|i: int|
                0 <= i < list@.len() && !removes_in_range(
                    *control,
                    cell_size,
                    #[trigger] list@[i],
                ),
        },
{
    let ghost keep = |p: KittyPlacement| !removes(*control, cell_size, p);
    let mut kept: Vec<KittyPlacement> = Vec::new();
    let mut i: usize = 0;
    proof {
        reveal(Seq::filter);
        assert(list@.take(0).filter(keep) =~= Seq::empty());
    }
    while i < list.len()
        invariant
            i <= list@.len(),
            delete_in_range(*control, cell_size),
            keep == (|p: KittyPlacement| !removes(*control, cell_size, p)),
            kept@ == list@.take(i as int).filter(keep),
            forall|j: int|
                0 <= j < i ==> removes_in_range(*control, cell_size, #[trigger] list@[j]),
        decreases list@.len() - i,
    {
        let p = list[i];
        proof {
            lemma_filter_push(list@, keep, i as int);
        }
        match test_removes(control, cell_size, &p) {
            Some(removed) => {
                if !removed {
                    kept.push(p);
                }
            },
            None => {
                assert(!removes_in_range(*control, cell_size, list@[i as int]));
                return None;
            },
        }
        i += 1;
    }
    assert(list@.take(i as int) == list@);
    Some(kept)
}

/// Tests whether each placement can be moved up by a line.
pub fn scroll_fits(list: &Vec<KittyPlacement>, cell_size: SizeInPixels) -> (fits: bool)
    ensures
        fits == (forall|i: int|
            0 <= i < list@.len() ==> move_in_range(#[trigger] list@[i], cell_size)),
{
    let mut i: usize = 0;
    while i < list.len()
        invariant
            i <= list@.len(),
            forall|j: int| 0 <= j < i ==> move_in_range(#[trigger] list@[j], cell_size),
        decreases list@.len() - i,
    {
        if !move_fits(&list[i], cell_size) {
            assert(!move_in_range(list@[i as int], cell_size));
            return false;
        }
        i += 1;
    }
    true
}

/// Moves each placement up by a line.
pub fn scroll(list: &Vec<KittyPlacement>, cell_size: SizeInPixels) -> (kept: Vec<KittyPlacement>)
    requires
        forall|i: int| 0 <= i < list@.len() ==> move_in_range(#[trigger] list@[i], cell_size),
    ensures
        kept@ == scrolled(list@, cell_size),
{
    let ghost moved = list@.map_values(
        |p: KittyPlacement| moved_up(p, cell_size.height as isize),
    );
    let ghost keep = |p: KittyPlacement| !gone(p);
    let mut kept: Vec<KittyPlacement> = Vec::new();
    let mut i: usize = 0;
    proof {
        reveal(Seq::filter);
        assert(moved.take(0).filter(keep) =~= Seq::empty());
    }
    while i < list.len()
        invariant
            i <= list@.len(),
            moved == list@.map_values(
                |p: KittyPlacement| moved_up(p, cell_size.height as isize),
            ),
            keep == (|p: KittyPlacement| !gone(p)),
            forall|j: int| 0 <= j < list@.len() ==> move_in_range(#[trigger] list@[j], cell_size),
            kept@ == moved.take(i as int).filter(keep),
        decreases list@.len() - i,
    {
        proof {
            lemma_filter_push(moved, keep, i as int);
        }
        if let Some(p) = move_up(&list[i], cell_size) {
            kept.push(p);
        }
        i += 1;
    }
    assert(moved.take(i as int) == moved);
    kept
}

/// Tests whether each placement can be rescaled.
pub fn rescale_list_fits(
    list: &Vec<KittyPlacement>,
    old_size: SizeInPixels,
    new_size: SizeInPixels,
) -> (fits: bool)
    ensures
        fits == (forall|i: int|
            0 <= i < list@.len() ==> rescale_in_range(#[trigger] list@[i], old_size, new_size)),
{
    let mut i: usize = 0;
    while i < list.len()
        invariant
            i <= list@.len(),
            forall|j: int|
                0 <= j < i ==> rescale_in_range(#[trigger] list@[j], old_size, new_size),
        decreases list@.len() - i,
    {
        if !rescale_fits(&list[i], old_size, new_size) {
            assert(!rescale_in_range(list@[i as int], old_size, new_size));
            return false;
        }
        i += 1;
    }
    true
}

/// Rescales each placement.
pub fn rescale_list(
    list: &Vec<KittyPlacement>,
    old_size: SizeInPixels,
    new_size: SizeInPixels,
) -> (out: Vec<KittyPlacement>)
    requires
        forall|i: int|
            0 <= i < list@.len() ==> rescale_in_range(#[trigger] list@[i], old_size, new_size),
    ensures
        out@ == rescaled_list(list@, old_size, new_size),
{
    let mut out: Vec<KittyPlacement> = Vec::new();
    let mut i: usize = 0;
    while i < list.len()
        invariant
            i <= list@.len(),
            forall|j: int|
                0 <= j < list@.len() ==> rescale_in_range(
                    #[trigger] list@[j],
                    old_size,
                    new_size,
                ),
            out@ == rescaled_list(list@, old_size, new_size).take(i as int),
        decreases list@.len() - i,
    {
        out.push(rescale(&list[i], old_size, new_size));
        i += 1;
        assert(out@ =~= rescaled_list(list@, old_size, new_size).take(i as int));
    }
    assert(out@ =~= rescaled_list(list@, old_size, new_size));
    out
}

/// The image id of each placement.
pub fn image_ids(list: &Vec<KittyPlacement>) -> (ids: Vec<u32>)
    ensures
        ids@ == list@.map_values(|p: KittyPlacement| p.image_id),
{
    let mut ids: Vec<u32> = Vec::new();
    let mut i: usize = 0;
    while i < list.len()
        invariant
            i <= list@.len(),
            ids@ == list@.map_values(|p: KittyPlacement| p.image_id).take(i as int),
        decreases list@.len() - i,
    {
        ids.push(list[i].image_id);
        i += 1;
        assert(ids@ =~= list@.map_values(|p: KittyPlacement| p.image_id).take(i as int));
    }
    assert(ids@ =~= list@.map_values(|p: KittyPlacement| p.image_id));
    ids
}

/// The cells that each placement is on, or `None` if they cannot be computed.
pub fn compute_cell_list(
    list: &Vec<KittyPlacement>,
    viewport_height: usize,
    scrollback: usize,
    cell_size: SizeInPixels,
) -> (cells: Option<Vec<(usize, usize, usize, usize)>>)
    ensures
        match cells {
            Some(cells) => {
                &&& forall|i: int|
                    0 <= i < list@.len() ==> cells_in_range(
                        #[trigger] list@[i],
                        scrollback,
                        cell_size,
                    )
                &&& cells@ == cell_list(list@, viewport_height, scrollback, cell_size)
            },
            None => exists|i: int|
                0 <= i < list@.len() && !cells_in_range(
                    #[trigger] list@[i],
                    scrollback,
                    cell_size,
                ),
        },
{
    let mut cells: Vec<(usize, usize, usize, usize)> = Vec::new();
    let mut i: usize = 0;
    while i < list.len()
        invariant
            i <= list@.len(),
            forall|j: int|
                0 <= j < i ==> cells_in_range(#[trigger] list@[j], scrollback, cell_size),
            cells@ == cell_list(list@, viewport_height, scrollback, cell_size).take(i as int),
        decreases list@.len() - i,
    {
        match compute_cells(&list[i], viewport_height, scrollback, cell_size) {
            Some(c) => cells.push(c),
            None => {
                assert(!cells_in_range(list@[i as int], scrollback, cell_size));
                return None;
            },
        }
        i += 1;
        assert(cells@ =~= cell_list(list@, viewport_height, scrollback, cell_size).take(i as int));
    }
    assert(cells@ =~= cell_list(list@, viewport_height, scrollback, cell_size));
    Some(cells)
}

/// The entries of a map, in any order.
fn entries(map: &HashMap<usize, usize>) -> (list: Vec<(usize, usize)>)
    ensures
        forall|i: int|
            0 <= i < list@.len() ==> map@.contains_key((#[trigger] list@[i]).0)
                && map@[list@[i].0] == list@[i].1,
        forall|key: usize| #[trigger]
            map@.contains_key(key) ==> list@.contains((key, map@[key])),
{
    let mut list: Vec<(usize, usize)> = Vec::new();
    let iter = map.iter();
    let ghost all = vstd::std_specs::iter::IteratorSpec::remaining(&iter);
    for entry in it: iter
        invariant
            it.seq() == all,
            list@.len() == it.index(),
            forall|i: int| 0 <= i < it.index() ==> #[trigger] list@[i] == (*all[i].0, *all[i].1),
    {
        list.push((*entry.0, *entry.1));
    }
    assert forall|key: usize| #[trigger] map@.contains_key(key) implies list@.contains(
        (key, map@[key]),
    ) by {
        assert(all.contains((&key, &map@[key])));
        let i = choose|i: int| 0 <= i < all.len() && all[i] == (&key, &map@[key]);
        assert(list@[i] == (key, map@[key]));
    }
    list
}

/// Whether the entries of a map are exactly those of a list.
spec fn lists(entries: Seq<(usize, usize)>, map: Map<usize, usize>) -> bool {
    &&& forall|i: int|
        0 <= i < entries.len() ==> map.contains_key((#[trigger] entries[i]).0)
            && map[entries[i].0] == entries[i].1
    &&& forall|key: usize| #[trigger] map.contains_key(key) ==> entries.contains((key, map[key]))
}

/// Tests whether a placement touches any of the changed lines.
fn touches_any(
    p: &KittyPlacement,
    changes: &Vec<(usize, usize)>,
    Ghost(map): Ghost<Map<usize, usize>>,
    scrollback: usize,
    cell_size: SizeInPixels,
) -> (touched: bool)
    requires
        lists(changes@, map),
        forall|line: usize| #[trigger]
            map.contains_key(line) ==> touches_lines_in_range(
                *p,
                line,
                map[line],
                scrollback,
                cell_size,
            ),
    ensures
        touched == touches_changes(*p, map, scrollback, cell_size),
{
    let mut i: usize = 0;
    while i < changes.len()
        invariant
            i <= changes@.len(),
            lists(changes@, map),
            forall|line: usize| #[trigger]
                map.contains_key(line) ==> touches_lines_in_range(
                    *p,
                    line,
                    map[line],
                    scrollback,
                    cell_size,
                ),
            forall|j: int|
                0 <= j < i ==> !touches_lines(
                    *p,
                    (#[trigger] changes@[j]).0,
                    changes@[j].1,
                    scrollback,
                    cell_size,
                ),
        decreases changes@.len() - i,
    {
        let (line, count) = changes[i];
        assert(map.contains_key(changes@[i as int].0));
        if let Some(true) = test_touches_lines(p, line, count, scrollback, cell_size) {
            return true;
        }
        i += 1;
    }
    assert forall|line: usize| #[trigger] map.contains_key(line) implies !touches_lines(
        *p,
        line,
        map[line],
        scrollback,
        cell_size,
    ) by {
        let j = choose|j: int| 0 <= j < changes@.len() && changes@[j] == (line, map[line]);
        assert(changes@[j] == (line, map[line]));
    }
    false
}

/// What is drawn of the placements that touch changed lines.
pub fn make_changed_chunks(
    list: &Vec<KittyPlacement>,
    changes: &HashMap<usize, usize>,
    scrollback: usize,
    cell_size: SizeInPixels,
    x_offset: usize,
    y_offset: usize,
) -> (chunks: Vec<KittyImageChunk>)
    requires
        changed_chunks_in_range(list@, changes@, scrollback, cell_size, x_offset, y_offset),
    ensures
        chunks@ == changed_chunks(list@, changes@, scrollback, cell_size, x_offset, y_offset),
{
    let ghost touched = |p: KittyPlacement| touches_changes(p, changes@, scrollback, cell_size);
    let ghost drawn = |p: KittyPlacement|
        chunk_of(p, cell_size, scrollback, x_offset, y_offset);
    let changed = entries(changes);
    let mut chunks: Vec<KittyImageChunk> = Vec::new();
    let mut i: usize = 0;
    proof {
        reveal(Seq::filter);
        assert(list@.take(0).filter(touched).map_values(drawn) =~= Seq::empty());
    }
    while i < list.len()
        invariant
            i <= list@.len(),
            lists(changed@, changes@),
            changed_chunks_in_range(list@, changes@, scrollback, cell_size, x_offset, y_offset),
            touched == (|p: KittyPlacement|
                touches_changes(p, changes@, scrollback, cell_size)),
            drawn == (|p: KittyPlacement|
                chunk_of(p, cell_size, scrollback, x_offset, y_offset)),
            chunks@ == list@.take(i as int).filter(touched).map_values(drawn),
        decreases list@.len() - i,
    {
        let p = list[i];
        let ghost before = list@.take(i as int).filter(touched);
        proof {
            lemma_filter_push(list@, touched, i as int);
        }
        if touches_any(&p, &changed, Ghost(changes@), scrollback, cell_size) {
            if let Some(chunk) = make_chunk(&p, cell_size, scrollback, x_offset, y_offset) {
                chunks.push(chunk);
            }
            assert(before.push(p).map_values(drawn) =~= before.map_values(drawn).push(drawn(p)));
        }
        i += 1;
    }
    assert(list@.take(i as int) == list@);
    chunks
}

/// Tests whether it can be computed what is drawn of the placements that touch changed lines.
pub fn changed_chunks_fit(
    list: &Vec<KittyPlacement>,
    changes: &HashMap<usize, usize>,
    scrollback: usize,
    cell_size: SizeInPixels,
    x_offset: usize,
    y_offset: usize,
) -> (fit: bool)
    ensures
        fit == changed_chunks_in_range(
            list@,
            changes@,
            scrollback,
            cell_size,
            x_offset,
            y_offset,
        ),
{
    let changed = entries(changes);
    let mut i: usize = 0;
    while i < list.len()
        invariant
            i <= list@.len(),
            lists(changed@, changes@),
            changed_chunks_in_range(
                list@.take(i as int),
                changes@,
                scrollback,
                cell_size,
                x_offset,
                y_offset,
            ),
        decreases list@.len() - i,
    {
        let p = list[i];
        let mut k: usize = 0;
        while k < changed.len()
            invariant
                k <= changed@.len(),
                i < list@.len(),
                p == list@[i as int],
                lists(changed@, changes@),
                forall|j: int|
                    0 <= j < k ==> touches_lines_in_range(
                        p,
                        (#[trigger] changed@[j]).0,
                        changed@[j].1,
                        scrollback,
                        cell_size,
                    ),
            decreases changed@.len() - k,
        {
            let (line, count) = changed[k];
            if test_touches_lines(&p, line, count, scrollback, cell_size).is_none() {
                assert(changes@.contains_key(changed@[k as int].0));
                assert(!drawing_in_range(
                    list@[i as int],
                    changes@,
                    scrollback,
                    cell_size,
                    x_offset,
                    y_offset,
                ));
                return false;
            }
            k += 1;
        }
        assert forall|line: usize| #[trigger]
            changes@.contains_key(line) implies touches_lines_in_range(
            p,
            line,
            changes@[line],
            scrollback,
            cell_size,
        ) by {
            let j = choose|j: int|
                0 <= j < changed@.len() && changed@[j] == (line, changes@[line]);
            assert(changed@[j] == (line, changes@[line]));
        }
        if touches_any(&p, &changed, Ghost(changes@), scrollback, cell_size) {
            if make_chunk(&p, cell_size, scrollback, x_offset, y_offset).is_none() {
                assert(!drawing_in_range(
                    list@[i as int],
                    changes@,
                    scrollback,
                    cell_size,
                    x_offset,
                    y_offset,
                ));
                return false;
            }
        }
        proof {
            let next = list@.take(i + 1);
            assert forall|j: int| 0 <= j < next.len() implies drawing_in_range(
                #[trigger] next[j],
                changes@,
                scrollback,
                cell_size,
                x_offset,
                y_offset,
            ) by {
                if j < i {
                    assert(next[j] == list@.take(i as int)[j]);
                }
            }
        }
        i += 1;
    }
    assert(list@.take(i as int) == list@);
    true
}

} // verus!
