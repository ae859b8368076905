//! The arena of compound types, kept in an `id_arena::Arena`.
use vstd::prelude::*;
use id_arena::{Arena, ArenaBehavior, DefaultArenaBehavior};
use crate::types::{CompoundType, CompoundTypeId};

verus! {

#[verifier::external_type_specification]
#[verifier::external_body]
#[verifier::reject_recursive_types(T)]
#[verifier::reject_recursive_types(A)]
pub struct ExArena<T, A>(Arena<T, A>);

#[verifier::external_type_specification]
#[verifier::external_body]
#[verifier::reject_recursive_types(T)]
pub struct ExDefaultArenaBehavior<T>(DefaultArenaBehavior<T>);

/// What an arena of compound types holds, in allocation order.
pub uninterp spec fn arena_items(a: Arena<CompoundType>) -> Seq<CompoundType>;

/// The tag that an arena was made with; every id it hands out carries it.
pub uninterp spec fn arena_tag(a: Arena<CompoundType>) -> u32;

/// `Arena::new`: an arena that holds nothing.  Its tag comes from a
/// process-wide counter, so nothing is said of it.
#[verifier::external_body]
pub(crate) fn arena_new() -> (a: Arena<CompoundType>)
    ensures
        arena_items(a) == Seq::<CompoundType>::empty(),
{
    Arena::new()
}

/// `Arena::len`: the number of items.
#[verifier::external_body]
pub(crate) fn arena_len(a: &Arena<CompoundType>) -> (n: usize)
    ensures
        n == arena_items(*a).len(),
{
    a.len()
}

/// `Arena::next_id`: the id that the next `alloc` hands out, that is the
/// arena's tag and its current length.
#[verifier::external_body]
pub(crate) fn arena_next_id(a: &Arena<CompoundType>) -> (id: CompoundTypeId)
    ensures
        id.arena_id == arena_tag(*a),
        id.index == arena_items(*a).len(),
{
    let id = a.next_id();
    CompoundTypeId { arena_id: DefaultArenaBehavior::<CompoundType>::arena_id(id), index: id.index() }
}

/// `Arena::alloc`: appends the item and returns its id (the arena's tag and
/// the item's position); the tag does not change.
#[verifier::external_body]
pub(crate) fn arena_alloc(a: &mut Arena<CompoundType>, t: CompoundType) -> (id: CompoundTypeId)
    ensures
        arena_items(*final(a)) == arena_items(*old(a)).push(t),
        arena_tag(*final(a)) == arena_tag(*old(a)),
        id.arena_id == arena_tag(*old(a)),
        id.index == arena_items(*old(a)).len(),
{
    let id = a.alloc(t);
    CompoundTypeId { arena_id: DefaultArenaBehavior::<CompoundType>::arena_id(id), index: id.index() }
}

/// `Arena`'s `Index`: the item at the id's position.  It asserts that the
/// id carries the arena's tag, and indexes the arena's vector, so both are
/// required.
#[verifier::external_body]
pub(crate) fn arena_get(a: &Arena<CompoundType>, id: CompoundTypeId) -> (t: &CompoundType)
    requires
        id.arena_id == arena_tag(*a),
        id.index < arena_items(*a).len(),
    ensures
        *t == arena_items(*a)[id.index as int],
{
    &a[DefaultArenaBehavior::<CompoundType>::new_id(id.arena_id, id.index)]
}

} // verus!
