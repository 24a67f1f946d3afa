//! The search: does a chunk hold, in a storage block, an item that carries one
//! of the enchantments looked for?
//!
//! Only the items that lie directly in a storage block are inspected. The
//! contents of an item that is itself a storage block are read, and not
//! searched.

use crate::decode::block_entity_of;
use crate::decode::chunk_of;
use crate::decode::decode_chunk;
use crate::decode::int_field;
use crate::decode::is_container_kind;
use crate::decode::text_field;
use crate::nbt::decode_tag;
use crate::nbt::nbt_tree;
use crate::nbt::same_text;
use crate::nbt::Tag;
use crate::nbt::TagModel;
use crate::record::BlockEntity;
use crate::record::BlockEntityData;
use crate::record::BlockEntityModel;
use crate::record::enchantment_models;
use crate::record::item_models;
use crate::record::ChunkModel;
use crate::record::DoogChunk;
use crate::record::Enchantment;
use crate::record::EnchantmentModel;
use crate::record::Item;
use crate::record::ItemModel;
use crate::record::PayloadModel;
use vstd::prelude::*;

verus! {

/// The enchantments looked for.
pub open spec fn target_enchantments() -> Seq<Seq<char>> {
    seq!["minecraft:timber"@, "minecraft:vein_miner"@]
}

/// True if `id` is one of the enchantments looked for.
pub open spec fn is_target(id: Seq<char>) -> bool {
    target_enchantments().contains(id)
}

/// True if one of the enchantments is looked for.
pub open spec fn any_target(list: Seq<EnchantmentModel>) -> bool {
    exists|i: int| 0 <= i < list.len() && is_target((#[trigger] list[i]).id)
}

/// True if the item has a tag with a list of enchantments, one of which is
/// looked for.
pub open spec fn item_matches(item: ItemModel) -> bool {
    match item.tag {
        Some(tag) => match tag.enchantments {
            Some(list) => any_target(list),
            None => false,
        },
        None => false,
    }
}

/// True if one of the items matches.
pub open spec fn any_item_matches(items: Seq<ItemModel>) -> bool {
    exists|i: int| 0 <= i < items.len() && item_matches(#[trigger] items[i])
}

/// True if the block entity is a storage block with a matching item in it.
pub open spec fn entity_matches(entity: BlockEntityModel) -> bool {
    match entity.data {
        PayloadModel::Container(Some(items)) => any_item_matches(items),
        _ => false,
    }
}

/// True if one of the chunk's block entities matches.
pub open spec fn chunk_matches(chunk: ChunkModel) -> bool {
    exists|i: int|
        0 <= i < chunk.block_entities.len() && entity_matches(#[trigger] chunk.block_entities[i])
}

/// True if the tree reads as a chunk that matches.
pub open spec fn tree_matches(tag: TagModel) -> bool {
    match chunk_of(tag) {
        Some(chunk) => chunk_matches(chunk),
        None => false,
    }
}

/// True if the bytes decode to a tree that reads as a chunk that matches.
pub open spec fn chunk_bytes_match(data: Seq<u8>) -> bool {
    match nbt_tree(data) {
        Some(tag) => tree_matches(tag),
        None => false,
    }
}

/// Tells whether an enchantment is one of those looked for.
pub fn is_target_enchantment(enchantment: &Enchantment) -> (found: bool)
    ensures
        found == is_target(enchantment@.id),
{
    let id = enchantment.id.as_str();
    if same_text(id, "minecraft:timber") {
        assert(target_enchantments()[0] == id@);
        true
    } else if same_text(id, "minecraft:vein_miner") {
        assert(target_enchantments()[1] == id@);
        true
    } else {
        false
    }
}

/// Tells whether a list holds an enchantment that is looked for. The
/// enchantments are tried in the order of the list, up to the first hit.
pub fn holds_target(list: &Vec<Enchantment>) -> (found: bool)
    ensures
        found == any_target(enchantment_models(list@)),
{
    let mut i: usize = 0;
    while i < list.len()
        invariant
            i <= list.len(),
            forall|j: int| 0 <= j < i ==> !is_target((#[trigger] enchantment_models(list@)[j]).id),
        decreases list.len() - i,
    {
        if is_target_enchantment(&list[i]) {
            assert(is_target(enchantment_models(list@)[i as int].id));
            return true;
        }
        i += 1;
    }
    false
}

/// Tells whether an item carries an enchantment that is looked for.
pub fn handle_item(item: &Item) -> (found: bool)
    ensures
        found == item_matches(item@),
{
    match &item.tag {
        Some(tag) => match &tag.enchantments {
            Some(list) => holds_target(list),
            None => false,
        },
        None => false,
    }
}

/// Tells whether a list holds a matching item. The items are tried in the
/// order of the list, up to the first hit.
pub fn holds_match(items: &Vec<Item>) -> (found: bool)
    ensures
        found == any_item_matches(item_models(items@)),
{
    let mut i: usize = 0;
    while i < items.len()
        invariant
            i <= items.len(),
            forall|j: int| 0 <= j < i ==> !item_matches(#[trigger] item_models(items@)[j]),
        decreases items.len() - i,
    {
        if handle_item(&items[i]) {
            assert(item_matches(item_models(items@)[i as int]));
            return true;
        }
        i += 1;
    }
    false
}

/// Tells whether a block entity is a storage block that holds a matching item.
pub fn entity_has_match(entity: &BlockEntity) -> (found: bool)
    ensures
        found == entity_matches(entity@),
{
    match &entity.data {
        BlockEntityData::Container(container) => match &container.items {
            Some(items) => holds_match(items),
            None => false,
        },
        BlockEntityData::Other => false,
    }
}

/// Tells whether a chunk holds a matching item. The block entities are tried
/// in the order of the list, up to the first hit.
pub fn chunk_has_match(chunk: &DoogChunk) -> (found: bool)
    ensures
        found == chunk_matches(chunk@),
{
    let mut i: usize = 0;
    while i < chunk.block_entities.len()
        invariant
            i <= chunk.block_entities.len(),
            forall|j: int| 0 <= j < i ==> !entity_matches(#[trigger] chunk@.block_entities[j]),
        decreases chunk.block_entities.len() - i,
    {
        if entity_has_match(&chunk.block_entities[i]) {
            assert(entity_matches(chunk@.block_entities[i as int]));
            return true;
        }
        i += 1;
    }
    false
}

/// Reads a tree as a chunk and searches it. A tree that does not read as a
/// chunk holds no match.
pub fn tree_has_match(tag: &Tag) -> (found: bool)
    ensures
        found == tree_matches(tag@),
{
    match decode_chunk(tag) {
        Some(chunk) => chunk_has_match(&chunk),
        None => false,
    }
}

/// Decodes the bytes of one chunk and searches it. Bytes that do not decode
/// hold no match.
pub fn process_chunk(data: &[u8]) -> (found: bool)
    ensures
        found == chunk_bytes_match(data@),
{
    match decode_tag(data) {
        Some(tag) => tree_has_match(&tag),
        None => false,
    }
}

/// An item without a tag never matches.
pub proof fn lemma_item_without_tag(item: ItemModel)
    requires
        item.tag is None,
    ensures
        !item_matches(item),
{
}

/// An item none of whose enchantments is looked for never matches.
pub proof fn lemma_item_without_target(item: ItemModel)
    requires
        item.tag matches Some(tag) && (tag.enchantments matches Some(list) ==> forall|i: int|
            0 <= i < list.len() ==> !is_target((#[trigger] list[i]).id)),
    ensures
        !item_matches(item),
{
}

/// An item that carries an enchantment that is looked for matches, wherever
/// in its list the enchantment stands.
pub proof fn lemma_item_with_target(item: ItemModel, i: int)
    requires
        item.tag matches Some(tag) && tag.enchantments matches Some(list) && 0 <= i < list.len()
            && is_target(list[i].id),
    ensures
        item_matches(item),
{
}

/// A storage block without items, or with an empty list of them, never matches;
/// nor does a block entity of another kind.
pub proof fn lemma_nothing_to_search(entity: BlockEntityModel)
    requires
        entity.data matches PayloadModel::Container(Some(items)) ==> items.len() == 0,
    ensures
        !entity_matches(entity),
{
}

/// A block entity whose kind is not in the table of storage blocks reads as
/// `Other`, whatever else it holds, and never matches.
pub proof fn lemma_unknown_kind_is_other(fields: Map<Seq<char>, TagModel>)
    requires
        int_field(fields, "x"@) is Some,
        int_field(fields, "y"@) is Some,
        int_field(fields, "z"@) is Some,
        text_field(fields, "id"@) matches Some(kind) && !is_container_kind(kind),
    ensures
        block_entity_of(TagModel::Compound(fields)) matches Some(entity) && entity.data
            == PayloadModel::Other && !entity_matches(entity),
{
}

/// A storage block without the entry `Items` reads as a container with no
/// list of items, and never matches.
pub proof fn lemma_container_without_items(fields: Map<Seq<char>, TagModel>)
    requires
        int_field(fields, "x"@) is Some,
        int_field(fields, "y"@) is Some,
        int_field(fields, "z"@) is Some,
        text_field(fields, "id"@) matches Some(kind) && is_container_kind(kind),
        !fields.contains_key("Items"@),
    ensures
        block_entity_of(TagModel::Compound(fields)) matches Some(entity) && entity.data
            == PayloadModel::Container(None) && !entity_matches(entity),
{
}

} // verus!
