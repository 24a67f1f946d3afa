//! Reading a chunk's tree into typed records.
//!
//! The reading is tolerant: an entry that is absent takes its default, and a
//! block entity of a kind that is not in the table of storage blocks is kept as
//! `Other` without a look at the rest of it. An entry that is present in the
//! wrong shape makes the whole chunk unreadable.

use crate::nbt::fields_model;
use crate::nbt::find_field;
use crate::nbt::same_text;
use crate::nbt::Field;
use crate::nbt::Tag;
use crate::nbt::TagModel;
use crate::record::enchantment_models;
use crate::record::item_models;
use crate::record::BlockEntity;
use crate::record::BlockEntityContainer;
use crate::record::BlockEntityData;
use crate::record::BlockEntityModel;
use crate::record::BlockEntityTag;
use crate::record::ChunkModel;
use crate::record::DoogChunk;
use crate::record::Enchantment;
use crate::record::EnchantmentModel;
use crate::record::Item;
use crate::record::ItemModel;
use crate::record::ItemTag;
use crate::record::ItemTagModel;
use crate::record::PayloadModel;
use vstd::prelude::*;

verus! {

/// The kinds of block entity that are storage blocks.
pub open spec fn container_kinds() -> Seq<Seq<char>> {
    seq![
        "minecraft:chest"@,
        "minecraft:barrel"@,
        "minecraft:trapped_chest"@,
        "minecraft:shulker_box"@,
        "minecraft:red_shulker_box"@,
        "minecraft:lime_shulker_box"@,
        "minecraft:pink_shulker_box"@,
        "minecraft:gray_shulker_box"@,
        "minecraft:cyan_shulker_box"@,
        "minecraft:blue_shulker_box"@,
        "minecraft:white_shulker_box"@,
        "minecraft:brown_shulker_box"@,
        "minecraft:green_shulker_box"@,
        "minecraft:black_shulker_box"@,
        "minecraft:orange_shulker_box"@,
        "minecraft:yellow_shulker_box"@,
        "minecraft:purple_shulker_box"@,
        "minecraft:magenta_shulker_box"@,
        "minecraft:light_blue_shulker_box"@,
        "minecraft:light_gray_shulker_box"@,
    ]
}

/// True if `kind` names a storage block.
pub open spec fn is_container_kind(kind: Seq<char>) -> bool {
    container_kinds().contains(kind)
}

/// An integer entry: zero where it is absent, nothing where it is no integer
/// or does not fit in 32 bits.
pub open spec fn int_field(fields: Map<Seq<char>, TagModel>, name: Seq<char>) -> Option<i32> {
    if !fields.contains_key(name) {
        Some(0i32)
    } else {
        match fields[name] {
            TagModel::Int(n) => if i32::MIN <= n <= i32::MAX {
                Some(n as i32)
            } else {
                None
            },
            _ => None,
        }
    }
}

/// A text entry: empty where it is absent, nothing where it is no text.
pub open spec fn text_field(fields: Map<Seq<char>, TagModel>, name: Seq<char>) -> Option<
    Seq<char>,
> {
    if !fields.contains_key(name) {
        Some(Seq::empty())
    } else {
        match fields[name] {
            TagModel::Text(s) => Some(s),
            _ => None,
        }
    }
}

/// An enchantment is a compound with a text `id` and an integer `lvl`.
pub open spec fn enchantment_of(tag: TagModel) -> Option<EnchantmentModel> {
    match tag {
        TagModel::Compound(fields) => match (text_field(fields, "id"@), int_field(fields, "lvl"@)) {
            (Some(id), Some(level)) => Some(EnchantmentModel { id, level }),
            _ => None,
        },
        _ => None,
    }
}

/// A list of enchantments is a list each of whose elements is one.
pub open spec fn enchantments_of(tag: TagModel) -> Option<Seq<EnchantmentModel>> {
    match tag {
        TagModel::List(elems) => if forall|i: int|
            0 <= i < elems.len() ==> enchantment_of(#[trigger] elems[i]) is Some {
            Some(Seq::new(elems.len(), |i: int| enchantment_of(elems[i]).unwrap()))
        } else {
            None
        },
        _ => None,
    }
}

/// A list of items is a list each of whose elements is one.
pub open spec fn items_of(tag: TagModel) -> Option<Seq<ItemModel>>
    decreases tag,
{
    match tag {
        TagModel::List(elems) => if forall|i: int|
            0 <= i < elems.len() ==> item_of(#[trigger] elems[i]) is Some {
            Some(
                Seq::new(
                    elems.len(),
                    |i: int|
                        if 0 <= i < elems.len() {
                            item_of(elems[i]).unwrap()
                        } else {
                            arbitrary()
                        },
                ),
            )
        } else {
            None
        },
        _ => None,
    }
}

/// The entry `Items` of a compound: absent, or a list of items.
pub open spec fn items_entry_of(tag: TagModel) -> Option<Option<Seq<ItemModel>>>
    decreases tag,
{
    match tag {
        TagModel::Compound(fields) => if fields.contains_key("Items"@) {
            match items_of(fields["Items"@]) {
                Some(items) => Some(Some(items)),
                None => None,
            }
        } else {
            Some(None)
        },
        _ => None,
    }
}

/// An item is a compound with integers `Count` and `Slot`, a text `id` and,
/// where it has one, a `tag`.
pub open spec fn item_of(tag: TagModel) -> Option<ItemModel>
    decreases tag,
{
    match tag {
        TagModel::Compound(fields) => {
            let extra = if fields.contains_key("tag"@) {
                match item_tag_of(fields["tag"@]) {
                    Some(t) => Some(Some(t)),
                    None => None,
                }
            } else {
                Some(None)
            };
            match (
                int_field(fields, "Count"@),
                int_field(fields, "Slot"@),
                text_field(fields, "id"@),
                extra,
            ) {
                (Some(count), Some(slot), Some(id), Some(tag)) => Some(
                    ItemModel { count, slot, id, tag },
                ),
                _ => None,
            }
        },
        _ => None,
    }
}

/// The enchantments of an item's tag stand under `Enchantments` or under
/// `StoredEnchantments`. Under both at once the tag is unreadable.
pub open spec fn enchantments_entry_of(fields: Map<Seq<char>, TagModel>) -> Option<
    Option<Seq<EnchantmentModel>>,
> {
    let direct = fields.contains_key("Enchantments"@);
    let stored = fields.contains_key("StoredEnchantments"@);
    if direct && stored {
        None
    } else if direct {
        match enchantments_of(fields["Enchantments"@]) {
            Some(list) => Some(Some(list)),
            None => None,
        }
    } else if stored {
        match enchantments_of(fields["StoredEnchantments"@]) {
            Some(list) => Some(Some(list)),
            None => None,
        }
    } else {
        Some(None)
    }
}

/// An item's tag is a compound that may hold the contents of a storage block
/// under `BlockEntityTag`, and enchantments.
pub open spec fn item_tag_of(tag: TagModel) -> Option<ItemTagModel>
    decreases tag,
{
    match tag {
        TagModel::Compound(fields) => {
            let nested = if fields.contains_key("BlockEntityTag"@) {
                items_entry_of(fields["BlockEntityTag"@])
            } else {
                Some(None)
            };
            match (nested, enchantments_entry_of(fields)) {
                (Some(nested_items), Some(enchantments)) => Some(
                    ItemTagModel { nested_items, enchantments },
                ),
                _ => None,
            }
        },
        _ => None,
    }
}

/// A block entity is a compound with integers `x`, `y` and `z` and a text `id`.
/// Only where `id` names a storage block is the entry `Items` read.
pub open spec fn block_entity_of(tag: TagModel) -> Option<BlockEntityModel> {
    match tag {
        TagModel::Compound(fields) => match (
            int_field(fields, "x"@),
            int_field(fields, "y"@),
            int_field(fields, "z"@),
            text_field(fields, "id"@),
        ) {
            (Some(x), Some(y), Some(z), Some(kind)) => if is_container_kind(kind) {
                match items_entry_of(tag) {
                    Some(items) => Some(
                        BlockEntityModel { x, y, z, data: PayloadModel::Container(items) },
                    ),
                    None => None,
                }
            } else {
                Some(BlockEntityModel { x, y, z, data: PayloadModel::Other })
            },
            _ => None,
        },
        _ => None,
    }
}

/// A list of block entities is a list each of whose elements is one.
pub open spec fn block_entities_of(tag: TagModel) -> Option<Seq<BlockEntityModel>> {
    match tag {
        TagModel::List(elems) => if forall|i: int|
            0 <= i < elems.len() ==> block_entity_of(#[trigger] elems[i]) is Some {
            Some(Seq::new(elems.len(), |i: int| block_entity_of(elems[i]).unwrap()))
        } else {
            None
        },
        _ => None,
    }
}

/// A chunk is a compound; its block entities stand under `block_entities`, and
/// it has none where that entry is absent.
pub open spec fn chunk_of(tag: TagModel) -> Option<ChunkModel> {
    match tag {
        TagModel::Compound(fields) => if fields.contains_key("block_entities"@) {
            match block_entities_of(fields["block_entities"@]) {
                Some(block_entities) => Some(ChunkModel { block_entities }),
                None => None,
            }
        } else {
            Some(ChunkModel { block_entities: Seq::empty() })
        },
        _ => None,
    }
}

fn read_int(fields: &Vec<Field>, name: &str) -> (value: Option<i32>)
    ensures
        value == int_field(fields_model(fields@), name@),
{
    match find_field(fields, name) {
        None => Some(0),
        Some(tag) => match tag {
            Tag::Int(n) => if -2147483648 <= *n && *n <= 2147483647 {
                Some(*n as i32)
            } else {
                None
            },
            _ => None,
        },
    }
}

fn read_text(fields: &Vec<Field>, name: &str) -> (value: Option<String>)
    ensures
        match value {
            Some(text) => text_field(fields_model(fields@), name@) == Some(text@),
            None => text_field(fields_model(fields@), name@) is None,
        },
{
    match find_field(fields, name) {
        None => Some(String::new()),
        Some(tag) => match tag {
            Tag::Text(s) => Some(s.clone()),
            _ => None,
        },
    }
}

/// Reads one enchantment.
pub fn decode_enchantment(tag: &Tag) -> (decoded: Option<Enchantment>)
    ensures
        match decoded {
            Some(enchantment) => enchantment_of(tag@) == Some(enchantment@),
            None => enchantment_of(tag@) is None,
        },
{
    match tag {
        Tag::Compound(fields) => {
            let id = read_text(fields, "id");
            let level = read_int(fields, "lvl");
            match (id, level) {
                (Some(id), Some(level)) => Some(Enchantment { id, level }),
                _ => None,
            }
        },
        _ => None,
    }
}

/// Reads a list of enchantments.
pub fn decode_enchantments(tag: &Tag) -> (decoded: Option<Vec<Enchantment>>)
    ensures
        match decoded {
            Some(list) => enchantments_of(tag@) == Some(enchantment_models(list@)),
            None => enchantments_of(tag@) is None,
        },
{
    match tag {
        Tag::List(elems) => {
            let ghost models = tag@->List_0;
            let mut list: Vec<Enchantment> = Vec::new();
            let mut i: usize = 0;
            while i < elems.len()
                invariant
                    i <= elems.len(),
                    list@.len() == i,
                    tag@ == TagModel::List(models),
                    models.len() == elems@.len(),
                    forall|j: int| 0 <= j < elems@.len() ==> models[j] == (#[trigger] elems@[j])@,
                    forall|j: int|
                        0 <= j < i ==> enchantment_of(models[j]) == Some((#[trigger] list@[j])@),
                decreases elems.len() - i,
            {
                match decode_enchantment(&elems[i]) {
                    Some(enchantment) => list.push(enchantment),
                    None => {
                        assert(enchantment_of(models[i as int]) is None);
                        return None;
                    },
                }
                i += 1;
            }
            proof {
                assert forall|j: int| 0 <= j < models.len() implies enchantment_of(
                    #[trigger] models[j],
                ) is Some by {
                    assert(enchantment_of(models[j]) == Some(list@[j]@));
                }
                assert(enchantments_of(tag@).unwrap() =~= enchantment_models(list@));
            }
            Some(list)
        },
        _ => None,
    }
}

/// Reads a list of items.
pub fn decode_items(tag: &Tag) -> (decoded: Option<Vec<Item>>)
    ensures
        match decoded {
            Some(items) => items_of(tag@) == Some(item_models(items@)),
            None => items_of(tag@) is None,
        },
    decreases tag,
{
    match tag {
        Tag::List(elems) => {
            let ghost models = tag@->List_0;
            let mut items: Vec<Item> = Vec::new();
            let mut i: usize = 0;
            while i < elems.len()
                invariant
                    i <= elems.len(),
                    items@.len() == i,
                    *tag == Tag::List(*elems),
                    tag@ == TagModel::List(models),
                    models.len() == elems@.len(),
                    forall|j: int| 0 <= j < elems@.len() ==> models[j] == (#[trigger] elems@[j])@,
                    forall|j: int| 0 <= j < i ==> item_of(models[j]) == Some((#[trigger] items@[j])@),
                decreases elems.len() - i,
            {
                match decode_item(&elems[i]) {
                    Some(item) => items.push(item),
                    None => {
                        assert(item_of(models[i as int]) is None);
                        return None;
                    },
                }
                i += 1;
            }
            proof {
                assert forall|j: int| 0 <= j < models.len() implies item_of(
                    #[trigger] models[j],
                ) is Some by {
                    assert(item_of(models[j]) == Some(items@[j]@));
                }
                assert(items_of(tag@).unwrap() =~= item_models(items@));
            }
            Some(items)
        },
        _ => None,
    }
}

/// Reads the entry `Items` of a compound, which may be absent.
pub fn decode_items_entry(tag: &Tag) -> (decoded: Option<Option<Vec<Item>>>)
    ensures
        match decoded {
            Some(Some(items)) => items_entry_of(tag@) == Some(Some(item_models(items@))),
            Some(None) => items_entry_of(tag@) == Some(None::<Seq<ItemModel>>),
            None => items_entry_of(tag@) is None,
        },
    decreases tag,
{
    match tag {
        Tag::Compound(fields) => match find_field(fields, "Items") {
            Some(list) => match decode_items(list) {
                Some(items) => Some(Some(items)),
                None => None,
            },
            None => Some(None),
        },
        _ => None,
    }
}

/// Reads one item.
pub fn decode_item(tag: &Tag) -> (decoded: Option<Item>)
    ensures
        match decoded {
            Some(item) => item_of(tag@) == Some(item@),
            None => item_of(tag@) is None,
        },
    decreases tag,
{
    match tag {
        Tag::Compound(fields) => {
            let count = read_int(fields, "Count");
            let slot = read_int(fields, "Slot");
            let id = read_text(fields, "id");
            let extra = match find_field(fields, "tag") {
                Some(inner) => match decode_item_tag(inner) {
                    Some(t) => Some(Some(t)),
                    None => None,
                },
                None => Some(None),
            };
            match (count, slot, id, extra) {
                (Some(count), Some(slot), Some(id), Some(tag)) => Some(
                    Item { count, slot, id, tag },
                ),
                _ => None,
            }
        },
        _ => None,
    }
}

fn read_enchantments(fields: &Vec<Field>) -> (decoded: Option<Option<Vec<Enchantment>>>)
    ensures
        match decoded {
            Some(Some(list)) => enchantments_entry_of(fields_model(fields@)) == Some(
                Some(enchantment_models(list@)),
            ),
            Some(None) => enchantments_entry_of(fields_model(fields@)) == Some(
                None::<Seq<EnchantmentModel>>,
            ),
            None => enchantments_entry_of(fields_model(fields@)) is None,
        },
{
    let direct = find_field(fields, "Enchantments");
    let stored = find_field(fields, "StoredEnchantments");
    match (direct, stored) {
        (Some(_), Some(_)) => None,
        (Some(list), None) => match decode_enchantments(list) {
            Some(list) => Some(Some(list)),
            None => None,
        },
        (None, Some(list)) => match decode_enchantments(list) {
            Some(list) => Some(Some(list)),
            None => None,
        },
        (None, None) => Some(None),
    }
}

/// Reads the tag of an item.
pub fn decode_item_tag(tag: &Tag) -> (decoded: Option<ItemTag>)
    ensures
        match decoded {
            Some(item_tag) => item_tag_of(tag@) == Some(item_tag@),
            None => item_tag_of(tag@) is None,
        },
    decreases tag,
{
    match tag {
        Tag::Compound(fields) => {
            let nested = match find_field(fields, "BlockEntityTag") {
                Some(inner) => match decode_items_entry(inner) {
                    Some(items) => Some(Some(BlockEntityTag { items })),
                    None => None,
                },
                None => Some(None),
            };
            let enchantments = read_enchantments(fields);
            match (nested, enchantments) {
                (Some(block_entity_tag), Some(enchantments)) => Some(
                    ItemTag { block_entity_tag, enchantments },
                ),
                _ => None,
            }
        },
        _ => None,
    }
}

/// The table of storage block kinds, one name per entry.
pub fn container_kind_table() -> (table: [&'static str; 20])
    ensures
        table@.len() == container_kinds().len(),
        forall|i: int| 0 <= i < 20 ==> (#[trigger] table@[i])@ == container_kinds()[i],
{
    [
        "minecraft:chest",
        "minecraft:barrel",
        "minecraft:trapped_chest",
        "minecraft:shulker_box",
        "minecraft:red_shulker_box",
        "minecraft:lime_shulker_box",
        "minecraft:pink_shulker_box",
        "minecraft:gray_shulker_box",
        "minecraft:cyan_shulker_box",
        "minecraft:blue_shulker_box",
        "minecraft:white_shulker_box",
        "minecraft:brown_shulker_box",
        "minecraft:green_shulker_box",
        "minecraft:black_shulker_box",
        "minecraft:orange_shulker_box",
        "minecraft:yellow_shulker_box",
        "minecraft:purple_shulker_box",
        "minecraft:magenta_shulker_box",
        "minecraft:light_blue_shulker_box",
        "minecraft:light_gray_shulker_box",
    ]
}

/// Looks a kind up in the table of storage blocks.
pub fn names_container(kind: &str) -> (found: bool)
    ensures
        found == is_container_kind(kind@),
{
    let table = container_kind_table();
    let mut i: usize = 0;
    while i < 20
        invariant
            i <= 20,
            table@.len() == 20,
            container_kinds().len() == 20,
            forall|j: int| 0 <= j < 20 ==> (#[trigger] table@[j])@ == container_kinds()[j],
            forall|j: int| 0 <= j < i ==> container_kinds()[j] != kind@,
        decreases 20 - i,
    {
        if same_text(table[i], kind) {
            assert(container_kinds()[i as int] == kind@);
            return true;
        }
        i += 1;
    }
    false
}

/// Reads one block entity.
pub fn decode_block_entity(tag: &Tag) -> (decoded: Option<BlockEntity>)
    ensures
        match decoded {
            Some(entity) => block_entity_of(tag@) == Some(entity@),
            None => block_entity_of(tag@) is None,
        },
{
    match tag {
        Tag::Compound(fields) => {
            let x = read_int(fields, "x");
            let y = read_int(fields, "y");
            let z = read_int(fields, "z");
            let kind = read_text(fields, "id");
            match (x, y, z, kind) {
                (Some(x), Some(y), Some(z), Some(kind)) => if names_container(kind.as_str()) {
                    match decode_items_entry(tag) {
                        Some(items) => Some(
                            BlockEntity {
                                x,
                                y,
                                z,
                                data: BlockEntityData::Container(BlockEntityContainer { items }),
                            },
                        ),
                        None => None,
                    }
                } else {
                    Some(BlockEntity { x, y, z, data: BlockEntityData::Other })
                },
                _ => None,
            }
        },
        _ => None,
    }
}

/// Reads a chunk from the root of its tree.
pub fn decode_chunk(tag: &Tag) -> (decoded: Option<DoogChunk>)
    ensures
        match decoded {
            Some(chunk) => chunk_of(tag@) == Some(chunk@),
            None => chunk_of(tag@) is None,
        },
{
    match tag {
        Tag::Compound(fields) => match find_field(fields, "block_entities") {
            None => {
                let chunk = DoogChunk { block_entities: Vec::new() };
                assert(chunk@.block_entities =~= Seq::empty());
                Some(chunk)
            },
            Some(list) => match list {
                Tag::List(elems) => {
                    let ghost models = list@->List_0;
                    let mut block_entities: Vec<BlockEntity> = Vec::new();
                    let mut i: usize = 0;
                    while i < elems.len()
                        invariant
                            i <= elems.len(),
                            block_entities@.len() == i,
                            list@ == TagModel::List(models),
                            tag@ matches TagModel::Compound(m) && m.contains_key(
                                "block_entities"@,
                            ) && m["block_entities"@] == list@,
                            models.len() == elems@.len(),
                            forall|j: int|
                                0 <= j < elems@.len() ==> models[j] == (#[trigger] elems@[j])@,
                            forall|j: int|
                                0 <= j < i ==> block_entity_of(models[j]) == Some(
                                    (#[trigger] block_entities@[j])@,
                                ),
                        decreases elems.len() - i,
                    {
                        match decode_block_entity(&elems[i]) {
                            Some(entity) => block_entities.push(entity),
                            None => {
                                assert(block_entity_of(models[i as int]) is None);
                                return None;
                            },
                        }
                        i += 1;
                    }
                    let chunk = DoogChunk { block_entities };
                    proof {
                        assert forall|j: int| 0 <= j < models.len() implies block_entity_of(
                            #[trigger] models[j],
                        ) is Some by {
                            assert(block_entity_of(models[j]) == Some(chunk.block_entities@[j]@));
                        }
                        assert(block_entities_of(list@).unwrap() =~= chunk@.block_entities);
                    }
                    Some(chunk)
                },
                _ => None,
            },
        },
        _ => None,
    }
}

} // verus!
