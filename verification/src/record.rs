//! The typed records that a chunk's tree is read into, and what each stands for.

use vstd::prelude::*;

verus! {

/// One chunk: the block entities placed in it.
#[derive(Debug)]
pub struct DoogChunk {
    pub block_entities: Vec<BlockEntity>,
}

/// A placed object: where it stands and what it holds.
#[derive(Debug)]
pub struct BlockEntity {
    pub x: i32,
    pub y: i32,
    pub z: i32,
    pub data: BlockEntityData,
}

/// What a block entity holds. Every kind of storage block is a `Container`;
/// every other kind is `Other` and carries nothing.
#[derive(Debug)]
pub enum BlockEntityData {
    Container(BlockEntityContainer),
    Other,
}

/// The contents of a storage block.
#[derive(Debug)]
pub struct BlockEntityContainer {
    pub items: Option<Vec<Item>>,
}

/// A stack of items in a slot.
#[derive(Debug)]
pub struct Item {
    pub count: i32,
    pub slot: i32,
    pub id: String,
    pub tag: Option<ItemTag>,
}

/// What an item carries beyond its kind and count.
#[derive(Debug)]
pub struct ItemTag {
    pub block_entity_tag: Option<BlockEntityTag>,
    pub enchantments: Option<Vec<Enchantment>>,
}

/// An enchantment on an item, or stored in one.
#[derive(Debug)]
pub struct Enchantment {
    pub id: String,
    pub level: i32,
}

/// The contents of an item that is itself a storage block.
#[derive(Debug)]
pub struct BlockEntityTag {
    pub items: Option<Vec<Item>>,
}

pub ghost struct EnchantmentModel {
    pub id: Seq<char>,
    pub level: i32,
}

pub ghost struct ItemModel {
    pub count: i32,
    pub slot: i32,
    pub id: Seq<char>,
    pub tag: Option<ItemTagModel>,
}

pub ghost struct ItemTagModel {
    pub nested_items: Option<Seq<ItemModel>>,
    pub enchantments: Option<Seq<EnchantmentModel>>,
}

pub ghost enum PayloadModel {
    Container(Option<Seq<ItemModel>>),
    Other,
}

pub ghost struct BlockEntityModel {
    pub x: i32,
    pub y: i32,
    pub z: i32,
    pub data: PayloadModel,
}

pub ghost struct ChunkModel {
    pub block_entities: Seq<BlockEntityModel>,
}

impl Enchantment {
    pub open spec fn view(self) -> EnchantmentModel {
        EnchantmentModel { id: self.id@, level: self.level }
    }
}

/// The models of a list of enchantments, in order.
pub open spec fn enchantment_models(list: Seq<Enchantment>) -> Seq<EnchantmentModel> {
    Seq::new(list.len(), |i: int| list[i]@)
}

/// The models of a list of items, in order.
pub open spec fn item_models(list: Seq<Item>) -> Seq<ItemModel>
    decreases list,
{
    Seq::new(
        list.len(),
        |i: int|
            if 0 <= i < list.len() {
                list[i].view()
            } else {
                arbitrary()
            },
    )
}

/// The model of a list of items that may be absent.
pub open spec fn optional_item_models(list: Option<Vec<Item>>) -> Option<Seq<ItemModel>>
    decreases list,
{
    match list {
        Some(items) => Some(item_models(items@)),
        None => None,
    }
}

impl Item {
    pub open spec fn view(self) -> ItemModel
        decreases self,
    {
        ItemModel {
            count: self.count,
            slot: self.slot,
            id: self.id@,
            tag: match self.tag {
                Some(tag) => Some(tag.view()),
                None => None,
            },
        }
    }
}

impl ItemTag {
    pub open spec fn view(self) -> ItemTagModel
        decreases self,
    {
        ItemTagModel {
            nested_items: match self.block_entity_tag {
                Some(inner) => inner.view(),
                None => None,
            },
            enchantments: match self.enchantments {
                Some(list) => Some(enchantment_models(list@)),
                None => None,
            },
        }
    }
}

impl BlockEntityTag {
    pub open spec fn view(self) -> Option<Seq<ItemModel>>
        decreases self,
    {
        optional_item_models(self.items)
    }
}

impl BlockEntityContainer {
    pub open spec fn view(self) -> Option<Seq<ItemModel>> {
        optional_item_models(self.items)
    }
}

impl BlockEntityData {
    pub open spec fn view(self) -> PayloadModel {
        match self {
            BlockEntityData::Container(container) => PayloadModel::Container(container@),
            BlockEntityData::Other => PayloadModel::Other,
        }
    }
}

impl BlockEntity {
    pub open spec fn view(self) -> BlockEntityModel {
        BlockEntityModel { x: self.x, y: self.y, z: self.z, data: self.data@ }
    }
}

impl DoogChunk {
    pub open spec fn view(self) -> ChunkModel {
        ChunkModel {
            block_entities: Seq::new(
                self.block_entities@.len(),
                |i: int| self.block_entities@[i]@,
            ),
        }
    }
}

} // verus!
