//! The tagged binary tree that a chunk decompresses to, reduced to what the
//! record decoder reads: integers, text, lists and compounds.

use vstd::prelude::*;

verus! {

/// One named entry of a compound.
#[derive(Debug)]
pub struct Field {
    pub name: String,
    pub value: Tag,
}

/// A node of the tree. Every integer width is held as `Int`; floating point
/// values and the packed arrays are held as `Other`.
#[derive(Debug)]
pub enum Tag {
    Int(i64),
    Text(String),
    List(Vec<Tag>),
    Compound(Vec<Field>),
    Other,
}

/// What a node stands for: a compound is a map from names to nodes, so the
/// order in which its entries are stored does not matter.
pub ghost enum TagModel {
    Int(i64),
    Text(Seq<char>),
    List(Seq<TagModel>),
    Compound(Map<Seq<char>, TagModel>),
    Other,
}

/// True if some entry of `fields` is called `name`.
pub open spec fn has_field(fields: Seq<Field>, name: Seq<char>) -> bool {
    exists|i: int| 0 <= i < fields.len() && (#[trigger] fields[i]).name@ == name
}

/// The position of the first entry called `name`.
pub open spec fn first_field(fields: Seq<Field>, name: Seq<char>) -> int {
    choose|i: int|
        0 <= i < fields.len() && (#[trigger] fields[i]).name@ == name && forall|j: int|
            0 <= j < i ==> (#[trigger] fields[j]).name@ != name
}

impl Tag {
    pub open spec fn view(self) -> TagModel
        decreases self,
    {
        match self {
            Tag::Int(n) => TagModel::Int(n),
            Tag::Text(s) => TagModel::Text(s@),
            Tag::List(items) => TagModel::List(
                Seq::new(
                    items@.len(),
                    |i: int|
                        if 0 <= i < items@.len() {
                            items@[i].view()
                        } else {
                            TagModel::Other
                        },
                ),
            ),
            Tag::Compound(fields) => TagModel::Compound(fields_model(fields@)),
            Tag::Other => TagModel::Other,
        }
    }
}

/// The map that a list of entries stands for. Where a name occurs twice, the
/// first entry counts.
#[verifier::opaque]
pub open spec fn fields_model(fields: Seq<Field>) -> Map<Seq<char>, TagModel>
    decreases fields,
{
    Map::new(
        |name: Seq<char>| has_field(fields, name),
        |name: Seq<char>|
            {
                let i = first_field(fields, name);
                if 0 <= i < fields.len() {
                    fields[i].value.view()
                } else {
                    TagModel::Other
                }
            },
    )
}

/// The tree that the bytes of a chunk encode, if they encode one.
pub uninterp spec fn nbt_tree(bytes: Seq<u8>) -> Option<TagModel>;

/// What a value of the decoding crate stands for.
pub uninterp spec fn value_model(value: fastnbt::Value) -> TagModel;

#[verifier::external_type_specification]
#[verifier::external_body]
pub struct ExValue(fastnbt::Value);

#[verifier::external_type_specification]
#[verifier::external_body]
pub struct ExNbtError(fastnbt::error::Error);

/// Calls `fastnbt::from_bytes_with_opts` for a `fastnbt::Value`, with no list
/// allowed to claim more elements than the buffer has bytes. Whether the bytes
/// decode, and to which tree, depends on the bytes alone.
#[verifier::external_body]
fn parse_value(data: &[u8]) -> (parsed: Result<fastnbt::Value, fastnbt::error::Error>)
    ensures
        match parsed {
            Ok(value) => nbt_tree(data@) == Some(value_model(value)),
            Err(_) => nbt_tree(data@) is None,
        },
{
    fastnbt::from_bytes_with_opts(data, fastnbt::DeOpts::new().max_seq_len(data.len()))
}

/// Moves a `fastnbt::Value` into a `Tag`, variant by variant: the four integer
/// widths become `Int`, a string `Text`, a list `List`, a compound `Compound`
/// with one entry per key, and every other variant `Other`.
#[verifier::external_body]
fn tag_of_value(value: fastnbt::Value) -> (tag: Tag)
    ensures
        tag@ == value_model(value),
{
    match value {
        fastnbt::Value::Byte(n) => Tag::Int(n.into()),
        fastnbt::Value::Short(n) => Tag::Int(n.into()),
        fastnbt::Value::Int(n) => Tag::Int(n.into()),
        fastnbt::Value::Long(n) => Tag::Int(n),
        fastnbt::Value::String(s) => Tag::Text(s),
        fastnbt::Value::List(l) => Tag::List(l.into_iter().map(tag_of_value).collect()),
        fastnbt::Value::Compound(m) => Tag::Compound(
            m.into_iter().map(|(name, v)| Field { name, value: tag_of_value(v) }).collect(),
        ),
        _ => Tag::Other,
    }
}

/// Compares two string slices with `==` of `str`.
#[verifier::external_body]
pub(crate) fn same_text(a: &str, b: &str) -> (same: bool)
    ensures
        same == (a@ == b@),
{
    a == b
}

/// Decodes the bytes of one chunk into a tree.
pub fn decode_tag(data: &[u8]) -> (decoded: Option<Tag>)
    ensures
        match decoded {
            Some(tag) => nbt_tree(data@) == Some(tag@),
            None => nbt_tree(data@) is None,
        },
{
    match parse_value(data) {
        Ok(value) => Some(tag_of_value(value)),
        Err(_) => None,
    }
}

/// The first entry of `fields` called `name`.
pub fn find_field<'a>(fields: &'a Vec<Field>, name: &str) -> (found: Option<&'a Tag>)
    ensures
        match found {
            Some(tag) => {
                &&& fields_model(fields@).contains_key(name@)
                &&& tag@ == fields_model(fields@)[name@]
                &&& exists|i: int| 0 <= i < fields@.len() && (#[trigger] fields@[i]).value == *tag
            },
            None => !fields_model(fields@).contains_key(name@),
        },
{
    proof {
        reveal(fields_model);
    }
    let mut i: usize = 0;
    while i < fields.len()
        invariant
            i <= fields.len(),
            forall|j: int| 0 <= j < i ==> (#[trigger] fields@[j]).name@ != name@,
        decreases fields.len() - i,
    {
        if same_text(fields[i].name.as_str(), name) {
            proof {
                reveal(fields_model);
                let k = first_field(fields@, name@);
                assert(0 <= k < fields@.len() && fields@[k].name@ == name@ && forall|j: int|
                    0 <= j < k ==> (#[trigger] fields@[j]).name@ != name@);
                assert(k == i);
            }
            return Some(&fields[i].value);
        }
        i += 1;
    }
    None
}

} // verus!
