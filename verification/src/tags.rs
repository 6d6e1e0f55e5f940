//! The table of tag handles.
use ritelinked::LinkedHashMap;
use vstd::prelude::*;

verus! {

/// `ritelinked::LinkedHashMap`: a hash map that keeps its entries in the
/// order of insertion. Nothing is known of a value but what the functions
/// below say.
#[verifier::external_type_specification]
#[verifier::external_body]
#[verifier::reject_recursive_types(K)]
#[verifier::reject_recursive_types(V)]
#[verifier::reject_recursive_types(S)]
pub struct ExLinkedHashMap<K, V, S>(LinkedHashMap<K, V, S>);

/// `ritelinked::DefaultHashBuilder`: the hasher that a `LinkedHashMap` has
/// where none is named.
#[verifier::external_type_specification]
#[verifier::external_body]
pub struct ExDefaultHashBuilder(ritelinked::DefaultHashBuilder);

/// The prefix that each handle of the table stands for.
pub uninterp spec fn tag_entries(table: LinkedHashMap<String, String>) -> Map<Seq<char>, Seq<char>>;

/// `LinkedHashMap::new`: a map without entries.
#[verifier::external_body]
pub(crate) fn table_new() -> (table: LinkedHashMap<String, String>)
    ensures
        tag_entries(table) =~= Map::empty(),
{
    LinkedHashMap::new()
}

/// `LinkedHashMap::insert`: afterwards the key maps to the value, whether or
/// not it was there before; the other keys keep their values.
#[verifier::external_body]
pub(crate) fn table_insert(table: &mut LinkedHashMap<String, String>, handle: String, prefix: String)
    ensures
        tag_entries(*final(table)) == tag_entries(*old(table)).insert(handle@, prefix@),
{
    table.insert(handle, prefix);
}

/// `LinkedHashMap::get`: the value under the key, if the map holds the key.
#[verifier::external_body]
pub(crate) fn table_get<'a>(table: &'a LinkedHashMap<String, String>, handle: &str) -> (r: Option<
    &'a String,
>)
    ensures
        match r {
            Some(prefix) => tag_entries(*table).contains_key(handle@) && prefix@ == tag_entries(
                *table,
            )[handle@],
            None => !tag_entries(*table).contains_key(handle@),
        },
{
    table.get(handle)
}

/// The handles that every document starts with: `!` for local tags and `!!`
/// for the tags of the YAML repository.
pub open spec fn default_tags() -> Map<Seq<char>, Seq<char>> {
    Map::<Seq<char>, Seq<char>>::empty().insert("!"@, ""@).insert("!!"@, "tag:yaml.org,2002:"@)
}

/// A table that holds the default handles.
pub fn default_table() -> (table: LinkedHashMap<String, String>)
    ensures
        tag_entries(table) == default_tags(),
{
    let mut table = table_new();
    table_insert(&mut table, "!".to_owned(), String::new());
    proof {
        reveal_strlit("");
        assert(""@ =~= Seq::<char>::empty());
    }
    table_insert(&mut table, "!!".to_owned(), "tag:yaml.org,2002:".to_owned());
    assert(tag_entries(table) =~= default_tags());
    table
}

} // verus!
