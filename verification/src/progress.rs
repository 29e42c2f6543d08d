//! The progress file mtorrent keeps beside a torrent's content: a bencoded dictionary from
//! info hashes to the pieces downloaded.
use mtorrent::utils::re_exports::mtorrent_utils::benc::Element;
use vstd::prelude::*;

verus! {

/// A bencoded element, as mtorrent parses it.
#[verifier::external_type_specification]
#[verifier::external_body]
pub struct ExElement(Element);

/// The byte-string keys of an element that is a dictionary, each with the byte string it
/// leads to, or `None` where it leads to something else. `None` for any other element.
pub uninterp spec fn entries_of(root: Element) -> Option<Map<Seq<u8>, Option<Seq<u8>>>>;

/// Whether every dictionary in an element, at any depth, has byte strings for keys.
pub uninterp spec fn byte_keyed(root: Element) -> bool;

/// What [`entries_of`] says of the element that some bytes spell, or `None` when they spell
/// none.
pub uninterp spec fn parsed_entries(bytes: Seq<u8>) -> Option<Map<Seq<u8>, Option<Seq<u8>>>>;

/// `Element::from_bytes` of mtorrent, for bytes that spell a dictionary: the entries depend
/// on the bytes alone, their keys are byte strings, and no byte string in them is longer
/// than the whole. `None` stands for bytes that spell nothing, or something else. It calls
/// itself for each level of nesting, so how deep that may go rests on the stack.
#[verifier::external_body]
pub(crate) fn parse_dictionary(bytes: &[u8]) -> (root: Option<Element>)
    ensures
        match root {
            Some(root) => {
                &&& entries_of(root) is Some
                &&& entries_of(root) == parsed_entries(bytes@)
                &&& byte_keyed(root)
                &&& forall|key: Seq<u8>|
                    #![trigger entries_of(root)->0[key]]
                    entries_of(root)->0.contains_key(key) && entries_of(root)->0[key] is Some
                        ==> entries_of(root)->0[key]->0.len() <= bytes@.len()
            },
            None => parsed_entries(bytes@) is None,
        },
{
    match Element::from_bytes(bytes) {
        Ok(Element::Dictionary(root)) => Some(Element::Dictionary(root)),
        Ok(_) => None,
        Err(_) => None,
    }
}

/// `BTreeMap::remove` on the map of a dictionary element: the entry under `key` leaves, if
/// there is one, and comes back when it is a byte string.
#[verifier::external_body]
pub(crate) fn take_bytes(root: &mut Element, key: &[u8]) -> (taken: Option<Vec<u8>>)
    requires
        entries_of(*old(root)) is Some,
    ensures
        entries_of(*final(root)) == Some(entries_of(*old(root))->0.remove(key@)),
        byte_keyed(*old(root)) ==> byte_keyed(*final(root)),
        match taken {
            Some(taken) => entries_of(*old(root))->0.contains_key(key@) && entries_of(
                *old(root),
            )->0[key@] == Some(taken@),
            None => entries_of(*old(root))->0.contains_key(key@) ==> entries_of(
                *old(root),
            )->0[key@] is None,
        },
{
    match root {
        Element::Dictionary(map) => match map.remove(&Element::ByteString(key.to_vec())) {
            Some(Element::ByteString(bytes)) => Some(bytes),
            Some(_) => None,
            None => None,
        },
        _ => None,
    }
}

/// `BTreeMap::insert` on the map of a dictionary element: `key` leads to the byte string
/// `bytes` from now on, and no other entry changes.
#[verifier::external_body]
pub(crate) fn put_bytes(root: &mut Element, key: &[u8], bytes: Vec<u8>)
    requires
        entries_of(*old(root)) is Some,
    ensures
        entries_of(*final(root)) == Some(entries_of(*old(root))->0.insert(key@, Some(bytes@))),
        byte_keyed(*old(root)) ==> byte_keyed(*final(root)),
{
    match root {
        Element::Dictionary(map) => {
            map.insert(Element::ByteString(key.to_vec()), Element::ByteString(bytes));
        },
        _ => {},
    }
}

/// `Element::encode` of mtorrent, for a dictionary whose keys are byte strings throughout:
/// the bytes spell the same entries again.
#[verifier::external_body]
pub(crate) fn encode_dictionary(root: &Element) -> (bytes: Vec<u8>)
    requires
        entries_of(*root) is Some,
        byte_keyed(*root),
    ensures
        parsed_entries(bytes@) == entries_of(*root),
{
    root.encode()
}

/// The pieces a progress file lists for a torrent, or `None` when it lists none.
pub open spec fn listed_bits(file: Seq<u8>, info_hash: Seq<u8>) -> Option<Seq<u8>> {
    match parsed_entries(file) {
        Some(entries) => if entries.contains_key(info_hash) {
            entries[info_hash]
        } else {
            None
        },
        None => None,
    }
}

/// The pieces a progress file lists for a torrent are the bytes it holds under its hash; there are
/// none where the file cannot be read, has no such entry or holds something else there.
pub proof fn listed_pieces_stand_under_their_hash(file: Seq<u8>, info_hash: Seq<u8>, bits: Seq<u8>)
    ensures
        listed_bits(file, info_hash) == Some(bits) <==> (parsed_entries(file) matches Some(entries)
            && entries.contains_key(info_hash) && entries[info_hash] == Some(bits)),
{
}

} // verus!
