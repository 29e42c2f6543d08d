//! What identifies a torrent: its info hash, in hex.
use sha1::{Digest, Sha1};
use vstd::prelude::*;
use vstd::string::*;
use vstd::utf8::*;

use crate::metainfo::{parse_magnet, parse_metainfo, UriFile, UriFileView};

verus! {

/// The small hex digit for a number below sixteen.
pub open spec fn lower_hex(digit: u8) -> char {
    if digit < 10 {
        (48 + digit) as char
    } else {
        (87 + digit) as char
    }
}

/// Bytes in lowercase hex, two digits each.
pub open spec fn hex_text(bytes: Seq<u8>) -> Seq<char> {
    Seq::new(
        2 * bytes.len(),
        |i: int|
            if i % 2 == 0 {
                lower_hex(bytes[i / 2] / 16)
            } else {
                lower_hex(bytes[i / 2] % 16)
            },
    )
}

/// The small hex digit for a number below sixteen.
fn hex_digit(digit: u8) -> (c: char)
    requires
        digit < 16,
    ensures
        c == lower_hex(digit),
{
    if digit < 10 {
        (48 + digit) as char
    } else {
        (87 + digit) as char
    }
}

/// An info hash in lowercase hex.
pub fn hex(hash: &[u8; 20]) -> (text: String)
    ensures
        text@ == hex_text(hash@),
        text@.len() == 40,
{
    let mut text = String::new();
    let mut i: usize = 0;
    while i < 20
        invariant
            i <= 20,
            text@ == hex_text(hash@.take(i as int)),
        decreases 20 - i,
    {
        let ghost before = text@;
        text.push(hex_digit(hash[i] / 16));
        text.push(hex_digit(hash[i] % 16));
        i += 1;
        proof {
            let now = hash@.take(i as int);
            assert forall|j: int| 0 <= j < 2 * i implies text@[j] == hex_text(now)[j] by {
                if j < 2 * (i - 1) {
                    assert(before[j] == hex_text(hash@.take(i - 1))[j]);
                }
            }
            assert(text@ =~= hex_text(now));
        }
    }
    proof {
        assert(hash@.take(20) =~= hash@);
    }
    text
}

pub proof fn hex_text_chars(bytes: Seq<u8>)
    ensures
        forall|i: int|
            0 <= i < hex_text(bytes).len() ==> {
                let c = #[trigger] hex_text(bytes)[i];
                '0' <= c <= '9' || 'a' <= c <= 'f'
            },
{
}

/// Two hashes with the same hex form are the same hash.
pub proof fn hex_tells_hashes_apart(a: Seq<u8>, b: Seq<u8>)
    requires
        hex_text(a) == hex_text(b),
    ensures
        a == b,
{
    assert(hex_text(a).len() == 2 * a.len());
    assert(hex_text(b).len() == 2 * b.len());
    assert forall|i: int| 0 <= i < a.len() implies a[i] == b[i] by {
        let ha = hex_text(a);
        let hb = hex_text(b);
        assert(ha[2 * i] == hb[2 * i] && ha[2 * i + 1] == hb[2 * i + 1]);
        assert((2 * i) / 2 == i && (2 * i) % 2 == 0);
        assert((2 * i + 1) / 2 == i && (2 * i + 1) % 2 == 1);
        assert(ha[2 * i] == lower_hex(a[i] / 16) && hb[2 * i] == lower_hex(b[i] / 16));
        assert(ha[2 * i + 1] == lower_hex(a[i] % 16) && hb[2 * i + 1] == lower_hex(b[i] % 16));
        assert(a[i] / 16 == b[i] / 16);
        assert(a[i] % 16 == b[i] % 16);
    }
    assert(a =~= b);
}

/// The SHA-1 digest of some bytes.
pub uninterp spec fn sha1_of(bytes: Seq<u8>) -> Seq<u8>;

/// The `Sha1` hasher of the sha1 crate, fed all of `bytes` at once: the digest depends on
/// them alone.
#[verifier::external_body]
fn sha1_digest(bytes: &[u8]) -> (digest: [u8; 20])
    ensures
        digest@ == sha1_of(bytes@),
{
    let mut hasher = Sha1::new();
    hasher.update(bytes);
    hasher.finalize().into()
}

/// The identity of a torrent whose URI names neither a magnet link nor a readable
/// `.torrent` file: a hash of the URI text.
pub fn hash_uri(uri: &str) -> (hash: String)
    ensures
        hash@ == hex_text(sha1_of(encode_utf8(uri@))),
        hash@.len() == 40,
{
    hex(&sha1_digest(uri.as_bytes()))
}

/// The info hash of what a URI names: of the file, when there is one to read, or else of the
/// magnet link.
pub open spec fn info_hash_of(uri: Seq<char>, file: UriFileView) -> Option<Seq<u8>> {
    match file {
        UriFileView::Absent => match crate::metainfo::magnet_of(uri) {
            Some(magnet) => Some(magnet.info_hash),
            None => None,
        },
        UriFileView::Unreadable => None,
        UriFileView::Contents(bytes) => match crate::metainfo::meta_of(bytes) {
            Some(meta) => Some(meta.info_hash),
            None => None,
        },
    }
}

/// The BitTorrent info hash (hex) of the magnet link or `.torrent` file `uri` names, or
/// `None` when it names neither. `file` is what there is to read at that place.
pub fn info_hash(uri: &str, file: &UriFile) -> (hash: Option<String>)
    ensures
        match hash {
            Some(hash) => info_hash_of(uri@, file@) is Some && hash@ == hex_text(
                info_hash_of(uri@, file@)->0,
            ) && hash@.len() == 40,
            None => info_hash_of(uri@, file@) is None,
        },
{
    match file {
        UriFile::Absent => match parse_magnet(uri) {
            Some(magnet) => Some(hex(&magnet.info_hash)),
            None => None,
        },
        UriFile::Unreadable => None,
        UriFile::Contents(bytes) => match parse_metainfo(bytes.as_slice()) {
            Some(meta) => Some(hex(&meta.info_hash)),
            None => None,
        },
    }
}

/// An info hash is spelt byte by byte, the higher digit first: read as hex digits, each pair of
/// characters is worth the byte it stands for.
pub proof fn hex_digits_are_worth_their_bytes(bytes: Seq<u8>, i: int)
    requires
        0 <= i < bytes.len(),
    ensures
        hex_text(bytes).len() == 2 * bytes.len(),
        ({
            let high = hex_text(bytes)[2 * i] as int;
            let low = hex_text(bytes)[2 * i + 1] as int;
            let worth = |digit: int|
                if digit < 58 {
                    digit - 48
                } else {
                    digit - 87
                };
            &&& 48 <= high <= 57 || 97 <= high <= 102
            &&& 48 <= low <= 57 || 97 <= low <= 102
            &&& 16 * worth(high) + worth(low) == bytes[i]
        }),
{
    assert((2 * i) / 2 == i && (2 * i) % 2 == 0);
    assert((2 * i + 1) / 2 == i && (2 * i + 1) % 2 == 1);
    let byte = bytes[i];
    assert(byte / 16 < 16 && byte % 16 < 16);
    assert(16 * (byte / 16) + byte % 16 == byte);
}

/// What identifies a torrent: the info hash its magnet link gives, or that of its metadata, so
/// that the same content is the same torrent either way. What cannot be read identifies nothing.
pub proof fn torrents_are_known_by_their_content(
    uri: Seq<char>,
    file: Seq<u8>,
    hash: Seq<u8>,
)
    ensures
        (crate::metainfo::magnet_of(uri) matches Some(magnet) && magnet.info_hash == hash)
            <==> info_hash_of(uri, UriFileView::Absent) == Some(hash),
        (crate::metainfo::meta_of(file) matches Some(meta) && meta.info_hash == hash)
            <==> info_hash_of(uri, UriFileView::Contents(file)) == Some(hash),
        info_hash_of(uri, UriFileView::Unreadable) is None,
{
}

} // verus!
