//! The display name that a client sends when it connects.
//!
//! The connection carries 256 bytes of user data. The first eight hold the
//! length of the name in bytes, least significant byte first; the name
//! follows, in UTF-8; the rest is zero.

use crate::events::Player;
use vstd::prelude::*;
use vstd::utf8::{decode_utf8, encode_utf8, valid_utf8};

verus! {

broadcast use {vstd::utf8::encode_utf8_valid_utf8, vstd::utf8::encode_utf8_decode_utf8};

/// Number of bytes of user data that a connection carries.
pub const USER_DATA_BYTES: usize = 256;

/// Number of bytes of user data that hold the length of the name.
pub const LENGTH_BYTES: usize = 8;

/// The longest name, in bytes, that the user data can hold.
pub const MAX_NAME_BYTES: usize = 248;

/// The number that the first eight bytes hold, least significant byte first.
pub open spec fn written_length(user_data: Seq<u8>) -> nat {
    (user_data[0] as nat) + 0x100 * (user_data[1] as nat) + 0x1_0000 * (user_data[2] as nat)
        + 0x100_0000 * (user_data[3] as nat) + 0x1_0000_0000 * (user_data[4] as nat)
        + 0x100_0000_0000 * (user_data[5] as nat) + 0x1_0000_0000_0000 * (user_data[6] as nat)
        + 0x100_0000_0000_0000 * (user_data[7] as nat)
}

/// The eight bytes that hold the number, least significant byte first.
pub open spec fn length_bytes(length: nat) -> Seq<u8> {
    seq![
        (length % 0x100) as u8,
        (length / 0x100 % 0x100) as u8,
        (length / 0x1_0000 % 0x100) as u8,
        (length / 0x100_0000 % 0x100) as u8,
        (length / 0x1_0000_0000 % 0x100) as u8,
        (length / 0x100_0000_0000 % 0x100) as u8,
        (length / 0x1_0000_0000_0000 % 0x100) as u8,
        (length / 0x100_0000_0000_0000 % 0x100) as u8,
    ]
}

/// Length in bytes of the name in the user data: the length written in the
/// first eight bytes, or the most that fits where more is written.
pub open spec fn name_length(user_data: Seq<u8>) -> int {
    if written_length(user_data) <= MAX_NAME_BYTES {
        written_length(user_data) as int
    } else {
        MAX_NAME_BYTES as int
    }
}

/// The bytes of the name in the user data.
pub open spec fn name_bytes(user_data: Seq<u8>) -> Seq<u8> {
    user_data.subrange(LENGTH_BYTES as int, LENGTH_BYTES + name_length(user_data))
}

/// The user data that carries the name.
pub open spec fn user_data_of(name: Seq<char>) -> Seq<u8> {
    let text = encode_utf8(name);
    length_bytes(text.len()) + text + Seq::new(
        (MAX_NAME_BYTES - text.len()) as nat,
        |i: int| 0u8,
    )
}

/// `String::from_utf8`: the text that the bytes encode where they are valid
/// UTF-8, and nothing where they are not.
#[verifier::external_body]
fn string_from_utf8(bytes: Vec<u8>) -> (text: Option<String>)
    ensures
        text is Some <==> valid_utf8(bytes@),
        text is Some ==> text->0@ == decode_utf8(bytes@),
{
    match String::from_utf8(bytes) {
        Ok(text) => Some(text),
        Err(_) => None,
    }
}

/// The player that the user data of a new connection names, or nobody where
/// the bytes of the name are not valid UTF-8.
pub fn name_from_user_data(user_data: &[u8; 256]) -> (player: Option<Player>)
    ensures
        player is Some <==> valid_utf8(name_bytes(user_data@)),
        player is Some ==> player->0.name@ == decode_utf8(name_bytes(user_data@)),
{
    let mut written: u64 = user_data[7] as u64;
    written = written * 256 + user_data[6] as u64;
    written = written * 256 + user_data[5] as u64;
    written = written * 256 + user_data[4] as u64;
    written = written * 256 + user_data[3] as u64;
    written = written * 256 + user_data[2] as u64;
    written = written * 256 + user_data[1] as u64;
    written = written * 256 + user_data[0] as u64;
    assert(written == written_length(user_data@));
    let len: usize = if written <= MAX_NAME_BYTES as u64 {
        written as usize
    } else {
        MAX_NAME_BYTES
    };
    let mut data: Vec<u8> = Vec::new();
    let mut i: usize = 0;
    while i < len
        invariant
            i <= len <= MAX_NAME_BYTES,
            data@ == user_data@.subrange(LENGTH_BYTES as int, LENGTH_BYTES + i),
        decreases len - i,
    {
        data.push(user_data[LENGTH_BYTES + i]);
        assert(data@ =~= user_data@.subrange(LENGTH_BYTES as int, LENGTH_BYTES + i + 1));
        i += 1;
    }
    match string_from_utf8(data) {
        Some(name) => Some(Player { name }),
        None => None,
    }
}

/// The user data that carries the name, or nothing where the name is longer
/// than 248 bytes.
pub fn user_data_from_name(username: &str) -> (user_data: Option<[u8; 256]>)
    ensures
        user_data is Some <==> encode_utf8(username@).len() <= MAX_NAME_BYTES,
        user_data is Some ==> user_data->0@ == user_data_of(username@),
{
    let text = username.as_bytes();
    if text.len() > MAX_NAME_BYTES {
        return None;
    }
    let mut user_data: [u8; 256] = [0u8; 256];
    let mut rest: usize = text.len();
    let mut k: usize = 0;
    while k < LENGTH_BYTES
        invariant
            k <= LENGTH_BYTES,
            text@.len() <= MAX_NAME_BYTES,
            k == 0 ==> rest == text@.len(),
            k >= 1 ==> rest == 0,
            forall|j: int| 0 <= j < k ==> user_data[j] == length_bytes(text@.len())[j],
            forall|j: int| k <= j < 256 ==> user_data[j] == 0,
        decreases LENGTH_BYTES - k,
    {
        user_data[k] = (rest % 256) as u8;
        rest = rest / 256;
        k += 1;
    }
    let mut i: usize = 0;
    while i < text.len()
        invariant
            i <= text@.len() <= MAX_NAME_BYTES,
            forall|j: int| 0 <= j < LENGTH_BYTES ==> user_data[j] == length_bytes(text@.len())[j],
            forall|j: int| 0 <= j < i ==> user_data[LENGTH_BYTES + j] == text@[j],
            forall|j: int| LENGTH_BYTES + i <= j < 256 ==> user_data[j] == 0,
        decreases text@.len() - i,
    {
        user_data[LENGTH_BYTES + i] = text[i];
        i += 1;
    }
    assert(user_data@ =~= user_data_of(username@));
    Some(user_data)
}

/// A name of at most 248 bytes that is written into user data is read back
/// from it unchanged.
pub proof fn lemma_name_round_trip(name: Seq<char>)
    requires
        encode_utf8(name).len() <= MAX_NAME_BYTES,
    ensures
        user_data_of(name).len() == USER_DATA_BYTES,
        name_bytes(user_data_of(name)) == encode_utf8(name),
        valid_utf8(name_bytes(user_data_of(name))),
        decode_utf8(name_bytes(user_data_of(name))) == name,
{
    let text = encode_utf8(name);
    let data = user_data_of(name);
    assert(written_length(data) == text.len());
    assert(name_bytes(data) =~= text);
}

} // verus!
