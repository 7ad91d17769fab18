//! Where an agent's session file lives.
//!
//! The place is scoped by the first 16 bytes of the agent's public key, so that agents on
//! one host do not share a mapping where their keys differ in these.

use crate::text::text_of;
use crate::text::texts;
use crate::text::trim;
use crate::text::trimmed;
use vstd::prelude::*;
use vstd::string::*;
use vstd::utf8::decode_utf8;
use vstd::utf8::decode_utf8_encode_utf8;
use vstd::utf8::encode_utf8;
use vstd::utf8::encode_utf8_decode_utf8;
use vstd::utf8::encode_utf8_valid_utf8;
use vstd::utf8::is_ascii_chars;
use vstd::utf8::is_ascii_chars_encode_utf8;
use vstd::utf8::is_char_boundary;
use vstd::utf8::is_char_boundary_iff_not_is_continuation_byte;
use vstd::utf8::is_char_boundary_start_end_of_seq;
use vstd::utf8::valid_utf8_split;

verus! {

/// The environment variable that overrides where session files live.
pub const STATE_DIR_ENV: &'static str = "BUZZ_ACP_STATE_DIR";

/// Where session files live below the home directory.
pub const HOME_STATE_DIR: &'static str = ".local/state/buzz-acp";

/// The name of the session file.
pub const SESSIONS_FILE: &'static str = "sessions.json";

/// The first 16 bytes of a key, or the whole key where it has no 16 bytes or they end
/// inside a character.
pub open spec fn short_key(key: Seq<char>) -> Seq<char> {
    if is_char_boundary(encode_utf8(key), 16) {
        decode_utf8(encode_utf8(key).subrange(0, 16))
    } else {
        key
    }
}

/// The parts of the directory that are joined in order: the override unless it is blank,
/// else the state directory below the home directory, and below either the short key.
/// Without an override and a home there is none.
pub open spec fn state_dir_of(
    state_dir: Option<Seq<char>>,
    home: Option<Seq<char>>,
    key: Seq<char>,
) -> Option<Seq<Seq<char>>> {
    if state_dir is Some && trimmed(state_dir->0).len() > 0 {
        Some(seq![state_dir->0, short_key(key)])
    } else {
        match home {
            Some(home) => Some(seq![home, HOME_STATE_DIR@, short_key(key)]),
            None => None,
        }
    }
}

/// The first 16 bytes of a key, which keep a path readable for a human and are enough to
/// separate the agents of a host; the whole key where there is no such prefix.
pub fn shorten_key(key: &str) -> (short: &str)
    ensures
        short@ == short_key(key@),
{
    if key.is_char_boundary(16) {
        let (head, _tail) = key.split_at(16);
        proof {
            encode_utf8_decode_utf8(head@);
        }
        head
    } else {
        key
    }
}

/// The parts of the directory of an agent's session file, to be joined in order: from the
/// override and the home directory as the environment gives them. Where they cannot be
/// had, sessions are not kept.
pub fn resolve_path(state_dir: Option<&str>, home: Option<&str>, pubkey_hex: &str) -> (parts:
    Option<Vec<String>>)
    ensures
        match parts {
            Some(parts) => state_dir_of(text_of(state_dir), text_of(home), pubkey_hex@) == Some(
                texts(parts@),
            ),
            None => state_dir_of(text_of(state_dir), text_of(home), pubkey_hex@) is None,
        },
{
    if let Some(dir) = state_dir {
        if !trim(dir).is_empty() {
            let parts = vec![dir.to_owned(), shorten_key(pubkey_hex).to_owned()];
            assert(texts(parts@) =~= seq![dir@, short_key(pubkey_hex@)]);
            return Some(parts);
        }
    }
    match home {
        Some(home) => {
            let parts = vec![
                home.to_owned(),
                HOME_STATE_DIR.to_owned(),
                shorten_key(pubkey_hex).to_owned(),
            ];
            assert(texts(parts@) =~= seq![home@, HOME_STATE_DIR@, short_key(pubkey_hex@)]);
            Some(parts)
        },
        None => None,
    }
}

/// The first 16 bytes of a key, or all of them where there are fewer.
pub open spec fn first_bytes(key: Seq<char>) -> Seq<u8> {
    let bytes = encode_utf8(key);
    if bytes.len() > 16 {
        bytes.take(16)
    } else {
        bytes
    }
}

/// Agents on one host share a directory only where their short keys are the same, which
/// they are not where the keys differ in their first 16 bytes; of a key of ASCII characters
/// the directory is named by the first 16.
pub proof fn law_agents_do_not_share_a_directory(
    state_dir: Option<Seq<char>>,
    home: Option<Seq<char>>,
    key: Seq<char>,
    other: Seq<char>,
)
    requires
        state_dir_of(state_dir, home, key) is Some,
    ensures
        state_dir_of(state_dir, home, other) is Some,
        state_dir_of(state_dir, home, key)->0.last() == short_key(key),
        state_dir_of(state_dir, home, key) == state_dir_of(state_dir, home, other) <==> short_key(
            key,
        ) == short_key(other),
        first_bytes(key) != first_bytes(other) ==> state_dir_of(state_dir, home, key)
            != state_dir_of(state_dir, home, other),
        is_ascii_chars(key) && key.len() >= 16 ==> short_key(key) == key.take(16),
{
    let one = state_dir_of(state_dir, home, key)->0;
    let two = state_dir_of(state_dir, home, other)->0;
    assert(one.last() == short_key(key));
    assert(two.last() == short_key(other));
    if short_key(key) == short_key(other) {
        assert(one =~= two);
    }
    lemma_short_keeps_first_bytes(key);
    lemma_short_keeps_first_bytes(other);
    if is_ascii_chars(key) && key.len() >= 16 {
        lemma_short_ascii(key);
    }
}

/// Shortening a key keeps its first 16 bytes.
proof fn lemma_short_keeps_first_bytes(key: Seq<char>)
    ensures
        first_bytes(short_key(key)) == first_bytes(key),
{
    let bytes = encode_utf8(key);
    encode_utf8_valid_utf8(key);
    if is_char_boundary(bytes, 16) {
        valid_utf8_split(bytes, 16);
        decode_utf8_encode_utf8(bytes.subrange(0, 16));
        assert(bytes.subrange(0, 16) =~= first_bytes(key));
    }
}

proof fn lemma_short_ascii(key: Seq<char>)
    requires
        is_ascii_chars(key),
        key.len() >= 16,
    ensures
        short_key(key) == key.take(16),
{
    let bytes = encode_utf8(key);
    let head = key.take(16);
    encode_utf8_valid_utf8(key);
    is_ascii_chars_encode_utf8(key);
    assert(is_ascii_chars(head)) by {
        assert forall|i: int| 0 <= i < head.len() implies '\0' <= #[trigger] head[i] <= '\u{7f}' by {
            assert(head[i] == key[i]);
        }
    }
    is_ascii_chars_encode_utf8(head);
    if key.len() == 16 {
        is_char_boundary_start_end_of_seq(bytes);
    } else {
        is_char_boundary_iff_not_is_continuation_byte(bytes, 16);
        assert(bytes[16] == key[16] as u8);
        assert(key[16] <= '\u{7f}');
    }
    assert(bytes.subrange(0, 16) =~= encode_utf8(head)) by {
        assert forall|i: int| 0 <= i < 16 implies bytes[i] == encode_utf8(head)[i] by {
            assert(head[i] == key[i]);
        }
    }
    encode_utf8_decode_utf8(head);
}

/// The directory is below the override, where that is more than white space, and else below
/// the home directory's place for state; its name is the short key. With neither there is
/// none.
pub proof fn law_directory_is_below_the_override_or_home(
    state_dir: Option<&str>,
    home: Option<&str>,
    key: &str,
    parts: Option<Vec<String>>,
)
    requires
        call_ensures(resolve_path, (state_dir, home, key), parts),
    ensures
        ({
            let overridden = state_dir is Some && trimmed(state_dir->0@).len() > 0;
            &&& parts is None <==> !overridden && home is None
            &&& parts is Some ==> parts->0@.len() == (if overridden {
                2int
            } else {
                3int
            }) && parts->0@.last()@ == short_key(key@)
            &&& overridden ==> parts->0@[0]@ == state_dir->0@
            &&& !overridden && home is Some ==> parts->0@[0]@ == home->0@ && parts->0@[1]@
                == ".local/state/buzz-acp"@
        }),
{
    if parts is Some {
        let all = texts(parts->0@);
        assert(all.len() == parts->0@.len());
        assert(all[0] == parts->0@[0]@);
        assert(all[1] == parts->0@[1]@);
        assert(all.last() == parts->0@.last()@);
    }
}

/// The short key is the beginning of the key: its first 16 bytes where a character ends
/// there, and else the whole of it.
pub proof fn law_short_key_is_the_beginning(key: &str, short: &str)
    requires
        call_ensures(shorten_key, (key,), short),
    ensures
        is_char_boundary(encode_utf8(key@), 16) ==> encode_utf8(short@) == encode_utf8(
            key@,
        ).subrange(0, 16),
        !is_char_boundary(encode_utf8(key@), 16) ==> short@ == key@,
        short@ == short_key(key@),
{
    encode_utf8_valid_utf8(key@);
    if is_char_boundary(encode_utf8(key@), 16) {
        valid_utf8_split(encode_utf8(key@), 16);
        decode_utf8_encode_utf8(encode_utf8(key@).subrange(0, 16));
    }
}

/// The names by which a session file is found.
pub proof fn law_names_of_places()
    ensures
        STATE_DIR_ENV@ == "BUZZ_ACP_STATE_DIR"@,
        HOME_STATE_DIR@ == ".local/state/buzz-acp"@,
        SESSIONS_FILE@ == "sessions.json"@,
{
}

} // verus!
