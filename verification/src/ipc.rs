use vstd::prelude::*;
use vstd::string::*;

use base64::Engine;

use crate::text::{push_str, string_from_chars};

verus! {

/// What base64's standard engine (standard alphabet, with padding) makes of
/// the UTF-8 bytes of `value`.
pub uninterp spec fn base64_standard(value: Seq<char>) -> Seq<char>;

/// `Engine::encode` of base64's `general_purpose::STANDARD` on the UTF-8
/// bytes of `value`. The result depends on `value` alone; the contract names
/// it. The length bound keeps the encoded size, which the engine computes
/// with a checked multiplication that panics on overflow, well inside
/// `usize`.
#[verifier::external_body]
fn encode_base64(value: &str) -> (r: String)
    requires
        value@.len() <= usize::MAX / 8,
    ensures
        r@ == base64_standard(value@),
{
    base64::engine::general_purpose::STANDARD.encode(value.as_bytes())
}

/// The OSC 1337 sequence that sets the user variable `key` to `value` in
/// WezTerm: `ESC ] 1337 ; SetUserVar=key=base64(value) BEL`.
pub open spec fn user_var_text(key: Seq<char>, value: Seq<char>) -> Seq<char> {
    seq!['\x1b', ']', '1', '3', '3', '7', ';', 'S', 'e', 't', 'U', 's', 'e', 'r', 'V', 'a', 'r', '='] + key + seq!['=']
        + base64_standard(value) + seq!['\x07']
}

/// The escape sequence that sets WezTerm's user variable `key` to `value`,
/// which the terminal's Lua config sees in its `user-var-changed` event.
pub fn user_var_sequence(key: &str, value: &str) -> (r: String)
    requires
        value@.len() <= usize::MAX / 8,
    ensures
        r@ == user_var_text(key@, value@),
{
    let encoded = encode_base64(value);
    let mut out: Vec<char> = Vec::new();
    proof {
        reveal_strlit("\x1b]1337;SetUserVar=");
        reveal_strlit("=");
        reveal_strlit("\x07");
    }
    push_str(&mut out, "\x1b]1337;SetUserVar=");
    push_str(&mut out, key);
    push_str(&mut out, "=");
    push_str(&mut out, encoded.as_str());
    push_str(&mut out, "\x07");
    assert(out@ =~= user_var_text(key@, value@));
    string_from_chars(out.as_slice())
}

pub open spec fn active_key() -> Seq<char> {
    seq!['w', 'e', 'z', 't', 'u', 'i', '_', 'a', 'c', 't', 'i', 'v', 'e']
}

pub open spec fn bool_text(b: bool) -> Seq<char> {
    if b { seq!['t', 'r', 'u', 'e'] } else { seq!['f', 'a', 'l', 's', 'e'] }
}

/// The sequence that tells the companion Lua plugin whether weztui is
/// active (it hides the tab bar meanwhile): the user variable
/// `weztui_active` set to `true` or `false`.
pub fn signal_active(active: bool) -> (r: String)
    ensures
        r@ == user_var_text(active_key(), bool_text(active)),
{
    proof {
        reveal_strlit("weztui_active");
        reveal_strlit("true");
        reveal_strlit("false");
    }
    assert("weztui_active"@ =~= active_key());
    if active {
        assert("true"@ =~= bool_text(true));
        user_var_sequence("weztui_active", "true")
    } else {
        assert("false"@ =~= bool_text(false));
        user_var_sequence("weztui_active", "false")
    }
}

} // verus!
