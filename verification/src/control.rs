//! Interpreting control messages: input payloads and signal names.

use vstd::prelude::*;
use vstd::string::StringSliceAdditionalSpecFns;
use vstd::utf8::encode_utf8;

use base64::engine::general_purpose::STANDARD;
use base64::Engine;

verus! {

/// What `base64::engine::general_purpose::STANDARD.decode` gives for `input`:
/// the decoded bytes, or the text of its decode error.
pub uninterp spec fn standard_base64_decode(input: Seq<u8>) -> Result<Seq<u8>, Seq<char>>;

/// Decode standard (padded) base64 with the `base64` crate. The result is the
/// crate's: the bytes, or its error rendered as text; nothing about which
/// inputs it accepts is stated here beyond naming that result.
#[verifier::external_body]
fn base64_standard_decode(data: &str) -> (decoded: Result<Vec<u8>, String>)
    ensures
        match decoded {
            Ok(bytes) => standard_base64_decode(data.spec_bytes()) == Ok::<Seq<u8>, Seq<char>>(bytes@),
            Err(message) => standard_base64_decode(data.spec_bytes()) == Err::<Seq<u8>, Seq<char>>(
                message@,
            ),
        },
{
    match STANDARD.decode(data) {
        Ok(bytes) => Ok(bytes),
        Err(err) => Err(err.to_string()),
    }
}

/// The value of a decoding outcome.
pub open spec fn outcome_view(r: Result<Vec<u8>, String>) -> Result<Seq<u8>, Seq<char>> {
    match r {
        Ok(bytes) => Ok(bytes@),
        Err(message) => Err(message@),
    }
}

/// A base64 decoding outcome as an `input` result: the bytes, or an error
/// that says the input was invalid base64.
pub open spec fn base64_input_outcome(decoded: Result<Seq<u8>, Seq<char>>) -> Result<Seq<u8>, Seq<char>> {
    match decoded {
        Ok(bytes) => Ok(bytes),
        Err(message) => Err("invalid base64 input: "@ + message),
    }
}

/// What an `input` payload decodes to: the text's UTF-8 bytes without an
/// encoding or with `utf8`, the base64-decoded bytes with `base64`, and an
/// error for any other encoding.
pub open spec fn input_outcome(enc: Option<Seq<char>>, data: Seq<char>) -> Result<Seq<u8>, Seq<char>> {
    match enc {
        None => Ok(encode_utf8(data)),
        Some(e) => if e == "utf8"@ {
            Ok(encode_utf8(data))
        } else if e == "base64"@ {
            base64_input_outcome(standard_base64_decode(encode_utf8(data)))
        } else {
            Err("unknown input encoding: "@ + e)
        },
    }
}

/// Whether two strings hold the same characters.
pub fn str_equals(a: &str, b: &str) -> (same: bool)
    ensures
        same == (a@ == b@),
{
    let n = a.unicode_len();
    if n != b.unicode_len() {
        return false;
    }
    let mut i: usize = 0;
    while i < n
        invariant
            n == a@.len(),
            n == b@.len(),
            i <= n,
            forall|j: int| 0 <= j < i ==> a@[j] == b@[j],
        decreases n - i,
    {
        if a.get_char(i) != b.get_char(i) {
            return false;
        }
        i = i + 1;
    }
    proof {
        assert(a@ =~= b@);
    }
    true
}

/// Turn a base64 decoding outcome into an `input` result: the bytes, or an
/// error saying the input was invalid base64.
pub fn base64_input(decoded: Result<Vec<u8>, String>) -> (result: Result<Vec<u8>, String>)
    ensures
        outcome_view(result) == base64_input_outcome(outcome_view(decoded)),
{
    match decoded {
        Ok(bytes) => Ok(bytes),
        Err(message) => {
            let mut text = String::from_str("invalid base64 input: ");
            text.append(message.as_str());
            Err(text)
        },
    }
}

/// Decode an `input` message's payload into the bytes to write to the PTY.
///
/// `enc` is `None`/`"utf8"` for a UTF-8 string passthrough, or `"base64"` for
/// base64-encoded binary. An unknown encoding or malformed base64 is an error.
pub fn decode_input(enc: Option<&str>, data: &str) -> (result: Result<Vec<u8>, String>)
    ensures
        outcome_view(result) == input_outcome(
            match enc {
                Some(e) => Some(e@),
                None => None,
            },
            data@,
        ),
{
    match enc {
        None => Ok(data.as_bytes_vec()),
        Some(e) => {
            if str_equals(e, "utf8") {
                Ok(data.as_bytes_vec())
            } else if str_equals(e, "base64") {
                base64_input(base64_standard_decode(data))
            } else {
                let mut text = String::from_str("unknown input encoding: ");
                text.append(e);
                Err(text)
            }
        },
    }
}

/// The signal number of a name a host may send: `HUP` 1, `INT` 2, `QUIT` 3,
/// `KILL` 9, `TERM` 15; no other name has one.
pub open spec fn signal_of(name: Seq<char>) -> Option<i32> {
    if name == "HUP"@ {
        Some(1)
    } else if name == "INT"@ {
        Some(2)
    } else if name == "QUIT"@ {
        Some(3)
    } else if name == "KILL"@ {
        Some(9)
    } else if name == "TERM"@ {
        Some(15)
    } else {
        None
    }
}

/// Map a signal name to its number, for the signals a host may send.
pub fn signal_number(name: &str) -> (number: Option<i32>)
    ensures
        number == signal_of(name@),
{
    if str_equals(name, "HUP") {
        Some(1)
    } else if str_equals(name, "INT") {
        Some(2)
    } else if str_equals(name, "QUIT") {
        Some(3)
    } else if str_equals(name, "KILL") {
        Some(9)
    } else if str_equals(name, "TERM") {
        Some(15)
    } else {
        None
    }
}

/// Input payloads: text without an encoding or with `utf8` is written as its
/// UTF-8 bytes; `base64` is written as the base64 crate's decoding of the
/// text's bytes, and a decoding failure is an error saying the input was
/// invalid base64, followed by the decoder's message; any other encoding is
/// an error naming it.
pub proof fn lemma_input_payloads(enc: Option<Seq<char>>, data: Seq<char>)
    ensures
        enc is None ==> input_outcome(enc, data) == Ok::<Seq<u8>, Seq<char>>(encode_utf8(data)),
        enc == Some("utf8"@) ==> input_outcome(enc, data) == Ok::<Seq<u8>, Seq<char>>(encode_utf8(data)),
        enc == Some("base64"@) ==> match standard_base64_decode(encode_utf8(data)) {
            Ok(bytes) => input_outcome(enc, data) == Ok::<Seq<u8>, Seq<char>>(bytes),
            Err(m) => input_outcome(enc, data) == Err::<Seq<u8>, Seq<char>>("invalid base64 input: "@ + m),
        },
        enc is Some && enc->0 != "utf8"@ && enc->0 != "base64"@ ==> input_outcome(enc, data) == Err::<
            Seq<u8>,
            Seq<char>,
        >("unknown input encoding: "@ + enc->0),
{
    reveal_strlit("utf8");
    reveal_strlit("base64");
    if enc == Some("base64"@) {
        assert("base64"@ != "utf8"@) by {
            assert("base64"@.len() != "utf8"@.len());
        }
    }
}

/// Signal names: `HUP` is 1, `INT` 2, `QUIT` 3, `KILL` 9 and `TERM` 15; no
/// other name has a number.
pub proof fn lemma_signal_numbers(name: Seq<char>)
    ensures
        signal_of("HUP"@) == Some(1i32),
        signal_of("INT"@) == Some(2i32),
        signal_of("QUIT"@) == Some(3i32),
        signal_of("KILL"@) == Some(9i32),
        signal_of("TERM"@) == Some(15i32),
        name != "HUP"@ && name != "INT"@ && name != "QUIT"@ && name != "KILL"@ && name != "TERM"@
            ==> signal_of(name) is None,
{
    reveal_strlit("HUP");
    reveal_strlit("INT");
    reveal_strlit("QUIT");
    reveal_strlit("KILL");
    reveal_strlit("TERM");
    assert("INT"@[0] != "HUP"@[0]);
    assert("QUIT"@.len() != "HUP"@.len() && "QUIT"@.len() != "INT"@.len());
    assert("KILL"@[0] != "QUIT"@[0]);
    assert("TERM"@[0] != "QUIT"@[0] && "TERM"@[0] != "KILL"@[0]);
}

} // verus!
