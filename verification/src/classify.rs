//! Telling an encrypted payload from plain text.
//!
//! The relay never reads a payload. It only looks for the marks that the
//! clients' encryption leaves: a key announcement at the very start, or an
//! armoured block that begins before it ends. Texts are taken as their UTF-8
//! bytes, and positions are byte positions.

use vstd::prelude::*;
use vstd::string::StringSliceAdditionalSpecFns;

verus! {

/// Opens an armoured block.
pub const ENCRYPTED_BEGIN_MARKER: &'static str = "-----BEGIN ENCRYPTED MESSAGE-----";

/// Closes an armoured block.
pub const ENCRYPTED_END_MARKER: &'static str = "-----END ENCRYPTED MESSAGE-----";

/// Announces a Dilithium public key.
pub const DILITHIUM_PUBLIC_KEY_PREFIX: &'static str = "DILITHIUM_PUBLIC_KEY:";

/// Announces an EdDSA public key.
pub const EDDSA_PUBLIC_KEY_PREFIX: &'static str = "EDDSA_PUBLIC_KEY:";

/// Announces an ECDH public key.
pub const ECDH_KEY_EXCHANGE_PREFIX: &'static str = "ECDH_PUBLIC_KEY:";

/// Announces a Kyber public key.
pub const KYBER_KEY_EXCHANGE_PREFIX: &'static str = "KYBER_PUBLIC_KEY:";

/// Whether `pattern` stands in `text` at position `at`.
pub open spec fn occurs_at(text: Seq<u8>, pattern: Seq<u8>, at: int) -> bool {
    &&& 0 <= at
    &&& at + pattern.len() <= text.len()
    &&& text.subrange(at, at + pattern.len()) == pattern
}

/// Whether `text` begins with `prefix`.
pub open spec fn starts_with(text: Seq<u8>, prefix: Seq<u8>) -> bool {
    occurs_at(text, prefix, 0)
}

/// Whether the first occurrence of `pattern` in `text` is at position `at`.
pub open spec fn first_occurs_at(text: Seq<u8>, pattern: Seq<u8>, at: int) -> bool {
    &&& occurs_at(text, pattern, at)
    &&& forall|earlier: int| 0 <= earlier < at ==> !occurs_at(text, pattern, earlier)
}

/// Whether `text` begins with one of the four key announcements.
pub open spec fn announces_key(text: Seq<u8>) -> bool {
    ||| starts_with(text, DILITHIUM_PUBLIC_KEY_PREFIX.spec_bytes())
    ||| starts_with(text, EDDSA_PUBLIC_KEY_PREFIX.spec_bytes())
    ||| starts_with(text, ECDH_KEY_EXCHANGE_PREFIX.spec_bytes())
    ||| starts_with(text, KYBER_KEY_EXCHANGE_PREFIX.spec_bytes())
}

/// Whether `text` holds both markers of an armoured block, the first
/// occurrence of the opening one before the first occurrence of the closing
/// one.
pub open spec fn holds_armoured_block(text: Seq<u8>) -> bool {
    exists|begin: int, end: int|
        {
            &&& #[trigger] first_occurs_at(text, ENCRYPTED_BEGIN_MARKER.spec_bytes(), begin)
            &&& #[trigger] first_occurs_at(text, ENCRYPTED_END_MARKER.spec_bytes(), end)
            &&& begin < end
        }
}

/// Whether `text` counts as encrypted.
pub open spec fn is_encrypted_text(text: Seq<u8>) -> bool {
    announces_key(text) || holds_armoured_block(text)
}

/// Whether `pattern` stands in `text` at position `at`.
pub fn matches_at(text: &[u8], pattern: &[u8], at: usize) -> (matches: bool)
    ensures
        matches == occurs_at(text@, pattern@, at as int),
{
    if pattern.len() > text.len() || at > text.len() - pattern.len() {
        return false;
    }
    let mut k: usize = 0;
    while k < pattern.len()
        invariant
            k <= pattern.len(),
            at + pattern.len() <= text.len(),
            forall|j: int| 0 <= j < k ==> text@[at + j] == pattern@[j],
        decreases pattern.len() - k,
    {
        if text[at + k] != pattern[k] {
            assert(text@.subrange(at as int, at + pattern.len())[k as int] != pattern@[k as int]);
            return false;
        }
        k = k + 1;
    }
    assert(text@.subrange(at as int, at + pattern.len()) =~= pattern@);
    true
}

/// The position of the first occurrence of `pattern` in `text`, if it occurs.
pub fn find(text: &[u8], pattern: &[u8]) -> (found: Option<usize>)
    ensures
        match found {
            Some(at) => first_occurs_at(text@, pattern@, at as int),
            None => forall|at: int| !occurs_at(text@, pattern@, at),
        },
{
    if pattern.len() > text.len() {
        return None;
    }
    let last: usize = text.len() - pattern.len();
    let mut at: usize = 0;
    while at < last
        invariant
            last == text.len() - pattern.len(),
            at <= last,
            forall|earlier: int| 0 <= earlier < at ==> !occurs_at(text@, pattern@, earlier),
        decreases last - at,
    {
        if matches_at(text, pattern, at) {
            return Some(at);
        }
        at = at + 1;
    }
    if matches_at(text, pattern, last) {
        Some(last)
    } else {
        None
    }
}

/// The first position at which a pattern occurs is unique.
pub proof fn lemma_first_occurrence_is_unique(text: Seq<u8>, pattern: Seq<u8>, a: int, b: int)
    requires
        first_occurs_at(text, pattern, a),
        first_occurs_at(text, pattern, b),
    ensures
        a == b,
{
}

/// Whether a message counts as encrypted: it begins with a key announcement,
/// or it holds an armoured block.
pub fn is_message_encrypted(message: &str) -> (encrypted: bool)
    ensures
        encrypted == is_encrypted_text(message.spec_bytes()),
{
    let text = message.as_bytes();
    if matches_at(text, DILITHIUM_PUBLIC_KEY_PREFIX.as_bytes(), 0) || matches_at(
        text,
        EDDSA_PUBLIC_KEY_PREFIX.as_bytes(),
        0,
    ) || matches_at(text, ECDH_KEY_EXCHANGE_PREFIX.as_bytes(), 0) || matches_at(
        text,
        KYBER_KEY_EXCHANGE_PREFIX.as_bytes(),
        0,
    ) {
        return true;
    }
    let begin_marker_pos = find(text, ENCRYPTED_BEGIN_MARKER.as_bytes());
    let end_marker_pos = find(text, ENCRYPTED_END_MARKER.as_bytes());
    match (begin_marker_pos, end_marker_pos) {
        (Some(begin), Some(end)) => {
            proof {
                if holds_armoured_block(text@) {
                    let (b, e) = choose|b: int, e: int|
                        {
                            &&& #[trigger] first_occurs_at(
                                text@,
                                ENCRYPTED_BEGIN_MARKER.spec_bytes(),
                                b,
                            )
                            &&& #[trigger] first_occurs_at(
                                text@,
                                ENCRYPTED_END_MARKER.spec_bytes(),
                                e,
                            )
                            &&& b < e
                        };
                    lemma_first_occurrence_is_unique(
                        text@,
                        ENCRYPTED_BEGIN_MARKER.spec_bytes(),
                        b,
                        begin as int,
                    );
                    lemma_first_occurrence_is_unique(
                        text@,
                        ENCRYPTED_END_MARKER.spec_bytes(),
                        e,
                        end as int,
                    );
                }
            }
            begin < end
        },
        _ => false,
    }
}

} // verus!
