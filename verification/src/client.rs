//! How a publisher comes back after a connection is lost, and how a key travels in a link.

use core::time::Duration;

use vstd::prelude::*;
use vstd::string::StringSliceAdditionalSpecFns;
use vstd::utf8::{decode_utf8, encode_utf8, encode_utf8_decode_utf8};

use crate::text::{contains_text, occurs, texts_view, upper_hex_char, upper_hex_digit};
use crate::time::duration_nanos;

verus! {

/// Longest portal token that is stored or presented, in bytes.
pub const MAX_PORTAL_RESTORE_TOKEN_LEN: usize = 512;

/// Longest label of a published source, in characters.
pub const MAX_SOURCE_LABEL_CHARS: usize = 64;

/// How often a lost publication has doubled its delay at most.
pub const MAX_RECONNECT_DOUBLINGS: u32 = 5;

/// Two to a small power.
pub open spec fn doubled(times: nat) -> nat
    decreases times,
{
    if times == 0 {
        1
    } else {
        2 * doubled((times - 1) as nat)
    }
}

/// The delay before a reconnect attempt in milliseconds: a quarter second, doubled with
/// every failed attempt up to the fifth.
pub open spec fn reconnect_delay_ms(attempt: u32) -> nat {
    250 * doubled(
        if attempt < MAX_RECONNECT_DOUBLINGS {
            attempt as nat
        } else {
            MAX_RECONNECT_DOUBLINGS as nat
        },
    )
}

/// The delay before a reconnect attempt.
pub fn reconnect_delay(attempt: u32) -> (delay: Duration)
    ensures
        duration_nanos(delay) == reconnect_delay_ms(attempt) * 1_000_000,
{
    let doublings: u32 = if attempt < MAX_RECONNECT_DOUBLINGS {
        attempt
    } else {
        MAX_RECONNECT_DOUBLINGS
    };
    let mut millis: u64 = 250;
    let mut i: u32 = 0;
    assert(doubled(0) == 1);
    assert(doubled(1) == 2 && doubled(2) == 4 && doubled(3) == 8 && doubled(4) == 16 && doubled(5)
        == 32) by {
        reveal_with_fuel(doubled, 6);
    }
    while i < doublings
        invariant
            i <= doublings <= 5,
            doubled(0) == 1,
            doubled(1) == 2 && doubled(2) == 4 && doubled(3) == 8 && doubled(4) == 16 && doubled(5)
                == 32,
            millis == 250 * doubled(i as nat),
        decreases doublings - i,
    {
        millis = millis * 2;
        i += 1;
    }
    Duration::from_millis(millis)
}

/// Reconnecting is fast at first and never slow: the delay grows with the attempts from a
/// quarter of a second to eight seconds.
pub proof fn reconnect_delay_grows_and_is_bounded(attempt: u32, later: u32)
    requires
        attempt <= later,
    ensures
        250 <= reconnect_delay_ms(attempt) <= reconnect_delay_ms(later) <= 8_000,
{
    reveal_with_fuel(doubled, 6);
}

/// `OsRng.next_u32` of the `rand` crate: a number drawn by the operating system. Nothing
/// is known of it.
#[verifier::external_body]
fn random_u32() -> (number: u32) {
    rand::RngCore::next_u32(&mut rand::rngs::OsRng)
}

/// The growing delay between connection attempts of a segmented publication.
#[derive(Clone, Copy, Debug, PartialEq, Eq, Structural)]
pub struct ConnectionRetry {
    /// Delay before the next attempt, without jitter, in milliseconds.
    pub delay_ms: u64,
}

impl ConnectionRetry {
    /// The delay lies between one second and half a minute.
    pub open spec fn wf(self) -> bool {
        1_000 <= self.delay_ms <= 30_000
    }

    /// The delay that a drop is answered with: back to the start after a long connection.
    pub open spec fn base_ms(self, connected_for: Duration) -> u64 {
        if duration_nanos(connected_for) >= 60_000_000_000 {
            1_000
        } else {
            self.delay_ms
        }
    }

    /// A retry that has not failed yet.
    pub fn new() -> (retry: ConnectionRetry)
        ensures
            retry.delay_ms == 1_000,
            retry.wf(),
    {
        ConnectionRetry { delay_ms: 1_000 }
    }

    /// How long to wait after a connection dropped, given a random number.
    pub fn wait_after_drop(&mut self, connected_for: Duration, random: u32) -> (wait_ms: u64)
        requires
            old(self).wf(),
        ensures
            final(self).wf(),
            wait_ms == old(self).base_ms(connected_for) + random % 500,
            final(self).delay_ms == if 2 * old(self).base_ms(connected_for) > 30_000 {
                30_000
            } else {
                2 * old(self).base_ms(connected_for)
            },
    {
        if connected_for.as_nanos() >= 60_000_000_000 {
            self.delay_ms = 1_000;
        }
        let wait_ms: u64 = self.delay_ms + (random % 500) as u64;
        let next: u64 = self.delay_ms * 2;
        self.delay_ms = if next > 30_000 {
            30_000
        } else {
            next
        };
        wait_ms
    }

    /// How long to wait after a connection dropped: the growing delay with up to half a
    /// second of jitter.
    pub fn connection_dropped(&mut self, connected_for: Duration) -> (wait_ms: u64)
        requires
            old(self).wf(),
        ensures
            final(self).wf(),
            old(self).base_ms(connected_for) <= wait_ms < old(self).base_ms(connected_for) + 500,
            final(self).delay_ms == if 2 * old(self).base_ms(connected_for) > 30_000 {
                30_000
            } else {
                2 * old(self).base_ms(connected_for)
            },
    {
        self.wait_after_drop(connected_for, random_u32())
    }
}

/// How often a native publication was lost.
#[derive(Clone, Copy, Debug, PartialEq, Eq, Structural)]
pub struct NativeRetry {
    /// How often.
    pub attempt: u32,
}

impl NativeRetry {
    /// A publication that was never lost.
    pub fn new() -> (retry: NativeRetry)
        ensures
            retry.attempt == 0,
    {
        NativeRetry { attempt: 0 }
    }

    /// How long to wait before a lost publication is taken up again. There is none once
    /// the publisher is to stop.
    pub fn publication_lost(&mut self, stopping: bool) -> (delay: Option<Duration>)
        ensures
            stopping ==> delay is None && *final(self) == *old(self),
            !stopping ==> {
                &&& delay matches Some(delay) && duration_nanos(delay) == reconnect_delay_ms(
                    old(self).attempt,
                ) * 1_000_000
                &&& final(self).attempt == if old(self).attempt == u32::MAX {
                    u32::MAX as int
                } else {
                    old(self).attempt + 1
                }
            },
    {
        if stopping {
            return None;
        }
        let delay = reconnect_delay(self.attempt);
        self.attempt = self.attempt.saturating_add(1);
        Some(delay)
    }
}

/// What a publisher of segmented media does when its source or connection fails.
#[derive(Clone, Copy, Debug, PartialEq, Eq, Structural)]
pub enum FailureAction {
    /// It ends.
    Stop,
    /// It waits so many milliseconds and tries again.
    RetryAfter(u64),
}

/// What becomes of a source that cannot be opened: it is tried again each second unless
/// the failure is permanent.
pub fn source_failed(chain: &Vec<String>) -> (action: FailureAction)
    ensures
        action == if chain_holds_any(texts_view(chain@), fatal_capture_texts()) {
            FailureAction::Stop
        } else {
            FailureAction::RetryAfter(1_000)
        },
{
    if is_fatal_capture_error(chain) {
        FailureAction::Stop
    } else {
        FailureAction::RetryAfter(1_000)
    }
}

/// What becomes of a connection that was lost: it is taken up again after the growing
/// delay unless the failure is permanent.
pub fn connection_failed(
    retry: &mut ConnectionRetry,
    chain: &Vec<String>,
    refused_by_relay: bool,
    connected_for: Duration,
) -> (action: FailureAction)
    requires
        old(retry).wf(),
    ensures
        final(retry).wf(),
        ({
            let messages = texts_view(chain@);
            let fatal = refused_by_relay || chain_holds_any(messages, fatal_capture_texts())
                || chain_holds_any(messages, fatal_dash_texts());
            let base = old(retry).base_ms(connected_for);
            if fatal {
                action == FailureAction::Stop && *final(retry) == *old(retry)
            } else {
                &&& action matches FailureAction::RetryAfter(wait_ms) && base <= wait_ms < base
                    + 500
                &&& final(retry).delay_ms == if 2 * base > 30_000 {
                    30_000
                } else {
                    2 * base
                }
            }
        }),
{
    if is_fatal_capture_error(chain) || is_fatal_dash_error(chain, refused_by_relay) {
        return FailureAction::Stop;
    }
    FailureAction::RetryAfter(retry.connection_dropped(connected_for))
}

/// Whether a message holds one of the texts.
pub open spec fn holds_any(message: Seq<char>, texts: Seq<Seq<char>>) -> bool {
    exists|k: int| 0 <= k < texts.len() && occurs(message, #[trigger] texts[k])
}

/// Whether a message of a chain holds one of the texts.
pub open spec fn chain_holds_any(chain: Seq<Seq<char>>, texts: Seq<Seq<char>>) -> bool {
    exists|i: int| 0 <= i < chain.len() && holds_any(#[trigger] chain[i], texts)
}

/// The texts by which an encoder or protocol failure is known to be permanent.
pub open spec fn fatal_dash_texts() -> Seq<Seq<char>> {
    seq![
        "OpenH264"@,
        "openh264"@,
        "VA-API H.264"@,
        "required VA-API"@,
        "encoder dimensions changed"@,
        "requires non-zero, even dimensions"@,
        "segment-frames"@,
        "does not fit MPEG-DASH"@,
        "server rejected hello"@,
    ]
}

/// The texts by which a capture failure is known to be permanent.
pub open spec fn fatal_capture_texts() -> Seq<Seq<char>> {
    seq![
        "non-mappable DMA-BUF"@,
        "GPU import/readback is required"@,
        "requires GPU readback"@,
        "GPU readback failed"@,
        "CPU-readable PipeWire buffers"@,
        "no more input formats"@,
        "error alloc buffers: Invalid argument"@,
        "requested portal cursor mode Metadata is not available"@,
        "does not include SPA_META_Cursor while --require-cursor-metadata is set"@,
    ]
}

/// Whether a failure, given by the messages of its causes, cannot go away by retrying.
/// `refused_by_relay` says whether one of the causes is a policy refusal of the relay.
pub fn is_fatal_dash_error(chain: &Vec<String>, refused_by_relay: bool) -> (fatal: bool)
    ensures
        fatal == (refused_by_relay || chain_holds_any(texts_view(chain@), fatal_dash_texts())),
{
    let mut i: usize = 0;
    let ghost texts = fatal_dash_texts();
    let ghost messages = texts_view(chain@);
    while i < chain.len()
        invariant
            texts == fatal_dash_texts(),
            messages == texts_view(chain@),
            i <= chain@.len(),
            forall|k: int| 0 <= k < i ==> !holds_any(#[trigger] messages[k], texts),
        decreases chain@.len() - i,
    {
        let message: &str = chain[i].as_str();
        let found: bool = contains_text(message, "OpenH264") || contains_text(message, "openh264")
            || contains_text(message, "VA-API H.264") || contains_text(message, "required VA-API")
            || contains_text(message, "encoder dimensions changed") || contains_text(
            message,
            "requires non-zero, even dimensions",
        ) || contains_text(message, "segment-frames") || contains_text(
            message,
            "does not fit MPEG-DASH",
        ) || contains_text(message, "server rejected hello");
        assert(messages[i as int] == message@);
        proof {
            lemma_holds_any_of_nine(
                message@,
                "OpenH264"@,
                "openh264"@,
                "VA-API H.264"@,
                "required VA-API"@,
                "encoder dimensions changed"@,
                "requires non-zero, even dimensions"@,
                "segment-frames"@,
                "does not fit MPEG-DASH"@,
                "server rejected hello"@,
            );
        }
        if found {
            assert(holds_any(messages[i as int], texts));
            return true;
        }
        i += 1;
    }
    refused_by_relay
}

/// Whether a capture failure, given by the messages of its causes, cannot go away by
/// retrying.
pub fn is_fatal_capture_error(chain: &Vec<String>) -> (fatal: bool)
    ensures
        fatal == chain_holds_any(texts_view(chain@), fatal_capture_texts()),
{
    let mut i: usize = 0;
    let ghost texts = fatal_capture_texts();
    let ghost messages = texts_view(chain@);
    while i < chain.len()
        invariant
            texts == fatal_capture_texts(),
            messages == texts_view(chain@),
            i <= chain@.len(),
            forall|k: int| 0 <= k < i ==> !holds_any(#[trigger] messages[k], texts),
        decreases chain@.len() - i,
    {
        let message: &str = chain[i].as_str();
        let found: bool = contains_text(message, "non-mappable DMA-BUF") || contains_text(
            message,
            "GPU import/readback is required",
        ) || contains_text(message, "requires GPU readback") || contains_text(
            message,
            "GPU readback failed",
        ) || contains_text(message, "CPU-readable PipeWire buffers") || contains_text(
            message,
            "no more input formats",
        ) || contains_text(message, "error alloc buffers: Invalid argument") || contains_text(
            message,
            "requested portal cursor mode Metadata is not available",
        ) || contains_text(
            message,
            "does not include SPA_META_Cursor while --require-cursor-metadata is set",
        );
        assert(messages[i as int] == message@);
        proof {
            lemma_holds_any_of_nine(
                message@,
                "non-mappable DMA-BUF"@,
                "GPU import/readback is required"@,
                "requires GPU readback"@,
                "GPU readback failed"@,
                "CPU-readable PipeWire buffers"@,
                "no more input formats"@,
                "error alloc buffers: Invalid argument"@,
                "requested portal cursor mode Metadata is not available"@,
                "does not include SPA_META_Cursor while --require-cursor-metadata is set"@,
            );
        }
        if found {
            assert(holds_any(messages[i as int], texts));
            return true;
        }
        i += 1;
    }
    false
}

/// To hold one of nine texts is to hold the first, or the second, and so on.
proof fn lemma_holds_any_of_nine(
    message: Seq<char>,
    a: Seq<char>,
    b: Seq<char>,
    c: Seq<char>,
    d: Seq<char>,
    e: Seq<char>,
    f: Seq<char>,
    g: Seq<char>,
    h: Seq<char>,
    i: Seq<char>,
)
    ensures
        holds_any(message, seq![a, b, c, d, e, f, g, h, i]) == (occurs(message, a) || occurs(
            message,
            b,
        ) || occurs(message, c) || occurs(message, d) || occurs(message, e) || occurs(message, f)
            || occurs(message, g) || occurs(message, h) || occurs(message, i)),
{
    let texts = seq![a, b, c, d, e, f, g, h, i];
    assert(texts[0] == a && texts[1] == b && texts[2] == c && texts[3] == d && texts[4] == e
        && texts[5] == f && texts[6] == g && texts[7] == h && texts[8] == i);
    if holds_any(message, texts) {
        let k = choose|k: int| 0 <= k < texts.len() && occurs(message, #[trigger] texts[k]);
        assert(k == 0 || k == 1 || k == 2 || k == 3 || k == 4 || k == 5 || k == 6 || k == 7 || k
            == 8);
    }
}

/// A byte that stands for itself in a link fragment.
pub open spec fn is_fragment_byte(byte: u8) -> bool {
    ||| 65 <= byte <= 90
    ||| 97 <= byte <= 122
    ||| 48 <= byte <= 57
    ||| byte == 45
    ||| byte == 95
    ||| byte == 46
    ||| byte == 126
}

/// Bytes percent-encoded for a link fragment.
pub open spec fn fragment_text(bytes: Seq<u8>) -> Seq<char>
    decreases bytes.len(),
{
    if bytes.len() == 0 {
        Seq::empty()
    } else {
        let earlier = fragment_text(bytes.drop_last());
        let byte = bytes.last();
        if is_fragment_byte(byte) {
            earlier.push(byte as char)
        } else {
            earlier.push('%').push(upper_hex_char(byte as nat / 16)).push(
                upper_hex_char(byte as nat % 16),
            )
        }
    }
}

/// Percent-encodes the characters that would end a link fragment or be read as structure
/// inside it.
pub fn url_encode_fragment(value: &str) -> (encoded: String)
    ensures
        encoded@ == fragment_text(encode_utf8(value@)),
{
    let bytes = value.as_bytes();
    let mut encoded = String::new();
    let mut i: usize = 0;
    assert(bytes@.take(0) =~= Seq::<u8>::empty());
    while i < bytes.len()
        invariant
            i <= bytes@.len(),
            encoded@ == fragment_text(bytes@.take(i as int)),
        decreases bytes@.len() - i,
    {
        let byte: u8 = bytes[i];
        assert(bytes@.take(i + 1).drop_last() =~= bytes@.take(i as int));
        if (65 <= byte && byte <= 90) || (97 <= byte && byte <= 122) || (48 <= byte && byte <= 57)
            || byte == 45 || byte == 95 || byte == 46 || byte == 126 {
            encoded.push(byte as char);
        } else {
            encoded.push('%');
            encoded.push(upper_hex_digit(byte / 16));
            encoded.push(upper_hex_digit(byte % 16));
        }
        i += 1;
    }
    assert(bytes@.take(i as int) =~= bytes@);
    encoded
}

/// A character that stands for itself in a link fragment, or belongs to an escape.
pub open spec fn is_link_safe(c: char) -> bool {
    c == '%' || ((c as u32) < 128 && is_fragment_byte(c as u8))
}

/// Whatever is encoded, nothing that could end a fragment or be read as structure is left.
pub proof fn encoded_fragment_is_link_safe(bytes: Seq<u8>)
    ensures
        forall|i: int|
            0 <= i < fragment_text(bytes).len() ==> is_link_safe(#[trigger] fragment_text(bytes)[i]),
    decreases bytes.len(),
{
    if bytes.len() > 0 {
        encoded_fragment_is_link_safe(bytes.drop_last());
        let earlier = fragment_text(bytes.drop_last());
        let all = fragment_text(bytes);
        assert forall|i: int| 0 <= i < all.len() implies is_link_safe(#[trigger] all[i]) by {
            if i < earlier.len() {
                assert(all[i] == earlier[i]);
            }
        }
    }
}

/// The value of a hexadecimal digit.
pub open spec fn hex_value(c: char) -> int {
    if '0' <= c && c <= '9' {
        c as int - '0' as int
    } else if 'A' <= c && c <= 'F' {
        c as int - 'A' as int + 10
    } else {
        c as int - 'a' as int + 10
    }
}

/// The bytes that a percent-encoded text stands for: an escape for the byte that its two
/// digits give, every other character for itself.
pub open spec fn percent_decoded(text: Seq<char>) -> Seq<u8>
    decreases text.len(),
{
    if text.len() == 0 {
        Seq::empty()
    } else if text[0] == '%' && text.len() >= 3 {
        seq![(16 * hex_value(text[1]) + hex_value(text[2])) as u8] + percent_decoded(text.skip(3))
    } else {
        seq![text[0] as u8] + percent_decoded(text.skip(1))
    }
}

/// Decoding undoes encoding: a viewer finds in the fragment of a link exactly the text that
/// was put there.
pub proof fn encoded_fragments_decode(value: Seq<char>)
    ensures
        percent_decoded(fragment_text(encode_utf8(value))) == encode_utf8(value),
        decode_utf8(percent_decoded(fragment_text(encode_utf8(value)))) == value,
{
    let bytes = encode_utf8(value);
    let none = Seq::<char>::empty();
    lemma_decodes_before(bytes, none);
    assert(fragment_text(bytes) + none =~= fragment_text(bytes));
    assert(bytes + percent_decoded(none) =~= bytes);
    encode_utf8_decode_utf8(value);
}

/// Encoded bytes decode the same whatever follows them.
proof fn lemma_decodes_before(bytes: Seq<u8>, rest: Seq<char>)
    ensures
        percent_decoded(fragment_text(bytes) + rest) == bytes + percent_decoded(rest),
    decreases bytes.len(),
{
    if bytes.len() == 0 {
        assert(fragment_text(bytes) + rest =~= rest);
        assert(bytes + percent_decoded(rest) =~= percent_decoded(rest));
    } else {
        let byte = bytes.last();
        let shorter = bytes.drop_last();
        let earlier = fragment_text(shorter);
        let high = upper_hex_char(byte as nat / 16);
        let low = upper_hex_char(byte as nat % 16);
        let encoded = if is_fragment_byte(byte) {
            seq![byte as char]
        } else {
            seq!['%', high, low]
        };
        let tail = encoded + rest;
        assert(fragment_text(bytes) =~= earlier + encoded);
        assert(fragment_text(bytes) + rest =~= earlier + tail);
        lemma_decodes_before(shorter, tail);
        if is_fragment_byte(byte) {
            assert(tail[0] == byte as char);
            assert(tail.skip(1) =~= rest);
        } else {
            assert(tail[0] == '%' && tail[1] == high && tail[2] == low);
            assert(tail.skip(3) =~= rest);
            assert(16 * hex_value(high) + hex_value(low) == byte);
        }
        assert(percent_decoded(tail) == seq![byte] + percent_decoded(rest));
        assert(shorter + (seq![byte] + percent_decoded(rest)) =~= bytes + percent_decoded(rest));
    }
}

/// Generated keys are left as they are: bytes are unchanged by encoding if and only if every
/// one of them stands for itself.
pub proof fn safe_fragment_is_unchanged(bytes: Seq<u8>)
    ensures
        fragment_text(bytes) == bytes.map_values(|byte: u8| byte as char) <==> (forall|i: int|
            0 <= i < bytes.len() ==> is_fragment_byte(#[trigger] bytes[i])),
{
    lemma_fragment_length(bytes);
    if forall|i: int| 0 <= i < bytes.len() ==> is_fragment_byte(#[trigger] bytes[i]) {
        lemma_safe_bytes_stay(bytes);
    }
}

/// Encoding makes nothing shorter, and longer what holds a byte that does not stand for
/// itself.
proof fn lemma_fragment_length(bytes: Seq<u8>)
    ensures
        fragment_text(bytes).len() >= bytes.len(),
        !(forall|i: int| 0 <= i < bytes.len() ==> is_fragment_byte(#[trigger] bytes[i]))
            ==> fragment_text(bytes).len() > bytes.len(),
    decreases bytes.len(),
{
    if bytes.len() > 0 {
        let shorter = bytes.drop_last();
        lemma_fragment_length(shorter);
        if is_fragment_byte(bytes.last()) && (forall|i: int|
            0 <= i < shorter.len() ==> is_fragment_byte(#[trigger] shorter[i])) {
            assert forall|i: int| 0 <= i < bytes.len() implies is_fragment_byte(
                #[trigger] bytes[i],
            ) by {
                if i < shorter.len() {
                    assert(is_fragment_byte(shorter[i]));
                }
            }
        }
    }
}

proof fn lemma_safe_bytes_stay(bytes: Seq<u8>)
    requires
        forall|i: int| 0 <= i < bytes.len() ==> is_fragment_byte(#[trigger] bytes[i]),
    ensures
        fragment_text(bytes) == bytes.map_values(|byte: u8| byte as char),
    decreases bytes.len(),
{
    if bytes.len() > 0 {
        lemma_safe_bytes_stay(bytes.drop_last());
        assert(is_fragment_byte(bytes[bytes.len() - 1]));
        assert(bytes.map_values(|byte: u8| byte as char) =~= bytes.drop_last().map_values(
            |byte: u8| byte as char,
        ).push(bytes.last() as char));
    } else {
        assert(bytes.map_values(|byte: u8| byte as char) =~= Seq::<char>::empty());
    }
}

} // verus!
