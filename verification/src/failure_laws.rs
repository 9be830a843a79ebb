//! Which failures of a capture or a session are known to be permanent, whatever they are
//! reported with.

use vstd::prelude::*;

use crate::capture::{capture_name, CaptureError};
use crate::client::{chain_holds_any, fatal_capture_texts, fatal_dash_texts, holds_any};
use crate::dash::DashError;
use crate::portal::{
    has_bit, portal_cursor_mode, PortalCursorMode, PortalError, PORTAL_CURSOR_METADATA,
};
use crate::text::{occurs, stands_at};

verus! {

/// Whether one of the messages of a chain of causes holds what an error says, alone or
/// with more text around it.
pub open spec fn reports(chain: Seq<Seq<char>>, words: Seq<char>) -> bool {
    exists|i: int| 0 <= i < chain.len() && occurs(#[trigger] chain[i], words)
}

/// Whether a session's failure does not go away by retrying.
pub open spec fn is_permanent(error: DashError) -> bool {
    ||| error is NoSegmentFrames
    ||| error is HelloRejected
    ||| error is WidthTooLarge
    ||| error is HeightTooLarge
}

/// What stands in a part of a text stands in the text.
proof fn lemma_occurs_within(text: Seq<char>, part: Seq<char>, pattern: Seq<char>)
    requires
        occurs(text, part),
        occurs(part, pattern),
    ensures
        occurs(text, pattern),
{
    let outer = choose|at: int| #[trigger] stands_at(text, part, at);
    let inner = choose|at: int| #[trigger] stands_at(part, pattern, at);
    assert(text.subrange(outer + inner, outer + inner + pattern.len()) =~= part.subrange(
        inner,
        inner + pattern.len(),
    )) by {
        assert forall|k: int| 0 <= k < pattern.len() implies text[outer + inner + k]
            == #[trigger] part[inner + k] by {
            assert(text.subrange(outer, outer + part.len())[inner + k] == part[inner + k]);
        }
    }
    assert(stands_at(text, pattern, outer + inner));
}

/// A text stands between what is put before and behind it.
proof fn lemma_occurs_between(before: Seq<char>, pattern: Seq<char>, behind: Seq<char>)
    ensures
        occurs(before + pattern + behind, pattern),
{
    let text = before + pattern + behind;
    let at = before.len() as int;
    assert(text.subrange(at, at + pattern.len()) =~= pattern);
    assert(stands_at(text, pattern, at));
}

/// A chain that reports words that hold one of some texts holds one of them.
proof fn lemma_reported(
    chain: Seq<Seq<char>>,
    words: Seq<char>,
    texts: Seq<Seq<char>>,
    k: int,
)
    requires
        reports(chain, words),
        0 <= k < texts.len(),
        occurs(words, texts[k]),
    ensures
        chain_holds_any(chain, texts),
{
    let i = choose|i: int| 0 <= i < chain.len() && occurs(#[trigger] chain[i], words);
    lemma_occurs_within(chain[i], words, texts[k]);
    assert(holds_any(chain[i], texts));
}

/// A session that cannot succeed is not retried: however its failure is wrapped, it counts
/// as fatal.
pub proof fn permanent_session_failures_are_fatal(chain: Seq<Seq<char>>, error: DashError)
    requires
        is_permanent(error),
        reports(chain, error.words()),
    ensures
        chain_holds_any(chain, fatal_dash_texts()),
{
    let texts = fatal_dash_texts();
    let words = error.words();
    match error {
        DashError::NoSegmentFrames => {
            reveal_strlit("--segment-frames must be at least 1");
            reveal_strlit("segment-frames");
            assert(words.subrange(2, 16) =~= "segment-frames"@);
            assert(stands_at(words, texts[6], 2));
            lemma_reported(chain, words, texts, 6);
        },
        DashError::HelloRejected { reason } => {
            reveal_strlit("server rejected hello: ");
            reveal_strlit("server rejected hello");
            assert(words.subrange(0, 21) =~= "server rejected hello"@);
            assert(stands_at(words, texts[8], 0));
            lemma_reported(chain, words, texts, 8);
        },
        DashError::WidthTooLarge => {
            reveal_strlit("video width does not fit MPEG-DASH metadata");
            reveal_strlit("does not fit MPEG-DASH");
            assert(words.subrange(12, 34) =~= "does not fit MPEG-DASH"@);
            assert(stands_at(words, texts[7], 12));
            lemma_reported(chain, words, texts, 7);
        },
        DashError::HeightTooLarge => {
            reveal_strlit("video height does not fit MPEG-DASH metadata");
            reveal_strlit("does not fit MPEG-DASH");
            assert(words.subrange(13, 35) =~= "does not fit MPEG-DASH"@);
            assert(stands_at(words, texts[7], 13));
            lemma_reported(chain, words, texts, 7);
        },
        _ => {},
    }
}

/// Cursor metadata that is required and that the portal does not offer ends the capture for
/// good: asking for it fails, and however that failure is wrapped, it counts as fatal.
pub proof fn unavailable_cursor_metadata_is_fatal(available: u32, chain: Seq<Seq<char>>)
    requires
        !has_bit(available, PORTAL_CURSOR_METADATA),
    ensures
        portal_cursor_mode(available, PortalCursorMode::Metadata) is Err,
        reports(
            chain,
            portal_cursor_mode(available, PortalCursorMode::Metadata)->Err_0.words(),
        ) ==> chain_holds_any(chain, fatal_capture_texts()),
{
    let error = PortalError::CursorModeUnavailable {
        preference: PortalCursorMode::Metadata,
        available,
    };
    let words = error.words();
    let texts = fatal_capture_texts();
    assert(portal_cursor_mode(available, PortalCursorMode::Metadata) == Err::<u32, PortalError>(
        error,
    ));
    if reports(chain, words) {
        reveal_strlit("requested portal cursor mode ");
        reveal_strlit("Metadata");
        reveal_strlit(" is not available; portal advertised cursor mode mask ");
        reveal_strlit("requested portal cursor mode Metadata is not available");
        assert(words.subrange(0, 54) =~= texts[7]);
        assert(stands_at(words, texts[7], 0));
        lemma_reported(chain, words, texts, 7);
    }
}

/// Required cursor metadata that stays missing, and a frame that needs the graphics driver
/// and that no driver can read back, end the capture for good, however the failure is
/// wrapped.
pub proof fn unusable_captures_are_fatal(chain: Seq<Seq<char>>, error: CaptureError)
    requires
        error is CursorMetadataMissing || error is ReadbackFailed,
        reports(chain, error.words()),
    ensures
        chain_holds_any(chain, fatal_capture_texts()),
{
    let texts = fatal_capture_texts();
    let words = error.words();
    match error {
        CaptureError::CursorMetadataMissing { imports_frames } => {
            let name = capture_name(imports_frames);
            reveal_strlit(
                " buffer does not include SPA_META_Cursor while --require-cursor-metadata is set",
            );
            reveal_strlit("does not include SPA_META_Cursor while --require-cursor-metadata is set");
            reveal_strlit(" buffer ");
            let none = Seq::<char>::empty();
            assert((name + " buffer "@) + texts[8] + none =~= words);
            lemma_occurs_between(name + " buffer "@, texts[8], none);
            lemma_reported(chain, words, texts, 8);
        },
        CaptureError::ReadbackFailed { node_id, reason } => {
            reveal_strlit(
                "PipeWire DMA-BUF requires GPU readback, but no driver path produced linear pixels for node ",
            );
            reveal_strlit("requires GPU readback");
            assert(words.subrange(17, 38) =~= "requires GPU readback"@);
            assert(stands_at(words, texts[2], 17));
            lemma_reported(chain, words, texts, 2);
        },
        _ => {},
    }
}

} // verus!
