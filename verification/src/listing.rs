//! What an administrator is shown of requests and viewers.

use vstd::prelude::*;

use crate::admin::PendingPairing;
use crate::admin_model::{AdminError, RevokedGrant, StreamGrant};
use crate::ids::{id_text, uuid_text};
use crate::text::{append, chars_of, hex, hex_text, lemma_hex_text, text_of};

verus! {

/// Some blanks.
pub open spec fn blanks(count: int) -> Seq<char>
    decreases count,
{
    if count <= 0 {
        Seq::empty()
    } else {
        blanks(count - 1).push(' ')
    }
}

/// A text that fills a column.
pub open spec fn padded(text: Seq<char>, width: int) -> Seq<char> {
    text + blanks(width - text.len())
}

fn append_padded(line: &mut String, text: &str, width: usize)
    ensures
        final(line)@ == old(line)@ + padded(text@, width as int),
{
    let count: usize = chars_of(text).len();
    append(line, text);
    let ghost before = line@;
    let mut added: usize = 0;
    assert(before + blanks(0) =~= before);
    while count < width && added < width - count
        invariant
            count == text@.len(),
            added == 0 || added <= width - count,
            count >= width ==> added == 0,
            line@ == before + blanks(added as int),
        decreases width - added,
    {
        line.push(' ');
        assert(line@ =~= before + blanks(added + 1));
        added += 1;
    }
    assert(blanks(width as int - count as int) =~= blanks(added as int));
    assert(line@ =~= old(line)@ + padded(text@, width as int));
}

/// The first digits of an identifier.
pub open spec fn short_id(id: [u8; 32]) -> Seq<char> {
    hex_text(id@).subrange(0, 12)
}

/// A line of the request list.
pub open spec fn request_words(
    pending: PendingPairing,
    id: [u8; 32],
    authentication: Seq<char>,
) -> Seq<char> {
    short_id(id) + "  "@ + padded(
        if pending.confirmation is Some {
            "confirmed"@
        } else {
            "waiting"@
        },
        10,
    ) + "  "@ + padded(pending.request.device_label@, 20) + "  "@ + id_text(
        pending.request.stream_id,
    ) + "  "@ + pending.source_addr@ + "  "@ + authentication
}

/// A line of the request list: identifier, whether the viewer confirmed, its device, the
/// stream, where it came from and the authentication string.
pub fn request_line(pending: &PendingPairing, authentication: &str) -> (result: Result<
    String,
    AdminError,
>)
    ensures
        match result {
            Err(error) => error == AdminError::RequestInvalid && pending.request.request_id is None,
            Ok(line) => pending.request.request_id matches Some(id) && line@ == request_words(
                *pending,
                id,
                authentication@,
            ),
        },
{
    let id = match pending.request.request_id {
        None => {
            return Err(AdminError::RequestInvalid);
        },
        Some(id) => id,
    };
    proof {
        lemma_hex_text(id@);
    }
    let digits = chars_of(hex(&id).as_str());
    let short = text_of(&digits, 0, 12);
    let stream = uuid_text(pending.request.stream_id);
    let mut line = String::new();
    append(&mut line, short.as_str());
    append(&mut line, "  ");
    append_padded(
        &mut line,
        if pending.confirmation.is_some() {
            "confirmed"
        } else {
            "waiting"
        },
        10,
    );
    append(&mut line, "  ");
    append_padded(&mut line, pending.request.device_label.as_str(), 20);
    append(&mut line, "  ");
    append(&mut line, stream.as_str());
    append(&mut line, "  ");
    append(&mut line, pending.source_addr.as_str());
    append(&mut line, "  ");
    append(&mut line, authentication);
    assert(line@ =~= request_words(*pending, id, authentication@));
    Ok(line)
}

/// A line of the viewer list for access that is granted.
pub fn approved_line(grant: &StreamGrant) -> (result: Result<String, AdminError>)
    ensures
        match result {
            Err(error) => error == AdminError::ViewerInvalid && grant.viewer.fingerprint is None,
            Ok(line) => grant.viewer.fingerprint matches Some(id) && line@ == "approved "@
                + id_text(grant.stream_id) + " "@ + hex_text(id@),
        },
{
    match grant.viewer.fingerprint {
        None => Err(AdminError::ViewerInvalid),
        Some(id) => {
            let stream = uuid_text(grant.stream_id);
            let mut line = String::new();
            append(&mut line, "approved ");
            append(&mut line, stream.as_str());
            append(&mut line, " ");
            append(&mut line, hex(&id).as_str());
            assert(line@ =~= "approved "@ + stream@ + " "@ + hex_text(id@));
            Ok(line)
        },
    }
}

/// A line of the viewer list for access that was taken away.
pub fn revoked_line(grant: &RevokedGrant) -> (line: String)
    ensures
        line@ == "revoked  "@ + id_text(grant.stream_id) + " "@ + hex_text(grant.viewer_id@),
{
    let stream = uuid_text(grant.stream_id);
    let mut line = String::new();
    append(&mut line, "revoked  ");
    append(&mut line, stream.as_str());
    append(&mut line, " ");
    append(&mut line, hex(&grant.viewer_id).as_str());
    assert(line@ =~= "revoked  "@ + stream@ + " "@ + hex_text(grant.viewer_id@));
    line
}

} // verus!
