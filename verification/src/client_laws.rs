//! What holds of a publisher's course: its start, its identity, its files and how it comes
//! back. Each law speaks of what a call may return, or leave behind, for what it was given.

use core::time::Duration;

use vstd::prelude::*;
use vstd::utf8::{decode_utf8, encode_utf8};

use crate::client::{
    connection_failed, is_fatal_capture_error, is_fatal_dash_error, percent_decoded,
    reconnect_delay, source_failed, url_encode_fragment, ConnectionRetry, FailureAction,
    NativeRetry,
};
use crate::identity::{
    client_daemon_socket, client_state_dir, default_log_file, default_portal_token_file,
    default_viewer_key_file, history_lock_path, invite_link, is_line, last_value,
    non_empty_trimmed, normalize_endpoint, normalize_relay, parse_cursor_flush_ms,
    read_viewer_key, sanitize_source_label, sharing_summary, stream_display_name, text_view,
    viewer_key_action, viewer_key_contents, ClientIdentity, CursorFlushError, KeyFileAction,
    PortalRestoreToken, ViewerKeyFile, ViewerKeyFileError, ViewerKeyMaterial,
};
use crate::startup::{
    connector_labels, plan_targets, portal_labels, resolve_client_identity, startup_action,
    CaptureMode, HistoryLimits, IdentityPlan, IdentitySettings, KeyFilePlan, ScreenCastBackend,
    StartupAction, StartupError, StartupOptions, TargetPlan, ViewerKeyPlan,
};
use crate::text::{
    begins_with, contains_text, format_u64, lines_of, only, parse_u64, texts_view, trim, trimmed,
    trim_end_of,
};
use crate::text_laws::{is_core, lemma_core};
use crate::time::duration_nanos;

verus! {

/// A lost publication waits a quarter of a second at first and twice as long each time, up to
/// eight seconds.
pub proof fn reconnects_wait_twice_as_long(
    attempt: u32,
    delay: Duration,
    next: Duration,
    first: Duration,
)
    requires
        attempt < u32::MAX,
        call_ensures(reconnect_delay, (attempt,), delay),
        call_ensures(reconnect_delay, ((attempt + 1) as u32,), next),
        call_ensures(reconnect_delay, (0u32,), first),
    ensures
        duration_nanos(first) == 250_000_000,
        attempt < 5 ==> duration_nanos(next) == 2 * duration_nanos(delay),
        attempt >= 5 ==> duration_nanos(delay) == 8_000_000_000 && duration_nanos(next)
            == 8_000_000_000,
{
    reveal_with_fuel(crate::client::doubled, 7);
}

/// A publication that is lost is taken up again after the delay of its attempt, and the next
/// time after that of the next, until the publisher stops.
pub proof fn lost_publications_are_taken_up_again(
    retry: &mut NativeRetry,
    stopping: bool,
    delay: Option<Duration>,
    waited: Duration,
    new: NativeRetry,
)
    requires
        call_ensures(NativeRetry::publication_lost, (retry, stopping), delay),
        call_ensures(reconnect_delay, (old(retry).attempt,), waited),
        call_ensures(NativeRetry::new, (), new),
    ensures
        new.attempt == 0,
        delay is None <==> stopping,
        stopping ==> *final(retry) == *old(retry),
        delay matches Some(delay) ==> duration_nanos(delay) == duration_nanos(waited),
        !stopping && old(retry).attempt < u32::MAX ==> final(retry).attempt == old(retry).attempt
            + 1,
        old(retry).attempt == u32::MAX ==> final(retry).attempt == u32::MAX,
{
}

/// A connection that drops is tried again after its delay and less than half a second of
/// jitter. The delay starts at a second, doubles up to half a minute, and starts over after a
/// connection that held for a minute.
pub proof fn dropped_connections_back_off(
    retry: &mut ConnectionRetry,
    connected_for: Duration,
    random: u32,
    wait_ms: u64,
    new: ConnectionRetry,
    drawn: &mut ConnectionRetry,
    drawn_ms: u64,
)
    requires
        old(retry).wf(),
        call_ensures(ConnectionRetry::wait_after_drop, (retry, connected_for, random), wait_ms),
        call_ensures(ConnectionRetry::new, (), new),
        *old(drawn) == *old(retry),
        call_ensures(ConnectionRetry::connection_dropped, (drawn, connected_for), drawn_ms),
    ensures
        new.delay_ms == 1_000,
        ({
            let base: int = if duration_nanos(connected_for) >= 60_000_000_000 {
                1_000
            } else {
                old(retry).delay_ms as int
            };
            &&& base <= wait_ms < base + 500
            &&& base <= drawn_ms < base + 500
            &&& wait_ms as int - base == random as int % 500
            &&& final(retry).delay_ms == 2 * base || (final(retry).delay_ms == 30_000 && 2 * base
                > 30_000)
            &&& *final(drawn) == *final(retry)
        }),
{
}

/// The words by which a capture failure is permanent.
pub open spec fn permanent_capture_words() -> Seq<Seq<char>> {
    seq![
        "non-mappable DMA-BUF"@,
        "GPU import/readback is required"@,
        "requires GPU readback"@,
        "GPU readback failed"@,
        "CPU-readable PipeWire buffers"@,
        "no more input formats"@,
        "error alloc buffers: Invalid argument"@,
        "requested portal cursor mode Metadata is not available"@,
        "does not include SPA_META_Cursor while --require-cursor-metadata is set"@,
    ]
}

/// The words by which an encoder or protocol failure is permanent.
pub open spec fn permanent_media_words() -> Seq<Seq<char>> {
    seq![
        "OpenH264"@,
        "openh264"@,
        "VA-API H.264"@,
        "required VA-API"@,
        "encoder dimensions changed"@,
        "requires non-zero, even dimensions"@,
        "segment-frames"@,
        "does not fit MPEG-DASH"@,
        "server rejected hello"@,
    ]
}

/// A failure is permanent as soon as one message of its causes holds one of the words, and
/// not otherwise; a refusal of the relay is permanent too.
pub proof fn permanent_failures_are_known_by_their_words(
    chain: &Vec<String>,
    refused: bool,
    fatal_media: bool,
    fatal_capture: bool,
    i: int,
    k: int,
    message: &str,
    words: &str,
    found: bool,
)
    requires
        call_ensures(is_fatal_dash_error, (chain, refused), fatal_media),
        call_ensures(is_fatal_capture_error, (chain,), fatal_capture),
        0 <= i < chain@.len(),
        0 <= k < 9,
        message@ == chain@[i]@,
        call_ensures(contains_text, (message, words), found),
    ensures
        refused ==> fatal_media,
        words@ == permanent_media_words()[k] && found ==> fatal_media,
        words@ == permanent_capture_words()[k] && found ==> fatal_capture,
        fatal_media ==> refused || exists|at: int, w: int|
            0 <= at < chain@.len() && 0 <= w < 9 && #[trigger] crate::text::occurs(
                chain@[at]@,
                permanent_media_words()[w],
            ),
        fatal_capture ==> exists|at: int, w: int|
            0 <= at < chain@.len() && 0 <= w < 9 && #[trigger] crate::text::occurs(
                chain@[at]@,
                permanent_capture_words()[w],
            ),
{
    let messages = texts_view(chain@);
    let media = crate::client::fatal_dash_texts();
    let capture = crate::client::fatal_capture_texts();
    assert(media =~= permanent_media_words());
    assert(capture =~= permanent_capture_words());
    assert(messages[i] == chain@[i]@);
    if words@ == permanent_media_words()[k] && found {
        assert(crate::text::occurs(messages[i], media[k]));
        assert(crate::client::holds_any(messages[i], media));
    }
    if words@ == permanent_capture_words()[k] && found {
        assert(crate::text::occurs(messages[i], capture[k]));
        assert(crate::client::holds_any(messages[i], capture));
    }
    if fatal_media && !refused {
        let at = choose|at: int|
            0 <= at < messages.len() && crate::client::holds_any(#[trigger] messages[at], media);
        let w = choose|w: int|
            0 <= w < media.len() && crate::text::occurs(messages[at], #[trigger] media[w]);
        assert(crate::text::occurs(chain@[at]@, permanent_media_words()[w]));
    }
    if fatal_capture {
        let at = choose|at: int|
            0 <= at < messages.len() && crate::client::holds_any(#[trigger] messages[at], capture);
        let w = choose|w: int|
            0 <= w < capture.len() && crate::text::occurs(messages[at], #[trigger] capture[w]);
        assert(crate::text::occurs(chain@[at]@, permanent_capture_words()[w]));
    }
}

/// A permanent failure ends the publisher. A source is else tried again after a second, and a
/// connection after its growing delay.
pub proof fn passing_failures_are_retried(
    chain: &Vec<String>,
    refused: bool,
    fatal_media: bool,
    fatal_capture: bool,
    source: FailureAction,
    retry: &mut ConnectionRetry,
    connected_for: Duration,
    action: FailureAction,
    dropped: &mut ConnectionRetry,
    wait_ms: u64,
)
    requires
        old(retry).wf(),
        call_ensures(is_fatal_dash_error, (chain, refused), fatal_media),
        call_ensures(is_fatal_capture_error, (chain,), fatal_capture),
        call_ensures(source_failed, (chain,), source),
        call_ensures(connection_failed, (retry, chain, refused, connected_for), action),
        *old(dropped) == *old(retry),
        call_ensures(ConnectionRetry::connection_dropped, (dropped, connected_for), wait_ms),
    ensures
        source == if fatal_capture {
            FailureAction::Stop
        } else {
            FailureAction::RetryAfter(1_000)
        },
        action is Stop <==> fatal_media || fatal_capture,
        action is Stop ==> *final(retry) == *old(retry),
        action matches FailureAction::RetryAfter(wait) ==> -500 < wait - wait_ms < 500
            && *final(retry) == *final(dropped),
{
}

/// Whether a character means nothing but itself in a link.
pub open spec fn is_unreserved(c: char) -> bool {
    ||| 'A' <= c && c <= 'Z'
    ||| 'a' <= c && c <= 'z'
    ||| '0' <= c && c <= '9'
    ||| c == '-' || c == '_' || c == '.' || c == '~'
}

proof fn lemma_link_safe(c: char)
    requires
        crate::client::is_link_safe(c),
    ensures
        is_unreserved(c) || c == '%',
{
}

/// What goes into the fragment of a link is read from it again, and nothing in it is read as
/// structure: it holds letters, digits, hyphens, underscores, dots, tildes and escapes alone.
pub proof fn fragments_are_read_back(value: &str, encoded: String, i: int)
    requires
        call_ensures(url_encode_fragment, (value,), encoded),
        0 <= i < encoded@.len(),
    ensures
        decode_utf8(percent_decoded(encoded@)) == value@,
        is_unreserved(encoded@[i]) || encoded@[i] == '%',
{
    crate::client::encoded_fragments_decode(value@);
    crate::client::encoded_fragment_is_link_safe(encode_utf8(value@));
    lemma_link_safe(encoded@[i]);
}

/// An invitation is the viewer page, a slash, and the key in the fragment. There is one if and
/// only if there are both a page and a key.
pub proof fn invitations_hold_the_key(
    identity: &ClientIdentity,
    link: Option<String>,
    url: &str,
    page: String,
    key: &str,
    fragment: String,
)
    requires
        call_ensures(invite_link, (identity,), link),
        text_view(identity.viewer_url) matches Some(text) ==> url@ == text,
        text_view(identity.viewer_key_shareable) matches Some(text) ==> key@ == text,
        call_ensures(trim_end_of, (url, '/'), page),
        call_ensures(url_encode_fragment, (key,), fragment),
    ensures
        link is Some <==> identity.viewer_url is Some && identity.viewer_key_shareable is Some,
        link matches Some(link) ==> link@ == page@ + "/#k="@ + fragment@,
{
}

/// A raw key is shared as it is and has no salt.
pub proof fn raw_keys_are_shared_as_they_are(key: String, material: ViewerKeyMaterial)
    requires
        call_ensures(ViewerKeyMaterial::from_raw_b64, (key,), material),
    ensures
        material.shareable@ == key@ && material.key_b64@ == key@ && material.salt_b64 is None,
{
}

/// A field without its surrounding space is taken unless nothing is left of it.
pub proof fn blank_fields_are_refused(
    field: &str,
    value: String,
    result: Result<String, String>,
    given: &str,
    core: String,
)
    requires
        call_ensures(non_empty_trimmed, (field, value), result),
        given@ == value@,
        call_ensures(trim, (given,), core),
    ensures
        result is Ok <==> core@.len() > 0,
        result matches Ok(text) ==> text@ == core@,
        result matches Err(message) ==> message@ == field@ + " must not be empty"@,
{
}

/// Cursor events are gathered for the milliseconds that were asked for, if they are a number
/// between 20 and 1000.
pub proof fn gathering_times_are_bounded(
    value: &str,
    result: Result<u64, CursorFlushError>,
    core: String,
    digits: &str,
    number: Option<u64>,
)
    requires
        call_ensures(parse_cursor_flush_ms, (value,), result),
        call_ensures(trim, (value,), core),
        digits@ == core@,
        call_ensures(parse_u64, (digits,), number),
    ensures
        result is Ok <==> number is Some && 20 <= number->0 <= 1_000,
        result matches Ok(milliseconds) ==> number == Some(milliseconds),
        result matches Err(error) ==> (error == CursorFlushError::NotANumber <==> number is None),
{
}

/// Whether a relay accepts a character in a label.
pub open spec fn is_accepted(c: char) -> bool {
    ('A' <= c && c <= 'Z') || ('a' <= c && c <= 'z') || ('0' <= c && c <= '9') || c == '-' || c
        == '_'
}

/// A label is made of a name's first 64 characters: those that a relay accepts stay, any
/// other is a hyphen, and hyphens at either end are dropped. What leaves nothing is called
/// output.
pub proof fn labels_keep_what_is_accepted(connector: &str, label: String)
    requires
        call_ensures(sanitize_source_label, (connector,), label),
    ensures
        label@ == "output"@ || exists|from: int| #[trigger] is_label_of(label@, connector@, from),
        label@.len() > 0,
        label@[0] != '-' && label@.last() != '-',
        0 < connector@.len() <= 64 && connector@[0] != '-' && connector@.last() != '-' && (forall|
            i: int,
        |
            0 <= i < connector@.len() ==> is_accepted(#[trigger] connector@[i])) ==> label@
            == connector@,
        (forall|i: int|
            0 <= i < connector@.len() && i < 64 ==> !is_accepted(#[trigger] connector@[i])
                || connector@[i] == '-') ==> label@ == "output"@,
{
    let name = connector@;
    let chars = crate::identity::label_chars(name);
    let drop = only('-');
    crate::identity::source_labels_are_safe(name);
    lemma_core(chars, drop);
    let core = crate::text::trimmed_of(chars, '-');
    let (from, to) = choose|from: int, to: int| #[trigger] is_core(core, chars, from, to, drop);
    assert forall|i: int| 0 <= i < chars.len() implies #[trigger] chars[i] == (if is_accepted(
        name[i],
    ) {
        name[i]
    } else {
        '-'
    }) by {
    }
    if core.len() > 0 {
        assert(is_label_of(core, name, from));
        if forall|i: int|
            0 <= i < name.len() && i < 64 ==> !is_accepted(#[trigger] name[i]) || name[i] == '-' {
            assert(chars[from] == '-') by {
                assert(!is_accepted(name[from]) || name[from] == '-');
            }
            assert(drop(chars[from]));
        }
    }
    if 0 < name.len() <= 64 && name[0] != '-' && name.last() != '-' && (forall|i: int|
        0 <= i < name.len() ==> is_accepted(#[trigger] name[i])) {
        assert(chars =~= name);
        if from > 0 {
            assert(drop(chars[0]));
        }
        if to < chars.len() {
            assert(drop(chars[chars.len() - 1]));
        }
        assert(core =~= name);
    }
}

/// Whether a label is a run of a name's characters, each as it is or made a hyphen.
pub open spec fn is_label_of(label: Seq<char>, name: Seq<char>, from: int) -> bool {
    &&& 0 <= from && from + label.len() <= name.len() && from + label.len() <= 64
    &&& forall|i: int|
        0 <= i < label.len() ==> #[trigger] label[i] == if is_accepted(name[from + i]) {
            name[from + i]
        } else {
            '-'
        }
}

/// A usable token is stored and presented again; what is not there, or does not fit in 512
/// bytes, or holds a blank or a control code, is not presented.
pub proof fn portal_tokens_read_back(
    contents: Option<String>,
    loaded: PortalRestoreToken,
    store: &PortalRestoreToken,
    token: &str,
    saved: Option<String>,
)
    requires
        call_ensures(PortalRestoreToken::load, (contents,), loaded),
        call_ensures(PortalRestoreToken::save, (store, token), saved),
    ensures
        contents is None ==> loaded.value is None,
        saved is Some <==> encode_utf8(token@).len() <= 512,
        loaded.value matches Some(value) ==> value@.len() > 0 && encode_utf8(value@).len() <= 512
            && forall|i: int|
            0 <= i < value@.len() ==> !crate::text::is_white(#[trigger] value@[i])
                && value@[i] as u32 >= 32,
        saved is Some && token@.len() > 0 && (forall|i: int|
            0 <= i < token@.len() ==> !crate::text::is_white(#[trigger] token@[i])
                && token@[i] as u32 >= 32 && !(127 <= token@[i] as u32 <= 159)) && text_view(
            contents,
        ) == text_view(saved) ==> (loaded.value matches Some(value) && value@ == token@),
{
    if loaded.value is Some {
        assert(text_view(loaded.value) == Some(loaded.value->0@));
        assert(crate::identity::is_usable_token(loaded.value->0@));
    }
    if saved is Some && token@.len() > 0 && (forall|i: int|
        0 <= i < token@.len() ==> !crate::text::is_white(#[trigger] token@[i]) && token@[i] as u32
            >= 32 && !(127 <= token@[i] as u32 <= 159)) && text_view(contents) == text_view(
        saved,
    ) {
        assert(crate::identity::is_usable_token(token@));
        crate::identity::stored_token_reads_back(token@);
    }
}

/// A publisher's files are named for it, each sort by its own prefix and suffix.
pub proof fn files_are_named_for_their_publisher(
    component: &str,
    token: String,
    key: String,
    log: String,
    socket: String,
    lock: String,
)
    requires
        component@.len() > 0,
        call_ensures(default_portal_token_file, (component,), token),
        call_ensures(default_viewer_key_file, (component,), key),
        call_ensures(default_log_file, (component,), log),
        call_ensures(client_daemon_socket, (component,), socket),
        call_ensures(history_lock_path, (component,), lock),
    ensures
        token@ == "portal-"@ + component@ + ".token"@,
        key@ == "viewer-"@ + component@ + ".key"@,
        log@ == "client-"@ + component@ + ".log"@,
        socket@ == "/tmp/gcpub-"@ + component@ + ".sock"@,
        lock@ == "."@ + component@ + ".lock"@,
{
}

/// A name of which nothing is left has the files of a publisher called client.
pub proof fn nameless_publishers_are_called_client(
    nothing: &str,
    client: &str,
    token: String,
    other_token: String,
    key: String,
    other_key: String,
    log: String,
    other_log: String,
)
    requires
        nothing@.len() == 0,
        client@ == "client"@,
        call_ensures(default_portal_token_file, (nothing,), token),
        call_ensures(default_portal_token_file, (client,), other_token),
        call_ensures(default_viewer_key_file, (nothing,), key),
        call_ensures(default_viewer_key_file, (client,), other_key),
        call_ensures(default_log_file, (nothing,), log),
        call_ensures(default_log_file, (client,), other_log),
    ensures
        token@ == other_token@ && key@ == other_key@ && log@ == other_log@,
{
}

/// A stream is called as its publisher is; several of one publisher are told apart by their
/// labels.
pub proof fn streams_are_named_for_their_publisher(
    display_name: &str,
    label: &Option<String>,
    name: String,
)
    requires
        call_ensures(stream_display_name, (display_name, label), name),
    ensures
        label is None ==> name@ == display_name@,
        label matches Some(label) ==> name@ == display_name@ + " ("@ + label@ + ")"@,
{
}

/// An address without a port gets that of publishers; one with a port stays.
pub proof fn addresses_have_a_port(address: &str, endpoint: String, relay: String)
    requires
        call_ensures(normalize_endpoint, (address,), endpoint),
        call_ensures(normalize_relay, (address,), relay),
    ensures
        endpoint@ == relay@,
        (exists|i: int| 0 <= i < address@.len() && #[trigger] address@[i] == ':') ==> endpoint@
            == address@,
        (forall|i: int| 0 <= i < address@.len() ==> #[trigger] address@[i] != ':') ==> endpoint@
            == address@ + ":8900"@,
{
}

/// A viewer key that is written is read back, if phrase and salt are lines.
pub proof fn viewer_keys_read_back(
    phrase: &str,
    salt: &str,
    contents: String,
    raw: &str,
    result: Result<ViewerKeyFile, ViewerKeyFileError>,
)
    requires
        call_ensures(viewer_key_contents, (phrase, salt), contents),
        raw@ == contents@,
        call_ensures(read_viewer_key, (raw,), result),
        is_line(phrase@),
        is_line(salt@),
    ensures
        result matches Ok(ViewerKeyFile::Phrase { phrase: read, salt_b64 }) && read@ == phrase@
            && salt_b64@ == salt@,
{
    crate::identity::stored_viewer_key_reads_back(phrase@, salt@);
}

/// Whether a line names a value.
pub open spec fn names(line: Seq<char>, word: Seq<char>) -> bool {
    begins_with(trimmed(line), word)
}

proof fn lemma_last_value(lines: Seq<Seq<char>>, word: Seq<char>, other: Seq<char>, i: int)
    requires
        0 <= i <= lines.len(),
        i < lines.len() ==> names(lines[i], word) && !names(lines[i], other),
        forall|k: int|
            i < k < lines.len() ==> !names(#[trigger] lines[k], word) || names(lines[k], other),
        i == lines.len() ==> forall|k: int|
            0 <= k < lines.len() ==> !names(#[trigger] lines[k], word) || names(lines[k], other),
    ensures
        i < lines.len() ==> last_value(lines, word, other) == Some(
            trimmed(trimmed(lines[i]).skip(word.len() as int)),
        ),
        i == lines.len() ==> last_value(lines, word, other) is None,
    decreases lines.len(),
{
    if lines.len() > 0 && i != lines.len() - 1 {
        let rest = lines.drop_last();
        assert(lines.last() == lines[lines.len() - 1]);
        assert forall|k: int| 0 <= k < rest.len() implies rest[k] == lines[k] by {
        }
        if i == lines.len() {
            lemma_last_value(rest, word, other, rest.len() as int);
        } else {
            lemma_last_value(rest, word, other, i);
        }
    }
}

/// A key file holds a phrase and a salt, each on the last line that names it; one without the
/// other is refused. A file that names neither holds a raw key, if anything.
pub proof fn last_lines_count(
    raw: &str,
    result: Result<ViewerKeyFile, ViewerKeyFileError>,
    p: int,
    s: int,
    core: String,
)
    requires
        call_ensures(read_viewer_key, (raw,), result),
        call_ensures(trim, (raw,), core),
        ({
            let lines = lines_of(raw@);
            &&& 0 <= p <= lines.len()
            &&& 0 <= s <= lines.len()
            &&& p < lines.len() ==> names(lines[p], "phrase "@)
            &&& s < lines.len() ==> names(lines[s], "salt "@)
            &&& forall|k: int| p < k < lines.len() ==> !names(#[trigger] lines[k], "phrase "@)
            &&& forall|k: int| s < k < lines.len() ==> !names(#[trigger] lines[k], "salt "@)
            &&& p == lines.len() ==> forall|k: int|
                0 <= k < lines.len() ==> !names(#[trigger] lines[k], "phrase "@)
            &&& s == lines.len() ==> forall|k: int|
                0 <= k < lines.len() ==> !names(#[trigger] lines[k], "salt "@)
        }),
    ensures
        ({
            let lines = lines_of(raw@);
            if p < lines.len() && s < lines.len() {
                result matches Ok(ViewerKeyFile::Phrase { phrase, salt_b64 }) && phrase@ == trimmed(
                    trimmed(lines[p]).skip(7),
                ) && salt_b64@ == trimmed(trimmed(lines[s]).skip(5))
            } else if p < lines.len() || s < lines.len() {
                result matches Err(error) && error == ViewerKeyFileError::Incomplete
            } else if core@.len() == 0 {
                result matches Err(error) && error == ViewerKeyFileError::Empty
            } else {
                result matches Ok(ViewerKeyFile::Raw(key)) && key@ == core@
            }
        }),
{
    let lines = lines_of(raw@);
    reveal_strlit("phrase ");
    reveal_strlit("salt ");
    assert forall|k: int| 0 <= k < lines.len() implies !(names(#[trigger] lines[k], "phrase "@)
        && names(lines[k], "salt "@)) by {
        let line = trimmed(lines[k]);
        if begins_with(line, "phrase "@) && begins_with(line, "salt "@) {
            assert(line.subrange(0, 7)[0] == 'p');
            assert(line.subrange(0, 5)[0] == 's');
        }
    }
    lemma_last_value(lines, "phrase "@, "salt "@, p);
    lemma_last_value(lines, "salt "@, "phrase "@, s);
    if let Ok(file) = result {
        match file {
            ViewerKeyFile::Phrase { phrase, salt_b64 } => {
                assert(file@ == crate::identity::StoredKey::Phrase {
                    phrase: phrase@,
                    salt: salt_b64@,
                });
            },
            ViewerKeyFile::Raw(key) => {
                assert(file@ == crate::identity::StoredKey::Raw(key@));
            },
        }
    }
}

/// A key file is replaced only where a fresh key is asked for, made only where there is none,
/// and used whenever its key can be read.
pub proof fn key_files_are_kept(
    regenerate: bool,
    readable: bool,
    present: bool,
    action: KeyFileAction,
)
    requires
        call_ensures(viewer_key_action, (regenerate, readable, present), action),
    ensures
        action is Replace <==> regenerate,
        action is Use <==> readable && !regenerate,
        action is Create <==> !regenerate && !readable && !present,
        action is Refuse <==> !regenerate && !readable && present,
{
}

/// State stands below an absolute state directory where there is one, else below the home
/// directory, and below the temporary one only where there is neither.
pub proof fn state_has_its_place(
    state_home: &Option<String>,
    home: &Option<String>,
    temporary: &str,
    path: String,
)
    requires
        call_ensures(client_state_dir, (state_home, home, temporary), path),
    ensures
        ({
            let given = state_home is Some && state_home->0@.len() > 0 && state_home->0@[0] == '/';
            let at_home = home is Some && home->0@.len() > 0 && home->0@[0] == '/';
            &&& given && state_home->0@.last() != '/' ==> path@ == state_home->0@
                + "/glacialcast"@
            &&& !given && at_home && home->0@.last() != '/' ==> path@ == home->0@
                + "/.local/state/glacialcast"@
            &&& !given && !at_home && temporary@.len() > 0 && temporary@.last() != '/' ==> path@
                == temporary@ + "/glacialcast"@
            &&& given && state_home->0@.last() == '/' ==> path@ == state_home->0@ + "glacialcast"@
        }),
{
    reveal_strlit("/");
    reveal_strlit(".local");
    reveal_strlit("state");
    reveal_strlit("glacialcast");
    reveal_strlit("/glacialcast");
    reveal_strlit("/.local/state/glacialcast");
    let slash = "/"@;
    assert forall|text: Seq<char>| #[trigger] begins_with(text, slash) <==> text.len() > 0
        && text[0] == '/' by {
        if text.len() > 0 && text[0] == '/' {
            assert(text.subrange(0, 1) =~= slash);
        }
        if begins_with(text, slash) {
            assert(text.subrange(0, 1)[0] == '/');
        }
    }
    if let Some(text) = *state_home {
        assert(text_view(*state_home) == Some(text@));
        assert(text@ + slash + "glacialcast"@ =~= text@ + "/glacialcast"@);
    }
    assert(temporary@ + slash + "glacialcast"@ =~= temporary@ + "/glacialcast"@);
    if let Some(text) = *home {
        assert(text_view(*home) == Some(text@));
        let local = text@ + slash + ".local"@;
        assert(local.last() == 'l');
        let state = local + slash + "state"@;
        assert(state.last() == 'e');
        assert(state + slash + "glacialcast"@ =~= text@ + "/.local/state/glacialcast"@);
    }
}

/// The summary of a start does not depend on any key, token or pin: publishers that differ in
/// those alone print the same.
pub proof fn summaries_hold_no_key(
    identity: &ClientIdentity,
    other: &ClientIdentity,
    socket: &str,
    log: &str,
    summary: String,
    same: String,
)
    requires
        call_ensures(sharing_summary, (identity, socket, log), summary),
        call_ensures(sharing_summary, (other, socket, log), same),
        identity.display_name@ == other.display_name@,
        text_view(identity.viewer_url) == text_view(other.viewer_url),
        text_view(identity.config_path) == text_view(other.config_path),
        text_view(identity.viewer_key_file) == text_view(other.viewer_key_file),
    ensures
        summary@ == same@,
{
}

/// The history limits of the command line count first, then those of the configuration, and
/// 100 MiB and a day fill in. None of them may be zero, streams are never published in the
/// clear, and there is no key to print.
pub proof fn starts_are_checked(
    options: &StartupOptions,
    config_bytes: Option<u64>,
    config_seconds: Option<u64>,
    result: Result<(HistoryLimits, StartupAction), StartupError>,
)
    requires
        call_ensures(startup_action, (options, config_bytes, config_seconds), result),
    ensures
        result matches Ok((limits, action)) ==> {
            &&& limits.bytes > 0 && limits.seconds > 0
            &&& !options.no_encryption && !options.print_viewer_key
            &&& options.history_bytes matches Some(bytes) ==> limits.bytes == bytes
            &&& options.history_seconds matches Some(seconds) ==> limits.seconds == seconds
            &&& options.history_bytes is None ==> (config_bytes matches Some(bytes)
                ==> limits.bytes == bytes)
            &&& options.history_seconds is None ==> (config_seconds matches Some(seconds)
                ==> limits.seconds == seconds)
            &&& options.history_bytes is None && config_bytes is None ==> limits.bytes == 100
                * 1_048_576
            &&& options.history_seconds is None && config_seconds is None ==> limits.seconds == 24
                * 3_600
            &&& action is ListMonitors <==> options.list_monitors
            &&& action is StopDaemon <==> options.daemon_stop && !options.list_monitors
            &&& action is DaemonStatus <==> options.daemon_status && !options.daemon_stop
                && !options.list_monitors
            &&& action matches StartupAction::Publish { detach } ==> (detach
                <==> !options.foreground && !options.daemon_child)
        },
        result is Err ==> {
            ||| options.no_encryption
            ||| options.print_viewer_key
            ||| options.history_bytes == Some(0u64)
            ||| options.history_seconds == Some(0u64)
            ||| config_bytes == Some(0u64)
            ||| config_seconds == Some(0u64)
        },
        options.history_bytes == Some(0u64) || options.history_seconds == Some(0u64) ==> result
            == Err::<(HistoryLimits, StartupAction), StartupError>(
            StartupError::HistoryNotPositive,
        ),
        result matches Err(error) ==> (error == StartupError::NoViewerKeyToPrint
            ==> options.print_viewer_key) && (error == StartupError::EncryptionRequired
            ==> options.no_encryption) && (error == StartupError::EncryptionRequired || error
            == StartupError::NoViewerKeyToPrint || error == StartupError::HistoryNotPositive),
{
}

/// Whether a text is an option without its surrounding space: that of the command line, else
/// that of the configuration, else what fills in.
pub open spec fn is_settled(
    text: Seq<char>,
    option: Option<String>,
    config: Option<String>,
    otherwise: Seq<char>,
) -> bool {
    &&& option matches Some(given) ==> text == trimmed(given@)
    &&& option is None ==> (config matches Some(given) ==> text == trimmed(given@))
    &&& option is None && config is None ==> text == trimmed(otherwise)
}

/// A publisher is who the command line says, else who the configuration says, else who the
/// host is; blank names are refused. A raw key counts before a phrase, and a phrase before the
/// key file, which is kept only where a key may be generated.
pub proof fn identities_are_settled_in_order(
    options: &IdentitySettings,
    config: &IdentitySettings,
    hostname: String,
    no_viewer_key: bool,
    viewer_key_file: &Option<String>,
    server_key_valid: bool,
    result: Result<IdentityPlan, StartupError>,
)
    requires
        call_ensures(
            resolve_client_identity,
            (options, config, hostname, no_viewer_key, viewer_key_file, server_key_valid),
            result,
        ),
    ensures
        result matches Ok(plan) ==> {
            &&& is_settled(plan.client_id@, options.client_id, config.client_id, hostname@)
            &&& is_settled(
                plan.display_name@,
                options.display_name,
                config.display_name,
                "Glacialcast client"@,
            )
            &&& plan.client_id@.len() > 0 && plan.display_name@.len() > 0
            &&& plan.viewer_url is Some <==> options.viewer_url is Some || config.viewer_url
                is Some
            &&& plan.viewer_url matches Some(url) ==> url@.len() > 0 && is_settled(
                url@,
                options.viewer_url,
                config.viewer_url,
                Seq::empty(),
            )
            &&& plan.auth_token matches Some(token) ==> token@.len() > 0 && is_settled(
                token@,
                options.ingest_token,
                config.ingest_token,
                Seq::empty(),
            )
            &&& plan.auth_token is None ==> (options.ingest_token matches Some(token)
                ==> trimmed(token@).len() == 0)
            &&& plan.server_key is Some <==> options.ingest_server_key is Some
                || config.ingest_server_key is Some
            &&& options.ingest_server_key matches Some(key) ==> (plan.server_key matches Some(used)
                && used@ == key@)
            &&& plan.server_key is Some ==> server_key_valid
            &&& plan.viewer_key is Raw <==> options.viewer_key is Some || config.viewer_key
                is Some
            &&& plan.viewer_key matches ViewerKeyPlan::Raw(key) ==> is_settled(
                key@,
                options.viewer_key,
                config.viewer_key,
                Seq::empty(),
            )
            &&& plan.viewer_key is Phrase <==> !(plan.viewer_key is Raw) && (
            options.viewer_key_phrase is Some || config.viewer_key_phrase is Some)
            &&& plan.viewer_key matches ViewerKeyPlan::Phrase(phrase) ==> is_settled(
                phrase@,
                options.viewer_key_phrase,
                config.viewer_key_phrase,
                Seq::empty(),
            )
            &&& plan.viewer_key is File ==> !no_viewer_key
            &&& plan.viewer_key is Absent ==> no_viewer_key
            &&& plan.key_file is Unkept <==> no_viewer_key || plan.viewer_key is Raw
            &&& plan.key_file matches KeyFilePlan::Given(path) ==> (viewer_key_file matches Some(
                named,
            ) && path@ == named@)
            &&& plan.key_file is Standard ==> viewer_key_file is None
        },
        result matches Err(error) ==> {
            ||| error == StartupError::EmptyClientId
            ||| error == StartupError::ServerKeyInvalid && !server_key_valid
            ||| error == StartupError::EmptyViewerKey
            ||| error == StartupError::EmptyViewerKeyPhrase
            ||| error == StartupError::EmptyDisplayName
            ||| error == StartupError::EmptyViewerUrl
        },
        options.client_id matches Some(name) ==> (trimmed(name@).len() == 0 ==> result == Err::<
            IdentityPlan,
            StartupError,
        >(StartupError::EmptyClientId)),
{
    assert(text_view(options.client_id) is Some <==> options.client_id is Some);
    assert(text_view(config.client_id) is Some <==> config.client_id is Some);
    assert(text_view(config.ingest_token) is Some <==> config.ingest_token is Some);
    assert(text_view(config.ingest_server_key) is Some <==> config.ingest_server_key is Some);
    assert(text_view(config.viewer_key) is Some <==> config.viewer_key is Some);
    assert(text_view(config.viewer_key_phrase) is Some <==> config.viewer_key_phrase is Some);
    assert(text_view(config.display_name) is Some <==> config.display_name is Some);
    assert(text_view(config.viewer_url) is Some <==> config.viewer_url is Some);
    if let Ok(plan) = result {
        assert(text_view(plan.viewer_url) is Some <==> plan.viewer_url is Some);
        assert(text_view(plan.auth_token) is Some <==> plan.auth_token is Some);
        assert(text_view(plan.server_key) is Some <==> plan.server_key is Some);
        assert(text_view(*viewer_key_file) is Some <==> *viewer_key_file is Some);
    }
}

/// Only a desktop has targets to choose. The portal's dialog chooses for itself, so monitors
/// can be named, or all of them taken, only where the compositor is asked.
pub proof fn targets_come_from_who_knows_them(
    capture: CaptureMode,
    backend: ScreenCastBackend,
    names: usize,
    all: bool,
    result: Result<TargetPlan, StartupError>,
)
    requires
        call_ensures(plan_targets, (capture, backend, names, all), result),
    ensures
        capture is Test <==> (result matches Ok(TargetPlan::Single)),
        result is Err <==> capture is Wayland && !(backend is Mutter) && names > 0,
        (result matches Ok(TargetPlan::PortalSelection)) <==> capture is Wayland && !(backend
            is Mutter) && names == 0,
        (result matches Ok(TargetPlan::AllMonitors)) <==> capture is Wayland && backend is Mutter
            && all,
        (result matches Ok(TargetPlan::NamedMonitors)) <==> capture is Wayland && backend is Mutter
            && !all && names > 0,
        result matches Err(error) ==> error == StartupError::MonitorNameNeedsCompositor,
{
}

/// A single source keeps its publisher's bare identity. Several are numbered from one, or
/// called by their connectors.
pub proof fn several_sources_are_told_apart(
    count: usize,
    labels: Vec<Option<String>>,
    connectors: &Vec<String>,
    result: Result<Vec<Option<String>>, StartupError>,
    i: int,
    number: String,
    connector: &str,
    reduced: String,
)
    requires
        call_ensures(portal_labels, (count,), labels),
        call_ensures(connector_labels, (connectors,), result),
        0 <= i < u64::MAX,
        call_ensures(format_u64, ((i + 1) as u64,), number),
        0 <= i < connectors@.len() ==> connector@ == connectors@[i]@,
        call_ensures(sanitize_source_label, (connector,), reduced),
    ensures
        labels@.len() == count,
        count == 1 ==> labels@[0] is None,
        count > 1 && i < count ==> (labels@[i] matches Some(label) && label@ == "source-"@
            + number@),
        result is Err <==> connectors@.len() == 0,
        result matches Ok(named) ==> {
            &&& named@.len() == connectors@.len()
            &&& named@.len() == 1 ==> named@[0] is None
            &&& named@.len() > 1 && i < named@.len() ==> (named@[i] matches Some(label) && label@
                == reduced@)
        },
{
    if i < count {
        assert(text_view(labels@[i]) is Some <==> labels@[i] is Some);
    }
    if count == 1 {
        assert(text_view(labels@[0]) is None);
    }
    if let Ok(named) = result {
        if named@.len() == 1 {
            assert(text_view(named@[0]) is None);
        }
        if named@.len() > 1 && i < named@.len() {
            assert(text_view(named@[i]) == Some(reduced@));
        }
    }
}

} // verus!
