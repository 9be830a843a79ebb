//! What holds of settings, files, identifiers and lists. Each law speaks of what a call may
//! return, or leave behind, for what it was given.

use core::time::Duration;

use vstd::prelude::*;

use crate::admin::PendingPairing;
use crate::admin_model::{AdminError, RevokedGrant, StreamGrant};
use crate::bytes::{
    big_endian, bytes_equal, id_before, id_equal, id_from_bytes, id_is_zero, id_order,
};
use crate::digest::{fresh_epoch_id, identifier_from_digest, sha256_of, stable_stream_id};
use crate::files::{
    check_bounded_file, plan_config, prepare_native_root, quarantine_name,
    validate_existing_database, ConfigPlan, FileError, FileFacts, RootPlan,
};
use crate::identity::text_view;
use crate::ids::{
    check_schema_version, decode_uuid, from_sql_u64, to_sql_u64, uuid_bytes, uuid_text,
    SqlValueError,
};
use crate::listing::{approved_line, request_line, revoked_line};
use crate::pki::{duration_ms, expiry, ValidityError};
use crate::runtime::{
    bytes_view, resolve_settings, AccessReload, LimitConfig, RelaySettings, ReloadReport,
    RetentionConfig, RuntimeError,
};
use crate::text::{format_u64, hex, hex_text, lemma_hex_text};
use crate::time::{duration_nanos, whole_millis};

verus! {

/// A relay keeps what the command line says, else what the configuration says, and without
/// either everything; zero is refused. Seconds are taken as seconds.
pub proof fn retention_is_settled_in_order(
    option_bytes: Option<u64>,
    option_seconds: Option<u64>,
    retention: &RetentionConfig,
    limits: &LimitConfig,
    result: Result<RelaySettings, RuntimeError>,
)
    requires
        call_ensures(
            resolve_settings,
            (option_bytes, option_seconds, retention, limits),
            result,
        ),
    ensures
        result matches Ok(settings) ==> {
            &&& option_bytes is Some ==> settings.retention_bytes == option_bytes
            &&& option_bytes is None ==> settings.retention_bytes == retention.bytes_per_stream
            &&& settings.retention_bytes != Some(0u64)
            &&& option_seconds matches Some(seconds) ==> (settings.retention_age matches Some(age)
                && duration_nanos(age) == seconds * 1_000_000_000 && seconds > 0)
            &&& option_seconds is None ==> (retention.seconds_per_stream matches Some(seconds)
                ==> (settings.retention_age matches Some(age) && duration_nanos(age) == seconds
                * 1_000_000_000 && seconds > 0))
            &&& option_seconds is None && retention.seconds_per_stream is None
                ==> settings.retention_age is None
        },
        option_bytes == Some(0u64) || option_seconds == Some(0u64) || (option_bytes is None
            && retention.bytes_per_stream == Some(0u64)) || (option_seconds is None
            && retention.seconds_per_stream == Some(0u64)) <==> result == Err::<
            RelaySettings,
            RuntimeError,
        >(RuntimeError::RetentionNotPositive),
{
}

/// A relay runs within bounds: up to 65536 connections, five minutes for a handshake, an hour
/// of silence and 4096 items for a slow viewer. A store's part holds no more than the whole.
pub proof fn limits_are_within_bounds(
    option_bytes: Option<u64>,
    option_seconds: Option<u64>,
    retention: &RetentionConfig,
    limits: &LimitConfig,
    result: Result<RelaySettings, RuntimeError>,
)
    requires
        call_ensures(
            resolve_settings,
            (option_bytes, option_seconds, retention, limits),
            result,
        ),
    ensures
        result matches Ok(settings) ==> {
            &&& 1 <= limits.max_connections <= 65_536
            &&& settings.service.max_connections == limits.max_connections
            &&& 1 <= limits.handshake_seconds <= 300
            &&& duration_nanos(settings.service.handshake_timeout) == limits.handshake_seconds
                * 1_000_000_000
            &&& 1 <= limits.idle_seconds <= 3_600
            &&& duration_nanos(settings.service.idle_timeout) == limits.idle_seconds
                * 1_000_000_000
            &&& 1 <= limits.live_channel_items <= 4_096
            &&& settings.service.live_channel_capacity == limits.live_channel_items
            &&& settings.store == limits.store
            &&& 1 <= limits.store.max_streams_per_publisher <= limits.store.max_streams
            &&& limits.store.max_objects_per_group >= 1 && limits.store.max_group_bytes >= 1
            &&& limits.store.max_envelopes_per_group >= 1
            &&& 1 <= limits.store.max_publisher_bytes <= limits.store.max_total_bytes
        },
{
}

/// A list that was read and accepted is in force until another is. A list that fails changes
/// nothing but what was reported, and a failure is news once.
pub proof fn lists_stay_in_force_until_replaced(
    reload: &mut AccessReload,
    outcome: Result<Vec<u8>, String>,
    report: ReloadReport,
    bytes: &Vec<u8>,
    news: bool,
)
    requires
        call_ensures(AccessReload::take, (reload, outcome), report),
        call_ensures(AccessReload::is_news, (&*old(reload), bytes), news),
        outcome matches Ok(read) ==> read@ == bytes@,
    ensures
        outcome is Ok ==> {
            &&& report == if news {
                ReloadReport::Reloaded
            } else {
                ReloadReport::Unchanged
            }
            &&& final(reload).last_bytes matches Some(force) && force@ == bytes@
            &&& news ==> final(reload).last_error is None
            &&& !news ==> text_view(final(reload).last_error) == text_view(old(reload).last_error)
        },
        outcome matches Err(detail) ==> {
            &&& bytes_view(final(reload).last_bytes) == bytes_view(old(reload).last_bytes)
            &&& final(reload).last_error matches Some(told) && told@ == detail@
            &&& report == ReloadReport::StillFailing <==> (old(reload).last_error matches Some(told)
                && told@ == detail@)
            &&& report == ReloadReport::StillFailing || report == ReloadReport::Failed
        },
        news <==> !(old(reload).last_bytes matches Some(force) && force@ == bytes@),
{
    assert(bytes_view(final(reload).last_bytes) is Some <==> final(reload).last_bytes is Some);
    assert(text_view(old(reload).last_error) is Some <==> old(reload).last_error is Some);
    assert(text_view(final(reload).last_error) is Some <==> final(reload).last_error is Some);
}

/// Only a regular file within its bound is read, and where it must be private none that
/// group or others may touch.
pub proof fn only_safe_files_are_read(
    facts: &FileFacts,
    max_len: u64,
    require_private: bool,
    result: Result<(), FileError>,
)
    requires
        call_ensures(check_bounded_file, (facts, max_len, require_private), result),
    ensures
        result is Ok <==> facts.is_file && facts.length <= max_len && (require_private
            ==> facts.mode & 0o77 == 0),
        result matches Err(error) ==> (error == FileError::NotPrivate <==> facts.is_file
            && facts.length <= max_len),
{
    lemma_private_bits(facts.mode);
}

proof fn lemma_private_bits(mode: u32)
    ensures
        mode % 64 != 0 <==> mode & 0o77 != 0,
{
    assert(mode % 64 != 0 <==> mode & 0o77 != 0) by (bit_vector);
}

/// A database must be a private regular file with one name, if it is there.
pub proof fn only_safe_databases_are_opened(facts: &Option<FileFacts>, result: Result<(), FileError>)
    requires
        call_ensures(validate_existing_database, (facts,), result),
    ensures
        facts is None ==> result is Ok,
        facts matches Some(found) ==> (result is Ok <==> found.is_file && !found.is_symlink
            && found.links == 1 && found.mode & 0o77 == 0),
        result matches Err(error) ==> (error == FileError::NotPrivate || error
            == FileError::DatabaseNotRegular),
{
    if let Some(found) = *facts {
        lemma_private_bits(found.mode);
    }
}

/// A root must be a real directory. It is put aside only if it holds streams of the first
/// version and no database, and else opened.
pub proof fn first_versions_are_put_aside(
    facts: &Option<FileFacts>,
    has_streams: bool,
    has_database: bool,
    is_empty: bool,
    result: Result<RootPlan, FileError>,
)
    requires
        call_ensures(
            prepare_native_root,
            (facts, has_streams, has_database, is_empty),
            result,
        ),
    ensures
        result is Err <==> (facts matches Some(found) && (found.is_symlink || !found.is_dir)),
        (result matches Ok(RootPlan::Quarantine)) ==> facts is Some && has_streams && !has_database
            && !is_empty,
        facts matches Some(found) ==> (found.is_dir && !found.is_symlink && has_streams
            && !has_database && !is_empty ==> (result matches Ok(RootPlan::Quarantine))),
{
}

/// A store that is put aside keeps its name, with the moment and an identifier behind it.
pub proof fn stores_put_aside_keep_their_name(
    file_name: &str,
    now_ms: u64,
    id: u128,
    name: String,
    moment: String,
    text: String,
)
    requires
        call_ensures(quarantine_name, (file_name, now_ms, id), name),
        call_ensures(format_u64, (now_ms,), moment),
        call_ensures(uuid_text, (id,), text),
    ensures
        name@ == file_name@ + ".v1-quarantine-"@ + moment@ + "-"@ + text@,
{
}

/// A configuration is read if it is there. One that was named must be.
pub proof fn configurations_are_read_where_they_are(
    has_path: bool,
    must_exist: bool,
    present: bool,
    result: Result<ConfigPlan, FileError>,
)
    requires
        call_ensures(plan_config, (has_path, must_exist, present), result),
    ensures
        (result matches Ok(ConfigPlan::Read)) <==> has_path && present,
        result is Err <==> has_path && must_exist && !present,
{
}

/// A counter that is stored is read back, unless it is too large to store.
pub proof fn stored_counters_read_back(
    value: u64,
    stored: Result<i64, SqlValueError>,
    read: Result<u64, SqlValueError>,
)
    requires
        call_ensures(to_sql_u64, (value,), stored),
        stored matches Ok(number) ==> call_ensures(from_sql_u64, (number,), read),
    ensures
        stored is Err <==> value >= 0x8000_0000_0000_0000,
        stored is Ok ==> read == Ok::<u64, SqlValueError>(value),
{
}

/// A number below zero is no counter.
pub proof fn negative_counters_are_refused(
    number: i64,
    read: Result<u64, SqlValueError>,
    version: i64,
    supported: i64,
    checked: Result<(), SqlValueError>,
)
    requires
        call_ensures(from_sql_u64, (number,), read),
        call_ensures(check_schema_version, (version, supported), checked),
    ensures
        read is Err <==> number < 0,
        checked is Ok <==> version == 0 || version == supported,
        checked matches Err(error) ==> error == (SqlValueError::UnsupportedVersion { version }),
{
}

/// An identifier that is stored by its bytes is read back; anything but sixteen bytes is
/// refused. The lowest byte comes last, and without it the others move back by one place.
pub proof fn stored_identifiers_read_back(
    id: u128,
    bytes: [u8; 16],
    higher: [u8; 16],
    slice: &[u8],
    read: Result<u128, SqlValueError>,
)
    requires
        call_ensures(uuid_bytes, (id,), bytes),
        call_ensures(uuid_bytes, ((id / 256) as u128,), higher),
        call_ensures(decode_uuid, (slice,), read),
    ensures
        slice@ == bytes@ ==> read == Ok::<u128, SqlValueError>(id),
        read is Err <==> slice@.len() != 16,
        bytes@[15] as nat == id as nat % 256,
        higher@ == seq![0u8] + bytes@.take(15),
{
    let whole = bytes@;
    assert(big_endian(whole) == 256 * big_endian(whole.drop_last()) + whole.last() as nat);
    let moved = seq![0u8] + whole.take(15);
    assert(whole.take(15) =~= whole.drop_last());
    lemma_leading_zero(whole.take(15));
    crate::bytes::lemma_big_endian_injective(moved, higher@);
}

proof fn lemma_leading_zero(bytes: Seq<u8>)
    ensures
        big_endian(seq![0u8] + bytes) == big_endian(bytes),
    decreases bytes.len(),
{
    let longer = seq![0u8] + bytes;
    if bytes.len() == 0 {
        assert(longer.drop_last() =~= Seq::empty());
        reveal_with_fuel(big_endian, 2);
    } else {
        assert(longer.drop_last() =~= seq![0u8] + bytes.drop_last());
        lemma_leading_zero(bytes.drop_last());
    }
}

/// An identifier's text is its bytes in hexadecimal, with hyphens behind the fourth, sixth,
/// eighth and tenth.
pub proof fn identifiers_are_written_in_groups(
    id: u128,
    text: String,
    bytes: [u8; 16],
    slice: &[u8],
    digits: String,
)
    requires
        call_ensures(uuid_text, (id,), text),
        call_ensures(uuid_bytes, (id,), bytes),
        slice@ == bytes@,
        call_ensures(hex, (slice,), digits),
    ensures
        text@.len() == 36,
        text@[8] == '-' && text@[13] == '-' && text@[18] == '-' && text@[23] == '-',
        text@.subrange(0, 8) + text@.subrange(9, 13) + text@.subrange(14, 18) + text@.subrange(
            19,
            23,
        ) + text@.subrange(24, 36) == digits@,
{
    reveal_strlit("-");
    lemma_hex_text(bytes@);
    assert(text@.subrange(0, 8) + text@.subrange(9, 13) + text@.subrange(14, 18)
        + text@.subrange(19, 23) + text@.subrange(24, 36) =~= digits@);
}

/// A validity lasts whole days, and at least one.
pub proof fn validities_last_whole_days(
    days: u32,
    now_ms: i64,
    duration: Result<i64, ValidityError>,
    end: Result<i64, ValidityError>,
)
    requires
        call_ensures(duration_ms, (days,), duration),
        call_ensures(expiry, (now_ms, days), end),
    ensures
        duration is Ok <==> days > 0,
        duration matches Ok(span) ==> span == days * (24 * 60 * 60 * 1_000),
        end matches Ok(end) ==> duration matches Ok(span) && end - now_ms == span,
        end is Err ==> days == 0 || now_ms + days * 86_400_000 > i64::MAX,
        days == 0 ==> end == Err::<i64, ValidityError>(ValidityError::NotPositive),
{
}

/// Digests make identifiers that say they are random ones: the seventh byte begins with a
/// four and the ninth with binary one and zero. Every other byte is the digest's.
pub proof fn digests_make_identifiers(
    digest: &[u8; 32],
    id: u128,
    bytes: [u8; 16],
    i: int,
)
    requires
        call_ensures(identifier_from_digest, (digest,), id),
        call_ensures(uuid_bytes, (id,), bytes),
        0 <= i < 16,
    ensures
        i != 6 && i != 8 ==> bytes@[i] == digest@[i],
        bytes@[6] / 16 == 4 && bytes@[6] % 16 == digest@[6] % 16,
        bytes@[8] / 64 == 2 && bytes@[8] % 64 == digest@[8] % 64,
{
    let made = crate::digest::identifier_bytes(digest@);
    crate::bytes::lemma_big_endian_injective(made, bytes@);
}

/// A publisher's stream has the same identifier whenever its label is the same.
pub proof fn streams_keep_their_identifier(
    publisher_id: &[u8; 32],
    label: &str,
    id: u128,
    again: u128,
    digest: &[u8; 32],
    made: u128,
)
    requires
        call_ensures(stable_stream_id, (publisher_id, label), id),
        call_ensures(stable_stream_id, (publisher_id, label), again),
        *digest == sha256_of(
            vstd::utf8::encode_utf8("glacialcast-native-stream-id-v1"@) + publisher_id@
                + vstd::utf8::encode_utf8(label@),
        ),
        call_ensures(identifier_from_digest, (digest,), made),
    ensures
        id == again,
        id == made,
{
}

/// Identifiers are compared byte by byte, the first that differs deciding.
pub proof fn identifiers_are_ordered_by_their_first_difference(
    a: &[u8; 32],
    b: &[u8; 32],
    equal: bool,
    before: bool,
    after: bool,
    zero: bool,
    at: int,
)
    requires
        call_ensures(id_equal, (a, b), equal),
        call_ensures(id_before, (a, b), before),
        call_ensures(id_before, (b, a), after),
        call_ensures(id_is_zero, (a,), zero),
        0 <= at < 32,
        forall|k: int| 0 <= k < at ==> a@[k] == b@[k],
    ensures
        a@[at] < b@[at] ==> before && !after && !equal,
        equal <==> a@ == b@,
        equal ==> !before && !after,
        !equal ==> before != after,
        zero <==> forall|k: int| 0 <= k < 32 ==> #[trigger] a@[k] == 0,
{
    if a@[at] < b@[at] {
        assert(a@.take(at) =~= b@.take(at));
        crate::bytes::lemma_first_difference_decides(a@, b@, at, 32);
        assert(a@.take(32) =~= a@);
        assert(b@.take(32) =~= b@);
    }
    if !equal && !before && !after {
        crate::bytes::lemma_id_order_injective(*a, *b);
    }
    if a@ == b@ {
        assert(*a == *b) by {
            crate::bytes::lemma_id_order_injective(*a, *b);
        }
    }
}

/// A span's milliseconds are those that have passed whole.
pub proof fn milliseconds_are_whole(duration: Duration, millis: i64)
    requires
        call_ensures(whole_millis, (duration,), millis),
    ensures
        millis * 1_000_000 <= duration_nanos(duration),
        millis < i64::MAX ==> duration_nanos(duration) < (millis + 1) * 1_000_000,
{
}

/// An administrator's lists name the stream by its identifier and the viewer by its whole
/// fingerprint, behind what has become of it.
pub proof fn viewers_are_listed(
    grant: &StreamGrant,
    line: Result<String, AdminError>,
    revoked: &RevokedGrant,
    other: String,
    stream: String,
    print: &[u8],
    viewer: String,
)
    requires
        call_ensures(approved_line, (grant,), line),
        call_ensures(revoked_line, (revoked,), other),
        grant.stream_id == revoked.stream_id,
        grant.viewer.fingerprint matches Some(id) ==> id == revoked.viewer_id,
        call_ensures(uuid_text, (grant.stream_id,), stream),
        print@ == revoked.viewer_id@,
        call_ensures(hex, (print,), viewer),
    ensures
        line is Err <==> grant.viewer.fingerprint is None,
        line matches Ok(line) ==> line@ == "approved "@ + stream@ + " "@ + viewer@,
        other@ == "revoked  "@ + stream@ + " "@ + viewer@,
{
}

/// A request is listed by the first twelve digits of its identifier, whether it is confirmed,
/// its device, its stream, where it came from and its authentication string, each in its
/// column.
pub proof fn requests_are_listed(
    pending: &PendingPairing,
    authentication: &str,
    result: Result<String, AdminError>,
    print: &[u8],
    digits: String,
)
    requires
        call_ensures(request_line, (pending, authentication), result),
        pending.request.request_id matches Some(id) ==> print@ == id@,
        call_ensures(hex, (print,), digits),
    ensures
        result is Err <==> pending.request.request_id is None,
        result matches Ok(line) ==> {
            &&& line@.len() >= 24
            &&& line@.take(12) == digits@.take(12)
            &&& pending.confirmation is Some ==> line@.subrange(12, 24) == "  confirmed "@
            &&& pending.confirmation is None ==> line@.subrange(12, 24) == "  waiting   "@
        },
{
    reveal_strlit("  ");
    reveal_strlit("confirmed");
    reveal_strlit("waiting");
    reveal_strlit("  confirmed ");
    reveal_strlit("  waiting   ");
    reveal_with_fuel(crate::listing::blanks, 5);
    if let Ok(line) = result {
        let id = pending.request.request_id->0;
        lemma_hex_text(id@);
        assert(line@.take(12) =~= digits@.take(12));
        if pending.confirmation is Some {
            assert(line@.subrange(12, 24) =~= "  confirmed "@);
        } else {
            assert(line@.subrange(12, 24) =~= "  waiting   "@);
        }
    }
}

} // verus!
