//! What holds of choosing what is captured: portal, compositor, monitors and targets. Each
//! law speaks of what a call may return for what it was given.

use vstd::prelude::*;

use crate::identity::text_view;
use crate::order::{first_where, lemma_first_where, lemma_first_where_means};
use crate::portal::{
    check_response, cursor_description, cut_at_colons, default_mutter_connector, format_prop_pairs,
    granted_streams, is_text, laid_out_connectors, list_mutter_connectors, listed_connectors,
    marks_recordings, monitor_line, plan_portal_selection, portal_request_path, portal_token,
    primary_connector, primary_region, prop_value, requested_connector,
    resolve_screencast_backend, select_mutter_cursor_mode, select_portal_cursor_mode,
    select_target, session_desktop_is_niri, stream_size, token_to_save, with_first,
    without_repetition, LogicalMonitor, PhysicalMonitor, PipewireNode, PortalCursorMode,
    PortalError, PortalSelection, PortalSourceMode,
};
use crate::startup::ScreenCastBackend;
use crate::text::{format_u64, texts_view, to_lowercase, trim};

verus! {

/// A mode's bits are among those of a mode for both, and both are its bits together.
pub proof fn modes_have_their_bits(
    monitor: u32,
    window: u32,
    any: u32,
    hidden: Option<u32>,
    embedded: Option<u32>,
    metadata: Option<u32>,
    auto: Option<u32>,
)
    requires
        call_ensures(PortalSourceMode::mask, (PortalSourceMode::Monitor,), monitor),
        call_ensures(PortalSourceMode::mask, (PortalSourceMode::Window,), window),
        call_ensures(PortalSourceMode::mask, (PortalSourceMode::Any,), any),
        call_ensures(PortalCursorMode::portal_value, (PortalCursorMode::Hidden,), hidden),
        call_ensures(PortalCursorMode::portal_value, (PortalCursorMode::Embedded,), embedded),
        call_ensures(PortalCursorMode::portal_value, (PortalCursorMode::Metadata,), metadata),
        call_ensures(PortalCursorMode::portal_value, (PortalCursorMode::Auto,), auto),
    ensures
        monitor == 1 && window == 2 && any == monitor + window,
        hidden == Some(1u32) && embedded == Some(2u32) && metadata == Some(4u32) && auto is None,
{
}

/// A cursor mode that is asked for is taken if the portal offers it, and refused if not. Of
/// those that are offered metadata is taken first, then the picture; a hidden cursor always
/// will do.
pub proof fn offered_cursors_are_asked_for(
    available: u32,
    preference: PortalCursorMode,
    result: Result<u32, PortalError>,
)
    requires
        call_ensures(select_portal_cursor_mode, (available, preference), result),
    ensures
        result is Err <==> {
            ||| preference is Metadata && available & 4 == 0
            ||| preference is Embedded && available & 2 == 0
            ||| preference is Hidden && available & 1 == 0
        },
        result matches Err(error) ==> error == (PortalError::CursorModeUnavailable {
            preference,
            available,
        }),
        preference is Metadata && result is Ok ==> result->Ok_0 == 4,
        preference is Embedded && result is Ok ==> result->Ok_0 == 2,
        preference is Hidden && result is Ok ==> result->Ok_0 == 1,
        preference is Auto && available & 4 != 0 ==> result == Ok::<u32, PortalError>(4),
        preference is Auto && available & 4 == 0 && available & 2 != 0 ==> result == Ok::<
            u32,
            PortalError,
        >(2),
        preference is Auto && available & 4 == 0 && available & 2 == 0 ==> result == Ok::<
            u32,
            PortalError,
        >(1),
{
    lemma_bits(available);
}

proof fn lemma_bits(mask: u32)
    ensures
        (mask / 1) % 2 == 1 <==> mask & 1 != 0,
        (mask / 2) % 2 == 1 <==> mask & 2 != 0,
        (mask / 4) % 2 == 1 <==> mask & 4 != 0,
{
    assert((mask / 1) % 2 == 1 <==> mask & 1 != 0) by (bit_vector);
    assert((mask / 2) % 2 == 1 <==> mask & 2 != 0) by (bit_vector);
    assert((mask / 4) % 2 == 1 <==> mask & 4 != 0) by (bit_vector);
}

/// A compositor without cursor modes can only hide the cursor. Its numbers are its own, and
/// it marks recordings from its fourth version on.
pub proof fn compositors_have_cursor_modes(
    version: i32,
    preference: PortalCursorMode,
    result: Result<u32, PortalError>,
    marks: bool,
)
    requires
        call_ensures(select_mutter_cursor_mode, (version, preference), result),
        call_ensures(marks_recordings, (version,), marks),
    ensures
        result is Err <==> version < 2 && !(preference is Hidden),
        result matches Ok(mode) ==> {
            &&& mode == 0 <==> preference is Hidden
            &&& mode == 1 <==> preference is Embedded
            &&& mode == 2 <==> preference is Metadata || preference is Auto
        },
        result matches Err(error) ==> error == (PortalError::CursorModeUnsupported { version }),
        marks <==> version > 3,
{
}

/// The portal is asked for the sorts of sources that are both wanted and offered, and there
/// must be one. A portal that does not say offers both sorts and a hidden cursor. A grant is
/// remembered, and one that was remembered presented, only where grants are kept.
pub proof fn wanted_and_offered_sources_are_asked_for(
    mode: PortalSourceMode,
    preference: PortalCursorMode,
    sources: Option<u32>,
    cursors: Option<u32>,
    store: &Option<Option<String>>,
    result: Result<PortalSelection, PortalError>,
    mask: u32,
    cursor: Result<u32, PortalError>,
)
    requires
        call_ensures(plan_portal_selection, (mode, preference, sources, cursors, store), result),
        call_ensures(PortalSourceMode::mask, (mode,), mask),
        call_ensures(
            select_portal_cursor_mode,
            (
                if cursors is Some {
                    cursors->0
                } else {
                    1u32
                },
                preference,
            ),
            cursor,
        ),
    ensures
        result is Ok <==> cursor is Ok && (sources matches Some(offered) ==> mask & offered != 0),
        result matches Ok(selection) ==> {
            &&& sources matches Some(offered) ==> selection.source_mask == mask & offered
            &&& sources is None ==> selection.source_mask == mask
            &&& cursor == Ok::<u32, PortalError>(selection.cursor_mode)
            &&& selection.persist_mode == if store is Some {
                2u32
            } else {
                0u32
            }
            &&& selection.restore_token is Some ==> (*store matches Some(Some(_)))
            &&& *store matches Some(Some(token)) ==> (selection.restore_token matches Some(shown)
                && shown@ == token@)
        },
{
    let bits = mode.bits();
    assert(bits & 3 == bits) by (bit_vector)
        requires
            bits == 1 || bits == 2 || bits == 3,
    ;
    if let Ok(selection) = result {
        assert(text_view(selection.restore_token) is Some <==> selection.restore_token is Some);
    }
}

/// Only the answer zero is a success. Of a token that came back only one that is not empty is
/// kept.
pub proof fn portal_answers_are_checked(
    response: u32,
    result: Result<(), PortalError>,
    returned: Option<String>,
    token: Option<String>,
)
    requires
        call_ensures(check_response, (response,), result),
        call_ensures(token_to_save, (returned,), token),
    ensures
        result is Ok <==> response == 0,
        result matches Err(error) ==> error == (PortalError::RequestFailed { response }),
        token is Some <==> returned is Some && returned->0@.len() > 0,
        token matches Some(token) ==> token@ == returned->0@,
{
    assert(text_view(token) is Some <==> token is Some);
    assert(text_view(returned) is Some <==> returned is Some);
}

/// A stream has the size that the portal says and at least a pixel on each side. Each stream
/// that was granted is taken, and there must be one.
pub proof fn granted_streams_are_taken(
    size: Option<(i32, i32)>,
    taken: (u32, u32),
    sizes: &Vec<Option<(i32, i32)>>,
    result: Result<Vec<(u32, u32)>, PortalError>,
    i: int,
)
    requires
        call_ensures(stream_size, (size,), taken),
        call_ensures(granted_streams, (sizes,), result),
        0 <= i < sizes@.len() ==> sizes@[i] == size,
    ensures
        size matches Some((width, height)) ==> {
            &&& width >= 1 ==> taken.0 == width
            &&& height >= 1 ==> taken.1 == height
            &&& width < 1 ==> taken.0 == 1
            &&& height < 1 ==> taken.1 == 1
        },
        size is None ==> taken == (1u32, 1u32),
        result is Err <==> sizes@.len() == 0,
        result matches Ok(streams) ==> streams@.len() == sizes@.len() && (0 <= i < sizes@.len()
            ==> streams@[i] == taken),
{
}

/// A request's path ends with its token, behind the sender's name without its colons and with
/// underscores for dots.
pub proof fn requests_have_their_path(name: &str, token: &str, path: String)
    requires
        call_ensures(portal_request_path, (name, token), path),
        name@.len() > 0,
        name@[0] == ':',
        forall|i: int| 0 < i < name@.len() ==> #[trigger] name@[i] != ':',
    ensures
        ({
            let root = "/org/freedesktop/portal/desktop/request/"@;
            let sender = path@.subrange(root.len() as int, root.len() + name@.len() - 1);
            &&& path@ == root + sender + "/"@ + token@
            &&& forall|i: int|
                0 <= i < sender.len() ==> #[trigger] sender[i] == if name@[i + 1] == '.' {
                    '_'
                } else {
                    name@[i + 1]
                }
        }),
{
    let root = "/org/freedesktop/portal/desktop/request/"@;
    let bare = name@.drop_first();
    reveal_with_fuel(crate::portal::without_colons, 2);
    assert(bare.len() > 0 ==> bare.first() == name@[1]);
    assert(crate::portal::without_colons(name@) == bare);
    let mapped = bare.map_values(|c: char| crate::portal::path_char(c));
    let sender = path@.subrange(root.len() as int, root.len() + name@.len() - 1);
    assert(sender =~= mapped);
}

/// A token names its process and its moment.
pub proof fn tokens_name_their_process(
    prefix: &str,
    process_id: u32,
    now_ms: u64,
    token: String,
    process: String,
    moment: String,
)
    requires
        call_ensures(portal_token, (prefix, process_id, now_ms), token),
        call_ensures(format_u64, (process_id as u64,), process),
        call_ensures(format_u64, (now_ms,), moment),
    ensures
        token@ == prefix@ + "_"@ + process@ + "_"@ + moment@,
{
}

/// Names put together again, with a colon between each two.
pub open spec fn with_colons(names: Seq<Seq<char>>) -> Seq<char>
    decreases names.len(),
{
    if names.len() == 0 {
        Seq::empty()
    } else if names.len() == 1 {
        names[0]
    } else {
        with_colons(names.drop_last()) + seq![':'] + names.last()
    }
}

proof fn lemma_cut(text: Seq<char>)
    ensures
        cut_at_colons(text).len() > 0,
        with_colons(cut_at_colons(text)) == text,
        forall|i: int|
            0 <= i < cut_at_colons(text).len() ==> !(#[trigger] cut_at_colons(text)[i]).contains(
                ':',
            ),
    decreases text.len(),
{
    let names = cut_at_colons(text);
    if text.len() == 0 {
        assert(with_colons(names) =~= text);
    } else {
        let rest = text.drop_last();
        lemma_cut(rest);
        let earlier = cut_at_colons(rest);
        assert(rest.push(text.last()) =~= text);
        if text.last() == ':' {
            assert(names.drop_last() =~= earlier);
            assert(with_colons(names) =~= text);
        } else {
            let grown = earlier.last().push(text.last());
            if earlier.len() > 1 {
                assert(names.drop_last() =~= earlier.drop_last());
            }
            assert(with_colons(names) =~= text);
            if grown.contains(':') {
                let k = choose|k: int| 0 <= k < grown.len() && grown[k] == ':';
                assert(earlier.last()[k] == ':');
                assert(!earlier[earlier.len() - 1].contains(':'));
            }
            assert forall|i: int| 0 <= i < names.len() implies !(#[trigger] names[i]).contains(
                ':',
            ) by {
                if i < earlier.len() - 1 {
                    assert(names[i] == earlier[i]);
                }
            }
        }
    }
}

/// A desktop is niri if and only if one of its names between the colons is, whatever the case
/// of its letters.
pub proof fn niri_is_known_by_its_name(desktops: &str, found: bool)
    requires
        call_ensures(session_desktop_is_niri, (desktops,), found),
    ensures
        found ==> exists|names: Seq<Seq<char>>, i: int|
            {
                &&& #[trigger] with_colons(names) == desktops@
                &&& 0 <= i < names.len()
                &&& !names[i].contains(':')
                &&& crate::text::lowered(#[trigger] names[i]) == "niri"@
            },
        crate::text::lowered(desktops@) == "niri"@ ==> found,
{
    let names = cut_at_colons(desktops@);
    lemma_cut(desktops@);
    if found {
        let i = choose|i: int|
            0 <= i < names.len() && crate::text::lowered(#[trigger] names[i]) == "niri"@;
        assert(with_colons(names) == desktops@ && !names[i].contains(':'));
    }
    if crate::text::lowered(desktops@) == "niri"@ {
        reveal_strlit("niri");
        let small = crate::text::lowered(desktops@);
        assert forall|k: int| 0 <= k < desktops@.len() implies desktops@[k] != ':' by {
            assert(small[k] == crate::text::lower(desktops@[k]));
            assert(small.len() == 4);
            assert(k == 0 || k == 1 || k == 2 || k == 3);
            assert(small[0] == 'n' && small[1] == 'i' && small[2] == 'r' && small[3] == 'i');
            assert(small[k] != ':');
        }
        lemma_uncut(desktops@);
        assert(names[0] == desktops@);
    }
}

proof fn lemma_uncut(text: Seq<char>)
    requires
        forall|k: int| 0 <= k < text.len() ==> text[k] != ':',
    ensures
        cut_at_colons(text) == seq![text],
    decreases text.len(),
{
    if text.len() > 0 {
        let rest = text.drop_last();
        assert forall|k: int| 0 <= k < rest.len() implies rest[k] != ':' by {
            assert(rest[k] == text[k]);
        }
        lemma_uncut(rest);
        assert(text[text.len() - 1] != ':');
        assert(rest.push(text.last()) =~= text);
        assert(cut_at_colons(text) =~= seq![text]);
    } else {
        assert(text =~= Seq::empty());
        assert(cut_at_colons(text) =~= seq![text]);
    }
}

/// The interface that was asked for is used. Where none was, the compositor is asked only for
/// monitors of a desktop that offers it and answers; everywhere else the portal asks the user.
pub proof fn interfaces_fit_the_desktop(
    requested: ScreenCastBackend,
    mode: PortalSourceMode,
    niri: bool,
    answers: bool,
    backend: ScreenCastBackend,
)
    requires
        call_ensures(resolve_screencast_backend, (requested, mode, niri, answers), backend),
    ensures
        !(requested is Auto) ==> backend == requested,
        requested is Auto ==> (backend is Mutter <==> mode is Monitor && niri && answers),
        !(backend is Auto),
{
}

/// Without a name the first primary region's first connector is captured. Without a primary
/// region it is the first region's, and where nothing is laid out the first monitor's.
pub proof fn primary_monitors_are_captured_by_default(
    monitors: &Vec<PhysicalMonitor>,
    regions: &Vec<LogicalMonitor>,
    connector: Option<String>,
    at: int,
)
    requires
        call_ensures(default_mutter_connector, (monitors, regions), connector),
        0 <= at <= regions@.len(),
        forall|k: int| 0 <= k < at ==> !(#[trigger] regions@[k]).primary,
        at < regions@.len() ==> regions@[at].primary,
    ensures
        at < regions@.len() && regions@[at].connectors@.len() > 0 ==> (connector matches Some(name)
            && name@ == regions@[at].connectors@[0]@),
        at == regions@.len() && at > 0 && regions@[0].connectors@.len() > 0 ==> (connector matches
            Some(name) && name@ == regions@[0].connectors@[0]@),
        regions@.len() == 0 && monitors@.len() > 0 ==> (connector matches Some(name) && name@
            == monitors@[0].connector@),
        regions@.len() == 0 && monitors@.len() == 0 ==> connector is None,
        monitors@.len() > 0 ==> connector is Some,
{
    assert forall|k: int| 0 <= k < at implies !(primary_region())(#[trigger] regions@[k]) by {
        assert(!regions@[k].primary);
    }
    lemma_first_where(regions@, primary_region(), at);
    assert(text_view(connector) is Some <==> connector is Some);
}

proof fn lemma_laid_out(regions: Seq<LogicalMonitor>, name: Seq<char>)
    ensures
        laid_out_connectors(regions).contains(name) <==> exists|r: int, c: int|
            0 <= r < regions.len() && 0 <= c < regions[r].connectors@.len() && #[trigger]
                regions[r].connectors@[c]@ == name,
    decreases regions.len(),
{
    let all = laid_out_connectors(regions);
    if regions.len() > 0 {
        let rest = regions.drop_last();
        lemma_laid_out(rest, name);
        let before = laid_out_connectors(rest);
        let last = texts_view(regions.last().connectors@);
        let end = regions.len() - 1;
        if all.contains(name) {
            let k = choose|k: int| 0 <= k < all.len() && all[k] == name;
            if k < before.len() {
                assert(before[k] == name);
                let (r, c) = choose|r: int, c: int|
                    0 <= r < rest.len() && 0 <= c < rest[r].connectors@.len() && #[trigger]
                        rest[r].connectors@[c]@ == name;
                assert(regions[r].connectors@[c]@ == name);
            } else {
                assert(last[k - before.len()] == name);
                assert(regions[end].connectors@[k - before.len()]@ == name);
            }
        }
        if exists|r: int, c: int|
            0 <= r < regions.len() && 0 <= c < regions[r].connectors@.len() && #[trigger]
                regions[r].connectors@[c]@ == name {
            let (r, c) = choose|r: int, c: int|
                0 <= r < regions.len() && 0 <= c < regions[r].connectors@.len() && #[trigger]
                    regions[r].connectors@[c]@ == name;
            if r < end {
                assert(rest[r].connectors@[c]@ == name);
                assert(before.contains(name));
                let k = choose|k: int| 0 <= k < before.len() && before[k] == name;
                assert(all[k] == name);
            } else {
                assert(last[c] == name);
                assert(all[before.len() + c] == name);
            }
        }
    }
}

proof fn lemma_without_repetition(texts: Seq<Seq<char>>, name: Seq<char>)
    ensures
        without_repetition(texts).contains(name) <==> texts.contains(name),
        texts.len() > 0 ==> without_repetition(texts).len() > 0 && without_repetition(texts).last()
            == texts.last(),
        forall|i: int|
            0 < i < without_repetition(texts).len() ==> #[trigger] without_repetition(texts)[i]
                != without_repetition(texts)[i - 1],
    decreases texts.len(),
{
    if texts.len() > 1 {
        let rest = texts.drop_last();
        lemma_without_repetition(rest, name);
        let before = without_repetition(rest);
        let all = without_repetition(texts);
        let end = texts[texts.len() - 1];
        if all.contains(name) {
            let k = choose|k: int| 0 <= k < all.len() && all[k] == name;
            if k < before.len() {
                assert(before[k] == name);
                let j = choose|j: int| 0 <= j < rest.len() && rest[j] == name;
                assert(texts[j] == name);
            } else {
                assert(end == name);
            }
        }
        if texts.contains(name) {
            let j = choose|j: int| 0 <= j < texts.len() && texts[j] == name;
            if j < rest.len() {
                assert(rest[j] == name);
                let k = choose|k: int| 0 <= k < before.len() && before[k] == name;
                assert(all[k] == name);
            } else {
                assert(all[all.len() - 1] == name);
            }
        }
    }
}

proof fn lemma_with_first(texts: Seq<Seq<char>>, wanted: Seq<char>, name: Seq<char>)
    ensures
        with_first(texts, wanted).contains(name) <==> texts.contains(name),
        with_first(texts, wanted).len() == texts.len(),
{
    lemma_first_where_means(texts, is_text(wanted));
    let at = first_where(texts, is_text(wanted));
    let moved = with_first(texts, wanted);
    if at < texts.len() {
        if texts.contains(name) {
            let k = choose|k: int| 0 <= k < texts.len() && texts[k] == name;
            if k == at {
                assert(moved[0] == name || at == 0);
                assert(moved[0] == name);
            } else if k == 0 {
                assert(moved[at] == name);
            } else {
                assert(moved[k] == name);
            }
        }
        if moved.contains(name) {
            let k = choose|k: int| 0 <= k < moved.len() && moved[k] == name;
            if k == at {
                assert(texts[0] == name || texts[at] == name);
            } else if k == 0 {
                assert(texts[at] == name);
            } else {
                assert(texts[k] == name);
            }
        }
    }
}

/// Everything that is laid out is listed, and nothing else; where nothing is laid out, every
/// connected monitor. A connector is not listed twice in a row.
pub proof fn laid_out_monitors_are_listed(
    monitors: &Vec<PhysicalMonitor>,
    regions: &Vec<LogicalMonitor>,
    connectors: Vec<String>,
    name: Seq<char>,
)
    requires
        call_ensures(list_mutter_connectors, (monitors, regions), connectors),
    ensures
        ({
            let listed = exists|k: int| 0 <= k < connectors@.len() && #[trigger] connectors@[k]@
                == name;
            let laid_out = exists|r: int, c: int|
                0 <= r < regions@.len() && 0 <= c < regions@[r].connectors@.len() && #[trigger]
                    regions@[r].connectors@[c]@ == name;
            let connected = exists|m: int| 0 <= m < monitors@.len() && #[trigger]
                monitors@[m].connector@ == name;
            let nothing = forall|r: int| 0 <= r < regions@.len() ==> (#[trigger]
                regions@[r]).connectors@.len() == 0;
            &&& laid_out ==> listed
            &&& listed && !nothing ==> laid_out
            &&& nothing ==> (listed <==> connected)
        }),
        forall|k: int|
            0 < k < connectors@.len() ==> (#[trigger] connectors@[k])@ != connectors@[k - 1]@,
{
    let texts = texts_view(connectors@);
    let laid_out = laid_out_connectors(regions@);
    lemma_laid_out(regions@, name);
    let ordered = match primary_connector(regions@) {
        Some(primary) => with_first(laid_out, primary),
        None => laid_out,
    };
    if let Some(primary) = primary_connector(regions@) {
        lemma_with_first(laid_out, primary, name);
    }
    let all = crate::portal::monitor_connectors(monitors@);
    let chosen = if ordered.len() == 0 {
        all
    } else {
        ordered
    };
    lemma_without_repetition(chosen, name);
    assert(texts == without_repetition(chosen));
    if texts.contains(name) {
        let k = choose|k: int| 0 <= k < texts.len() && texts[k] == name;
        assert(connectors@[k]@ == name);
    }
    if exists|k: int| 0 <= k < connectors@.len() && #[trigger] connectors@[k]@ == name {
        let k = choose|k: int| 0 <= k < connectors@.len() && #[trigger] connectors@[k]@ == name;
        assert(texts[k] == name);
    }
    let nothing = forall|r: int| 0 <= r < regions@.len() ==> (#[trigger]
        regions@[r]).connectors@.len() == 0;
    if nothing {
        if laid_out.len() > 0 {
            lemma_laid_out(regions@, laid_out[0]);
            assert(laid_out.contains(laid_out[0]));
        }
    } else {
        let r = choose|r: int|
            0 <= r < regions@.len() && (#[trigger] regions@[r]).connectors@.len() > 0;
        lemma_laid_out(regions@, regions@[r].connectors@[0]@);
        assert(laid_out.contains(regions@[r].connectors@[0]@));
    }
    if all.contains(name) {
        let k = choose|k: int| 0 <= k < all.len() && all[k] == name;
        assert(monitors@[k].connector@ == name);
    }
    if exists|m: int| 0 <= m < monitors@.len() && #[trigger] monitors@[m].connector@ == name {
        let m = choose|m: int|
            0 <= m < monitors@.len() && #[trigger] monitors@[m].connector@ == name;
        assert(all[m] == name);
    }
    assert forall|k: int| 0 < k < connectors@.len() implies (#[trigger] connectors@[k])@
        != connectors@[k - 1]@ by {
        assert(texts[k] == connectors@[k]@);
        assert(texts[k - 1] == connectors@[k - 1]@);
    }
}

/// The primary region's first connector is listed first.
pub proof fn primary_monitors_are_listed_first(
    monitors: &Vec<PhysicalMonitor>,
    regions: &Vec<LogicalMonitor>,
    connectors: Vec<String>,
    at: int,
)
    requires
        call_ensures(list_mutter_connectors, (monitors, regions), connectors),
        0 <= at < regions@.len(),
        forall|k: int| 0 <= k < at ==> !(#[trigger] regions@[k]).primary,
        regions@[at].primary,
        regions@[at].connectors@.len() > 0,
    ensures
        connectors@.len() > 0,
        connectors@[0]@ == regions@[at].connectors@[0]@,
{
    assert forall|k: int| 0 <= k < at implies !(primary_region())(#[trigger] regions@[k]) by {
        assert(!regions@[k].primary);
    }
    lemma_first_where(regions@, primary_region(), at);
    crate::portal::primary_monitor_comes_first(monitors@, regions@);
    assert(texts_view(connectors@)[0] == connectors@[0]@);
}

/// A monitor's line names its connector, the maker and model of the first monitor there, and
/// says so if it is the primary one.
pub proof fn monitors_are_shown(
    connector: &str,
    monitors: &Vec<PhysicalMonitor>,
    regions: &Vec<LogicalMonitor>,
    line: String,
    m: int,
    at: int,
)
    requires
        call_ensures(monitor_line, (connector, monitors, regions), line),
        0 <= m < monitors@.len(),
        monitors@[m].connector@ == connector@,
        forall|k: int| 0 <= k < m ==> (#[trigger] monitors@[k]).connector@ != connector@,
        0 <= at <= regions@.len(),
        forall|k: int| 0 <= k < at ==> !(#[trigger] regions@[k]).primary,
        at < regions@.len() ==> regions@[at].primary,
    ensures
        ({
            let plain = connector@ + "\t"@ + (monitors@[m].vendor@ + " "@ + monitors@[m].product@);
            let primary = at < regions@.len() && regions@[at].connectors@.len() > 0
                && regions@[at].connectors@[0]@ == connector@;
            line@ == if primary {
                plain + " (primary)"@
            } else {
                plain
            }
        }),
{
    let wanted = crate::portal::with_connector(connector@);
    assert forall|k: int| 0 <= k < m implies !wanted(#[trigger] monitors@[k]) by {
        assert(monitors@[k].connector@ != connector@);
    }
    lemma_first_where(monitors@, wanted, m);
    assert forall|k: int| 0 <= k < at implies !(primary_region())(#[trigger] regions@[k]) by {
        assert(!regions@[k].primary);
    }
    lemma_first_where(regions@, primary_region(), at);
    let plain = connector@ + "\t"@ + (monitors@[m].vendor@ + " "@ + monitors@[m].product@);
    assert(plain + Seq::<char>::empty() =~= plain);
}

/// Only monitors can be asked of the compositor. A name without its surrounding space is
/// asked for, unless nothing is left of it.
pub proof fn named_monitors_are_asked_for(
    mode: PortalSourceMode,
    monitor_name: &Option<String>,
    result: Result<Option<String>, PortalError>,
    given: &str,
    core: String,
)
    requires
        call_ensures(requested_connector, (mode, monitor_name), result),
        monitor_name matches Some(name) ==> given@ == name@,
        call_ensures(trim, (given,), core),
    ensures
        result is Ok <==> mode is Monitor,
        result matches Err(error) ==> error == PortalError::MonitorRequired,
        result matches Ok(name) ==> {
            &&& name is Some <==> monitor_name is Some && core@.len() > 0
            &&& name matches Some(name) ==> name@ == core@
        },
{
    assert(text_view(*monitor_name) is Some <==> *monitor_name is Some);
    if let Ok(name) = result {
        assert(text_view(name) is Some <==> name is Some);
    }
}

/// A property's value is that of the first one with its key.
pub proof fn first_properties_count(
    props: &Vec<(String, String)>,
    key: &str,
    value: Option<&str>,
    at: int,
)
    requires
        call_ensures(prop_value, (props, key), value),
        0 <= at <= props@.len(),
        forall|k: int| 0 <= k < at ==> (#[trigger] props@[k]).0@ != key@,
        at < props@.len() ==> props@[at].0@ == key@,
    ensures
        at < props@.len() ==> (value matches Some(value) && value@ == props@[at].1@),
        at == props@.len() ==> value is None,
{
    let wanted = crate::portal::with_key(key@);
    assert forall|k: int| 0 <= k < at implies !wanted(#[trigger] props@[k]) by {
        assert(props@[k].0@ != key@);
    }
    lemma_first_where(props@, wanted, at);
}

/// A capture connects to the first node with its number, or else to the only one. A node is
/// found by its serial, else by its name, else by its path.
pub proof fn targets_are_found(
    nodes: &Vec<PipewireNode>,
    node_id: u32,
    result: Option<(usize, Option<String>)>,
    at: int,
    serial: Option<&str>,
    name: Option<&str>,
    path: Option<&str>,
    serial_key: &str,
    name_key: &str,
    path_key: &str,
)
    requires
        call_ensures(select_target, (nodes, node_id), result),
        0 <= at <= nodes@.len(),
        forall|k: int| 0 <= k < at ==> (#[trigger] nodes@[k]).id != node_id,
        at < nodes@.len() ==> nodes@[at].id == node_id,
        serial_key@ == "object.serial"@ && name_key@ == "node.name"@ && path_key@
            == "object.path"@,
        result matches Some((found, _)) ==> {
            &&& call_ensures(prop_value, (&nodes@[found as int].props, serial_key), serial)
            &&& call_ensures(prop_value, (&nodes@[found as int].props, name_key), name)
            &&& call_ensures(prop_value, (&nodes@[found as int].props, path_key), path)
        },
    ensures
        result is Some <==> at < nodes@.len() || nodes@.len() == 1,
        result matches Some((found, target)) ==> {
            &&& found == if at < nodes@.len() {
                at
            } else {
                0
            }
            &&& target is Some <==> serial is Some || name is Some || path is Some
            &&& serial matches Some(text) ==> (target matches Some(shown) && shown@ == text@)
            &&& serial is None ==> (name matches Some(text) ==> (target matches Some(shown)
                && shown@ == text@))
            &&& serial is None && name is None ==> (path matches Some(text) ==> (target matches
                Some(shown) && shown@ == text@))
        },
{
    let wanted = crate::portal::with_id(node_id);
    assert forall|k: int| 0 <= k < at implies !wanted(#[trigger] nodes@[k]) by {
        assert(nodes@[k].id != node_id);
    }
    lemma_first_where(nodes@, wanted, at);
    if let Some((found, target)) = result {
        assert(text_view(target) is Some <==> target is Some);
    }
}

/// A property is shown as its key, an equals sign and its value; several are shown in the
/// same order however they were given.
pub proof fn properties_are_shown_in_order(
    one: &Vec<(String, String)>,
    shown: String,
    two: &Vec<(String, String)>,
    swapped: &Vec<(String, String)>,
    text: String,
    same: String,
)
    requires
        one@.len() == 1,
        call_ensures(format_prop_pairs, (one,), shown),
        two@.len() == 2,
        swapped@ == seq![two@[1], two@[0]],
        call_ensures(format_prop_pairs, (two,), text),
        call_ensures(format_prop_pairs, (swapped,), same),
    ensures
        shown@ == one@[0].0@ + "="@ + one@[0].1@,
        text@ == same@,
        ({
            let a = two@[0].0@ + "="@ + two@[0].1@;
            let b = two@[1].0@ + "="@ + two@[1].1@;
            text@ == a + ", "@ + b || text@ == b + ", "@ + a
        }),
{
    let words = crate::portal::pair_words();
    let leq = crate::portal::alphabetical();
    let single = one@.map_values(words);
    reveal_with_fuel(crate::order::stable_sorted, 3);
    reveal_with_fuel(crate::order::placed, 3);
    reveal_with_fuel(crate::portal::joined, 3);
    assert(single.drop_last() =~= Seq::empty());
    let a = two@[0].0@ + "="@ + two@[0].1@;
    let b = two@[1].0@ + "="@ + two@[1].1@;
    assert(two@.map_values(words) =~= seq![a, b]);
    assert(swapped@.map_values(words) =~= seq![b, a]);
    assert(seq![a, b].drop_last() =~= seq![a]);
    assert(seq![b, a].drop_last() =~= seq![b]);
    assert(seq![a].drop_last() =~= Seq::empty());
    assert(seq![b].drop_last() =~= Seq::empty());
    lemma_alphabetical(a, b);
    let none = Seq::<Seq<char>>::empty();
    assert(none.push(a) =~= seq![a]);
    assert(none.push(b) =~= seq![b]);
    assert(seq![a].push(b) =~= seq![a, b]);
    assert(seq![b].push(a) =~= seq![b, a]);
    assert(crate::portal::joined(seq![a, b]) == a + ", "@ + b);
    assert(crate::portal::joined(seq![b, a]) == b + ", "@ + a);
    let sorted = crate::order::stable_sorted(seq![a, b], leq);
    let other = crate::order::stable_sorted(seq![b, a], leq);
    assert(sorted == if leq(a, b) {
        seq![a, b]
    } else {
        seq![b, a]
    });
    assert(other == if leq(b, a) {
        seq![b, a]
    } else {
        seq![a, b]
    });
}

proof fn lemma_alphabetical(a: Seq<char>, b: Seq<char>)
    ensures
        crate::portal::comes_first(a, b) || crate::portal::comes_first(b, a),
        crate::portal::comes_first(a, b) && crate::portal::comes_first(b, a) ==> a == b,
    decreases a.len(),
{
    if a.len() > 0 && b.len() > 0 && a.first() == b.first() {
        lemma_alphabetical(a.drop_first(), b.drop_first());
        assert(seq![a.first()] + a.drop_first() =~= a);
        assert(seq![b.first()] + b.drop_first() =~= b);
    } else if a.len() > 0 && b.len() > 0 {
        lemma_codes(a.first(), b.first());
    } else if a.len() == 0 && b.len() == 0 {
        assert(a =~= b);
    }
}

proof fn lemma_codes(a: char, b: char)
    requires
        a != b,
    ensures
        (a as u32) < (b as u32) || (b as u32) < (a as u32),
{
}

} // verus!
