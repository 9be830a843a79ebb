//! Choosing what is captured: portal and compositor requests, monitors and stream targets.

use vstd::prelude::*;

use crate::identity::text_view;
use crate::order::{first_where, lemma_first_where, stable_sort, stable_sorted};
use crate::startup::ScreenCastBackend;
use crate::text::{
    append, chars_of, decimal_text, format_i32, format_u64, integer_text, lowered, text_of, texts_equal, texts_view,
    to_lowercase, trim, trimmed,
};

verus! {

/// The bit of a monitor.
pub const PORTAL_SOURCE_MONITOR: u32 = 1;

/// The bit of a window.
pub const PORTAL_SOURCE_WINDOW: u32 = 2;

/// The bit of a hidden cursor.
pub const PORTAL_CURSOR_HIDDEN: u32 = 1;

/// The bit of a cursor that is part of the picture.
pub const PORTAL_CURSOR_EMBEDDED: u32 = 2;

/// The bit of a cursor that comes as metadata.
pub const PORTAL_CURSOR_METADATA: u32 = 4;

/// The grant is not to be remembered.
pub const PORTAL_PERSIST_DO_NOT: u32 = 0;

/// The grant is to be remembered until it is revoked.
pub const PORTAL_PERSIST_UNTIL_REVOKED: u32 = 2;

/// Why a capture cannot be opened.
#[derive(Clone, Copy, Debug, PartialEq, Eq, Structural)]
pub enum PortalError {
    /// The portal does not offer the sort of source.
    SourceUnavailable {
        /// What was to be captured.
        mode: PortalSourceMode,
        /// The sorts that it offers, as bits.
        available: u32,
    },
    /// The portal does not offer the cursor mode.
    CursorModeUnavailable {
        /// The mode that was asked for.
        preference: PortalCursorMode,
        /// The modes that it offers, as bits.
        available: u32,
    },
    /// The compositor's interface has no cursor modes.
    CursorModeUnsupported {
        /// Version of the interface.
        version: i32,
    },
    /// The compositor's interface records monitors only.
    MonitorRequired,
    /// The portal granted nothing.
    NoStreams,
    /// The request failed or was cancelled.
    RequestFailed {
        /// The portal's code.
        response: u32,
    },
}

impl PortalError {
    /// What the error says.
    pub open spec fn words(self) -> Seq<char> {
        match self {
            PortalError::SourceUnavailable { mode, available } => "portal source mode "@
                + mode.name() + " is not available; portal advertised source mask "@
                + decimal_text(available as nat),
            PortalError::CursorModeUnavailable { preference, available } =>
            "requested portal cursor mode "@ + preference.name()
                + " is not available; portal advertised cursor mode mask "@ + decimal_text(
                available as nat,
            ),
            PortalError::CursorModeUnsupported { version } => "Mutter ScreenCast API version "@
                + integer_text(version as int) + " does not support cursor-mode metadata"@,
            PortalError::MonitorRequired =>
            "--screencast-backend mutter currently requires --portal-source monitor"@,
            PortalError::NoStreams => "portal returned no PipeWire streams"@,
            PortalError::RequestFailed { response } =>
            "portal request failed or was cancelled with response code "@ + decimal_text(
                response as nat,
            ),
        }
    }

    /// What the error says.
    pub fn text(&self) -> (text: String)
        ensures
            text@ == self.words(),
    {
        let mut text = String::new();
        match self {
            PortalError::SourceUnavailable { mode, available } => {
                append(&mut text, "portal source mode ");
                append(&mut text, mode.label());
                append(&mut text, " is not available; portal advertised source mask ");
                append(&mut text, format_u64(*available as u64).as_str());
            },
            PortalError::CursorModeUnavailable { preference, available } => {
                append(&mut text, "requested portal cursor mode ");
                append(&mut text, preference.label());
                append(&mut text, " is not available; portal advertised cursor mode mask ");
                append(&mut text, format_u64(*available as u64).as_str());
            },
            PortalError::CursorModeUnsupported { version } => {
                append(&mut text, "Mutter ScreenCast API version ");
                append(&mut text, format_i32(*version).as_str());
                append(&mut text, " does not support cursor-mode metadata");
            },
            PortalError::MonitorRequired => {
                append(
                    &mut text,
                    "--screencast-backend mutter currently requires --portal-source monitor",
                );
            },
            PortalError::NoStreams => {
                append(&mut text, "portal returned no PipeWire streams");
            },
            PortalError::RequestFailed { response } => {
                append(
                    &mut text,
                    "portal request failed or was cancelled with response code ",
                );
                append(&mut text, format_u64(*response as u64).as_str());
            },
        }
        assert(text@ =~= self.words());
        text
    }
}

/// What may be captured.
#[derive(Clone, Copy, Debug, PartialEq, Eq, Structural)]
pub enum PortalSourceMode {
    /// Monitors.
    Monitor,
    /// Windows.
    Window,
    /// Both.
    Any,
}

impl PortalSourceMode {
    /// The name of the mode.
    pub open spec fn name(self) -> Seq<char> {
        match self {
            PortalSourceMode::Monitor => "Monitor"@,
            PortalSourceMode::Window => "Window"@,
            PortalSourceMode::Any => "Any"@,
        }
    }

    /// The name of the mode.
    fn label(&self) -> (label: &'static str)
        ensures
            label@ == self.name(),
    {
        match self {
            PortalSourceMode::Monitor => "Monitor",
            PortalSourceMode::Window => "Window",
            PortalSourceMode::Any => "Any",
        }
    }

    /// The bits of the mode.
    pub open spec fn bits(self) -> u32 {
        match self {
            PortalSourceMode::Monitor => PORTAL_SOURCE_MONITOR,
            PortalSourceMode::Window => PORTAL_SOURCE_WINDOW,
            PortalSourceMode::Any => 3,
        }
    }

    /// The bits of the mode.
    pub fn mask(self) -> (mask: u32)
        ensures
            mask == self.bits(),
    {
        match self {
            PortalSourceMode::Monitor => PORTAL_SOURCE_MONITOR,
            PortalSourceMode::Window => PORTAL_SOURCE_WINDOW,
            PortalSourceMode::Any => 3,
        }
    }
}

/// How the cursor is captured.
#[derive(Clone, Copy, Debug, PartialEq, Eq, Structural)]
pub enum PortalCursorMode {
    /// The best that is offered.
    Auto,
    /// As metadata.
    Metadata,
    /// As part of the picture.
    Embedded,
    /// Not at all.
    Hidden,
}

impl PortalCursorMode {
    /// The name of the mode.
    pub open spec fn name(self) -> Seq<char> {
        match self {
            PortalCursorMode::Auto => "Auto"@,
            PortalCursorMode::Metadata => "Metadata"@,
            PortalCursorMode::Embedded => "Embedded"@,
            PortalCursorMode::Hidden => "Hidden"@,
        }
    }

    /// The name of the mode.
    fn label(&self) -> (label: &'static str)
        ensures
            label@ == self.name(),
    {
        match self {
            PortalCursorMode::Auto => "Auto",
            PortalCursorMode::Metadata => "Metadata",
            PortalCursorMode::Embedded => "Embedded",
            PortalCursorMode::Hidden => "Hidden",
        }
    }

    /// The bit of the mode, where it asks for one.
    pub open spec fn bit(self) -> Option<u32> {
        match self {
            PortalCursorMode::Auto => None,
            PortalCursorMode::Metadata => Some(PORTAL_CURSOR_METADATA),
            PortalCursorMode::Embedded => Some(PORTAL_CURSOR_EMBEDDED),
            PortalCursorMode::Hidden => Some(PORTAL_CURSOR_HIDDEN),
        }
    }

    /// The bit of the mode, where it asks for one.
    pub fn portal_value(self) -> (value: Option<u32>)
        ensures
            value == self.bit(),
    {
        match self {
            PortalCursorMode::Auto => None,
            PortalCursorMode::Metadata => Some(PORTAL_CURSOR_METADATA),
            PortalCursorMode::Embedded => Some(PORTAL_CURSOR_EMBEDDED),
            PortalCursorMode::Hidden => Some(PORTAL_CURSOR_HIDDEN),
        }
    }
}

/// Whether a mask has a bit.
pub open spec fn has_bit(mask: u32, bit: u32) -> bool {
    (mask / bit) % 2 == 1
}

fn mask_has(mask: u32, bit: u32) -> (found: bool)
    requires
        bit == 1 || bit == 2 || bit == 4,
    ensures
        found == has_bit(mask, bit),
{
    assert((mask & 1 != 0) == ((mask / 1) % 2 == 1)) by (bit_vector);
    assert((mask & 2 != 0) == ((mask / 2) % 2 == 1)) by (bit_vector);
    assert((mask & 4 != 0) == ((mask / 4) % 2 == 1)) by (bit_vector);
    mask & bit != 0
}

/// The cursor mode that is asked of the portal: what is preferred, which must be offered,
/// or else metadata, or else the picture, or else none.
pub open spec fn portal_cursor_mode(available: u32, preference: PortalCursorMode) -> Result<
    u32,
    PortalError,
> {
    match preference.bit() {
        Some(bit) => if has_bit(available, bit) {
            Ok(bit)
        } else {
            Err(PortalError::CursorModeUnavailable { preference, available })
        },
        None => if has_bit(available, PORTAL_CURSOR_METADATA) {
            Ok(PORTAL_CURSOR_METADATA)
        } else if has_bit(available, PORTAL_CURSOR_EMBEDDED) {
            Ok(PORTAL_CURSOR_EMBEDDED)
        } else {
            Ok(PORTAL_CURSOR_HIDDEN)
        },
    }
}

/// Selects the cursor mode that is asked of the portal.
pub fn select_portal_cursor_mode(available_cursor_modes: u32, preference: PortalCursorMode) -> (
result: Result<u32, PortalError>)
    ensures
        result == portal_cursor_mode(available_cursor_modes, preference),
{
    match preference.portal_value() {
        Some(bit) => {
            if mask_has(available_cursor_modes, bit) {
                Ok(bit)
            } else {
                Err(
                    PortalError::CursorModeUnavailable {
                        preference,
                        available: available_cursor_modes,
                    },
                )
            }
        },
        None => {
            if mask_has(available_cursor_modes, PORTAL_CURSOR_METADATA) {
                Ok(PORTAL_CURSOR_METADATA)
            } else if mask_has(available_cursor_modes, PORTAL_CURSOR_EMBEDDED) {
                Ok(PORTAL_CURSOR_EMBEDDED)
            } else {
                Ok(PORTAL_CURSOR_HIDDEN)
            }
        },
    }
}

/// The cursor mode that is asked of the compositor, which has numbers of its own.
pub fn select_mutter_cursor_mode(version: i32, preference: PortalCursorMode) -> (result: Result<
    u32,
    PortalError,
>)
    ensures
        result == if version < 2 && preference != PortalCursorMode::Hidden {
            Err::<u32, PortalError>(PortalError::CursorModeUnsupported { version })
        } else {
            Ok::<u32, PortalError>(
                match preference {
                    PortalCursorMode::Auto => 2,
                    PortalCursorMode::Metadata => 2,
                    PortalCursorMode::Embedded => 1,
                    PortalCursorMode::Hidden => 0,
                },
            )
        },
{
    if version < 2 && preference != PortalCursorMode::Hidden {
        return Err(PortalError::CursorModeUnsupported { version });
    }
    Ok(
        match preference {
            PortalCursorMode::Auto => 2,
            PortalCursorMode::Metadata => 2,
            PortalCursorMode::Embedded => 1,
            PortalCursorMode::Hidden => 0,
        },
    )
}

/// What is asked of the portal.
#[derive(Debug)]
pub struct PortalSelection {
    /// The sorts of sources.
    pub source_mask: u32,
    /// The cursor mode.
    pub cursor_mode: u32,
    /// Whether the grant is to be remembered.
    pub persist_mode: u32,
    /// The token of a grant that was remembered.
    pub restore_token: Option<String>,
}

/// The sorts of sources that the portal offers. One that does not say offers both.
pub open spec fn source_types_of(available: Option<u32>) -> u32 {
    match available {
        Some(available) => available,
        None => 3,
    }
}

/// The sorts of sources that are asked for: those of the mode that the portal offers.
pub open spec fn source_mask_of(mode: PortalSourceMode, available: Option<u32>) -> u32 {
    mode.bits() & source_types_of(available)
}

/// The cursor modes that the portal offers. One that does not say offers a hidden cursor.
pub open spec fn cursor_modes_of(available: Option<u32>) -> u32 {
    match available {
        Some(available) => available,
        None => PORTAL_CURSOR_HIDDEN,
    }
}

/// Plans what is asked of the portal. `store` holds the remembered token, where grants are
/// remembered at all.
pub fn plan_portal_selection(
    mode: PortalSourceMode,
    preference: PortalCursorMode,
    available_sources: Option<u32>,
    available_cursors: Option<u32>,
    store: &Option<Option<String>>,
) -> (result: Result<PortalSelection, PortalError>)
    ensures
        ({
            let mask = source_mask_of(mode, available_sources);
            let modes = cursor_modes_of(available_cursors);
            match result {
                Err(error) => if mask == 0 {
                    error == PortalError::SourceUnavailable {
                        mode,
                        available: source_types_of(available_sources),
                    }
                } else {
                    portal_cursor_mode(modes, preference) == Err::<u32, PortalError>(error)
                },
                Ok(selection) => {
                    &&& mask != 0
                    &&& portal_cursor_mode(modes, preference) == Ok::<u32, PortalError>(
                        selection.cursor_mode,
                    )
                    &&& selection.source_mask == mask
                    &&& selection.persist_mode == if store is Some {
                        PORTAL_PERSIST_UNTIL_REVOKED
                    } else {
                        PORTAL_PERSIST_DO_NOT
                    }
                    &&& text_view(selection.restore_token) == match *store {
                        Some(token) => text_view(token),
                        None => None,
                    }
                },
            }
        }),
{
    let offered: u32 = match available_sources {
        Some(available) => available,
        None => 3,
    };
    let source_mask: u32 = mode.mask() & offered;
    if source_mask == 0 {
        return Err(PortalError::SourceUnavailable { mode, available: offered });
    }
    let modes: u32 = match available_cursors {
        Some(available) => available,
        None => PORTAL_CURSOR_HIDDEN,
    };
    let cursor_mode: u32 = match select_portal_cursor_mode(modes, preference) {
        Err(error) => {
            return Err(error);
        },
        Ok(cursor_mode) => cursor_mode,
    };
    let (persist_mode, restore_token): (u32, Option<String>) = match store {
        None => (PORTAL_PERSIST_DO_NOT, None),
        Some(None) => (PORTAL_PERSIST_UNTIL_REVOKED, None),
        Some(Some(token)) => (PORTAL_PERSIST_UNTIL_REVOKED, Some(token.clone())),
    };
    Ok(PortalSelection { source_mask, cursor_mode, persist_mode, restore_token })
}

/// Whether a portal request succeeded.
pub fn check_response(response: u32) -> (result: Result<(), PortalError>)
    ensures
        result == if response == 0 {
            Ok::<(), PortalError>(())
        } else {
            Err::<(), PortalError>(PortalError::RequestFailed { response })
        },
{
    if response != 0 {
        return Err(PortalError::RequestFailed { response });
    }
    Ok(())
}

/// The token that is to be remembered of what the portal returned.
pub fn token_to_save(returned: Option<String>) -> (token: Option<String>)
    ensures
        text_view(token) == match text_view(returned) {
            Some(text) => if text.len() > 0 {
                Some(text)
            } else {
                None
            },
            None => None,
        },
{
    match returned {
        Some(token) => {
            if token.as_str().is_empty() {
                None
            } else {
                Some(token)
            }
        },
        None => None,
    }
}

/// An extent of one pixel at least.
pub open spec fn pixel_at_least(extent: i32) -> u32 {
    if extent < 1 {
        1
    } else {
        extent as u32
    }
}

/// The size of a stream: one pixel at least, and one where it is not given.
pub fn stream_size(size: Option<(i32, i32)>) -> (result: (u32, u32))
    ensures
        result == match size {
            Some((width, height)) => (pixel_at_least(width), pixel_at_least(height)),
            None => (1u32, 1u32),
        },
{
    match size {
        Some((width, height)) => (
            if width < 1 {
                1
            } else {
                width as u32
            },
            if height < 1 {
                1
            } else {
                height as u32
            },
        ),
        None => (1, 1),
    }
}

/// The streams that a portal granted, each with its size. There must be one.
pub fn granted_streams(sizes: &Vec<Option<(i32, i32)>>) -> (result: Result<
    Vec<(u32, u32)>,
    PortalError,
>)
    ensures
        match result {
            Err(error) => error == PortalError::NoStreams && sizes@.len() == 0,
            Ok(streams) => {
                &&& sizes@.len() > 0
                &&& streams@.len() == sizes@.len()
                &&& forall|i: int|
                    0 <= i < streams@.len() ==> #[trigger] streams@[i] == match sizes@[i] {
                        Some((width, height)) => (pixel_at_least(width), pixel_at_least(height)),
                        None => (1u32, 1u32),
                    }
            },
        },
{
    let count: usize = sizes.len();
    if count == 0 {
        return Err(PortalError::NoStreams);
    }
    let mut streams: Vec<(u32, u32)> = Vec::new();
    let mut i: usize = 0;
    while i < count
        invariant
            i <= count == sizes@.len(),
            streams@.len() == i,
            forall|k: int|
                0 <= k < i ==> #[trigger] streams@[k] == match sizes@[k] {
                    Some((width, height)) => (pixel_at_least(width), pixel_at_least(height)),
                    None => (1u32, 1u32),
                },
        decreases count - i,
    {
        streams.push(stream_size(sizes[i]));
        i += 1;
    }
    Ok(streams)
}

/// A cursor mode in words.
pub fn cursor_description(cursor_mode: u32) -> (words: &'static str)
    ensures
        words@ == if cursor_mode == PORTAL_CURSOR_EMBEDDED {
            "embedded cursor requested"@
        } else if cursor_mode == PORTAL_CURSOR_METADATA {
            "cursor metadata requested"@
        } else {
            "cursor hidden by portal"@
        },
{
    if cursor_mode == PORTAL_CURSOR_EMBEDDED {
        "embedded cursor requested"
    } else if cursor_mode == PORTAL_CURSOR_METADATA {
        "cursor metadata requested"
    } else {
        "cursor hidden by portal"
    }
}

/// A bus name without the colons that it begins with.
pub open spec fn without_colons(name: Seq<char>) -> Seq<char>
    decreases name.len(),
{
    if name.len() > 0 && name.first() == ':' {
        without_colons(name.drop_first())
    } else {
        name
    }
}

/// A character of a bus name as it stands in an object path.
pub open spec fn path_char(c: char) -> char {
    if c == '.' {
        '_'
    } else {
        c
    }
}

/// The path of a portal request.
pub open spec fn request_path(unique_name: Seq<char>, token: Seq<char>) -> Seq<char> {
    "/org/freedesktop/portal/desktop/request/"@ + without_colons(unique_name).map_values(
        |c: char| path_char(c),
    ) + "/"@ + token
}

/// The path of a portal request: the sender's bus name and the request's token.
pub fn portal_request_path(unique_name: &str, handle_token: &str) -> (path: String)
    ensures
        path@ == request_path(unique_name@, handle_token@),
{
    let chars = chars_of(unique_name);
    let count: usize = chars.len();
    let mut start: usize = 0;
    assert(chars@.skip(0) =~= chars@);
    while start < count && chars[start] == ':'
        invariant
            start <= count == chars@.len(),
            chars@ == unique_name@,
            without_colons(chars@.skip(start as int)) == without_colons(chars@),
        decreases count - start,
    {
        assert(chars@.skip(start as int).drop_first() =~= chars@.skip(start + 1));
        start += 1;
    }
    let ghost name = chars@.skip(start as int);
    let mut sender: Vec<char> = Vec::new();
    let mut i: usize = start;
    while i < count
        invariant
            start <= i <= count == chars@.len(),
            name == chars@.skip(start as int),
            sender@ == name.take(i - start).map_values(|c: char| path_char(c)),
        decreases count - i,
    {
        let c = chars[i];
        sender.push(
            if c == '.' {
                '_'
            } else {
                c
            },
        );
        assert(sender@ =~= name.take(i + 1 - start).map_values(|c: char| path_char(c)));
        i += 1;
    }
    assert(name.take(count - start) =~= name);
    let mut path = String::new();
    append(&mut path, "/org/freedesktop/portal/desktop/request/");
    let text = text_of(&sender, 0, sender.len());
    assert(sender@.subrange(0, sender@.len() as int) =~= sender@);
    append(&mut path, text.as_str());
    append(&mut path, "/");
    append(&mut path, handle_token);
    assert(path@ =~= request_path(unique_name@, handle_token@));
    path
}

/// A token for a portal request, made of a process and a moment.
pub fn portal_token(prefix: &str, process_id: u32, now_ms: u64) -> (token: String)
    ensures
        token@ == prefix@ + "_"@ + decimal_text(process_id as nat) + "_"@ + decimal_text(
            now_ms as nat,
        ),
{
    let mut token = String::new();
    append(&mut token, prefix);
    append(&mut token, "_");
    append(&mut token, format_u64(process_id as u64).as_str());
    append(&mut token, "_");
    append(&mut token, format_u64(now_ms).as_str());
    assert(token@ =~= prefix@ + "_"@ + decimal_text(process_id as nat) + "_"@ + decimal_text(
        now_ms as nat,
    ));
    token
}

/// A text cut at every colon.
pub open spec fn cut_at_colons(text: Seq<char>) -> Seq<Seq<char>>
    decreases text.len(),
{
    if text.len() == 0 {
        seq![Seq::empty()]
    } else {
        let before = cut_at_colons(text.drop_last());
        if text.last() == ':' {
            before.push(Seq::empty())
        } else {
            before.update(before.len() - 1, before.last().push(text.last()))
        }
    }
}

/// Whether a list of desktop names has niri, in any case of letters.
pub open spec fn names_niri(desktops: Seq<char>) -> bool {
    exists|i: int|
        0 <= i < cut_at_colons(desktops).len() && lowered(#[trigger] cut_at_colons(desktops)[i])
            == "niri"@
}

/// Whether a list of desktop names, parted by colons, has niri.
pub fn session_desktop_is_niri(desktops: &str) -> (found: bool)
    ensures
        found == names_niri(desktops@),
{
    let chars = chars_of(desktops);
    let count: usize = chars.len();
    let mut from: usize = 0;
    let mut i: usize = 0;
    let mut found = false;
    let ghost mut before: Seq<Seq<char>> = Seq::empty();
    assert(chars@.take(0) =~= Seq::empty());
    assert(chars@.subrange(0, 0) =~= Seq::empty());
    assert(before.push(Seq::empty()) =~= seq![Seq::<char>::empty()]);
    while i < count
        invariant
            from <= i <= count == chars@.len(),
            chars@ == desktops@,
            cut_at_colons(chars@.take(i as int)) == before.push(
                chars@.subrange(from as int, i as int),
            ),
            found == exists|k: int|
                0 <= k < before.len() && lowered(#[trigger] before[k]) == "niri"@,
        decreases count - i,
    {
        let ghost cut = before.push(chars@.subrange(from as int, i as int));
        proof {
            assert(chars@.take(i + 1).drop_last() =~= chars@.take(i as int));
        }
        if chars[i] == ':' {
            let entry = text_of(&chars, from, i);
            let hit = texts_equal(to_lowercase(entry.as_str()).as_str(), "niri");
            proof {
                let more = before.push(chars@.subrange(from as int, i as int));
                assert forall|k: int| 0 <= k < before.len() implies #[trigger] more[k]
                    == before[k] by {}
                assert(more[before.len() as int] == entry@);
                if found {
                    let k = choose|k: int|
                        0 <= k < before.len() && lowered(#[trigger] before[k]) == "niri"@;
                    assert(lowered(more[k]) == "niri"@);
                }
                before = more;
                assert(chars@.subrange(i + 1, i + 1) =~= Seq::empty());
                assert(cut_at_colons(chars@.take(i + 1)) =~= before.push(
                    chars@.subrange(i + 1, i + 1),
                ));
            }
            found = found || hit;
            from = i + 1;
        } else {
            proof {
                assert(chars@.subrange(from as int, i + 1) =~= chars@.subrange(
                    from as int,
                    i as int,
                ).push(chars@[i as int]));
                assert(cut_at_colons(chars@.take(i + 1)) =~= before.push(
                    chars@.subrange(from as int, i + 1),
                ));
            }
        }
        i += 1;
    }
    let entry = text_of(&chars, from, count);
    let hit = texts_equal(to_lowercase(entry.as_str()).as_str(), "niri");
    proof {
        let cut = before.push(entry@);
        assert(chars@.take(count as int) =~= chars@);
        assert(cut_at_colons(desktops@) == cut);
        assert(cut[before.len() as int] == entry@);
        assert forall|k: int| 0 <= k < before.len() implies #[trigger] cut[k] == before[k] by {}
        if found {
            let k = choose|k: int|
                0 <= k < before.len() && lowered(#[trigger] before[k]) == "niri"@;
            assert(lowered(cut[k]) == "niri"@);
        }
    }
    found || hit
}

/// The interface that fits the desktop. The compositor's own is used where it is that
/// desktop's sanctioned one and monitors are captured; everywhere else the portal asks the
/// user.
pub fn resolve_screencast_backend(
    requested: ScreenCastBackend,
    mode: PortalSourceMode,
    desktop_is_niri: bool,
    compositor_answers: bool,
) -> (backend: ScreenCastBackend)
    ensures
        backend == if requested != ScreenCastBackend::Auto {
            requested
        } else if mode == PortalSourceMode::Monitor && desktop_is_niri && compositor_answers {
            ScreenCastBackend::Mutter
        } else {
            ScreenCastBackend::Portal
        },
{
    if requested != ScreenCastBackend::Auto {
        return requested;
    }
    if mode == PortalSourceMode::Monitor && desktop_is_niri && compositor_answers {
        ScreenCastBackend::Mutter
    } else {
        ScreenCastBackend::Portal
    }
}

/// A laid-out region of the desktop.
#[derive(Debug)]
pub struct LogicalMonitor {
    /// Whether it is the primary one.
    pub primary: bool,
    /// Connectors of the monitors that show it.
    pub connectors: Vec<String>,
}

/// A connected monitor.
#[derive(Debug)]
pub struct PhysicalMonitor {
    /// Its connector.
    pub connector: String,
    /// Its maker.
    pub vendor: String,
    /// Its model.
    pub product: String,
}

/// The primary region.
pub open spec fn primary_region() -> spec_fn(LogicalMonitor) -> bool {
    |region: LogicalMonitor| region.primary
}

/// A region's first connector.
pub open spec fn first_connector(regions: Seq<LogicalMonitor>, at: int) -> Option<Seq<char>> {
    if 0 <= at < regions.len() && regions[at].connectors@.len() > 0 {
        Some(regions[at].connectors@[0]@)
    } else {
        None
    }
}

/// The first connector of the primary region.
pub open spec fn primary_connector(regions: Seq<LogicalMonitor>) -> Option<Seq<char>> {
    first_connector(regions, first_where(regions, primary_region()))
}

fn find_primary(regions: &Vec<LogicalMonitor>) -> (at: usize)
    ensures
        at == first_where(regions@, primary_region()),
        at <= regions@.len(),
{
    let count: usize = regions.len();
    let mut at: usize = 0;
    while at < count && !regions[at].primary
        invariant
            at <= count == regions@.len(),
            forall|k: int| 0 <= k < at ==> !primary_region()(#[trigger] regions@[k]),
        decreases count - at,
    {
        at += 1;
    }
    proof {
        lemma_first_where(regions@, primary_region(), at as int);
    }
    at
}

fn connector_at(regions: &Vec<LogicalMonitor>, at: usize) -> (connector: Option<String>)
    ensures
        text_view(connector) == first_connector(regions@, at as int),
{
    if at < regions.len() && regions[at].connectors.len() > 0 {
        Some(regions[at].connectors[0].clone())
    } else {
        None
    }
}

/// The monitor that is captured when none was named: that of the primary region, else of
/// the first one, else the first connected monitor.
pub open spec fn default_connector(
    monitors: Seq<PhysicalMonitor>,
    regions: Seq<LogicalMonitor>,
) -> Option<Seq<char>> {
    let primary = first_where(regions, primary_region());
    let laid_out = if primary < regions.len() {
        first_connector(regions, primary)
    } else {
        first_connector(regions, 0)
    };
    if laid_out is Some {
        laid_out
    } else if monitors.len() > 0 {
        Some(monitors[0].connector@)
    } else {
        None
    }
}

/// The monitor that is captured when none was named.
pub fn default_mutter_connector(
    monitors: &Vec<PhysicalMonitor>,
    regions: &Vec<LogicalMonitor>,
) -> (connector: Option<String>)
    ensures
        text_view(connector) == default_connector(monitors@, regions@),
{
    let primary: usize = find_primary(regions);
    let laid_out = if primary < regions.len() {
        connector_at(regions, primary)
    } else {
        connector_at(regions, 0)
    };
    match laid_out {
        Some(connector) => Some(connector),
        None => {
            if monitors.len() > 0 {
                Some(monitors[0].connector.clone())
            } else {
                None
            }
        },
    }
}

/// The connectors of all regions, in their order.
pub open spec fn laid_out_connectors(regions: Seq<LogicalMonitor>) -> Seq<Seq<char>>
    decreases regions.len(),
{
    if regions.len() == 0 {
        Seq::empty()
    } else {
        laid_out_connectors(regions.drop_last()) + texts_view(regions.last().connectors@)
    }
}

/// The connectors of all monitors, in their order.
pub open spec fn monitor_connectors(monitors: Seq<PhysicalMonitor>) -> Seq<Seq<char>> {
    Seq::new(monitors.len(), |i: int| monitors[i].connector@)
}

/// A text.
pub open spec fn is_text(wanted: Seq<char>) -> spec_fn(Seq<char>) -> bool {
    |text: Seq<char>| text == wanted
}

/// Texts with a wanted one swapped to the front.
pub open spec fn with_first(texts: Seq<Seq<char>>, wanted: Seq<char>) -> Seq<Seq<char>> {
    let at = first_where(texts, is_text(wanted));
    if at < texts.len() {
        texts.update(0, texts[at]).update(at, texts[0])
    } else {
        texts
    }
}

/// Texts without those that repeat the one before.
pub open spec fn without_repetition(texts: Seq<Seq<char>>) -> Seq<Seq<char>>
    decreases texts.len(),
{
    if texts.len() <= 1 {
        texts
    } else {
        let before = without_repetition(texts.drop_last());
        if before.last() == texts.last() {
            before
        } else {
            before.push(texts.last())
        }
    }
}

/// The connectors that can be captured, the primary one first.
pub open spec fn listed_connectors(
    monitors: Seq<PhysicalMonitor>,
    regions: Seq<LogicalMonitor>,
) -> Seq<Seq<char>> {
    let laid_out = laid_out_connectors(regions);
    let ordered = match primary_connector(regions) {
        Some(primary) => with_first(laid_out, primary),
        None => laid_out,
    };
    without_repetition(
        if ordered.len() == 0 {
            monitor_connectors(monitors)
        } else {
            ordered
        },
    )
}

fn find_text(texts: &Vec<String>, wanted: &str) -> (at: usize)
    ensures
        at == first_where(texts_view(texts@), is_text(wanted@)),
        at <= texts@.len(),
{
    let ghost views = texts_view(texts@);
    let count: usize = texts.len();
    let mut at: usize = 0;
    while at < count && !texts_equal(texts[at].as_str(), wanted)
        invariant
            at <= count == texts@.len(),
            views == texts_view(texts@),
            forall|k: int| 0 <= k < at ==> !is_text(wanted@)(#[trigger] views[k]),
        decreases count - at,
    {
        at += 1;
    }
    proof {
        lemma_first_where(views, is_text(wanted@), at as int);
    }
    at
}

fn drop_repetition(texts: &Vec<String>) -> (kept: Vec<String>)
    ensures
        texts_view(kept@) == without_repetition(texts_view(texts@)),
{
    let ghost views = texts_view(texts@);
    let mut kept: Vec<String> = Vec::new();
    let count: usize = texts.len();
    let mut i: usize = 0;
    assert(texts_view(kept@) =~= without_repetition(views.take(0)));
    while i < count
        invariant
            i <= count == texts@.len(),
            views == texts_view(texts@),
            texts_view(kept@) == without_repetition(views.take(i as int)),
            i > 0 ==> kept@.len() > 0,
        decreases count - i,
    {
        let ghost before = texts_view(kept@);
        assert(views.take(i + 1).drop_last() =~= views.take(i as int));
        assert(views.take(i + 1).last() == texts@[i as int]@);
        let kept_count: usize = kept.len();
        let repeats = kept_count > 0 && texts_equal(
            kept[kept_count - 1].as_str(),
            texts[i].as_str(),
        );
        if !repeats {
            kept.push(texts[i].clone());
            assert(texts_view(kept@) =~= before.push(views[i as int]));
        }
        assert(i == 0 ==> views.take(1) =~= before.push(views[0]));
        i += 1;
    }
    assert(views.take(count as int) =~= views);
    kept
}

/// Lists the connectors that can be captured, the primary one first. Only what is laid out
/// can be; where nothing is, every connected monitor is listed.
pub fn list_mutter_connectors(
    monitors: &Vec<PhysicalMonitor>,
    regions: &Vec<LogicalMonitor>,
) -> (connectors: Vec<String>)
    ensures
        texts_view(connectors@) == listed_connectors(monitors@, regions@),
{
    let mut connectors: Vec<String> = Vec::new();
    let count: usize = regions.len();
    let mut i: usize = 0;
    assert(texts_view(connectors@) =~= laid_out_connectors(regions@.take(0)));
    while i < count
        invariant
            i <= count == regions@.len(),
            texts_view(connectors@) == laid_out_connectors(regions@.take(i as int)),
        decreases count - i,
    {
        let ghost before = texts_view(connectors@);
        let ghost region = regions@[i as int].connectors@;
        assert(regions@.take(i + 1).drop_last() =~= regions@.take(i as int));
        let length: usize = regions[i].connectors.len();
        let mut j: usize = 0;
        assert(before + texts_view(region.take(0)) =~= before);
        while j < length
            invariant
                i < regions@.len(),
                region == regions@[i as int].connectors@,
                j <= length == region.len(),
                texts_view(connectors@) == before + texts_view(region.take(j as int)),
            decreases length - j,
        {
            let ghost done = connectors@;
            connectors.push(regions[i].connectors[j].clone());
            assert(texts_view(connectors@) =~= texts_view(done).push(region[j as int]@));
            assert(texts_view(connectors@) =~= before + texts_view(region.take(j + 1)));
            j += 1;
        }
        assert(region.take(length as int) =~= region);
        i += 1;
    }
    assert(regions@.take(count as int) =~= regions@);
    let primary: usize = find_primary(regions);
    match connector_at(regions, primary) {
        Some(wanted) => {
            let at: usize = find_text(&connectors, wanted.as_str());
            if at < connectors.len() {
                let ghost before = texts_view(connectors@);
                let front = connectors[0].clone();
                let chosen = connectors[at].clone();
                connectors[0] = chosen;
                connectors[at] = front;
                assert(texts_view(connectors@) =~= before.update(0, before[at as int]).update(
                    at as int,
                    before[0],
                ));
            }
        },
        None => {},
    }
    if connectors.len() == 0 {
        let monitor_count: usize = monitors.len();
        let mut k: usize = 0;
        while k < monitor_count
            invariant
                k <= monitor_count == monitors@.len(),
                texts_view(connectors@) == monitor_connectors(monitors@).take(k as int),
            decreases monitor_count - k,
        {
            let ghost before = texts_view(connectors@);
            connectors.push(monitors[k].connector.clone());
            assert(texts_view(connectors@) =~= before.push(monitors@[k as int].connector@));
            assert(texts_view(connectors@) =~= monitor_connectors(monitors@).take(k + 1));
            k += 1;
        }
        assert(texts_view(connectors@) =~= monitor_connectors(monitors@));
    }
    drop_repetition(&connectors)
}

/// A monitor with some connector.
pub open spec fn with_connector(connector: Seq<char>) -> spec_fn(PhysicalMonitor) -> bool {
    |monitor: PhysicalMonitor| monitor.connector@ == connector
}

/// A line of the monitor list.
pub open spec fn monitor_words(
    connector: Seq<char>,
    monitors: Seq<PhysicalMonitor>,
    regions: Seq<LogicalMonitor>,
) -> Seq<char> {
    let at = first_where(monitors, with_connector(connector));
    connector + "\t"@ + (if at < monitors.len() {
        monitors[at].vendor@ + " "@ + monitors[at].product@
    } else {
        Seq::empty()
    }) + (if primary_connector(regions) == Some(connector) {
        " (primary)"@
    } else {
        Seq::empty()
    })
}

/// A line of the monitor list: connector, maker and model, and whether it is the primary
/// one.
pub fn monitor_line(
    connector: &str,
    monitors: &Vec<PhysicalMonitor>,
    regions: &Vec<LogicalMonitor>,
) -> (line: String)
    ensures
        line@ == monitor_words(connector@, monitors@, regions@),
{
    let ghost wanted = with_connector(connector@);
    let count: usize = monitors.len();
    let mut at: usize = 0;
    while at < count && !texts_equal(monitors[at].connector.as_str(), connector)
        invariant
            at <= count == monitors@.len(),
            wanted == with_connector(connector@),
            forall|k: int| 0 <= k < at ==> !wanted(#[trigger] monitors@[k]),
        decreases count - at,
    {
        at += 1;
    }
    proof {
        lemma_first_where(monitors@, wanted, at as int);
    }
    let mut line = String::new();
    append(&mut line, connector);
    append(&mut line, "\t");
    if at < count {
        append(&mut line, monitors[at].vendor.as_str());
        append(&mut line, " ");
        append(&mut line, monitors[at].product.as_str());
    }
    let primary = match connector_at(regions, find_primary(regions)) {
        Some(primary) => texts_equal(primary.as_str(), connector),
        None => false,
    };
    if primary {
        append(&mut line, " (primary)");
    }
    assert(line@ =~= monitor_words(connector@, monitors@, regions@));
    line
}

/// The monitor that the compositor is asked to record: the one that was named, without
/// surrounding white space, or else the default one, which is discovered. Only monitors can
/// be recorded.
pub fn requested_connector(mode: PortalSourceMode, monitor_name: &Option<String>) -> (result:
    Result<Option<String>, PortalError>)
    ensures
        match result {
            Err(error) => error == PortalError::MonitorRequired && mode
                != PortalSourceMode::Monitor,
            Ok(name) => {
                &&& mode == PortalSourceMode::Monitor
                &&& text_view(name) == match text_view(*monitor_name) {
                    Some(text) => if trimmed(text).len() > 0 {
                        Some(trimmed(text))
                    } else {
                        None
                    },
                    None => None,
                }
            },
        },
{
    if mode != PortalSourceMode::Monitor {
        return Err(PortalError::MonitorRequired);
    }
    match monitor_name {
        None => Ok(None),
        Some(name) => {
            let inner = trim(name.as_str());
            if inner.as_str().is_empty() {
                Ok(None)
            } else {
                Ok(Some(inner))
            }
        },
    }
}

/// Whether the compositor's interface marks recordings.
pub fn marks_recordings(version: i32) -> (marks: bool)
    ensures
        marks == (version >= 4),
{
    version >= 4
}

/// A property with some key.
pub open spec fn with_key(key: Seq<char>) -> spec_fn((String, String)) -> bool {
    |pair: (String, String)| pair.0@ == key
}

/// The value of the first property with a key.
pub open spec fn property(props: Seq<(String, String)>, key: Seq<char>) -> Option<Seq<char>> {
    let at = first_where(props, with_key(key));
    if at < props.len() {
        Some(props[at].1@)
    } else {
        None
    }
}

/// The value of the first property with a key.
pub fn prop_value<'a>(props: &'a Vec<(String, String)>, key: &str) -> (value: Option<&'a str>)
    ensures
        match value {
            Some(value) => property(props@, key@) == Some(value@),
            None => property(props@, key@) is None,
        },
{
    let ghost wanted = with_key(key@);
    let count: usize = props.len();
    let mut at: usize = 0;
    while at < count && !texts_equal(props[at].0.as_str(), key)
        invariant
            at <= count == props@.len(),
            wanted == with_key(key@),
            forall|k: int| 0 <= k < at ==> !wanted(#[trigger] props@[k]),
        decreases count - at,
    {
        at += 1;
    }
    proof {
        lemma_first_where(props@, wanted, at as int);
    }
    if at < count {
        Some(props[at].1.as_str())
    } else {
        None
    }
}

/// A node of the capture server.
#[derive(Debug)]
pub struct PipewireNode {
    /// Its number.
    pub id: u32,
    /// Its properties.
    pub props: Vec<(String, String)>,
}

/// A node with some number.
pub open spec fn with_id(id: u32) -> spec_fn(PipewireNode) -> bool {
    |node: PipewireNode| node.id == id
}

/// The node that a capture connects to: the one with the number, or else the only one.
pub open spec fn selected_node(nodes: Seq<PipewireNode>, node_id: u32) -> Option<int> {
    let at = first_where(nodes, with_id(node_id));
    if at < nodes.len() {
        Some(at)
    } else if nodes.len() == 1 {
        Some(0int)
    } else {
        None
    }
}

/// What a node is found by: its serial, else its name, else its path.
pub open spec fn target_of(props: Seq<(String, String)>) -> Option<Seq<char>> {
    let serial = property(props, "object.serial"@);
    let name = property(props, "node.name"@);
    if serial is Some {
        serial
    } else if name is Some {
        name
    } else {
        property(props, "object.path"@)
    }
}

/// The node that a capture connects to and what it is found by.
pub fn select_target(nodes: &Vec<PipewireNode>, node_id: u32) -> (result: Option<
    (usize, Option<String>),
>)
    ensures
        match result {
            None => selected_node(nodes@, node_id) is None,
            Some((at, target)) => {
                &&& selected_node(nodes@, node_id) == Some(at as int)
                &&& text_view(target) == target_of(nodes@[at as int].props@)
            },
        },
{
    let ghost wanted = with_id(node_id);
    let count: usize = nodes.len();
    let mut at: usize = 0;
    while at < count && nodes[at].id != node_id
        invariant
            at <= count == nodes@.len(),
            wanted == with_id(node_id),
            forall|k: int| 0 <= k < at ==> !wanted(#[trigger] nodes@[k]),
        decreases count - at,
    {
        at += 1;
    }
    proof {
        lemma_first_where(nodes@, wanted, at as int);
    }
    let chosen: usize = if at < count {
        at
    } else if count == 1 {
        0
    } else {
        return None;
    };
    let props = &nodes[chosen].props;
    let target: Option<String> = match prop_value(props, "object.serial") {
        Some(value) => Some(copy_text(value)),
        None => match prop_value(props, "node.name") {
            Some(value) => Some(copy_text(value)),
            None => match prop_value(props, "object.path") {
                Some(value) => Some(copy_text(value)),
                None => None,
            },
        },
    };
    Some((chosen, target))
}

fn copy_text(text: &str) -> (copy: String)
    ensures
        copy@ == text@,
{
    let mut copy = String::new();
    append(&mut copy, text);
    assert(copy@ =~= text@);
    copy
}

/// Whether a text comes no later than another in the order of its characters.
pub open spec fn comes_first(a: Seq<char>, b: Seq<char>) -> bool
    decreases a.len(),
{
    if a.len() == 0 {
        true
    } else if b.len() == 0 {
        false
    } else if a.first() != b.first() {
        (a.first() as u32) < (b.first() as u32)
    } else {
        comes_first(a.drop_first(), b.drop_first())
    }
}

/// Texts by the order of their characters.
pub open spec fn alphabetical() -> spec_fn(Seq<char>, Seq<char>) -> bool {
    |a: Seq<char>, b: Seq<char>| comes_first(a, b)
}

/// Owned texts by the order of their characters.
pub open spec fn alphabetical_items() -> spec_fn(String, String) -> bool {
    |a: String, b: String| comes_first(a@, b@)
}

fn text_comes_first(a: &String, b: &String) -> (first: bool)
    ensures
        first == alphabetical_items()(*a, *b),
{
    let left = chars_of(a.as_str());
    let right = chars_of(b.as_str());
    let (left_len, right_len): (usize, usize) = (left.len(), right.len());
    let mut i: usize = 0;
    assert(left@.skip(0) =~= left@);
    assert(right@.skip(0) =~= right@);
    while i < left_len
        invariant
            left@ == a@,
            right@ == b@,
            left_len == left@.len(),
            right_len == right@.len(),
            i <= left_len,
            i <= right_len,
            comes_first(left@.skip(i as int), right@.skip(i as int)) == comes_first(a@, b@),
        decreases left_len - i,
    {
        if i >= right_len {
            return false;
        }
        let (x, y): (u32, u32) = (left[i] as u32, right[i] as u32);
        assert(left@.skip(i as int).first() == left@[i as int]);
        assert(right@.skip(i as int).first() == right@[i as int]);
        if left[i] != right[i] {
            return x < y;
        }
        assert(left@.skip(i as int).drop_first() =~= left@.skip(i + 1));
        assert(right@.skip(i as int).drop_first() =~= right@.skip(i + 1));
        i += 1;
    }
    true
}

/// A property in words.
pub open spec fn pair_words() -> spec_fn((String, String)) -> Seq<char> {
    |pair: (String, String)| pair.0@ + "="@ + pair.1@
}

/// Texts joined by commas.
pub open spec fn joined(texts: Seq<Seq<char>>) -> Seq<char>
    decreases texts.len(),
{
    if texts.len() == 0 {
        Seq::empty()
    } else if texts.len() == 1 {
        texts[0]
    } else {
        joined(texts.drop_last()) + ", "@ + texts.last()
    }
}

/// What one text stands for.
pub open spec fn text_image() -> spec_fn(String) -> Seq<char> {
    |text: String| text@
}

fn join(texts: &Vec<String>) -> (text: String)
    ensures
        text@ == joined(texts@.map_values(text_image())),
{
    let ghost views = texts@.map_values(text_image());
    let mut text = String::new();
    let count: usize = texts.len();
    let mut i: usize = 0;
    assert(text@ =~= joined(views.take(0)));
    while i < count
        invariant
            i <= count == texts@.len(),
            views == texts@.map_values(text_image()),
            text@ == joined(views.take(i as int)),
        decreases count - i,
    {
        let ghost before = text@;
        assert(views.take(i + 1).drop_last() =~= views.take(i as int));
        if i > 0 {
            append(&mut text, ", ");
        }
        append(&mut text, texts[i].as_str());
        proof {
            if i > 0 {
                assert(text@ =~= before + ", "@ + views[i as int]);
            } else {
                assert(before =~= Seq::empty());
                assert(text@ =~= views[0]);
            }
        }
        i += 1;
    }
    assert(views.take(count as int) =~= views);
    text
}

/// Properties in words, in alphabetical order.
pub fn format_prop_pairs(props: &Vec<(String, String)>) -> (text: String)
    ensures
        text@ == joined(stable_sorted(props@.map_values(pair_words()), alphabetical())),
{
    let mut entries: Vec<String> = Vec::new();
    let count: usize = props.len();
    let mut i: usize = 0;
    while i < count
        invariant
            i <= count == props@.len(),
            entries@.len() == i,
            forall|k: int| 0 <= k < i ==> (#[trigger] entries@[k])@ == pair_words()(props@[k]),
        decreases count - i,
    {
        let mut entry = String::new();
        append(&mut entry, props[i].0.as_str());
        append(&mut entry, "=");
        append(&mut entry, props[i].1.as_str());
        assert(entry@ =~= pair_words()(props@[i as int]));
        entries.push(entry);
        i += 1;
    }
    assert(entries@.map_values(text_image()) =~= props@.map_values(pair_words()));
    proof {
        crate::order::lemma_sorted_images(
            entries@,
            text_image(),
            alphabetical_items(),
            alphabetical(),
        );
    }
    let sorted = stable_sort(entries, text_comes_first, Ghost(alphabetical_items()));
    join(&sorted)
}

/// The primary monitor is listed first.
pub proof fn primary_monitor_comes_first(
    monitors: Seq<PhysicalMonitor>,
    regions: Seq<LogicalMonitor>,
)
    requires
        primary_connector(regions) is Some,
    ensures
        listed_connectors(monitors, regions).len() > 0,
        listed_connectors(monitors, regions)[0] == primary_connector(regions)->0,
{
    let primary = primary_connector(regions)->0;
    let laid_out = laid_out_connectors(regions);
    let region = first_where(regions, primary_region());
    lemma_first_connector_is_laid_out(regions, region);
    let k = choose|k: int| 0 <= k < laid_out.len() && laid_out[k] == primary;
    crate::order::lemma_first_where_means(laid_out, is_text(primary));
    assert(is_text(primary)(laid_out[k]));
    let ordered = with_first(laid_out, primary);
    assert(ordered[0] == primary);
    lemma_repetition_keeps_the_first(ordered);
}

proof fn lemma_first_connector_is_laid_out(regions: Seq<LogicalMonitor>, at: int)
    requires
        0 <= at < regions.len(),
        regions[at].connectors@.len() > 0,
    ensures
        laid_out_connectors(regions).contains(regions[at].connectors@[0]@),
    decreases regions.len(),
{
    let before = laid_out_connectors(regions.drop_last());
    let last = texts_view(regions.last().connectors@);
    let wanted = regions[at].connectors@[0]@;
    if at < regions.len() - 1 {
        lemma_first_connector_is_laid_out(regions.drop_last(), at);
        let k = choose|k: int| 0 <= k < before.len() && before[k] == wanted;
        assert((before + last)[k] == wanted);
    } else {
        assert((before + last)[before.len() as int] == wanted);
    }
}

proof fn lemma_repetition_keeps_the_first(texts: Seq<Seq<char>>)
    requires
        texts.len() > 0,
    ensures
        without_repetition(texts).len() > 0,
        without_repetition(texts)[0] == texts[0],
    decreases texts.len(),
{
    if texts.len() > 1 {
        lemma_repetition_keeps_the_first(texts.drop_last());
    }
}

} // verus!
