//! What a publisher does when it starts: limits and options checked, identity resolved,
//! capture targets chosen and labelled.

use vstd::prelude::*;

use crate::identity::{sanitize_source_label, source_label, text_view};
use crate::text::{append, decimal_text, format_u64, trim, trimmed};

verus! {

/// Bytes of content whose group keys a publisher keeps by default.
pub const DEFAULT_HISTORY_BYTES: u64 = 104_857_600;

/// Seconds for which a publisher keeps group keys by default.
pub const DEFAULT_HISTORY_SECONDS: u64 = 86_400;

/// Why a publisher does not start.
#[derive(Clone, Copy, Debug, PartialEq, Eq, Structural)]
pub enum StartupError {
    /// A history limit is zero.
    HistoryNotPositive,
    /// Streams are always encrypted end to end.
    EncryptionRequired,
    /// There is no shared viewer key to print.
    NoViewerKeyToPrint,
    /// The client name is empty.
    EmptyClientId,
    /// The relay key does not decode.
    ServerKeyInvalid,
    /// The viewer key is empty.
    EmptyViewerKey,
    /// The viewer key phrase is empty.
    EmptyViewerKeyPhrase,
    /// The display name is empty.
    EmptyDisplayName,
    /// The address of the viewer page is empty.
    EmptyViewerUrl,
    /// Monitors can be named only where the compositor's own interface is used.
    MonitorNameNeedsCompositor,
    /// There is no connected monitor.
    NoMonitor,
}

/// How much key history a publisher keeps.
#[derive(Clone, Copy, Debug, PartialEq, Eq, Structural)]
pub struct HistoryLimits {
    /// Bytes of content.
    pub bytes: u64,
    /// Age in seconds.
    pub seconds: u64,
}

/// The first of two values that is there, or a default.
pub open spec fn first_of(a: Option<u64>, b: Option<u64>, default: u64) -> u64 {
    match a {
        Some(value) => value,
        None => match b {
            Some(value) => value,
            None => default,
        },
    }
}

fn first_given(a: Option<u64>, b: Option<u64>, default: u64) -> (value: u64)
    ensures
        value == first_of(a, b, default),
{
    match a {
        Some(value) => value,
        None => match b {
            Some(value) => value,
            None => default,
        },
    }
}

/// Options of the command line that decide what a start does.
#[derive(Clone, Copy, Debug)]
pub struct StartupOptions {
    /// History bytes from the command line.
    pub history_bytes: Option<u64>,
    /// History seconds from the command line.
    pub history_seconds: Option<u64>,
    /// Publish in the clear.
    pub no_encryption: bool,
    /// Print a shared viewer key.
    pub print_viewer_key: bool,
    /// List monitors and exit.
    pub list_monitors: bool,
    /// Stop a running publisher and exit.
    pub daemon_stop: bool,
    /// Ask a running publisher for its state and exit.
    pub daemon_status: bool,
    /// Stay attached.
    pub foreground: bool,
    /// This is the detached process.
    pub daemon_child: bool,
}

/// What a start does.
#[derive(Clone, Copy, Debug, PartialEq, Eq, Structural)]
pub enum StartupAction {
    /// List monitors and exit.
    ListMonitors,
    /// Send a running publisher the signal to stop and exit.
    StopDaemon,
    /// Ask a running publisher for its state and exit.
    DaemonStatus,
    /// Publish.
    Publish {
        /// Whether to go to the background first.
        detach: bool,
    },
}

/// The history limits that apply: of the command line, else of the configuration, else the
/// defaults.
pub open spec fn history_limits_of(
    options: StartupOptions,
    config_bytes: Option<u64>,
    config_seconds: Option<u64>,
) -> HistoryLimits {
    HistoryLimits {
        bytes: first_of(options.history_bytes, config_bytes, DEFAULT_HISTORY_BYTES),
        seconds: first_of(options.history_seconds, config_seconds, DEFAULT_HISTORY_SECONDS),
    }
}

/// Checks the options of a start and says what it does. The first objection counts.
pub fn startup_action(
    options: &StartupOptions,
    config_history_bytes: Option<u64>,
    config_history_seconds: Option<u64>,
) -> (result: Result<(HistoryLimits, StartupAction), StartupError>)
    ensures
        ({
            let limits = history_limits_of(*options, config_history_bytes, config_history_seconds);
            result == if limits.bytes == 0 || limits.seconds == 0 {
                Err::<(HistoryLimits, StartupAction), StartupError>(
                    StartupError::HistoryNotPositive,
                )
            } else if options.no_encryption {
                Err::<(HistoryLimits, StartupAction), StartupError>(
                    StartupError::EncryptionRequired,
                )
            } else if options.print_viewer_key {
                Err::<(HistoryLimits, StartupAction), StartupError>(
                    StartupError::NoViewerKeyToPrint,
                )
            } else {
                Ok::<(HistoryLimits, StartupAction), StartupError>(
                    (
                        limits,
                        if options.list_monitors {
                            StartupAction::ListMonitors
                        } else if options.daemon_stop {
                            StartupAction::StopDaemon
                        } else if options.daemon_status {
                            StartupAction::DaemonStatus
                        } else {
                            StartupAction::Publish {
                                detach: !options.foreground && !options.daemon_child,
                            }
                        },
                    ),
                )
            }
        }),
{
    let limits = HistoryLimits {
        bytes: first_given(options.history_bytes, config_history_bytes, DEFAULT_HISTORY_BYTES),
        seconds: first_given(
            options.history_seconds,
            config_history_seconds,
            DEFAULT_HISTORY_SECONDS,
        ),
    };
    if limits.bytes == 0 || limits.seconds == 0 {
        return Err(StartupError::HistoryNotPositive);
    }
    if options.no_encryption {
        return Err(StartupError::EncryptionRequired);
    }
    if options.print_viewer_key {
        return Err(StartupError::NoViewerKeyToPrint);
    }
    let action = if options.list_monitors {
        StartupAction::ListMonitors
    } else if options.daemon_stop {
        StartupAction::StopDaemon
    } else if options.daemon_status {
        StartupAction::DaemonStatus
    } else {
        StartupAction::Publish { detach: !options.foreground && !options.daemon_child }
    };
    Ok((limits, action))
}

/// Identity settings of the command line or of the configuration file.
#[derive(Debug)]
pub struct IdentitySettings {
    /// Name of the publisher.
    pub client_id: Option<String>,
    /// Token for a relay that asks for one.
    pub ingest_token: Option<String>,
    /// Encoded transport key of the relay.
    pub ingest_server_key: Option<String>,
    /// Encoded viewer key.
    pub viewer_key: Option<String>,
    /// Viewer key phrase.
    pub viewer_key_phrase: Option<String>,
    /// Name shown to viewers.
    pub display_name: Option<String>,
    /// Address of the viewer page.
    pub viewer_url: Option<String>,
}

/// Where a viewer key comes from.
#[derive(Debug)]
pub enum ViewerKeyPlan {
    /// There is none.
    Absent,
    /// The encoded key that was given.
    Raw(String),
    /// The phrase that was given, with the salt of the key file where one is kept.
    Phrase(String),
    /// The key file.
    File,
}

/// Where a generated viewer key is kept.
#[derive(Debug)]
pub enum KeyFilePlan {
    /// Nowhere.
    Unkept,
    /// In the file that was named.
    Given(String),
    /// In the default file of the publisher.
    Standard,
}

/// A publisher's identity before its keys are decoded.
#[derive(Debug)]
pub struct IdentityPlan {
    /// Name of the publisher.
    pub client_id: String,
    /// Token for a relay that asks for one.
    pub auth_token: Option<String>,
    /// Encoded transport key of the relay.
    pub server_key: Option<String>,
    /// Where the viewer key comes from.
    pub viewer_key: ViewerKeyPlan,
    /// Where a generated viewer key is kept.
    pub key_file: KeyFilePlan,
    /// Name shown to viewers.
    pub display_name: String,
    /// Address of the viewer page.
    pub viewer_url: Option<String>,
}

/// The setting of the command line, else that of the configuration.
pub open spec fn setting(option: Option<String>, config: Option<String>) -> Option<Seq<char>> {
    match option {
        Some(text) => Some(text@),
        None => text_view(config),
    }
}

fn chosen(option: &Option<String>, config: &Option<String>) -> (text: Option<String>)
    ensures
        text_view(text) == setting(*option, *config),
{
    match option {
        Some(text) => Some(text.clone()),
        None => match config {
            Some(text) => Some(text.clone()),
            None => None,
        },
    }
}

/// A setting that is there but blank.
pub open spec fn is_blank(text: Option<Seq<char>>) -> bool {
    text matches Some(value) && trimmed(value).len() == 0
}

/// A setting without surrounding white space.
pub open spec fn trimmed_setting(text: Option<Seq<char>>) -> Option<Seq<char>> {
    match text {
        Some(value) => Some(trimmed(value)),
        None => None,
    }
}

/// Trims a setting; the flag says that it is there but blank.
fn trim_setting(text: Option<String>) -> (result: (Option<String>, bool))
    ensures
        text_view(result.0) == trimmed_setting(text_view(text)),
        result.1 == is_blank(text_view(text)),
{
    match text {
        Some(value) => {
            let inner = trim(value.as_str());
            let blank: bool = inner.as_str().is_empty();
            (Some(inner), blank)
        },
        None => (None, false),
    }
}

/// Resolves who a publisher is: settings of the command line take precedence over those of
/// the configuration, the host's name and a standard name fill in.
///
/// `server_key_valid` says whether the chosen relay key decodes.
pub fn resolve_client_identity(
    options: &IdentitySettings,
    config: &IdentitySettings,
    hostname: String,
    no_viewer_key: bool,
    viewer_key_file: &Option<String>,
    server_key_valid: bool,
) -> (result: Result<IdentityPlan, StartupError>)
    ensures
        ({
            let client_id = match setting(options.client_id, config.client_id) {
                Some(name) => name,
                None => hostname@,
            };
            let token = trimmed_setting(setting(options.ingest_token, config.ingest_token));
            let server_key = setting(options.ingest_server_key, config.ingest_server_key);
            let viewer_key = setting(options.viewer_key, config.viewer_key);
            let phrase = setting(options.viewer_key_phrase, config.viewer_key_phrase);
            let display_name = match setting(options.display_name, config.display_name) {
                Some(name) => name,
                None => "Glacialcast client"@,
            };
            let viewer_url = setting(options.viewer_url, config.viewer_url);
            let keeps_file = !no_viewer_key && viewer_key is None;
            match result {
                Err(error) => {
                    ||| error == StartupError::EmptyClientId && trimmed(client_id).len() == 0
                    ||| trimmed(client_id).len() > 0 && {
                        ||| error == StartupError::ServerKeyInvalid && server_key is Some
                            && !server_key_valid
                        ||| (server_key is Some ==> server_key_valid) && {
                            ||| error == StartupError::EmptyViewerKey && is_blank(viewer_key)
                            ||| !is_blank(viewer_key) && {
                                ||| error == StartupError::EmptyViewerKeyPhrase && is_blank(phrase)
                                ||| !is_blank(phrase) && {
                                    ||| error == StartupError::EmptyDisplayName && trimmed(
                                        display_name,
                                    ).len() == 0
                                    ||| error == StartupError::EmptyViewerUrl && trimmed(
                                        display_name,
                                    ).len() > 0 && is_blank(viewer_url)
                                }
                            }
                        }
                    }
                },
                Ok(plan) => {
                    &&& trimmed(client_id).len() > 0
                    &&& server_key is Some ==> server_key_valid
                    &&& !is_blank(viewer_key)
                    &&& !is_blank(phrase)
                    &&& trimmed(display_name).len() > 0
                    &&& !is_blank(viewer_url)
                    &&& plan.client_id@ == trimmed(client_id)
                    &&& text_view(plan.auth_token) == if token matches Some(text) && text.len()
                        > 0 {
                        token
                    } else {
                        None
                    }
                    &&& text_view(plan.server_key) == server_key
                    &&& plan.display_name@ == trimmed(display_name)
                    &&& text_view(plan.viewer_url) == trimmed_setting(viewer_url)
                    &&& match plan.viewer_key {
                        ViewerKeyPlan::Raw(key) => viewer_key is Some && key@ == trimmed(
                            viewer_key->0,
                        ),
                        ViewerKeyPlan::Phrase(text) => viewer_key is None && phrase is Some
                            && text@ == trimmed(phrase->0),
                        ViewerKeyPlan::File => viewer_key is None && phrase is None && keeps_file,
                        ViewerKeyPlan::Absent => viewer_key is None && phrase is None
                            && !keeps_file,
                    }
                    &&& match plan.key_file {
                        KeyFilePlan::Unkept => !keeps_file,
                        KeyFilePlan::Given(path) => keeps_file && text_view(*viewer_key_file)
                            == Some(path@),
                        KeyFilePlan::Standard => keeps_file && viewer_key_file is None,
                    }
                },
            }
        }),
{
    let named = chosen(&options.client_id, &config.client_id);
    let client_id = trim(
        match named {
            Some(name) => name,
            None => hostname,
        }.as_str(),
    );
    if client_id.as_str().is_empty() {
        return Err(StartupError::EmptyClientId);
    }
    let (token, blank_token) = trim_setting(chosen(&options.ingest_token, &config.ingest_token));
    let auth_token: Option<String> = if blank_token {
        None
    } else {
        token
    };
    let server_key = chosen(&options.ingest_server_key, &config.ingest_server_key);
    if server_key.is_some() && !server_key_valid {
        return Err(StartupError::ServerKeyInvalid);
    }
    let (viewer_key, blank_key) = trim_setting(chosen(&options.viewer_key, &config.viewer_key));
    if blank_key {
        return Err(StartupError::EmptyViewerKey);
    }
    let key_file = if no_viewer_key || viewer_key.is_some() {
        KeyFilePlan::Unkept
    } else {
        match viewer_key_file {
            Some(path) => KeyFilePlan::Given(path.clone()),
            None => KeyFilePlan::Standard,
        }
    };
    let (phrase, blank_phrase) = trim_setting(
        chosen(&options.viewer_key_phrase, &config.viewer_key_phrase),
    );
    if blank_phrase {
        return Err(StartupError::EmptyViewerKeyPhrase);
    }
    let viewer_key_plan = match (viewer_key, phrase) {
        (Some(key), _) => ViewerKeyPlan::Raw(key),
        (None, Some(text)) => ViewerKeyPlan::Phrase(text),
        (None, None) => if no_viewer_key {
            ViewerKeyPlan::Absent
        } else {
            ViewerKeyPlan::File
        },
    };
    let shown = chosen(&options.display_name, &config.display_name);
    let display_name = match shown {
        Some(name) => trim(name.as_str()),
        None => trim("Glacialcast client"),
    };
    if display_name.as_str().is_empty() {
        return Err(StartupError::EmptyDisplayName);
    }
    let (viewer_url, blank_url) = trim_setting(chosen(&options.viewer_url, &config.viewer_url));
    if blank_url {
        return Err(StartupError::EmptyViewerUrl);
    }
    Ok(
        IdentityPlan {
            client_id,
            auth_token,
            server_key,
            viewer_key: viewer_key_plan,
            key_file,
            display_name,
            viewer_url,
        },
    )
}

/// Which interface opens a screen capture.
#[derive(Clone, Copy, Debug, PartialEq, Eq, Structural)]
pub enum ScreenCastBackend {
    /// Whichever fits the desktop.
    Auto,
    /// The desktop portal.
    Portal,
    /// The compositor's own interface.
    Mutter,
}

/// What a publisher captures.
#[derive(Clone, Copy, Debug, PartialEq, Eq, Structural)]
pub enum CaptureMode {
    /// A generated pattern.
    Test,
    /// The desktop.
    Wayland,
}

/// Where a publisher's capture targets come from.
#[derive(Clone, Copy, Debug, PartialEq, Eq, Structural)]
pub enum TargetPlan {
    /// One target without a label.
    Single,
    /// What the portal's dialog grants.
    PortalSelection,
    /// Every connected monitor.
    AllMonitors,
    /// The primary monitor.
    PrimaryMonitor,
    /// The monitors that were named.
    NamedMonitors,
}

/// Decides where capture targets come from. `backend` is the interface once it is
/// resolved.
pub fn plan_targets(
    capture: CaptureMode,
    backend: ScreenCastBackend,
    monitor_names: usize,
    all_monitors: bool,
) -> (result: Result<TargetPlan, StartupError>)
    ensures
        result == if capture != CaptureMode::Wayland {
            Ok::<TargetPlan, StartupError>(TargetPlan::Single)
        } else if backend != ScreenCastBackend::Mutter {
            if monitor_names > 0 {
                Err::<TargetPlan, StartupError>(StartupError::MonitorNameNeedsCompositor)
            } else {
                Ok::<TargetPlan, StartupError>(TargetPlan::PortalSelection)
            }
        } else if all_monitors {
            Ok::<TargetPlan, StartupError>(TargetPlan::AllMonitors)
        } else if monitor_names == 0 {
            Ok::<TargetPlan, StartupError>(TargetPlan::PrimaryMonitor)
        } else {
            Ok::<TargetPlan, StartupError>(TargetPlan::NamedMonitors)
        },
{
    if capture != CaptureMode::Wayland {
        return Ok(TargetPlan::Single);
    }
    if backend != ScreenCastBackend::Mutter {
        if monitor_names > 0 {
            return Err(StartupError::MonitorNameNeedsCompositor);
        }
        return Ok(TargetPlan::PortalSelection);
    }
    if all_monitors {
        Ok(TargetPlan::AllMonitors)
    } else if monitor_names == 0 {
        Ok(TargetPlan::PrimaryMonitor)
    } else {
        Ok(TargetPlan::NamedMonitors)
    }
}

/// The label of a portal source by its position.
pub open spec fn portal_label(position: int) -> Seq<char> {
    "source-"@ + decimal_text((position + 1) as nat)
}

/// The labels of what a portal granted: none for a single source, which keeps the bare
/// identity, numbered ones for several.
pub fn portal_labels(count: usize) -> (labels: Vec<Option<String>>)
    ensures
        labels@.len() == count,
        forall|i: int|
            0 <= i < count ==> text_view(#[trigger] labels@[i]) == if count > 1 {
                Some(portal_label(i))
            } else {
                None
            },
{
    let mut labels: Vec<Option<String>> = Vec::new();
    let mut i: usize = 0;
    while i < count
        invariant
            i <= count,
            labels@.len() == i,
            forall|k: int|
                0 <= k < i ==> text_view(#[trigger] labels@[k]) == if count > 1 {
                    Some(portal_label(k))
                } else {
                    None
                },
        decreases count - i,
    {
        if count > 1 {
            let mut label = String::new();
            append(&mut label, "source-");
            append(&mut label, format_u64(i as u64 + 1).as_str());
            assert(label@ =~= portal_label(i as int));
            labels.push(Some(label));
        } else {
            labels.push(None);
        }
        i += 1;
    }
    labels
}

/// The labels of compositor connectors: none for a single one, which keeps the bare
/// identity, reduced connector names for several. There must be a connector.
pub fn connector_labels(connectors: &Vec<String>) -> (result: Result<
    Vec<Option<String>>,
    StartupError,
>)
    ensures
        match result {
            Err(error) => error == StartupError::NoMonitor && connectors@.len() == 0,
            Ok(labels) => {
                &&& connectors@.len() > 0
                &&& labels@.len() == connectors@.len()
                &&& forall|i: int|
                    0 <= i < labels@.len() ==> text_view(#[trigger] labels@[i])
                        == if connectors@.len() > 1 {
                        Some(source_label(connectors@[i]@))
                    } else {
                        None
                    }
            },
        },
{
    let count: usize = connectors.len();
    if count == 0 {
        return Err(StartupError::NoMonitor);
    }
    let mut labels: Vec<Option<String>> = Vec::new();
    let mut i: usize = 0;
    while i < count
        invariant
            i <= count == connectors@.len(),
            labels@.len() == i,
            forall|k: int|
                0 <= k < i ==> text_view(#[trigger] labels@[k]) == if count > 1 {
                    Some(source_label(connectors@[k]@))
                } else {
                    None
                },
        decreases count - i,
    {
        if count > 1 {
            labels.push(Some(sanitize_source_label(connectors[i].as_str())));
        } else {
            labels.push(None);
        }
        i += 1;
    }
    Ok(labels)
}

} // verus!
