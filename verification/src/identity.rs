//! Who a publisher is: options and configuration merged, the viewer key it shares, the
//! names of the files it keeps, and the portal grant it reuses.

use vstd::prelude::*;
use vstd::string::StringSliceAdditionalSpecFns;
use vstd::utf8::encode_utf8;

use crate::client::{
    fragment_text, url_encode_fragment, MAX_PORTAL_RESTORE_TOKEN_LEN, MAX_SOURCE_LABEL_CHARS,
};
use crate::text::{
    append, begins_with, chars_of, contains_char, is_white, lines_of, only, parse_u64, parsed_u64,
    split_lines, starts_with, strip_prefix, texts_view, trim, trim_end_of, trim_end_where, trim_of,
    trim_start_where, trimmed, trimmed_of, white,
};

verus! {

/// Optional text as an optional character sequence.
pub open spec fn text_view(text: Option<String>) -> Option<Seq<char>> {
    match text {
        Some(text) => Some(text@),
        None => None,
    }
}

/// What identifies a publisher to relays and viewers.
#[derive(Debug)]
pub struct ClientIdentity {
    /// Name of the publisher.
    pub client_id: String,
    /// Token presented to a relay that asks for one.
    pub auth_token: Option<String>,
    /// Explicit pin of the relay's transport key.
    pub ingest_server_key: Option<[u8; 32]>,
    /// The viewer key, encoded.
    pub viewer_key_b64: Option<String>,
    /// The viewer key in the form shared with people.
    pub viewer_key_shareable: Option<String>,
    /// Public salt of a key derived from a phrase.
    pub viewer_key_salt_b64: Option<String>,
    /// Name shown to viewers.
    pub display_name: String,
    /// Where a generated viewer key is kept.
    pub viewer_key_file: Option<String>,
    /// Address of the viewer page.
    pub viewer_url: Option<String>,
    /// Configuration that was read.
    pub config_path: Option<String>,
    /// Publish every output.
    pub all_monitors: bool,
}

/// The invitation link of a viewer page and a shareable key.
pub open spec fn link_text(viewer_url: Seq<char>, key: Seq<char>) -> Seq<char> {
    trim_end_where(viewer_url, only('/')) + "/#k="@ + fragment_text(encode_utf8(key))
}

/// Builds the one-click invitation link for a publisher's viewer key.
///
/// The key goes in the fragment, which browsers do not send to the server.
pub fn invite_link(identity: &ClientIdentity) -> (link: Option<String>)
    ensures
        match (identity.viewer_url, identity.viewer_key_shareable) {
            (Some(viewer_url), Some(key)) => link matches Some(text) && text@ == link_text(
                viewer_url@,
                key@,
            ),
            _ => link is None,
        },
{
    match (&identity.viewer_url, &identity.viewer_key_shareable) {
        (Some(viewer_url), Some(key)) => {
            let mut link = trim_end_of(viewer_url.as_str(), '/');
            append(&mut link, "/#k=");
            append(&mut link, url_encode_fragment(key.as_str()).as_str());
            Some(link)
        },
        _ => None,
    }
}

/// A viewer key, in the form shared with people and in the form used as key material.
#[derive(Debug)]
pub struct ViewerKeyMaterial {
    /// The form handed to viewers: a key phrase, or the encoded key itself.
    pub shareable: String,
    /// The encoded key.
    pub key_b64: String,
    /// Public per-publisher salt, present only for a derived key.
    pub salt_b64: Option<String>,
}

impl ViewerKeyMaterial {
    /// Wraps a raw encoded key, which is shared as it is and needs no salt.
    pub fn from_raw_b64(key_b64: String) -> (material: ViewerKeyMaterial)
        ensures
            material.shareable@ == key_b64@,
            material.key_b64@ == key_b64@,
            material.salt_b64 is None,
    {
        ViewerKeyMaterial { shareable: key_b64.clone(), key_b64, salt_b64: None }
    }
}

/// A value without surrounding white space, or the sentence that its field is empty.
pub fn non_empty_trimmed(field: &str, value: String) -> (result: Result<String, String>)
    ensures
        match result {
            Ok(text) => text@ == trimmed(value@) && text@.len() > 0,
            Err(message) => trimmed(value@).len() == 0 && message@ == field@
                + " must not be empty"@,
        },
{
    let text = trim(value.as_str());
    if text.as_str().is_empty() {
        let mut message = String::new();
        append(&mut message, field);
        append(&mut message, " must not be empty");
        assert(message@ =~= field@ + " must not be empty"@);
        Err(message)
    } else {
        Ok(text)
    }
}

/// Why a cursor flush interval was refused.
#[derive(Clone, Copy, Debug, PartialEq, Eq, Structural)]
pub enum CursorFlushError {
    /// The text is no number.
    NotANumber,
    /// The interval is not between 20 and 1000 milliseconds.
    OutOfRange,
}

/// Parses the cursor batch flush interval in milliseconds.
///
/// The lower bound keeps a publisher from turning every cursor sample into an object of
/// its own, and the upper bound keeps live cursor latency bounded.
pub fn parse_cursor_flush_ms(value: &str) -> (result: Result<u64, CursorFlushError>)
    ensures
        result == match parsed_u64(trimmed(value@)) {
            None => Err::<u64, CursorFlushError>(CursorFlushError::NotANumber),
            Some(milliseconds) => if 20 <= milliseconds <= 1000 {
                Ok::<u64, CursorFlushError>(milliseconds)
            } else {
                Err::<u64, CursorFlushError>(CursorFlushError::OutOfRange)
            },
        },
{
    match parse_u64(trim(value).as_str()) {
        None => Err(CursorFlushError::NotANumber),
        Some(milliseconds) => if 20 <= milliseconds && milliseconds <= 1000 {
            Ok(milliseconds)
        } else {
            Err(CursorFlushError::OutOfRange)
        },
    }
}

/// A character that a relay accepts in a label.
pub open spec fn is_label_char(c: char) -> bool {
    ||| 'A' <= c && c <= 'Z'
    ||| 'a' <= c && c <= 'z'
    ||| '0' <= c && c <= '9'
    ||| c == '-'
    ||| c == '_'
}

/// A name with every character that a relay does not accept made a hyphen, cut to the
/// longest label.
pub open spec fn label_chars(name: Seq<char>) -> Seq<char> {
    let kept = if name.len() > MAX_SOURCE_LABEL_CHARS {
        name.take(MAX_SOURCE_LABEL_CHARS as int)
    } else {
        name
    };
    kept.map_values(
        |c: char|
            if is_label_char(c) {
                c
            } else {
                '-'
            },
    )
}

/// The label of a source.
pub open spec fn source_label(name: Seq<char>) -> Seq<char> {
    let label = trimmed_of(label_chars(name), '-');
    if label.len() == 0 {
        "output"@
    } else {
        label
    }
}

/// Reduces a connector name to the characters a relay accepts in a label.
pub fn sanitize_source_label(connector: &str) -> (label: String)
    ensures
        label@ == source_label(connector@),
{
    let chars = chars_of(connector);
    let count: usize = if chars.len() > MAX_SOURCE_LABEL_CHARS {
        MAX_SOURCE_LABEL_CHARS
    } else {
        chars.len()
    };
    let ghost kept = chars@.take(count as int);
    let ghost all = label_chars(connector@);
    assert(connector@.len() <= MAX_SOURCE_LABEL_CHARS ==> kept =~= connector@);
    let mut mapped = String::new();
    let mut i: usize = 0;
    while i < count
        invariant
            i <= count <= chars@.len(),
            kept == chars@.take(count as int),
            all.len() == count,
            all == kept.map_values(
                |c: char|
                    if is_label_char(c) {
                        c
                    } else {
                        '-'
                    },
            ),
            mapped@ == all.take(i as int),
        decreases count - i,
    {
        let c: char = chars[i];
        let safe: bool = ('A' <= c && c <= 'Z') || ('a' <= c && c <= 'z') || ('0' <= c && c <= '9')
            || c == '-' || c == '_';
        mapped.push(
            if safe {
                c
            } else {
                '-'
            },
        );
        assert(mapped@ =~= all.take(i + 1));
        i += 1;
    }
    assert(all.take(i as int) =~= all);
    let label = trim_of(mapped.as_str(), '-');
    if label.as_str().is_empty() {
        let mut output = String::new();
        append(&mut output, "output");
        assert(output@ =~= "output"@);
        output
    } else {
        label
    }
}

/// Trimming keeps a part of the text.
proof fn lemma_trim_start(text: Seq<char>, drop: spec_fn(char) -> bool)
    ensures
        trim_start_where(text, drop).len() <= text.len(),
        trim_start_where(text, drop) == text.skip(
            text.len() - trim_start_where(text, drop).len(),
        ),
        trim_start_where(text, drop).len() > 0 ==> !drop(trim_start_where(text, drop)[0]),
    decreases text.len(),
{
    if text.len() > 0 && drop(text[0]) {
        lemma_trim_start(text.drop_first(), drop);
        let rest = trim_start_where(text.drop_first(), drop);
        assert(text.drop_first().skip(text.len() - 1 - rest.len()) =~= text.skip(
            text.len() - rest.len(),
        ));
    } else {
        assert(text.skip(0) =~= text);
    }
}

/// Trimming keeps a part of the text.
proof fn lemma_trim_end(text: Seq<char>, drop: spec_fn(char) -> bool)
    ensures
        trim_end_where(text, drop).len() <= text.len(),
        trim_end_where(text, drop) == text.take(trim_end_where(text, drop).len() as int),
        trim_end_where(text, drop).len() > 0 ==> !drop(trim_end_where(text, drop).last()),
    decreases text.len(),
{
    if text.len() > 0 && drop(text.last()) {
        lemma_trim_end(text.drop_last(), drop);
        let rest = trim_end_where(text.drop_last(), drop);
        assert(text.drop_last().take(rest.len() as int) =~= text.take(rest.len() as int));
    } else {
        assert(text.take(text.len() as int) =~= text);
    }
}

/// Every label is safe for the relay: never empty, never longer than allowed, and made of
/// accepted characters alone, so that no separator survives. It neither begins nor ends with
/// a hyphen, and reducing it again changes nothing.
pub proof fn source_labels_are_safe(name: Seq<char>)
    ensures
        0 < source_label(name).len() <= MAX_SOURCE_LABEL_CHARS,
        forall|i: int|
            0 <= i < source_label(name).len() ==> is_label_char(#[trigger] source_label(name)[i]),
        source_label(name)[0] != '-',
        source_label(name).last() != '-',
        source_label(source_label(name)) == source_label(name),
{
    reveal_strlit("output");
    let mapped = label_chars(name);
    let started = trim_start_where(mapped, only('-'));
    lemma_trim_start(mapped, only('-'));
    lemma_trim_end(started, only('-'));
    let label = source_label(name);
    let ended = trim_end_where(started, only('-'));
    if ended.len() > 0 {
        assert forall|i: int| 0 <= i < label.len() implies is_label_char(#[trigger] label[i]) by {
            assert(label[i] == started[i]);
            assert(started[i] == mapped[i + mapped.len() - started.len()]);
        }
    } else {
        assert forall|i: int| 0 <= i < label.len() implies is_label_char(#[trigger] label[i]) by {
            assert(i == 0 || i == 1 || i == 2 || i == 3 || i == 4 || i == 5);
        }
    }
    if ended.len() > 0 {
        assert(only('-')(started[0]) == (started[0] == '-'));
        assert(only('-')(ended.last()) == (ended.last() == '-'));
        assert(label[0] == started[0]);
    }
    assert(label_chars(label) =~= label);
    assert(only('-')(label[0]) == (label[0] == '-'));
    assert(only('-')(label.last()) == (label.last() == '-'));
}

/// A portal grant that a publisher may reuse instead of prompting again.
#[derive(Debug)]
pub struct PortalRestoreToken {
    /// The stored token, if there is a usable one.
    pub value: Option<String>,
}

/// A token that is bounded and printable.
pub open spec fn is_usable_token(token: Seq<char>) -> bool {
    &&& token.len() > 0
    &&& encode_utf8(token).len() <= MAX_PORTAL_RESTORE_TOKEN_LEN
    &&& forall|i: int|
        0 <= i < token.len() ==> !is_control_char(#[trigger] token[i]) && !is_white(token[i])
}

/// A control code.
pub open spec fn is_control_char(c: char) -> bool {
    (c as u32) < 32 || 127 <= c as u32 <= 159
}

/// The token that the contents of a token file hold, if they hold a usable one.
pub open spec fn stored_token(contents: Option<Seq<char>>) -> Option<Seq<char>> {
    match contents {
        Some(raw) => if is_usable_token(trimmed(raw)) {
            Some(trimmed(raw))
        } else {
            None
        },
        None => None,
    }
}

/// What is written to a token file for a token.
pub open spec fn token_file(token: Seq<char>) -> Seq<char> {
    token.push('\n')
}

impl PortalRestoreToken {
    /// Takes the token out of the contents of a token file, which are absent where the
    /// file could not be read. What is missing or malformed makes the portal prompt.
    pub fn load(contents: Option<String>) -> (token: PortalRestoreToken)
        ensures
            text_view(token.value) == stored_token(text_view(contents)),
    {
        match contents {
            None => PortalRestoreToken { value: None },
            Some(raw) => {
                let token = trim(raw.as_str());
                if token_is_usable(token.as_str()) {
                    PortalRestoreToken { value: Some(token) }
                } else {
                    PortalRestoreToken { value: None }
                }
            },
        }
    }

    /// The token to present to the portal, if there is one.
    pub fn value(&self) -> (value: Option<&str>)
        ensures
            match self.value {
                Some(token) => value matches Some(text) && text@ == token@,
                None => value is None,
            },
    {
        match &self.value {
            Some(token) => Some(token.as_str()),
            None => None,
        }
    }

    /// What to write to the token file for a token of the portal; nothing where the token
    /// is implausibly long.
    pub fn save(&self, token: &str) -> (contents: Option<String>)
        ensures
            if encode_utf8(token@).len() > MAX_PORTAL_RESTORE_TOKEN_LEN {
                contents is None
            } else {
                contents matches Some(text) && text@ == token_file(token@)
            },
    {
        if token.as_bytes().len() > MAX_PORTAL_RESTORE_TOKEN_LEN {
            return None;
        }
        let mut contents = String::new();
        append(&mut contents, token);
        contents.push('\n');
        assert(contents@ =~= token_file(token@));
        Some(contents)
    }
}

/// Whether a token is bounded and printable.
fn token_is_usable(token: &str) -> (usable: bool)
    ensures
        usable == is_usable_token(token@),
{
    if token.is_empty() || token.as_bytes().len() > MAX_PORTAL_RESTORE_TOKEN_LEN {
        return false;
    }
    for c in iter: token.chars()
        invariant
            iter.seq() == token@,
            forall|i: int|
                0 <= i < iter.index() ==> !is_control_char(#[trigger] token@[i]) && !is_white(
                    token@[i],
                ),
    {
        if c.is_control() || c.is_whitespace() {
            assert(is_control_char(token@[iter.index() as int]) || is_white(
                token@[iter.index() as int],
            ));
            return false;
        }
    }
    true
}

/// What was stored is presented again: a usable token survives being written to its file
/// and read back.
pub proof fn stored_token_reads_back(token: Seq<char>)
    requires
        is_usable_token(token),
    ensures
        stored_token(Some(token_file(token))) == Some(token),
{
    let file = token_file(token);
    assert(!is_white(token[0]));
    assert(!is_white(token[token.len() - 1]));
    assert(file[0] == token[0]);
    assert(trim_start_where(file, white()) == file);
    assert(file.drop_last() =~= token);
    assert(is_white('\n'));
    assert(trim_end_where(token, white()) == token);
    assert(trim_end_where(file, white()) == trim_end_where(token, white()));
}

/// A name for files of a publisher: the reduced client name, or a default where nothing is
/// left of it.
pub open spec fn component_or_default(component: Seq<char>) -> Seq<char> {
    if component.len() == 0 {
        "client"@
    } else {
        component
    }
}

/// A file name made of a prefix, a component and a suffix.
fn file_name(prefix: &str, component: &str, suffix: &str) -> (name: String)
    ensures
        name@ == prefix@ + component_or_default(component@) + suffix@,
{
    let mut name = String::new();
    append(&mut name, prefix);
    assert(name@ =~= prefix@);
    if component.is_empty() {
        append(&mut name, "client");
    } else {
        append(&mut name, component);
    }
    append(&mut name, suffix);
    name
}

/// The default file of a portal token. `component` is the client name reduced to the
/// characters of a file name.
pub fn default_portal_token_file(component: &str) -> (name: String)
    ensures
        name@ == "portal-"@ + component_or_default(component@) + ".token"@,
{
    file_name("portal-", component, ".token")
}

/// The default file of a generated viewer key.
pub fn default_viewer_key_file(component: &str) -> (name: String)
    ensures
        name@ == "viewer-"@ + component_or_default(component@) + ".key"@,
{
    file_name("viewer-", component, ".key")
}

/// The default log file of a detached publisher.
pub fn default_log_file(component: &str) -> (name: String)
    ensures
        name@ == "client-"@ + component_or_default(component@) + ".log"@,
{
    file_name("client-", component, ".log")
}

/// The default control socket of a publisher.
pub fn client_daemon_socket(component: &str) -> (path: String)
    ensures
        path@ == "/tmp/gcpub-"@ + component@ + ".sock"@,
{
    let mut path = String::new();
    append(&mut path, "/tmp/gcpub-");
    append(&mut path, component);
    append(&mut path, ".sock");
    assert(path@ =~= "/tmp/gcpub-"@ + component@ + ".sock"@);
    path
}

/// The lock file beside a key history file.
pub fn history_lock_path(file_name: &str) -> (lock: String)
    ensures
        lock@ == "."@ + file_name@ + ".lock"@,
{
    let mut lock = String::new();
    append(&mut lock, ".");
    append(&mut lock, file_name);
    append(&mut lock, ".lock");
    assert(lock@ =~= "."@ + file_name@ + ".lock"@);
    lock
}

/// The name that viewers read: with the label of the screen, where a publisher casts
/// several.
pub open spec fn stream_name(display_name: Seq<char>, label: Option<Seq<char>>) -> Seq<char> {
    match label {
        Some(label) => display_name + " ("@ + label + ")"@,
        None => display_name,
    }
}

/// The name that viewers read.
pub fn stream_display_name(display_name: &str, label: &Option<String>) -> (name: String)
    ensures
        name@ == stream_name(display_name@, text_view(*label)),
{
    let mut name = String::new();
    append(&mut name, display_name);
    assert(name@ =~= display_name@);
    if let Some(label) = label {
        append(&mut name, " (");
        append(&mut name, label.as_str());
        append(&mut name, ")");
    }
    name
}

/// A relay address with the default port where it names none.
pub open spec fn with_default_port(address: Seq<char>) -> Seq<char> {
    if address.contains(':') {
        address
    } else {
        address + ":8900"@
    }
}

/// A relay address with the default publisher port where it names none.
pub fn normalize_endpoint(endpoint: &str) -> (address: String)
    ensures
        address@ == with_default_port(endpoint@),
{
    let mut address = String::new();
    append(&mut address, endpoint);
    assert(address@ =~= endpoint@);
    if !contains_char(endpoint, ':') {
        append(&mut address, ":8900");
    }
    address
}

/// A relay address with the default publisher port where it names none.
pub fn normalize_relay(relay: &str) -> (address: String)
    ensures
        address@ == with_default_port(relay@),
{
    normalize_endpoint(relay)
}

/// Adding the default port twice is adding it once.
pub proof fn default_port_is_added_once(address: Seq<char>)
    ensures
        with_default_port(with_default_port(address)) == with_default_port(address),
{
    reveal_strlit(":8900");
    if !address.contains(':') {
        let full = address + ":8900"@;
        assert(full[address.len() as int] == ':');
        assert(full.contains(':'));
    }
}

/// What a viewer key file holds.
#[derive(Debug)]
pub enum ViewerKeyFile {
    /// A phrase and its salt.
    Phrase {
        /// The key phrase.
        phrase: String,
        /// The encoded salt.
        salt_b64: String,
    },
    /// A bare encoded key.
    Raw(String),
}

/// Why a viewer key file was refused.
#[derive(Clone, Copy, Debug, PartialEq, Eq, Structural)]
pub enum ViewerKeyFileError {
    /// There is a phrase without a salt, or a salt without a phrase.
    Incomplete,
    /// There is nothing in it.
    Empty,
}

/// What a viewer key file holds, as a mathematical value.
pub enum StoredKey {
    /// A phrase and its salt.
    Phrase {
        /// The key phrase.
        phrase: Seq<char>,
        /// The encoded salt.
        salt: Seq<char>,
    },
    /// A bare encoded key.
    Raw(Seq<char>),
}

impl View for ViewerKeyFile {
    type V = StoredKey;

    open spec fn view(&self) -> StoredKey {
        match self {
            ViewerKeyFile::Phrase { phrase, salt_b64 } => StoredKey::Phrase {
                phrase: phrase@,
                salt: salt_b64@,
            },
            ViewerKeyFile::Raw(key) => StoredKey::Raw(key@),
        }
    }
}

/// The value of the last line of a run that begins with a prefix.
pub open spec fn last_value(lines: Seq<Seq<char>>, prefix: Seq<char>, other: Seq<char>) -> Option<
    Seq<char>,
>
    decreases lines.len(),
{
    if lines.len() == 0 {
        None
    } else {
        let line = trimmed(lines.last());
        if begins_with(line, prefix) && !begins_with(line, other) {
            Some(trimmed(line.skip(prefix.len() as int)))
        } else {
            last_value(lines.drop_last(), prefix, other)
        }
    }
}

/// The phrase of a viewer key file.
pub open spec fn phrase_in(raw: Seq<char>) -> Option<Seq<char>> {
    last_value(lines_of(raw), "phrase "@, "salt "@)
}

/// The salt of a viewer key file.
pub open spec fn salt_in(raw: Seq<char>) -> Option<Seq<char>> {
    last_value(lines_of(raw), "salt "@, "phrase "@)
}

/// What the contents of a viewer key file hold: the current form with a phrase and a salt,
/// or a bare key from before phrases existed.
pub open spec fn stored_key(raw: Seq<char>) -> Result<StoredKey, ViewerKeyFileError> {
    match (phrase_in(raw), salt_in(raw)) {
        (Some(phrase), Some(salt)) => Ok(StoredKey::Phrase { phrase, salt }),
        (None, None) => if trimmed(raw).len() == 0 {
            Err(ViewerKeyFileError::Empty)
        } else {
            Ok(StoredKey::Raw(trimmed(raw)))
        },
        _ => Err(ViewerKeyFileError::Incomplete),
    }
}

/// No line begins with both prefixes.
proof fn lemma_prefixes_differ(line: Seq<char>)
    ensures
        !(begins_with(line, "phrase "@) && begins_with(line, "salt "@)),
{
    reveal_strlit("phrase ");
    reveal_strlit("salt ");
    if begins_with(line, "phrase "@) && begins_with(line, "salt "@) {
        assert(line.subrange(0, 7)[0] == 'p');
        assert(line.subrange(0, 5)[0] == 's');
    }
}

/// Reads the contents of a viewer key file: the current form with a phrase and a salt, or a
/// bare key from before phrases existed.
pub fn read_viewer_key(raw: &str) -> (result: Result<ViewerKeyFile, ViewerKeyFileError>)
    ensures
        match result {
            Ok(file) => stored_key(raw@) == Ok::<StoredKey, ViewerKeyFileError>(file@),
            Err(error) => stored_key(raw@) == Err::<StoredKey, ViewerKeyFileError>(error),
        },
{
    let lines = split_lines(raw);
    let ghost all = lines_of(raw@);
    let mut phrase: Option<String> = None;
    let mut salt: Option<String> = None;
    let mut i: usize = 0;
    while i < lines.len()
        invariant
            i <= lines@.len(),
            all == texts_view(lines@),
            text_view(phrase) == last_value(all.take(i as int), "phrase "@, "salt "@),
            text_view(salt) == last_value(all.take(i as int), "salt "@, "phrase "@),
        decreases lines@.len() - i,
    {
        assert(all.take(i + 1).drop_last() =~= all.take(i as int));
        assert(all[i as int] == lines@[i as int]@);
        let line = trim(lines[i].as_str());
        proof {
            lemma_prefixes_differ(line@);
        }
        if let Some(value) = strip_prefix(line.as_str(), "phrase ") {
            phrase = Some(trim(value.as_str()));
        } else if let Some(value) = strip_prefix(line.as_str(), "salt ") {
            salt = Some(trim(value.as_str()));
        }
        i += 1;
    }
    assert(all.take(i as int) =~= all);
    match (phrase, salt) {
        (Some(phrase), Some(salt_b64)) => Ok(ViewerKeyFile::Phrase { phrase, salt_b64 }),
        (None, None) => {
            let key = trim(raw);
            if key.as_str().is_empty() {
                Err(ViewerKeyFileError::Empty)
            } else {
                Ok(ViewerKeyFile::Raw(key))
            }
        },
        _ => Err(ViewerKeyFileError::Incomplete),
    }
}

/// The contents of a viewer key file for a phrase and its salt.
pub open spec fn key_file_text(phrase: Seq<char>, salt: Seq<char>) -> Seq<char> {
    ("phrase "@ + phrase).push('\n') + ("salt "@ + salt).push('\n')
}

/// The contents of a viewer key file for a phrase and its salt.
pub fn viewer_key_contents(phrase: &str, salt_b64: &str) -> (contents: String)
    ensures
        contents@ == key_file_text(phrase@, salt_b64@),
{
    let mut contents = String::new();
    append(&mut contents, "phrase ");
    append(&mut contents, phrase);
    contents.push('\n');
    append(&mut contents, "salt ");
    append(&mut contents, salt_b64);
    contents.push('\n');
    assert(contents@ =~= key_file_text(phrase@, salt_b64@));
    contents
}

/// A text that fills one line: not empty, without line feeds, nothing to trim.
pub open spec fn is_line(text: Seq<char>) -> bool {
    &&& text.len() > 0
    &&& !text.contains('\n')
    &&& !is_white(text[0])
    &&& !is_white(text.last())
}

/// A text without line feeds that follows a line feed is a line of its own.
proof fn lemma_lines_of_next(before: Seq<char>, line: Seq<char>)
    requires
        !line.contains('\n'),
    ensures
        lines_of(before.push('\n') + line) == lines_of(before).push(line),
    decreases line.len(),
{
    let text = before.push('\n') + line;
    if line.len() == 0 {
        assert(text =~= before.push('\n'));
        assert(text.drop_last() =~= before);
        assert(line =~= Seq::<char>::empty());
    } else {
        let shorter = line.drop_last();
        assert(!shorter.contains('\n')) by {
            if shorter.contains('\n') {
                let k = choose|k: int| 0 <= k < shorter.len() && shorter[k] == '\n';
                assert(line[k] == '\n');
            }
        }
        lemma_lines_of_next(before, shorter);
        assert(text.drop_last() =~= before.push('\n') + shorter);
        assert(line.contains(line.last())) by {
            assert(line[line.len() - 1] == line.last());
        }
        let earlier = lines_of(before).push(shorter);
        assert(shorter.push(line.last()) =~= line);
        assert(earlier.update(earlier.len() - 1, line) =~= lines_of(before).push(line));
    }
}

/// A text without line feeds is one line.
proof fn lemma_lines_of_one(line: Seq<char>)
    requires
        !line.contains('\n'),
    ensures
        lines_of(line) == seq![line],
    decreases line.len(),
{
    if line.len() > 0 {
        let shorter = line.drop_last();
        assert(!shorter.contains('\n')) by {
            if shorter.contains('\n') {
                let k = choose|k: int| 0 <= k < shorter.len() && shorter[k] == '\n';
                assert(line[k] == '\n');
            }
        }
        lemma_lines_of_one(shorter);
        assert(line.contains(line.last())) by {
            assert(line[line.len() - 1] == line.last());
        }
        assert(shorter.push(line.last()) =~= line);
        assert(seq![shorter].update(0, line) =~= seq![line]);
    } else {
        assert(line =~= Seq::<char>::empty());
    }
}

/// A stored viewer key is the same after a restart: the file written for a phrase and its
/// salt reads back as that phrase and that salt if and only if both are lines.
pub proof fn stored_viewer_key_reads_back(phrase: Seq<char>, salt: Seq<char>)
    ensures
        stored_key(key_file_text(phrase, salt)) == Ok::<StoredKey, ViewerKeyFileError>(
            StoredKey::Phrase { phrase, salt },
        ) <==> is_line(phrase) && is_line(salt),
{
    let file = key_file_text(phrase, salt);
    if is_line(phrase) && is_line(salt) {
        lemma_lines_read_back(phrase, salt);
    } else {
        reveal_strlit("phrase ");
        reveal_strlit("salt ");
        lemma_lines_hold_no_feed(file);
        lemma_values_are_lines(lines_of(file), "phrase "@, "salt "@);
        lemma_values_are_lines(lines_of(file), "salt "@, "phrase "@);
    }
}

/// No line holds a line feed.
proof fn lemma_lines_hold_no_feed(text: Seq<char>)
    ensures
        lines_of(text).len() > 0,
        forall|i: int| 0 <= i < lines_of(text).len() ==> !(#[trigger] lines_of(text)[i]).contains(
            '\n',
        ),
    decreases text.len(),
{
    if text.len() > 0 {
        lemma_lines_hold_no_feed(text.drop_last());
        let earlier = lines_of(text.drop_last());
        let lines = lines_of(text);
        assert forall|i: int| 0 <= i < lines.len() implies !(#[trigger] lines[i]).contains(
            '\n',
        ) by {
            if i < earlier.len() - 1 {
                assert(lines[i] == earlier[i]);
            } else if text.last() != '\n' {
                let before = earlier[earlier.len() - 1];
                assert(lines[i] == before.push(text.last()));
                if lines[i].contains('\n') {
                    let k = choose|k: int| 0 <= k < lines[i].len() && lines[i][k] == '\n';
                    assert(before[k] == '\n');
                    assert(before.contains('\n'));
                }
            } else if i == earlier.len() - 1 {
                assert(lines[i] == earlier[i]);
            }
        }
    }
}

/// A text that ends with something else than what is trimmed keeps its end.
proof fn lemma_trim_start_keeps_end(text: Seq<char>, drop: spec_fn(char) -> bool)
    requires
        text.len() > 0,
        !drop(text.last()),
    ensures
        trim_start_where(text, drop).len() > 0,
        trim_start_where(text, drop).last() == text.last(),
    decreases text.len(),
{
    if drop(text[0]) {
        assert(text.len() > 1);
        assert(text.drop_first().last() == text.last());
        lemma_trim_start_keeps_end(text.drop_first(), drop);
    }
}

/// A trimmed text is a part of the text and neither begins nor ends with white space.
proof fn lemma_trimmed(text: Seq<char>)
    ensures
        forall|i: int|
            0 <= i < trimmed(text).len() ==> text.contains(#[trigger] trimmed(text)[i]),
        trimmed(text).len() > 0 ==> !is_white(trimmed(text)[0]) && !is_white(trimmed(text).last()),
{
    let started = trim_start_where(text, white());
    lemma_trim_start(text, white());
    lemma_trim_end(started, white());
    let ended = trimmed(text);
    assert forall|i: int| 0 <= i < ended.len() implies text.contains(#[trigger] ended[i]) by {
        assert(ended[i] == started[i]);
        assert(started[i] == text[i + text.len() - started.len()]);
    }
    if ended.len() > 0 {
        assert(white()(started[0]) == is_white(started[0]));
        assert(white()(ended.last()) == is_white(ended.last()));
        assert(ended[0] == started[0]);
    }
}

/// Every value that is read from lines is a line itself.
proof fn lemma_values_are_lines(lines: Seq<Seq<char>>, prefix: Seq<char>, other: Seq<char>)
    requires
        prefix.len() > 0,
        prefix.last() == ' ',
        forall|i: int| 0 <= i < lines.len() ==> !(#[trigger] lines[i]).contains('\n'),
    ensures
        last_value(lines, prefix, other) matches Some(value) ==> is_line(value),
    decreases lines.len(),
{
    if lines.len() > 0 {
        let whole = lines[lines.len() - 1];
        let line = trimmed(whole);
        if begins_with(line, prefix) && !begins_with(line, other) {
            let count = prefix.len() as int;
            let rest = line.skip(count);
            let value = trimmed(rest);
            lemma_trimmed(whole);
            lemma_trimmed(rest);
            if rest.len() == 0 {
                assert(line.subrange(0, count) =~= line);
                assert(is_white(' '));
            }
            assert(rest.last() == line.last());
            assert(white()(rest.last()) == is_white(rest.last()));
            lemma_trim_start_keeps_end(rest, white());
            let started = trim_start_where(rest, white());
            assert(white()(started.last()) == is_white(started.last()));
            if value.contains('\n') {
                let k = choose|k: int| 0 <= k < value.len() && value[k] == '\n';
                assert(rest.contains(value[k]));
                let j = choose|j: int| 0 <= j < rest.len() && rest[j] == '\n';
                assert(line[j + count] == '\n');
                assert(whole.contains(line[j + count]));
            }
        } else {
            let shorter = lines.drop_last();
            assert forall|i: int| 0 <= i < shorter.len() implies !(
            #[trigger] shorter[i]).contains('\n') by {
                assert(!lines[i].contains('\n'));
            }
            lemma_values_are_lines(shorter, prefix, other);
        }
    }
}

/// A phrase and a salt that are lines read back.
proof fn lemma_lines_read_back(phrase: Seq<char>, salt: Seq<char>)
    requires
        is_line(phrase),
        is_line(salt),
    ensures
        phrase_in(key_file_text(phrase, salt)) == Some(phrase),
        salt_in(key_file_text(phrase, salt)) == Some(salt),
{
    reveal_strlit("phrase ");
    reveal_strlit("salt ");
    let first = "phrase "@ + phrase;
    let second = "salt "@ + salt;
    let file = key_file_text(phrase, salt);
    assert(!first.contains('\n')) by {
        if first.contains('\n') {
            let k = choose|k: int| 0 <= k < first.len() && first[k] == '\n';
            if k >= 7 {
                assert(phrase[k - 7] == '\n');
            }
        }
    }
    assert(!second.contains('\n')) by {
        if second.contains('\n') {
            let k = choose|k: int| 0 <= k < second.len() && second[k] == '\n';
            if k >= 5 {
                assert(salt[k - 5] == '\n');
            }
        }
    }
    let none = Seq::<char>::empty();
    lemma_lines_of_one(first);
    lemma_lines_of_next(first, second);
    assert(file =~= (first.push('\n') + second).push('\n') + none);
    lemma_lines_of_next(first.push('\n') + second, none);
    let lines = lines_of(file);
    assert(lines =~= seq![first, second, none]);
    assert(first[0] == 'p' && first.last() == phrase.last());
    assert(second[0] == 's' && second.last() == salt.last());
    assert(trimmed(none) =~= none);
    assert(trimmed(first) == first);
    assert(trimmed(second) == second);
    assert(trimmed(phrase) == phrase);
    assert(trimmed(salt) == salt);
    assert(first.subrange(0, 7) =~= "phrase "@);
    assert(second.subrange(0, 5) =~= "salt "@);
    assert(first.skip(7) =~= phrase);
    assert(second.skip(5) =~= salt);
    lemma_prefixes_differ(first);
    lemma_prefixes_differ(second);
    let two = lines.drop_last();
    assert(two =~= seq![first, second]);
    assert(two.drop_last() =~= seq![first]);
    assert(last_value(lines, "phrase "@, "salt "@) == last_value(two, "phrase "@, "salt "@));
    assert(last_value(two, "phrase "@, "salt "@) == last_value(
        two.drop_last(),
        "phrase "@,
        "salt "@,
    ));
    assert(last_value(lines, "salt "@, "phrase "@) == last_value(two, "salt "@, "phrase "@));
}

/// A path below a directory.
pub open spec fn joined_path(base: Seq<char>, name: Seq<char>) -> Seq<char> {
    if base.len() > 0 && base.last() == '/' {
        base + name
    } else {
        base + "/"@ + name
    }
}

fn join_path(base: &str, name: &str) -> (path: String)
    ensures
        path@ == joined_path(base@, name@),
{
    let chars = chars_of(base);
    let count: usize = chars.len();
    let mut path = String::new();
    append(&mut path, base);
    if !(count > 0 && chars[count - 1] == '/') {
        append(&mut path, "/");
    }
    append(&mut path, name);
    assert(path@ =~= joined_path(base@, name@));
    path
}

/// Whether a directory is named from the root.
pub open spec fn is_absolute(path: Option<Seq<char>>) -> bool {
    path matches Some(text) && begins_with(text, "/"@)
}

/// The directory of a publisher's state.
pub open spec fn state_dir(
    state_home: Option<Seq<char>>,
    home: Option<Seq<char>>,
    temporary: Seq<char>,
) -> Seq<char> {
    joined_path(
        if is_absolute(state_home) {
            state_home->0
        } else if is_absolute(home) {
            joined_path(joined_path(home->0, ".local"@), "state"@)
        } else {
            temporary
        },
        "glacialcast"@,
    )
}

/// The directory of a publisher's state: below the user's state directory, else below the
/// home directory, else below the temporary one. Only absolute directories count.
pub fn client_state_dir(
    state_home: &Option<String>,
    home: &Option<String>,
    temporary: &str,
) -> (path: String)
    ensures
        path@ == state_dir(text_view(*state_home), text_view(*home), temporary@),
{
    match state_home {
        Some(base) => {
            if starts_with(base.as_str(), "/") {
                return join_path(base.as_str(), "glacialcast");
            }
        },
        None => {},
    }
    match home {
        Some(base) => {
            if starts_with(base.as_str(), "/") {
                let local = join_path(base.as_str(), ".local");
                let state = join_path(local.as_str(), "state");
                return join_path(state.as_str(), "glacialcast");
            }
        },
        None => {},
    }
    join_path(temporary, "glacialcast")
}

/// What becomes of a viewer key file.
#[derive(Clone, Copy, Debug, PartialEq, Eq, Structural)]
pub enum KeyFileAction {
    /// Its key is used.
    Use,
    /// It is refused.
    Refuse,
    /// A fresh key is written to a file that must not be there.
    Create,
    /// A fresh key replaces what is there.
    Replace,
}

/// What becomes of a viewer key file, by whether a fresh key is asked for, whether the file
/// yields a key and whether it is there at all.
pub open spec fn key_file_action(regenerate: bool, readable: bool, present: bool) -> KeyFileAction {
    if regenerate {
        KeyFileAction::Replace
    } else if readable {
        KeyFileAction::Use
    } else if present {
        KeyFileAction::Refuse
    } else {
        KeyFileAction::Create
    }
}

/// Decides what becomes of a viewer key file. A file that is there but cannot be read is
/// never replaced unless that was asked for.
pub fn viewer_key_action(regenerate: bool, readable: bool, present: bool) -> (action: KeyFileAction)
    ensures
        action == key_file_action(regenerate, readable, present),
{
    if regenerate {
        KeyFileAction::Replace
    } else if readable {
        KeyFileAction::Use
    } else if present {
        KeyFileAction::Refuse
    } else {
        KeyFileAction::Create
    }
}

/// A viewer key file as a publisher that starts finds it.
pub struct FoundKeyFile {
    /// Whether it is a regular file that neither group nor others may touch.
    pub private: bool,
    /// Its contents.
    pub text: Seq<char>,
}

/// A viewer key, as a mathematical value.
pub struct KeyMaterial {
    /// The form handed to viewers.
    pub shareable: Seq<char>,
    /// The encoded key.
    pub key: Seq<char>,
    /// The encoded salt, for a derived key.
    pub salt: Option<Seq<char>>,
}

impl View for ViewerKeyMaterial {
    type V = KeyMaterial;

    open spec fn view(&self) -> KeyMaterial {
        KeyMaterial {
            shareable: self.shareable@,
            key: self.key_b64@,
            salt: text_view(self.salt_b64),
        }
    }
}

/// The key that a viewer key file yields, if it yields one. `decode` gives the key of a
/// phrase and its salt, or of a bare key, where they are well formed.
pub open spec fn loaded_key(
    file: Option<FoundKeyFile>,
    decode: spec_fn(StoredKey) -> Option<KeyMaterial>,
) -> Option<KeyMaterial> {
    match file {
        Some(found) if found.private => match stored_key(found.text) {
            Ok(stored) => decode(stored),
            Err(_) => None,
        },
        _ => None,
    }
}

/// What becomes of a start: the key that is used, none where the start fails, and the viewer
/// key file behind it. `fresh` is the key that is generated where one is needed. A file that
/// is made anew is private; one that is overwritten keeps its permissions.
pub open spec fn key_start(
    file: Option<FoundKeyFile>,
    regenerate: bool,
    decode: spec_fn(StoredKey) -> Option<KeyMaterial>,
    fresh: KeyMaterial,
) -> (Option<KeyMaterial>, Option<FoundKeyFile>) {
    let loaded = loaded_key(file, decode);
    match key_file_action(regenerate, loaded is Some, file is Some) {
        KeyFileAction::Use => (loaded, file),
        KeyFileAction::Refuse => (None, file),
        _ => (
            Some(fresh),
            Some(
                FoundKeyFile {
                    private: file matches Some(found) ==> found.private,
                    text: key_file_text(
                        fresh.shareable,
                        match fresh.salt {
                            Some(salt) => salt,
                            None => Seq::empty(),
                        },
                    ),
                },
            ),
        ),
    }
}

/// A viewer key file that is there is never silently replaced: its key is used, or the start
/// fails because the file is not private, is malformed or holds no key, and its contents
/// stay either way.
pub proof fn viewer_keys_are_never_silently_replaced(
    file: FoundKeyFile,
    decode: spec_fn(StoredKey) -> Option<KeyMaterial>,
    fresh: KeyMaterial,
)
    ensures
        key_start(Some(file), false, decode, fresh).1 == Some(file),
        key_start(Some(file), false, decode, fresh).0 == match stored_key(file.text) {
            Ok(stored) if file.private => decode(stored),
            _ => None,
        },
{
}

/// A fresh viewer key is stable across restarts. Where there is no file, or where a private
/// one is to be replaced, the fresh key is used and its phrase and salt are written to a
/// private file. Every later start then uses a key with the same shareable form, the same
/// key material and the same salt, and leaves the file as it is.
///
/// A generated key is one whose own phrase and salt decode to it. Phrase and salt have to be
/// lines: no others can be written to the file and read back.
pub proof fn fresh_viewer_keys_are_stable_across_restarts(
    file: Option<FoundKeyFile>,
    regenerate: bool,
    decode: spec_fn(StoredKey) -> Option<KeyMaterial>,
    fresh: KeyMaterial,
    salt: Seq<char>,
    later: KeyMaterial,
)
    requires
        fresh.salt == Some(salt),
        is_line(fresh.shareable),
        is_line(salt),
        decode(StoredKey::Phrase { phrase: fresh.shareable, salt }) == Some(fresh),
        regenerate || file is None,
        file matches Some(found) ==> found.private,
    ensures
        ({
            let (used, written) = key_start(file, regenerate, decode, fresh);
            &&& used == Some(fresh)
            &&& written == Some(
                FoundKeyFile { private: true, text: key_file_text(fresh.shareable, salt) },
            )
            &&& key_start(written, false, decode, later) == (Some(fresh), written)
        }),
{
    stored_viewer_key_reads_back(fresh.shareable, salt);
}

/// Hyphenated words and URL-safe encodings are lines.
pub proof fn words_and_encodings_are_lines(text: Seq<char>)
    requires
        text.len() > 0,
        forall|i: int|
            0 <= i < text.len() ==> is_label_char(#[trigger] text[i]) || text[i] == '=',
    ensures
        is_line(text),
{
    assert(is_label_char(text[0]) || text[0] == '=');
    assert(is_label_char(text[text.len() - 1]) || text[text.len() - 1] == '=');
    if text.contains('\n') {
        let k = choose|k: int| 0 <= k < text.len() && text[k] == '\n';
        assert(is_label_char(text[k]) || text[k] == '=');
    }
}

/// A labelled line, where there is something to say.
pub open spec fn labelled(label: Seq<char>, value: Option<Seq<char>>) -> Seq<char> {
    match value {
        Some(text) => label + text + "\n"@,
        None => Seq::empty(),
    }
}

/// The summary that a starting publisher prints.
pub open spec fn summary_text(identity: ClientIdentity, socket: Seq<char>, log: Seq<char>) -> Seq<
    char,
> {
    "GlacialCast publisher \""@ + identity.display_name@ + "\"\n"@ + labelled(
        "  viewer page  "@,
        text_view(identity.viewer_url),
    ) + "  viewer access  identity pairing (no shared passphrase)\n"@ + labelled(
        "  config       "@,
        text_view(identity.config_path),
    ) + labelled("  key file     "@, text_view(identity.viewer_key_file)) + labelled(
        "  log file     "@,
        Some(log),
    ) + labelled("  control      "@, Some(socket))
}

fn append_labelled(text: &mut String, label: &str, value: &str)
    ensures
        final(text)@ == old(text)@ + labelled(label@, Some(value@)),
{
    append(text, label);
    append(text, value);
    append(text, "\n");
    assert(text@ =~= old(text)@ + labelled(label@, Some(value@)));
}

/// The summary that a starting publisher prints. It never holds a key.
pub fn sharing_summary(identity: &ClientIdentity, daemon_socket: &str, log_file: &str) -> (summary:
    String)
    ensures
        summary@ == summary_text(*identity, daemon_socket@, log_file@),
{
    let mut summary = String::new();
    append(&mut summary, "GlacialCast publisher \"");
    append(&mut summary, identity.display_name.as_str());
    append(&mut summary, "\"\n");
    match &identity.viewer_url {
        Some(url) => append_labelled(&mut summary, "  viewer page  ", url.as_str()),
        None => {},
    }
    append(&mut summary, "  viewer access  identity pairing (no shared passphrase)\n");
    match &identity.config_path {
        Some(path) => append_labelled(&mut summary, "  config       ", path.as_str()),
        None => {},
    }
    match &identity.viewer_key_file {
        Some(path) => append_labelled(&mut summary, "  key file     ", path.as_str()),
        None => {},
    }
    append_labelled(&mut summary, "  log file     ", log_file);
    append_labelled(&mut summary, "  control      ", daemon_socket);
    assert(summary@ =~= summary_text(*identity, daemon_socket@, log_file@));
    summary
}

} // verus!
