//! What holds of an administrator's lists and stored state: requests and confirmations that
//! arrive together, names that are given in short, and what is read and written. Each law
//! speaks of what a call may return for what it was given.

use vstd::prelude::*;

use crate::admin::{
    accept_state, check_for_saving, check_history_answer, check_pairing_ack, check_relay_key,
    checked_image, confirmed_names, confirmed_requests, incoming_image, is_admin_command,
    load_policy, receive_confirmations, receive_request, receive_requests, relay_fingerprint,
    unique_grant, unique_request, validate_state, AdminCommand, CheckedConfirmation,
    DecodedState, IncomingRequest, PendingPairing, PublisherState,
};
use crate::admin_laws::lemma_unique_match;
use crate::admin_model::{
    grant_names, has_prefix, pending_id, request_names, AdminError, AdminModel, ApprovalPolicy,
    CheckedConfirmationModel, PendingModel, StreamGrant, ViewerPolicy,
};
use crate::approval_laws::{is_abbreviated, lemma_abbreviated, waits};
use crate::digest::sha256_of;
use crate::order::{first_where, lemma_first_where_means, sorting_keeps_every_item};
use crate::publication::RelayAnswer;
use crate::service::PublisherReply;
use crate::text::hex;

verus! {

/// Requests that arrive together are taken one by one, in their order: the last of them is
/// taken by what the others left behind. A failure among the others is the failure of all.
pub proof fn requests_are_taken_in_order(
    state: PublisherState,
    policy: &ApprovalPolicy,
    earlier: Vec<IncomingRequest>,
    before: Result<PublisherState, AdminError>,
    last: IncomingRequest,
    between: PublisherState,
    step: Result<PublisherState, AdminError>,
    all: Vec<IncomingRequest>,
    result: Result<PublisherState, AdminError>,
    none: Vec<IncomingRequest>,
    unchanged: Result<PublisherState, AdminError>,
)
    requires
        call_ensures(receive_requests, (state, policy, earlier), before),
        before matches Ok(next) ==> between@ == next@,
        call_ensures(receive_request, (between, policy, last), step),
        all@ == earlier@.push(last),
        call_ensures(receive_requests, (state, policy, all), result),
        none@.len() == 0,
        call_ensures(receive_requests, (state, policy, none), unchanged),
    ensures
        unchanged matches Ok(same) && same@ == state@,
        before is Err ==> result is Err && result->Err_0 == before->Err_0,
        before is Ok ==> (result is Ok <==> step is Ok),
        before is Ok && result is Ok ==> result->Ok_0@ == step->Ok_0@,
        before is Ok && result is Err ==> result->Err_0 == step->Err_0,
{
    let images = earlier@.map_values(incoming_image());
    let more = all@.map_values(incoming_image());
    assert(more =~= images.push(last@));
    assert(more.drop_last() =~= images);
    assert(none@.map_values(incoming_image()) =~= Seq::empty());
}

/// Whether no confirmation behind a place of a list is for a request, and the one at the
/// place is, if the place is within the list.
pub open spec fn is_last_for(
    checked: Seq<CheckedConfirmation>,
    request_id: [u8; 32],
    j: int,
) -> bool {
    &&& 0 <= j <= checked.len()
    &&& j < checked.len() ==> checked[j].confirmation.request_id == request_id
    &&& forall|k: int|
        j < k < checked.len() ==> (#[trigger] checked[k]).confirmation.request_id != request_id
    &&& j == checked.len() ==> forall|k: int|
        0 <= k < checked.len() ==> (#[trigger] checked[k]).confirmation.request_id != request_id
}

proof fn lemma_confirmed(
    model: AdminModel,
    checked: Seq<CheckedConfirmationModel>,
    at: int,
    id: [u8; 32],
    j: int,
)
    requires
        model.after_confirmations(checked) is Ok,
        0 <= at < model.pending.len(),
        model.pending[at].request.request_id == Some(id),
        forall|k: int|
            0 <= k < model.pending.len() && k != at ==> (
            #[trigger] model.pending[k]).request.request_id != Some(id),
        0 <= j <= checked.len(),
        j < checked.len() ==> checked[j].confirmation.request_id == id,
        forall|k: int|
            j < k < checked.len() ==> (#[trigger] checked[k]).confirmation.request_id != id,
        j == checked.len() ==> forall|k: int|
            0 <= k < checked.len() ==> (#[trigger] checked[k]).confirmation.request_id != id,
    ensures
        ({
            let after = model.after_confirmations(checked)->Ok_0;
            &&& after.pending.len() == model.pending.len()
            &&& forall|k: int|
                0 <= k < model.pending.len() ==> (#[trigger] after.pending[k]).request
                    == model.pending[k].request
            &&& after.pending[at] == PendingModel {
                confirmation: if j < checked.len() {
                    Some(checked[j].confirmation)
                } else {
                    model.pending[at].confirmation
                },
                ..model.pending[at]
            }
            &&& after.approved == model.approved
            &&& after.revoked == model.revoked
        }),
    decreases checked.len(),
{
    if checked.len() > 0 {
        let rest = checked.drop_last();
        let last = checked.last();
        let end = checked.len() - 1;
        assert forall|k: int| 0 <= k < rest.len() implies rest[k] == checked[k] by {
        }
        if j == end {
            lemma_some_last(rest, id);
            let i = choose|i: int|
                {
                    &&& 0 <= i <= rest.len()
                    &&& i < rest.len() ==> rest[i].confirmation.request_id == id
                    &&& forall|k: int|
                        i < k < rest.len() ==> (#[trigger] rest[k]).confirmation.request_id != id
                    &&& i == rest.len() ==> forall|k: int|
                        0 <= k < rest.len() ==> (#[trigger] rest[k]).confirmation.request_id != id
                    &&& #[trigger] is_place(i)
                };
            lemma_confirmed(model, rest, at, id, i);
        } else if j == checked.len() {
            lemma_confirmed(model, rest, at, id, rest.len() as int);
        } else {
            lemma_confirmed(model, rest, at, id, j);
        }
        let before = model.after_confirmations(rest)->Ok_0;
        let wanted = pending_id(last.confirmation.request_id);
        lemma_first_where_means(before.pending, wanted);
        let first = first_where(before.pending, wanted);
        assert(before.pending[at].request.request_id == Some(id));
        if last.confirmation.request_id == id {
            assert(wanted(before.pending[at]));
            if first < before.pending.len() && first != at {
                assert(before.pending[first].request == model.pending[first].request);
                assert(wanted(before.pending[first]));
            }
            assert(first == at);
        } else if first < before.pending.len() {
            assert(wanted(before.pending[first]));
            assert(first != at);
        }
    }
}

spec fn is_place(i: int) -> bool {
    true
}

proof fn lemma_some_last(checked: Seq<CheckedConfirmationModel>, id: [u8; 32])
    ensures
        exists|i: int|
            {
                &&& 0 <= i <= checked.len()
                &&& i < checked.len() ==> checked[i].confirmation.request_id == id
                &&& forall|k: int|
                    i < k < checked.len() ==> (#[trigger] checked[k]).confirmation.request_id != id
                &&& i == checked.len() ==> forall|k: int|
                    0 <= k < checked.len() ==> (#[trigger] checked[k]).confirmation.request_id
                        != id
                &&& #[trigger] is_place(i)
            },
    decreases checked.len(),
{
    if checked.len() == 0 {
        assert(is_place(0));
    } else {
        let end = checked.len() - 1;
        if checked[end].confirmation.request_id == id {
            assert(is_place(end));
        } else {
            let rest = checked.drop_last();
            lemma_some_last(rest, id);
            let i = choose|i: int|
                {
                    &&& 0 <= i <= rest.len()
                    &&& i < rest.len() ==> rest[i].confirmation.request_id == id
                    &&& forall|k: int|
                        i < k < rest.len() ==> (#[trigger] rest[k]).confirmation.request_id != id
                    &&& i == rest.len() ==> forall|k: int|
                        0 <= k < rest.len() ==> (#[trigger] rest[k]).confirmation.request_id != id
                    &&& #[trigger] is_place(i)
                };
            assert forall|k: int| 0 <= k < rest.len() implies rest[k] == checked[k] by {
            }
            if i == rest.len() {
                assert(is_place(checked.len() as int));
                assert forall|k: int| 0 <= k < checked.len() implies (
                #[trigger] checked[k]).confirmation.request_id != id by {
                    if k < rest.len() {
                        assert(rest[k] == checked[k]);
                    }
                }
            } else {
                assert(rest[i] == checked[i]);
                assert forall|k: int| i < k < checked.len() implies (
                #[trigger] checked[k]).confirmation.request_id != id by {
                    if k < rest.len() {
                        assert(rest[k] == checked[k]);
                    }
                }
            }
        }
    }
}

/// Of the confirmations that arrive together each is recorded with its request; where several
/// are for one request the last of them counts. A request without one stays as it was, and no
/// access changes.
pub proof fn every_confirmation_is_recorded(
    state: PublisherState,
    checked: Vec<CheckedConfirmation>,
    result: Result<PublisherState, AdminError>,
    at: int,
    j: int,
)
    requires
        call_ensures(receive_confirmations, (state, checked), result),
        result is Ok,
        0 <= at < state.pending@.len(),
        state.pending@[at].request.request_id is Some,
        forall|k: int|
            0 <= k < state.pending@.len() && k != at ==> (
            #[trigger] state.pending@[k]).request.request_id
                != state.pending@[at].request.request_id,
        is_last_for(checked@, state.pending@[at].request.request_id->0, j),
    ensures
        result->Ok_0@.pending.len() == state@.pending.len(),
        result->Ok_0@.pending.contains(
            (PendingModel {
                confirmation: if j < checked@.len() {
                    Some(checked@[j].confirmation@)
                } else {
                    state@.pending[at].confirmation
                },
                ..state@.pending[at]
            }),
        ),
        result->Ok_0.approved@ == state.approved@,
        result->Ok_0.revoked@ == state.revoked@,
{
    let id = state.pending@[at].request.request_id->0;
    let images = checked@.map_values(checked_image());
    assert forall|k: int| 0 <= k < images.len() implies images[k] == checked@[k]@ by {
    }
    assert forall|k: int| 0 <= k < state@.pending.len() implies state@.pending[k]
        == state.pending@[k]@ by {
    }
    assert forall|k: int| j < k < images.len() implies (
    #[trigger] images[k]).confirmation.request_id != id by {
        assert(checked@[k].confirmation.request_id != id);
    }
    if j == checked@.len() {
        assert forall|k: int| 0 <= k < images.len() implies (
        #[trigger] images[k]).confirmation.request_id != id by {
            assert(checked@[k].confirmation.request_id != id);
        }
    }
    assert forall|k: int| 0 <= k < state@.pending.len() && k != at implies (
    #[trigger] state@.pending[k]).request.request_id != Some(id) by {
        assert(state.pending@[k].request.request_id != state.pending@[at].request.request_id);
    }
    lemma_confirmed(state@, images, at, id, j);
    let after = state@.after_confirmations(images)->Ok_0;
    assert(after.pending[at].request.request_id == Some(id));
    sorting_keeps_every_item(after.pending, crate::admin_model::pendings());
    assert(after.pending.contains(after.pending[at]));
}

/// A name that is given in short stands for the one request, or the one viewer of a stream,
/// that it begins; the first of two is never taken for both.
pub proof fn short_names_stand_for_one(
    pending: &Vec<PendingPairing>,
    prefix: &str,
    request: Result<usize, AdminError>,
    approved: &Vec<StreamGrant>,
    stream_id: u128,
    grant: Result<usize, AdminError>,
    k: int,
)
    requires
        call_ensures(unique_request, (pending, prefix), request),
        call_ensures(unique_grant, (approved, stream_id, prefix), grant),
    ensures
        request matches Ok(at) ==> {
            &&& at < pending@.len()
            &&& pending@[at as int].request.request_id matches Some(id) && is_abbreviated(
                crate::text::hex_text(id@),
                prefix@,
            )
            &&& 0 <= k < pending@.len() && k != at ==> (pending@[k].request.request_id matches Some(
                id,
            ) ==> !is_abbreviated(crate::text::hex_text(id@), prefix@))
        },
        grant matches Ok(at) ==> {
            &&& at < approved@.len()
            &&& approved@[at as int].stream_id == stream_id
            &&& approved@[at as int].viewer.fingerprint matches Some(id) && is_abbreviated(
                crate::text::hex_text(id@),
                prefix@,
            )
            &&& 0 <= k < approved@.len() && k != at && approved@[k].stream_id == stream_id ==> (
            approved@[k].viewer.fingerprint matches Some(id) ==> !is_abbreviated(
                crate::text::hex_text(id@),
                prefix@,
            ))
        },
{
    let models = pending@.map_values(crate::admin::pending_image());
    let names = request_names(models);
    let viewers = grant_names(approved@, stream_id);
    if let Ok(at) = request {
        lemma_unique_match(names, prefix@);
        assert(models[at as int] == pending@[at as int]@);
        lemma_abbreviated(names[at as int], prefix@);
        if 0 <= k < pending@.len() && k != at {
            assert(models[k] == pending@[k]@);
            assert(!has_prefix(prefix@)(names[k]));
            lemma_abbreviated(names[k], prefix@);
        }
    }
    if let Ok(at) = grant {
        lemma_unique_match(viewers, prefix@);
        lemma_abbreviated(viewers[at as int], prefix@);
        if 0 <= k < approved@.len() && k != at {
            assert(!has_prefix(prefix@)(viewers[k]));
            lemma_abbreviated(viewers[k], prefix@);
        }
    }
}

/// Whether a pending request is confirmed.
pub open spec fn is_confirmed() -> spec_fn(PendingModel) -> bool {
    |pending: PendingModel| pending.confirmation is Some
}

/// A request's identifier in hexadecimal.
pub open spec fn in_digits() -> spec_fn(PendingModel) -> Seq<char> {
    |pending: PendingModel| crate::text::hex_text((pending.request.request_id->0)@)
}

proof fn lemma_confirmed_names(pending: Seq<PendingModel>)
    ensures
        confirmed_names(pending) == pending.filter(is_confirmed()).map_values(in_digits()),
    decreases pending.len(),
{
    reveal(Seq::filter);
    if pending.len() > 0 {
        lemma_confirmed_names(pending.drop_last());
        assert(confirmed_names(pending) =~= pending.filter(is_confirmed()).map_values(in_digits()));
    } else {
        assert(confirmed_names(pending) =~= pending.filter(is_confirmed()).map_values(in_digits()));
    }
}

/// The requests that can be approved at once are exactly the confirmed ones, by their whole
/// identifiers and in their order.
pub proof fn confirmed_requests_are_listed(state: &PublisherState, requests: Vec<String>)
    requires
        call_ensures(confirmed_requests, (state,), requests),
    ensures
        crate::text::texts_view(requests@) == state@.pending.filter(is_confirmed()).map_values(
            in_digits(),
        ),
{
    lemma_confirmed_names(state@.pending);
    assert(crate::text::texts_view(requests@) =~= requests@.map_values(|text: String| text@));
}

/// A pairing record is acknowledged only under its own request, and kept keys only by a sign
/// of life behind them. A refusal is told from an answer to something else.
pub proof fn relays_answer_administrators(
    answer: &RelayAnswer,
    expected: &[u8; 32],
    pairing: Result<(), AdminError>,
    history: Result<(), AdminError>,
)
    requires
        call_ensures(check_pairing_ack, (answer, expected), pairing),
        call_ensures(check_history_answer, (answer,), history),
    ensures
        pairing is Ok <==> (*answer matches RelayAnswer::Reply(
            PublisherReply::PairingAck { request_id },
        ) && request_id == *expected),
        history is Ok <==> (*answer matches RelayAnswer::Reply(PublisherReply::Pong { .. })),
        (pairing matches Err(AdminError::Refused)) <==> *answer is Error,
        (history matches Err(AdminError::Refused)) <==> *answer is Error,
{
}

/// Whether identifiers stand in rising order.
pub open spec fn rises(ids: Seq<[u8; 32]>) -> bool {
    forall|i: int, j: int|
        0 <= i < j < ids.len() ==> crate::bytes::id_order(#[trigger] ids[i])
            < crate::bytes::id_order(#[trigger] ids[j])
}

/// A valid state has no more than 65536 records of a sort, queues each record once and in
/// order, and queues offers only for requests that wait.
pub proof fn valid_states_are_in_order(state: &PublisherState, result: Result<(), AdminError>)
    requires
        call_ensures(validate_state, (state,), result),
    ensures
        result is Ok ==> {
            &&& state.pending@.len() <= 65_536 && state.approved@.len() <= 65_536
            &&& state.revoked@.len() <= 65_536 && state.offer_outbox@.len() <= 65_536
            &&& state.decision_outbox@.len() <= 65_536 && state.history_outbox@.len() <= 65_536
            &&& rises(state.offer_outbox@)
            &&& forall|i: int, j: int|
                0 <= i < j < state.decision_outbox@.len() ==> crate::bytes::id_order(
                    (#[trigger] state.decision_outbox@[i]).request_id,
                ) < crate::bytes::id_order((#[trigger] state.decision_outbox@[j]).request_id)
            &&& forall|i: int|
                0 <= i < state.offer_outbox@.len() ==> waits(
                    *state,
                    #[trigger] state.offer_outbox@[i],
                )
        },
        state.pending@.len() == 0 && state.approved@.len() <= 65_536 && state.revoked@.len()
            <= 65_536 && state.offer_outbox@.len() == 0 && state.decision_outbox@.len() == 0
            && state.history_outbox@.len() == 0 ==> result is Ok,
{
    if result is Ok {
        let model = state@;
        assert forall|i: int, j: int|
            0 <= i < j < state.offer_outbox@.len() implies crate::bytes::id_order(
            #[trigger] state.offer_outbox@[i],
        ) < crate::bytes::id_order(#[trigger] state.offer_outbox@[j]) by {
            let leq = crate::admin_model::ids();
            assert(!leq(model.offer_outbox[j], model.offer_outbox[i]));
        }
        assert forall|i: int, j: int|
            0 <= i < j < state.decision_outbox@.len() implies crate::bytes::id_order(
            (#[trigger] state.decision_outbox@[i]).request_id,
        ) < crate::bytes::id_order((#[trigger] state.decision_outbox@[j]).request_id) by {
            let leq = crate::admin_model::decisions();
            assert(model.decision_outbox[i] == state.decision_outbox@[i]@);
            assert(model.decision_outbox[j] == state.decision_outbox@[j]@);
            assert(!leq(model.decision_outbox[j], model.decision_outbox[i]));
        }
        assert forall|i: int| 0 <= i < state.offer_outbox@.len() implies waits(
            *state,
            #[trigger] state.offer_outbox@[i],
        ) by {
            let id = model.offer_outbox[i];
            assert(model.is_pending(id));
            let k = choose|k: int|
                0 <= k < model.pending.len() && (
                #[trigger] model.pending[k]).request.request_id == Some(id);
            assert(model.pending[k] == state.pending@[k]@);
            assert(state.pending@[k].request.request_id == Some(id));
        }
    }
}

/// A stored state is accepted as it is if it is whole, unchanged, of the third version and
/// valid. One of the second version keeps its requests and its access, and every viewer that
/// has access is queued for the kept keys; nothing else is accepted.
pub proof fn stored_states_are_accepted_as_they_are(
    current: Option<DecodedState>,
    older: Option<DecodedState>,
    result: Result<PublisherState, AdminError>,
)
    requires
        call_ensures(accept_state, (current, older), result),
    ensures
        ({
            let is_current = current is Some && current->0.version == 3 && current->0.unread == 0
                && current->0.canonical;
            let is_older = older is Some && older->0.version == 2 && older->0.unread == 0
                && older->0.canonical;
            &&& !is_current && !is_older ==> (result matches Err(AdminError::StateNotCanonical))
            &&& is_current && result is Ok ==> result->Ok_0@ == current->0.state@
            &&& !is_current && result is Ok ==> {
                &&& is_older
                &&& result->Ok_0@.pending == older->0.state@.pending
                &&& result->Ok_0.approved@ == older->0.state.approved@
                &&& result->Ok_0.revoked@ == older->0.state.revoked@
                &&& result->Ok_0.history_outbox@ == older->0.state.approved@
                &&& result->Ok_0.offer_outbox@.len() == 0
                &&& result->Ok_0.decision_outbox@.len() == 0
            }
        }),
{
    if let Ok(state) = result {
        assert(state@.decision_outbox.len() == state.decision_outbox@.len());
    }
}

/// A state that is not valid, or takes more than 4 MiB, is not written.
pub proof fn only_valid_states_are_saved(
    state: &PublisherState,
    encoded_len: usize,
    saved: Result<(), AdminError>,
    valid: Result<(), AdminError>,
)
    requires
        call_ensures(check_for_saving, (state, encoded_len), saved),
        call_ensures(validate_state, (state,), valid),
    ensures
        saved is Ok <==> valid is Ok && encoded_len <= 4_194_304,
        valid is Ok && saved is Err ==> saved == Err::<(), AdminError>(AdminError::StateTooLarge),
        valid is Err ==> saved == valid,
{
}

/// A policy that trusts an authority needs one, and revocations that are given must be valid
/// under it.
pub proof fn trusting_policies_need_an_authority(
    mode: ViewerPolicy,
    has_authority: bool,
    has_revocations: bool,
    revocations_valid: bool,
    result: Result<ApprovalPolicy, AdminError>,
)
    requires
        call_ensures(
            load_policy,
            (mode, has_authority, has_revocations, revocations_valid),
            result,
        ),
    ensures
        result matches Ok(policy) ==> policy.mode == mode && policy.has_authority == has_authority
            && (mode is TrustedCa ==> has_authority) && (has_authority && has_revocations
            ==> revocations_valid),
        result is Err ==> (mode is TrustedCa && !has_authority) || (has_authority
            && has_revocations && !revocations_valid),
        (result matches Err(AdminError::AuthorityMissing)) <==> mode is TrustedCa
            && !has_authority,
{
}

/// A relay is trusted if it shows the key that was pinned, or else the one it showed before.
/// A first key is learned where none was pinned; another key than expected never is.
pub proof fn relays_show_the_expected_key(
    pin: &Option<[u8; 32]>,
    known: &Option<[u8; 32]>,
    actual: &[u8; 32],
    learn: Option<bool>,
    fingerprint: [u8; 32],
)
    requires
        call_ensures(check_relay_key, (pin, known, actual), learn),
        call_ensures(relay_fingerprint, (actual,), fingerprint),
    ensures
        fingerprint == sha256_of(actual@),
        *pin == Some(*actual) ==> learn == Some(false),
        *pin is Some && *pin != Some(*actual) ==> learn is None,
        *pin is None && *known is None ==> learn == Some(true),
        *pin is None && *known is Some ==> (learn is Some <==> *known == Some(*actual)),
{
}

/// The words of administrative commands.
pub open spec fn command_words() -> Seq<Seq<char>> {
    seq![
        "requests"@,
        "approve"@,
        "approve-all"@,
        "deny"@,
        "revoke"@,
        "viewers"@,
        "credential-request"@,
    ]
}

/// An administrative command is known by one of its seven words, anywhere in the arguments.
pub proof fn commands_are_known_by_their_words(arguments: &Vec<String>, found: bool)
    requires
        call_ensures(is_admin_command, (arguments,), found),
    ensures
        found <==> exists|i: int|
            0 <= i < arguments@.len() && command_words().contains((#[trigger] arguments@[i])@),
{
    let words = command_words();
    assert forall|i: int| 0 <= i < arguments@.len() implies (crate::admin::names_command(
        (#[trigger] arguments@[i])@,
    ) <==> words.contains(arguments@[i]@)) by {
        let word = arguments@[i]@;
        if crate::admin::names_command(word) {
            let w: int = if word == words[0] {
                0
            } else if word == words[1] {
                1
            } else if word == words[2] {
                2
            } else if word == words[3] {
                3
            } else if word == words[4] {
                4
            } else if word == words[5] {
                5
            } else {
                6
            };
            assert(words[w] == word);
        }
        if words.contains(word) {
            let w = choose|w: int| 0 <= w < words.len() && words[w] == word;
            assert(w == 0 || w == 1 || w == 2 || w == 3 || w == 4 || w == 5 || w == 6);
        }
    }
    if found {
        let i = choose|i: int|
            0 <= i < arguments@.len() && crate::admin::names_command((#[trigger] arguments@[i])@);
        assert(0 <= i < arguments@.len());
        assert(words.contains(arguments@[i]@));
    }
    if exists|i: int| 0 <= i < arguments@.len() && words.contains((#[trigger] arguments@[i])@) {
        let i = choose|i: int|
            0 <= i < arguments@.len() && words.contains((#[trigger] arguments@[i])@);
        assert(crate::admin::names_command(arguments@[i]@));
        assert(crate::admin::hold_command(arguments@));
    }
}

/// Listing viewers, revoking access and asking an authority need no relay; asking an
/// authority needs no stored state either.
pub proof fn some_commands_need_no_relay(command: &AdminCommand, offline: bool, uses: bool)
    requires
        call_ensures(AdminCommand::is_offline, (command,), offline),
        call_ensures(AdminCommand::uses_state, (command,), uses),
    ensures
        *command is Viewers || *command is Revoke ==> offline && uses,
        *command is CredentialRequest ==> offline && !uses,
        !(*command is Viewers) && !(*command is Revoke) && !(*command is CredentialRequest)
            ==> !offline && uses,
{
}

} // verus!
