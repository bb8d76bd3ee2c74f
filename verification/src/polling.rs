//! One poll of the remote table as a whole, and what its steps do to the state.
use crate::clients;
use crate::clients::{ClientView, Clients};
use crate::counts;
use crate::runtime::{Shared, SharedView, Source};
use crate::sync;
use crate::sync::{Action, Phase, PollErrorView, Poller, Response};
use std::sync::Arc;
use vstd::prelude::*;
use vstd::string::*;
use vstd::utf8::*;

verus! {

// ---------------------------------------------------------------------------
// Responses

/// What a response is good for, by its status alone: 200 brings a table of up to 16 MiB,
/// 304 confirms one that was downloaded before, a status of an error is reported as the
/// HTTP client reports it, and any other is unexpected.
pub proof fn law_responses(cached: bool, status: u16, report: Seq<char>, length: Option<u64>)
    ensures
        ({
            let answer = sync::response(cached, status, report, length);
            let large = length is Some && length->0 > 16 * 1024 * 1024;
            &&& status == 200 && !large ==> answer == Ok::<Response, PollErrorView>(
                Response::Download,
            )
            &&& status == 200 && large ==> answer == Err::<Response, PollErrorView>(
                PollErrorView::TooLarge,
            )
            &&& status == 304 && cached ==> answer == Ok::<Response, PollErrorView>(
                Response::Unchanged,
            )
            &&& status == 304 && !cached ==> answer == Err::<Response, PollErrorView>(
                PollErrorView::NotModified,
            )
            &&& status / 100 == 4 || status / 100 == 5 ==> answer == Err::<Response, PollErrorView>(
                PollErrorView::HttpError(report),
            )
            &&& status != 200 && status != 304 && status / 100 != 4 && status / 100 != 5 ==> answer
                == Err::<Response, PollErrorView>(PollErrorView::UnexpectedStatus(status))
        }),
        sync::MAX_CSV_BYTES == 16 * 1024 * 1024,
{
}

/// A file holds the table of its CSV records, in UTF-8 and with `#` in front of comments;
/// the saved one up to 16 MiB.
pub proof fn law_files(chars: Seq<char>, bytes: Seq<u8>)
    ensures
        ({
            let records = clients::csv_records(chars, '#' as u8);
            let read = sync::file_table(encode_utf8(chars));
            match clients::table(records) {
                Ok(table) => read == Ok::<Map<u64, ClientView>, PollErrorView>(table),
                Err(error) => read == Err::<Map<u64, ClientView>, PollErrorView>(
                    PollErrorView::Clients(error),
                ),
            }
        }),
        !valid_utf8(bytes) ==> sync::file_table(bytes) is Err,
        bytes.len() <= 16 * 1024 * 1024 ==> (sync::saved_table(bytes) is Ok <==> sync::file_table(
            bytes,
        ) is Ok),
        sync::saved_table(bytes) matches Ok(table) ==> bytes.len() <= 16 * 1024 * 1024
            && sync::file_table(bytes) == Ok::<Map<u64, ClientView>, PollErrorView>(table),
{
    encode_utf8_valid_utf8(chars);
    encode_utf8_decode_utf8(chars);
}

// ---------------------------------------------------------------------------
// The state

/// Whether nothing differs but what is known of the synchronization and its counters.
#[verifier::opaque]
pub open spec fn same_service(a: SharedView, b: SharedView) -> bool {
    &&& a.dhcp_ready == b.dhcp_ready
    &&& a.requests == b.requests
    &&& a.responses == b.responses
    &&& a.errors == b.errors
    &&& a.unknown == b.unknown
    &&& a.boot_mode_mismatches == b.boot_mode_mismatches
    &&& a.request_labels == b.request_labels
    &&& a.response_labels == b.response_labels
    &&& a.durations == b.durations
}

/// A poll that succeeded is counted, sets the time of the last success and clears the
/// error; one that failed is counted and leaves its error. Neither touches the table.
pub proof fn law_ends_of_polls(shared: SharedView, why: Seq<char>, unix_now: u64)
    ensures
        ({
            let after = sync::with_success(shared, unix_now);
            &&& same_service(after, shared) && after.snapshot == shared.snapshot
            &&& after.sync_success == counts::plus_one(shared.sync_success)
            &&& after.sync_errors == shared.sync_errors
            &&& after.state_read_errors == shared.state_read_errors
            &&& after.state_write_errors == shared.state_write_errors
            &&& after.status.last_success == Some(unix_now)
            &&& after.status.last_error is None
            &&& after.status.source == shared.status.source
            &&& after.status.data_since == shared.status.data_since
        }),
        ({
            let after = sync::with_failure(shared, why);
            &&& same_service(after, shared) && after.snapshot == shared.snapshot
            &&& after.sync_success == shared.sync_success
            &&& after.sync_errors == counts::plus_one(shared.sync_errors)
            &&& after.state_read_errors == shared.state_read_errors
            &&& after.state_write_errors == shared.state_write_errors
            &&& after.status.last_success == shared.status.last_success
            &&& after.status.last_error == Some(why)
            &&& after.status.source == shared.status.source
            &&& after.status.data_since == shared.status.data_since
        }),
{
    reveal(same_service);
}

/// A downloaded table is used from now on; a saved one is used without a time, and one
/// that cannot be read is counted and leaves its error.
pub proof fn law_tables_in_use(
    shared: SharedView,
    clients: Clients,
    why: Seq<char>,
    unix_now: u64,
)
    ensures
        ({
            let after = sync::with_remote(shared, clients, unix_now);
            &&& same_service(after, shared)
            &&& after.snapshot == Some(Arc::new(clients))
            &&& after.status.source == Some(Source::Remote)
            &&& after.status.data_since == Some(unix_now)
            &&& after.status.last_success == shared.status.last_success
            &&& after.status.last_error == shared.status.last_error
            &&& after.sync_success == shared.sync_success
            &&& after.sync_errors == shared.sync_errors
            &&& after.state_read_errors == shared.state_read_errors
            &&& after.state_write_errors == shared.state_write_errors
        }),
        ({
            let after = sync::with_saved(shared, clients);
            &&& same_service(after, shared)
            &&& after.snapshot == Some(Arc::new(clients))
            &&& after.status.source == Some(Source::State)
            &&& after.status.data_since == shared.status.data_since
            &&& after.status.last_success == shared.status.last_success
            &&& after.status.last_error == shared.status.last_error
            &&& after.sync_success == shared.sync_success
            &&& after.sync_errors == shared.sync_errors
            &&& after.state_read_errors == shared.state_read_errors
            &&& after.state_write_errors == shared.state_write_errors
        }),
        ({
            let after = sync::with_read_error(shared, why);
            &&& same_service(after, shared) && after.snapshot == shared.snapshot
            &&& after.state_read_errors == counts::plus_one(shared.state_read_errors)
            &&& after.status.last_error == Some(why)
            &&& after.status.source == shared.status.source
            &&& after.status.data_since == shared.status.data_since
            &&& after.status.last_success == shared.status.last_success
            &&& after.sync_success == shared.sync_success
            &&& after.sync_errors == shared.sync_errors
            &&& after.state_write_errors == shared.state_write_errors
        }),
{
    reveal(same_service);
}

// ---------------------------------------------------------------------------
// Whole polls

/// Whether a poll failed and left the table, its source and its age, and what is
/// remembered of the last download as they were.
#[verifier::opaque]
pub open spec fn kept(
    before: Poller,
    after: Poller,
    old_state: SharedView,
    new_state: SharedView,
) -> bool {
    &&& after.cache@ == before.cache@
    &&& new_state.snapshot == old_state.snapshot
    &&& new_state.status.source == old_state.status.source
    &&& new_state.status.data_since == old_state.status.data_since
    &&& new_state.status.last_success == old_state.status.last_success
    &&& new_state.status.last_error is Some
    &&& new_state.sync_errors == counts::plus_one(old_state.sync_errors)
    &&& new_state.sync_success == old_state.sync_success
}

/// Whether a poll succeeded.
#[verifier::opaque]
pub open spec fn succeeded(old_state: SharedView, new_state: SharedView, unix_now: u64) -> bool {
    &&& new_state.sync_success == counts::plus_one(old_state.sync_success)
    &&& new_state.sync_errors == old_state.sync_errors
    &&& new_state.state_write_errors == old_state.state_write_errors
    &&& new_state.status.last_success == Some(unix_now)
    &&& new_state.status.last_error is None
}

/// What a poll comes to where the body was received.
#[verifier::opaque]
pub open spec fn received(
    before: Poller,
    after: Poller,
    old_state: SharedView,
    new_state: SharedView,
    body: Seq<u8>,
    saved: bool,
    unix_now: u64,
) -> bool {
    let known = before.cache@.body == Some(body);
    let table = sync::file_table(body);
    if known {
        &&& succeeded(old_state, new_state, unix_now)
        &&& new_state.snapshot == old_state.snapshot
        &&& new_state.status.source == old_state.status.source
        &&& new_state.status.data_since == old_state.status.data_since
        &&& after.cache@.body == Some(body)
    } else if table is Ok && saved {
        &&& succeeded(old_state, new_state, unix_now)
        &&& new_state.snapshot is Some
        &&& (*new_state.snapshot->0)@ == table->Ok_0
        &&& new_state.status.source == Some(Source::Remote)
        &&& new_state.status.data_since == Some(unix_now)
        &&& after.cache@.body == Some(body)
    } else {
        &&& kept(before, after, old_state, new_state)
        &&& new_state.state_write_errors == if table is Ok {
            counts::plus_one(old_state.state_write_errors)
        } else {
            old_state.state_write_errors as int
        }
    }
}

proof fn lemma_saved(
    before: Poller,
    after: Poller,
    old_state: SharedView,
    new_state: SharedView,
    clients: Clients,
    body: Seq<u8>,
    unix_now: u64,
)
    requires
        before.cache@.body != Some(body),
        sync::file_table(body) == Ok::<Map<u64, ClientView>, PollErrorView>(clients@),
        new_state == sync::with_success(
            sync::with_remote(old_state, clients, unix_now),
            unix_now,
        ),
        after.cache@.body == Some(body),
    ensures
        same_service(new_state, old_state),
        new_state.state_read_errors == old_state.state_read_errors,
        received(before, after, old_state, new_state, body, true, unix_now),
{
    reveal(same_service);
    reveal(succeeded);
    reveal(received);
}

proof fn lemma_not_saved(
    before: Poller,
    after: Poller,
    old_state: SharedView,
    new_state: SharedView,
    body: Seq<u8>,
    why: Seq<char>,
    unix_now: u64,
)
    requires
        before.cache@.body != Some(body),
        sync::file_table(body) is Ok,
        new_state == sync::with_failure(
            SharedView {
                state_write_errors: crate::series::raised(old_state.state_write_errors),
                ..old_state
            },
            why,
        ),
        after.cache@ == before.cache@,
    ensures
        same_service(new_state, old_state),
        new_state.state_read_errors == old_state.state_read_errors,
        received(before, after, old_state, new_state, body, false, unix_now),
{
    reveal(same_service);
    reveal(kept);
    reveal(received);
}

proof fn lemma_known(
    before: Poller,
    after: Poller,
    old_state: SharedView,
    new_state: SharedView,
    body: Seq<u8>,
    saved: bool,
    unix_now: u64,
)
    requires
        before.cache@.body == Some(body),
        new_state == sync::with_success(old_state, unix_now),
        after.cache@.body == Some(body),
    ensures
        same_service(new_state, old_state),
        new_state.state_read_errors == old_state.state_read_errors,
        received(before, after, old_state, new_state, body, saved, unix_now),
{
    reveal(same_service);
    reveal(succeeded);
    reveal(received);
}

proof fn lemma_confirmed(old_state: SharedView, new_state: SharedView, unix_now: u64)
    requires
        new_state == sync::with_success(old_state, unix_now),
    ensures
        same_service(new_state, old_state),
        new_state.state_read_errors == old_state.state_read_errors,
        succeeded(old_state, new_state, unix_now),
        new_state.snapshot == old_state.snapshot,
        new_state.status.source == old_state.status.source,
        new_state.status.data_since == old_state.status.data_since,
{
    reveal(same_service);
    reveal(succeeded);
}

proof fn lemma_gave_up(
    before: Poller,
    after: Poller,
    old_state: SharedView,
    new_state: SharedView,
    why: Seq<char>,
)
    requires
        before.gave_up(after, old_state, new_state, why),
    ensures
        same_service(new_state, old_state),
        new_state.state_read_errors == old_state.state_read_errors,
        new_state.state_write_errors == old_state.state_write_errors,
        kept(before, after, old_state, new_state),
{
    reveal(same_service);
    reveal(kept);
}

proof fn lemma_no_table(
    before: Poller,
    after: Poller,
    old_state: SharedView,
    new_state: SharedView,
    body: Seq<u8>,
    saved: bool,
    unix_now: u64,
)
    requires
        before.cache@.body != Some(body),
        sync::file_table(body) is Err,
        kept(before, after, old_state, new_state),
        new_state.state_write_errors == old_state.state_write_errors,
    ensures
        received(before, after, old_state, new_state, body, saved, unix_now),
{
    reveal(received);
}

fn save(poller: &mut Poller, shared: &mut Shared, saved: Result<(), String>, unix_now: u64)
    requires
        old(poller).wf(),
        old(poller).phase is Saving,
        old(shared)@.wf(),
    ensures
        final(poller).wf(),
        final(poller).phase is Idle,
        final(shared)@.wf(),
        same_service(final(shared)@, old(shared)@),
        final(shared)@.state_read_errors == old(shared)@.state_read_errors,
        received(
            *old(poller),
            *final(poller),
            old(shared)@,
            final(shared)@,
            old(poller).phase->Saving_0.body@,
            saved is Ok,
            unix_now,
        ),
{
    let ghost before = *poller;
    let ghost state = shared@;
    let ghost body = poller.phase->Saving_0.body@;
    let ghost clients = poller.phase->Saving_1;
    match saved {
        Ok(()) => {
            poller.on_saved(shared, unix_now);
            proof {
                lemma_saved(before, *poller, state, shared@, clients, body, unix_now);
            }
        },
        Err(why) => {
            let ghost text = crate::messages::poll_text(PollErrorView::Save) + ": "@ + why@;
            poller.on_save_failed(shared, why);
            proof {
                lemma_not_saved(before, *poller, state, shared@, body, text, unix_now);
            }
        },
    }
}

fn receive(
    poller: &mut Poller,
    shared: &mut Shared,
    body: &[u8],
    saved: Result<(), String>,
    unix_now: u64,
)
    requires
        old(poller).wf(),
        old(poller).phase is Receiving,
        old(poller).phase->Receiving_0.body@.len() == 0,
        old(shared)@.wf(),
    ensures
        final(poller).wf(),
        final(poller).phase is Idle,
        final(shared)@.wf(),
        same_service(final(shared)@, old(shared)@),
        final(shared)@.state_read_errors == old(shared)@.state_read_errors,
        body@.len() <= 16 * 1024 * 1024 ==> received(
            *old(poller),
            *final(poller),
            old(shared)@,
            final(shared)@,
            body@,
            saved is Ok,
            unix_now,
        ),
        body@.len() > 16 * 1024 * 1024 ==> kept(
            *old(poller),
            *final(poller),
            old(shared)@,
            final(shared)@,
        ) && final(shared)@.state_write_errors == old(shared)@.state_write_errors,
{
    let ghost before = *poller;
    let ghost state = shared@;
    if poller.on_chunk(shared, body) != Action::Receive {
        proof {
            lemma_gave_up(
                before,
                *poller,
                state,
                shared@,
                crate::messages::poll_text(PollErrorView::TooLarge),
            );
        }
        return;
    }
    assert(poller.phase->Receiving_0.body@ =~= body@);
    let ghost middle = *poller;
    if poller.on_end(shared, unix_now) != Action::Save {
        proof {
            if before.cache@.body == Some(body@) {
                lemma_known(before, *poller, state, shared@, body@, saved is Ok, unix_now);
            } else {
                let error = sync::file_table(body@)->Err_0;
                lemma_gave_up(
                    before,
                    *poller,
                    state,
                    shared@,
                    crate::messages::poll_text(error),
                );
                lemma_no_table(before, *poller, state, shared@, body@, saved is Ok, unix_now);
            }
        }
        return;
    }
    let ghost saving = *poller;
    save(poller, shared, saved, unix_now);
    proof {
        lemma_same_cache(before, saving, *poller, state, shared@, body@, saved is Ok, unix_now);
    }
}

proof fn lemma_same_cache(
    a: Poller,
    b: Poller,
    after: Poller,
    old_state: SharedView,
    new_state: SharedView,
    body: Seq<u8>,
    saved: bool,
    unix_now: u64,
)
    requires
        a.cache@ == b.cache@,
        received(b, after, old_state, new_state, body, saved, unix_now),
    ensures
        received(a, after, old_state, new_state, body, saved, unix_now),
{
    reveal(received);
    reveal(kept);
}

/// Takes a whole response through a poll: its head, its body, and whether the body could
/// be saved, should it hold a new table.
///
/// A new table is used exactly if the status is 200, the body is not too long and holds
/// one, and it could be saved. A body that was downloaded before, and a 304 for it, are
/// successes that change no table. Everything else fails and changes none.
pub fn run(
    poller: &mut Poller,
    shared: &mut Shared,
    status: u16,
    report: &str,
    length: Option<u64>,
    body: &[u8],
    saved: Result<(), String>,
    unix_now: u64,
)
    requires
        old(poller).wf(),
        old(poller).phase is Idle,
        old(shared)@.wf(),
    ensures
        final(poller).wf(),
        final(poller).phase is Idle,
        final(shared)@.wf(),
        same_service(final(shared)@, old(shared)@),
        final(shared)@.state_read_errors == old(shared)@.state_read_errors,
        ({
            let limit = 16 * 1024 * 1024;
            let fits = status == 200 && !(length is Some && length->0 > limit) && body@.len()
                <= limit;
            let before = old(shared)@;
            let after = final(shared)@;
            let confirmed = status == 304 && old(poller).cache@.body is Some;
            &&& confirmed ==> succeeded(before, after, unix_now) && after.snapshot
                == before.snapshot && after.status.source == before.status.source
                && after.status.data_since == before.status.data_since && final(poller).cache@
                == old(poller).cache@
            &&& fits ==> received(
                *old(poller),
                *final(poller),
                before,
                after,
                body@,
                saved is Ok,
                unix_now,
            )
            &&& !confirmed && !fits ==> kept(*old(poller), *final(poller), before, after)
                && after.state_write_errors == before.state_write_errors
        }),
{
    let ghost before = *poller;
    let ghost state = shared@;
    poller.begin();
    if poller.on_head(shared, status, report, length, None, None, unix_now) != Action::Receive {
        proof {
            match sync::response(before.cache@.body is Some, status, report@, length) {
                Ok(_) => {
                    lemma_confirmed(state, shared@, unix_now);
                },
                Err(error) => {
                    lemma_gave_up(
                        before,
                        *poller,
                        state,
                        shared@,
                        crate::messages::poll_text(error),
                    );
                },
            }
        }
        return;
    }
    let ghost receiving = *poller;
    receive(poller, shared, body, saved, unix_now);
    proof {
        if body@.len() <= 16 * 1024 * 1024 {
            lemma_same_cache(
                before,
                receiving,
                *poller,
                state,
                shared@,
                body@,
                saved is Ok,
                unix_now,
            );
        } else {
            reveal(kept);
        }
    }
}

/// Loads a saved file and tells whether it could be used: it is used exactly if it holds a
/// table, and is then reported neither as a poll nor with an age.
pub fn load(shared: &mut Shared, bytes: &[u8]) -> (used: bool)
    requires
        old(shared)@.wf(),
    ensures
        final(shared)@.wf(),
        same_service(final(shared)@, old(shared)@),
        used == (bytes@.len() <= 16 * 1024 * 1024 && sync::file_table(bytes@) is Ok),
        final(shared)@.status.last_success == old(shared)@.status.last_success,
        final(shared)@.status.data_since == old(shared)@.status.data_since,
        final(shared)@.sync_success == old(shared)@.sync_success,
        final(shared)@.sync_errors == old(shared)@.sync_errors,
        used ==> final(shared)@.snapshot is Some && (*final(shared)@.snapshot->0)@
            == sync::file_table(bytes@)->Ok_0 && final(shared)@.status.source == Some(
            Source::State,
        ),
        !used ==> final(shared)@.snapshot == old(shared)@.snapshot && final(shared)@.status.source
            == old(shared)@.status.source && final(shared)@.state_read_errors == counts::plus_one(
            old(shared)@.state_read_errors,
        ) && final(shared)@.status.last_error is Some,
{
    reveal(same_service);
    match sync::load_saved(shared, bytes) {
        Ok(()) => true,
        Err(_) => false,
    }
}

} // verus!
