//! Polling of the remote client table: what each step decides and changes.
use crate::clients;
use crate::clients::{ClientView, Clients, ClientsError, ClientsErrorView};
use crate::messages;
use crate::runtime::{Shared, SharedView, Source, SyncStatusView};
use crate::series;
use crate::text;
use std::sync::Arc;
use vstd::prelude::*;
use vstd::string::*;
use vstd::utf8::*;

verus! {

/// The longest client table that is taken: 16 MiB.
pub const MAX_CSV_BYTES: usize = 16_777_216;

/// The last table that was downloaded, and the validators that came with it.
#[derive(Debug)]
pub struct RemoteCache {
    pub etag: Option<Vec<u8>>,
    pub modified: Option<Vec<u8>>,
    pub body: Option<Vec<u8>>,
}

/// What a `RemoteCache` holds.
#[verifier::ext_equal]
pub struct RemoteCacheView {
    pub etag: Option<Seq<u8>>,
    pub modified: Option<Seq<u8>>,
    pub body: Option<Seq<u8>>,
}

/// Bytes that may be missing.
pub open spec fn bytes_of(bytes: Option<Vec<u8>>) -> Option<Seq<u8>> {
    match bytes {
        Some(b) => Some(b@),
        None => None,
    }
}

impl View for RemoteCache {
    type V = RemoteCacheView;

    open spec fn view(&self) -> RemoteCacheView {
        RemoteCacheView {
            etag: bytes_of(self.etag),
            modified: bytes_of(self.modified),
            body: bytes_of(self.body),
        }
    }
}

impl Default for RemoteCache {
    fn default() -> (cache: Self)
        ensures
            cache@ == (RemoteCacheView { etag: None, modified: None, body: None }),
    {
        RemoteCache { etag: None, modified: None, body: None }
    }
}

/// A downloaded table and the validators that came with it.
#[derive(Debug)]
pub struct Download {
    pub body: Vec<u8>,
    pub etag: Option<Vec<u8>>,
    pub modified: Option<Vec<u8>>,
}

/// Why a table is not taken.
#[derive(Debug, Clone)]
pub enum PollError {
    /// The remote file is said to be unchanged, but none was downloaded before.
    NotModified,
    /// The server reports an error: what the HTTP client says of it.
    HttpError(String),
    /// A status that is neither an error nor expected.
    UnexpectedStatus(u16),
    TooLarge,
    SavedTooLarge,
    /// What is wrong with the bytes, in words.
    NotUtf8(String),
    SavedNotUtf8(String),
    Clients(ClientsError),
    SavedClients(ClientsError),
    /// The table could not be saved.
    Save,
}

/// What a `PollError` holds.
pub enum PollErrorView {
    NotModified,
    HttpError(Seq<char>),
    UnexpectedStatus(u16),
    TooLarge,
    SavedTooLarge,
    NotUtf8(Seq<char>),
    SavedNotUtf8(Seq<char>),
    Clients(ClientsErrorView),
    SavedClients(ClientsErrorView),
    Save,
}

impl View for PollError {
    type V = PollErrorView;

    open spec fn view(&self) -> PollErrorView {
        match self {
            PollError::NotModified => PollErrorView::NotModified,
            PollError::HttpError(report) => PollErrorView::HttpError(report@),
            PollError::UnexpectedStatus(status) => PollErrorView::UnexpectedStatus(*status),
            PollError::TooLarge => PollErrorView::TooLarge,
            PollError::SavedTooLarge => PollErrorView::SavedTooLarge,
            PollError::NotUtf8(fault) => PollErrorView::NotUtf8(fault@),
            PollError::SavedNotUtf8(fault) => PollErrorView::SavedNotUtf8(fault@),
            PollError::Clients(error) => PollErrorView::Clients(error@),
            PollError::SavedClients(error) => PollErrorView::SavedClients(error@),
            PollError::Save => PollErrorView::Save,
        }
    }
}

// ---------------------------------------------------------------------------
// Responses

/// What to do with a response.
#[derive(Debug, Clone, Copy, PartialEq, Eq, Structural)]
pub enum Response {
    /// The table in use is still the remote one.
    Unchanged,
    /// The body is to be read.
    Download,
}

/// What to do with a response of that status and announced length, where `cached`
/// tells whether a table was downloaded before, and `report` is what the HTTP client
/// says of the status if it is that of an error.
pub open spec fn response(
    cached: bool,
    status: u16,
    report: Seq<char>,
    length: Option<u64>,
) -> Result<Response, PollErrorView> {
    if status == 304 {
        if cached {
            Ok(Response::Unchanged)
        } else {
            Err(PollErrorView::NotModified)
        }
    } else if 400 <= status <= 599 {
        Err(PollErrorView::HttpError(report))
    } else if status != 200 {
        Err(PollErrorView::UnexpectedStatus(status))
    } else if length is Some && length->0 > MAX_CSV_BYTES {
        Err(PollErrorView::TooLarge)
    } else {
        Ok(Response::Download)
    }
}

impl RemoteCache {
    /// The validators for a conditional request: those of the last download.
    pub fn validators(&self) -> (headers: (Option<&Vec<u8>>, Option<&Vec<u8>>))
        ensures
            headers.0 is Some <==> self@.etag is Some,
            headers.0 matches Some(etag) ==> self@.etag == Some(etag@),
            headers.1 is Some <==> self@.modified is Some,
            headers.1 matches Some(modified) ==> self@.modified == Some(modified@),
    {
        (self.etag.as_ref(), self.modified.as_ref())
    }

    /// Decides on a response from its head. Only status 200 brings a table, and 304
    /// confirms one that was downloaded before.
    pub fn on_response(&self, status: u16, report: &str, length: Option<u64>) -> (next: Result<
        Response,
        PollError,
    >)
        ensures
            match next {
                Ok(step) => response(self@.body is Some, status, report@, length) == Ok::<
                    Response,
                    PollErrorView,
                >(step),
                Err(error) => response(self@.body is Some, status, report@, length) == Err::<
                    Response,
                    PollErrorView,
                >(error@),
            },
            next matches Ok(Response::Download) ==> status == 200,
            next matches Ok(Response::Unchanged) ==> status == 304 && self@.body is Some,
    {
        if status == 304 {
            return if self.body.is_some() {
                Ok(Response::Unchanged)
            } else {
                Err(PollError::NotModified)
            };
        }
        if 400 <= status && status <= 599 {
            return Err(PollError::HttpError(report.to_owned()));
        }
        if status != 200 {
            return Err(PollError::UnexpectedStatus(status));
        }
        match length {
            Some(length) => {
                if length > MAX_CSV_BYTES as u64 {
                    return Err(PollError::TooLarge);
                }
            },
            None => {},
        }
        Ok(Response::Download)
    }
}

/// Takes one more piece of the body, if the whole stays within the limit.
pub fn accept_chunk(body: &mut Vec<u8>, chunk: &[u8]) -> (taken: Result<(), PollError>)
    ensures
        taken is Ok <==> old(body)@.len() + chunk@.len() <= MAX_CSV_BYTES,
        taken is Ok ==> final(body)@ == old(body)@ + chunk@,
        taken matches Err(error) ==> error@ == PollErrorView::TooLarge && final(body)@ == old(
            body,
        )@,
{
    if chunk.len() > MAX_CSV_BYTES || body.len() > MAX_CSV_BYTES - chunk.len() {
        return Err(PollError::TooLarge);
    }
    body.extend_from_slice(chunk);
    Ok(())
}

// ---------------------------------------------------------------------------
// Tables

/// The table in a file, if the file holds one.
pub open spec fn file_table(bytes: Seq<u8>) -> Result<Map<u64, ClientView>, PollErrorView> {
    if !valid_utf8(bytes) {
        Err(PollErrorView::NotUtf8(text::utf8_fault(bytes)))
    } else {
        match clients::table(clients::csv_records(decode_utf8(bytes), 35)) {
            Ok(table) => Ok(table),
            Err(error) => Err(PollErrorView::Clients(error)),
        }
    }
}

fn parse_file(bytes: &[u8]) -> (parsed: Result<Clients, PollError>)
    ensures
        match parsed {
            Ok(clients) => file_table(bytes@) == Ok::<Map<u64, ClientView>, PollErrorView>(
                clients@,
            ) && clients.wf(),
            Err(error) => file_table(bytes@) == Err::<Map<u64, ClientView>, PollErrorView>(error@),
        },
        bytes@.len() == 0 ==> parsed is Ok && parsed->Ok_0@ == Map::<u64, ClientView>::empty(),
{
    match text::from_utf8(bytes) {
        Ok(text) => {
            proof {
                encode_utf8_decode_utf8(text@);
                text::lemma_encode_utf8_empty(text@);
            }
            match Clients::parse(text) {
                Ok(clients) => Ok(clients),
                Err(error) => Err(PollError::Clients(error)),
            }
        },
        Err(fault) => {
            proof {
                if bytes@.len() == 0 {
                    encode_utf8_valid_utf8(Seq::<char>::empty());
                    assert(bytes@ =~= encode_utf8(Seq::<char>::empty()));
                }
            }
            Err(PollError::NotUtf8(fault))
        },
    }
}

/// The table in the saved file.
pub open spec fn saved_table(bytes: Seq<u8>) -> Result<Map<u64, ClientView>, PollErrorView> {
    if bytes.len() > MAX_CSV_BYTES {
        Err(PollErrorView::SavedTooLarge)
    } else {
        match file_table(bytes) {
            Err(PollErrorView::NotUtf8(fault)) => Err(PollErrorView::SavedNotUtf8(fault)),
            Err(PollErrorView::Clients(error)) => Err(PollErrorView::SavedClients(error)),
            other => other,
        }
    }
}

/// Reads the saved file.
pub fn parse_saved(bytes: &[u8]) -> (parsed: Result<Clients, PollError>)
    ensures
        match parsed {
            Ok(clients) => saved_table(bytes@) == Ok::<Map<u64, ClientView>, PollErrorView>(
                clients@,
            ) && clients.wf(),
            Err(error) => saved_table(bytes@) == Err::<Map<u64, ClientView>, PollErrorView>(error@),
        },
{
    if bytes.len() > MAX_CSV_BYTES {
        return Err(PollError::SavedTooLarge);
    }
    match parse_file(bytes) {
        Err(PollError::NotUtf8(fault)) => Err(PollError::SavedNotUtf8(fault)),
        Err(PollError::Clients(error)) => Err(PollError::SavedClients(error)),
        other => other,
    }
}

impl RemoteCache {
    /// The new table in a downloaded body; none if the body is that of the last
    /// download.
    pub fn check_body(&self, body: &Vec<u8>) -> (update: Result<Option<Clients>, PollError>)
        ensures
            match update {
                Ok(None) => self@.body == Some(body@),
                Ok(Some(clients)) => self@.body != Some(body@) && file_table(body@) == Ok::<
                    Map<u64, ClientView>,
                    PollErrorView,
                >(clients@) && clients.wf(),
                Err(error) => self@.body != Some(body@) && file_table(body@) == Err::<
                    Map<u64, ClientView>,
                    PollErrorView,
                >(error@),
            },
            body@.len() == 0 && self@.body != Some(body@) ==> update is Ok && update->Ok_0 is Some
                && update->Ok_0->0@ == Map::<u64, ClientView>::empty(),
    {
        match &self.body {
            Some(last) => {
                if text::bytes_eq(last.as_slice(), body.as_slice()) {
                    return Ok(None);
                }
            },
            None => {},
        }
        match parse_file(body.as_slice()) {
            Ok(clients) => Ok(Some(clients)),
            Err(error) => Err(error),
        }
    }
}

// ---------------------------------------------------------------------------
// Changes of the state

/// The state with the saved table in use. The time of the file is no proof of a
/// successful poll.
pub open spec fn with_saved(shared: SharedView, clients: Clients) -> SharedView {
    SharedView {
        snapshot: Some(Arc::new(clients)),
        status: SyncStatusView { source: Some(Source::State), ..shared.status },
        ..shared
    }
}

/// The state after the saved table could not be read.
pub open spec fn with_read_error(shared: SharedView, why: Seq<char>) -> SharedView {
    SharedView {
        state_read_errors: series::raised(shared.state_read_errors),
        status: SyncStatusView { last_error: Some(why), ..shared.status },
        ..shared
    }
}

/// The state with a downloaded table in use.
pub open spec fn with_remote(shared: SharedView, clients: Clients, unix_now: u64) -> SharedView {
    SharedView {
        snapshot: Some(Arc::new(clients)),
        status: SyncStatusView {
            source: Some(Source::Remote),
            data_since: Some(unix_now),
            ..shared.status
        },
        ..shared
    }
}

/// The state after a poll that succeeded.
pub open spec fn with_success(shared: SharedView, unix_now: u64) -> SharedView {
    SharedView {
        sync_success: series::raised(shared.sync_success),
        status: SyncStatusView { last_success: Some(unix_now), last_error: None, ..shared.status },
        ..shared
    }
}

/// The state after a poll that failed.
pub open spec fn with_failure(shared: SharedView, why: Seq<char>) -> SharedView {
    SharedView {
        sync_errors: series::raised(shared.sync_errors),
        status: SyncStatusView { last_error: Some(why), ..shared.status },
        ..shared
    }
}

/// Notes that the saved table could not be read.
pub fn record_read_error(shared: &mut Shared, why: String)
    ensures
        final(shared)@ == with_read_error(old(shared)@, why@),
        old(shared)@.wf() ==> final(shared)@.wf(),
{
    shared.state_read_errors = shared.state_read_errors.wrapping_add(1);
    shared.status.last_error = Some(why);
}

/// Takes the saved file into use, or notes why it cannot be.
pub fn load_saved(shared: &mut Shared, bytes: &[u8]) -> (loaded: Result<(), PollError>)
    requires
        old(shared)@.wf(),
    ensures
        final(shared)@.wf(),
        match loaded {
            Ok(()) => final(shared)@.snapshot is Some && saved_table(bytes@) == Ok::<
                Map<u64, ClientView>,
                PollErrorView,
            >((*final(shared)@.snapshot->0)@) && final(shared)@ == with_saved(
                old(shared)@,
                *final(shared)@.snapshot->0,
            ),
            Err(error) => saved_table(bytes@) == Err::<Map<u64, ClientView>, PollErrorView>(error@)
                && final(shared)@ == with_read_error(
                old(shared)@,
                messages::poll_text(error@),
            ),
        },
{
    match parse_saved(bytes) {
        Ok(clients) => {
            let ghost table = clients;
            shared.snapshot = Some(Arc::new(clients));
            shared.status.source = Some(Source::State);
            assert(shared@ =~= with_saved(old(shared)@, table));
            Ok(())
        },
        Err(error) => {
            record_read_error(shared, error.message());
            Err(error)
        },
    }
}

/// Notes how a poll ended.
pub fn record_poll(shared: &mut Shared, ended: Result<(), String>, unix_now: u64)
    ensures
        final(shared)@ == match ended {
            Ok(()) => with_success(old(shared)@, unix_now),
            Err(why) => with_failure(old(shared)@, why@),
        },
        old(shared)@.wf() ==> final(shared)@.wf(),
{
    match ended {
        Ok(()) => {
            shared.sync_success = shared.sync_success.wrapping_add(1);
            shared.status.last_success = Some(unix_now);
            shared.status.last_error = None;
        },
        Err(why) => {
            shared.sync_errors = shared.sync_errors.wrapping_add(1);
            shared.status.last_error = Some(why);
        },
    }
}

/// Notes that polling cannot start.
pub fn record_start_failure(shared: &mut Shared, why: String)
    ensures
        final(shared)@ == (SharedView {
            status: SyncStatusView { last_error: Some(why@), ..old(shared)@.status },
            ..old(shared)@
        }),
        old(shared)@.wf() ==> final(shared)@.wf(),
{
    shared.status.last_error = Some(why);
}

/// The name of the file that a table is written to before it takes the place of the
/// saved one.
pub fn temporary_name(name: &str, process: u32, sequence: u64) -> (out: String)
    ensures
        out@ == "."@ + name@ + "."@ + text::decimal(process as nat) + "."@ + text::decimal(
            sequence as nat,
        ) + ".tmp"@,
{
    let mut out = ".".to_owned();
    out.append(name);
    out.append(".");
    text::push_decimal(&mut out, process as u64);
    out.append(".");
    text::push_decimal(&mut out, sequence);
    out.append(".tmp");
    out
}

// ---------------------------------------------------------------------------
// Polls

/// How far a poll is.
#[derive(Debug)]
pub enum Phase {
    /// None is under way.
    Idle,
    /// The request was sent.
    Requested,
    /// The body is being read.
    Receiving(Download),
    /// A new table is being saved.
    Saving(Download, Clients),
}

/// What to do next.
#[derive(Debug, Clone, Copy, PartialEq, Eq, Structural)]
pub enum Action {
    /// To wait until the next poll is due.
    Wait,
    /// To send a request with the validators of the last download.
    Request,
    /// To read the next piece of the body.
    Receive,
    /// To save the body.
    Save,
}

/// The polls, one behind the other.
#[derive(Debug)]
pub struct Poller {
    pub cache: RemoteCache,
    pub phase: Phase,
}

/// What a download leaves in the cache.
pub open spec fn remembered(download: Download) -> RemoteCacheView {
    RemoteCacheView {
        etag: bytes_of(download.etag),
        modified: bytes_of(download.modified),
        body: Some(download.body@),
    }
}

impl Poller {
    /// A body that is being read is within the limit, and a table that is being saved is
    /// the new one in its body.
    pub open spec fn wf(self) -> bool {
        match self.phase {
            Phase::Idle => true,
            Phase::Requested => true,
            Phase::Receiving(download) => download.body@.len() <= MAX_CSV_BYTES,
            Phase::Saving(download, clients) => {
                &&& download.body@.len() <= MAX_CSV_BYTES
                &&& self.cache@.body != Some(download.body@)
                &&& file_table(download.body@) == Ok::<Map<u64, ClientView>, PollErrorView>(
                    clients@,
                )
                &&& clients.wf()
            },
        }
    }

    /// Whether nothing but the poll itself ended, with that error.
    pub open spec fn gave_up(
        self,
        after: Self,
        before: SharedView,
        shared: SharedView,
        why: Seq<char>,
    ) -> bool {
        &&& after.phase is Idle
        &&& after.cache@ == self.cache@
        &&& shared == with_failure(before, why)
    }

    pub fn new() -> (poller: Self)
        ensures
            poller.wf(),
            poller.phase is Idle,
            poller.cache@ == (RemoteCacheView { etag: None, modified: None, body: None }),
    {
        Poller { cache: RemoteCache::default(), phase: Phase::Idle }
    }

    /// A poll is due.
    pub fn begin(&mut self) -> (next: Action)
        requires
            old(self).wf(),
        ensures
            final(self).wf(),
            final(self).cache@ == old(self).cache@,
            if old(self).phase is Idle {
                final(self).phase is Requested && next == Action::Request
            } else {
                final(self).phase == old(self).phase && next == Action::Wait
            },
    {
        match self.phase {
            Phase::Idle => {
                self.phase = Phase::Requested;
                Action::Request
            },
            _ => Action::Wait,
        }
    }

    /// The request or the transfer of the body failed.
    pub fn on_failed(&mut self, shared: &mut Shared, why: String) -> (next: Action)
        requires
            old(self).wf(),
            old(shared)@.wf(),
        ensures
            final(self).wf(),
            final(shared)@.wf(),
            old(self).gave_up(*final(self), old(shared)@, final(shared)@, why@),
            next == Action::Wait,
    {
        self.phase = Phase::Idle;
        record_poll(shared, Err(why), 0);
        Action::Wait
    }

    /// The head of the response is there; `report` is what the HTTP client says of its
    /// status if it is that of an error.
    pub fn on_head(
        &mut self,
        shared: &mut Shared,
        status: u16,
        report: &str,
        length: Option<u64>,
        etag: Option<Vec<u8>>,
        modified: Option<Vec<u8>>,
        unix_now: u64,
    ) -> (next: Action)
        requires
            old(self).wf(),
            old(shared)@.wf(),
        ensures
            final(self).wf(),
            final(shared)@.wf(),
            final(self).cache@ == old(self).cache@,
            if old(self).phase !is Requested {
                final(self).phase == old(self).phase && final(shared)@ == old(shared)@ && next
                    == Action::Wait
            } else {
                match response(old(self).cache@.body is Some, status, report@, length) {
                    Ok(Response::Unchanged) => final(self).phase is Idle && final(shared)@
                        == with_success(old(shared)@, unix_now) && next == Action::Wait,
                    Ok(Response::Download) => {
                        &&& final(self).phase matches Phase::Receiving(download)
                        &&& download.body@.len() == 0
                        &&& download.etag == etag
                        &&& download.modified == modified
                        &&& final(shared)@ == old(shared)@
                        &&& next == Action::Receive
                    },
                    Err(error) => old(self).gave_up(
                        *final(self),
                        old(shared)@,
                        final(shared)@,
                        messages::poll_text(error),
                    ) && next == Action::Wait,
                }
            },
    {
        match self.phase {
            Phase::Requested => {},
            _ => {
                return Action::Wait;
            },
        }
        match self.cache.on_response(status, report, length) {
            Ok(Response::Unchanged) => {
                self.phase = Phase::Idle;
                record_poll(shared, Ok(()), unix_now);
                Action::Wait
            },
            Ok(Response::Download) => {
                self.phase = Phase::Receiving(Download { body: Vec::new(), etag, modified });
                Action::Receive
            },
            Err(error) => self.on_failed(shared, error.message()),
        }
    }

    /// A piece of the body is there.
    pub fn on_chunk(&mut self, shared: &mut Shared, chunk: &[u8]) -> (next: Action)
        requires
            old(self).wf(),
            old(shared)@.wf(),
        ensures
            final(self).wf(),
            final(shared)@.wf(),
            final(self).cache@ == old(self).cache@,
            match old(self).phase {
                Phase::Receiving(before) => if before.body@.len() + chunk@.len() <= MAX_CSV_BYTES {
                    &&& final(self).phase matches Phase::Receiving(after)
                    &&& after.body@ == before.body@ + chunk@
                    &&& after.etag == before.etag
                    &&& after.modified == before.modified
                    &&& final(shared)@ == old(shared)@
                    &&& next == Action::Receive
                } else {
                    old(self).gave_up(
                        *final(self),
                        old(shared)@,
                        final(shared)@,
                        messages::poll_text(PollErrorView::TooLarge),
                    ) && next == Action::Wait
                },
                _ => final(self).phase == old(self).phase && final(shared)@ == old(shared)@ && next
                    == Action::Wait,
            },
    {
        let mut phase = Phase::Idle;
        std::mem::swap(&mut phase, &mut self.phase);
        match phase {
            Phase::Receiving(mut download) => match accept_chunk(&mut download.body, chunk) {
                Ok(()) => {
                    self.phase = Phase::Receiving(download);
                    Action::Receive
                },
                Err(error) => self.on_failed(shared, error.message()),
            },
            other => {
                self.phase = other;
                Action::Wait
            },
        }
    }

    /// The body is complete.
    pub fn on_end(&mut self, shared: &mut Shared, unix_now: u64) -> (next: Action)
        requires
            old(self).wf(),
            old(shared)@.wf(),
        ensures
            final(self).wf(),
            final(shared)@.wf(),
            match old(self).phase {
                Phase::Receiving(download) => if old(self).cache@.body == Some(download.body@) {
                    &&& final(self).phase is Idle
                    &&& final(self).cache@ == remembered(download)
                    &&& final(shared)@ == with_success(old(shared)@, unix_now)
                    &&& next == Action::Wait
                } else {
                    match file_table(download.body@) {
                        Ok(table) => {
                            &&& final(self).phase matches Phase::Saving(pending, clients)
                            &&& pending == download
                            &&& clients@ == table
                            &&& final(self).cache@ == old(self).cache@
                            &&& final(shared)@ == old(shared)@
                            &&& next == Action::Save
                        },
                        Err(error) => old(self).gave_up(
                            *final(self),
                            old(shared)@,
                            final(shared)@,
                            messages::poll_text(error),
                        ) && next == Action::Wait,
                    }
                },
                _ => final(self).phase == old(self).phase && final(self).cache@ == old(self).cache@
                    && final(shared)@ == old(shared)@ && next == Action::Wait,
            },
    {
        let mut phase = Phase::Idle;
        std::mem::swap(&mut phase, &mut self.phase);
        match phase {
            Phase::Receiving(download) => match self.cache.check_body(&download.body) {
                Ok(None) => {
                    self.remember(download);
                    record_poll(shared, Ok(()), unix_now);
                    Action::Wait
                },
                Ok(Some(clients)) => {
                    self.phase = Phase::Saving(download, clients);
                    Action::Save
                },
                Err(error) => self.on_failed(shared, error.message()),
            },
            other => {
                self.phase = other;
                Action::Wait
            },
        }
    }

    fn remember(&mut self, download: Download)
        ensures
            final(self).cache@ == remembered(download),
            final(self).phase == old(self).phase,
    {
        self.cache.body = Some(download.body);
        self.cache.etag = download.etag;
        self.cache.modified = download.modified;
    }

    /// The body to save.
    pub fn pending(&self) -> (body: Option<&Vec<u8>>)
        ensures
            match body {
                Some(bytes) => self.phase matches Phase::Saving(download, _) && *bytes
                    == download.body,
                None => self.phase !is Saving,
            },
    {
        match &self.phase {
            Phase::Saving(download, _) => Some(&download.body),
            _ => None,
        }
    }

    /// The body was saved: its table is taken into use.
    pub fn on_saved(&mut self, shared: &mut Shared, unix_now: u64) -> (next: Action)
        requires
            old(self).wf(),
            old(shared)@.wf(),
        ensures
            final(self).wf(),
            final(shared)@.wf(),
            next == Action::Wait,
            match old(self).phase {
                Phase::Saving(download, clients) => {
                    &&& final(self).phase is Idle
                    &&& final(self).cache@ == remembered(download)
                    &&& final(shared)@ == with_success(
                        with_remote(old(shared)@, clients, unix_now),
                        unix_now,
                    )
                },
                _ => final(self).phase == old(self).phase && final(self).cache@ == old(self).cache@
                    && final(shared)@ == old(shared)@,
            },
    {
        let mut phase = Phase::Idle;
        std::mem::swap(&mut phase, &mut self.phase);
        match phase {
            Phase::Saving(download, clients) => {
                let ghost table = clients;
                shared.snapshot = Some(Arc::new(clients));
                shared.status.source = Some(Source::Remote);
                shared.status.data_since = Some(unix_now);
                assert(shared@ =~= with_remote(old(shared)@, table, unix_now));
                self.remember(download);
                record_poll(shared, Ok(()), unix_now);
            },
            other => {
                self.phase = other;
            },
        }
        Action::Wait
    }

    /// The body could not be saved: the table in use stays.
    pub fn on_save_failed(&mut self, shared: &mut Shared, why: String) -> (next: Action)
        requires
            old(self).wf(),
            old(shared)@.wf(),
        ensures
            final(self).wf(),
            final(shared)@.wf(),
            next == Action::Wait,
            if old(self).phase is Saving {
                old(self).gave_up(
                    *final(self),
                    SharedView {
                        state_write_errors: series::raised(old(shared)@.state_write_errors),
                        ..old(shared)@
                    },
                    final(shared)@,
                    messages::poll_text(PollErrorView::Save) + ": "@ + why@,
                )
            } else {
                final(self).phase == old(self).phase && final(self).cache@ == old(self).cache@
                    && final(shared)@ == old(shared)@
            },
    {
        match self.phase {
            Phase::Saving(_, _) => {},
            _ => {
                return Action::Wait;
            },
        }
        let mut text = PollError::Save.message();
        text.append(": ");
        text.append(why.as_str());
        shared.state_write_errors = shared.state_write_errors.wrapping_add(1);
        self.on_failed(shared, text)
    }
}

// ---------------------------------------------------------------------------
// Laws

/// No status but 200 brings a new table, and none but 200 and 304 passes.
pub proof fn law_only_ok_replaces_the_table(
    cached: bool,
    status: u16,
    report: Seq<char>,
    length: Option<u64>,
)
    ensures
        response(cached, status, report, length) matches Ok(Response::Download) ==> status == 200,
        response(cached, status, report, length) is Ok ==> status == 200 || status == 304 && cached,
        status == 200 && (length is None || length->0 <= MAX_CSV_BYTES) ==> response(
            cached,
            status,
            report,
            length,
        ) == Ok::<Response, PollErrorView>(Response::Download),
{
}

/// However a poll ends, the table in use, its source and its age stay as they are.
pub proof fn law_poll_results_change_no_table(shared: SharedView, why: Seq<char>, unix_now: u64)
    ensures
        with_success(shared, unix_now).snapshot == shared.snapshot,
        with_success(shared, unix_now).status.source == shared.status.source,
        with_success(shared, unix_now).status.data_since == shared.status.data_since,
        with_failure(shared, why).snapshot == shared.snapshot,
        with_failure(shared, why).status.source == shared.status.source,
        with_failure(shared, why).status.data_since == shared.status.data_since,
        with_failure(shared, why).status.last_success == shared.status.last_success,
        with_read_error(shared, why).snapshot == shared.snapshot,
{
}

/// The table that is in use once its body was saved is the one that the saved file holds
/// for the next start.
pub proof fn law_saved_table_is_read_back(poller: Poller, shared: SharedView, unix_now: u64)
    requires
        poller.wf(),
        poller.phase is Saving,
    ensures
        ({
            let clients = poller.phase->Saving_1;
            let after = with_success(with_remote(shared, clients, unix_now), unix_now);
            &&& after.snapshot is Some
            &&& saved_table(poller.phase->Saving_0.body@) == Ok::<
                Map<u64, ClientView>,
                PollErrorView,
            >((*after.snapshot->0)@)
        }),
{
}

/// A table from the saved file is not reported as a successful poll, and its age is
/// unknown.
pub proof fn law_saved_table_is_no_poll(shared: SharedView, clients: Clients)
    ensures
        with_saved(shared, clients).status.last_success == shared.status.last_success,
        with_saved(shared, clients).status.data_since == shared.status.data_since,
        with_saved(shared, clients).sync_success == shared.sync_success,
{
}

} // verus!
