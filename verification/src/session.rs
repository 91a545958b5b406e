//! Sessions: the reports of one cycle with their time window, and the
//! ingest requests they are shipped as.

use crate::buffer::report_views;
use crate::clock::{
    align_down, check_cycle, cycle_fault, lemma_align_down, out_of_range, valid_cycle,
};
use crate::config::{
    endpoint, ingest_endpoint, merge_tags, merged_tags, Compression, ConfigView, PyroscopeConfig,
};
use crate::error::{ConfigField, ConfigReason, PyroscopeError, SerializationReason};
use crate::outside::{gzip, gzip_framed};
use crate::report::{wire_body, Report, ReportEncoding, ReportView};
use crate::stack::duplicate_tags;
use crate::tags::{
    encoded_name, has_reserved_key, merge_tags_with_app_name, tag_views, Tag, TagView,
};
use crate::text::{decimal_chars, decimal_string};
use vstd::prelude::*;
use vstd::string::*;

verus! {

/// Seconds after which an ingest request is given up.
pub const REQUEST_TIMEOUT_SECS: u64 = 10;

/// The reports of one cycle, ready to ship.
#[derive(Debug)]
pub struct Session {
    /// The configuration as it was when the session was built.
    pub config: PyroscopeConfig,
    pub reports: Vec<Report>,
    /// Start of the window, unix seconds.
    pub from: u64,
    /// End of the window, unix seconds.
    pub until: u64,
}

/// A session as contracts see it.
pub struct SessionView {
    pub config: ConfigView,
    pub reports: Seq<ReportView>,
    pub from: u64,
    pub until: u64,
}

impl View for Session {
    type V = SessionView;

    open spec fn view(&self) -> SessionView {
        SessionView {
            config: self.config@,
            reports: report_views(self.reports@),
            from: self.from,
            until: self.until,
        }
    }
}

/// What the session worker is sent.
#[derive(Debug)]
pub enum SessionSignal {
    /// A session to ship.
    Session(Session),
    /// Ship what is queued, then exit.
    Kill,
}

/// A session signal as contracts see it.
pub enum SignalView {
    Session(SessionView),
    Kill,
}

impl View for SessionSignal {
    type V = SignalView;

    open spec fn view(&self) -> SignalView {
        match self {
            SessionSignal::Session(s) => SignalView::Session(s@),
            SessionSignal::Kill => SignalView::Kill,
        }
    }
}

/// One HTTP POST to the ingest endpoint of the server.
#[derive(Debug)]
pub struct IngestRequest {
    /// The endpoint: the server URL joined with `ingest`.
    pub url: String,
    /// The query parameters as (name, value) pairs, in order.
    pub query: Vec<Tag>,
    /// The headers as (name, value) pairs, in order.
    pub headers: Vec<Tag>,
    pub body: Vec<u8>,
    /// Seconds after which the request is given up.
    pub timeout_secs: u64,
}

/// An ingest request as contracts see it.
pub struct RequestView {
    pub url: Seq<char>,
    pub query: Seq<TagView>,
    pub headers: Seq<TagView>,
    pub body: Seq<u8>,
    pub timeout_secs: u64,
}

impl View for IngestRequest {
    type V = RequestView;

    open spec fn view(&self) -> RequestView {
        RequestView {
            url: self.url@,
            query: tag_views(self.query@),
            headers: tag_views(self.headers@),
            body: self.body@,
            timeout_secs: self.timeout_secs,
        }
    }
}

/// The value of the `format` parameter.
pub open spec fn format_name(encoding: ReportEncoding) -> Seq<char> {
    match encoding {
        ReportEncoding::Folded => "folded"@,
        ReportEncoding::Pprof => "pprof"@,
    }
}

/// The query parameters of an ingest request.
pub open spec fn query_of(config: ConfigView, from: u64, until: u64, name: Seq<char>) -> Seq<
    TagView,
> {
    seq![
        ("name"@, name),
        ("from"@, decimal_chars(from as nat)),
        ("until"@, decimal_chars(until as nat)),
        ("format"@, format_name(config.report_encoding)),
        ("sampleRate"@, decimal_chars(config.sample_rate as nat)),
        ("spyName"@, config.spy_name),
    ]
}

/// The headers of an ingest request: the content type, the bearer token
/// where one is configured, the content encoding where the body is
/// compressed, then the additional headers of the configuration.
pub open spec fn headers_of(config: ConfigView, compressed: bool) -> Seq<TagView> {
    seq![("Content-Type"@, "binary/octet-stream"@)] + (match config.auth_token {
        Some(token) => seq![("Authorization"@, "Bearer "@ + token)],
        None => Seq::empty(),
    }) + (if compressed {
        seq![("Content-Encoding"@, "gzip"@)]
    } else {
        Seq::empty()
    }) + config.http_headers
}

/// The ingest request for a body.
pub open spec fn request_of(
    config: ConfigView,
    from: u64,
    until: u64,
    name: Seq<char>,
    url: Seq<char>,
    body: Seq<u8>,
    compressed: bool,
) -> RequestView {
    RequestView {
        url,
        query: query_of(config, from, until, name),
        headers: headers_of(config, compressed),
        body,
        timeout_secs: REQUEST_TIMEOUT_SECS,
    }
}

/// A report together with the profile-format bytes that an encoder outside
/// this library made of it.
pub type Encoded = (ReportView, Seq<u8>);

/// The bytes a report of the session goes out as, before compression.
pub open spec fn session_body(config: ConfigView, item: Encoded) -> Seq<u8> {
    wire_body(config.report_encoding, item.0.lines, item.1)
}

/// Whether a report is skipped: it has nothing to send. Nothing else is
/// looked at for such a report.
pub open spec fn skipped(config: ConfigView, item: Encoded) -> bool {
    session_body(config, item).len() == 0
}

/// Why no request can be built for a report that has something to send, if
/// so: a reserved tag key, or a server URL that does not parse.
pub open spec fn process_fault(config: ConfigView, item: Encoded) -> Option<PyroscopeError> {
    if has_reserved_key(merged_tags(config.tags, item.0.metadata.tags)) {
        Some(
            PyroscopeError::InvalidConfig {
                field: ConfigField::Tags,
                reason: ConfigReason::ReservedTagKey,
            },
        )
    } else if ingest_endpoint(config.url) is None {
        Some(
            PyroscopeError::InvalidConfig {
                field: ConfigField::ServerUrl,
                reason: ConfigReason::Malformed,
            },
        )
    } else {
        None
    }
}

/// The request a report is shipped as, given the body that goes out.
pub open spec fn expected_request(session: SessionView, report: ReportView, body: Seq<u8>) -> RequestView {
    request_of(
        session.config,
        session.from,
        session.until,
        encoded_name(
            session.config.application_name,
            merged_tags(session.config.tags, report.metadata.tags),
        ),
        ingest_endpoint(session.config.url).unwrap(),
        body,
        session.config.compression is Some,
    )
}

/// Whether `request` is a request that a report may be shipped as. Without
/// compression every part is fixed. With it the body is what the compressor
/// gave, a framed gzip stream, and everything else is fixed.
pub open spec fn ships_as(session: SessionView, item: Encoded, request: RequestView) -> bool {
    if session.config.compression is None {
        request == expected_request(session, item.0, session_body(session.config, item))
    } else {
        request == expected_request(session, item.0, request.body) && gzip_framed(request.body)
    }
}

/// Whether `outcome` is what becomes of a report that has something to
/// send: the error of its fault where it has one; else its request, or the
/// compression error where the compressor was asked and failed.
pub open spec fn attempt_outcome(
    session: SessionView,
    item: Encoded,
    outcome: Result<IngestRequest, PyroscopeError>,
) -> bool {
    match process_fault(session.config, item) {
        Some(e) => outcome matches Err(f) && f == e,
        None => match outcome {
            Ok(request) => ships_as(session, item, request@),
            Err(e) => session.config.compression is Some && e == compression_error(),
        },
    }
}

/// The profile-format bytes for the report at `i`: those given for it, or
/// none.
pub open spec fn profile_at(profiles: Seq<Seq<u8>>, i: int) -> Seq<u8> {
    if 0 <= i < profiles.len() {
        profiles[i]
    } else {
        Seq::empty()
    }
}

/// The views of a list of byte strings.
pub open spec fn byte_views(profiles: Seq<Vec<u8>>) -> Seq<Seq<u8>> {
    Seq::new(profiles.len(), |i: int| profiles[i]@)
}

/// The reports of a session that have something to send, in their order,
/// each with its profile-format bytes.
pub open spec fn attempted(config: ConfigView, reports: Seq<ReportView>, profiles: Seq<Seq<u8>>) -> Seq<
    Encoded,
>
    decreases reports.len(),
{
    if reports.len() == 0 {
        Seq::empty()
    } else {
        let item = (reports.last(), profile_at(profiles, reports.len() - 1));
        if skipped(config, item) {
            attempted(config, reports.drop_last(), profiles)
        } else {
            attempted(config, reports.drop_last(), profiles).push(item)
        }
    }
}

/// The error a compressor failure is reported as.
pub open spec fn compression_error() -> PyroscopeError {
    PyroscopeError::Serialization { cause: SerializationReason::Compression }
}

/// The window of the session for timestamp `t`: it ends at the last
/// boundary at or before `t` and is one cycle long.
pub open spec fn window_until(t: int, cycle: int) -> int {
    align_down(t, cycle)
}

/// The start of the window of the session for timestamp `t`.
pub open spec fn window_from(t: int, cycle: int) -> int {
    align_down(t, cycle) - cycle
}

/// Why there is no session for a timestamp, if so: the cycle is invalid, or
/// the window would start before the epoch.
pub open spec fn window_fault(until: u64, cycle: u64) -> Option<PyroscopeError> {
    match cycle_fault(cycle) {
        Some(e) => Some(e),
        None => if window_from(until as int, cycle as int) < 0 {
            Some(out_of_range())
        } else {
            None
        },
    }
}

/// The session of a tick covers the cycle that the tick ends: for a tick
/// time `t`, a boundary, `until` is `t` and `from` is `t` less one cycle.
pub proof fn session_window(t: int, cycle: int)
    requires
        valid_cycle(cycle),
        0 <= t,
        t % cycle == 0,
    ensures
        window_until(t, cycle) == t,
        window_from(t, cycle) == t - cycle,
        window_until(t, cycle) - window_from(t, cycle) == cycle,
{
}

/// The window of every timestamp is one cycle long and lies on the grid.
pub proof fn session_window_aligned(t: int, cycle: int)
    requires
        valid_cycle(cycle),
        0 <= t,
    ensures
        window_until(t, cycle) - window_from(t, cycle) == cycle,
        window_until(t, cycle) % cycle == 0,
        window_from(t, cycle) % cycle == 0,
        window_until(t, cycle) <= t < window_until(t, cycle) + cycle,
{
    lemma_align_down(t, cycle);
    crate::clock::lemma_grid_step(align_down(t, cycle), cycle, -1);
    assert(align_down(t, cycle) + (-1) * cycle == align_down(t, cycle) - cycle);
}

impl IngestRequest {
    /// Puts an ingest request together from the configuration, the window,
    /// the encoded application name, the endpoint and the body.
    /// `compressed` says whether the body is a gzip stream.
    pub fn assemble(
        config: &PyroscopeConfig,
        from: u64,
        until: u64,
        name: String,
        url: String,
        body: Vec<u8>,
        compressed: bool,
    ) -> (request: IngestRequest)
        ensures
            request@ == request_of(config@, from, until, name@, url@, body@, compressed),
    {
        let mut query: Vec<Tag> = Vec::new();
        query.push(Tag { key: "name".to_owned(), value: name });
        query.push(Tag { key: "from".to_owned(), value: decimal_string(from) });
        query.push(Tag { key: "until".to_owned(), value: decimal_string(until) });
        let format: &str = match config.report_encoding {
            ReportEncoding::Folded => "folded",
            ReportEncoding::Pprof => "pprof",
        };
        query.push(Tag::new("format", format));
        query.push(Tag { key: "sampleRate".to_owned(), value: decimal_string(config.sample_rate as u64) });
        query.push(Tag::new("spyName", config.spy_name.as_str()));
        assert(tag_views(query@) =~= query_of(config@, from, until, name@));

        let mut headers: Vec<Tag> = Vec::new();
        headers.push(Tag::new("Content-Type", "binary/octet-stream"));
        match &config.auth_token {
            Some(token) => {
                let mut value: String = "Bearer ".to_owned();
                value.append(token.as_str());
                headers.push(Tag { key: "Authorization".to_owned(), value });
            },
            None => {},
        }
        if compressed {
            headers.push(Tag::new("Content-Encoding", "gzip"));
        }
        let ghost fixed = tag_views(headers@);
        let mut extra = duplicate_tags(&config.http_headers);
        let ghost extra_views = tag_views(extra@);
        headers.append(&mut extra);
        assert(tag_views(headers@) =~= fixed + extra_views);
        assert(tag_views(headers@) =~= headers_of(config@, compressed));
        IngestRequest { url, query, headers, body, timeout_secs: REQUEST_TIMEOUT_SECS }
    }
}

impl Session {
    /// Builds the session for the cycle that ends at the last boundary at or
    /// before `until`; on a tick, `until` is that boundary itself. Fails on
    /// an invalid cycle, and with `OutOfRange` where the window would start
    /// before the epoch.
    pub fn new(until: u64, cycle: u64, config: PyroscopeConfig, reports: Vec<Report>) -> (r: Result<
        Session,
        PyroscopeError,
    >)
        ensures
            match window_fault(until, cycle) {
                Some(e) => r matches Err(f) && f == e,
                None => r matches Ok(s) && s.config == config && s.reports == reports && s.until
                    == window_until(until as int, cycle as int) && s.from == window_from(
                    until as int,
                    cycle as int,
                ),
            },
    {
        match check_cycle(cycle) {
            Err(e) => Err(e),
            Ok(()) => {
                proof {
                    lemma_align_down(until as int, cycle as int);
                }
                let end: u64 = until - until % cycle;
                if end < cycle {
                    Err(
                        PyroscopeError::InvalidConfig {
                            field: ConfigField::Timestamp,
                            reason: ConfigReason::OutOfRange,
                        },
                    )
                } else {
                    Ok(Session { config, reports, from: end - cycle, until: end })
                }
            },
        }
    }

    /// Builds the ingest request for one report of the session, or `None`
    /// for a report that has nothing to send. `profile` is the report in the
    /// profile format, as an encoder outside this library made it; it is
    /// the body where the configuration asks for that format and is not
    /// looked at where it asks for folded text. Fails where a tag key is
    /// reserved, the server URL does not parse or the compressor fails.
    pub fn process(&self, report: &Report, profile: &[u8]) -> (r: Result<
        Option<IngestRequest>,
        PyroscopeError,
    >)
        ensures
            skipped(self@.config, (report@, profile@)) ==> (r matches Ok(None)),
            !skipped(self@.config, (report@, profile@)) ==> match r {
                Ok(Some(request)) => attempt_outcome(
                    self@,
                    (report@, profile@),
                    Ok::<IngestRequest, PyroscopeError>(request),
                ),
                Ok(None) => false,
                Err(e) => attempt_outcome(
                    self@,
                    (report@, profile@),
                    Err::<IngestRequest, PyroscopeError>(e),
                ),
            },
    {
        let body = report.serialize(self.config.report_encoding, profile);
        if body.len() == 0 {
            return Ok(None);
        }
        let tags = merge_tags(&self.config.tags, &report.metadata().tags);
        let name = match merge_tags_with_app_name(self.config.application_name.as_str(), &tags) {
            Ok(name) => name,
            Err(e) => {
                return Err(e);
            },
        };
        let url = match endpoint(self.config.url.as_str()) {
            Some(url) => url,
            None => {
                return Err(
                    PyroscopeError::InvalidConfig {
                        field: ConfigField::ServerUrl,
                        reason: ConfigReason::Malformed,
                    },
                );
            },
        };
        match self.config.compression {
            None => Ok(
                Some(
                    IngestRequest::assemble(
                        &self.config,
                        self.from,
                        self.until,
                        name,
                        url,
                        body,
                        false,
                    ),
                ),
            ),
            Some(Compression::Gzip) => match gzip(body.as_slice()) {
                None => Err(
                    PyroscopeError::Serialization { cause: SerializationReason::Compression },
                ),
                Some(packed) => Ok(
                    Some(
                        IngestRequest::assemble(
                            &self.config,
                            self.from,
                            self.until,
                            name,
                            url,
                            packed,
                            true,
                        ),
                    ),
                ),
            },
        }
    }

    /// Builds the ingest requests of the session and consumes it. There is
    /// one outcome for every report that has something to send, in the
    /// order of the reports: its request, or the error that kept it from
    /// being built. An error on one report does not keep the others from
    /// being built. `profiles` holds, at the position of each report, its
    /// bytes in the profile format; it may be empty where the configuration
    /// asks for folded text.
    pub fn send(self, profiles: &Vec<Vec<u8>>) -> (outcomes: Vec<Result<IngestRequest, PyroscopeError>>)
        ensures
            outcomes@.len() == attempted(self@.config, self@.reports, byte_views(profiles@)).len(),
            forall|k: int|
                0 <= k < outcomes@.len() ==> attempt_outcome(
                    self@,
                    attempted(self@.config, self@.reports, byte_views(profiles@))[k],
                    #[trigger] outcomes@[k],
                ),
    {
        let ghost config = self@.config;
        let ghost reports = self@.reports;
        let ghost given = byte_views(profiles@);
        let none: Vec<u8> = Vec::new();
        let mut outcomes: Vec<Result<IngestRequest, PyroscopeError>> = Vec::new();
        let mut i: usize = 0;
        proof {
            assert(reports.take(0).len() == 0);
        }
        while i < self.reports.len()
            invariant
                i <= self.reports.len(),
                config == self@.config,
                reports == self@.reports,
                given == byte_views(profiles@),
                none@ == Seq::<u8>::empty(),
                outcomes@.len() == attempted(config, reports.take(i as int), given).len(),
                forall|k: int|
                    0 <= k < outcomes@.len() ==> attempt_outcome(
                        self@,
                        attempted(config, reports.take(i as int), given)[k],
                        #[trigger] outcomes@[k],
                    ),
            decreases self.reports.len() - i,
        {
            let ghost so_far = attempted(config, reports.take(i as int), given);
            let ghost item = (reports[i as int], profile_at(given, i as int));
            proof {
                let next = reports.take(i + 1);
                assert(next.drop_last() =~= reports.take(i as int));
                assert(next.last() == reports[i as int]);
                assert(reports[i as int] == self.reports@[i as int]@);
            }
            let profile: &[u8] = if i < profiles.len() {
                profiles[i].as_slice()
            } else {
                none.as_slice()
            };
            let outcome = match self.process(&self.reports[i], profile) {
                Ok(None) => None,
                Ok(Some(request)) => Some(Ok(request)),
                Err(e) => Some(Err(e)),
            };
            match outcome {
                None => {},
                Some(outcome) => {
                    outcomes.push(outcome);
                    assert forall|k: int| 0 <= k < outcomes@.len() implies attempt_outcome(
                        self@,
                        attempted(config, reports.take(i + 1), given)[k],
                        #[trigger] outcomes@[k],
                    ) by {
                        if k < so_far.len() {
                            assert(attempted(config, reports.take(i + 1), given)[k] == so_far[k]);
                        }
                    }
                },
            }
            i = i + 1;
        }
        proof {
            assert(reports.take(self.reports.len() as int) =~= reports);
        }
        outcomes
    }
}

} // verus!
