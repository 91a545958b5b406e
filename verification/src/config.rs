//! The configuration of an agent and the operations on its tag set.

use crate::error::{ConfigField, ConfigReason, PyroscopeError};
use crate::outside::{join_url, url_joined};
use crate::report::ReportEncoding;
use crate::stack::duplicate_tags;
use crate::tags::{any_reserved_key, has_reserved_key, tag_views, Tag, TagView};
use crate::text::str_eq;
use vstd::prelude::*;
use vstd::string::*;

verus! {

/// How the body of an ingest request is compressed. No compression is the
/// absence of a value.
#[derive(Clone, Copy, Debug, PartialEq, Eq, Structural)]
pub enum Compression {
    Gzip,
}

/// Whether some tag has the key `key`.
pub open spec fn has_tag_key(tags: Seq<TagView>, key: Seq<char>) -> bool {
    exists|i: int| 0 <= i < tags.len() && (#[trigger] tags[i]).0 == key
}

/// No key occurs twice.
pub open spec fn keys_unique(tags: Seq<TagView>) -> bool {
    forall|i: int, j: int|
        0 <= i < j < tags.len() ==> (#[trigger] tags[i]).0 != (#[trigger] tags[j]).0
}

/// Whether a tag is one that `without` leaves out: it has the key, and the
/// value too where one is given.
pub open spec fn matches_tag(t: TagView, key: Seq<char>, value: Option<Seq<char>>) -> bool {
    t.0 == key && (value matches Some(v) ==> t.1 == v)
}

/// The tags without those of the given key (and value, where one is given),
/// the others in their order.
pub open spec fn without(tags: Seq<TagView>, key: Seq<char>, value: Option<Seq<char>>) -> Seq<
    TagView,
>
    decreases tags.len(),
{
    if tags.len() == 0 {
        Seq::empty()
    } else if matches_tag(tags.last(), key, value) {
        without(tags.drop_last(), key, value)
    } else {
        without(tags.drop_last(), key, value).push(tags.last())
    }
}

/// The tags after `key` has been set to `value`: an earlier tag of that key
/// goes, the new one comes last.
pub open spec fn with_tag(tags: Seq<TagView>, key: Seq<char>, value: Seq<char>) -> Seq<TagView> {
    without(tags, key, None).push((key, value))
}

/// The tags of `base` whose key `extra` does not set, followed by `extra`:
/// the tags a request is labeled with, where `extra` are those of a report
/// and `base` those of the agent.
pub open spec fn merged_tags(base: Seq<TagView>, extra: Seq<TagView>) -> Seq<TagView> {
    kept_tags(base, extra) + extra
}

/// The tags of `base` whose key does not occur in `extra`.
pub open spec fn kept_tags(base: Seq<TagView>, extra: Seq<TagView>) -> Seq<TagView>
    decreases base.len(),
{
    if base.len() == 0 {
        Seq::empty()
    } else if has_tag_key(extra, base.last().0) {
        kept_tags(base.drop_last(), extra)
    } else {
        kept_tags(base.drop_last(), extra).push(base.last())
    }
}

/// What `without` keeps are tags of the input, in their order, and none of
/// them matches.
pub proof fn lemma_without(tags: Seq<TagView>, key: Seq<char>, value: Option<Seq<char>>)
    ensures
        without(tags, key, value).len() <= tags.len(),
        forall|i: int|
            0 <= i < without(tags, key, value).len() ==> !matches_tag(
                #[trigger] without(tags, key, value)[i],
                key,
                value,
            ) && tags.contains(without(tags, key, value)[i]),
        forall|t: TagView|
            tags.contains(t) && !matches_tag(t, key, value) ==> without(tags, key, value).contains(
                t,
            ),
        keys_unique(tags) ==> keys_unique(without(tags, key, value)),
    decreases tags.len(),
{
    let out = without(tags, key, value);
    if tags.len() > 0 {
        let rest = tags.drop_last();
        let kept = without(rest, key, value);
        lemma_without(rest, key, value);
        assert forall|i: int| 0 <= i < out.len() implies !matches_tag(#[trigger] out[i], key, value)
            && tags.contains(out[i]) by {
            if i < kept.len() {
                assert(out[i] == kept[i]);
                let j = choose|j: int| 0 <= j < rest.len() && rest[j] == kept[i];
                assert(tags[j] == kept[i]);
            } else {
                assert(out[i] == tags[tags.len() - 1]);
            }
        }
        assert forall|t: TagView| tags.contains(t) && !matches_tag(t, key, value) implies out.contains(
            t,
        ) by {
            let j = choose|j: int| 0 <= j < tags.len() && tags[j] == t;
            if j < rest.len() {
                assert(rest[j] == t);
                assert(rest.contains(t));
                assert(kept.contains(t));
                let k = choose|k: int| 0 <= k < kept.len() && kept[k] == t;
                assert(out[k] == t);
            } else {
                assert(out[out.len() - 1] == t);
            }
        }
        if keys_unique(tags) {
            assert(keys_unique(rest)) by {
                assert forall|i: int, j: int| 0 <= i < j < rest.len() implies (#[trigger] rest[i]).0
                    != (#[trigger] rest[j]).0 by {
                    assert(rest[i] == tags[i] && rest[j] == tags[j]);
                }
            }
            assert forall|i: int, j: int| 0 <= i < j < out.len() implies (#[trigger] out[i]).0 != (
            #[trigger] out[j]).0 by {
                if j < kept.len() {
                    assert(out[i] == kept[i] && out[j] == kept[j]);
                } else {
                    assert(out[i] == kept[i]);
                    let a = choose|a: int| 0 <= a < rest.len() && rest[a] == kept[i];
                    assert(tags[a] == kept[i]);
                    assert(out[j] == tags[tags.len() - 1]);
                }
            }
        }
    }
}

/// Setting a tag keeps the keys unique, leaves exactly one tag of that key,
/// with the new value, and keeps every tag of another key.
pub proof fn lemma_with_tag(tags: Seq<TagView>, key: Seq<char>, value: Seq<char>)
    requires
        keys_unique(tags),
    ensures
        keys_unique(with_tag(tags, key, value)),
        with_tag(tags, key, value).contains((key, value)),
        forall|t: TagView|
            with_tag(tags, key, value).contains(t) && t.0 == key ==> t == (key, value),
        forall|t: TagView| tags.contains(t) && t.0 != key ==> with_tag(tags, key, value).contains(t),
{
    let kept = without(tags, key, None);
    let out = with_tag(tags, key, value);
    lemma_without(tags, key, None);
    assert(out[out.len() - 1] == (key, value));
    assert forall|i: int, j: int| 0 <= i < j < out.len() implies (#[trigger] out[i]).0 != (
    #[trigger] out[j]).0 by {
        assert(out[i] == kept[i]);
        if j < kept.len() {
            assert(out[j] == kept[j]);
        }
    }
    assert forall|t: TagView| out.contains(t) && t.0 == key implies t == (key, value) by {
        let i = choose|i: int| 0 <= i < out.len() && out[i] == t;
        if i < kept.len() {
            assert(out[i] == kept[i]);
        }
    }
    assert forall|t: TagView| tags.contains(t) && t.0 != key implies out.contains(t) by {
        assert(kept.contains(t));
        let k = choose|k: int| 0 <= k < kept.len() && kept[k] == t;
        assert(out[k] == t);
    }
}

/// Whether some tag has the key `key`.
pub fn contains_key(tags: &Vec<Tag>, key: &str) -> (r: bool)
    ensures
        r == has_tag_key(tag_views(tags@), key@),
{
    let mut i: usize = 0;
    while i < tags.len()
        invariant
            i <= tags.len(),
            forall|j: int| 0 <= j < i ==> (#[trigger] tag_views(tags@)[j]).0 != key@,
        decreases tags.len() - i,
    {
        if str_eq(tags[i].key.as_str(), key) {
            assert(tag_views(tags@)[i as int].0 == key@);
            return true;
        }
        i = i + 1;
    }
    false
}

/// The tags without those of the given key (and value, where one is given).
pub fn remove_matching(tags: &Vec<Tag>, key: &str, value: Option<&str>) -> (out: Vec<Tag>)
    ensures
        tag_views(out@) == without(
            tag_views(tags@),
            key@,
            match value {
                Some(v) => Some(v@),
                None => None,
            },
        ),
{
    let ghost views = tag_views(tags@);
    let ghost wanted: Option<Seq<char>> = match value {
        Some(v) => Some(v@),
        None => None,
    };
    let mut out: Vec<Tag> = Vec::new();
    let mut i: usize = 0;
    proof {
        assert(views.take(0).len() == 0);
        assert(tag_views(out@) =~= without(views.take(0), key@, wanted));
    }
    while i < tags.len()
        invariant
            i <= tags.len(),
            views == tag_views(tags@),
            wanted == match value {
                Some(v) => Some(v@),
                None => None::<Seq<char>>,
            },
            tag_views(out@) == without(views.take(i as int), key@, wanted),
        decreases tags.len() - i,
    {
        let same_key = str_eq(tags[i].key.as_str(), key);
        let matching = same_key && match value {
            Some(v) => str_eq(tags[i].value.as_str(), v),
            None => true,
        };
        let ghost before = tag_views(out@);
        proof {
            let next = views.take(i + 1);
            assert(next.drop_last() =~= views.take(i as int));
            assert(next.last() == views[i as int]);
            assert(matching == matches_tag(views[i as int], key@, wanted));
        }
        if !matching {
            out.push(tags[i].duplicate());
            assert(tag_views(out@) =~= before.push(views[i as int]));
        }
        i = i + 1;
    }
    proof {
        assert(views.take(tags.len() as int) =~= views);
    }
    out
}

/// The tags a request is labeled with: those of `base` that `extra` does
/// not override, then those of `extra`.
pub fn merge_tags(base: &Vec<Tag>, extra: &Vec<Tag>) -> (out: Vec<Tag>)
    ensures
        tag_views(out@) == merged_tags(tag_views(base@), tag_views(extra@)),
{
    let ghost b = tag_views(base@);
    let ghost e = tag_views(extra@);
    let mut out: Vec<Tag> = Vec::new();
    let mut i: usize = 0;
    proof {
        assert(b.take(0).len() == 0);
        assert(tag_views(out@) =~= kept_tags(b.take(0), e));
    }
    while i < base.len()
        invariant
            i <= base.len(),
            b == tag_views(base@),
            e == tag_views(extra@),
            tag_views(out@) == kept_tags(b.take(i as int), e),
        decreases base.len() - i,
    {
        let ghost before = tag_views(out@);
        proof {
            let next = b.take(i + 1);
            assert(next.drop_last() =~= b.take(i as int));
            assert(next.last() == b[i as int]);
        }
        if !contains_key(extra, base[i].key.as_str()) {
            out.push(base[i].duplicate());
            assert(tag_views(out@) =~= before.push(b[i as int]));
        }
        i = i + 1;
    }
    proof {
        assert(b.take(base.len() as int) =~= b);
    }
    let ghost kept = tag_views(out@);
    let mut j: usize = 0;
    proof {
        assert(kept + e.take(0) =~= kept);
    }
    while j < extra.len()
        invariant
            j <= extra.len(),
            e == tag_views(extra@),
            tag_views(out@) == kept + e.take(j as int),
        decreases extra.len() - j,
    {
        let ghost before = tag_views(out@);
        out.push(extra[j].duplicate());
        proof {
            assert(tag_views(out@) =~= before.push(e[j as int]));
            assert(e.take(j + 1) =~= e.take(j as int).push(e[j as int]));
            assert(kept + e.take(j + 1) =~= (kept + e.take(j as int)).push(e[j as int]));
        }
        j = j + 1;
    }
    proof {
        assert(e.take(extra.len() as int) =~= e);
    }
    out
}

/// The configuration of an agent.
#[derive(Debug)]
pub struct PyroscopeConfig {
    /// Absolute URL of the profiling server.
    pub url: String,
    /// Name the profiles are filed under.
    pub application_name: String,
    /// Agent-wide tags; no key occurs twice.
    pub tags: Vec<Tag>,
    /// Samples per second.
    pub sample_rate: u32,
    /// Name of the sampling backend.
    pub spy_name: String,
    /// Bearer token, where the server asks for one.
    pub auth_token: Option<String>,
    /// Compression of request bodies.
    pub compression: Option<Compression>,
    /// Encoding of reports.
    pub report_encoding: ReportEncoding,
    /// Tenant the profiles belong to.
    pub tenant_id: Option<String>,
    /// Further HTTP headers, as (name, value) pairs.
    pub http_headers: Vec<Tag>,
}

/// A configuration as contracts see it.
pub struct ConfigView {
    pub url: Seq<char>,
    pub application_name: Seq<char>,
    pub tags: Seq<TagView>,
    pub sample_rate: u32,
    pub spy_name: Seq<char>,
    pub auth_token: Option<Seq<char>>,
    pub compression: Option<Compression>,
    pub report_encoding: ReportEncoding,
    pub tenant_id: Option<Seq<char>>,
    pub http_headers: Seq<TagView>,
}

/// The text of an optional string.
pub open spec fn opt_text(s: Option<String>) -> Option<Seq<char>> {
    match s {
        Some(t) => Some(t@),
        None => None,
    }
}

impl View for PyroscopeConfig {
    type V = ConfigView;

    open spec fn view(&self) -> ConfigView {
        ConfigView {
            url: self.url@,
            application_name: self.application_name@,
            tags: tag_views(self.tags@),
            sample_rate: self.sample_rate,
            spy_name: self.spy_name@,
            auth_token: opt_text(self.auth_token),
            compression: self.compression,
            report_encoding: self.report_encoding,
            tenant_id: opt_text(self.tenant_id),
            http_headers: tag_views(self.http_headers@),
        }
    }
}

/// The sample rate of a configuration that sets none.
pub const DEFAULT_SAMPLE_RATE: u32 = 100;

/// The server URL as a base to resolve against: it ends in a slash, so that
/// the whole of its path is kept.
pub open spec fn ingest_base(url: Seq<char>) -> Seq<char> {
    if url.len() > 0 && url.last() == '/' {
        url
    } else {
        url + seq!['/']
    }
}

/// The ingest endpoint of a server: `ingest` below the server URL, or `None`
/// where the server URL does not parse.
pub open spec fn ingest_endpoint(url: Seq<char>) -> Option<Seq<char>> {
    url_joined(ingest_base(url), "ingest"@)
}

/// The ingest endpoint of a server.
pub fn endpoint(url: &str) -> (r: Option<String>)
    ensures
        r matches Some(e) ==> ingest_endpoint(url@) == Some(e@),
        r is None ==> ingest_endpoint(url@) is None,
{
    let n: usize = url.unicode_len();
    if n > 0 && url.get_char(n - 1) == '/' {
        join_url(url, "ingest")
    } else {
        let mut base: String = url.to_owned();
        proof {
            reveal_strlit("/");
            assert("/"@ =~= seq!['/']);
        }
        base.append("/");
        join_url(base.as_str(), "ingest")
    }
}

/// The configuration that `PyroscopeConfig::new` makes.
pub open spec fn default_config(url: Seq<char>, application_name: Seq<char>) -> ConfigView {
    ConfigView {
        url,
        application_name,
        tags: Seq::empty(),
        sample_rate: DEFAULT_SAMPLE_RATE,
        spy_name: Seq::empty(),
        auth_token: None,
        compression: None,
        report_encoding: ReportEncoding::Folded,
        tenant_id: None,
        http_headers: Seq::empty(),
    }
}

/// What is wrong with a configuration, if anything: the first of an empty
/// application name, a sample rate of zero, a reserved tag key and a URL
/// that does not parse.
pub open spec fn config_fault(c: ConfigView) -> Option<PyroscopeError> {
    if c.application_name.len() == 0 {
        Some(
            PyroscopeError::InvalidConfig {
                field: ConfigField::ApplicationName,
                reason: ConfigReason::Missing,
            },
        )
    } else if c.sample_rate == 0 {
        Some(
            PyroscopeError::InvalidConfig {
                field: ConfigField::SampleRate,
                reason: ConfigReason::Zero,
            },
        )
    } else if has_reserved_key(c.tags) {
        Some(
            PyroscopeError::InvalidConfig {
                field: ConfigField::Tags,
                reason: ConfigReason::ReservedTagKey,
            },
        )
    } else if ingest_endpoint(c.url) is None {
        Some(
            PyroscopeError::InvalidConfig {
                field: ConfigField::ServerUrl,
                reason: ConfigReason::Malformed,
            },
        )
    } else {
        None
    }
}

/// A copy of an optional string.
pub fn duplicate_opt(s: &Option<String>) -> (r: Option<String>)
    ensures
        r == *s,
{
    match s {
        Some(t) => Some(t.clone()),
        None => None,
    }
}

impl PyroscopeConfig {
    /// The invariant of a configuration: no tag key occurs twice.
    pub open spec fn wf(&self) -> bool {
        keys_unique(self@.tags)
    }

    /// A configuration for the given server and application, with the
    /// default sample rate, the folded encoding, no tags, no compression and
    /// no credentials.
    pub fn new(url: &str, application_name: &str) -> (c: PyroscopeConfig)
        ensures
            c@ == default_config(url@, application_name@),
            c.wf(),
    {
        let c = PyroscopeConfig {
            url: url.to_owned(),
            application_name: application_name.to_owned(),
            tags: Vec::new(),
            sample_rate: DEFAULT_SAMPLE_RATE,
            spy_name: String::new(),
            auth_token: None,
            compression: None,
            report_encoding: ReportEncoding::Folded,
            tenant_id: None,
            http_headers: Vec::new(),
        };
        assert(c@.tags =~= Seq::<TagView>::empty());
        assert(c@.http_headers =~= Seq::<TagView>::empty());
        c
    }

    /// Sets the server URL.
    pub fn url(self, url: &str) -> (c: PyroscopeConfig)
        ensures
            c@ == (ConfigView { url: url@, ..self@ }),
    {
        let mut c = self;
        c.url = url.to_owned();
        c
    }

    /// Sets the application name.
    pub fn application_name(self, application_name: &str) -> (c: PyroscopeConfig)
        ensures
            c@ == (ConfigView { application_name: application_name@, ..self@ }),
    {
        let mut c = self;
        c.application_name = application_name.to_owned();
        c
    }

    /// Sets the sample rate.
    pub fn sample_rate(self, sample_rate: u32) -> (c: PyroscopeConfig)
        ensures
            c@ == (ConfigView { sample_rate, ..self@ }),
    {
        let mut c = self;
        c.sample_rate = sample_rate;
        c
    }

    /// Sets the name of the sampling backend.
    pub fn spy_name(self, spy_name: &str) -> (c: PyroscopeConfig)
        ensures
            c@ == (ConfigView { spy_name: spy_name@, ..self@ }),
    {
        let mut c = self;
        c.spy_name = spy_name.to_owned();
        c
    }

    /// Sets the bearer token.
    pub fn auth_token(self, auth_token: &str) -> (c: PyroscopeConfig)
        ensures
            c@ == (ConfigView { auth_token: Some(auth_token@), ..self@ }),
    {
        let mut c = self;
        c.auth_token = Some(auth_token.to_owned());
        c
    }

    /// Sets the compression of request bodies.
    pub fn compression(self, compression: Compression) -> (c: PyroscopeConfig)
        ensures
            c@ == (ConfigView { compression: Some(compression), ..self@ }),
    {
        let mut c = self;
        c.compression = Some(compression);
        c
    }

    /// Sets the encoding of reports.
    pub fn report_encoding(self, report_encoding: ReportEncoding) -> (c: PyroscopeConfig)
        ensures
            c@ == (ConfigView { report_encoding, ..self@ }),
    {
        let mut c = self;
        c.report_encoding = report_encoding;
        c
    }

    /// Sets the tenant.
    pub fn tenant_id(self, tenant_id: &str) -> (c: PyroscopeConfig)
        ensures
            c@ == (ConfigView { tenant_id: Some(tenant_id@), ..self@ }),
    {
        let mut c = self;
        c.tenant_id = Some(tenant_id.to_owned());
        c
    }

    /// Sets the additional HTTP headers.
    pub fn http_headers(self, http_headers: Vec<Tag>) -> (c: PyroscopeConfig)
        ensures
            c@ == (ConfigView { http_headers: tag_views(http_headers@), ..self@ }),
    {
        let mut c = self;
        c.http_headers = http_headers;
        c
    }

    /// Sets the tag `key` to `value`, replacing an earlier tag of that key.
    pub fn tag(self, key: &str, value: &str) -> (c: PyroscopeConfig)
        ensures
            c@ == (ConfigView { tags: with_tag(self@.tags, key@, value@), ..self@ }),
            self.wf() ==> c.wf(),
    {
        let mut c = self;
        c.add_global_tag(key, value);
        c
    }

    /// Sets the agent-wide tag `key` to `value`, replacing an earlier tag of
    /// that key. Sessions built from now on carry it; sessions built before
    /// keep the tags they were built with.
    pub fn add_global_tag(&mut self, key: &str, value: &str)
        ensures
            final(self)@ == (ConfigView {
                tags: with_tag(old(self)@.tags, key@, value@),
                ..old(self)@
            }),
            old(self).wf() ==> final(self).wf(),
    {
        let mut tags = remove_matching(&self.tags, key, None);
        let ghost kept = tag_views(tags@);
        tags.push(Tag::new(key, value));
        proof {
            assert(tag_views(tags@) =~= kept.push((key@, value@)));
            if old(self).wf() {
                lemma_with_tag(old(self)@.tags, key@, value@);
            }
        }
        self.tags = tags;
    }

    /// Removes the agent-wide tag `key` = `value`; a tag of that key with
    /// another value stays.
    pub fn remove_global_tag(&mut self, key: &str, value: &str)
        ensures
            final(self)@ == (ConfigView {
                tags: without(old(self)@.tags, key@, Some(value@)),
                ..old(self)@
            }),
            old(self).wf() ==> final(self).wf(),
    {
        let tags = remove_matching(&self.tags, key, Some(value));
        proof {
            lemma_without(old(self)@.tags, key@, Some(value@));
        }
        self.tags = tags;
    }

    /// A copy of this configuration: the snapshot a session takes along.
    pub fn duplicate(&self) -> (c: PyroscopeConfig)
        ensures
            c@ == self@,
    {
        PyroscopeConfig {
            url: self.url.clone(),
            application_name: self.application_name.clone(),
            tags: duplicate_tags(&self.tags),
            sample_rate: self.sample_rate,
            spy_name: self.spy_name.clone(),
            auth_token: duplicate_opt(&self.auth_token),
            compression: self.compression,
            report_encoding: self.report_encoding,
            tenant_id: duplicate_opt(&self.tenant_id),
            http_headers: duplicate_tags(&self.http_headers),
        }
    }

    /// Checks the configuration before an agent is built from it: the
    /// application name is not empty, the sample rate is positive, no tag key
    /// is reserved and the server URL parses.
    pub fn validate(&self) -> (r: Result<(), PyroscopeError>)
        ensures
            match config_fault(self@) {
                Some(e) => r == Err::<(), PyroscopeError>(e),
                None => r is Ok,
            },
    {
        if self.application_name.as_str().unicode_len() == 0 {
            return Err(
                PyroscopeError::InvalidConfig {
                    field: ConfigField::ApplicationName,
                    reason: ConfigReason::Missing,
                },
            );
        }
        if self.sample_rate == 0 {
            return Err(
                PyroscopeError::InvalidConfig {
                    field: ConfigField::SampleRate,
                    reason: ConfigReason::Zero,
                },
            );
        }
        if any_reserved_key(&self.tags) {
            return Err(
                PyroscopeError::InvalidConfig {
                    field: ConfigField::Tags,
                    reason: ConfigReason::ReservedTagKey,
                },
            );
        }
        match endpoint(self.url.as_str()) {
            Some(_) => Ok(()),
            None => Err(
                PyroscopeError::InvalidConfig {
                    field: ConfigField::ServerUrl,
                    reason: ConfigReason::Malformed,
                },
            ),
        }
    }
}

} // verus!
