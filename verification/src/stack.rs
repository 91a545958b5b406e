//! Stack traces and their folded representation.

use crate::tags::{
    encoded_name_ignores_order, lemma_tag_order_total, sort_tags, tag_order, tag_views, Tag,
    TagView,
};
use vstd::prelude::*;
use vstd::string::*;

verus! {

/// One frame of a call stack. Every field is optional; the function name is
/// the one the folded representation uses.
#[derive(Debug)]
pub struct StackFrame {
    pub module: Option<String>,
    pub function_name: Option<String>,
    pub short_filename: Option<String>,
    pub absolute_path: Option<String>,
    pub relative_path: Option<String>,
    pub line: Option<u32>,
}

/// The direction in which a backend lists the frames of a trace.
#[derive(Clone, Copy, Debug, PartialEq, Eq, Structural)]
pub enum FrameOrder {
    /// The callee comes first, its callers after it.
    InnermostFirst,
    /// The outermost caller comes first.
    OutermostFirst,
}

/// What groups samples together: the tags and the origin of a sample.
#[derive(Debug)]
pub struct ReportMetadata {
    pub tags: Vec<Tag>,
    pub sample_rate: u32,
    pub spy_name: String,
    pub application_name: String,
}

/// A `ReportMetadata` as contracts see it.
pub struct MetadataView {
    pub tags: Seq<TagView>,
    pub sample_rate: u32,
    pub spy_name: Seq<char>,
    pub application_name: Seq<char>,
}

impl View for ReportMetadata {
    type V = MetadataView;

    open spec fn view(&self) -> MetadataView {
        MetadataView {
            tags: tag_views(self.tags@),
            sample_rate: self.sample_rate,
            spy_name: self.spy_name@,
            application_name: self.application_name@,
        }
    }
}

/// Two metadata are equal when they agree on sample rate, spy name and
/// application name and carry the same tags, in whatever order.
pub open spec fn same_metadata(a: MetadataView, b: MetadataView) -> bool {
    &&& a.tags.to_multiset() == b.tags.to_multiset()
    &&& a.sample_rate == b.sample_rate
    &&& a.spy_name == b.spy_name
    &&& a.application_name == b.application_name
}

/// Whether two tag lists hold the same tags in the same order.
pub fn tags_equal(a: &Vec<Tag>, b: &Vec<Tag>) -> (r: bool)
    ensures
        r == (tag_views(a@) == tag_views(b@)),
{
    if a.len() != b.len() {
        assert(tag_views(a@).len() != tag_views(b@).len());
        return false;
    }
    let mut i: usize = 0;
    while i < a.len()
        invariant
            i <= a.len(),
            a.len() == b.len(),
            forall|j: int| 0 <= j < i ==> tag_views(a@)[j] == tag_views(b@)[j],
        decreases a.len() - i,
    {
        if !(a[i].key == b[i].key && a[i].value == b[i].value) {
            assert(tag_views(a@)[i as int] != tag_views(b@)[i as int]);
            return false;
        }
        i = i + 1;
    }
    assert(tag_views(a@) =~= tag_views(b@));
    true
}

/// A copy of a tag list.
pub fn duplicate_tags(tags: &Vec<Tag>) -> (out: Vec<Tag>)
    ensures
        out@ == tags@,
{
    let mut out: Vec<Tag> = Vec::new();
    let mut i: usize = 0;
    while i < tags.len()
        invariant
            i <= tags.len(),
            out@ == tags@.take(i as int),
        decreases tags.len() - i,
    {
        out.push(tags[i].duplicate());
        assert(tags@.take(i + 1) =~= tags@.take(i as int).push(tags@[i as int]));
        i = i + 1;
    }
    assert(tags@.take(tags.len() as int) =~= tags@);
    out
}

impl ReportMetadata {
    /// Whether samples with these two metadata can be aggregated.
    pub fn same(&self, other: &ReportMetadata) -> (r: bool)
        ensures
            r == same_metadata(self@, other@),
    {
        if self.sample_rate != other.sample_rate || self.spy_name != other.spy_name
            || self.application_name != other.application_name {
            return false;
        }
        let a = sort_tags(&self.tags);
        let b = sort_tags(&other.tags);
        proof {
            let (va, vb) = (tag_views(self.tags@), tag_views(other.tags@));
            lemma_tag_order_total();
            va.lemma_sort_by_ensures(tag_order());
            vb.lemma_sort_by_ensures(tag_order());
            if va.to_multiset() == vb.to_multiset() {
                encoded_name_ignores_order(Seq::empty(), va, vb);
            }
        }
        tags_equal(&a, &b)
    }

    /// A copy of this metadata.
    pub fn duplicate(&self) -> (m: ReportMetadata)
        ensures
            m@ == self@,
    {
        ReportMetadata {
            tags: duplicate_tags(&self.tags),
            sample_rate: self.sample_rate,
            spy_name: self.spy_name.clone(),
            application_name: self.application_name.clone(),
        }
    }
}

/// A sampled call stack.
#[derive(Debug)]
pub struct StackTrace {
    pub pid: Option<u32>,
    pub thread_id: Option<u64>,
    pub thread_name: Option<String>,
    pub frames: Vec<StackFrame>,
    /// The direction `frames` is listed in.
    pub order: FrameOrder,
    pub metadata: ReportMetadata,
}

/// The name a frame contributes to a folded stack: its function name, or the
/// empty text where it has none.
pub open spec fn frame_name(frame: StackFrame) -> Seq<char> {
    match frame.function_name {
        Some(name) => name@,
        None => Seq::empty(),
    }
}

/// The frame names of a trace from the outermost caller to the innermost
/// callee.
pub open spec fn names_outermost_first(frames: Seq<StackFrame>, order: FrameOrder) -> Seq<
    Seq<char>,
> {
    Seq::new(
        frames.len(),
        |i: int|
            match order {
                FrameOrder::OutermostFirst => frame_name(frames[i]),
                FrameOrder::InnermostFirst => frame_name(frames[frames.len() - 1 - i]),
            },
    )
}

/// The names in the order given, separated by semicolons.
pub open spec fn joined_names(names: Seq<Seq<char>>) -> Seq<char>
    decreases names.len(),
{
    if names.len() == 0 {
        Seq::empty()
    } else if names.len() == 1 {
        names[0]
    } else {
        joined_names(names.drop_last()) + seq![';'] + names.last()
    }
}

/// The folded representation of a stack: the function names from caller to
/// callee, separated by semicolons.
pub open spec fn folded(frames: Seq<StackFrame>, order: FrameOrder) -> Seq<char> {
    joined_names(names_outermost_first(frames, order))
}

impl StackTrace {
    /// The folded representation of this trace.
    pub fn fold(&self) -> (s: String)
        ensures
            s@ == folded(self.frames@, self.order),
    {
        let n: usize = self.frames.len();
        let ghost names = names_outermost_first(self.frames@, self.order);
        let mut s: String = String::new();
        let mut i: usize = 0;
        proof {
            reveal_strlit(";");
            assert(";"@ =~= seq![';']);
            assert(names.take(0).len() == 0);
        }
        while i < n
            invariant
                i <= n,
                n == self.frames.len(),
                names == names_outermost_first(self.frames@, self.order),
                s@ == joined_names(names.take(i as int)),
                ";"@ == seq![';'],
            decreases n - i,
        {
            let ghost before = s@;
            if i > 0 {
                s.append(";");
            }
            let at: usize = match self.order {
                FrameOrder::OutermostFirst => i,
                FrameOrder::InnermostFirst => n - 1 - i,
            };
            match &self.frames[at].function_name {
                Some(name) => {
                    s.append(name.as_str());
                },
                None => {},
            }
            proof {
                let next = names.take(i + 1);
                assert(next.drop_last() =~= names.take(i as int));
                assert(next.last() == frame_name(self.frames@[at as int]));
                if i == 0 {
                    assert(before =~= Seq::<char>::empty());
                    assert(s@ =~= next[0]);
                } else {
                    assert(s@ =~= before + seq![';'] + next.last());
                }
            }
            i = i + 1;
        }
        proof {
            assert(names.take(n as int) =~= names);
        }
        s
    }
}

} // verus!
