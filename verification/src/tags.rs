//! Labeling tags: their canonical order and the encoding of an application
//! name together with its tags.

use crate::error::{ConfigField, ConfigReason, PyroscopeError};
use crate::text::{
    bytes_eq, bytes_le, bytes_le_exec, lemma_bytes_le_antisymmetric, lemma_bytes_le_reflexive,
    lemma_bytes_le_total, lemma_bytes_le_transitive, lemma_encode_injective,
};
use vstd::prelude::*;
use vstd::relations::{sorted_by, total_ordering};
use vstd::seq_lib::{lemma_sorted_unique, to_multiset_build, to_multiset_insert, to_multiset_len};
use vstd::string::*;
use vstd::utf8::encode_utf8;

verus! {

/// A tag as contracts see it: the characters of its key and of its value.
pub type TagView = (Seq<char>, Seq<char>);

/// A (key, value) label attached to samples.
#[derive(Debug)]
pub struct Tag {
    pub key: String,
    pub value: String,
}

impl View for Tag {
    type V = TagView;

    open spec fn view(&self) -> TagView {
        (self.key@, self.value@)
    }
}

impl Tag {
    /// A tag with the given key and value.
    pub fn new(key: &str, value: &str) -> (t: Tag)
        ensures
            t@ == (key@, value@),
    {
        Tag { key: key.to_owned(), value: value.to_owned() }
    }

    /// A copy of this tag.
    pub fn duplicate(&self) -> (t: Tag)
        ensures
            t == *self,
    {
        Tag { key: self.key.clone(), value: self.value.clone() }
    }
}

/// The views of a sequence of tags, in the same order.
pub open spec fn tag_views(tags: Seq<Tag>) -> Seq<TagView> {
    Seq::new(tags.len(), |i: int| tags[i]@)
}

/// Canonical order of tags: by key in byte order, then by value in byte
/// order.
pub open spec fn tag_le(x: TagView, y: TagView) -> bool {
    if encode_utf8(x.0) == encode_utf8(y.0) {
        bytes_le(encode_utf8(x.1), encode_utf8(y.1))
    } else {
        bytes_le(encode_utf8(x.0), encode_utf8(y.0))
    }
}

/// `tag_le` as a relation.
pub open spec fn tag_order() -> spec_fn(TagView, TagView) -> bool {
    |x: TagView, y: TagView| tag_le(x, y)
}

/// The tags in canonical order.
pub open spec fn sorted_tags(tags: Seq<TagView>) -> Seq<TagView> {
    tags.sort_by(tag_order())
}

/// The canonical order is a total order.
pub proof fn lemma_tag_order_total()
    ensures
        total_ordering(tag_order()),
{
    let r = tag_order();
    assert forall|x: TagView| #[trigger] r(x, x) by {
        lemma_bytes_le_reflexive(encode_utf8(x.1));
    }
    assert forall|x: TagView, y: TagView| #[trigger] r(x, y) && #[trigger] r(y, x) implies x
        == y by {
        if encode_utf8(x.0) == encode_utf8(y.0) {
            lemma_bytes_le_antisymmetric(encode_utf8(x.1), encode_utf8(y.1));
        } else {
            lemma_bytes_le_antisymmetric(encode_utf8(x.0), encode_utf8(y.0));
        }
        lemma_encode_injective(x.0, y.0);
        lemma_encode_injective(x.1, y.1);
    }
    assert forall|x: TagView, y: TagView, z: TagView| #[trigger]
        r(x, y) && #[trigger] r(y, z) implies r(x, z) by {
        let (kx, ky, kz) = (encode_utf8(x.0), encode_utf8(y.0), encode_utf8(z.0));
        if kx == ky && ky == kz {
            lemma_bytes_le_transitive(encode_utf8(x.1), encode_utf8(y.1), encode_utf8(z.1));
        } else if kx != ky && ky != kz {
            lemma_bytes_le_transitive(kx, ky, kz);
            if kx == kz {
                lemma_bytes_le_antisymmetric(kx, ky);
            }
        }
    }
    assert forall|x: TagView, y: TagView| #[trigger] r(x, y) || #[trigger] r(y, x) by {
        lemma_bytes_le_total(encode_utf8(x.0), encode_utf8(y.0));
        lemma_bytes_le_total(encode_utf8(x.1), encode_utf8(y.1));
    }
}

/// Whether `a` comes at or before `b` in the canonical order.
pub fn tag_le_exec(a: &Tag, b: &Tag) -> (r: bool)
    ensures
        r == tag_le(a@, b@),
{
    let (ka, kb) = (a.key.as_str().as_bytes(), b.key.as_str().as_bytes());
    if bytes_eq(ka, kb) {
        bytes_le_exec(a.value.as_str().as_bytes(), b.value.as_str().as_bytes())
    } else {
        bytes_le_exec(ka, kb)
    }
}

/// Inserting an element at the end of the run of elements that do not exceed
/// it keeps a sequence sorted.
proof fn lemma_insert_sorted(s: Seq<TagView>, p: int, x: TagView)
    requires
        sorted_by(s, tag_order()),
        0 <= p <= s.len(),
        forall|j: int| 0 <= j < p ==> tag_le(#[trigger] s[j], x),
        p < s.len() ==> !tag_le(s[p], x),
    ensures
        sorted_by(s.insert(p, x), tag_order()),
{
    lemma_tag_order_total();
    let r = tag_order();
    let t = s.insert(p, x);
    assert forall|i: int, j: int| 0 <= i < j < t.len() implies #[trigger] r(t[i], t[j]) by {
        if j == p {
            assert(t[i] == s[i]);
        } else if i == p {
            assert(t[j] == s[j - 1]);
            assert(r(s[p], x) || r(x, s[p]));
            if j - 1 > p {
                assert(r(s[p], s[j - 1]));
            }
            assert(r(x, s[p]) && r(s[p], s[j - 1]) ==> r(x, s[j - 1]));
        } else {
            let i0 = if i < p { i } else { i - 1 };
            let j0 = if j < p { j } else { j - 1 };
            assert(t[i] == s[i0] && t[j] == s[j0]);
            assert(r(s[i0], s[j0]));
        }
    }
}

/// The tags in canonical order.
pub fn sort_tags(tags: &Vec<Tag>) -> (out: Vec<Tag>)
    ensures
        tag_views(out@) == sorted_tags(tag_views(tags@)),
{
    let mut out: Vec<Tag> = Vec::new();
    let mut i: usize = 0;
    proof {
        assert(tag_views(tags@).take(0) =~= tag_views(out@));
    }
    while i < tags.len()
        invariant
            i <= tags.len(),
            sorted_by(tag_views(out@), tag_order()),
            tag_views(out@).to_multiset() == tag_views(tags@).take(i as int).to_multiset(),
        decreases tags.len() - i,
    {
        let tag = tags[i].duplicate();
        let mut p: usize = 0;
        while p < out.len() && tag_le_exec(&out[p], &tag)
            invariant
                p <= out.len(),
                forall|j: int| 0 <= j < p ==> tag_le(#[trigger] tag_views(out@)[j], tag@),
            decreases out.len() - p,
        {
            p = p + 1;
        }
        let ghost before = tag_views(out@);
        out.insert(p, tag);
        proof {
            assert(tag_views(out@) =~= before.insert(p as int, tag@));
            lemma_insert_sorted(before, p as int, tag@);
            to_multiset_insert(before, p as int, tag@);
            let prefix = tag_views(tags@).take(i as int);
            assert(tag_views(tags@).take(i + 1) =~= prefix.push(tag@));
            to_multiset_build(prefix, tag@);
        }
        i = i + 1;
    }
    proof {
        let input = tag_views(tags@);
        assert(input.take(tags.len() as int) =~= input);
        lemma_tag_order_total();
        input.lemma_sort_by_ensures(tag_order());
        lemma_sorted_unique(tag_views(out@), input.sort_by(tag_order()), tag_order());
    }
    out
}

/// A key is reserved when it starts and ends with two underscores, as
/// `__name__` does.
pub open spec fn reserved_key(key: Seq<u8>) -> bool {
    &&& key.len() >= 2
    &&& key[0] == 95
    &&& key[1] == 95
    &&& key[key.len() - 2] == 95
    &&& key[key.len() - 1] == 95
}

/// Whether some tag of the sequence has a reserved key.
pub open spec fn has_reserved_key(tags: Seq<TagView>) -> bool {
    exists|i: int| 0 <= i < tags.len() && reserved_key(encode_utf8(#[trigger] tags[i].0))
}

/// Whether `key` is reserved.
pub fn is_reserved_key(key: &str) -> (r: bool)
    ensures
        r == reserved_key(encode_utf8(key@)),
{
    let bytes = key.as_bytes();
    let n: usize = bytes.len();
    n >= 2 && bytes[0] == 95 && bytes[1] == 95 && bytes[n - 2] == 95 && bytes[n - 1] == 95
}

/// Whether some tag has a reserved key.
pub fn any_reserved_key(tags: &Vec<Tag>) -> (r: bool)
    ensures
        r == has_reserved_key(tag_views(tags@)),
{
    let mut i: usize = 0;
    while i < tags.len()
        invariant
            i <= tags.len(),
            forall|j: int| 0 <= j < i ==> !reserved_key(encode_utf8(#[trigger] tag_views(tags@)[j].0)),
        decreases tags.len() - i,
    {
        if is_reserved_key(tags[i].key.as_str()) {
            assert(reserved_key(encode_utf8(tag_views(tags@)[i as int].0)));
            return true;
        }
        i = i + 1;
    }
    false
}

/// The text of one tag: `key=value`.
pub open spec fn tag_text(t: TagView) -> Seq<char> {
    t.0 + seq!['='] + t.1
}

/// The texts of the tags in the order given, separated by commas.
pub open spec fn joined_tags(tags: Seq<TagView>) -> Seq<char>
    decreases tags.len(),
{
    if tags.len() == 0 {
        Seq::empty()
    } else if tags.len() == 1 {
        tag_text(tags[0])
    } else {
        joined_tags(tags.drop_last()) + seq![','] + tag_text(tags.last())
    }
}

/// The application name with its tags: the bare name where there is no tag,
/// else `name{k=v,k=v}` with the tags in canonical order.
pub open spec fn encoded_name(app: Seq<char>, tags: Seq<TagView>) -> Seq<char> {
    if tags.len() == 0 {
        app
    } else {
        app + seq!['{'] + joined_tags(sorted_tags(tags)) + seq!['}']
    }
}

/// Encodes an application name with its tags for the `name` parameter of an
/// ingest request. Fails with `ReservedTagKey` where a tag key is reserved.
pub fn merge_tags_with_app_name(application_name: &str, tags: &Vec<Tag>) -> (r: Result<
    String,
    PyroscopeError,
>)
    ensures
        has_reserved_key(tag_views(tags@)) ==> r == Err::<String, PyroscopeError>(
            PyroscopeError::InvalidConfig {
                field: ConfigField::Tags,
                reason: ConfigReason::ReservedTagKey,
            },
        ),
        !has_reserved_key(tag_views(tags@)) ==> (r matches Ok(name) && name@ == encoded_name(
            application_name@,
            tag_views(tags@),
        )),
{
    if any_reserved_key(tags) {
        return Err(
            PyroscopeError::InvalidConfig {
                field: ConfigField::Tags,
                reason: ConfigReason::ReservedTagKey,
            },
        );
    }
    let mut name: String = application_name.to_owned();
    if tags.len() == 0 {
        return Ok(name);
    }
    let sorted = sort_tags(tags);
    proof {
        reveal_strlit("{");
        reveal_strlit("}");
        reveal_strlit(",");
        reveal_strlit("=");
        assert("{"@ =~= seq!['{']);
        assert("}"@ =~= seq!['}']);
        assert(","@ =~= seq![',']);
        assert("="@ =~= seq!['=']);
        lemma_tag_order_total();
        tag_views(tags@).lemma_sort_by_ensures(tag_order());
        to_multiset_len(tag_views(tags@));
        to_multiset_len(tag_views(sorted@));
    }
    name.append("{");
    let ghost head = name@;
    let ghost views = tag_views(sorted@);
    let mut i: usize = 0;
    proof {
        assert(views.take(0).len() == 0);
        assert(head + joined_tags(views.take(0)) =~= head);
    }
    while i < sorted.len()
        invariant
            i <= sorted.len(),
            views == tag_views(sorted@),
            name@ == head + joined_tags(views.take(i as int)),
            ","@ == seq![','],
            "="@ == seq!['='],
        decreases sorted.len() - i,
    {
        let ghost before = name@;
        if i > 0 {
            name.append(",");
        }
        name.append(sorted[i].key.as_str());
        name.append("=");
        name.append(sorted[i].value.as_str());
        proof {
            let next = views.take(i + 1);
            assert(next.drop_last() =~= views.take(i as int));
            assert(next.last() == views[i as int]);
            assert(views[i as int] == sorted@[i as int]@);
            if i == 0 {
                assert(joined_tags(views.take(0)) =~= Seq::<char>::empty());
                assert(name@ =~= head + joined_tags(next));
            } else {
                assert(name@ =~= head + joined_tags(next));
            }
        }
        i = i + 1;
    }
    proof {
        assert(views.take(sorted.len() as int) =~= views);
    }
    name.append("}");
    Ok(name)
}

/// The encoded name depends on which tags there are and how often, not on
/// the order they are given in.
pub proof fn encoded_name_ignores_order(app: Seq<char>, a: Seq<TagView>, b: Seq<TagView>)
    requires
        a.to_multiset() == b.to_multiset(),
    ensures
        sorted_tags(a) == sorted_tags(b),
        encoded_name(app, a) == encoded_name(app, b),
{
    lemma_tag_order_total();
    a.lemma_sort_by_ensures(tag_order());
    b.lemma_sort_by_ensures(tag_order());
    lemma_sorted_unique(a.sort_by(tag_order()), b.sort_by(tag_order()), tag_order());
    to_multiset_len(a);
    to_multiset_len(b);
}

} // verus!
