//! The calls this library makes into other crates. Their contracts are
//! believed, not proved.

use vstd::prelude::*;

verus! {

/// What `join_url` returns for a base and a relative reference: the joined
/// URL as text, or `None` where the `url` crate rejects one of the two.
pub uninterp spec fn url_joined(base: Seq<char>, relative: Seq<char>) -> Option<Seq<char>>;

/// Parses `base` as an absolute URL with `reqwest::Url::parse` and resolves
/// `relative` against it with `Url::join`; `None` where either refuses. The
/// contract only gives the outcome its name, `url_joined`: the parser is a
/// function of its input and of nothing else, and what it computes is not
/// restated here.
#[verifier::external_body]
pub(crate) fn join_url(base: &str, relative: &str) -> (r: Option<String>)
    ensures
        r matches Some(joined) ==> url_joined(base@, relative@) == Some(joined@),
        r is None ==> url_joined(base@, relative@) is None,
{
    let joined = reqwest::Url::parse(base).ok()?.join(relative).ok()?;
    Some(String::from(joined))
}

/// What every gzip stream of `libflate` starts with and how long it is at
/// least: the two identification bytes and the method byte of a ten-byte
/// header, and room for the eight-byte trailer.
pub open spec fn gzip_framed(stream: Seq<u8>) -> bool {
    &&& stream.len() >= 18
    &&& stream[0] == 31
    &&& stream[1] == 139
    &&& stream[2] == 8
}

/// Compresses `data` into a gzip stream with `libflate::gzip::Encoder`
/// (`new`, `write_all`, `finish`); `None` where the encoder reports an error.
/// The header holds the time of the call, so two calls on the same data may
/// differ: of the bytes only the framing is claimed, which the encoder
/// writes whatever the data and the time.
#[verifier::external_body]
pub(crate) fn gzip(data: &[u8]) -> (r: Option<Vec<u8>>)
    ensures
        r matches Some(stream) ==> gzip_framed(stream@),
{
    let mut encoder = libflate::gzip::Encoder::new(Vec::new()).ok()?;
    std::io::Write::write_all(&mut encoder, data).ok()?;
    encoder.finish().into_result().ok()
}

} // verus!
