//! What makes a link worth crawling: it is an absolute `http` or `https` URL
//! and its path does not end in the extension of a non-page resource.
//!
//! All rules are stated on the UTF-8 bytes of the URL and compare bytes
//! exactly: `HTTP://` is no scheme here and `.PNG` is not `.png`.

use vstd::prelude::*;
use vstd::utf8::encode_utf8;

verus! {

/// The bytes of `http://`.
pub open spec fn http_scheme() -> Seq<u8> {
    seq![0x68u8, 0x74u8, 0x74u8, 0x70u8, 0x3au8, 0x2fu8, 0x2fu8]
}

/// The bytes of `https://`.
pub open spec fn https_scheme() -> Seq<u8> {
    seq![0x68u8, 0x74u8, 0x74u8, 0x70u8, 0x73u8, 0x3au8, 0x2fu8, 0x2fu8]
}

/// How many bytes of `url` the scheme and its `://` take: 7 for `http://`,
/// 8 for `https://`, 0 if `url` starts with neither.
pub open spec fn scheme_len(url: Seq<u8>) -> int {
    if http_scheme().is_prefix_of(url) {
        7
    } else if https_scheme().is_prefix_of(url) {
        8
    } else {
        0
    }
}

/// Whether `b` ends a part of a URL: `?` and `#` always do, `/` does where
/// `slash` is set, that is, while the authority is being read.
pub open spec fn is_stop(b: u8, slash: bool) -> bool {
    b == 0x3f || b == 0x23 || (slash && b == 0x2f)
}

/// The first position at or after `from` that holds a stop byte, or the
/// length of `url` if there is none.
pub open spec fn first_stop(url: Seq<u8>, from: int, slash: bool) -> int
    decreases url.len() - from,
{
    if from < 0 || from >= url.len() {
        url.len() as int
    } else if is_stop(url[from], slash) {
        from
    } else {
        first_stop(url, from + 1, slash)
    }
}

/// Where the authority (host and port) of `url` ends: at the first `/`, `?`
/// or `#` behind the scheme, or at the end of the URL.
pub open spec fn authority_end(url: Seq<u8>) -> int {
    first_stop(url, scheme_len(url), true)
}

/// Where the path of `url` ends: at the query, at the fragment, or at the
/// end of the URL.
pub open spec fn path_end(url: Seq<u8>) -> int {
    first_stop(url, authority_end(url), false)
}

/// The path of `url`: what follows the authority, up to the query or the
/// fragment. It is empty for a URL such as `http://example.com`.
pub open spec fn url_path(url: Seq<u8>) -> Seq<u8> {
    url.subrange(authority_end(url), path_end(url))
}

/// `url` is absolute: it has a scheme and after it a host of at least one
/// byte.
pub open spec fn is_absolute(url: Seq<u8>) -> bool {
    scheme_len(url) > 0 && authority_end(url) > scheme_len(url)
}

/// `path` ends in a dot followed by `extension`.
pub open spec fn has_extension(path: Seq<u8>, extension: Seq<u8>) -> bool {
    (seq![0x2eu8] + extension).is_suffix_of(path)
}

/// `first_stop` lies between `from` and the end, no byte before it is a
/// stop, and the byte it points at is one.
pub proof fn lemma_first_stop(url: Seq<u8>, from: int, slash: bool)
    requires
        0 <= from <= url.len(),
    ensures
        from <= first_stop(url, from, slash) <= url.len(),
        forall|k: int|
            from <= k < first_stop(url, from, slash) ==> !is_stop(#[trigger] url[k], slash),
        first_stop(url, from, slash) < url.len() ==> is_stop(
            url[first_stop(url, from, slash)],
            slash,
        ),
    decreases url.len() - from,
{
    if from < url.len() && !is_stop(url[from], slash) {
        lemma_first_stop(url, from + 1, slash);
    }
}

/// The parts of a URL follow each other: scheme, authority, path.
pub proof fn lemma_url_parts(url: Seq<u8>)
    ensures
        0 <= scheme_len(url) <= authority_end(url) <= path_end(url) <= url.len(),
{
    lemma_first_stop(url, scheme_len(url), true);
    lemma_first_stop(url, authority_end(url), false);
}

fn scan_scheme(url: &[u8]) -> (n: usize)
    ensures
        n == scheme_len(url@),
{
    let len = url.len();
    if len >= 7 && url[0] == 0x68 && url[1] == 0x74 && url[2] == 0x74 && url[3] == 0x70 {
        if url[4] == 0x3a && url[5] == 0x2f && url[6] == 0x2f {
            assert(http_scheme() =~= url@.subrange(0, 7));
            return 7;
        }
        if len >= 8 && url[4] == 0x73 && url[5] == 0x3a && url[6] == 0x2f && url[7] == 0x2f {
            assert(https_scheme() =~= url@.subrange(0, 8));
            assert(http_scheme()[4] != url@.subrange(0, 7)[4]);
            return 8;
        }
    }
    proof {
        if http_scheme().is_prefix_of(url@) {
            let p = url@.subrange(0, 7);
            assert(p[0] == 0x68 && p[1] == 0x74 && p[2] == 0x74 && p[3] == 0x70);
            assert(p[4] == 0x3a && p[5] == 0x2f && p[6] == 0x2f);
        }
        if https_scheme().is_prefix_of(url@) {
            let p = url@.subrange(0, 8);
            assert(p[0] == 0x68 && p[1] == 0x74 && p[2] == 0x74 && p[3] == 0x70);
            assert(p[4] == 0x73 && p[5] == 0x3a && p[6] == 0x2f && p[7] == 0x2f);
        }
    }
    0
}

fn scan_to_stop(url: &[u8], from: usize, slash: bool) -> (end: usize)
    requires
        from <= url@.len(),
    ensures
        end == first_stop(url@, from as int, slash),
        from <= end <= url@.len(),
{
    let mut i: usize = from;
    while i < url.len() && !(url[i] == 0x3f || url[i] == 0x23 || (slash && url[i] == 0x2f))
        invariant
            from <= i <= url@.len(),
            first_stop(url@, from as int, slash) == first_stop(url@, i as int, slash),
        decreases url@.len() - i,
    {
        i += 1;
    }
    proof {
        lemma_first_stop(url@, i as int, slash);
    }
    i
}

/// Whether the bytes of `url` between `start` and `end` end in a dot
/// followed by `extension`.
fn ends_in_extension(url: &[u8], start: usize, end: usize, extension: &[u8]) -> (found: bool)
    requires
        start <= end <= url@.len(),
    ensures
        found == has_extension(url@.subrange(start as int, end as int), extension@),
{
    let ghost path = url@.subrange(start as int, end as int);
    let ghost wanted = seq![0x2eu8] + extension@;
    let n = extension.len();
    assert(wanted.len() == n + 1);
    assert(path.len() == end - start);
    if end - start <= n {
        return false;
    }
    let at = end - n - 1;
    if url[at] != 0x2e {
        assert(path.subrange(path.len() - wanted.len(), path.len() as int)[0] == url@[at as int]);
        return false;
    }
    let mut i: usize = 0;
    while i < n
        invariant
            n == extension@.len(),
            start <= at,
            at + 1 + n == end,
            end <= url@.len(),
            i <= n,
            path == url@.subrange(start as int, end as int),
            wanted == seq![0x2eu8] + extension@,
            forall|k: int| 0 <= k < i ==> url@[at + 1 + k] == extension@[k],
        decreases n - i,
    {
        if url[at + 1 + i] != extension[i] {
            assert(path.subrange(path.len() - wanted.len(), path.len() as int)[1 + i]
                == url@[at + 1 + i]);
            assert(wanted[1 + i] == extension@[i as int]);
            return false;
        }
        i += 1;
    }
    assert(wanted =~= path.subrange(path.len() - wanted.len(), path.len() as int));
    true
}

/// Whether `url` is absolute: `http://` or `https://` and then a host.
pub fn is_absolute_url(url: &str) -> (ok: bool)
    ensures
        ok == is_absolute(encode_utf8(url@)),
{
    let bytes = url.as_bytes();
    let scheme = scan_scheme(bytes);
    if scheme == 0 {
        return false;
    }
    proof {
        lemma_url_parts(bytes@);
    }
    let host_end = scan_to_stop(bytes, scheme, true);
    host_end > scheme
}

/// `path` ends in a dot followed by one of `extensions`.
pub open spec fn denied_path(extensions: Seq<Seq<char>>, path: Seq<u8>) -> bool {
    exists|i: int|
        0 <= i < extensions.len() && has_extension(path, encode_utf8(#[trigger] extensions[i]))
}

/// `url` may be crawled: it is absolute and its path does not end in one of
/// the denied `extensions`.
pub open spec fn crawlable(extensions: Seq<Seq<char>>, url: Seq<char>) -> bool {
    let bytes = encode_utf8(url);
    is_absolute(bytes) && !denied_path(extensions, url_path(bytes))
}

/// The extensions that [`LinkFilter::standard`] denies: scripts,
/// stylesheets, images, audio and video.
pub open spec fn standard_extensions() -> Seq<Seq<char>> {
    seq!["js"@, "css"@, "jpg"@, "jpeg"@, "png"@, "svg"@, "mp3"@, "mp4"@]
}

/// The extensions of resources that are no pages.
pub struct LinkFilter {
    denied: Vec<String>,
}

impl LinkFilter {
    /// The denied extensions, each without its dot.
    pub closed spec fn extensions(&self) -> Seq<Seq<char>> {
        self.denied.deep_view()
    }

    /// A filter that denies the given extensions, each written without its
    /// dot.
    pub fn new(extensions: Vec<String>) -> (filter: LinkFilter)
        ensures
            filter.extensions() == extensions.deep_view(),
    {
        LinkFilter { denied: extensions }
    }

    /// A filter that denies `js`, `css`, `jpg`, `jpeg`, `png`, `svg`, `mp3`
    /// and `mp4`.
    pub fn standard() -> (filter: LinkFilter)
        ensures
            filter.extensions() == standard_extensions(),
    {
        let mut denied: Vec<String> = Vec::new();
        denied.push("js".to_owned());
        denied.push("css".to_owned());
        denied.push("jpg".to_owned());
        denied.push("jpeg".to_owned());
        denied.push("png".to_owned());
        denied.push("svg".to_owned());
        denied.push("mp3".to_owned());
        denied.push("mp4".to_owned());
        assert(denied.deep_view() =~= standard_extensions());
        LinkFilter { denied }
    }

    /// Whether the path of `url` ends in a denied extension.
    pub fn denies_url(&self, url: &str) -> (denied: bool)
        ensures
            denied == denied_path(self.extensions(), url_path(encode_utf8(url@))),
    {
        let bytes = url.as_bytes();
        proof {
            lemma_url_parts(bytes@);
        }
        let scheme = scan_scheme(bytes);
        let start = scan_to_stop(bytes, scheme, true);
        let end = scan_to_stop(bytes, start, false);
        let ghost path = url_path(bytes@);
        let mut i: usize = 0;
        while i < self.denied.len()
            invariant
                i <= self.denied.len(),
                start <= end <= bytes@.len(),
                path == bytes@.subrange(start as int, end as int),
                path == url_path(encode_utf8(url@)),
                forall|k: int|
                    0 <= k < i ==> !has_extension(
                        path,
                        encode_utf8(#[trigger] self.extensions()[k]),
                    ),
            decreases self.denied.len() - i,
        {
            let extension = self.denied[i].as_str();
            assert(extension@ == self.extensions()[i as int]);
            if ends_in_extension(bytes, start, end, extension.as_bytes()) {
                return true;
            }
            i += 1;
        }
        false
    }

    /// Whether `url` may be crawled.
    pub fn is_crawlable(&self, url: &str) -> (ok: bool)
        ensures
            ok == crawlable(self.extensions(), url@),
    {
        is_absolute_url(url) && !self.denies_url(url)
    }
}

} // verus!
