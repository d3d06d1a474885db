//! From a matched path to the URL it is linked to.
//!
//! Resolution is textual: nothing here asks whether the path exists.

use vstd::prelude::*;
use vstd::string::*;
use crate::hyperlink::{hyperlink, make_hyperlink};

verus! {

/// True when `text` begins with `~/`, the marker of a home-relative path.
pub open spec fn has_home_marker(text: Seq<char>) -> bool {
    text.len() >= 2 && text[0] == '~' && text[1] == '/'
}

/// `text` with a leading `~` replaced by `home` where `text` begins with `~/`,
/// and `text` itself otherwise.
pub open spec fn home_expanded(text: Seq<char>, home: Seq<char>) -> Seq<char> {
    if has_home_marker(text) {
        home + text.subrange(1, text.len() as int)
    } else {
        text
    }
}

/// True when `path` begins at the root.
pub open spec fn is_rooted(path: Seq<char>) -> bool {
    path.len() >= 1 && path[0] == '/'
}

/// `rel` appended to `base`, with one `/` between them unless `base` is empty
/// or already ends in `/`.
pub open spec fn joined_path(base: Seq<char>, rel: Seq<char>) -> Seq<char> {
    if base.len() == 0 || base.last() == '/' {
        base + rel
    } else {
        base + seq!['/'] + rel
    }
}

/// `path` itself where it is rooted, and `path` below `cwd` otherwise.
pub open spec fn absolute_path(path: Seq<char>, cwd: Seq<char>) -> Seq<char> {
    if is_rooted(path) {
        path
    } else {
        joined_path(cwd, path)
    }
}

/// The scheme token, the host and the path, concatenated without encoding.
pub open spec fn file_url(host: Seq<char>, path: Seq<char>) -> Seq<char> {
    seq!['f', 'i', 'l', 'e', ':', '/', '/'] + host + path
}

/// The URL that a matched text is linked to.
pub open spec fn link_target(
    matched: Seq<char>,
    host: Seq<char>,
    home: Seq<char>,
    cwd: Seq<char>,
) -> Seq<char> {
    file_url(host, absolute_path(home_expanded(matched, home), cwd))
}

/// The envelope that replaces a matched text: the text is shown unchanged and
/// linked to its target.
pub open spec fn linked(
    matched: Seq<char>,
    host: Seq<char>,
    home: Seq<char>,
    cwd: Seq<char>,
) -> Seq<char> {
    hyperlink(link_target(matched, host, home, cwd), matched)
}

/// The host that links name: the reported one, or `localhost` where the
/// lookup gave none.
pub open spec fn host_identity(reported: Option<String>) -> Seq<char> {
    match reported {
        Some(name) => name@,
        None => seq!['l', 'o', 'c', 'a', 'l', 'h', 'o', 's', 't'],
    }
}

/// Falls back to `localhost` where the host name could not be found out.
pub fn host_or_localhost(reported: Option<String>) -> (host: String)
    ensures
        host@ == host_identity(reported),
{
    match reported {
        Some(name) => name,
        None => {
            proof {
                reveal_strlit("localhost");
            }
            let host = String::from_str("localhost");
            assert(host@ =~= seq!['l', 'o', 'c', 'a', 'l', 'h', 'o', 's', 't']);
            host
        },
    }
}

/// Falls back to the empty string where no home directory is set.
pub fn home_or_empty(home: Option<String>) -> (dir: String)
    ensures
        home matches Some(path) ==> dir@ == path@,
        home is None ==> dir@ == Seq::<char>::empty(),
{
    match home {
        Some(path) => path,
        None => String::new(),
    }
}

/// Tells whether `text` begins with `~/`.
pub fn starts_with_home(text: &str) -> (b: bool)
    ensures
        b == has_home_marker(text@),
{
    let n: usize = text.unicode_len();
    n >= 2 && text.get_char(0) == '~' && text.get_char(1) == '/'
}

/// Replaces a leading `~` by the home directory.
pub fn expand_home(text: &str, home: &str) -> (out: String)
    ensures
        out@ == home_expanded(text@, home@),
{
    if starts_with_home(text) {
        let n: usize = text.unicode_len();
        let mut out = String::from_str(home);
        out.append(text.substring_char(1, n));
        out
    } else {
        String::from_str(text)
    }
}

/// Tells whether `path` begins with `/`.
pub fn is_absolute(path: &str) -> (b: bool)
    ensures
        b == is_rooted(path@),
{
    let n: usize = path.unicode_len();
    n >= 1 && path.get_char(0) == '/'
}

/// Resolves `path` against the working directory `cwd`.
pub fn absolutize(path: &str, cwd: &str) -> (out: String)
    ensures
        out@ == absolute_path(path@, cwd@),
{
    if is_absolute(path) {
        String::from_str(path)
    } else {
        let n: usize = cwd.unicode_len();
        let mut out = String::from_str(cwd);
        if n > 0 && cwd.get_char(n - 1) != '/' {
            proof {
                reveal_strlit("/");
            }
            out.append("/");
            assert(out@ =~= cwd@ + seq!['/']);
        }
        out.append(path);
        out
    }
}

/// Builds the `file://` URL of an absolute path on `host`.
pub fn make_file_url(host: &str, path: &str) -> (out: String)
    ensures
        out@ == file_url(host@, path@),
{
    proof {
        reveal_strlit("file://");
    }
    let mut out = String::from_str("file://");
    assert(out@ =~= seq!['f', 'i', 'l', 'e', ':', '/', '/']);
    out.append(host);
    out.append(path);
    out
}

/// Builds the hyperlink envelope that replaces one matched text.
pub fn link_for(matched: &str, host: &str, home: &str, cwd: &str) -> (out: String)
    ensures
        out@ == linked(matched@, host@, home@, cwd@),
{
    let expanded = expand_home(matched, home);
    let path = absolutize(expanded.as_str(), cwd);
    let url = make_file_url(host, path.as_str());
    make_hyperlink(url.as_str(), matched)
}

/// A match that is already rooted is linked to itself: its URL is the scheme
/// token, the host and the match, unchanged.
pub proof fn lemma_rooted_match_is_kept(
    matched: Seq<char>,
    host: Seq<char>,
    home: Seq<char>,
    cwd: Seq<char>,
)
    requires
        is_rooted(matched),
    ensures
        link_target(matched, host, home, cwd) == file_url(host, matched),
{
}

/// A match that is neither rooted nor home-relative is linked below the
/// working directory; where that directory is not empty and does not end in
/// `/`, exactly one `/` stands between the two.
pub proof fn lemma_relative_match_is_joined(
    matched: Seq<char>,
    host: Seq<char>,
    home: Seq<char>,
    cwd: Seq<char>,
)
    requires
        !is_rooted(matched),
        !has_home_marker(matched),
    ensures
        link_target(matched, host, home, cwd) == file_url(host, joined_path(cwd, matched)),
        cwd.len() > 0 && cwd.last() != '/' ==> link_target(matched, host, home, cwd) == file_url(
            host,
            cwd + seq!['/'] + matched,
        ),
{
}

/// A home-relative match under a rooted home directory is linked to the home
/// directory followed by what stood after the `~`.
pub proof fn lemma_home_match_is_expanded(
    matched: Seq<char>,
    host: Seq<char>,
    home: Seq<char>,
    cwd: Seq<char>,
)
    requires
        has_home_marker(matched),
        is_rooted(home),
    ensures
        link_target(matched, host, home, cwd) == file_url(
            host,
            home + matched.subrange(1, matched.len() as int),
        ),
{
}

} // verus!
