//! Finding the paths of a line and rewriting them into hyperlinks.

use vstd::prelude::*;
use vstd::string::*;
use vstd::utf8::*;
use regex::Regex;
use crate::catalog::{build_pattern, pattern_text, texts};
use crate::resolve::{link_for, linked};

verus! {

/// A compiled pattern of the `regex` crate. Its inside is not visible here.
#[verifier::external_type_specification]
#[verifier::external_body]
pub struct ExRegex(Regex);

/// The pattern text that a compiled pattern was made from: what
/// `Regex::as_str` returns for it.
pub uninterp spec fn source_of(re: Regex) -> Seq<char>;

/// Why a pattern text could not be compiled.
#[derive(Debug)]
pub enum PatternError {
    /// The text is not a pattern; the message says where it goes wrong.
    Syntax(String),
    /// The compiled pattern would be larger than the limit given in bytes.
    TooBig(usize),
    /// Another failure.
    Other,
}

/// The reasons for which a pattern text is refused.
pub enum Refusal {
    /// The text is not a pattern.
    Syntax,
    /// The compiled pattern would be larger than the compiler's limit.
    TooBig,
    /// Another failure.
    Other,
}

impl PatternError {
    /// The reason that this error reports.
    pub open spec fn refusal(self) -> Refusal {
        match self {
            PatternError::Syntax(_) => Refusal::Syntax,
            PatternError::TooBig(_) => Refusal::TooBig,
            PatternError::Other => Refusal::Other,
        }
    }
}

/// How `Regex::new` answers a pattern text: `None` where it compiles the
/// text, and otherwise the reason for which it refuses it. The answer depends
/// on the text alone, since `Regex::new` compiles under fixed limits.
pub uninterp spec fn refusal_of(pattern: Seq<char>) -> Option<Refusal>;

/// True when `Regex::new` compiles the pattern text.
pub open spec fn compiles(pattern: Seq<char>) -> bool {
    refusal_of(pattern) is None
}

/// The matches that `Regex::find_iter` yields for a pattern in a haystack, in
/// the order in which it yields them, each as the byte offsets of its start
/// and of its end.
pub uninterp spec fn matches_of(re: Regex, haystack: Seq<char>) -> Seq<(usize, usize)>;

/// The text that stands in `line` from byte offset `from` up to byte offset
/// `to` of its UTF-8 encoding.
pub open spec fn text_between(line: Seq<char>, from: int, to: int) -> Seq<char> {
    decode_utf8(encode_utf8(line).subrange(from, to))
}

/// True when `spans` are places in `line` that can be cut out one after the
/// other: each lies within the line's encoding, begins and ends between two
/// characters, and ends before the next one begins.
pub open spec fn valid_spans(line: Seq<char>, spans: Seq<(usize, usize)>) -> bool {
    let bytes = encode_utf8(line);
    &&& forall|k: int|
        0 <= k < spans.len() ==> {
            &&& (#[trigger] spans[k]).0 <= spans[k].1 <= bytes.len()
            &&& is_char_boundary(bytes, spans[k].0 as int)
            &&& is_char_boundary(bytes, spans[k].1 as int)
        }
    &&& forall|i: int, j: int|
        0 <= i < j < spans.len() ==> (#[trigger] spans[i]).1 <= (#[trigger] spans[j]).0
}

/// Where the text that follows the first `n` spans begins.
pub open spec fn resume_at(spans: Seq<(usize, usize)>, n: int) -> int {
    if n <= 0 {
        0
    } else {
        spans[n - 1].1 as int
    }
}

/// The part of `line` that ends with the `n`-th span, put together again
/// with each of the first `n` spans replaced: the text before each span,
/// unchanged, and in place of the span what `replace` makes of its text.
pub open spec fn spliced_upto(
    line: Seq<char>,
    spans: Seq<(usize, usize)>,
    n: int,
    replace: spec_fn(Seq<char>) -> Seq<char>,
) -> Seq<char>
    decreases n,
{
    if n <= 0 {
        Seq::empty()
    } else {
        spliced_upto(line, spans, n - 1, replace) + text_between(
            line,
            resume_at(spans, n - 1),
            spans[n - 1].0 as int,
        ) + replace(text_between(line, spans[n - 1].0 as int, spans[n - 1].1 as int))
    }
}

/// The line with the text of each of `spans` replaced by what `replace` makes
/// of it, and all other text unchanged.
pub open spec fn spliced(
    line: Seq<char>,
    spans: Seq<(usize, usize)>,
    replace: spec_fn(Seq<char>) -> Seq<char>,
) -> Seq<char> {
    spliced_upto(line, spans, spans.len() as int, replace) + text_between(
        line,
        resume_at(spans, spans.len() as int),
        encode_utf8(line).len() as int,
    )
}

/// The replacement that wraps a matched text in the hyperlink to its target.
pub open spec fn linking(host: Seq<char>, home: Seq<char>, cwd: Seq<char>) -> spec_fn(
    Seq<char>,
) -> Seq<char> {
    |matched: Seq<char>| linked(matched, host, home, cwd)
}

/// The replacement that leaves a matched text as it is: what a terminal shows
/// of its hyperlink.
pub open spec fn showing() -> spec_fn(Seq<char>) -> Seq<char> {
    |matched: Seq<char>| matched
}

/// The line with each of `spans` replaced by its hyperlink and all other text
/// unchanged.
pub open spec fn rewritten(
    line: Seq<char>,
    spans: Seq<(usize, usize)>,
    host: Seq<char>,
    home: Seq<char>,
    cwd: Seq<char>,
) -> Seq<char> {
    spliced(line, spans, linking(host, home, cwd))
}

/// Calls `Regex::find_iter` and collects the offsets of each match. The
/// matches come in order and do not overlap, and every offset lies within the
/// haystack on a character boundary.
#[verifier::external_body]
fn find_all(re: &Regex, line: &str) -> (spans: Vec<(usize, usize)>)
    ensures
        spans@ == matches_of(*re, line@),
        valid_spans(line@, spans@),
{
    re.find_iter(line).map(|m| (m.start(), m.end())).collect()
}

/// Calls `Regex::new`. Whether it compiles the text, and why not, depends on
/// the text alone and is named by `refusal_of`; which texts those are is not
/// claimed. On success the compiled pattern keeps the text it was given as
/// its source; on failure the error is of the variant that `regex::Error` had.
#[verifier::external_body]
fn regex_new(pattern: &str) -> (r: Result<Regex, PatternError>)
    ensures
        r is Ok <==> refusal_of(pattern@) is None,
        r matches Ok(re) ==> source_of(re) == pattern@,
        r matches Err(error) ==> refusal_of(pattern@) == Some(error.refusal()),
{
    match Regex::new(pattern) {
        Ok(re) => Ok(re),
        Err(regex::Error::Syntax(message)) => Err(PatternError::Syntax(message)),
        Err(regex::Error::CompiledTooBig(limit)) => Err(PatternError::TooBig(limit)),
        Err(_) => Err(PatternError::Other),
    }
}

/// A character boundary of a text is also one of each beginning of the text
/// that reaches up to a later boundary.
proof fn lemma_boundary_in_head(bytes: Seq<u8>, from: int, to: int)
    requires
        valid_utf8(bytes),
        0 <= from <= to <= bytes.len(),
        is_char_boundary(bytes, from),
        is_char_boundary(bytes, to),
    ensures
        valid_utf8(bytes.subrange(0, to)),
        is_char_boundary(bytes.subrange(0, to), from),
{
    let head = bytes.subrange(0, to);
    valid_utf8_split(bytes, to);
    if from == 0 {
    } else if from == to {
        is_char_boundary_start_end_of_seq(head);
    } else {
        is_char_boundary_iff_not_is_continuation_byte(bytes, from);
        is_char_boundary_iff_not_is_continuation_byte(head, from);
    }
}

/// A character boundary of a text is also one of each end of the text that
/// begins at an earlier boundary.
proof fn lemma_boundary_in_tail(bytes: Seq<u8>, from: int, at: int)
    requires
        valid_utf8(bytes),
        0 <= from <= at <= bytes.len(),
        is_char_boundary(bytes, from),
        is_char_boundary(bytes, at),
    ensures
        valid_utf8(bytes.subrange(from, bytes.len() as int)),
        is_char_boundary(bytes.subrange(from, bytes.len() as int), at - from),
{
    let tail = bytes.subrange(from, bytes.len() as int);
    valid_utf8_split(bytes, from);
    if at == from {
    } else if at == bytes.len() {
        is_char_boundary_start_end_of_seq(tail);
    } else {
        is_char_boundary_iff_not_is_continuation_byte(bytes, at);
        is_char_boundary_iff_not_is_continuation_byte(tail, at - from);
    }
}

/// Two neighbouring pieces of a line, put together, are the piece that spans
/// both.
pub proof fn lemma_text_between_joins(line: Seq<char>, a: int, b: int, c: int)
    requires
        0 <= a <= b <= c <= encode_utf8(line).len(),
        is_char_boundary(encode_utf8(line), a),
        is_char_boundary(encode_utf8(line), b),
        is_char_boundary(encode_utf8(line), c),
    ensures
        text_between(line, a, c) == text_between(line, a, b) + text_between(line, b, c),
{
    let bytes = encode_utf8(line);
    encode_utf8_valid_utf8(line);
    let tail = bytes.subrange(a, bytes.len() as int);
    lemma_boundary_in_tail(bytes, a, b);
    lemma_boundary_in_tail(bytes, a, c);
    lemma_boundary_in_head(tail, b - a, c - a);
    let mid = tail.subrange(0, c - a);
    decode_utf8_split(mid, b - a);
    assert(mid =~= bytes.subrange(a, c));
    assert(mid.subrange(0, b - a) =~= bytes.subrange(a, b));
    assert(mid.subrange(b - a, mid.len() as int) =~= bytes.subrange(b, c));
}

/// Cuts the text between two byte offsets out of `line`.
fn slice<'a>(line: &'a str, from: usize, to: usize) -> (part: &'a str)
    requires
        from <= to <= encode_utf8(line@).len(),
        is_char_boundary(encode_utf8(line@), from as int),
        is_char_boundary(encode_utf8(line@), to as int),
    ensures
        part@ == text_between(line@, from as int, to as int),
{
    proof {
        encode_utf8_valid_utf8(line@);
        lemma_boundary_in_head(encode_utf8(line@), from as int, to as int);
    }
    let (head, _) = line.split_at(to);
    let (_, part) = head.split_at(from);
    proof {
        assert(part.spec_bytes() =~= encode_utf8(line@).subrange(from as int, to as int));
        encode_utf8_decode_utf8(part@);
    }
    part
}

/// Tells whether `spans` can be cut out of `line` one after the other.
pub fn spans_fit(line: &str, spans: &[(usize, usize)]) -> (fit: bool)
    ensures
        fit == valid_spans(line@, spans@),
{
    let len: usize = line.as_bytes().len();
    let mut last: usize = 0;
    let mut i: usize = 0;
    while i < spans.len()
        invariant
            i <= spans.len(),
            len == encode_utf8(line@).len(),
            last == resume_at(spans@, i as int),
            valid_spans(line@, spans@.subrange(0, i as int)),
        decreases spans.len() - i,
    {
        let (start, end) = spans[i];
        let ghost head = spans@.subrange(0, i as int);
        if last > start || start > end || end > len || !line.is_char_boundary(start)
            || !line.is_char_boundary(end) {
            proof {
                if valid_spans(line@, spans@) {
                    assert(spans@[i as int].0 <= spans@[i as int].1);
                    if i > 0 {
                        assert(spans@[i - 1].1 <= spans@[i as int].0);
                    }
                }
            }
            return false;
        }
        proof {
            let next = spans@.subrange(0, i + 1);
            assert forall|k: int| 0 <= k < next.len() implies {
                &&& (#[trigger] next[k]).0 <= next[k].1 <= encode_utf8(line@).len()
                &&& is_char_boundary(encode_utf8(line@), next[k].0 as int)
                &&& is_char_boundary(encode_utf8(line@), next[k].1 as int)
            } by {
                if k < i {
                    assert(next[k] == head[k]);
                }
            }
            assert forall|a: int, b: int| 0 <= a < b < next.len() implies (#[trigger] next[a]).1 <= (
            #[trigger] next[b]).0 by {
                if b < i {
                    assert(next[a] == head[a] && next[b] == head[b]);
                } else if i > 0 {
                    assert(next[a] == head[a]);
                    assert(head[i - 1] == spans@[i - 1]);
                    if a < i - 1 {
                        assert(head[a].1 <= head[i - 1].0);
                    }
                    assert(head[i - 1].0 <= head[i - 1].1);
                }
            }
        }
        last = end;
        i += 1;
    }
    assert(spans@.subrange(0, i as int) =~= spans@);
    true
}

/// Replaces each of `spans` in `line` by its hyperlink and copies the rest.
pub fn rewrite_spans(
    line: &str,
    spans: &[(usize, usize)],
    host: &str,
    home: &str,
    cwd: &str,
) -> (out: String)
    requires
        valid_spans(line@, spans@),
    ensures
        out@ == rewritten(line@, spans@, host@, home@, cwd@),
{
    let mut out = String::new();
    let mut last: usize = 0;
    let mut i: usize = 0;
    proof {
        encode_utf8_valid_utf8(line@);
        is_char_boundary_start_end_of_seq(encode_utf8(line@));
    }
    while i < spans.len()
        invariant
            i <= spans.len(),
            valid_spans(line@, spans@),
            last == resume_at(spans@, i as int),
            last <= encode_utf8(line@).len(),
            is_char_boundary(encode_utf8(line@), last as int),
            is_char_boundary(encode_utf8(line@), encode_utf8(line@).len() as int),
            out@ == spliced_upto(line@, spans@, i as int, linking(host@, home@, cwd@)),
        decreases spans.len() - i,
    {
        let (start, end) = spans[i];
        assert(last <= start) by {
            if i > 0 {
                assert(spans@[i - 1].1 <= spans@[i as int].0);
            }
        }
        let before = slice(line, last, start);
        let matched = slice(line, start, end);
        let link = link_for(matched, host, home, cwd);
        out.append(before);
        out.append(link.as_str());
        last = end;
        i += 1;
    }
    let rest = slice(line, last, line.as_bytes().len());
    out.append(rest);
    out
}

/// Compiles the pattern of a prefix catalog. It succeeds exactly where the
/// pattern compiler accepts the text that `build_pattern` gives for the
/// catalog; the compiled pattern was then made from exactly that text.
/// Otherwise the error tells the compiler's reason.
pub fn compile(prefixes: &[String]) -> (r: Result<Regex, PatternError>)
    ensures
        r is Ok <==> compiles(pattern_text(texts(prefixes@))),
        r matches Ok(re) ==> source_of(re) == pattern_text(texts(prefixes@)),
        r matches Err(error) ==> refusal_of(pattern_text(texts(prefixes@))) == Some(
            error.refusal(),
        ),
{
    let pattern = build_pattern(prefixes);
    regex_new(pattern.as_str())
}

/// Finds the paths of `line`: the matches of `re`, in order, none of them
/// overlapping another.
pub fn find_paths(line: &str, re: &Regex) -> (spans: Vec<(usize, usize)>)
    ensures
        spans@ == matches_of(*re, line@),
        valid_spans(line@, spans@),
{
    find_all(re, line)
}

/// Rewrites every path of `line` into a hyperlink and leaves all other text
/// as it is.
pub fn process_line(line: &str, re: &Regex, hostname: &str, home: &str, cwd: &str) -> (out: String)
    ensures
        out@ == rewritten(line@, matches_of(*re, line@), hostname@, home@, cwd@),
        valid_spans(line@, matches_of(*re, line@)),
        matches_of(*re, line@).len() == 0 ==> out@ == line@,
{
    let spans = find_paths(line, re);
    proof {
        if spans@.len() == 0 {
            lemma_no_span_unchanged(line@, spans@, hostname@, home@, cwd@);
        }
    }
    rewrite_spans(line, spans.as_slice(), hostname, home, cwd)
}

/// A line in which nothing is to be replaced comes out as it went in.
pub proof fn lemma_no_span_unchanged(
    line: Seq<char>,
    spans: Seq<(usize, usize)>,
    host: Seq<char>,
    home: Seq<char>,
    cwd: Seq<char>,
)
    requires
        spans.len() == 0,
    ensures
        rewritten(line, spans, host, home, cwd) == line,
{
    let bytes = encode_utf8(line);
    assert(bytes.subrange(0, bytes.len() as int) =~= bytes);
    encode_utf8_decode_utf8(line);
}

/// The pieces that the first `n` spans cut a line into make up the line as far
/// as the last of them reaches.
proof fn lemma_pieces_upto(line: Seq<char>, spans: Seq<(usize, usize)>, n: int)
    requires
        valid_spans(line, spans),
        0 <= n <= spans.len(),
    ensures
        spliced_upto(line, spans, n, showing()) == text_between(line, 0, resume_at(spans, n)),
        0 <= resume_at(spans, n) <= encode_utf8(line).len(),
        is_char_boundary(encode_utf8(line), resume_at(spans, n)),
    decreases n,
{
    let bytes = encode_utf8(line);
    encode_utf8_valid_utf8(line);
    if n == 0 {
        assert(bytes.subrange(0, 0) =~= Seq::<u8>::empty());
    } else {
        lemma_pieces_upto(line, spans, n - 1);
        let from = resume_at(spans, n - 1);
        let start = spans[n - 1].0 as int;
        let end = spans[n - 1].1 as int;
        assert(from <= start) by {
            if n > 1 {
                assert(spans[n - 2].1 <= spans[n - 1].0);
            }
        }
        lemma_text_between_joins(line, 0, from, start);
        lemma_text_between_joins(line, 0, start, end);
    }
}

/// Rewriting changes nothing but the spans: with each span replaced by its
/// own text, the line is put together again as it was. So what a terminal
/// shows of the rewritten line is the line.
pub proof fn lemma_shown_text_is_line(line: Seq<char>, spans: Seq<(usize, usize)>)
    requires
        valid_spans(line, spans),
    ensures
        spliced(line, spans, showing()) == line,
{
    let bytes = encode_utf8(line);
    let n = spans.len() as int;
    encode_utf8_valid_utf8(line);
    is_char_boundary_start_end_of_seq(bytes);
    lemma_pieces_upto(line, spans, n);
    lemma_text_between_joins(line, 0, resume_at(spans, n), bytes.len() as int);
    assert(bytes.subrange(0, bytes.len() as int) =~= bytes);
    encode_utf8_decode_utf8(line);
}

/// In a line of ASCII characters every offset is a character boundary, and
/// the text between two offsets is the subrange of the line between them.
pub proof fn lemma_ascii_text_between(line: Seq<char>, from: int, to: int)
    requires
        is_ascii_chars(line),
        0 <= from <= to <= line.len(),
    ensures
        encode_utf8(line).len() == line.len(),
        is_char_boundary(encode_utf8(line), from),
        is_char_boundary(encode_utf8(line), to),
        text_between(line, from, to) == line.subrange(from, to),
{
    let bytes = encode_utf8(line);
    let part = line.subrange(from, to);
    encode_utf8_valid_utf8(line);
    is_ascii_chars_encode_utf8(line);
    is_ascii_chars_encode_utf8(part);
    assert(encode_utf8(part) =~= bytes.subrange(from, to));
    encode_utf8_decode_utf8(part);
    is_char_boundary_start_end_of_seq(bytes);
    if 0 < from < bytes.len() {
        lemma_ascii_byte_is_boundary(line, from);
    }
    if 0 < to < bytes.len() {
        lemma_ascii_byte_is_boundary(line, to);
    }
}

/// The byte of an ASCII character begins a character.
proof fn lemma_ascii_byte_is_boundary(line: Seq<char>, at: int)
    requires
        is_ascii_chars(line),
        0 <= at < line.len(),
    ensures
        is_char_boundary(encode_utf8(line), at),
{
    let bytes = encode_utf8(line);
    encode_utf8_valid_utf8(line);
    is_ascii_chars_encode_utf8(line);
    is_char_boundary_iff_not_is_continuation_byte(bytes, at);
    let b = bytes[at];
    assert(b == line[at] as u8);
    assert(b < 128);
    assert(!is_continuation_byte(b)) by (bit_vector)
        requires
            b < 128,
    ;
}

/// No two of a line's spans share a position: a byte offset that lies inside
/// one span lies inside no other.
pub proof fn lemma_spans_share_no_position(
    line: Seq<char>,
    spans: Seq<(usize, usize)>,
    i: int,
    j: int,
    at: int,
)
    requires
        valid_spans(line, spans),
        0 <= i < spans.len(),
        0 <= j < spans.len(),
        i != j,
        spans[i].0 <= at < spans[i].1,
    ensures
        !(spans[j].0 <= at < spans[j].1),
{
    if i < j {
        assert(spans[i].1 <= spans[j].0);
    } else {
        assert(spans[j].1 <= spans[i].0);
    }
}

} // verus!
