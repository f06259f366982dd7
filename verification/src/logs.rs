//! Finding the container whose logs the log viewer streams, from the output
//! of `docker ps --format "{{.ID}}\t{{.Image}}" --no-trunc`.
use vstd::prelude::*;
use vstd::string::StringExecFns;
use crate::text::{
    chars_of, contains_chars, index_of, index_of_from, lemma_index_of_from, contains_seq, line_ranges, lines_of, range_views, string_of_range,
    trim, trim_bounds,
};

verus! {

/// What `String::from_utf8_lossy` makes of `bytes`.
pub uninterp spec fn utf8_lossy(bytes: Seq<u8>) -> Seq<char>;

/// What `str::to_lowercase` makes of `s`.
pub uninterp spec fn lowercase(s: Seq<char>) -> Seq<char>;

/// `String::from_utf8_lossy`: decodes `bytes` as UTF-8, with U+FFFD in place
/// of each invalid sequence. Claimed: the result is that decoding of `bytes`
/// and nothing else (`utf8_lossy` names it).
#[verifier::external_body]
pub(crate) fn decode_utf8_lossy(bytes: &[u8]) -> (r: String)
    ensures
        r@ == utf8_lossy(bytes@),
{
    String::from_utf8_lossy(bytes).into_owned()
}

/// `str::to_lowercase`: the Unicode lowercase mapping of `s`. Claimed: the
/// result is that mapping of `s` and nothing else (`lowercase` names it).
#[verifier::external_body]
pub(crate) fn to_lowercase(s: &str) -> (r: String)
    ensures
        r@ == lowercase(s@),
{
    s.to_lowercase()
}

/// Whether an image name, already in lowercase, names a vLLM or DeepSeek image.
pub open spec fn is_target_image(lower: Seq<char>) -> bool {
    contains_seq(lower, seq!['v', 'l', 'l', 'm']) || contains_seq(
        lower,
        seq!['d', 'e', 'e', 'p', 's', 'e', 'e', 'k'],
    )
}

/// An image name in lowercase is a target exactly when "vllm" or "deepseek"
/// occurs in it anywhere: at the start, in the middle or at the end.
pub proof fn lemma_target_image_anywhere(x: Seq<char>)
    ensures
        is_target_image(x) <==> (exists|a: Seq<char>, b: Seq<char>| x == a + seq!['v', 'l', 'l', 'm'] + b)
            || (exists|a: Seq<char>, b: Seq<char>| x == a + seq!['d', 'e', 'e', 'p', 's', 'e', 'e', 'k'] + b),
{
    let v = seq!['v', 'l', 'l', 'm'];
    let d = seq!['d', 'e', 'e', 'p', 's', 'e', 'e', 'k'];
    if contains_seq(x, v) {
        let i = choose|i: int| 0 <= i && i + v.len() <= x.len() && #[trigger] x.subrange(i, i + v.len()) == v;
        let a = x.subrange(0, i);
        let b = x.subrange(i + v.len(), x.len() as int);
        assert(x =~= a + v + b);
    }
    if contains_seq(x, d) {
        let i = choose|i: int| 0 <= i && i + d.len() <= x.len() && #[trigger] x.subrange(i, i + d.len()) == d;
        let a = x.subrange(0, i);
        let b = x.subrange(i + d.len(), x.len() as int);
        assert(x =~= a + d + b);
    }
    if exists|a: Seq<char>, b: Seq<char>| x == a + v + b {
        let (a, b) = choose|a: Seq<char>, b: Seq<char>| x == a + v + b;
        assert(x.subrange(a.len() as int, (a.len() + v.len()) as int) =~= v);
    }
    if exists|a: Seq<char>, b: Seq<char>| x == a + d + b {
        let (a, b) = choose|a: Seq<char>, b: Seq<char>| x == a + d + b;
        assert(x.subrange(a.len() as int, (a.len() + d.len()) as int) =~= d);
    }
}

/// "vllm" and "deepseek" anywhere in an image name make it a target.
pub proof fn lemma_target_image_examples(a: Seq<char>, b: Seq<char>)
    ensures
        is_target_image(a + seq!['v', 'l', 'l', 'm'] + b),
        is_target_image(a + seq!['d', 'e', 'e', 'p', 's', 'e', 'e', 'k'] + b),
{
    lemma_target_image_anywhere(a + seq!['v', 'l', 'l', 'm'] + b);
    lemma_target_image_anywhere(a + seq!['d', 'e', 'e', 'p', 's', 'e', 'e', 'k'] + b);
}

/// The short (12-character) container ID that a `docker ps` line names, when
/// the line has an ID and an image separated by a tab and the image, in
/// lowercase, contains "vllm" or "deepseek".
pub open spec fn target_in_line(line: Seq<char>) -> Option<Seq<char>> {
    match index_of(line, '\t') {
        Some(t) => if is_target_image(lowercase(line.subrange(t + 1, line.len() as int))) {
            let id = trim(line.subrange(0, t));
            Some(if id.len() <= 12 { id } else { id.subrange(0, 12) })
        } else {
            None
        },
        None => None,
    }
}

/// The target of the first line, from index `i` on, that has one.
pub open spec fn first_target(lines: Seq<Seq<char>>, i: nat) -> Option<Seq<char>>
    decreases lines.len() - i,
{
    if i >= lines.len() {
        None
    } else if target_in_line(lines[i as int]) is Some {
        target_in_line(lines[i as int])
    } else {
        first_target(lines, i + 1)
    }
}

/// Whether `lower` (an image name in lowercase) contains "vllm" or "deepseek".
pub fn image_is_target(lower: &str) -> (r: bool)
    ensures
        r == is_target_image(lower@),
{
    let cs = chars_of(lower);
    let vllm = vec!['v', 'l', 'l', 'm'];
    let deepseek = vec!['d', 'e', 'e', 'p', 's', 'e', 'e', 'k'];
    assert(vllm@ == seq!['v', 'l', 'l', 'm']);
    assert(deepseek@ == seq!['d', 'e', 'e', 'p', 's', 'e', 'e', 'k']);
    contains_chars(&cs, &vllm) || contains_chars(&cs, &deepseek)
}

/// The index of the first tab in `cs[from..to]`.
fn find_tab(cs: &Vec<char>, from: usize, to: usize) -> (r: Option<usize>)
    requires
        from <= to <= cs.len(),
    ensures
        match index_of(cs@.subrange(from as int, to as int), '\t') {
            Some(t) => r == Some((from + t) as usize),
            None => r is None,
        },
        r matches Some(t) ==> from <= t < to,
{
    let ghost line = cs@.subrange(from as int, to as int);
    proof {
        lemma_index_of_from(line, '\t', 0);
    }
    let mut i: usize = from;
    while i < to
        invariant
            from <= i <= to <= cs.len(),
            line == cs@.subrange(from as int, to as int),
            index_of_from(line, '\t', (i - from) as nat) == index_of(line, '\t'),
        decreases to - i,
    {
        assert(line[i - from] == cs@[i as int]);
        if cs[i] == '\t' {
            return Some(i);
        }
        i = i + 1;
    }
    None
}

/// The container named by the line `cs[from..to]` (see `target_in_line`).
fn target_in_range(cs: &Vec<char>, from: usize, to: usize) -> (r: Option<String>)
    requires
        from <= to <= cs.len(),
    ensures
        match target_in_line(cs@.subrange(from as int, to as int)) {
            Some(id) => r matches Some(s) && s@ == id,
            None => r is None,
        },
{
    let ghost line = cs@.subrange(from as int, to as int);
    match find_tab(cs, from, to) {
        None => None,
        Some(t) => {
            proof {
                lemma_index_of_from(line, '\t', 0);
                let ft = index_of(line, '\t');
                assert(ft is Some);
                let tt = ft->0;
                assert(0 <= tt < line.len());
                assert(tt == t - from);
            }
            let image = string_of_range(cs, t + 1, to);
            let lower = to_lowercase(image.as_str());
            assert(line.subrange(t - from + 1, line.len() as int) == cs@.subrange(t + 1, to as int));
            if image_is_target(lower.as_str()) {
                let (a, b) = trim_bounds(cs, from, t);
                assert(line.subrange(0, t - from) == cs@.subrange(from as int, t as int));
                let end: usize = if b - a <= 12 { b } else { a + 12 };
                let id = string_of_range(cs, a, end);
                assert(cs@.subrange(a as int, end as int) == cs@.subrange(a as int, b as int).subrange(0, end - a));
                Some(id)
            } else {
                None
            }
        },
    }
}

/// The short ID of the first container in `text` (the output of
/// `docker ps --format "{{.ID}}\t{{.Image}}" --no-trunc`) whose image name,
/// in lowercase, contains "vllm" or "deepseek": its ID, trimmed, cut to its
/// first 12 characters. Lines without a tab are skipped.
pub fn find_target_container_in(text: &str) -> (r: Option<String>)
    ensures
        match first_target(lines_of(text@), 0) {
            Some(id) => r matches Some(s) && s@ == id,
            None => r is None,
        },
{
    let cs = chars_of(text);
    let ranges = line_ranges(&cs);
    let ghost lines = range_views(cs@, ranges@);
    let mut i: usize = 0;
    while i < ranges.len()
        invariant
            i <= ranges@.len(),
            lines == range_views(cs@, ranges@),
            lines == lines_of(text@),
            cs@ == text@,
            forall|j: int| 0 <= j < ranges@.len() ==> #[trigger] ranges@[j].0 <= ranges@[j].1 <= cs@.len(),
            first_target(lines, i as nat) == first_target(lines, 0),
        decreases ranges.len() - i,
    {
        let (a, b) = ranges[i];
        assert(lines[i as int] == cs@.subrange(a as int, b as int));
        let found = target_in_range(&cs, a, b);
        if found.is_some() {
            return found;
        }
        i = i + 1;
    }
    None
}

/// The short ID of the first vLLM or DeepSeek container in the raw output of
/// `docker ps` (decoded as UTF-8, invalid bytes replaced): see
/// `find_target_container_in`.
pub fn find_target_container(stdout: &[u8]) -> (r: Option<String>)
    ensures
        match first_target(lines_of(utf8_lossy(stdout@)), 0) {
            Some(id) => r matches Some(s) && s@ == id,
            None => r is None,
        },
{
    let text = decode_utf8_lossy(stdout);
    find_target_container_in(text.as_str())
}

/// The message that relays one line of a container's standard error to a
/// log-viewer client: the line with a `[stderr] ` prefix.
pub fn stderr_line_message(line: &str) -> (r: String)
    ensures
        r@ == "[stderr] "@ + line@,
{
    let mut r = "[stderr] ".to_owned();
    r.append(line);
    r
}

} // verus!
