//! The content resolver: from the text body of an archived message to the
//! short preview that is stored with its record.
//!
//! Fetching the message and reading its MIME structure are the caller's
//! part: a reader of MIME may give up on a malformed message in ways that
//! cannot be told beforehand, and the caller is where that can be caught.
//! What it found arrives here as a `Content`.

use crate::text::{to_chars, trim, trim_bounds};
use vstd::prelude::*;
use vstd::string::*;

verus! {

/// How many lines a preview is made of at most.
pub const PREVIEW_LINES: usize = 3;

/// Why no preview could be derived for a message.
#[derive(Clone, Copy, Debug, PartialEq, Eq, Structural)]
pub enum ContentResolutionError {
    /// The object store had no readable object for the message.
    ObjectUnavailable,
    /// The object is no message with a text body.
    Unparseable,
}

/// What came of fetching an archived message and reading it.
#[derive(Clone, Debug, PartialEq, Eq)]
pub enum Content {
    /// The object store had no readable object for the message, or did not
    /// answer in time.
    Unavailable,
    /// The object could not be read as a message with a text body.
    Unparseable,
    /// The text body of the message.
    Body(String),
}

/// What came of fetching and reading a message, as a value of the model.
pub enum ContentView {
    Unavailable,
    Unparseable,
    Body(Seq<char>),
}

impl View for Content {
    type V = ContentView;

    open spec fn view(&self) -> ContentView {
        match *self {
            Content::Unavailable => ContentView::Unavailable,
            Content::Unparseable => ContentView::Unparseable,
            Content::Body(text) => ContentView::Body(text@),
        }
    }
}

/// What the content resolver hands on: the preview, empty where none could
/// be derived, and the reason in that case.
#[derive(Clone, Debug, PartialEq, Eq)]
pub struct ResolvedContent {
    pub preview: String,
    pub warning: Option<ContentResolutionError>,
}

/// Whether a line ends at index `i`: a line feed stands there.
pub open spec fn break_at(s: Seq<char>, i: int) -> bool {
    0 <= i < s.len() && s[i] == '\n'
}

/// The index of the first line feed of `s` at or after `from`, or the
/// length of `s` where there is none.
pub open spec fn next_break(s: Seq<char>, from: int) -> int
    decreases s.len() - from,
{
    if from < 0 || from >= s.len() {
        s.len() as int
    } else if break_at(s, from) {
        from
    } else {
        next_break(s, from + 1)
    }
}

/// Where the line ends that starts at `from` and is closed by the line feed
/// at `feed`: before the carriage return that stands in front of the line
/// feed, if one does.
pub open spec fn line_end(s: Seq<char>, from: int, feed: int) -> int {
    if from < feed && s[feed - 1] == '\r' {
        feed - 1
    } else {
        feed
    }
}

/// The lines of `s` from index `from` on. A line ends at a line feed, with
/// or without a carriage return before it; neither belongs to the line. The
/// last line runs to the end of `s`.
pub open spec fn lines_from(s: Seq<char>, from: int) -> Seq<Seq<char>>
    decreases s.len() - from,
{
    let feed = next_break(s, from);
    if from <= feed && feed < s.len() {
        seq![s.subrange(from, line_end(s, from, feed))] + lines_from(s, feed + 1)
    } else {
        seq![s.subrange(from, s.len() as int)]
    }
}

/// The lines of `s`.
pub open spec fn lines(s: Seq<char>) -> Seq<Seq<char>> {
    lines_from(s, 0)
}

/// Trimming, as a function on lines.
pub open spec fn trimmed() -> spec_fn(Seq<char>) -> Seq<char> {
    |line: Seq<char>| trim(line)
}

/// The test that a line holds anything.
pub open spec fn non_empty() -> spec_fn(Seq<char>) -> bool {
    |line: Seq<char>| line.len() > 0
}

/// The lines that count for a preview: each line trimmed, the empty ones
/// dropped.
pub open spec fn kept(ls: Seq<Seq<char>>) -> Seq<Seq<char>> {
    ls.map_values(trimmed()).filter(non_empty())
}

/// The first `n` items of `s`, or all of `s` where it has fewer.
pub open spec fn first_n<A>(s: Seq<A>, n: nat) -> Seq<A> {
    if s.len() <= n {
        s
    } else {
        s.take(n as int)
    }
}

/// The preview of a message body: its first three non-empty trimmed lines,
/// joined without a separator.
pub open spec fn preview_of(body: Seq<char>) -> Seq<char> {
    first_n(kept(lines(body)), PREVIEW_LINES as nat).flatten()
}

proof fn lemma_kept_push(ls: Seq<Seq<char>>, line: Seq<char>)
    ensures
        kept(ls.push(line)) == if trim(line).len() > 0 {
            kept(ls).push(trim(line))
        } else {
            kept(ls)
        },
{
    assert(ls.push(line).map_values(trimmed()) =~= ls.map_values(trimmed()).push(trim(line)));
    ls.map_values(trimmed()).lemma_filter_push(trim(line), non_empty());
}

proof fn lemma_kept_add(a: Seq<Seq<char>>, b: Seq<Seq<char>>)
    ensures
        kept(a + b) == kept(a) + kept(b),
{
    assert((a + b).map_values(trimmed()) =~= a.map_values(trimmed()) + b.map_values(trimmed()));
    Seq::filter_distributes_over_add(
        a.map_values(trimmed()),
        b.map_values(trimmed()),
        non_empty(),
    );
}

/// The index of the first line feed at or after `from`.
fn find_break(chars: &Vec<char>, from: usize) -> (feed: usize)
    requires
        from <= chars.len(),
    ensures
        feed == next_break(chars@, from as int),
        from <= feed <= chars.len(),
{
    let n = chars.len();
    let mut i: usize = from;
    while i < n
        invariant
            n == chars.len(),
            from <= i <= n,
            next_break(chars@, from as int) == next_break(chars@, i as int),
        decreases n - i,
    {
        if chars[i] == '\n' {
            return i;
        }
        i += 1;
    }
    n
}

/// Derives the preview of a message body: splits it into lines at each line
/// feed, with or without a carriage return before it, trims each line, drops
/// the empty ones and joins the first three of the rest.
pub fn derive_preview(body: &str) -> (preview: String)
    ensures
        preview@ == preview_of(body@),
{
    let chars = to_chars(body);
    let n = chars.len();
    let mut preview = String::new();
    let mut start: usize = 0;
    let mut count: usize = 0;
    let mut finished = false;
    let ghost mut done: Seq<Seq<char>> = Seq::empty();
    proof {
        assert(kept(done) =~= Seq::empty()) by {
            reveal(Seq::filter);
        }
        assert(done + lines_from(body@, 0) =~= lines(body@));
    }
    while count < PREVIEW_LINES && !finished
        invariant
            chars@ == body@,
            n == chars.len(),
            start <= n,
            count <= PREVIEW_LINES,
            finished ==> lines(body@) == done,
            !finished ==> lines(body@) == done + lines_from(body@, start as int),
            count == kept(done).len(),
            preview@ == kept(done).flatten(),
        decreases n - start + (if finished { 0int } else { 1int }),
    {
        let feed = find_break(&chars, start);
        let end = if feed < n && start < feed && chars[feed - 1] == '\r' {
            feed - 1
        } else {
            feed
        };
        let (a, b) = trim_bounds(&chars, start, end);
        let ghost line = chars@.subrange(start as int, end as int);
        proof {
            lemma_kept_push(done, line);
            kept(done).lemma_flatten_push(trim(line));
        }
        if a < b {
            preview.append(body.substring_char(a, b));
            count += 1;
        }
        proof {
            if feed < n {
                assert(done.push(line) + lines_from(body@, feed + 1) =~= done + lines_from(
                    body@,
                    start as int,
                ));
            } else {
                assert(done.push(line) =~= done + lines_from(body@, start as int));
            }
            done = done.push(line);
        }
        if feed < n {
            start = feed + 1;
        } else {
            finished = true;
        }
    }
    proof {
        if !finished {
            lemma_kept_add(done, lines_from(body@, start as int));
            assert(first_n(kept(lines(body@)), PREVIEW_LINES as nat) =~= kept(done));
        }
    }
    preview
}

/// What the resolver makes of what was fetched: the preview of the text
/// body, or the empty preview and the reason where there is no body.
pub open spec fn resolution(content: ContentView) -> (Seq<char>, Option<ContentResolutionError>) {
    match content {
        ContentView::Body(text) => (preview_of(text), None),
        ContentView::Unparseable => (Seq::empty(), Some(ContentResolutionError::Unparseable)),
        ContentView::Unavailable => (
            Seq::empty(),
            Some(ContentResolutionError::ObjectUnavailable),
        ),
    }
}

/// The preview of a message from the text body that was read out of it.
/// Fails where none was found.
pub fn get_first_sentence(body: Option<String>) -> (preview: Result<
    String,
    ContentResolutionError,
>)
    ensures
        match preview {
            Ok(text) => body matches Some(b) && text@ == preview_of(b@),
            Err(e) => body is None && e == ContentResolutionError::Unparseable,
        },
{
    match body {
        Some(text) => Ok(derive_preview(text.as_str())),
        None => Err(ContentResolutionError::Unparseable),
    }
}

/// Resolves the preview of a message from what fetching and reading it
/// gave. A missing, unreadable or unparseable object is no failure: the
/// preview is then empty and the reason is reported.
pub fn get_email_first_sentence(content: Content) -> (resolved: ResolvedContent)
    ensures
        (resolved.preview@, resolved.warning) == resolution(content@),
{
    match content {
        Content::Body(text) => ResolvedContent {
            preview: derive_preview(text.as_str()),
            warning: None,
        },
        Content::Unparseable => ResolvedContent {
            preview: String::new(),
            warning: Some(ContentResolutionError::Unparseable),
        },
        Content::Unavailable => ResolvedContent {
            preview: String::new(),
            warning: Some(ContentResolutionError::ObjectUnavailable),
        },
    }
}

} // verus!
