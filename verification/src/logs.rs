//! Turning the output that Docker streams for a container into log lines.

use vstd::prelude::*;

use crate::text::{byte_len, chars_of, contains_char, push_char, push_str, string_from_range};

verus! {

/// Which stream a chunk of container output came from.
#[derive(Clone, Copy, Debug, PartialEq, Eq, Structural)]
pub enum OutputKind {
    StdOut,
    StdErr,
    StdIn,
    Console,
}

/// One line of container output, ready to send to the browser.
#[derive(Clone, Debug, PartialEq, Eq)]
pub struct LogLine {
    /// The RFC3339 timestamp Docker put in front of the line, when there was one.
    pub ts: Option<String>,
    /// `stderr` or `stdout`.
    pub stream: String,
    pub msg: String,
}

/// The name of the stream a chunk is shown under: standard error is `stderr`,
/// everything else `stdout`.
pub open spec fn stream_label(kind: OutputKind) -> Seq<char> {
    if kind == OutputKind::StdErr {
        seq!['s', 't', 'd', 'e', 'r', 'r']
    } else {
        seq!['s', 't', 'd', 'o', 'u', 't']
    }
}

/// Whether `i` is the position of the first `c` in `s`.
pub open spec fn is_first(s: Seq<char>, c: char, i: int) -> bool {
    0 <= i < s.len() && s[i] == c && forall|j: int| 0 <= j < i ==> s[j] != c
}

/// Whether a leading word is taken for a timestamp: at least 20 bytes and a `T`.
pub open spec fn looks_like_timestamp(ts: Seq<char>) -> bool {
    byte_len(ts) >= 20 && ts.contains('T')
}

/// A line split into its timestamp and message: the text before the first space
/// is the timestamp when it looks like one, and the rest is the message;
/// otherwise the whole line is the message.
pub open spec fn split_ts_spec(line: Seq<char>) -> (Option<Seq<char>>, Seq<char>) {
    if exists|i: int| is_first(line, ' ', i) {
        let i = choose|i: int| is_first(line, ' ', i);
        if looks_like_timestamp(line.take(i)) {
            (Some(line.take(i)), line.skip(i + 1))
        } else {
            (None, line)
        }
    } else {
        (None, line)
    }
}

proof fn lemma_first_unique(s: Seq<char>, c: char, i: int, j: int)
    requires
        is_first(s, c, i),
        is_first(s, c, j),
    ensures
        i == j,
{
    if i < j {
        assert(s[i] != c);
    } else if j < i {
        assert(s[j] != c);
    }
}

/// Nothing of a line is lost: a split-off timestamp, a space and the message
/// make up the line again, and without a timestamp the message is the line.
pub proof fn lemma_split_ts_rejoins(line: Seq<char>)
    ensures
        match split_ts_spec(line) {
            (Some(ts), msg) => ts + seq![' '] + msg == line,
            (None, msg) => msg == line,
        },
{
    if exists|i: int| is_first(line, ' ', i) {
        let i = choose|i: int| is_first(line, ' ', i);
        assert(line.take(i) + seq![' '] + line.skip(i + 1) =~= line);
    }
}

/// Docker prefixes each line with an RFC3339 timestamp when asked to; this
/// separates it from the message.
pub fn split_ts(line: &str) -> (r: (Option<String>, String))
    ensures
        match split_ts_spec(line@).0 {
            Some(ts) => r.0 matches Some(x) && x@ == ts,
            None => r.0 is None,
        },
        r.1@ == split_ts_spec(line@).1,
{
    let cs = chars_of(line);
    let mut i: usize = 0;
    while i < cs.len() && cs[i] != ' '
        invariant
            i <= cs@.len(),
            cs@ == line@,
            forall|j: int| 0 <= j < i ==> cs@[j] != ' ',
        decreases cs@.len() - i,
    {
        i = i + 1;
    }
    let whole = string_from_range(cs.as_slice(), 0, cs.len());
    assert(cs@.subrange(0, cs@.len() as int) =~= line@);
    if i == cs.len() {
        proof {
            if exists|k: int| is_first(line@, ' ', k) {
                let k = choose|k: int| is_first(line@, ' ', k);
                assert(cs@[k] == ' ');
            }
        }
        return (None, whole);
    }
    proof {
        assert(is_first(line@, ' ', i as int));
        let k = choose|k: int| is_first(line@, ' ', k);
        lemma_first_unique(line@, ' ', i as int, k);
    }
    let ts = string_from_range(cs.as_slice(), 0, i);
    assert(cs@.subrange(0, i as int) =~= line@.take(i as int));
    if ts.as_str().len() >= 20 && contains_char(ts.as_str(), 'T') {
        let rest = string_from_range(cs.as_slice(), i + 1, cs.len());
        assert(cs@.subrange(i + 1, cs@.len() as int) =~= line@.skip(i + 1));
        (Some(ts), rest)
    } else {
        (None, whole)
    }
}

// ---------------------------------------------------------------------------
// splitting output into lines

/// Scans text for lines: the non-empty lines completed so far and the line in progress.
pub open spec fn scan_lines(s: Seq<char>) -> (Seq<Seq<char>>, Seq<char>)
    decreases s.len(),
{
    if s.len() == 0 {
        (seq![], seq![])
    } else {
        let (done, cur) = scan_lines(s.drop_last());
        if s.last() == '\n' {
            (if cur.len() > 0 {
                done.push(cur)
            } else {
                done
            }, seq![])
        } else {
            (done, cur.push(s.last()))
        }
    }
}

/// The non-empty lines of a text, split at `\n` (`text.split('\n')` without the empty pieces).
pub open spec fn lines(s: Seq<char>) -> Seq<Seq<char>> {
    let (done, cur) = scan_lines(s);
    if cur.len() > 0 {
        done.push(cur)
    } else {
        done
    }
}

/// Every line is non-empty and holds no line break.
pub proof fn lemma_lines_shape(s: Seq<char>)
    ensures
        forall|i: int|
            0 <= i < scan_lines(s).0.len() ==> (#[trigger] scan_lines(s).0[i]).len() > 0
                && !scan_lines(s).0[i].contains('\n'),
        !scan_lines(s).1.contains('\n'),
        forall|i: int|
            0 <= i < lines(s).len() ==> (#[trigger] lines(s)[i]).len() > 0 && !lines(
                s,
            )[i].contains('\n'),
    decreases s.len(),
{
    if s.len() > 0 {
        lemma_lines_shape(s.drop_last());
        let (done, cur) = scan_lines(s.drop_last());
        if s.last() != '\n' {
            assert forall|k: int| 0 <= k < cur.push(s.last()).len() implies cur.push(
                s.last(),
            )[k] != '\n' by {
                if k < cur.len() {
                    assert(cur[k] != '\n');
                }
            }
        }
    }
}

/// The lines of a list written one after the other.
pub open spec fn joined(ls: Seq<Seq<char>>) -> Seq<char>
    decreases ls.len(),
{
    if ls.len() == 0 {
        seq![]
    } else {
        joined(ls.drop_last()) + ls.last()
    }
}

/// A text with its line breaks taken out.
pub open spec fn without_breaks(s: Seq<char>) -> Seq<char>
    decreases s.len(),
{
    if s.len() == 0 {
        seq![]
    } else if s.last() == '\n' {
        without_breaks(s.drop_last())
    } else {
        without_breaks(s.drop_last()).push(s.last())
    }
}

/// Splitting a text into lines loses nothing but the line breaks: the lines,
/// written one after the other, are the text without its breaks.
pub proof fn lemma_lines_keep_text(s: Seq<char>)
    ensures
        joined(scan_lines(s).0) + scan_lines(s).1 == without_breaks(s),
        joined(lines(s)) == without_breaks(s),
    decreases s.len(),
{
    if s.len() > 0 {
        lemma_lines_keep_text(s.drop_last());
        let (done, cur) = scan_lines(s.drop_last());
        if s.last() == '\n' {
            if cur.len() > 0 {
                assert(done.push(cur).drop_last() =~= done);
            } else {
                assert(cur =~= seq![]);
            }
            assert(joined(scan_lines(s).0) + scan_lines(s).1 =~= without_breaks(s));
        } else {
            assert(joined(done) + cur.push(s.last()) =~= (joined(done) + cur).push(s.last()));
        }
    }
    let (done, cur) = scan_lines(s);
    if cur.len() > 0 {
        assert(done.push(cur).drop_last() =~= done);
    } else {
        assert(joined(done) + cur =~= joined(done));
    }
}

/// Whether a log line is the one made of `line` shown under `stream`.
pub open spec fn is_log_line(l: LogLine, line: Seq<char>, stream: Seq<char>) -> bool {
    &&& l.stream@ == stream
    &&& match split_ts_spec(line).0 {
        Some(ts) => l.ts matches Some(x) && x@ == ts,
        None => l.ts is None,
    }
    &&& l.msg@ == split_ts_spec(line).1
}

/// What `String::from_utf8_lossy` makes of some bytes.
pub uninterp spec fn utf8_lossy(bytes: Seq<u8>) -> Seq<char>;

/// Calls `String::from_utf8_lossy` of std. Claims: the result is `utf8_lossy`,
/// which for valid UTF-8 is the decoded text.
#[verifier::external_body]
fn decode_lossy(bytes: &[u8]) -> (s: String)
    ensures
        s@ == utf8_lossy(bytes@),
        vstd::utf8::valid_utf8(bytes@) ==> s@ == vstd::utf8::decode_utf8(bytes@),
{
    String::from_utf8_lossy(bytes).into_owned()
}

fn stream_name(kind: OutputKind) -> (s: String)
    ensures
        s@ == stream_label(kind),
{
    let cs = match kind {
        OutputKind::StdErr => ['s', 't', 'd', 'e', 'r', 'r'],
        _ => ['s', 't', 'd', 'o', 'u', 't'],
    };
    let mut s = String::new();
    let mut i: usize = 0;
    while i < 6
        invariant
            i <= 6,
            cs@.len() == 6,
            s@ == cs@.take(i as int),
        decreases 6 - i,
    {
        push_char(&mut s, cs[i]);
        assert(cs@.take(i + 1) =~= cs@.take(i as int).push(cs@[i as int]));
        i = i + 1;
    }
    assert(cs@.take(6) =~= stream_label(kind));
    s
}

fn make_line(cur: &Vec<char>, kind: OutputKind) -> (l: LogLine)
    ensures
        is_log_line(l, cur@, stream_label(kind)),
{
    let text = string_from_range(cur.as_slice(), 0, cur.len());
    assert(cur@.subrange(0, cur@.len() as int) =~= cur@);
    let (ts, msg) = split_ts(text.as_str());
    LogLine { ts, stream: stream_name(kind), msg }
}

/// The log lines in a chunk of output from one stream: the bytes are decoded
/// (invalid UTF-8 replaced), split at line breaks, empty lines dropped, and each
/// line split into timestamp and message.
pub fn log_lines(kind: OutputKind, bytes: &[u8]) -> (r: Vec<LogLine>)
    ensures
        vstd::utf8::valid_utf8(bytes@) ==> utf8_lossy(bytes@) == vstd::utf8::decode_utf8(bytes@),
        r@.len() == lines(utf8_lossy(bytes@)).len(),
        forall|i: int|
            0 <= i < r@.len() ==> is_log_line(
                #[trigger] r@[i],
                lines(utf8_lossy(bytes@))[i],
                stream_label(kind),
            ),
{
    let text = decode_lossy(bytes);
    let cs = chars_of(text.as_str());
    let ghost t = cs@;
    let mut out: Vec<LogLine> = Vec::new();
    let mut cur: Vec<char> = Vec::new();
    let mut i: usize = 0;
    while i < cs.len()
        invariant
            i <= cs@.len(),
            cs@ == t,
            t == utf8_lossy(bytes@),
            scan_lines(t.take(i as int)).1 == cur@,
            out@.len() == scan_lines(t.take(i as int)).0.len(),
            forall|k: int|
                0 <= k < out@.len() ==> is_log_line(
                    #[trigger] out@[k],
                    scan_lines(t.take(i as int)).0[k],
                    stream_label(kind),
                ),
        decreases cs@.len() - i,
    {
        let c = cs[i];
        proof {
            assert(t.take(i + 1).drop_last() =~= t.take(i as int));
        }
        if c == '\n' {
            if cur.len() > 0 {
                let l = make_line(&cur, kind);
                out.push(l);
            }
            cur = Vec::new();
        } else {
            cur.push(c);
        }
        i = i + 1;
    }
    assert(t.take(cs@.len() as int) =~= t);
    if cur.len() > 0 {
        let l = make_line(&cur, kind);
        out.push(l);
    }
    out
}

/// The text of a log line as Docker sent it: the timestamp, a space and the
/// message, or the message alone. For a line made by `log_lines` this is the
/// line itself.
pub fn log_line_text(l: &LogLine) -> (t: String)
    ensures
        t@ == match l.ts {
            Some(ts) => ts@ + seq![' '] + l.msg@,
            None => l.msg@,
        },
        forall|line: Seq<char>, stream: Seq<char>|
            #[trigger] is_log_line(*l, line, stream) ==> t@ == line,
{
    let t = match &l.ts {
        Some(ts) => {
            let mut t = ts.clone();
            push_char(&mut t, ' ');
            push_str(&mut t, l.msg.as_str());
            t
        },
        None => l.msg.clone(),
    };
    proof {
        assert forall|line: Seq<char>, stream: Seq<char>|
            #[trigger] is_log_line(*l, line, stream) implies t@ == line by {
            lemma_split_ts_rejoins(line);
        }
    }
    t
}

// ---------------------------------------------------------------------------
// where a log stream starts

/// How many lines of history a fresh log stream starts with.
pub const LOG_TAIL: &'static str = "200";

/// Where a log stream starts: after a given time (unix seconds, on reconnect) or
/// with the last `LOG_TAIL` lines.
#[derive(Clone, Debug, PartialEq, Eq)]
pub enum LogStart {
    Since(i32),
    Tail(&'static str),
}

/// A stream resumes from `since` when the client gives one, else it starts with
/// the tail of the log.
pub fn log_start(since: Option<i32>) -> (s: LogStart)
    ensures
        match since {
            Some(t) => s matches LogStart::Since(x) && x == t,
            None => s matches LogStart::Tail(n) && n@ == LOG_TAIL@,
        },
{
    match since {
        Some(t) => LogStart::Since(t),
        None => LogStart::Tail(LOG_TAIL),
    }
}

/// A line made of a word without spaces, of at least 20 bytes and holding a
/// `T`, then a space and any message (the empty one too), splits into that
/// word as its timestamp and the message; a line without a space is all message.
pub proof fn lemma_split_ts_law(ts: Seq<char>, msg: Seq<char>, plain: Seq<char>)
    ensures
        !ts.contains(' ') && byte_len(ts) >= 20 && ts.contains('T') ==> split_ts_spec(
            ts + seq![' '] + msg,
        ) == (Some(ts), msg),
        !ts.contains(' ') && !(byte_len(ts) >= 20 && ts.contains('T')) ==> split_ts_spec(
            ts + seq![' '] + msg,
        ) == (None::<Seq<char>>, ts + seq![' '] + msg),
        !plain.contains(' ') ==> split_ts_spec(plain) == (None::<Seq<char>>, plain),
{
    let line = ts + seq![' '] + msg;
    if !ts.contains(' ') {
        let i = ts.len() as int;
        assert forall|j: int| 0 <= j < i implies line[j] != ' ' by {
            assert(line[j] == ts[j]);
            if ts[j] == ' ' {
                assert(ts.contains(' '));
            }
        }
        assert(line[i] == ' ');
        assert(is_first(line, ' ', i));
        let k = choose|k: int| is_first(line, ' ', k);
        lemma_first_unique(line, ' ', i, k);
        assert(line.take(i) =~= ts);
        assert(line.skip(i + 1) =~= msg);
    }
    if !plain.contains(' ') {
        if exists|k: int| is_first(plain, ' ', k) {
            let k = choose|k: int| is_first(plain, ' ', k);
            assert(plain.contains(' '));
        }
    }
}

/// Scanning past a line break: what comes before the break is finished as its
/// own lines, and what follows is scanned afresh.
proof fn lemma_scan_after_break(a: Seq<char>, b: Seq<char>)
    ensures
        scan_lines(a + seq!['\n'] + b) == (lines(a) + scan_lines(b).0, scan_lines(b).1),
    decreases b.len(),
{
    let t = a + seq!['\n'] + b;
    if b.len() == 0 {
        assert(t =~= a.push('\n'));
        assert(t.drop_last() =~= a);
        assert(scan_lines(b).0 =~= Seq::<Seq<char>>::empty());
        assert(lines(a) + scan_lines(b).0 =~= lines(a));
    } else {
        lemma_scan_after_break(a, b.drop_last());
        assert(t.drop_last() =~= a + seq!['\n'] + b.drop_last());
        assert(t.last() == b.last());
        let (d, c) = scan_lines(b.drop_last());
        if b.last() == '\n' {
            if c.len() > 0 {
                assert((lines(a) + d).push(c) =~= lines(a) + d.push(c));
            }
        }
    }
}

/// A text with no line break in it, scanned, is one line in progress.
proof fn lemma_scan_unbroken(s: Seq<char>)
    requires
        !s.contains('\n'),
    ensures
        scan_lines(s) == (Seq::<Seq<char>>::empty(), s),
    decreases s.len(),
{
    if s.len() > 0 {
        assert(s.drop_last().contains('\n') ==> s.contains('\n')) by {
            if s.drop_last().contains('\n') {
                let k = choose|k: int| 0 <= k < s.drop_last().len() && s.drop_last()[k] == '\n';
                assert(s[k] == '\n');
            }
        }
        lemma_scan_unbroken(s.drop_last());
        assert(s[s.len() - 1] == s.last());
        assert(s.drop_last().push(s.last()) =~= s);
    }
}

/// Lines break only at line breaks: a text without one is a single line (none
/// when it is empty), and the lines around a break are the lines of the text
/// before it followed by those of the text after it.
pub proof fn lemma_lines_law(a: Seq<char>, b: Seq<char>)
    ensures
        lines(a + seq!['\n'] + b) == lines(a) + lines(b),
        !a.contains('\n') && a.len() > 0 ==> lines(a) == seq![a],
        lines(Seq::<char>::empty()) == Seq::<Seq<char>>::empty(),
{
    lemma_scan_after_break(a, b);
    let (d, c) = scan_lines(b);
    if c.len() > 0 {
        assert((lines(a) + d).push(c) =~= lines(a) + d.push(c));
    }
    if !a.contains('\n') && a.len() > 0 {
        lemma_scan_unbroken(a);
        assert(Seq::<Seq<char>>::empty().push(a) =~= seq![a]);
    }
}

/// Output on standard error is shown as `stderr`; standard output, standard
/// input and console output are all shown as `stdout`.
pub proof fn lemma_stream_label_law(kind: OutputKind)
    ensures
        kind == OutputKind::StdErr ==> stream_label(kind) == seq!['s', 't', 'd', 'e', 'r', 'r'],
        kind != OutputKind::StdErr ==> stream_label(kind) == seq!['s', 't', 'd', 'o', 'u', 't'],
{
}

} // verus!
