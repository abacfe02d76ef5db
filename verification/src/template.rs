//! Templates: a text file whose first line names the output path and whose
//! remaining lines, after any immediately following blank lines, form the
//! body.  Rendering replaces every `{{key}}` placeholder in the body with
//! the key's value from the template's string map; the keys that resolve to
//! nothing are collected and reported together.

use crate::path::{FsPath, PathModel};
use crate::strmap::{map_get, seq_first_map};
use vstd::prelude::*;

verus! {

/// The error type for interacting with templates.
#[derive(Debug)]
pub enum Error {
    /// The template source is empty: there is no header line to read an
    /// output path from.
    EmptyTemplateError(FsPath),
    /// A `{{` in the body is never closed by `}}`; `at` is the character
    /// position of its opening brace.
    UnclosedPlaceholder { path: FsPath, at: usize },
    /// Placeholder keys that the value map does not bind, every one of
    /// them, in order of occurrence.
    MissingKeys { path: FsPath, keys: Vec<String> },
}

/// Mathematical model of a template.
pub struct TemplateModel {
    pub output: Seq<char>,
    pub content: Seq<char>,
    pub map: Seq<(Seq<char>, Seq<char>)>,
    pub path: PathModel,
}

/// The container for raw template file data: the declared output path, the
/// body, the value map to render with, and the file the template came from.
pub struct Template {
    output: String,
    content: String,
    map: Vec<(String, String)>,
    path: FsPath,
}

impl View for Template {
    type V = TemplateModel;

    closed spec fn view(&self) -> TemplateModel {
        TemplateModel {
            output: self.output@,
            content: self.content@,
            map: self.map.deep_view(),
            path: self.path@,
        }
    }
}

/// The position of the first newline in `s`, or `s.len()` if there is none.
pub open spec fn spec_find_nl(s: Seq<char>) -> int
    decreases s.len(),
{
    if s.len() == 0 {
        0
    } else if s[0] == '\n' {
        0
    } else {
        1 + spec_find_nl(s.drop_first())
    }
}

/// A line with one trailing carriage return removed.
pub open spec fn spec_strip_cr(l: Seq<char>) -> Seq<char> {
    if l.len() > 0 && l.last() == '\r' {
        l.drop_last()
    } else {
        l
    }
}

/// The lines of `s`: split at every newline, each line stripped of one
/// trailing carriage return, with no empty line after a trailing newline.
pub open spec fn spec_lines(s: Seq<char>) -> Seq<Seq<char>>
    decreases s.len(),
    via spec_lines_dec
{
    if s.len() == 0 {
        Seq::empty()
    } else {
        let i = spec_find_nl(s);
        let line = spec_strip_cr(s.take(i));
        if i == s.len() {
            seq![line]
        } else {
            seq![line] + spec_lines(s.skip(i + 1))
        }
    }
}

#[via_fn]
proof fn spec_lines_dec(s: Seq<char>) {
    if s.len() != 0 {
        lemma_find_nl_range(s);
    }
}

/// The first newline is found at a position between zero and the length.
proof fn lemma_find_nl_range(s: Seq<char>)
    ensures
        0 <= spec_find_nl(s) <= s.len(),
    decreases s.len(),
{
    if s.len() > 0 && s[0] != '\n' {
        lemma_find_nl_range(s.drop_first());
    }
}

/// Whether the character counts as blank space in a line.
pub open spec fn spec_is_blank_char(c: char) -> bool {
    c == ' ' || c == '\t' || c == '\r'
}

/// Whether the line holds nothing but blank space.
pub open spec fn spec_is_blank(l: Seq<char>) -> bool {
    forall|i: int| 0 <= i < l.len() ==> spec_is_blank_char(l[i])
}

/// The lines with leading blank lines removed.
pub open spec fn spec_drop_blanks(lines: Seq<Seq<char>>) -> Seq<Seq<char>>
    decreases lines.len(),
{
    if lines.len() > 0 && spec_is_blank(lines[0]) {
        spec_drop_blanks(lines.drop_first())
    } else {
        lines
    }
}

/// The lines joined back together with newlines between them.
pub open spec fn spec_join(lines: Seq<Seq<char>>) -> Seq<char>
    decreases lines.len(),
{
    if lines.len() == 0 {
        Seq::empty()
    } else if lines.len() == 1 {
        lines[0]
    } else {
        lines[0] + seq!['\n'] + spec_join(lines.drop_first())
    }
}

/// The body of a template source: every line after the header and the
/// blank lines immediately following it, rejoined with newlines.
pub open spec fn spec_body(s: Seq<char>) -> Seq<char> {
    spec_join(spec_drop_blanks(spec_lines(s).drop_first()))
}

/// If no newline stands before position `k` and one stands at `k`, then
/// `k` is where the first newline is found.
proof fn lemma_find_nl_at(s: Seq<char>, k: int)
    requires
        0 <= k < s.len(),
        s[k] == '\n',
        forall|j: int| 0 <= j < k ==> s[j] != '\n',
    ensures
        spec_find_nl(s) == k,
    decreases s.len(),
{
    if k > 0 {
        assert forall|j: int| 0 <= j < k - 1 implies s.drop_first()[j] != '\n' by {
            assert(s.drop_first()[j] == s[j + 1]);
        }
        assert(s.drop_first()[k - 1] == '\n');
        lemma_find_nl_at(s.drop_first(), k - 1);
    }
}

/// If `s` holds no newline at all, the first newline is found at `s.len()`.
proof fn lemma_find_nl_none(s: Seq<char>)
    requires
        forall|j: int| 0 <= j < s.len() ==> s[j] != '\n',
    ensures
        spec_find_nl(s) == s.len(),
    decreases s.len(),
{
    if s.len() > 0 {
        assert forall|j: int| 0 <= j < s.drop_first().len() implies s.drop_first()[j] != '\n' by {
            assert(s.drop_first()[j] == s[j + 1]);
        }
        lemma_find_nl_none(s.drop_first());
    }
}

/// Reads one line out of `s` starting at `start`: the line's text (with a
/// trailing carriage return stripped) and the position after its newline,
/// or after the end if there is none.
fn take_line(s: &str, start: usize, n: usize) -> (r: (String, usize))
    requires
        n == s@.len(),
        start < n,
    ensures
        ({
            let tail = s@.skip(start as int);
            let i = spec_find_nl(tail);
            &&& r.0@ == spec_strip_cr(tail.take(i))
            &&& if i == tail.len() {
                r.1 == n
            } else {
                r.1 == start + i + 1
            }
            &&& start < r.1 <= n
        }),
{
    let ghost tail = s@.skip(start as int);
    let mut i: usize = start;
    while i < n
        invariant
            start <= i <= n,
            n == s@.len(),
            tail == s@.skip(start as int),
            forall|j: int| 0 <= j < i - start ==> tail[j] != '\n',
        decreases n - i,
    {
        if s.get_char(i) == '\n' {
            proof {
                assert(tail[i - start] == s@[i as int]);
                lemma_find_nl_at(tail, i - start);
            }
            let line = strip_cr_sub(s, start, i);
            proof {
                assert(s@.subrange(start as int, i as int) =~= tail.take(i - start));
            }
            return (line, i + 1);
        }
        proof {
            assert(tail[i - start] == s@[i as int]);
        }
        i = i + 1;
    }
    proof {
        lemma_find_nl_none(tail);
        assert(s@.subrange(start as int, n as int) =~= tail.take(tail.len() as int));
        assert(tail.take(tail.len() as int) =~= tail);
    }
    let line = strip_cr_sub(s, start, n);
    (line, n)
}

/// The characters of `s` from `start` to `end`, with one trailing carriage
/// return stripped.
fn strip_cr_sub(s: &str, start: usize, end: usize) -> (r: String)
    requires
        start <= end <= s@.len(),
    ensures
        r@ == spec_strip_cr(s@.subrange(start as int, end as int)),
{
    if end > start && s.get_char(end - 1) == '\r' {
        proof {
            assert(s@.subrange(start as int, end as int).last() == s@[end - 1]);
            assert(s@.subrange(start as int, end as int).drop_last() =~= s@.subrange(
                start as int,
                end - 1,
            ));
        }
        s.substring_char(start, end - 1).to_owned()
    } else {
        proof {
            if end > start {
                assert(s@.subrange(start as int, end as int).last() == s@[end - 1]);
            }
        }
        s.substring_char(start, end).to_owned()
    }
}

/// Splits template source text into its lines.
fn split_lines(s: &str) -> (r: Vec<String>)
    ensures
        r.deep_view() == spec_lines(s@),
{
    let n = s.unicode_len();
    let mut lines: Vec<String> = Vec::new();
    let mut pos: usize = 0;
    proof {
        assert(s@.skip(0) =~= s@);
    }
    while pos < n
        invariant
            pos <= n,
            n == s@.len(),
            lines.deep_view() + spec_lines(s@.skip(pos as int)) == spec_lines(s@),
        decreases n - pos,
    {
        let ghost tail = s@.skip(pos as int);
        let ghost before = lines.deep_view();
        let (line, next) = take_line(s, pos, n);
        let ghost i = spec_find_nl(tail);
        lines.push(line);
        pos = next;
        proof {
            assert(lines.deep_view() =~~= before + seq![spec_strip_cr(tail.take(i))]);
            if i == tail.len() {
                assert(next == n);
                assert(s@.skip(n as int).len() == 0);
                assert(spec_lines(s@.skip(next as int)) =~= Seq::<Seq<char>>::empty());
                assert(spec_lines(tail) =~= seq![spec_strip_cr(tail.take(i))] + spec_lines(
                    s@.skip(next as int),
                ));
            } else {
                assert(tail.skip(i + 1) =~= s@.skip(next as int));
                assert(spec_lines(tail) =~= seq![spec_strip_cr(tail.take(i))] + spec_lines(
                    s@.skip(next as int),
                ));
            }
            assert(lines.deep_view() + spec_lines(s@.skip(pos as int)) =~~= spec_lines(s@));
        }
    }
    proof {
        assert(s@.skip(n as int).len() == 0);
        assert(spec_lines(s@.skip(pos as int)) =~= Seq::<Seq<char>>::empty());
        assert(lines.deep_view() =~~= spec_lines(s@));
    }
    lines
}

/// Whether the line holds nothing but spaces, tabs and carriage returns.
fn is_blank_line(l: &str) -> (r: bool)
    ensures
        r == spec_is_blank(l@),
{
    let n = l.unicode_len();
    let mut i: usize = 0;
    while i < n
        invariant
            i <= n,
            n == l@.len(),
            forall|j: int| 0 <= j < i ==> spec_is_blank_char(l@[j]),
        decreases n - i,
    {
        let c = l.get_char(i);
        if !(c == ' ' || c == '\t' || c == '\r') {
            return false;
        }
        i = i + 1;
    }
    true
}

/// Joining one more line appends a newline and the line, except onto
/// nothing.
proof fn lemma_join_push(lines: Seq<Seq<char>>, l: Seq<char>)
    ensures
        spec_join(lines.push(l)) == if lines.len() == 0 {
            l
        } else {
            spec_join(lines) + seq!['\n'] + l
        },
    decreases lines.len(),
{
    let lp = lines.push(l);
    if lines.len() == 0 {
        assert(spec_join(lp) == lp[0]);
        assert(lp[0] == l);
    } else {
        assert(lp.drop_first() =~= lines.drop_first().push(l));
        lemma_join_push(lines.drop_first(), l);
        if lines.len() == 1 {
            assert(lines.drop_first().len() == 0);
            assert(spec_join(lp) =~= spec_join(lines) + seq!['\n'] + l);
        } else {
            assert(spec_join(lp) =~= spec_join(lines) + seq!['\n'] + l);
        }
    }
}

/// Joins lines `from..` of `lines` with newlines between them.
fn join_lines(lines: &Vec<String>, from: usize) -> (r: String)
    requires
        from <= lines@.len(),
    ensures
        r@ == spec_join(lines.deep_view().skip(from as int)),
{
    let ghost lv = lines.deep_view();
    let mut out = String::new();
    let mut i: usize = from;
    while i < lines.len()
        invariant
            from <= i <= lines@.len(),
            lv == lines.deep_view(),
            lv.len() == lines@.len(),
            out@ == spec_join(lv.subrange(from as int, i as int)),
        decreases lines@.len() - i,
    {
        let ghost sofar = lv.subrange(from as int, i as int);
        if i > from {
            out.append("\n");
        }
        out.append(lines[i].as_str());
        proof {
            reveal_strlit("\n");
            assert("\n"@ =~= seq!['\n']);
            assert(lv[i as int] == lines@[i as int]@);
            lemma_join_push(sofar, lv[i as int]);
            assert(lv.subrange(from as int, i + 1 as int) =~= sofar.push(lv[i as int]));
            assert(out@ =~= spec_join(lv.subrange(from as int, i + 1 as int)));
        }
        i = i + 1;
    }
    proof {
        assert(lv.subrange(from as int, lv.len() as int) =~= lv.skip(from as int));
    }
    out
}

/// Skipping one blank line at `i` keeps the blank-dropped tail the same.
proof fn lemma_drop_blanks_step(lines: Seq<Seq<char>>, i: int)
    requires
        0 <= i < lines.len(),
        spec_is_blank(lines[i]),
    ensures
        spec_drop_blanks(lines.skip(i)) == spec_drop_blanks(lines.skip(i + 1)),
{
    assert(lines.skip(i)[0] == lines[i]);
    assert(lines.skip(i).drop_first() =~= lines.skip(i + 1));
}

impl Template {
    /// Creates a `Template` from the text of the template file at `path`
    /// and the string map it will be rendered with.  The first line of the
    /// text is the declared output path; blank lines immediately after it
    /// are skipped; the remaining lines, joined with newlines, are the
    /// body.  Empty text is an error: there is no header line to read.
    pub fn new(path: FsPath, source: &str, map: Vec<(String, String)>) -> (r: Result<
        Template,
        Error,
    >)
        ensures
            match r {
                Ok(t) => source@.len() > 0 && t@ == (TemplateModel {
                    output: spec_lines(source@)[0],
                    content: spec_body(source@),
                    map: map.deep_view(),
                    path: path@,
                }),
                Err(e) => source@.len() == 0 && (e matches Error::EmptyTemplateError(p) && p@
                    == path@),
            },
    {
        let lines = split_lines(source);
        let ghost lv = spec_lines(source@);
        proof {
            assert(lines.deep_view().len() == lines@.len());
            if source@.len() == 0 {
                assert(spec_lines(source@).len() == 0);
            } else {
                assert(lv.len() > 0);
            }
        }
        if lines.len() == 0 {
            return Err(Error::EmptyTemplateError(path));
        }
        let output = lines[0].clone();
        let mut idx: usize = 1;
        while idx < lines.len() && is_blank_line(lines[idx].as_str())
            invariant
                1 <= idx <= lines@.len(),
                lv == lines.deep_view(),
                lv.len() == lines@.len(),
                spec_drop_blanks(lv.skip(1)) == spec_drop_blanks(lv.skip(idx as int)),
            decreases lines@.len() - idx,
        {
            proof {
                assert(lv[idx as int] == lines@[idx as int]@);
                lemma_drop_blanks_step(lv, idx as int);
            }
            idx = idx + 1;
        }
        proof {
            if idx < lines@.len() {
                assert(lv.skip(idx as int)[0] == lv[idx as int]);
                assert(spec_drop_blanks(lv.skip(idx as int)) =~~= lv.skip(idx as int));
            } else {
                assert(lv.skip(idx as int).len() == 0);
                assert(spec_drop_blanks(lv.skip(idx as int)) =~~= lv.skip(idx as int));
            }
            assert(lv.skip(1) =~~= lv.drop_first());
        }
        let content = join_lines(&lines, idx);
        Ok(Template { output, content, map, path })
    }

    /// The declared output path: the template's first line.
    pub fn output(&self) -> (r: &String)
        ensures
            r@ == self@.output,
    {
        &self.output
    }

    /// The body text.
    pub fn content(&self) -> (r: &String)
        ensures
            r@ == self@.content,
    {
        &self.content
    }

    /// The path of the template file itself.
    pub fn path(&self) -> (r: &FsPath)
        ensures
            r@ == self@.path,
    {
        &self.path
    }
}

/// What rendering a body yields: the rendered text, the placeholder keys
/// the map does not bind (in order of occurrence), and whether an opening
/// `{{` was never closed.  The text is only meaningful when nothing is
/// missing and nothing is unclosed.
#[verifier::ext_equal]
pub struct RenderOut {
    pub text: Seq<char>,
    pub missing: Seq<Seq<char>>,
    pub unclosed: bool,
}

/// The position of the first `}}` in `s`, or `-1` if there is none.
pub open spec fn spec_find_close(s: Seq<char>) -> int
    decreases s.len(),
{
    if s.len() < 2 {
        -1
    } else if s[0] == '}' && s[1] == '}' {
        0
    } else {
        let r = spec_find_close(s.drop_first());
        if r < 0 {
            -1
        } else {
            r + 1
        }
    }
}

/// The first `}}` is found within the text when it is found at all.
proof fn lemma_find_close_range(s: Seq<char>)
    ensures
        -1 <= spec_find_close(s),
        spec_find_close(s) >= 0 ==> spec_find_close(s) + 2 <= s.len(),
    decreases s.len(),
{
    if s.len() >= 2 && !(s[0] == '}' && s[1] == '}') {
        lemma_find_close_range(s.drop_first());
    }
}

/// If no `}}` stands before position `k` and one stands at `k`, the first
/// `}}` is found at `k`.
proof fn lemma_find_close_at(s: Seq<char>, k: int)
    requires
        0 <= k,
        k + 2 <= s.len(),
        s[k] == '}' && s[k + 1] == '}',
        forall|j: int| 0 <= j < k ==> !(#[trigger] s[j] == '}' && s[j + 1] == '}'),
    ensures
        spec_find_close(s) == k,
    decreases s.len(),
{
    if k > 0 {
        assert(!(s[0] == '}' && s[1] == '}'));
        assert(s.drop_first()[k - 1] == '}' && s.drop_first()[k] == '}');
        assert forall|j: int| 0 <= j < k - 1 implies !(#[trigger] s.drop_first()[j] == '}'
            && s.drop_first()[j + 1] == '}') by {
            assert(s.drop_first()[j] == s[j + 1] && s.drop_first()[j + 1] == s[j + 2]);
        }
        lemma_find_close_at(s.drop_first(), k - 1);
    }
}

/// If no position holds `}}`, none is found.
proof fn lemma_find_close_none(s: Seq<char>)
    requires
        forall|j: int| 0 <= j && j + 2 <= s.len() ==> !(#[trigger] s[j] == '}' && s[j + 1] == '}'),
    ensures
        spec_find_close(s) == -1,
    decreases s.len(),
{
    if s.len() >= 2 {
        assert(!(s[0] == '}' && s[1] == '}'));
        assert forall|j: int| 0 <= j && j + 2 <= s.drop_first().len() implies !(
        #[trigger] s.drop_first()[j] == '}' && s.drop_first()[j + 1] == '}') by {
            assert(s.drop_first()[j] == s[j + 1] && s.drop_first()[j + 1] == s[j + 2]);
        }
        lemma_find_close_none(s.drop_first());
    }
}

/// Rendering `s` against map `m`: text up to the first `{{` is copied; the
/// key up to the matching `}}` is replaced by its value from `m`, or
/// recorded as missing; an unmatched `{{` marks the whole rendering
/// unclosed.
pub open spec fn spec_render(s: Seq<char>, m: Map<Seq<char>, Seq<char>>) -> RenderOut
    decreases s.len(),
    via spec_render_dec
{
    if s.len() == 0 {
        RenderOut { text: Seq::empty(), missing: Seq::empty(), unclosed: false }
    } else if s.len() >= 2 && s[0] == '{' && s[1] == '{' {
        let c = spec_find_close(s.skip(2));
        if c < 0 {
            RenderOut { text: Seq::empty(), missing: Seq::empty(), unclosed: true }
        } else {
            let key = s.skip(2).take(c);
            let rest = spec_render(s.skip(c + 4), m);
            if m.dom().contains(key) {
                RenderOut {
                    text: m[key] + rest.text,
                    missing: rest.missing,
                    unclosed: rest.unclosed,
                }
            } else {
                RenderOut {
                    text: rest.text,
                    missing: seq![key] + rest.missing,
                    unclosed: rest.unclosed,
                }
            }
        }
    } else {
        let rest = spec_render(s.drop_first(), m);
        RenderOut {
            text: seq![s[0]] + rest.text,
            missing: rest.missing,
            unclosed: rest.unclosed,
        }
    }
}

#[via_fn]
proof fn spec_render_dec(s: Seq<char>, m: Map<Seq<char>, Seq<char>>) {
    if s.len() >= 2 && s[0] == '{' && s[1] == '{' {
        lemma_find_close_range(s.skip(2));
    }
}

impl Template {
    /// Renders the body: every `{{key}}` placeholder whose key the map
    /// binds is replaced by its value.  Keys the map does not bind are
    /// collected, in order of occurrence, into one `MissingKeys` error; an
    /// unclosed `{{` is an `UnclosedPlaceholder` error.
    pub fn far(&self) -> (r: Result<String, Error>)
        ensures
            ({
                let rr = spec_render(self@.content, seq_first_map(self@.map));
                match r {
                    Ok(out) => !rr.unclosed && rr.missing.len() == 0 && out@ == rr.text,
                    Err(Error::UnclosedPlaceholder { path, .. }) => rr.unclosed && path@
                        == self@.path,
                    Err(Error::MissingKeys { path, keys }) => !rr.unclosed && rr.missing.len() > 0
                        && keys.deep_view() == rr.missing && path@ == self@.path,
                    Err(Error::EmptyTemplateError(..)) => false,
                }
            }),
    {
        let s: &str = self.content.as_str();
        let n = s.unicode_len();
        let ghost m = seq_first_map(self@.map);
        let ghost full = spec_render(s@, m);
        let mut out = String::new();
        let mut missing: Vec<String> = Vec::new();
        let mut i: usize = 0;
        proof {
            assert(s@.skip(0) =~= s@);
        }
        while i < n
            invariant
                i <= n,
                n == s@.len(),
                s@ == self@.content,
                m == seq_first_map(self@.map),
                full == spec_render(s@, m),
                ({
                    let rest = spec_render(s@.skip(i as int), m);
                    &&& full.text == out@ + rest.text
                    &&& full.missing == missing.deep_view() + rest.missing
                    &&& full.unclosed == rest.unclosed
                }),
            decreases n - i,
        {
            let ghost tail = s@.skip(i as int);
            let c0 = s.get_char(i);
            if c0 == '{' && i + 1 < n && s.get_char(i + 1) == '{' {
                // scan for the closing braces
                let mut j: usize = i + 2;
                let mut found = false;
                while !found && j < n - 1
                    invariant
                        i + 2 <= j <= n,
                        n == s@.len(),
                        tail == s@.skip(i as int),
                        i < n,
                        found ==> j + 2 <= n && tail.skip(2)[j - (i + 2)] == '}' && tail.skip(
                            2,
                        )[j - (i + 2) + 1] == '}',
                        forall|q: int| 0 <= q < j - (i + 2) ==> !(#[trigger] tail.skip(2)[q]
                            == '}' && tail.skip(2)[q + 1] == '}'),
                    decreases n - j + (if found { 0int } else { 1int }),
                {
                    if s.get_char(j) == '}' && s.get_char(j + 1) == '}' {
                        proof {
                            assert(tail.skip(2)[j - (i + 2)] == s@[j as int]);
                            assert(tail.skip(2)[j - (i + 2) + 1] == s@[j + 1]);
                        }
                        found = true;
                    } else {
                        proof {
                            assert(tail.skip(2)[j - (i + 2)] == s@[j as int]);
                            assert(tail.skip(2)[j - (i + 2) + 1] == s@[j + 1]);
                        }
                        j = j + 1;
                    }
                }
                let ghost c = spec_find_close(tail.skip(2));
                if !found {
                    proof {
                        assert(tail.skip(2).len() == n - i - 2);
                        assert forall|q: int| 0 <= q && q + 2 <= tail.skip(2).len() implies !(
                        #[trigger] tail.skip(2)[q] == '}' && tail.skip(2)[q + 1] == '}') by {
                            assert(q < j - (i + 2));
                        }
                        lemma_find_close_none(tail.skip(2));
                    }
                    return Err(Error::UnclosedPlaceholder { path: self.path.dup(), at: i });
                }
                proof {
                    lemma_find_close_at(tail.skip(2), j - (i + 2));
                    assert(c == j - (i + 2));
                    assert(tail.skip(2).take(c) =~= s@.subrange(i + 2, j as int));
                }
                let key = s.substring_char(i + 2, j);
                let ghost keyv = tail.skip(2).take(c);
                let ghost rest2 = spec_render(s@.skip(j + 2), m);
                proof {
                    assert(tail.skip(c + 4) =~= s@.skip(j + 2));
                    assert(spec_render(tail, m) == if m.dom().contains(keyv) {
                        RenderOut {
                            text: m[keyv] + rest2.text,
                            missing: rest2.missing,
                            unclosed: rest2.unclosed,
                        }
                    } else {
                        RenderOut {
                            text: rest2.text,
                            missing: seq![keyv] + rest2.missing,
                            unclosed: rest2.unclosed,
                        }
                    });
                }
                match map_get(&self.map, key) {
                    Some(v) => {
                        out.append(v.as_str());
                        proof {
                            assert(full.text =~= out@ + rest2.text);
                        }
                    },
                    None => {
                        let ghost mb = missing.deep_view();
                        missing.push(key.to_owned());
                        proof {
                            assert(missing.deep_view() =~~= mb.push(keyv));
                            assert(full.missing =~= missing.deep_view() + rest2.missing);
                        }
                    },
                }
                i = j + 2;
            } else {
                let ghost rest1 = spec_render(tail.drop_first(), m);
                proof {
                    assert(tail[0] == s@[i as int]);
                    if tail.len() >= 2 {
                        assert(tail[1] == s@[i + 1]);
                    }
                    assert(spec_render(tail, m) == RenderOut {
                        text: seq![tail[0]] + rest1.text,
                        missing: rest1.missing,
                        unclosed: rest1.unclosed,
                    });
                    assert(tail.drop_first() =~= s@.skip(i + 1));
                }
                crate::text::push_char(&mut out, c0);
                proof {
                    assert(full.text =~= out@ + rest1.text);
                }
                i = i + 1;
            }
        }
        proof {
            assert(s@.skip(n as int).len() == 0);
            assert(full.text =~= out@);
            assert(full.missing =~= missing.deep_view());
            assert(!full.unclosed);
        }
        if missing.len() > 0 {
            proof {
                assert(missing.deep_view().len() == missing@.len());
            }
            return Err(Error::MissingKeys { path: self.path.dup(), keys: missing });
        }
        proof {
            assert(missing.deep_view().len() == missing@.len());
        }
        Ok(out)
    }
}

} // verus!
