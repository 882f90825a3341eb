//! Ordinary Twine passage content and the `[[...]]` link scanner.

use crate::context::FullContext;
use crate::context::SubContextRange;
use crate::issues::ErrorList;
use crate::issues::Warning;
use crate::issues::WarningType;
use crate::output::Output;
use crate::position::Position;
use crate::positions::Positional;
use crate::scan::find_pair_from;
use crate::scan::first_pair_from;
use crate::scan::is_twee_ws;
use crate::scan::char_is_ws;
use crate::scan::last_index_of;
use crate::scan::lemma_first_pair_from;
use crate::scan::lemma_last_index_of;
use crate::scan::pair_at;
use crate::scan::rfind_char;
use crate::text::line_len_at;
use crate::text::line_start;
use crate::text::line_starts_of;
use crate::text::num_lines;
use vstd::prelude::*;
use vstd::string::StrSliceExecFns;

verus! {

/// The text of the one-indexed line `l` of `text`, without its newline.
pub open spec fn line_of(text: Seq<char>, l: int) -> Seq<char> {
    text.subrange(
        line_start(text, l - 1),
        line_start(text, l - 1) + line_len_at(text, l - 1),
    )
}

/// The target a link's inner text names: the text after the last `|` if
/// there is a pipe; else the text before the first `<-`; else the text
/// after the first `->`; else the whole inner text.
pub open spec fn link_target(inner: Seq<char>) -> Seq<char> {
    let lp = last_index_of(inner, '|');
    if lp >= 0 {
        inner.subrange(lp + 1, inner.len() as int)
    } else {
        match first_pair_from(inner, '<', '-', 0) {
            Some(i) => inner.subrange(0, i),
            None => match first_pair_from(inner, '-', '>', 0) {
                Some(i) => inner.subrange(i + 2, inner.len() as int),
                None => inner,
            },
        }
    }
}

/// Whether a link target begins or ends with whitespace.
pub open spec fn target_has_ws(t: Seq<char>) -> bool {
    t.len() > 0 && (is_twee_ws(t[0]) || is_twee_ws(t[t.len() - 1]))
}

/// Scans one line for links from offset `from` on: each closed link's
/// opening `[[` and closing `]]` offsets in order, and the offset of an
/// unclosed `[[` if the scan of the line stopped at one.
pub open spec fn scan_line(line: Seq<char>, from: int) -> (Seq<(int, int)>, Option<int>)
    decreases line.len() - from,
    via scan_line_decreases
{
    match first_pair_from(line, '[', '[', from) {
        None => (Seq::empty(), None),
        Some(x) => match first_pair_from(line, ']', ']', x) {
            None => (Seq::empty(), Some(x)),
            Some(e) => {
                let rest = scan_line(line, e);
                (seq![(x, e)] + rest.0, rest.1)
            },
        },
    }
}

#[via_fn]
proof fn scan_line_decreases(line: Seq<char>, from: int) {
    if 0 <= from && from <= line.len() {
        lemma_first_pair_from(line, '[', '[', from);
        match first_pair_from(line, '[', '[', from) {
            None => {},
            Some(x) => {
                lemma_first_pair_from(line, ']', ']', x);
            },
        }
    }
}

/// The facts the scan of a line guarantees: every reported offset pair is
/// a real `[[`/`]]` pair with the opener first, and an unclosed report
/// points at a real `[[`.
pub proof fn lemma_scan_line(line: Seq<char>, from: int)
    requires
        0 <= from <= line.len(),
    ensures
        forall|k: int|
            0 <= k < scan_line(line, from).0.len() ==> {
                let p = #[trigger] scan_line(line, from).0[k];
                &&& from <= p.0
                &&& p.0 + 2 <= p.1
                &&& p.1 + 1 < line.len()
                &&& pair_at(line, '[', '[', p.0)
                &&& pair_at(line, ']', ']', p.1)
            },
        (match scan_line(line, from).1 {
            Some(x) => from <= x && pair_at(line, '[', '[', x),
            None => true,
        }),
    decreases line.len() - from,
{
    lemma_first_pair_from(line, '[', '[', from);
    match first_pair_from(line, '[', '[', from) {
        None => {},
        Some(x) => {
            lemma_first_pair_from(line, ']', ']', x);
            match first_pair_from(line, ']', ']', x) {
                None => {},
                Some(e) => {
                    lemma_scan_line(line, e);
                },
            }
        },
    }
}

/// A link to a twee passage contained within a twee passage.
#[derive(Clone, Debug, PartialEq, Eq)]
pub struct TwineLink {
    /// The name of the passage this link points to
    pub target: String,

    /// The context of the link, spanning its brackets
    pub context: FullContext,

    /// The coarse position of the link
    pub position: crate::positions::Position,
}

impl TwineLink {
    /// Creates a new link with a default position.
    pub fn new(target: String, context: FullContext) -> (r: TwineLink)
        ensures
            r.target == target,
            r.context == context,
            r.position == crate::positions::Position::StoryLevel,
    {
        TwineLink { target, context, position: crate::positions::Position::StoryLevel }
    }
}

impl Positional for TwineLink {
    fn get_position(&self) -> &crate::positions::Position {
        &self.position
    }

    fn set_row(&mut self, row: usize) {
        self.position.set_row(row);
    }

    fn set_column(&mut self, col: usize) {
        self.position.set_column(col);
    }

    fn offset_row(&mut self, offset: usize) {
        self.position.offset_row(offset);
    }

    fn offset_column(&mut self, offset: usize) {
        self.position.offset_column(offset);
    }

    fn set_file(&mut self, file: String) {
        self.position.set_file(file);
    }
}

/// A link of the parsed content matches its descriptor: `d` is the
/// link's line and its brackets' offsets within that line, the target is
/// what the inner text names, and the link's context spans bracket to
/// bracket.
pub open spec fn link_matches(
    link: TwineLink,
    d: (int, int, int),
    text: Seq<char>,
    fname: Option<Seq<char>>,
) -> bool {
    &&& link.target@ == link_target(line_of(text, d.0).subrange(d.1 + 2, d.2))
    &&& link.context.wf()
    &&& link.context.text() == text
    &&& link.context.spec_file_name() == fname
    &&& link.context.spec_start().line == d.0
    &&& link.context.spec_start().column == d.1 + 1
    &&& link.context.spec_end().line == d.0
    &&& link.context.spec_end().column == d.2 + 2
    &&& link.position == crate::positions::Position::StoryLevel
}

/// A warning of the scan matches its descriptor `(line, from column, to
/// column, unclosed)`: an unclosed-link warning or a whitespace warning
/// whose context spans the descriptor's columns.
pub open spec fn scan_warn_matches(
    w: Warning,
    d: (int, int, int, bool),
    text: Seq<char>,
    fname: Option<Seq<char>>,
) -> bool {
    &&& w.kind == (if d.3 {
        WarningType::UnclosedLink
    } else {
        WarningType::WhitespaceInLink
    })
    &&& (match w.context {
        Some(c) => {
            &&& c.wf()
            &&& c.text() == text
            &&& c.spec_file_name() == fname
            &&& c.spec_start().line == d.0
            &&& c.spec_start().column == d.1
            &&& c.spec_end().line == d.0
            &&& c.spec_end().column == d.2
        },
        None => false,
    })
    &&& w.referent is None
    &&& w.position == crate::positions::Position::StoryLevel
    &&& w.context_len is None
}

/// The link descriptors of lines `l` through `el` of `text`: each closed
/// link's line and bracket offsets, in scan order.
pub open spec fn links_in_lines(text: Seq<char>, l: int, el: int) -> Seq<(int, int, int)>
    decreases el - l + 1,
{
    if l > el || el - l + 1 < 0 {
        Seq::empty()
    } else {
        scan_line(line_of(text, l), 0).0.map_values(|p: (int, int)| (l, p.0, p.1))
            + links_in_lines(text, l + 1, el)
    }
}

/// The warning descriptors of one line: a whitespace warning for each
/// closed link whose target begins or ends with whitespace, in scan
/// order, then an unclosed-link warning covering the rest of the line if
/// the scan stopped at an unclosed `[[`.
pub open spec fn warns_in_line(text: Seq<char>, l: int) -> Seq<(int, int, int, bool)> {
    let line = line_of(text, l);
    let sc = scan_line(line, 0);
    let ws = sc.0.filter(
        |p: (int, int)| target_has_ws(link_target(line.subrange(p.0 + 2, p.1))),
    ).map_values(|p: (int, int)| (l, p.0 + 1, p.1 + 2, false));
    match sc.1 {
        Some(x) => ws.push((l, x + 1, line.len() as int, true)),
        None => ws,
    }
}

/// The warning descriptors of lines `l` through `el`, line by line.
pub open spec fn warns_in_lines(text: Seq<char>, l: int, el: int) -> Seq<(int, int, int, bool)>
    decreases el - l + 1,
{
    if l > el || el - l + 1 < 0 {
        Seq::empty()
    } else {
        warns_in_line(text, l) + warns_in_lines(text, l + 1, el)
    }
}

} // verus!

verus! {

/// Extracts the target a link's inner text names.
fn extract_target(inner: &str) -> (r: String)
    ensures
        r@ == link_target(inner@),
{
    let n = inner.unicode_len();
    proof {
        lemma_last_index_of(inner@, '|');
        lemma_first_pair_from(inner@, '<', '-', 0);
        lemma_first_pair_from(inner@, '-', '>', 0);
    }
    match rfind_char(inner, '|') {
        Some(lp) => inner.substring_char(lp + 1, n).to_owned(),
        None => match find_pair_from(inner, '<', '-', 0) {
            Some(i) => inner.substring_char(0, i).to_owned(),
            None => match find_pair_from(inner, '-', '>', 0) {
                Some(i) => inner.substring_char(i + 2, n).to_owned(),
                None => inner.to_owned(),
            },
        },
    }
}

/// Whether `t` begins or ends with whitespace.
fn has_edge_ws(t: &str) -> (r: bool)
    ensures
        r == target_has_ws(t@),
{
    let n = t.unicode_len();
    if n == 0 {
        false
    } else {
        char_is_ws(t.get_char(0)) || char_is_ws(t.get_char(n - 1))
    }
}

/// Scans one line for its closed links and a possible unclosed opener.
fn scan_line_exec(line: &str) -> (r: (Vec<(usize, usize)>, Option<usize>))
    ensures
        r.0@.map_values(|p: (usize, usize)| (p.0 as int, p.1 as int)) == scan_line(line@, 0).0,
        (match r.1 {
            Some(x) => scan_line(line@, 0).1 == Some(x as int),
            None => scan_line(line@, 0).1 is None,
        }),
{
    let mut pairs: Vec<(usize, usize)> = Vec::new();
    let mut start: usize = 0;
    proof {
        assert(pairs@.map_values(|p: (usize, usize)| (p.0 as int, p.1 as int)) =~= Seq::<(
            int,
            int,
        )>::empty());
    }
    loop
        invariant
            start <= line@.len(),
            scan_line(line@, 0).0 == pairs@.map_values(|p: (usize, usize)| (p.0 as int, p.1 as int))
                + scan_line(line@, start as int).0,
            scan_line(line@, 0).1 == scan_line(line@, start as int).1,
        decreases line@.len() - start,
    {
        proof {
            lemma_first_pair_from(line@, '[', '[', start as int);
        }
        match find_pair_from(line, '[', '[', start) {
            None => {
                proof {
                    assert(pairs@.map_values(|p: (usize, usize)| (p.0 as int, p.1 as int))
                        + Seq::<(int, int)>::empty() =~= pairs@.map_values(
                        |p: (usize, usize)| (p.0 as int, p.1 as int),
                    ));
                }
                return (pairs, None);
            },
            Some(x) => {
                proof {
                    lemma_first_pair_from(line@, ']', ']', x as int);
                }
                match find_pair_from(line, ']', ']', x) {
                    None => {
                        return (pairs, Some(x));
                    },
                    Some(e) => {
                        let ghost before = pairs@.map_values(
                            |p: (usize, usize)| (p.0 as int, p.1 as int),
                        );
                        pairs.push((x, e));
                        proof {
                            assert(pairs@.map_values(|p: (usize, usize)| (p.0 as int, p.1 as int))
                                =~= before.push((x as int, e as int)));
                            assert(before + (seq![(x as int, e as int)] + scan_line(
                                line@,
                                e as int,
                            ).0) =~= before.push((x as int, e as int)) + scan_line(
                                line@,
                                e as int,
                            ).0);
                        }
                        start = e;
                    },
                }
            },
        }
    }
}

/// Closed links match their descriptors one for one.
pub open spec fn links_match_seq(
    v: Seq<TwineLink>,
    d: Seq<(int, int, int)>,
    text: Seq<char>,
    fname: Option<Seq<char>>,
) -> bool {
    &&& v.len() == d.len()
    &&& forall|k: int| 0 <= k < v.len() ==> link_matches(#[trigger] v[k], d[k], text, fname)
}

/// Scan warnings match their descriptors one for one.
pub open spec fn warns_match_seq(
    v: Seq<Warning>,
    d: Seq<(int, int, int, bool)>,
    text: Seq<char>,
    fname: Option<Seq<char>>,
) -> bool {
    &&& v.len() == d.len()
    &&& forall|k: int| 0 <= k < v.len() ==> scan_warn_matches(#[trigger] v[k], d[k], text, fname)
}

/// Splitting the last line off a run of scanned lines.
proof fn lemma_links_in_lines_snoc(text: Seq<char>, l: int, el: int)
    requires
        l <= el,
    ensures
        links_in_lines(text, l, el) == links_in_lines(text, l, el - 1) + scan_line(
            line_of(text, el),
            0,
        ).0.map_values(|p: (int, int)| (el, p.0, p.1)),
    decreases el - l,
{
    let m = scan_line(line_of(text, el), 0).0.map_values(|p: (int, int)| (el, p.0, p.1));
    if l == el {
        assert(links_in_lines(text, l + 1, el) =~= Seq::<(int, int, int)>::empty());
        assert(links_in_lines(text, l, el) =~= m);
        assert(links_in_lines(text, l, el - 1) + m =~= m);
    } else {
        lemma_links_in_lines_snoc(text, l + 1, el);
        let ml = scan_line(line_of(text, l), 0).0.map_values(|p: (int, int)| (l, p.0, p.1));
        assert(links_in_lines(text, l, el) == ml + (links_in_lines(text, l + 1, el - 1) + m));
        assert(links_in_lines(text, l, el - 1) == ml + links_in_lines(text, l + 1, el - 1));
        assert(ml + (links_in_lines(text, l + 1, el - 1) + m) =~= (ml + links_in_lines(
            text,
            l + 1,
            el - 1,
        )) + m);
    }
}

/// The same split for warning descriptors.
proof fn lemma_warns_in_lines_snoc(text: Seq<char>, l: int, el: int)
    requires
        l <= el,
    ensures
        warns_in_lines(text, l, el) == warns_in_lines(text, l, el - 1) + warns_in_line(text, el),
    decreases el - l,
{
    let m = warns_in_line(text, el);
    if l == el {
        assert(warns_in_lines(text, l + 1, el) =~= Seq::<(int, int, int, bool)>::empty());
        assert(warns_in_lines(text, l, el) =~= m);
        assert(warns_in_lines(text, l, el - 1) + m =~= m);
    } else {
        lemma_warns_in_lines_snoc(text, l + 1, el);
        let ml = warns_in_line(text, l);
        assert(warns_in_lines(text, l, el) == ml + (warns_in_lines(text, l + 1, el - 1) + m));
        assert(warns_in_lines(text, l, el - 1) == ml + warns_in_lines(text, l + 1, el - 1));
        assert(ml + (warns_in_lines(text, l + 1, el - 1) + m) =~= (ml + warns_in_lines(
            text,
            l + 1,
            el - 1,
        )) + m);
    }
}

} // verus!

verus! {

/// The contents of an ordinary Twine passage: the body text with an
/// ending newline, the passage id, and the links scanned out of the body.
#[derive(Debug)]
pub struct TwineContent {
    /// The content of the passage
    pub content: String,

    /// The pid (Passage ID) of the passage
    pub pid: usize,

    /// The links scanned out of the body, in scan order
    pub links: Vec<TwineLink>,
}

impl TwineContent {
    /// The links scanned out of the body, in scan order.
    pub open spec fn spec_links(&self) -> Seq<TwineLink> {
        self.links@
    }

    /// Gets all the links contained within this content.
    pub fn get_links(&self) -> (r: &Vec<TwineLink>)
        ensures
            r@ == self.spec_links(),
    {
        &self.links
    }

    /// Parses a `TwineContent` out of the given context, which must span
    /// whole lines of its buffer.  The content is the context's text with
    /// a newline appended; the links and the unclosed-link and
    /// whitespace-in-link warnings are exactly what the line scan of the
    /// spanned lines yields, in scan order.
    #[verifier::rlimit(100)]
    #[verifier::spinoff_prover]
    pub fn parse(context: FullContext) -> (out: Output<Result<TwineContent, ErrorList>>)
        requires
            context.wf(),
            context.spec_start().column == 1,
            context.spec_end().column as int == line_len_at(
                context.text(),
                context.spec_end().line as int - 1,
            ),
        ensures
            out.spec_output() is Ok,
            warns_match_seq(
                out.spec_warnings(),
                warns_in_lines(
                    context.text(),
                    context.spec_start().line as int,
                    context.spec_end().line as int,
                ),
                context.text(),
                context.spec_file_name(),
            ),
            (match out.spec_output() {
                Ok(tc) => {
                    &&& tc.content@ == context.spec_contents().push('\n')
                    &&& tc.pid == 1
                    &&& links_match_seq(
                        tc.spec_links(),
                        links_in_lines(
                            context.text(),
                            context.spec_start().line as int,
                            context.spec_end().line as int,
                        ),
                        context.text(),
                        context.spec_file_name(),
                    )
                },
                Err(_) => false,
            }),
    {
        let ghost text = context.text();
        let ghost fname = context.spec_file_name();
        let sl = context.get_start_position().line;
        let el = context.get_end_position().line;
        proof {
            crate::text::lemma_line_starts(text);
            if el < sl {
                assert(line_starts_of(text)[el as int] <= line_starts_of(text)[sl as int - 1]);
                assert(false);
            }
        }
        let mut links: Vec<TwineLink> = Vec::new();
        let mut warnings: Vec<Warning> = Vec::new();
        let count = el - sl;
        let mut k: usize = 0;
        proof {
            assert(links_in_lines(text, sl as int, sl as int - 1) =~= Seq::<(
                int,
                int,
                int,
            )>::empty());
            assert(warns_in_lines(text, sl as int, sl as int - 1) =~= Seq::<(
                int,
                int,
                int,
                bool,
            )>::empty());
        }
        while k <= count
            invariant
                context.wf(),
                context.spec_start().column == 1,
                context.spec_end().column as int == line_len_at(
                    context.text(),
                    context.spec_end().line as int - 1,
                ),
                text == context.text(),
                fname == context.spec_file_name(),
                sl == context.spec_start().line,
                el == context.spec_end().line,
                sl <= el,
                count == el - sl,
                k <= count + 1,
                links_match_seq(
                    links@,
                    links_in_lines(text, sl as int, sl as int + k - 1),
                    text,
                    fname,
                ),
                warns_match_seq(
                    warnings@,
                    warns_in_lines(text, sl as int, sl as int + k - 1),
                    text,
                    fname,
                ),
            decreases count + 1 - k,
        {
            let l = sl + k;
            let line = context.line_text(l);
            let ghost lineseq = line@;
            proof {
                crate::text::lemma_line_starts(text);
                crate::text::lemma_line_in_bounds(text, l as int - 1);
                assert(0 <= line_start(text, l as int - 1));
                assert(line_start(text, l as int - 1) + line_len_at(text, l as int - 1)
                    <= text.len());
                assert(0 <= line_len_at(text, l as int - 1));
                assert(lineseq == line_of(text, l as int));
                assert(line_of(text, l as int).len() == line_len_at(text, l as int - 1));
            }
            let (pairs, unclosed) = scan_line_exec(line);
            let ghost spairs = scan_line(lineseq, 0).0;
            let ghost dprev = links_in_lines(text, sl as int, l as int - 1);
            let ghost wprev = warns_in_lines(text, sl as int, l as int - 1);
            let ghost wsp = |p: (int, int)|
                target_has_ws(link_target(line_of(text, l as int).subrange(p.0 + 2, p.1)));
            proof {
                assert(spairs.take(0) =~= Seq::<(int, int)>::empty());
                reveal(Seq::filter);
                assert(dprev + spairs.take(0).map_values(|p: (int, int)| (l as int, p.0, p.1))
                    =~= dprev);
                assert(wprev + spairs.take(0).filter(wsp).map_values(
                    |p: (int, int)| (l as int, p.0 + 1, p.1 + 2, false),
                ) =~= wprev);
            }
            let mut j: usize = 0;
            while j < pairs.len()
                invariant
                    context.wf(),
                    text == context.text(),
                    fname == context.spec_file_name(),
                    1 <= sl <= l <= el,
                    el == context.spec_end().line,
                    el as int <= num_lines(text),
                    text.len() < usize::MAX,
                    lineseq == line_of(text, l as int),
                    lineseq.len() == line_len_at(text, l as int - 1),
                    line@ == lineseq,
                    j <= pairs@.len(),
                    pairs@.map_values(|p: (usize, usize)| (p.0 as int, p.1 as int)) == spairs,
                    spairs == scan_line(lineseq, 0).0,
                    wsp == (|p: (int, int)|
                        target_has_ws(
                            link_target(line_of(text, l as int).subrange(p.0 + 2, p.1)),
                        )),
                    dprev == links_in_lines(text, sl as int, l as int - 1),
                    wprev == warns_in_lines(text, sl as int, l as int - 1),
                    links_match_seq(
                        links@,
                        dprev + spairs.take(j as int).map_values(
                            |p: (int, int)| (l as int, p.0, p.1),
                        ),
                        text,
                        fname,
                    ),
                    warns_match_seq(
                        warnings@,
                        wprev + spairs.take(j as int).filter(wsp).map_values(
                            |p: (int, int)| (l as int, p.0 + 1, p.1 + 2, false),
                        ),
                        text,
                        fname,
                    ),
                decreases pairs@.len() - j,
            {
                proof {
                    lemma_scan_line(lineseq, 0);
                    assert(spairs[j as int] == (pairs@[j as int].0 as int,
                    pairs@[j as int].1 as int));
                }
                let (x, e) = pairs[j];
                proof {
                    crate::text::lemma_line_in_bounds(text, l as int - 1);
                    assert(x as int + 2 <= e as int && e as int + 1 < lineseq.len());
                    assert(lineseq.len() <= text.len());
                }
                let inner = line.substring_char(x + 2, e);
                let target = extract_target(inner);
                let has_ws = has_edge_ws(target.as_str());
                let link_ctx = context.subcontext(
                    SubContextRange::between(Position::abs(l, x + 1), Position::abs(l, e + 2)),
                );
                let ghost dnew = (l as int, x as int, e as int);
                let ghost wnew = (l as int, x as int + 1, e as int + 2, false);
                proof {
                    assert(spairs.take(j as int + 1) =~= spairs.take(j as int).push(
                        spairs[j as int],
                    ));
                    reveal(Seq::filter);
                    assert(spairs.take(j as int + 1).drop_last() =~= spairs.take(j as int));
                    assert(wsp(spairs[j as int]) == has_ws);
                }
                if has_ws {
                    warnings.push(
                        Warning::new(WarningType::WhitespaceInLink, Some(link_ctx.clone())),
                    );
                    proof {
                        assert(spairs.take(j as int + 1).filter(wsp) =~= spairs.take(
                            j as int,
                        ).filter(wsp).push(spairs[j as int]));
                        assert(spairs.take(j as int + 1).filter(wsp).map_values(
                            |p: (int, int)| (l as int, p.0 + 1, p.1 + 2, false),
                        ) =~= spairs.take(j as int).filter(wsp).map_values(
                            |p: (int, int)| (l as int, p.0 + 1, p.1 + 2, false),
                        ).push(wnew));
                        assert(wprev + spairs.take(j as int + 1).filter(wsp).map_values(
                            |p: (int, int)| (l as int, p.0 + 1, p.1 + 2, false),
                        ) =~= (wprev + spairs.take(j as int).filter(wsp).map_values(
                            |p: (int, int)| (l as int, p.0 + 1, p.1 + 2, false),
                        )).push(wnew));
                    }
                } else {
                    proof {
                        assert(spairs.take(j as int + 1).filter(wsp) =~= spairs.take(
                            j as int,
                        ).filter(wsp));
                    }
                }
                links.push(TwineLink {
                    target,
                    context: link_ctx,
                    position: crate::positions::Position::StoryLevel,
                });
                proof {
                    assert(spairs.take(j as int + 1).map_values(
                        |p: (int, int)| (l as int, p.0, p.1),
                    ) =~= spairs.take(j as int).map_values(
                        |p: (int, int)| (l as int, p.0, p.1),
                    ).push(dnew));
                    assert(dprev + spairs.take(j as int + 1).map_values(
                        |p: (int, int)| (l as int, p.0, p.1),
                    ) =~= (dprev + spairs.take(j as int).map_values(
                        |p: (int, int)| (l as int, p.0, p.1),
                    )).push(dnew));
                }
                j += 1;
            }
            proof {
                assert(spairs.take(spairs.len() as int) =~= spairs);
            }
            match unclosed {
                Some(x) => {
                    proof {
                        lemma_scan_line(lineseq, 0);
                    }
                    let ll = line.unicode_len();
                    let wctx = context.subcontext(
                        SubContextRange::between(Position::abs(l, x + 1), Position::abs(l, ll)),
                    );
                    warnings.push(Warning::new(WarningType::UnclosedLink, Some(wctx)));
                    proof {
                        assert(warns_in_line(text, l as int) =~= spairs.filter(wsp).map_values(
                            |p: (int, int)| (l as int, p.0 + 1, p.1 + 2, false),
                        ).push((l as int, x as int + 1, lineseq.len() as int, true)));
                    }
                },
                None => {
                    proof {
                        assert(warns_in_line(text, l as int) =~= spairs.filter(wsp).map_values(
                            |p: (int, int)| (l as int, p.0 + 1, p.1 + 2, false),
                        ));
                    }
                },
            }
            proof {
                lemma_links_in_lines_snoc(text, sl as int, l as int);
                lemma_warns_in_lines_snoc(text, sl as int, l as int);
                assert(dprev + spairs.map_values(|p: (int, int)| (l as int, p.0, p.1))
                    =~= links_in_lines(text, sl as int, l as int));
                assert(wprev + warns_in_line(text, l as int) =~= warns_in_lines(
                    text,
                    sl as int,
                    l as int,
                ));
            }
            k += 1;
        }
        let mut content = context.get_contents().to_owned();
        crate::scan::push_char(&mut content, '\n');
        Output::new(Ok(TwineContent { content, pid: 1, links })).with_warnings(warnings)
    }
}

} // verus!
